//! Resolution errors. Every error is fatal for the run: the caller
//! aborts the whole operation with a human-readable message.

use vstd::prelude::*;

verus! {

/// Mathematical view of a resolution error.
#[verifier::ext_equal]
pub ghost enum ResolveErrorView {
    /// The requested package does not exist in the registry.
    PackageNotFound { package: Seq<char> },
    /// The selected version string is not a published version.
    VersionNotFound { package: Seq<char>, version: Seq<char> },
    /// A bounded constraint has no satisfying candidate.
    NoMatch { package: Seq<char>, constraint: Seq<char> },
}

/// Why a resolution run stopped.
#[derive(Debug, Clone, PartialEq, Eq)]
pub enum ResolveError {
    PackageNotFound { package: String },
    VersionNotFound { package: String, version: String },
    NoMatch { package: String, constraint: String },
}

impl View for ResolveError {
    type V = ResolveErrorView;

    open spec fn view(&self) -> ResolveErrorView {
        match self {
            ResolveError::PackageNotFound { package } => ResolveErrorView::PackageNotFound {
                package: package@,
            },
            ResolveError::VersionNotFound { package, version } => ResolveErrorView::VersionNotFound {
                package: package@,
                version: version@,
            },
            ResolveError::NoMatch { package, constraint } => ResolveErrorView::NoMatch {
                package: package@,
                constraint: constraint@,
            },
        }
    }
}

/// The message text an error renders to.
pub open spec fn message_view(e: ResolveErrorView) -> Seq<char> {
    match e {
        ResolveErrorView::PackageNotFound { package } => "could not find package '"@ + package
            + "'"@,
        ResolveErrorView::VersionNotFound { package, version } => "could not find version "@
            + version + " for package '"@ + package + "'"@,
        ResolveErrorView::NoMatch { package, constraint } => "no version of '"@ + package
            + "' matches "@ + constraint,
    }
}

impl ResolveError {
    /// Render the error as a line of text naming the package and the
    /// version or constraint involved.
    pub fn message(&self) -> (r: String)
        ensures
            r@ == message_view(self@),
    {
        match self {
            ResolveError::PackageNotFound { package } => {
                let mut s: String = "could not find package '".to_owned();
                s.append(package.as_str());
                s.append("'");
                s
            },
            ResolveError::VersionNotFound { package, version } => {
                let mut s: String = "could not find version ".to_owned();
                s.append(version.as_str());
                s.append(" for package '");
                s.append(package.as_str());
                s.append("'");
                s
            },
            ResolveError::NoMatch { package, constraint } => {
                let mut s: String = "no version of '".to_owned();
                s.append(package.as_str());
                s.append("' matches ");
                s.append(constraint.as_str());
                s
            },
        }
    }
}

} // verus!
