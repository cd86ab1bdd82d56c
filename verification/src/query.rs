//! Parsing of the `install` subcommand's query: `<name>[@<constraint>]`.

use vstd::prelude::*;

verus! {

/// The text before the first `'@'` of `s`, or all of `s` without one.
pub open spec fn before_at(s: Seq<char>) -> Seq<char>
    decreases s.len(),
{
    if s.len() == 0 {
        s
    } else if s[0] == '@' {
        Seq::empty()
    } else {
        seq![s[0]] + before_at(s.skip(1))
    }
}

/// The text after the first `'@'` of `s`, or empty without one.
pub open spec fn after_at(s: Seq<char>) -> Seq<char>
    decreases s.len(),
{
    if s.len() == 0 {
        s
    } else if s[0] == '@' {
        s.skip(1)
    } else {
        after_at(s.skip(1))
    }
}

pub open spec fn has_at(s: Seq<char>) -> bool {
    s.contains('@')
}

proof fn lemma_split_at_index(s: Seq<char>, i: int)
    requires
        0 <= i < s.len(),
        s[i] == '@',
        forall|j: int| 0 <= j < i ==> s[j] != '@',
    ensures
        before_at(s) == s.subrange(0, i),
        after_at(s) == s.skip(i + 1),
        has_at(s),
    decreases i,
{
    assert(s.contains('@'));
    if i == 0 {
        assert(before_at(s) =~= s.subrange(0, 0));
    } else {
        assert forall|j: int| 0 <= j < i - 1 implies s.skip(1)[j] != '@' by {
            assert(s.skip(1)[j] == s[j + 1]);
        }
        assert(s.skip(1)[i - 1] == s[i]);
        lemma_split_at_index(s.skip(1), i - 1);
        assert(before_at(s) =~= s.subrange(0, i)) by {
            assert(before_at(s.skip(1)) == s.skip(1).subrange(0, i - 1));
        }
        assert(s.skip(1).skip(i) =~= s.skip(i + 1));
    }
}

proof fn lemma_no_at(s: Seq<char>)
    requires
        !has_at(s),
    ensures
        before_at(s) == s,
    decreases s.len(),
{
    if s.len() > 0 {
        assert(s[0] != '@');
        assert forall|j: int| 0 <= j < s.skip(1).len() implies s.skip(1)[j] != '@' by {
            assert(s.skip(1)[j] == s[j + 1]);
        }
        assert(!has_at(s.skip(1)));
        lemma_no_at(s.skip(1));
        assert(seq![s[0]] + s.skip(1) =~= s);
    }
}

fn first_at_index(s: &str) -> (r: Option<usize>)
    ensures
        ({
            match r {
                Some(i) => i < s@.len() && s@[i as int] == '@' && (forall|j: int|
                    0 <= j < i ==> s@[j] != '@'),
                None => !has_at(s@),
            }
        }),
{
    let n: usize = s.unicode_len();
    let mut i: usize = 0;
    while i < n
        invariant
            i <= n,
            n == s@.len(),
            forall|j: int| 0 <= j < i ==> s@[j] != '@',
        decreases n - i,
    {
        if s.get_char(i) == '@' {
            return Some(i);
        }
        i = i + 1;
    }
    proof {
        if s@.contains('@') {
            let j = choose|j: int| 0 <= j < s@.len() && s@[j] == '@';
            assert(s@[j] != '@');
        }
    }
    None
}

/// Split an install query into the package name (before the first `@`)
/// and the optional constraint expression (between the first `@` and a
/// second one, if any).
pub fn get_version(package_query: &str) -> (r: (String, Option<String>))
    ensures
        r.0@ == before_at(package_query@),
        ({
            match r.1 {
                None => !has_at(package_query@),
                Some(v) => has_at(package_query@) && v@ == before_at(after_at(package_query@)),
            }
        }),
{
    let n: usize = package_query.unicode_len();
    match first_at_index(package_query) {
        None => {
            proof {
                lemma_no_at(package_query@);
            }
            (package_query.to_owned(), None)
        },
        Some(i) => {
            proof {
                lemma_split_at_index(package_query@, i as int);
            }
            let name: String = package_query.substring_char(0, i).to_owned();
            let rest: &str = package_query.substring_char(i + 1, n);
            proof {
                assert(rest@ =~= package_query@.skip(i as int + 1));
            }
            let constraint: String = match first_at_index(rest) {
                None => {
                    proof {
                        lemma_no_at(rest@);
                    }
                    rest.to_owned()
                },
                Some(k) => {
                    proof {
                        lemma_split_at_index(rest@, k as int);
                    }
                    rest.substring_char(0, k).to_owned()
                },
            };
            (name, Some(constraint))
        },
    }
}

} // verus!
