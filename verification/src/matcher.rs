//! The version-range matcher: turn a constraint expression and the set of
//! published versions into one concrete version string.
//!
//! Constraint forms, classified by prefix (longest first, `<=` before `<`):
//! tilde `~X.Y.Z`, caret `^X.Y.Z`, the greater-than family `>V` / `>=V`
//! (both pick the global maximum, a documented imprecision kept as is),
//! `<=V` (returns `V` verbatim, unchecked), `<V` (maximum strictly below
//! `V`), wildcard `X.Y.x` (maximum with matching major and minor, falling
//! back to the global maximum), the unconstrained forms `*`, `latest` and
//! the empty string (global maximum), and otherwise an exact version:
//! itself when published, the global maximum when not. Every maximum is
//! taken under a fixed total order -- numeric triple first, then the
//! version string itself -- so the input order never decides a tie.

use vstd::prelude::*;

use crate::errors::{ResolveError, ResolveErrorView};
use crate::semver::{
    get_version_iterations, lemma_seq_char_lt_irrefl, lemma_seq_char_lt_total,
    lemma_seq_char_lt_trans, major_of, minor_of, seq_char_lt, str_lt, version_eq,
    version_less, version_lt,
};
use crate::types::{display_name, str_eq, stringify_opt, version_keys, Package};

verus! {

/// Views of a vector of strings.
pub open spec fn string_views(v: Seq<String>) -> Seq<Seq<char>> {
    v.map_values(|s: String| s@)
}

pub open spec fn is_tilde(c: Seq<char>) -> bool {
    c.len() > 0 && c[0] == '~'
}

pub open spec fn is_caret(c: Seq<char>) -> bool {
    c.len() > 0 && c[0] == '^'
}

pub open spec fn is_greater(c: Seq<char>) -> bool {
    c.len() > 0 && c[0] == '>'
}

pub open spec fn is_below_or_equal(c: Seq<char>) -> bool {
    c.len() >= 2 && c[0] == '<' && c[1] == '='
}

pub open spec fn is_below(c: Seq<char>) -> bool {
    c.len() > 0 && c[0] == '<' && !is_below_or_equal(c)
}

pub open spec fn is_wildcard(c: Seq<char>) -> bool {
    c.len() > 0 && c[c.len() - 1] == 'x'
}

pub open spec fn is_unconstrained(c: Seq<char>) -> bool {
    c.len() == 0 || c =~= "*"@ || c =~= "latest"@
}

/// The constraint names one version exactly: it has none of the range
/// forms' marks.
pub open spec fn is_exact(c: Seq<char>) -> bool {
    !is_tilde(c) && !is_caret(c) && !is_greater(c) && !is_below_or_equal(c) && !is_below(c)
        && !is_wildcard(c) && !is_unconstrained(c)
}

/// `k` agrees with `cref` on the major component.
pub open spec fn caret_matches(k: Seq<char>, cref: Seq<char>) -> bool {
    major_of(k) == major_of(cref)
}

/// `k` agrees with `cref` on major and minor components.
pub open spec fn tilde_matches(k: Seq<char>, cref: Seq<char>) -> bool {
    major_of(k) == major_of(cref) && minor_of(k) == minor_of(cref)
}

/// The selection order: by numeric triple first; among triple-equal
/// versions the lexicographically smaller string is preferred. A fixed
/// total order, so that the input order never decides a selection.
pub open spec fn select_order_lt(a: Seq<char>, b: Seq<char>) -> bool {
    version_lt(a, b) || (version_eq(a, b) && seq_char_lt(b, a))
}

/// The selection order is total: versions not ordered either way are
/// equal strings.
pub proof fn lemma_select_order_total(a: Seq<char>, b: Seq<char>)
    ensures
        select_order_lt(a, b) || select_order_lt(b, a) || a == b,
{
    lemma_seq_char_lt_total(a, b);
}

/// The selection order is transitive.
pub proof fn lemma_select_order_trans(a: Seq<char>, b: Seq<char>, c: Seq<char>)
    requires
        select_order_lt(a, b),
        select_order_lt(b, c),
    ensures
        select_order_lt(a, c),
{
    if version_eq(a, b) && version_eq(b, c) {
        lemma_seq_char_lt_trans(c, b, a);
    }
}

/// The versions agreeing with `cref` on major and minor, in input order.
pub open spec fn tilde_candidates(keys: Seq<Seq<char>>, cref: Seq<char>) -> Seq<Seq<char>>
    decreases keys.len(),
{
    if keys.len() == 0 {
        Seq::empty()
    } else {
        let rest = tilde_candidates(keys.skip(1), cref);
        if tilde_matches(keys[0], cref) {
            seq![keys[0]] + rest
        } else {
            rest
        }
    }
}

/// The versions agreeing with `cref` on the major component, in input order.
pub open spec fn caret_candidates(keys: Seq<Seq<char>>, cref: Seq<char>) -> Seq<Seq<char>>
    decreases keys.len(),
{
    if keys.len() == 0 {
        Seq::empty()
    } else {
        let rest = caret_candidates(keys.skip(1), cref);
        if caret_matches(keys[0], cref) {
            seq![keys[0]] + rest
        } else {
            rest
        }
    }
}

/// The versions strictly below `cref` by triple ordering, in input order.
pub open spec fn below_candidates(keys: Seq<Seq<char>>, cref: Seq<char>) -> Seq<Seq<char>>
    decreases keys.len(),
{
    if keys.len() == 0 {
        Seq::empty()
    } else {
        let rest = below_candidates(keys.skip(1), cref);
        if version_lt(keys[0], cref) {
            seq![keys[0]] + rest
        } else {
            rest
        }
    }
}

/// Fold a maximum under the selection order over `keys`: the greatest
/// triple, and among triple-equal candidates the lexicographically
/// smallest string, whatever the input order.
pub open spec fn max_from(keys: Seq<Seq<char>>, best: Seq<char>) -> Seq<char>
    decreases keys.len(),
{
    if keys.len() == 0 {
        best
    } else if select_order_lt(best, keys[0]) {
        max_from(keys.skip(1), keys[0])
    } else {
        max_from(keys.skip(1), best)
    }
}

/// The maximum of `keys` by triple ordering; `None` when `keys` is empty.
pub open spec fn max_version(keys: Seq<Seq<char>>) -> Option<Seq<char>> {
    if keys.len() == 0 {
        None
    } else {
        Some(max_from(keys.skip(1), keys[0]))
    }
}

/// What the matcher selects from `keys` under constraint `c`; `None`
/// stands for a failed bounded constraint.
pub open spec fn select_spec(keys: Seq<Seq<char>>, c: Seq<char>) -> Option<Seq<char>> {
    if is_tilde(c) {
        max_version(tilde_candidates(keys, c.skip(1)))
    } else if is_caret(c) {
        max_version(caret_candidates(keys, c.skip(1)))
    } else if is_greater(c) {
        max_version(keys)
    } else if is_below_or_equal(c) {
        Some(c.skip(2))
    } else if is_below(c) {
        max_version(below_candidates(keys, c.skip(1)))
    } else if is_wildcard(c) {
        let near = tilde_candidates(keys, c);
        if near.len() > 0 {
            max_version(near)
        } else {
            max_version(keys)
        }
    } else if is_unconstrained(c) {
        max_version(keys)
    } else {
        if keys.contains(c) {
            Some(c)
        } else {
            max_version(keys)
        }
    }
}

/// The maximum folded over a sequence is, under the selection order,
/// never below any of its elements nor below the seed.
pub proof fn lemma_max_from_ge(keys: Seq<Seq<char>>, best: Seq<char>)
    ensures
        !select_order_lt(max_from(keys, best), best),
        forall|i: int|
            0 <= i < keys.len() ==> !select_order_lt(max_from(keys, best), #[trigger] keys[i]),
    decreases keys.len(),
{
    if keys.len() == 0 {
        lemma_seq_char_lt_irrefl(best);
    } else {
        let m = max_from(keys, best);
        if select_order_lt(best, keys[0]) {
            lemma_max_from_ge(keys.skip(1), keys[0]);
            if select_order_lt(m, best) {
                lemma_select_order_trans(m, best, keys[0]);
            }
        } else {
            lemma_max_from_ge(keys.skip(1), best);
            if select_order_lt(m, keys[0]) {
                lemma_select_order_total(m, best);
                if m != best && select_order_lt(best, m) {
                    lemma_select_order_trans(best, m, keys[0]);
                }
            }
        }
        assert forall|i: int|
            0 <= i < keys.len() implies !select_order_lt(max_from(keys, best), #[trigger] keys[i])
        by {
            if i > 0 {
                assert(keys.skip(1)[i - 1] == keys[i]);
            }
        }
    }
}

/// The maximum folded over a sequence is the seed or one of the elements.
pub proof fn lemma_max_from_in(keys: Seq<Seq<char>>, best: Seq<char>)
    ensures
        max_from(keys, best) == best || keys.contains(max_from(keys, best)),
    decreases keys.len(),
{
    if keys.len() > 0 {
        if select_order_lt(best, keys[0]) {
            lemma_max_from_in(keys.skip(1), keys[0]);
            if max_from(keys, best) != keys[0] {
                let j = choose|j: int|
                    0 <= j < keys.skip(1).len() && keys.skip(1)[j] == max_from(keys, best);
                assert(keys[j + 1] == max_from(keys, best));
            } else {
                assert(keys[0] == max_from(keys, best));
            }
        } else {
            lemma_max_from_in(keys.skip(1), best);
            if max_from(keys, best) != best {
                let j = choose|j: int|
                    0 <= j < keys.skip(1).len() && keys.skip(1)[j] == max_from(keys, best);
                assert(keys[j + 1] == max_from(keys, best));
            }
        }
    }
}

/// An exact constraint present in the published set selects itself, so
/// the lookup that follows yields exactly that version's descriptor.
pub proof fn lemma_exact_constraint_selects_itself(keys: Seq<Seq<char>>, c: Seq<char>)
    requires
        is_exact(c),
        keys.contains(c),
    ensures
        select_spec(keys, c) == Some(c),
{
}

/// The selection maximum depends on the candidate multiset alone:
/// rearranging the candidates never changes which version is taken.
pub proof fn lemma_max_version_order_independent(ka: Seq<Seq<char>>, kb: Seq<Seq<char>>)
    requires
        ka.to_multiset() == kb.to_multiset(),
    ensures
        max_version(ka) == max_version(kb),
{
    ka.to_multiset_ensures();
    kb.to_multiset_ensures();
    assert(kb.len() == ka.len());
    if ka.len() > 0 {
        let ra = max_from(ka.skip(1), ka[0]);
        let rb = max_from(kb.skip(1), kb[0]);
        lemma_max_from_in(ka.skip(1), ka[0]);
        lemma_max_from_in(kb.skip(1), kb[0]);
        lemma_max_from_ge(ka.skip(1), ka[0]);
        lemma_max_from_ge(kb.skip(1), kb[0]);
        assert(ka.contains(ra)) by {
            if ra != ka[0] {
                let j = choose|j: int| 0 <= j < ka.skip(1).len() && ka.skip(1)[j] == ra;
                assert(ka[j + 1] == ra);
            }
        }
        assert(kb.contains(rb)) by {
            if rb != kb[0] {
                let j = choose|j: int| 0 <= j < kb.skip(1).len() && kb.skip(1)[j] == rb;
                assert(kb[j + 1] == rb);
            }
        }
        assert(ka.contains(rb)) by {
            assert(kb.to_multiset().count(rb) > 0);
        }
        assert(kb.contains(ra)) by {
            assert(ka.to_multiset().count(ra) > 0);
        }
        assert(!select_order_lt(ra, rb)) by {
            let j = choose|j: int| 0 <= j < ka.len() && ka[j] == rb;
            if j > 0 {
                assert(ka.skip(1)[j - 1] == rb);
            }
        }
        assert(!select_order_lt(rb, ra)) by {
            let j = choose|j: int| 0 <= j < kb.len() && kb[j] == ra;
            if j > 0 {
                assert(kb.skip(1)[j - 1] == ra);
            }
        }
        lemma_select_order_total(ra, rb);
        assert(ra == rb);
    }
}

/// An unconstrained selection returns the element with the maximum
/// semantic triple, independent of the input order: over any two
/// arrangements of one multiset of versions, the selection agrees.
pub proof fn lemma_unconstrained_selection_order_independent(
    ka: Seq<Seq<char>>,
    kb: Seq<Seq<char>>,
    c: Seq<char>,
)
    requires
        is_unconstrained(c),
        ka.to_multiset() == kb.to_multiset(),
    ensures
        select_spec(ka, c) == select_spec(kb, c),
{
    reveal_strlit("*");
    reveal_strlit("latest");
    assert(select_spec(ka, c) == max_version(ka));
    assert(select_spec(kb, c) == max_version(kb));
    lemma_max_version_order_independent(ka, kb);
}

proof fn lemma_tilde_candidates_count(keys: Seq<Seq<char>>, cref: Seq<char>, v: Seq<char>)
    ensures
        tilde_candidates(keys, cref).to_multiset().count(v) == (if tilde_matches(v, cref) {
            keys.to_multiset().count(v)
        } else {
            0nat
        }),
    decreases keys.len(),
{
    broadcast use vstd::multiset::group_multiset_axioms;

    keys.to_multiset_ensures();
    tilde_candidates(keys, cref).to_multiset_ensures();
    if keys.len() == 0 {
        assert(!keys.contains(v));
        assert(!tilde_candidates(keys, cref).contains(v));
    } else {
        lemma_tilde_candidates_count(keys.skip(1), cref, v);
        keys.skip(1).to_multiset_ensures();
        assert(keys.remove(0) =~= keys.skip(1));
        assert(keys.remove(0).to_multiset() =~= keys.to_multiset().remove(keys[0]));
        assert(keys.contains(keys[0]));
        assert(keys.to_multiset().count(keys[0]) > 0);
        if tilde_matches(keys[0], cref) {
            let rest = tilde_candidates(keys.skip(1), cref);
            vstd::seq_lib::lemma_multiset_commutative(seq![keys[0]], rest);
            assert(seq![keys[0]] =~= Seq::<Seq<char>>::empty().push(keys[0]));
            Seq::<Seq<char>>::empty().to_multiset_ensures();
            assert(!Seq::<Seq<char>>::empty().contains(v));
        }
    }
}

proof fn lemma_caret_candidates_count(keys: Seq<Seq<char>>, cref: Seq<char>, v: Seq<char>)
    ensures
        caret_candidates(keys, cref).to_multiset().count(v) == (if caret_matches(v, cref) {
            keys.to_multiset().count(v)
        } else {
            0nat
        }),
    decreases keys.len(),
{
    broadcast use vstd::multiset::group_multiset_axioms;

    keys.to_multiset_ensures();
    caret_candidates(keys, cref).to_multiset_ensures();
    if keys.len() == 0 {
        assert(!keys.contains(v));
        assert(!caret_candidates(keys, cref).contains(v));
    } else {
        lemma_caret_candidates_count(keys.skip(1), cref, v);
        keys.skip(1).to_multiset_ensures();
        assert(keys.remove(0) =~= keys.skip(1));
        assert(keys.remove(0).to_multiset() =~= keys.to_multiset().remove(keys[0]));
        assert(keys.contains(keys[0]));
        assert(keys.to_multiset().count(keys[0]) > 0);
        if caret_matches(keys[0], cref) {
            let rest = caret_candidates(keys.skip(1), cref);
            vstd::seq_lib::lemma_multiset_commutative(seq![keys[0]], rest);
            assert(seq![keys[0]] =~= Seq::<Seq<char>>::empty().push(keys[0]));
            Seq::<Seq<char>>::empty().to_multiset_ensures();
            assert(!Seq::<Seq<char>>::empty().contains(v));
        }
    }
}

proof fn lemma_below_candidates_count(keys: Seq<Seq<char>>, cref: Seq<char>, v: Seq<char>)
    ensures
        below_candidates(keys, cref).to_multiset().count(v) == (if version_lt(v, cref) {
            keys.to_multiset().count(v)
        } else {
            0nat
        }),
    decreases keys.len(),
{
    broadcast use vstd::multiset::group_multiset_axioms;

    keys.to_multiset_ensures();
    below_candidates(keys, cref).to_multiset_ensures();
    if keys.len() == 0 {
        assert(!keys.contains(v));
        assert(!below_candidates(keys, cref).contains(v));
    } else {
        lemma_below_candidates_count(keys.skip(1), cref, v);
        keys.skip(1).to_multiset_ensures();
        assert(keys.remove(0) =~= keys.skip(1));
        assert(keys.remove(0).to_multiset() =~= keys.to_multiset().remove(keys[0]));
        assert(keys.contains(keys[0]));
        assert(keys.to_multiset().count(keys[0]) > 0);
        if version_lt(keys[0], cref) {
            let rest = below_candidates(keys.skip(1), cref);
            vstd::seq_lib::lemma_multiset_commutative(seq![keys[0]], rest);
            assert(seq![keys[0]] =~= Seq::<Seq<char>>::empty().push(keys[0]));
            Seq::<Seq<char>>::empty().to_multiset_ensures();
            assert(!Seq::<Seq<char>>::empty().contains(v));
        }
    }
}

proof fn lemma_tilde_candidates_perm(ka: Seq<Seq<char>>, kb: Seq<Seq<char>>, cref: Seq<char>)
    requires
        ka.to_multiset() == kb.to_multiset(),
    ensures
        tilde_candidates(ka, cref).to_multiset() == tilde_candidates(kb, cref).to_multiset(),
{
    assert forall|v: Seq<char>|
        #[trigger] tilde_candidates(ka, cref).to_multiset().count(v) == tilde_candidates(
            kb,
            cref,
        ).to_multiset().count(v) by {
        lemma_tilde_candidates_count(ka, cref, v);
        lemma_tilde_candidates_count(kb, cref, v);
    }
    assert(tilde_candidates(ka, cref).to_multiset() =~= tilde_candidates(kb, cref).to_multiset());
}

proof fn lemma_caret_candidates_perm(ka: Seq<Seq<char>>, kb: Seq<Seq<char>>, cref: Seq<char>)
    requires
        ka.to_multiset() == kb.to_multiset(),
    ensures
        caret_candidates(ka, cref).to_multiset() == caret_candidates(kb, cref).to_multiset(),
{
    assert forall|v: Seq<char>|
        #[trigger] caret_candidates(ka, cref).to_multiset().count(v) == caret_candidates(
            kb,
            cref,
        ).to_multiset().count(v) by {
        lemma_caret_candidates_count(ka, cref, v);
        lemma_caret_candidates_count(kb, cref, v);
    }
    assert(caret_candidates(ka, cref).to_multiset() =~= caret_candidates(kb, cref).to_multiset());
}

proof fn lemma_below_candidates_perm(ka: Seq<Seq<char>>, kb: Seq<Seq<char>>, cref: Seq<char>)
    requires
        ka.to_multiset() == kb.to_multiset(),
    ensures
        below_candidates(ka, cref).to_multiset() == below_candidates(kb, cref).to_multiset(),
{
    assert forall|v: Seq<char>|
        #[trigger] below_candidates(ka, cref).to_multiset().count(v) == below_candidates(
            kb,
            cref,
        ).to_multiset().count(v) by {
        lemma_below_candidates_count(ka, cref, v);
        lemma_below_candidates_count(kb, cref, v);
    }
    assert(below_candidates(ka, cref).to_multiset() =~= below_candidates(kb, cref).to_multiset());
}

/// Selection never depends on the order the published versions arrive
/// in, whatever the constraint class: two registrations of one multiset
/// of versions give one selection.
pub proof fn lemma_selection_order_independent(
    ka: Seq<Seq<char>>,
    kb: Seq<Seq<char>>,
    c: Seq<char>,
)
    requires
        ka.to_multiset() == kb.to_multiset(),
    ensures
        select_spec(ka, c) == select_spec(kb, c),
{
    if is_tilde(c) {
        lemma_tilde_candidates_perm(ka, kb, c.skip(1));
        lemma_max_version_order_independent(
            tilde_candidates(ka, c.skip(1)),
            tilde_candidates(kb, c.skip(1)),
        );
    } else if is_caret(c) {
        lemma_caret_candidates_perm(ka, kb, c.skip(1));
        lemma_max_version_order_independent(
            caret_candidates(ka, c.skip(1)),
            caret_candidates(kb, c.skip(1)),
        );
    } else if is_greater(c) {
        lemma_max_version_order_independent(ka, kb);
    } else if is_below_or_equal(c) {
    } else if is_below(c) {
        lemma_below_candidates_perm(ka, kb, c.skip(1));
        lemma_max_version_order_independent(
            below_candidates(ka, c.skip(1)),
            below_candidates(kb, c.skip(1)),
        );
    } else if is_wildcard(c) {
        lemma_tilde_candidates_perm(ka, kb, c);
        let na = tilde_candidates(ka, c);
        let nb = tilde_candidates(kb, c);
        na.to_multiset_ensures();
        nb.to_multiset_ensures();
        assert(na.len() == nb.len());
        if na.len() > 0 {
            lemma_max_version_order_independent(na, nb);
        } else {
            lemma_max_version_order_independent(ka, kb);
        }
    } else if is_unconstrained(c) {
        lemma_max_version_order_independent(ka, kb);
    } else {
        ka.to_multiset_ensures();
        kb.to_multiset_ensures();
        assert(ka.contains(c) == kb.contains(c)) by {
            if ka.contains(c) {
                assert(ka.to_multiset().count(c) > 0);
            }
            if kb.contains(c) {
                assert(kb.to_multiset().count(c) > 0);
            }
        }
        if !ka.contains(c) {
            lemma_max_version_order_independent(ka, kb);
        }
    }
}

fn select_preferred(current: &str, candidate: &str) -> (r: bool)
    ensures
        r == select_order_lt(current@, candidate@),
{
    let tc: (u64, u64, u64) = get_version_iterations(current);
    let tk: (u64, u64, u64) = get_version_iterations(candidate);
    if tc.0 == tk.0 && tc.1 == tk.1 && tc.2 == tk.2 {
        str_lt(candidate, current)
    } else {
        version_less(current, candidate)
    }
}

/// The maximum of a candidate list under the selection order: greatest
/// numeric triple, smallest string among triple-equal candidates.
fn max_of(cands: &Vec<String>) -> (r: Option<String>)
    ensures
        ({
            match (r, max_version(string_views(cands@))) {
                (Some(s), Some(v)) => s@ == v,
                (None, None) => true,
                _ => false,
            }
        }),
{
    let ghost views = string_views(cands@);
    if cands.len() == 0 {
        return None;
    }
    let mut best: String = cands[0].clone();
    let mut i: usize = 1;
    proof {
        assert(views[0] == cands@[0]@);
    }
    while i < cands.len()
        invariant
            1 <= i <= cands.len(),
            views == string_views(cands@),
            views.len() == cands@.len(),
            max_from(views.skip(1), views[0]) == max_from(views.skip(i as int), best@),
        decreases cands.len() - i,
    {
        proof {
            assert(views[i as int] == cands@[i as int]@);
            assert(views.skip(i as int)[0] == views[i as int]);
            assert(views.skip(i as int).skip(1) =~= views.skip(i as int + 1));
        }
        if select_preferred(best.as_str(), cands[i].as_str()) {
            best = cands[i].clone();
        }
        i = i + 1;
    }
    proof {
        assert(views.skip(i as int).len() == 0);
    }
    Some(best)
}

fn keys_of_package(package: &Package) -> (keys: Vec<String>)
    ensures
        string_views(keys@) == version_keys(package@.versions),
{
    let mut keys: Vec<String> = Vec::new();
    let mut i: usize = 0;
    while i < package.versions.len()
        invariant
            i <= package.versions.len(),
            keys@.len() == i,
            forall|j: int|
                0 <= j < i ==> (#[trigger] keys@[j])@ == package.versions@[j].0@,
        decreases package.versions.len() - i,
    {
        keys.push(package.versions[i].0.clone());
        i = i + 1;
    }
    proof {
        assert(string_views(keys@) =~= version_keys(package@.versions));
    }
    keys
}

fn tilde_filter(keys: &Vec<String>, cref: &str) -> (out: Vec<String>)
    ensures
        string_views(out@) == tilde_candidates(string_views(keys@), cref@),
{
    let ghost views = string_views(keys@);
    let ct: (u64, u64, u64) = get_version_iterations(cref);
    let mut out: Vec<String> = Vec::new();
    let mut i: usize = 0;
    proof {
        assert(views.skip(0) =~= views);
        assert(string_views(out@).len() == 0);
    }
    while i < keys.len()
        invariant
            i <= keys.len(),
            views == string_views(keys@),
            views.len() == keys@.len(),
            ct.0 as nat == major_of(cref@),
            ct.1 as nat == minor_of(cref@),
            string_views(out@) + tilde_candidates(views.skip(i as int), cref@)
                == tilde_candidates(views, cref@),
        decreases keys.len() - i,
    {
        let kt: (u64, u64, u64) = get_version_iterations(keys[i].as_str());
        proof {
            assert(views[i as int] == keys@[i as int]@);
            assert(views.skip(i as int)[0] == views[i as int]);
            assert(views.skip(i as int).skip(1) =~= views.skip(i as int + 1));
        }
        let ghost prev = string_views(out@);
        if kt.0 == ct.0 && kt.1 == ct.1 {
            out.push(keys[i].clone());
            proof {
                assert(tilde_matches(views[i as int], cref@));
                assert(string_views(out@) =~= prev.push(views[i as int]));
                assert(prev.push(views[i as int]) + tilde_candidates(
                    views.skip(i as int + 1),
                    cref@,
                ) =~= prev + (seq![views[i as int]] + tilde_candidates(
                    views.skip(i as int + 1),
                    cref@,
                )));
            }
        } else {
            proof {
                assert(!tilde_matches(views[i as int], cref@));
            }
        }
        i = i + 1;
    }
    proof {
        assert(views.skip(i as int).len() == 0);
        assert(string_views(out@) + tilde_candidates(views.skip(i as int), cref@)
            =~= string_views(out@));
    }
    out
}

fn caret_filter(keys: &Vec<String>, cref: &str) -> (out: Vec<String>)
    ensures
        string_views(out@) == caret_candidates(string_views(keys@), cref@),
{
    let ghost views = string_views(keys@);
    let ct: (u64, u64, u64) = get_version_iterations(cref);
    let mut out: Vec<String> = Vec::new();
    let mut i: usize = 0;
    proof {
        assert(views.skip(0) =~= views);
        assert(string_views(out@).len() == 0);
    }
    while i < keys.len()
        invariant
            i <= keys.len(),
            views == string_views(keys@),
            views.len() == keys@.len(),
            ct.0 as nat == major_of(cref@),
            string_views(out@) + caret_candidates(views.skip(i as int), cref@)
                == caret_candidates(views, cref@),
        decreases keys.len() - i,
    {
        let kt: (u64, u64, u64) = get_version_iterations(keys[i].as_str());
        proof {
            assert(views[i as int] == keys@[i as int]@);
            assert(views.skip(i as int)[0] == views[i as int]);
            assert(views.skip(i as int).skip(1) =~= views.skip(i as int + 1));
        }
        let ghost prev = string_views(out@);
        if kt.0 == ct.0 {
            out.push(keys[i].clone());
            proof {
                assert(caret_matches(views[i as int], cref@));
                assert(string_views(out@) =~= prev.push(views[i as int]));
                assert(prev.push(views[i as int]) + caret_candidates(
                    views.skip(i as int + 1),
                    cref@,
                ) =~= prev + (seq![views[i as int]] + caret_candidates(
                    views.skip(i as int + 1),
                    cref@,
                )));
            }
        } else {
            proof {
                assert(!caret_matches(views[i as int], cref@));
            }
        }
        i = i + 1;
    }
    proof {
        assert(views.skip(i as int).len() == 0);
        assert(string_views(out@) + caret_candidates(views.skip(i as int), cref@)
            =~= string_views(out@));
    }
    out
}

fn below_filter(keys: &Vec<String>, cref: &str) -> (out: Vec<String>)
    ensures
        string_views(out@) == below_candidates(string_views(keys@), cref@),
{
    let ghost views = string_views(keys@);
    let mut out: Vec<String> = Vec::new();
    let mut i: usize = 0;
    proof {
        assert(views.skip(0) =~= views);
        assert(string_views(out@).len() == 0);
    }
    while i < keys.len()
        invariant
            i <= keys.len(),
            views == string_views(keys@),
            views.len() == keys@.len(),
            string_views(out@) + below_candidates(views.skip(i as int), cref@)
                == below_candidates(views, cref@),
        decreases keys.len() - i,
    {
        proof {
            assert(views[i as int] == keys@[i as int]@);
            assert(views.skip(i as int)[0] == views[i as int]);
            assert(views.skip(i as int).skip(1) =~= views.skip(i as int + 1));
        }
        let ghost prev = string_views(out@);
        if version_less(keys[i].as_str(), cref) {
            out.push(keys[i].clone());
            proof {
                assert(string_views(out@) =~= prev.push(views[i as int]));
                assert(prev.push(views[i as int]) + below_candidates(
                    views.skip(i as int + 1),
                    cref@,
                ) =~= prev + (seq![views[i as int]] + below_candidates(
                    views.skip(i as int + 1),
                    cref@,
                )));
            }
        }
        i = i + 1;
    }
    proof {
        assert(views.skip(i as int).len() == 0);
        assert(string_views(out@) + below_candidates(views.skip(i as int), cref@)
            =~= string_views(out@));
    }
    out
}

fn contains_key(keys: &Vec<String>, version: &str) -> (r: bool)
    ensures
        r == string_views(keys@).contains(version@),
{
    let ghost views = string_views(keys@);
    let mut i: usize = 0;
    while i < keys.len()
        invariant
            i <= keys.len(),
            views == string_views(keys@),
            views.len() == keys@.len(),
            forall|j: int| 0 <= j < i ==> (#[trigger] views[j]) != version@,
        decreases keys.len() - i,
    {
        proof {
            assert(views[i as int] == keys@[i as int]@);
        }
        if str_eq(keys[i].as_str(), version) {
            proof {
                assert(views[i as int] == version@);
            }
            return true;
        }
        i = i + 1;
    }
    proof {
        if views.contains(version@) {
            let j = choose|j: int| 0 <= j < views.len() && views[j] == version@;
            assert(views[j] != version@);
        }
    }
    false
}

fn no_match_error(package: &Package, version: &str) -> (e: ResolveError)
    ensures
        e@ == (ResolveErrorView::NoMatch {
            package: display_name(package@.name),
            constraint: version@,
        }),
{
    ResolveError::NoMatch { package: stringify_opt(&package.name), constraint: version.to_owned() }
}

fn unconstrained_check(version: &str, n: usize) -> (r: bool)
    requires
        n == version@.len(),
    ensures
        r == is_unconstrained(version@),
{
    proof {
        reveal_strlit("*");
        reveal_strlit("latest");
    }
    if n == 0 {
        return true;
    }
    if n == 1 && version.get_char(0) == '*' {
        proof {
            assert(version@ =~= "*"@);
        }
        return true;
    }
    if n == 6 {
        let ok: bool = version.get_char(0) == 'l' && version.get_char(1) == 'a'
            && version.get_char(2) == 't' && version.get_char(3) == 'e' && version.get_char(4)
            == 's' && version.get_char(5) == 't';
        if ok {
            proof {
                assert(version@ =~= "latest"@);
            }
            return true;
        }
        return false;
    }
    false
}

/// Select the one version string that `version` (a constraint
/// expression) picks out of `package`'s published versions. Fails with a
/// no-match error exactly when the constraint is bounded and no
/// candidate satisfies it.
pub fn parse_version(package: &Package, version: &str) -> (r: Result<String, ResolveError>)
    ensures
        ({
            match (r, select_spec(version_keys(package@.versions), version@)) {
                (Ok(s), Some(v)) => s@ == v,
                (Err(e), None) => e@ == (ResolveErrorView::NoMatch {
                    package: display_name(package@.name),
                    constraint: version@,
                }),
                _ => false,
            }
        }),
{
    let keys: Vec<String> = keys_of_package(package);
    let n: usize = version.unicode_len();
    if n > 0 {
        let c0: char = version.get_char(0);
        if c0 == '~' {
            let rest: &str = version.substring_char(1, n);
            proof {
                assert(rest@ =~= version@.skip(1));
            }
            let cands: Vec<String> = tilde_filter(&keys, rest);
            return match max_of(&cands) {
                Some(s) => Ok(s),
                None => Err(no_match_error(package, version)),
            };
        }
        if c0 == '^' {
            let rest: &str = version.substring_char(1, n);
            proof {
                assert(rest@ =~= version@.skip(1));
            }
            let cands: Vec<String> = caret_filter(&keys, rest);
            return match max_of(&cands) {
                Some(s) => Ok(s),
                None => Err(no_match_error(package, version)),
            };
        }
        if c0 == '>' {
            return match max_of(&keys) {
                Some(s) => Ok(s),
                None => Err(no_match_error(package, version)),
            };
        }
        if c0 == '<' {
            if n >= 2 && version.get_char(1) == '=' {
                let rest: &str = version.substring_char(2, n);
                proof {
                    assert(rest@ =~= version@.skip(2));
                }
                return Ok(rest.to_owned());
            }
            let rest: &str = version.substring_char(1, n);
            proof {
                assert(rest@ =~= version@.skip(1));
            }
            let cands: Vec<String> = below_filter(&keys, rest);
            return match max_of(&cands) {
                Some(s) => Ok(s),
                None => Err(no_match_error(package, version)),
            };
        }
        let clast: char = version.get_char(n - 1);
        if clast == 'x' {
            let near: Vec<String> = tilde_filter(&keys, version);
            if near.len() > 0 {
                return match max_of(&near) {
                    Some(s) => Ok(s),
                    None => {
                        proof {
                            assert(false);
                        }
                        Err(no_match_error(package, version))
                    },
                };
            }
            return match max_of(&keys) {
                Some(s) => Ok(s),
                None => Err(no_match_error(package, version)),
            };
        }
    }
    if unconstrained_check(version, n) {
        return match max_of(&keys) {
            Some(s) => Ok(s),
            None => Err(no_match_error(package, version)),
        };
    }
    if contains_key(&keys, version) {
        return Ok(version.to_owned());
    }
    match max_of(&keys) {
        Some(s) => Ok(s),
        None => Err(no_match_error(package, version)),
    }
}

} // verus!
