//! Identifier values and small helpers over lists of them.
//!
//! Identifiers are plain `String`s; equality is textual, so contracts speak
//! of the character sequences (`Seq<char>`) behind them.

use vstd::prelude::*;

verus! {

/// The character sequences behind a list of identifiers, in order.
pub open spec fn views_of(v: Seq<String>) -> Seq<Seq<char>> {
    v.map_values(|s: String| s@)
}

/// No two entries of `v` spell the same identifier.
pub open spec fn no_dup_names(v: Seq<String>) -> bool {
    forall|i: int, j: int| 0 <= i < j < v.len() ==> #[trigger] v[i]@ != #[trigger] v[j]@
}

/// Appending an identifier appends its characters, inserts it into the
/// set of spelled names, and keeps the list free of repeats if it was new.
pub proof fn lemma_push_name(v: Seq<String>, x: String)
    ensures
        views_of(v.push(x)) =~= views_of(v).push(x@),
        views_of(v.push(x)).to_set() =~= views_of(v).to_set().insert(x@),
        no_dup_names(v) && !views_of(v).contains(x@) ==> no_dup_names(v.push(x)),
{
    assert(views_of(v.push(x)) =~= views_of(v).push(x@));
    let a = views_of(v);
    let b = views_of(v.push(x));
    assert forall|n: Seq<char>| #[trigger] b.to_set().contains(n) implies a.to_set().insert(
        x@,
    ).contains(n) by {
        let k = choose|k: int| 0 <= k < b.len() && b[k] == n;
        if k < a.len() {
            assert(a[k] == n);
        } else {
            assert(n == x@);
        }
    }
    assert forall|n: Seq<char>| #[trigger] a.to_set().insert(x@).contains(n) implies b.to_set()
        .contains(n) by {
        if a.to_set().contains(n) {
            let k = choose|k: int| 0 <= k < a.len() && a[k] == n;
            assert(b[k] == n);
        } else {
            assert(b[b.len() - 1] == n);
        }
    }
    if no_dup_names(v) && !views_of(v).contains(x@) {
        assert forall|i: int, j: int|
            0 <= i < j < v.push(x).len() implies #[trigger] v.push(x)[i]@
            != #[trigger] v.push(x)[j]@ by {
            if j == v.len() {
                assert(v.push(x)[i] == v[i]);
                if v[i]@ == x@ {
                    assert(a[i] == x@);
                }
            } else {
                assert(v.push(x)[i] == v[i]);
                assert(v.push(x)[j] == v[j]);
            }
        }
    }
}

/// Textual equality of an identifier and a literal.
pub fn string_is(s: &String, lit: &str) -> (r: bool)
    ensures
        r == (s@ == lit@),
{
    let owned: String = lit.to_owned();
    *s == owned
}

/// Whether some entry of `v` spells `name`.
pub fn contains_name(v: &Vec<String>, name: &String) -> (r: bool)
    ensures
        r == views_of(v@).contains(name@),
{
    let mut i: usize = 0;
    while i < v.len()
        invariant
            0 <= i <= v@.len(),
            forall|k: int| 0 <= k < i ==> #[trigger] v@[k]@ != name@,
        decreases v@.len() - i,
    {
        if string_is(&v[i], name.as_str()) {
            assert(views_of(v@)[i as int] == name@);
            return true;
        }
        i = i + 1;
    }
    assert forall|k: int| 0 <= k < views_of(v@).len() implies #[trigger] views_of(
        v@,
    )[k] != name@ by {
        assert(v@[k]@ != name@);
    }
    false
}

} // verus!
