//! The final step of one file's analysis: walk the tree, subtract the
//! unconditional bucket from the test-only bucket, and keep only
//! lowercase-leading identifiers (uppercase-leading ones name types of the
//! subject language, not crates).

use vstd::prelude::*;

use crate::Hints;
use crate::ast::Node;
use crate::names::{contains_name, no_dup_names, views_of};
use crate::visitor::{AstVisitor, spec_initial, spec_walk_nodes};

verus! {

/// Whether a character counts as lowercase under the subject language's
/// naming convention.
pub uninterp spec fn char_is_lowercase(c: char) -> bool;

/// Relies on char::is_lowercase: whether the character has the Unicode
/// lowercase property, which holds of 'a' through 'z' and fails for
/// uppercase letters, digits and the underscore.
#[verifier::external_body]
fn is_lowercase_char(c: char) -> (r: bool)
    ensures
        r == char_is_lowercase(c),
        'a' <= c && c <= 'z' ==> r,
        ('A' <= c && c <= 'Z') || ('0' <= c && c <= '9') || c == '_' ==> !r,
{
    c.is_lowercase()
}

/// Whether the final output retains an identifier: it must start with a
/// lowercase character.
pub open spec fn spec_keeps(n: Seq<char>) -> bool {
    n.len() > 0 && char_is_lowercase(n[0])
}

/// The members of `s` that the final output retains.
pub open spec fn spec_filtered(s: Set<Seq<char>>) -> Set<Seq<char>> {
    s.filter(|n: Seq<char>| spec_keeps(n))
}

/// Whether one identifier survives the final filter.
fn keeps_ident(s: &String) -> (r: bool)
    ensures
        r == spec_keeps(s@),
        r ==> !('A' <= s@[0] && s@[0] <= 'Z'),
{
    if s.as_str().unicode_len() == 0 {
        return false;
    }
    let c = s.as_str().get_char(0);
    is_lowercase_char(c)
}

/// Keeps the lowercase-leading identifiers of a repeat-free list.
pub fn filter_imports(imports: Vec<String>) -> (r: Vec<String>)
    requires
        no_dup_names(imports@),
    ensures
        views_of(r@).to_set() == spec_filtered(views_of(imports@).to_set()),
        no_dup_names(r@),
        forall|k: int|
            0 <= k < r@.len() ==> spec_keeps(#[trigger] r@[k]@) && !('A' <= r@[k]@[0]
                && r@[k]@[0] <= 'Z'),
{
    let mut r: Vec<String> = Vec::new();
    let mut i: usize = 0;
    proof {
        assert(views_of(r@).to_set() =~= spec_filtered(views_of(imports@.take(0)).to_set()));
    }
    while i < imports.len()
        invariant
            0 <= i <= imports@.len(),
            no_dup_names(imports@),
            no_dup_names(r@),
            views_of(r@).to_set() == spec_filtered(views_of(imports@.take(i as int)).to_set()),
            forall|k: int|
                0 <= k < r@.len() ==> spec_keeps(#[trigger] r@[k]@) && !('A' <= r@[k]@[0]
                    && r@[k]@[0] <= 'Z'),
        decreases imports@.len() - i,
    {
        let ghost pre = r@;
        let ghost prefix = imports@.take(i as int);
        let ghost x = imports@[i as int];
        let kept = keeps_ident(&imports[i]);
        if kept {
            r.push(imports[i].clone());
        }
        proof {
            assert(imports@.take(i as int + 1) =~= prefix.push(x));
            crate::names::lemma_push_name(prefix, x);
            if kept {
                crate::names::lemma_push_name(pre, x);
                assert(!views_of(pre).contains(x@)) by {
                    if views_of(pre).contains(x@) {
                        assert(views_of(pre).to_set().contains(x@));
                        assert(views_of(prefix).to_set().contains(x@));
                        let k = choose|k: int|
                            0 <= k < prefix.len() && #[trigger] views_of(prefix)[k] == x@;
                        assert(imports@[k]@ == imports@[i as int]@);
                    }
                }
                assert(views_of(r@).to_set() =~= spec_filtered(
                    views_of(imports@.take(i as int + 1)).to_set(),
                ));
            } else {
                assert(views_of(r@).to_set() =~= spec_filtered(
                    views_of(imports@.take(i as int + 1)).to_set(),
                ));
            }
        }
        i = i + 1;
    }
    proof {
        assert(imports@.take(imports@.len() as int) =~= imports@);
    }
    r
}

/// The entries of the first list that the second list does not spell.
pub fn difference(keep_from: &Vec<String>, remove: &Vec<String>) -> (r: Vec<String>)
    requires
        no_dup_names(keep_from@),
    ensures
        views_of(r@).to_set() == views_of(keep_from@).to_set().difference(
            views_of(remove@).to_set(),
        ),
        no_dup_names(r@),
{
    let mut r: Vec<String> = Vec::new();
    let mut i: usize = 0;
    proof {
        assert(views_of(r@).to_set() =~= views_of(keep_from@.take(0)).to_set().difference(
            views_of(remove@).to_set(),
        ));
    }
    while i < keep_from.len()
        invariant
            0 <= i <= keep_from@.len(),
            no_dup_names(keep_from@),
            no_dup_names(r@),
            views_of(r@).to_set() == views_of(keep_from@.take(i as int)).to_set().difference(
                views_of(remove@).to_set(),
            ),
        decreases keep_from@.len() - i,
    {
        let ghost pre = r@;
        let ghost prefix = keep_from@.take(i as int);
        let ghost x = keep_from@[i as int];
        let kept = !contains_name(remove, &keep_from[i]);
        if kept {
            r.push(keep_from[i].clone());
        }
        proof {
            assert(keep_from@.take(i as int + 1) =~= prefix.push(x));
            crate::names::lemma_push_name(prefix, x);
            if kept {
                crate::names::lemma_push_name(pre, x);
                assert(!views_of(pre).contains(x@)) by {
                    if views_of(pre).contains(x@) {
                        assert(views_of(pre).to_set().contains(x@));
                        assert(views_of(prefix).to_set().contains(x@));
                        let k = choose|k: int|
                            0 <= k < prefix.len() && #[trigger] views_of(prefix)[k] == x@;
                        assert(keep_from@[k]@ == keep_from@[i as int]@);
                    }
                }
                assert(views_of(r@).to_set() =~= views_of(keep_from@.take(i as int + 1)).to_set()
                    .difference(views_of(remove@).to_set()));
            } else {
                assert(views_of(r@).to_set() =~= views_of(keep_from@.take(i as int + 1)).to_set()
                    .difference(views_of(remove@).to_set()));
            }
        }
        i = i + 1;
    }
    proof {
        assert(keep_from@.take(keep_from@.len() as int) =~= keep_from@);
    }
    r
}

/// An identifier referenced both from a normal scope and from a test-only
/// scope ends up only in the normal output: the test-only output excludes
/// everything a normal build already needs.
pub proof fn lemma_test_only_excludes_normal(
    normal: Set<Seq<char>>,
    test: Set<Seq<char>>,
    name: Seq<char>,
)
    ensures
        !(spec_filtered(test.difference(normal)).contains(name) && normal.contains(name)),
        normal.contains(name) && spec_keeps(name) ==> spec_filtered(normal).contains(name)
            && !spec_filtered(test.difference(normal)).contains(name),
{
}

/// Only lowercase-leading identifiers survive into an output, whatever
/// the buckets held: the filter applies after classification and is
/// independent of the scope logic.
pub proof fn lemma_output_lowercase(s: Set<Seq<char>>, name: Seq<char>)
    ensures
        spec_filtered(s).contains(name) ==> name.len() > 0 && char_is_lowercase(name[0]),
{
}

/// One file's summary: the hints and the two deduplicated, filtered
/// dependency lists.
pub struct RustImports {
    /// The structural hints the walk gathered.
    pub hints: Hints,
    /// Crates a normal build needs.
    pub imports: Vec<String>,
    /// Crates only test builds need; never overlaps `imports`.
    pub test_imports: Vec<String>,
}

/// Analyzes one parsed file: walks its items from a fresh state, removes
/// from the test-only bucket whatever a normal build already needs, and
/// keeps only lowercase-leading identifiers in both outputs.
pub fn analyze_file(items: &Vec<Node>) -> (r: RustImports)
    ensures
        ({
            let m = spec_walk_nodes(spec_initial(), items@);
            &&& views_of(r.imports@).to_set() == spec_filtered(m.imports)
            &&& views_of(r.test_imports@).to_set() == spec_filtered(
                m.test_imports.difference(m.imports),
            )
            &&& r.hints == m.hints
            &&& no_dup_names(r.imports@)
            &&& no_dup_names(r.test_imports@)
            &&& forall|k: int|
                0 <= k < r.imports@.len() ==> spec_keeps(#[trigger] r.imports@[k]@) && !('A'
                    <= r.imports@[k]@[0] && r.imports@[k]@[0] <= 'Z')
            &&& forall|k: int|
                0 <= k < r.test_imports@.len() ==> spec_keeps(#[trigger] r.test_imports@[k]@)
                    && !('A' <= r.test_imports@[k]@[0] && r.test_imports@[k]@[0] <= 'Z')
        }),
{
    let mut visitor = AstVisitor::default();
    visitor.visit_nodes(items);
    let test_only = difference(&visitor.test_imports, &visitor.imports);
    proof {
        assert(views_of(test_only@).to_set() =~= spec_walk_nodes(
            spec_initial(),
            items@,
        ).test_imports.difference(spec_walk_nodes(spec_initial(), items@).imports));
    }
    let imports = filter_imports(visitor.imports);
    let test_imports = filter_imports(test_only);
    RustImports { hints: visitor.hints, imports, test_imports }
}

} // verus!
