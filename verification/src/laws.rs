//! The general guarantees of the traversal, stated once over the
//! mathematical mirror and proved by induction over the tree.

use vstd::prelude::*;

use crate::ast::{Attr, Node, UseTree, spec_fn_marked_test, spec_mod_marked_test};
use crate::scope::{spec_declare, spec_shadowed};
use crate::visitor::{
    VisitorModel, spec_classify, spec_declare_m, spec_pop_m, spec_push_m, spec_walk_node,
    spec_walk_nodes, spec_walk_use, spec_walk_uses,
};

verus! {

/// How one resolver state can evolve into another over the walk of any
/// subtree: the stack keeps its depth and its outer frames, the innermost
/// frame only gains names and only ones that were not shadowed before, the
/// buckets only grow, names already shadowed neither move nor join a
/// bucket, a test-only innermost frame freezes the normal bucket, the
/// hints never turn off, and the entry-point hint can change at the file
/// root alone.
pub open spec fn evolves(a: VisitorModel, b: VisitorModel) -> bool {
    &&& a.scopes.len() >= 1
    &&& b.scopes.len() == a.scopes.len()
    &&& forall|i: int| 0 <= i < a.scopes.len() - 1 ==> #[trigger] b.scopes[i] == a.scopes[i]
    &&& b.scopes.last().test_only == a.scopes.last().test_only
    &&& a.scopes.last().names.len() <= b.scopes.last().names.len()
    &&& forall|j: int|
        0 <= j < a.scopes.last().names.len() ==> #[trigger] b.scopes.last().names[j]
            == a.scopes.last().names[j]
    &&& forall|j: int|
        a.scopes.last().names.len() <= j < b.scopes.last().names.len() ==> !spec_shadowed(
            a.scopes,
            #[trigger] b.scopes.last().names[j],
        )
    &&& a.imports.subset_of(b.imports)
    &&& a.test_imports.subset_of(b.test_imports)
    &&& (a.hints.has_main ==> b.hints.has_main)
    &&& (a.hints.has_test ==> b.hints.has_test)
    &&& (a.hints.has_proc_macro ==> b.hints.has_proc_macro)
    &&& forall|n: Seq<char>|
        #[trigger] spec_shadowed(a.scopes, n) ==> {
            &&& spec_shadowed(b.scopes, n)
            &&& b.imports.contains(n) == a.imports.contains(n)
            &&& b.test_imports.contains(n) == a.test_imports.contains(n)
        }
    &&& (a.scopes.last().test_only ==> b.imports == a.imports)
    &&& (a.scopes.len() >= 2 ==> b.hints.has_main == a.hints.has_main)
}

pub proof fn lemma_evolves_refl(a: VisitorModel)
    requires
        a.scopes.len() >= 1,
    ensures
        evolves(a, a),
{
}

pub proof fn lemma_evolves_trans(a: VisitorModel, b: VisitorModel, c: VisitorModel)
    requires
        evolves(a, b),
        evolves(b, c),
    ensures
        evolves(a, c),
{
    assert(b.scopes.last() == b.scopes[a.scopes.len() - 1]);
    assert forall|j: int|
        a.scopes.last().names.len() <= j < c.scopes.last().names.len() implies !spec_shadowed(
        a.scopes,
        #[trigger] c.scopes.last().names[j],
    ) by {
        if j < b.scopes.last().names.len() {
            assert(c.scopes.last().names[j] == b.scopes.last().names[j]);
            if j < a.scopes.last().names.len() {
            } else {
                assert(!spec_shadowed(a.scopes, b.scopes.last().names[j]));
            }
        } else {
            assert(!spec_shadowed(b.scopes, c.scopes.last().names[j]));
            if spec_shadowed(a.scopes, c.scopes.last().names[j]) {
                assert(spec_shadowed(b.scopes, c.scopes.last().names[j]));
            }
        }
    }
}

/// Recording a reference evolves the state.
pub proof fn lemma_classify_evolves(m: VisitorModel, name: Seq<char>)
    requires
        m.scopes.len() >= 1,
    ensures
        evolves(m, spec_classify(m, name)),
        spec_classify(m, name).scopes == m.scopes,
        spec_classify(m, name).hints == m.hints,
{
    let b = spec_classify(m, name);
    assert forall|n: Seq<char>| #[trigger] spec_shadowed(m.scopes, n) implies {
        &&& spec_shadowed(b.scopes, n)
        &&& b.imports.contains(n) == m.imports.contains(n)
        &&& b.test_imports.contains(n) == m.test_imports.contains(n)
    } by {
        if name != "crate"@ && !spec_shadowed(m.scopes, name) {
            assert(n != name);
        }
    }
}

/// Declaring a local name evolves the state.
pub proof fn lemma_declare_evolves(m: VisitorModel, name: Seq<char>)
    requires
        m.scopes.len() >= 1,
    ensures
        evolves(m, spec_declare_m(m, name)),
        spec_declare_m(m, name).hints == m.hints,
        spec_declare_m(m, name).imports == m.imports,
        spec_declare_m(m, name).test_imports == m.test_imports,
{
    let b = spec_declare_m(m, name);
    if spec_shadowed(m.scopes, name) {
        assert(b.scopes == m.scopes);
    } else {
        let li = m.scopes.len() - 1;
        assert(b.scopes.last() == b.scopes[li]);
        assert(b.scopes.last().names == m.scopes.last().names.push(name));
        assert forall|n: Seq<char>| #[trigger] spec_shadowed(m.scopes, n) implies spec_shadowed(
            b.scopes,
            n,
        ) by {
            let (i, j) = choose|i: int, j: int|
                0 <= i < m.scopes.len() && 0 <= j < m.scopes[i].names.len()
                    && #[trigger] m.scopes[i].names[j] == n;
            assert(b.scopes[i].names[j] == n);
        }
    }
}

/// Walking children inside a freshly pushed frame and closing that frame
/// evolves the state and restores the stack exactly.
pub proof fn lemma_wrap_scope(pre: VisitorModel, mid: VisitorModel, t: bool)
    requires
        pre.scopes.len() >= 1,
        evolves(spec_push_m(pre, t), mid),
    ensures
        evolves(pre, spec_pop_m(mid)),
        spec_pop_m(mid).scopes == pre.scopes,
        spec_pop_m(mid).hints.has_main == pre.hints.has_main,
        spec_pop_m(mid).imports == mid.imports,
        spec_pop_m(mid).test_imports == mid.test_imports,
        spec_pop_m(mid).hints == mid.hints,
        (t || pre.scopes.last().test_only) ==> spec_pop_m(mid).imports == pre.imports,
    {
    let p = spec_push_m(pre, t);
    let fin = spec_pop_m(mid);
    assert(p.scopes.len() == pre.scopes.len() + 1);
    assert forall|i: int| 0 <= i < pre.scopes.len() implies fin.scopes[i] == pre.scopes[i] by {
        assert(p.scopes[i] == pre.scopes[i]);
        assert(mid.scopes[i] == p.scopes[i]);
    }
    assert(fin.scopes =~= pre.scopes);
    assert forall|n: Seq<char>| #[trigger] spec_shadowed(pre.scopes, n) implies {
        &&& spec_shadowed(fin.scopes, n)
        &&& fin.imports.contains(n) == pre.imports.contains(n)
        &&& fin.test_imports.contains(n) == pre.test_imports.contains(n)
    } by {
        let (i, j) = choose|i: int, j: int|
            0 <= i < pre.scopes.len() && 0 <= j < pre.scopes[i].names.len()
                && #[trigger] pre.scopes[i].names[j] == n;
        assert(p.scopes[i].names[j] == n);
        assert(spec_shadowed(p.scopes, n));
    }
    if t || pre.scopes.last().test_only {
        assert(p.scopes.last().test_only);
    }
}

/// Master guarantee: walking any node evolves the state.
pub proof fn lemma_walk_node_evolves(m: VisitorModel, n: Node)
    requires
        m.scopes.len() >= 1,
    ensures
        evolves(m, spec_walk_node(m, n)),
    decreases n,
{
    match n {
        Node::ItemUse { tree } => {
            let m1 = match tree {
                UseTree::Prefix { ident, tree: _ } => spec_classify(m, ident@),
                UseTree::Name { ident } => spec_classify(m, ident@),
                _ => m,
            };
            match tree {
                UseTree::Prefix { ident, tree: _ } => lemma_classify_evolves(m, ident@),
                UseTree::Name { ident } => lemma_classify_evolves(m, ident@),
                _ => lemma_evolves_refl(m),
            }
            lemma_walk_use_evolves(m1, tree);
            lemma_evolves_trans(m, m1, spec_walk_use(m1, tree));
        },
        Node::CrateDecl { ident } => {
            lemma_classify_evolves(m, ident@);
        },
        Node::PathRef { segments, nodes } => {
            let m1 = if segments@.len() > 1 {
                spec_classify(m, segments@[0]@)
            } else {
                m
            };
            if segments@.len() > 1 {
                lemma_classify_evolves(m, segments@[0]@);
            } else {
                lemma_evolves_refl(m);
            }
            lemma_walk_nodes_evolves(m1, nodes@);
            lemma_evolves_trans(m, m1, spec_walk_nodes(m1, nodes@));
        },
        Node::Block { nodes } => {
            let p = spec_push_m(m, false);
            lemma_walk_nodes_evolves(p, nodes@);
            lemma_wrap_scope(m, spec_walk_nodes(p, nodes@), false);
        },
        Node::ItemMod { ident, attrs, nodes } => {
            let m1 = spec_declare_m(m, ident@);
            lemma_declare_evolves(m, ident@);
            let t = spec_mod_marked_test(attrs@);
            let p = spec_push_m(m1, t);
            lemma_walk_nodes_evolves(p, nodes@);
            lemma_wrap_scope(m1, spec_walk_nodes(p, nodes@), t);
            lemma_evolves_trans(m, m1, spec_pop_m(spec_walk_nodes(p, nodes@)));
        },
        Node::ItemFn { ident, attrs, nodes } => {
            let m1 = VisitorModel {
                imports: m.imports,
                test_imports: m.test_imports,
                scopes: m.scopes,
                hints: crate::visitor::spec_fn_hints(m, ident, attrs@),
            };
            let t = crate::visitor::spec_fn_test_marker(m, ident, attrs@);
            assert(evolves(m, m1));
            let p = spec_push_m(m1, t);
            lemma_walk_nodes_evolves(p, nodes@);
            lemma_wrap_scope(m1, spec_walk_nodes(p, nodes@), t);
            lemma_evolves_trans(m, m1, spec_pop_m(spec_walk_nodes(p, nodes@)));
        },
        Node::Other { nodes } => {
            lemma_walk_nodes_evolves(m, nodes@);
        },
    }
}

/// Master guarantee for a list of nodes.
pub proof fn lemma_walk_nodes_evolves(m: VisitorModel, ns: Seq<Node>)
    requires
        m.scopes.len() >= 1,
    ensures
        evolves(m, spec_walk_nodes(m, ns)),
    decreases ns,
{
    if ns.len() == 0 {
        lemma_evolves_refl(m);
    } else {
        lemma_walk_node_evolves(m, ns[0]);
        let m1 = spec_walk_node(m, ns[0]);
        lemma_walk_nodes_evolves(m1, ns.drop_first());
        lemma_evolves_trans(m, m1, spec_walk_nodes(m1, ns.drop_first()));
    }
}

/// Master guarantee for a use-tree.
pub proof fn lemma_walk_use_evolves(m: VisitorModel, t: UseTree)
    requires
        m.scopes.len() >= 1,
    ensures
        evolves(m, spec_walk_use(m, t)),
    decreases t,
{
    match t {
        UseTree::Prefix { ident, tree } => {
            let m1 = match *tree {
                UseTree::Group { items } => if crate::visitor::spec_group_has_self(items@) {
                    spec_declare_m(m, ident@)
                } else {
                    m
                },
                _ => m,
            };
            match *tree {
                UseTree::Group { items } => if crate::visitor::spec_group_has_self(items@) {
                    lemma_declare_evolves(m, ident@);
                } else {
                    lemma_evolves_refl(m);
                },
                _ => lemma_evolves_refl(m),
            }
            lemma_walk_use_evolves(m1, *tree);
            lemma_evolves_trans(m, m1, spec_walk_use(m1, *tree));
        },
        UseTree::Name { ident: _ } => {
            lemma_evolves_refl(m);
        },
        UseTree::Rename { ident, rename } => {
            lemma_classify_evolves(m, ident@);
            let m1 = spec_classify(m, ident@);
            lemma_declare_evolves(m1, rename@);
            lemma_evolves_trans(m, m1, spec_declare_m(m1, rename@));
        },
        UseTree::Group { items } => {
            lemma_walk_uses_evolves(m, items@);
        },
        UseTree::Glob => {
            lemma_evolves_refl(m);
        },
    }
}

/// Master guarantee for a list of use-trees.
pub proof fn lemma_walk_uses_evolves(m: VisitorModel, ts: Seq<UseTree>)
    requires
        m.scopes.len() >= 1,
    ensures
        evolves(m, spec_walk_uses(m, ts)),
    decreases ts,
{
    if ts.len() == 0 {
        lemma_evolves_refl(m);
    } else {
        lemma_walk_use_evolves(m, ts[0]);
        let m1 = spec_walk_use(m, ts[0]);
        lemma_walk_uses_evolves(m1, ts.drop_first());
        lemma_evolves_trans(m, m1, spec_walk_uses(m1, ts.drop_first()));
    }
}

/// While an identifier is shadowed, walking any subtree can neither
/// unshadow it nor move it into or out of either bucket: a reference to a
/// declared rename or self-brought module name before its scope closes
/// never surfaces as an import.
pub proof fn lemma_shadowed_reference_invisible(m: VisitorModel, n: Node, name: Seq<char>)
    requires
        m.scopes.len() >= 1,
        spec_shadowed(m.scopes, name),
    ensures
        spec_shadowed(spec_walk_node(m, n).scopes, name),
        spec_walk_node(m, n).imports.contains(name) == m.imports.contains(name),
        spec_walk_node(m, n).test_imports.contains(name) == m.test_imports.contains(name),
{
    lemma_walk_node_evolves(m, n);
}

/// Closing a block restores the scopes exactly: a name declared only
/// inside it is not shadowed afterwards, so a later reference to it is
/// classified as a fresh external reference again.
pub proof fn lemma_scope_exit_restores(m: VisitorModel, nodes: Vec<Node>, name: Seq<char>)
    requires
        m.scopes.len() >= 1,
    ensures
        spec_walk_node(m, Node::Block { nodes }).scopes == m.scopes,
        ({
            let after = spec_walk_node(m, Node::Block { nodes });
            let re = spec_classify(after, name);
            !spec_shadowed(m.scopes, name) && name != "crate"@ ==> re.imports.contains(name)
                || re.test_imports.contains(name)
        }),
{
    let p = spec_push_m(m, false);
    lemma_walk_nodes_evolves(p, nodes@);
    lemma_wrap_scope(m, spec_walk_nodes(p, nodes@), false);
}

/// A renamed import leaves the new binding shadowed: from then on, and
/// throughout any nested scope, references to it are locally resolved.
pub proof fn lemma_rename_declares_binding(m: VisitorModel, ident: String, rename: String)
    requires
        m.scopes.len() >= 1,
    ensures
        spec_shadowed(
            spec_walk_node(
                m,
                Node::ItemUse { tree: UseTree::Rename { ident, rename } },
            ).scopes,
            rename@,
        ),
{
    let m1 = spec_classify(m, ident@);
    crate::scope::lemma_declare_shadows(m1.scopes, rename@);
}

/// A group import holding a bare `self` leaves the path's last named
/// prefix shadowed, whatever else the group brings in.
pub proof fn lemma_group_self_declares_prefix(
    m: VisitorModel,
    outer: String,
    inner: String,
    items: Vec<UseTree>,
)
    requires
        m.scopes.len() >= 1,
        crate::visitor::spec_group_has_self(items@),
    ensures
        ({
            let n = Node::ItemUse {
                tree: UseTree::Prefix {
                    ident: outer,
                    tree: Box::new(
                        UseTree::Prefix {
                            ident: inner,
                            tree: Box::new(UseTree::Group { items }),
                        },
                    ),
                },
            };
            spec_shadowed(spec_walk_node(m, n).scopes, inner@)
        }),
{
    reveal_with_fuel(spec_walk_use, 3);
    let m1 = spec_classify(m, outer@);
    lemma_classify_evolves(m, outer@);
    let m2 = spec_declare_m(m1, inner@);
    crate::scope::lemma_declare_shadows(m1.scopes, inner@);
    lemma_walk_uses_evolves(m2, items@);
    assert(spec_walk_uses(m2, items@).scopes == spec_walk_use(
        m1,
        UseTree::Prefix { ident: inner, tree: Box::new(UseTree::Group { items }) },
    ).scopes);
}

/// Test-only classification is monotonic: under a test-only innermost
/// frame, no walk ever touches the normal bucket, at any nesting depth.
pub proof fn lemma_test_scope_monotonic(m: VisitorModel, n: Node)
    requires
        m.scopes.len() >= 1,
        m.scopes.last().test_only,
    ensures
        spec_walk_node(m, n).imports == m.imports,
        spec_walk_node(m, n).scopes.last().test_only,
{
    lemma_walk_node_evolves(m, n);
}

/// In a test-only scope an unshadowed reference lands in the test-only
/// bucket and leaves the normal bucket alone.
pub proof fn lemma_classify_in_test_scope(m: VisitorModel, name: Seq<char>)
    requires
        m.scopes.len() >= 1,
        m.scopes.last().test_only,
        name != "crate"@,
        !spec_shadowed(m.scopes, name),
    ensures
        spec_classify(m, name).test_imports.contains(name),
        spec_classify(m, name).imports == m.imports,
{
}

/// A function named like the entry point sets the entry-point hint at the
/// file root and nowhere deeper.
pub proof fn lemma_entry_point_hint(
    m: VisitorModel,
    ident: String,
    attrs: Vec<Attr>,
    nodes: Vec<Node>,
)
    requires
        m.scopes.len() >= 1,
    ensures
        m.scopes.len() == 1 && ident@ == "main"@ ==> spec_walk_node(
            m,
            Node::ItemFn { ident, attrs, nodes },
        ).hints.has_main,
        m.scopes.len() >= 2 ==> spec_walk_node(
            m,
            Node::ItemFn { ident, attrs, nodes },
        ).hints.has_main == m.hints.has_main,
{
    let m1 = VisitorModel {
        imports: m.imports,
        test_imports: m.test_imports,
        scopes: m.scopes,
        hints: crate::visitor::spec_fn_hints(m, ident, attrs@),
    };
    let t = crate::visitor::spec_fn_test_marker(m, ident, attrs@);
    let p = spec_push_m(m1, t);
    lemma_walk_nodes_evolves(p, nodes@);
    lemma_wrap_scope(m1, spec_walk_nodes(p, nodes@), t);
}

/// A module body can never set the entry-point hint: the same function
/// name nested inside a module is not the entry point.
pub proof fn lemma_module_never_sets_entry_point(
    m: VisitorModel,
    ident: String,
    attrs: Vec<Attr>,
    nodes: Vec<Node>,
)
    requires
        m.scopes.len() >= 1,
    ensures
        spec_walk_node(m, Node::ItemMod { ident, attrs, nodes }).hints.has_main
            == m.hints.has_main,
{
    let m1 = spec_declare_m(m, ident@);
    lemma_declare_evolves(m, ident@);
    let t = spec_mod_marked_test(attrs@);
    let p = spec_push_m(m1, t);
    lemma_walk_nodes_evolves(p, nodes@);
    lemma_wrap_scope(m1, spec_walk_nodes(p, nodes@), t);
}

/// A test-marked function sets the test hint, and everything referenced
/// only inside its body stays out of the normal bucket: the normal bucket
/// is exactly what it was before the function.
pub proof fn lemma_test_fn(m: VisitorModel, ident: String, attrs: Vec<Attr>, nodes: Vec<Node>)
    requires
        m.scopes.len() >= 1,
        spec_fn_marked_test(attrs@),
        !(m.scopes.len() == 1 && ident@ == "main"@),
    ensures
        spec_walk_node(m, Node::ItemFn { ident, attrs, nodes }).hints.has_test,
        spec_walk_node(m, Node::ItemFn { ident, attrs, nodes }).imports == m.imports,
        m.test_imports.subset_of(
            spec_walk_node(m, Node::ItemFn { ident, attrs, nodes }).test_imports,
        ),
{
    let m1 = VisitorModel {
        imports: m.imports,
        test_imports: m.test_imports,
        scopes: m.scopes,
        hints: crate::visitor::spec_fn_hints(m, ident, attrs@),
    };
    let t = crate::visitor::spec_fn_test_marker(m, ident, attrs@);
    let p = spec_push_m(m1, t);
    lemma_walk_nodes_evolves(p, nodes@);
    lemma_wrap_scope(m1, spec_walk_nodes(p, nodes@), t);
}

} // verus!
