//! The scope-tracking import resolver: a depth-first, pre-order walk of the
//! syntax tree that classifies every external-crate reference as always
//! needed or test-only, and gathers the structural hints.
//!
//! The whole traversal has a mathematical mirror: `spec_walk_node` and its
//! companions map a resolver state and a subtree to the state after walking
//! that subtree, and every executable visit method is proved to land exactly
//! on the mirror's result.

use vstd::prelude::*;

use crate::Hints;
use crate::ast::{
    Attr, Node, UseTree, is_plain_attr, mod_marked_test, spec_fn_marked_proc_macro,
    spec_fn_marked_test, spec_mod_marked_test,
};
use crate::names::{contains_name, no_dup_names, string_is, views_of};
use crate::scope::{FrameModel, ScopeStack, spec_declare, spec_push, spec_shadowed};

verus! {

/// Mathematical state of the resolver: the two buckets, the open frames,
/// and the hints.
#[verifier::ext_equal]
pub ghost struct VisitorModel {
    /// Identifiers referenced from normal scopes.
    pub imports: Set<Seq<char>>,
    /// Identifiers referenced from test-only scopes.
    pub test_imports: Set<Seq<char>>,
    /// The open lexical frames.
    pub scopes: Seq<FrameModel>,
    /// The structural hints gathered so far.
    pub hints: Hints,
}

/// Records one reference: the self-reference keyword and shadowed names are
/// ignored, anything else joins the bucket the current scope dictates.
pub open spec fn spec_classify(m: VisitorModel, name: Seq<char>) -> VisitorModel {
    if name == "crate"@ {
        m
    } else if spec_shadowed(m.scopes, name) {
        m
    } else if m.scopes.last().test_only {
        VisitorModel {
            imports: m.imports,
            test_imports: m.test_imports.insert(name),
            scopes: m.scopes,
            hints: m.hints,
        }
    } else {
        VisitorModel {
            imports: m.imports.insert(name),
            test_imports: m.test_imports,
            scopes: m.scopes,
            hints: m.hints,
        }
    }
}

/// Declares a local name in the innermost frame.
pub open spec fn spec_declare_m(m: VisitorModel, name: Seq<char>) -> VisitorModel {
    VisitorModel {
        imports: m.imports,
        test_imports: m.test_imports,
        scopes: spec_declare(m.scopes, name),
        hints: m.hints,
    }
}

/// Opens a frame.
pub open spec fn spec_push_m(m: VisitorModel, is_test_marker: bool) -> VisitorModel {
    VisitorModel {
        imports: m.imports,
        test_imports: m.test_imports,
        scopes: spec_push(m.scopes, is_test_marker),
        hints: m.hints,
    }
}

/// Closes the innermost frame.
pub open spec fn spec_pop_m(m: VisitorModel) -> VisitorModel {
    VisitorModel {
        imports: m.imports,
        test_imports: m.test_imports,
        scopes: m.scopes.drop_last(),
        hints: m.hints,
    }
}

/// A bare `self` item, as it appears inside a use-group.
pub open spec fn spec_is_self_name(t: UseTree) -> bool {
    match t {
        UseTree::Name { ident } => ident@ == "self"@,
        _ => false,
    }
}

/// The group contains a bare `self` item.
pub open spec fn spec_group_has_self(items: Seq<UseTree>) -> bool {
    exists|i: int| 0 <= i < items.len() && spec_is_self_name(#[trigger] items[i])
}

/// The hints after inspecting a function item's attributes; a root-level
/// entry point skips attribute inspection entirely.
pub open spec fn spec_fn_hints(m: VisitorModel, ident: String, attrs: Seq<Attr>) -> Hints {
    if m.scopes.len() == 1 && ident@ == "main"@ {
        Hints { has_main: true, has_test: m.hints.has_test, has_proc_macro: m.hints.has_proc_macro }
    } else {
        Hints {
            has_main: m.hints.has_main,
            has_test: m.hints.has_test || spec_fn_marked_test(attrs),
            has_proc_macro: m.hints.has_proc_macro || spec_fn_marked_proc_macro(attrs),
        }
    }
}

/// Whether a function item opens a test-only frame.
pub open spec fn spec_fn_test_marker(m: VisitorModel, ident: String, attrs: Seq<Attr>) -> bool {
    !(m.scopes.len() == 1 && ident@ == "main"@) && spec_fn_marked_test(attrs)
}

/// State after walking one node.
pub open spec fn spec_walk_node(m: VisitorModel, n: Node) -> VisitorModel
    decreases n,
{
    match n {
        Node::ItemUse { tree } => {
            let m1 = match tree {
                UseTree::Prefix { ident, tree: _ } => spec_classify(m, ident@),
                UseTree::Name { ident } => spec_classify(m, ident@),
                _ => m,
            };
            spec_walk_use(m1, tree)
        },
        Node::CrateDecl { ident } => spec_classify(m, ident@),
        Node::PathRef { segments, nodes } => {
            let m1 = if segments@.len() > 1 {
                spec_classify(m, segments@[0]@)
            } else {
                m
            };
            spec_walk_nodes(m1, nodes@)
        },
        Node::Block { nodes } => spec_pop_m(spec_walk_nodes(spec_push_m(m, false), nodes@)),
        Node::ItemMod { ident, attrs, nodes } => {
            let m1 = spec_declare_m(m, ident@);
            let m2 = spec_push_m(m1, spec_mod_marked_test(attrs@));
            spec_pop_m(spec_walk_nodes(m2, nodes@))
        },
        Node::ItemFn { ident, attrs, nodes } => {
            let m1 = VisitorModel {
                imports: m.imports,
                test_imports: m.test_imports,
                scopes: m.scopes,
                hints: spec_fn_hints(m, ident, attrs@),
            };
            let m2 = spec_push_m(m1, spec_fn_test_marker(m, ident, attrs@));
            spec_pop_m(spec_walk_nodes(m2, nodes@))
        },
        Node::Other { nodes } => spec_walk_nodes(m, nodes@),
    }
}

/// State after walking a list of nodes left to right.
pub open spec fn spec_walk_nodes(m: VisitorModel, ns: Seq<Node>) -> VisitorModel
    decreases ns,
{
    if ns.len() == 0 {
        m
    } else {
        spec_walk_nodes(spec_walk_node(m, ns[0]), ns.drop_first())
    }
}

/// State after walking one use-tree (the item-level classification of the
/// leading segment has already happened).
pub open spec fn spec_walk_use(m: VisitorModel, t: UseTree) -> VisitorModel
    decreases t,
{
    match t {
        UseTree::Prefix { ident, tree } => {
            let m1 = match *tree {
                UseTree::Group { items } => if spec_group_has_self(items@) {
                    spec_declare_m(m, ident@)
                } else {
                    m
                },
                _ => m,
            };
            spec_walk_use(m1, *tree)
        },
        UseTree::Name { ident: _ } => m,
        UseTree::Rename { ident, rename } => spec_declare_m(spec_classify(m, ident@), rename@),
        UseTree::Group { items } => spec_walk_uses(m, items@),
        UseTree::Glob => m,
    }
}

/// State after walking a list of use-trees left to right.
pub open spec fn spec_walk_uses(m: VisitorModel, ts: Seq<UseTree>) -> VisitorModel
    decreases ts,
{
    if ts.len() == 0 {
        m
    } else {
        spec_walk_uses(spec_walk_use(m, ts[0]), ts.drop_first())
    }
}

/// The resolver state a traversal starts from: empty buckets, the root
/// frame, no hints.
pub open spec fn spec_initial() -> VisitorModel {
    VisitorModel {
        imports: Set::empty(),
        test_imports: Set::empty(),
        scopes: seq![FrameModel { names: Seq::empty(), test_only: false }],
        hints: Hints { has_main: false, has_test: false, has_proc_macro: false },
    }
}

/// Whether one use-tree is a bare `self` item.
pub fn is_self_name(t: &UseTree) -> (r: bool)
    ensures
        r == spec_is_self_name(*t),
{
    match t {
        UseTree::Name { ident } => string_is(ident, "self"),
        _ => false,
    }
}

/// Whether a use-group contains a bare `self` item.
pub fn group_has_self(items: &Vec<UseTree>) -> (r: bool)
    ensures
        r == spec_group_has_self(items@),
{
    let mut i: usize = 0;
    while i < items.len()
        invariant
            0 <= i <= items@.len(),
            forall|k: int| 0 <= k < i ==> !spec_is_self_name(#[trigger] items@[k]),
        decreases items@.len() - i,
    {
        if is_self_name(&items[i]) {
            return true;
        }
        i = i + 1;
    }
    false
}

/// The resolver: walks the tree while keeping the two buckets, the scope
/// stack and the hints in step with the mathematical mirror.
pub struct AstVisitor {
    /// Crates referenced from normal scopes, each recorded once.
    pub imports: Vec<String>,
    /// Crates referenced from test-only scopes, each recorded once.
    pub test_imports: Vec<String>,
    /// The stack of open lexical frames.
    pub scopes: ScopeStack,
    /// Collected structural hints.
    pub hints: Hints,
}

impl View for AstVisitor {
    type V = VisitorModel;

    open spec fn view(&self) -> VisitorModel {
        VisitorModel {
            imports: views_of(self.imports@).to_set(),
            test_imports: views_of(self.test_imports@).to_set(),
            scopes: self.scopes@,
            hints: self.hints,
        }
    }
}

impl Default for AstVisitor {
    /// A fresh resolver holding only the root frame.
    fn default() -> (r: AstVisitor)
        ensures
            r.wf(),
            r@ == spec_initial(),
    {
        let r = AstVisitor {
            imports: Vec::new(),
            test_imports: Vec::new(),
            scopes: ScopeStack::new(),
            hints: Hints::default(),
        };
        proof {
            assert(views_of(r.imports@).to_set() =~= Set::<Seq<char>>::empty());
            assert(views_of(r.test_imports@).to_set() =~= Set::<Seq<char>>::empty());
            assert(r@ =~~= spec_initial());
        }
        r
    }
}

impl AstVisitor {
    /// The buckets hold no repeats and the scope stack is well-formed.
    pub open spec fn wf(&self) -> bool {
        &&& self.scopes.wf()
        &&& no_dup_names(self.imports@)
        &&& no_dup_names(self.test_imports@)
    }

    /// Records one reference, into the bucket the current scope dictates,
    /// unless it is the self-reference keyword or a shadowed name.
    pub fn add_import(&mut self, ident: &String)
        requires
            old(self).wf(),
        ensures
            final(self).wf(),
            final(self)@ == spec_classify(old(self)@, ident@),
    {
        if string_is(ident, "crate") {
            // the self-reference keyword names the unit itself, never a
            // dependency
            return ;
        }
        if self.scopes.is_shadowed(ident) {
            return ;
        }
        if self.scopes.current_is_test_only() {
            if !contains_name(&self.test_imports, ident) {
                self.test_imports.push(ident.clone());
                proof {
                    crate::names::lemma_push_name(old(self).test_imports@, *ident);
                }
            }
            proof {
                if views_of(old(self).test_imports@).contains(ident@) {
                    assert(views_of(self.test_imports@).to_set() =~= views_of(
                        old(self).test_imports@,
                    ).to_set().insert(ident@));
                }
                assert(self@ =~~= spec_classify(old(self)@, ident@));
            }
        } else {
            if !contains_name(&self.imports, ident) {
                self.imports.push(ident.clone());
                proof {
                    crate::names::lemma_push_name(old(self).imports@, *ident);
                }
            }
            proof {
                if views_of(old(self).imports@).contains(ident@) {
                    assert(views_of(self.imports@).to_set() =~= views_of(
                        old(self).imports@,
                    ).to_set().insert(ident@));
                }
                assert(self@ =~~= spec_classify(old(self)@, ident@));
            }
        }
    }

    /// Declares a module or rename as a locally visible name.
    pub fn add_mod(&mut self, ident: &String)
        requires
            old(self).wf(),
        ensures
            final(self).wf(),
            final(self)@ == spec_declare_m(old(self)@, ident@),
    {
        self.scopes.declare_local(ident);
        proof {
            assert(self@ =~~= spec_declare_m(old(self)@, ident@));
        }
    }

    /// Opens a scope.
    pub fn push_scope(&mut self, test: bool)
        requires
            old(self).wf(),
        ensures
            final(self).wf(),
            final(self)@ == spec_push_m(old(self)@, test),
    {
        self.scopes.push(test);
        proof {
            assert(self@ =~~= spec_push_m(old(self)@, test));
        }
    }

    /// Closes the innermost scope.
    pub fn pop_scope(&mut self)
        requires
            old(self).wf(),
            old(self)@.scopes.len() >= 2,
        ensures
            final(self).wf(),
            final(self)@ == spec_pop_m(old(self)@),
    {
        self.scopes.pop();
        proof {
            assert(self@ =~~= spec_pop_m(old(self)@));
        }
    }

    /// Exactly the root frame is open.
    pub fn is_root_scope(&self) -> (r: bool)
        requires
            self.wf(),
        ensures
            r == (self@.scopes.len() == 1),
    {
        self.scopes.is_root()
    }

    /// The innermost frame is test-only.
    pub fn is_test_only_scope(&self) -> (r: bool)
        requires
            self.wf(),
        ensures
            r == self@.scopes.last().test_only,
    {
        self.scopes.current_is_test_only()
    }

    /// Walks one node, dispatching on its kind.
    pub fn visit_node(&mut self, n: &Node)
        requires
            old(self).wf(),
        ensures
            final(self).wf(),
            final(self)@ == spec_walk_node(old(self)@, *n),
        decreases n,
    {
        match n {
            Node::ItemUse { tree } => {
                match tree {
                    UseTree::Prefix { ident, tree: _ } => self.add_import(ident),
                    UseTree::Name { ident } => self.add_import(ident),
                    _ => (),
                }
                self.visit_use_tree(tree);
            },
            Node::CrateDecl { ident } => {
                self.add_import(ident);
            },
            Node::PathRef { segments, nodes } => {
                if segments.len() > 1 {
                    self.add_import(&segments[0]);
                }
                self.visit_nodes(nodes);
            },
            Node::Block { nodes } => {
                self.push_scope(false);
                let ghost m1 = self@;
                self.visit_nodes(nodes);
                proof {
                    crate::laws::lemma_walk_nodes_evolves(m1, nodes@);
                }
                self.pop_scope();
            },
            Node::ItemMod { ident, attrs, nodes } => {
                let t = mod_marked_test(attrs);
                self.add_mod(ident);
                self.push_scope(t);
                let ghost m1 = self@;
                self.visit_nodes(nodes);
                proof {
                    crate::laws::lemma_walk_nodes_evolves(m1, nodes@);
                }
                self.pop_scope();
            },
            Node::ItemFn { ident, attrs, nodes } => {
                let ghost m0 = self@;
                let mut test = false;
                if self.is_root_scope() && string_is(ident, "main") {
                    // entry point in the top-level scope
                    self.hints.has_main = true;
                } else {
                    let mut i: usize = 0;
                    while i < attrs.len()
                        invariant
                            0 <= i <= attrs@.len(),
                            old(self).wf(),
                            self.imports == old(self).imports,
                            self.test_imports == old(self).test_imports,
                            self.scopes == old(self).scopes,
                            self.hints.has_main == old(self).hints.has_main,
                            self.hints.has_test == (old(self).hints.has_test
                                || spec_fn_marked_test(attrs@.take(i as int))),
                            self.hints.has_proc_macro == (old(self).hints.has_proc_macro
                                || spec_fn_marked_proc_macro(attrs@.take(i as int))),
                            test == spec_fn_marked_test(attrs@.take(i as int)),
                        decreases attrs@.len() - i,
                    {
                        proof {
                            crate::ast::lemma_marked_take_succ(attrs@, i as int);
                            reveal_strlit("test");
                            reveal_strlit("proc_macro");
                            assert(("test"@).len() == 4);
                            assert(("proc_macro"@).len() == 10);
                            assert("test"@ != "proc_macro"@);
                        }
                        if is_plain_attr(&attrs[i], "test") {
                            self.hints.has_test = true;
                            test = true;
                        } else if is_plain_attr(&attrs[i], "proc_macro") {
                            self.hints.has_proc_macro = true;
                        }
                        i = i + 1;
                    }
                    proof {
                        assert(attrs@.take(attrs@.len() as int) =~= attrs@);
                    }
                }
                proof {
                    assert(self.hints == spec_fn_hints(m0, *ident, attrs@));
                    assert(test == spec_fn_test_marker(m0, *ident, attrs@));
                    assert(self@ =~~= VisitorModel {
                        imports: m0.imports,
                        test_imports: m0.test_imports,
                        scopes: m0.scopes,
                        hints: spec_fn_hints(m0, *ident, attrs@),
                    });
                }
                self.push_scope(test);
                let ghost m2 = self@;
                self.visit_nodes(nodes);
                proof {
                    crate::laws::lemma_walk_nodes_evolves(m2, nodes@);
                }
                self.pop_scope();
            },
            Node::Other { nodes } => {
                self.visit_nodes(nodes);
            },
        }
    }

    /// Walks a list of nodes left to right.
    pub fn visit_nodes(&mut self, nodes: &Vec<Node>)
        requires
            old(self).wf(),
        ensures
            final(self).wf(),
            final(self)@ == spec_walk_nodes(old(self)@, nodes@),
        decreases nodes@,
    {
        let ghost m0 = self@;
        let mut i: usize = 0;
        proof {
            assert(nodes@.skip(0) =~= nodes@);
        }
        while i < nodes.len()
            invariant
                0 <= i <= nodes@.len(),
                self.wf(),
                spec_walk_nodes(m0, nodes@) == spec_walk_nodes(self@, nodes@.skip(i as int)),
            decreases nodes@.len() - i,
        {
            let ghost cur = self@;
            self.visit_node(&nodes[i]);
            proof {
                assert(nodes@.skip(i as int)[0] == nodes@[i as int]);
                assert(nodes@.skip(i as int).drop_first() =~= nodes@.skip(i as int + 1));
                assert(spec_walk_nodes(cur, nodes@.skip(i as int)) == spec_walk_nodes(
                    self@,
                    nodes@.skip(i as int + 1),
                ));
            }
            i = i + 1;
        }
        proof {
            assert(nodes@.skip(nodes@.len() as int) =~= Seq::<Node>::empty());
        }
    }

    /// Walks one use-tree, declaring renames and self-bringing prefixes.
    pub fn visit_use_tree(&mut self, t: &UseTree)
        requires
            old(self).wf(),
        ensures
            final(self).wf(),
            final(self)@ == spec_walk_use(old(self)@, *t),
        decreases t,
    {
        match t {
            UseTree::Prefix { ident, tree } => {
                // a group holding a bare `self` brings the prefix itself
                // into scope
                let has_self = match &**tree {
                    UseTree::Group { items } => group_has_self(items),
                    _ => false,
                };
                if has_self {
                    self.add_mod(ident);
                }
                self.visit_use_tree(&**tree);
            },
            UseTree::Name { ident: _ } => (),
            UseTree::Rename { ident, rename } => {
                self.add_import(ident);
                self.add_mod(rename);
            },
            UseTree::Group { items } => {
                self.visit_use_trees(items);
            },
            UseTree::Glob => (),
        }
    }

    /// Walks the items of a use-group left to right.
    pub fn visit_use_trees(&mut self, items: &Vec<UseTree>)
        requires
            old(self).wf(),
        ensures
            final(self).wf(),
            final(self)@ == spec_walk_uses(old(self)@, items@),
        decreases items@,
    {
        let ghost m0 = self@;
        let mut i: usize = 0;
        proof {
            assert(items@.skip(0) =~= items@);
        }
        while i < items.len()
            invariant
                0 <= i <= items@.len(),
                self.wf(),
                spec_walk_uses(m0, items@) == spec_walk_uses(self@, items@.skip(i as int)),
            decreases items@.len() - i,
        {
            let ghost cur = self@;
            self.visit_use_tree(&items[i]);
            proof {
                assert(items@.skip(i as int)[0] == items@[i as int]);
                assert(items@.skip(i as int).drop_first() =~= items@.skip(i as int + 1));
                assert(spec_walk_uses(cur, items@.skip(i as int)) == spec_walk_uses(
                    self@,
                    items@.skip(i as int + 1),
                ));
            }
            i = i + 1;
        }
        proof {
            assert(items@.skip(items@.len() as int) =~= Seq::<UseTree>::empty());
        }
    }
}

} // verus!
