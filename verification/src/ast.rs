//! The syntax-tree model the resolver walks.
//!
//! A tree provider parses source text elsewhere and hands the resolver this
//! already well-formed tree of plain values: identifiers are `String`s,
//! attribute arguments are token trees, and every construct the dispatch
//! rules care about has a node kind of its own.  Anything else appears as
//! `Node::Other`, which only contributes its children.

use vstd::prelude::*;

verus! {

/// The bracket style of a token group.
pub enum Delim {
    Parenthesis,
    Brace,
    Bracket,
    /// An implicit grouping with no written bracket.
    Bare,
}

/// One token tree of an attribute's argument stream.
pub enum TokenTree {
    /// A bracketed group of token trees.
    Group(Delim, Vec<TokenTree>),
    /// A bare identifier token.
    Ident(String),
    /// Any other leaf token: punctuation or a literal.
    Leaf,
}

/// One attribute attached to an item.
pub struct Attr {
    /// Whether the attribute is an outer attribute (written above the item).
    pub outer: bool,
    /// The segments of the attribute's path.
    pub path: Vec<String>,
    /// The token trees following the path.
    pub tokens: Vec<TokenTree>,
}

/// The tree of one use-declaration.
pub enum UseTree {
    /// A path segment followed by more of the tree: `a::rest`.
    Prefix { ident: String, tree: Box<UseTree> },
    /// A terminal plain name: `use a::b;` ends in `b`.
    Name { ident: String },
    /// A terminal rename: `use a as b;`.
    Rename { ident: String, rename: String },
    /// A brace group: `use a::{..., ...};`.
    Group { items: Vec<UseTree> },
    /// A glob: `use a::*;`.
    Glob,
}

/// One node of the syntax tree.
pub enum Node {
    /// A use-declaration.
    ItemUse { tree: UseTree },
    /// A declaration naming an outside crate directly, with no scope
    /// implications.
    CrateDecl { ident: String },
    /// A qualified path reference in expression or type position; nested
    /// nodes come from generic arguments inside the path.
    PathRef { segments: Vec<String>, nodes: Vec<Node> },
    /// A block body: a scope of its own, never test-marking by itself.
    Block { nodes: Vec<Node> },
    /// A module declaration with its attributes and contents.
    ItemMod { ident: String, attrs: Vec<Attr>, nodes: Vec<Node> },
    /// A function item with its attributes; the children hold its body.
    ItemFn { ident: String, attrs: Vec<Attr>, nodes: Vec<Node> },
    /// Any other construct: only its children matter.
    Other { nodes: Vec<Node> },
}

/// The single token tree of a stream that holds exactly one.
pub open spec fn spec_single_item(stream: Seq<TokenTree>) -> Option<TokenTree> {
    if stream.len() == 1 {
        Some(stream[0])
    } else {
        None
    }
}

/// Helper for reading a single token tree out of a token stream.
pub fn token_stream_single_item(stream: &Vec<TokenTree>) -> (r: Option<&TokenTree>)
    ensures
        match r {
            Some(t) => spec_single_item(stream@) == Some(*t),
            None => spec_single_item(stream@) is None,
        },
{
    if stream.len() == 1 {
        Some(&stream[0])
    } else {
        None
    }
}

/// An outer, single-segment `cfg` attribute whose parenthesized argument is
/// the single bare token `test`.
pub open spec fn spec_is_cfg_test(attr: Attr) -> bool {
    &&& attr.outer
    &&& attr.path@.len() == 1
    &&& attr.path@[0]@ == "cfg"@
    &&& match spec_single_item(attr.tokens@) {
        Some(TokenTree::Group(Delim::Parenthesis, inner)) => match spec_single_item(inner@) {
            Some(TokenTree::Ident(id)) => id@ == "test"@,
            _ => false,
        },
        _ => false,
    }
}

/// Some attribute of the list marks its item's scope test-only.
pub open spec fn spec_mod_marked_test(attrs: Seq<Attr>) -> bool {
    exists|i: int| 0 <= i < attrs.len() && spec_is_cfg_test(#[trigger] attrs[i])
}

/// An outer, single-segment attribute spelling exactly `word`.
pub open spec fn spec_is_plain_attr(attr: Attr, word: Seq<char>) -> bool {
    &&& attr.outer
    &&& attr.path@.len() == 1
    &&& attr.path@[0]@ == word
}

/// Some attribute of the list is the single-segment test marker.
pub open spec fn spec_fn_marked_test(attrs: Seq<Attr>) -> bool {
    exists|i: int| 0 <= i < attrs.len() && spec_is_plain_attr(#[trigger] attrs[i], "test"@)
}

/// Some attribute of the list is the single-segment compile-time
/// code-generation marker.
pub open spec fn spec_fn_marked_proc_macro(attrs: Seq<Attr>) -> bool {
    exists|i: int| 0 <= i < attrs.len() && spec_is_plain_attr(#[trigger] attrs[i], "proc_macro"@)
}

/// Extending an inspected prefix of an attribute list by one attribute
/// extends what the markers found accordingly.
pub proof fn lemma_marked_take_succ(attrs: Seq<Attr>, i: int)
    requires
        0 <= i < attrs.len(),
    ensures
        spec_fn_marked_test(attrs.take(i + 1)) == (spec_fn_marked_test(attrs.take(i))
            || spec_is_plain_attr(attrs[i], "test"@)),
        spec_fn_marked_proc_macro(attrs.take(i + 1)) == (spec_fn_marked_proc_macro(attrs.take(i))
            || spec_is_plain_attr(attrs[i], "proc_macro"@)),
{
    let p = attrs.take(i);
    let q = attrs.take(i + 1);
    assert(q[i] == attrs[i]);
    assert(forall|k: int| 0 <= k < i ==> #[trigger] q[k] == attrs[k] && #[trigger] p[k]
        == attrs[k]);
    if spec_fn_marked_test(q) {
        let k = choose|k: int| 0 <= k < q.len() && spec_is_plain_attr(#[trigger] q[k], "test"@);
        if k < i {
            assert(spec_is_plain_attr(p[k], "test"@));
        }
    }
    if spec_fn_marked_test(p) {
        let k = choose|k: int| 0 <= k < p.len() && spec_is_plain_attr(#[trigger] p[k], "test"@);
        assert(spec_is_plain_attr(q[k], "test"@));
    }
    if spec_is_plain_attr(attrs[i], "test"@) {
        assert(spec_is_plain_attr(q[i], "test"@));
    }
    if spec_fn_marked_proc_macro(q) {
        let k = choose|k: int|
            0 <= k < q.len() && spec_is_plain_attr(#[trigger] q[k], "proc_macro"@);
        if k < i {
            assert(spec_is_plain_attr(p[k], "proc_macro"@));
        }
    }
    if spec_fn_marked_proc_macro(p) {
        let k = choose|k: int|
            0 <= k < p.len() && spec_is_plain_attr(#[trigger] p[k], "proc_macro"@);
        assert(spec_is_plain_attr(q[k], "proc_macro"@));
    }
    if spec_is_plain_attr(attrs[i], "proc_macro"@) {
        assert(spec_is_plain_attr(q[i], "proc_macro"@));
    }
}

/// Whether one attribute is the `#[cfg(test)]` marker.
pub fn is_cfg_test(attr: &Attr) -> (r: bool)
    ensures
        r == spec_is_cfg_test(*attr),
{
    if !attr.outer || attr.path.len() != 1 {
        return false;
    }
    if !crate::names::string_is(&attr.path[0], "cfg") {
        return false;
    }
    match token_stream_single_item(&attr.tokens) {
        Some(TokenTree::Group(Delim::Parenthesis, inner)) => {
            match token_stream_single_item(inner) {
                Some(TokenTree::Ident(id)) => crate::names::string_is(id, "test"),
                _ => false,
            }
        },
        _ => false,
    }
}

/// Whether any attribute of the list is the `#[cfg(test)]` marker.
pub fn mod_marked_test(attrs: &Vec<Attr>) -> (r: bool)
    ensures
        r == spec_mod_marked_test(attrs@),
{
    let mut i: usize = 0;
    while i < attrs.len()
        invariant
            0 <= i <= attrs@.len(),
            forall|k: int| 0 <= k < i ==> !spec_is_cfg_test(#[trigger] attrs@[k]),
        decreases attrs@.len() - i,
    {
        if is_cfg_test(&attrs[i]) {
            return true;
        }
        i = i + 1;
    }
    false
}

/// Whether one attribute is an outer single-segment attribute spelling
/// `word`.
pub fn is_plain_attr(attr: &Attr, word: &str) -> (r: bool)
    ensures
        r == spec_is_plain_attr(*attr, word@),
{
    if !attr.outer || attr.path.len() != 1 {
        return false;
    }
    crate::names::string_is(&attr.path[0], word)
}

} // verus!
