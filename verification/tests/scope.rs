use rust_parser::ast::{token_stream_single_item, Delim, TokenTree};
use rust_parser::scope::ScopeStack;
use rust_parser::visitor::AstVisitor;

fn s(x: &str) -> String {
    x.to_string()
}

#[test]
fn declare_and_pop_restore_shadowing_exactly() {
    let mut st = ScopeStack::new();
    assert!(st.is_root());
    st.declare_local(&s("outer"));
    st.push(false);
    st.declare_local(&s("inner"));
    assert!(!st.is_root());
    assert!(st.is_shadowed(&s("outer")));
    assert!(st.is_shadowed(&s("inner")));
    st.pop();
    assert!(st.is_shadowed(&s("outer")));
    assert!(!st.is_shadowed(&s("inner")));
    assert!(st.is_root());
}

#[test]
fn redeclaration_is_a_silent_no_op() {
    // the first declaration wins for the lifetime of the shadow: popping
    // the inner frame must not unshadow the outer declaration
    let mut st = ScopeStack::new();
    st.declare_local(&s("name"));
    st.push(false);
    st.declare_local(&s("name"));
    st.pop();
    assert!(st.is_shadowed(&s("name")));
}

#[test]
fn test_only_flag_inherits_downward() {
    let mut st = ScopeStack::new();
    assert!(!st.current_is_test_only());
    st.push(true);
    assert!(st.current_is_test_only());
    st.push(false);
    // a frame under a test-only frame is test-only, not resettable
    assert!(st.current_is_test_only());
    st.pop();
    st.pop();
    assert!(!st.current_is_test_only());
}

#[test]
fn single_item_stream_is_read() {
    let stream = vec![TokenTree::Ident(s("test"))];
    match token_stream_single_item(&stream) {
        Some(TokenTree::Ident(id)) => assert_eq!(id.as_str(), "test"),
        _ => panic!("expected the single identifier"),
    }
}

#[test]
fn empty_and_longer_streams_are_rejected() {
    let empty: Vec<TokenTree> = Vec::new();
    assert!(token_stream_single_item(&empty).is_none());
    let two = vec![
        TokenTree::Ident(s("test")),
        TokenTree::Group(Delim::Parenthesis, Vec::new()),
    ];
    assert!(token_stream_single_item(&two).is_none());
}

#[test]
fn fresh_visitor_is_empty() {
    let v = AstVisitor::default();
    assert!(v.imports.is_empty());
    assert!(v.test_imports.is_empty());
    assert!(!v.hints.has_main);
    assert!(!v.hints.has_test);
    assert!(!v.hints.has_proc_macro);
}

#[test]
fn add_import_respects_shadowing_and_scope() {
    let mut v = AstVisitor::default();
    v.add_import(&s("serde"));
    v.add_import(&s("serde"));
    assert_eq!(v.imports, vec![s("serde")]);
    v.add_mod(&s("local"));
    v.add_import(&s("local"));
    assert_eq!(v.imports, vec![s("serde")]);
    v.push_scope(true);
    v.add_import(&s("quickcheck"));
    v.pop_scope();
    assert_eq!(v.imports, vec![s("serde")]);
    assert_eq!(v.test_imports, vec![s("quickcheck")]);
}

#[test]
fn add_import_ignores_self_reference_keyword() {
    let mut v = AstVisitor::default();
    v.add_import(&s("crate"));
    assert!(v.imports.is_empty());
    assert!(v.test_imports.is_empty());
}
