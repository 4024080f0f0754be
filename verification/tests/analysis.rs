use rust_parser::analysis::{analyze_file, difference, filter_imports};
use rust_parser::ast::{Attr, Delim, Node, TokenTree, UseTree};

fn s(x: &str) -> String {
    x.to_string()
}

fn use_plain(first: &str, second: &str) -> Node {
    Node::ItemUse {
        tree: UseTree::Prefix {
            ident: s(first),
            tree: Box::new(UseTree::Name { ident: s(second) }),
        },
    }
}

fn use_single(name: &str) -> Node {
    Node::ItemUse { tree: UseTree::Name { ident: s(name) } }
}

fn use_rename(original: &str, rename: &str) -> Node {
    Node::ItemUse {
        tree: UseTree::Rename { ident: s(original), rename: s(rename) },
    }
}

fn path(segments: &[&str]) -> Node {
    Node::PathRef {
        segments: segments.iter().map(|x| s(x)).collect(),
        nodes: Vec::new(),
    }
}

fn cfg_test_attr() -> Attr {
    Attr {
        outer: true,
        path: vec![s("cfg")],
        tokens: vec![TokenTree::Group(
            Delim::Parenthesis,
            vec![TokenTree::Ident(s("test"))],
        )],
    }
}

fn plain_attr(word: &str) -> Attr {
    Attr { outer: true, path: vec![s(word)], tokens: Vec::new() }
}

fn plain_fn(name: &str, body: Vec<Node>) -> Node {
    Node::ItemFn {
        ident: s(name),
        attrs: Vec::new(),
        nodes: vec![Node::Block { nodes: body }],
    }
}

fn sorted(v: &[String]) -> Vec<String> {
    let mut out: Vec<String> = v.to_vec();
    out.sort();
    out
}

#[test]
fn normal_and_test_only_scenario() {
    // use alpha::beta; plus a #[cfg(test)] module referencing both alpha
    // and gamma: alpha stays normal only, gamma is test-only
    let items = vec![
        use_plain("alpha", "beta"),
        Node::ItemMod {
            ident: s("m"),
            attrs: vec![cfg_test_attr()],
            nodes: vec![
                use_plain("gamma", "delta"),
                plain_fn("f", vec![path(&["alpha", "x"]), path(&["gamma", "y"])]),
            ],
        },
    ];
    let r = analyze_file(&items);
    assert_eq!(sorted(&r.imports), vec![s("alpha")]);
    assert_eq!(sorted(&r.test_imports), vec![s("gamma")]);
    assert!(!r.hints.has_main);
    assert!(!r.hints.has_test);
    assert!(!r.hints.has_proc_macro);
}

#[test]
fn crate_decl_serde() {
    // a direct external-dependency declaration at the root and nothing else
    let items = vec![Node::CrateDecl { ident: s("serde") }];
    let r = analyze_file(&items);
    assert_eq!(r.imports, vec![s("serde")]);
    assert!(r.test_imports.is_empty());
}

#[test]
fn local_module_shadows_path_reference() {
    // mod a; mod b { use a::thing; } -- `a` is a local name at the root,
    // so the reference inside `b` resolves locally, not to a crate
    let items = vec![
        Node::ItemMod { ident: s("a"), attrs: Vec::new(), nodes: Vec::new() },
        Node::ItemMod {
            ident: s("b"),
            attrs: Vec::new(),
            nodes: vec![use_plain("a", "thing")],
        },
    ];
    let r = analyze_file(&items);
    assert!(r.imports.is_empty());
    assert!(r.test_imports.is_empty());
}

#[test]
fn rename_shadows_later_references() {
    // use serde_json as json; json::to_string(...) must not re-import json
    let items = vec![
        use_rename("serde_json", "json"),
        path(&["json", "to_string"]),
    ];
    let r = analyze_file(&items);
    assert_eq!(r.imports, vec![s("serde_json")]);
    assert!(r.test_imports.is_empty());
}

#[test]
fn group_self_brings_prefix_into_scope() {
    // use a::b::{self, c}; declares `b`, so b::d later resolves locally
    let items = vec![
        Node::ItemUse {
            tree: UseTree::Prefix {
                ident: s("a"),
                tree: Box::new(UseTree::Prefix {
                    ident: s("b"),
                    tree: Box::new(UseTree::Group {
                        items: vec![
                            UseTree::Name { ident: s("self") },
                            UseTree::Name { ident: s("c") },
                        ],
                    }),
                }),
            },
        },
        path(&["b", "d"]),
    ];
    let r = analyze_file(&items);
    assert_eq!(r.imports, vec![s("a")]);
    assert!(r.test_imports.is_empty());
}

#[test]
fn scope_exit_restores_shadow() {
    // a rename inside a block shadows only until the block closes; the
    // same name referenced afterwards is a fresh external reference
    let items = vec![
        Node::Block { nodes: vec![use_rename("original", "y")] },
        path(&["y", "z"]),
    ];
    let r = analyze_file(&items);
    assert_eq!(sorted(&r.imports), vec![s("original"), s("y")]);
    assert!(r.test_imports.is_empty());
}

#[test]
fn shadow_suppresses_inside_declaring_scope() {
    // while the rename is in scope, the same reference stays invisible
    let items = vec![Node::Block {
        nodes: vec![use_rename("original", "y"), path(&["y", "z"])],
    }];
    let r = analyze_file(&items);
    assert_eq!(r.imports, vec![s("original")]);
    assert!(r.test_imports.is_empty());
}

#[test]
fn test_only_is_monotonic_at_depth() {
    // a reference deep under a #[cfg(test)] module stays test-only
    let items = vec![Node::ItemMod {
        ident: s("m"),
        attrs: vec![cfg_test_attr()],
        nodes: vec![Node::ItemMod {
            ident: s("inner"),
            attrs: Vec::new(),
            nodes: vec![plain_fn(
                "f",
                vec![Node::Block { nodes: vec![path(&["deep", "call"])] }],
            )],
        }],
    }];
    let r = analyze_file(&items);
    assert!(r.imports.is_empty());
    assert_eq!(r.test_imports, vec![s("deep")]);
}

#[test]
fn normal_reference_wins_over_test_only() {
    // referenced both ways: the import is needed unconditionally
    let items = vec![
        path(&["both", "x"]),
        Node::ItemMod {
            ident: s("m"),
            attrs: vec![cfg_test_attr()],
            nodes: vec![path(&["both", "y"])],
        },
    ];
    let r = analyze_file(&items);
    assert_eq!(r.imports, vec![s("both")]);
    assert!(r.test_imports.is_empty());
}

#[test]
fn uppercase_leading_names_are_dropped() {
    // uppercase-leading identifiers are type names, not crates
    let items = vec![
        path(&["Widget", "new"]),
        use_plain("Builder", "x"),
        Node::ItemMod {
            ident: s("m"),
            attrs: vec![cfg_test_attr()],
            nodes: vec![path(&["Mock", "new"])],
        },
    ];
    let r = analyze_file(&items);
    assert!(r.imports.is_empty());
    assert!(r.test_imports.is_empty());
}

#[test]
fn entry_point_at_root_sets_hint() {
    let items = vec![plain_fn("main", Vec::new())];
    let r = analyze_file(&items);
    assert!(r.hints.has_main);
    assert!(!r.hints.has_test);
}

#[test]
fn entry_point_nested_in_module_does_not_set_hint() {
    let items = vec![Node::ItemMod {
        ident: s("m"),
        attrs: Vec::new(),
        nodes: vec![plain_fn("main", Vec::new())],
    }];
    let r = analyze_file(&items);
    assert!(!r.hints.has_main);
}

#[test]
fn root_entry_point_skips_attribute_inspection() {
    // a root-level entry point is recognized before its attributes are
    // read, so a test marker on it changes nothing
    let items = vec![Node::ItemFn {
        ident: s("main"),
        attrs: vec![plain_attr("test")],
        nodes: vec![Node::Block { nodes: Vec::new() }],
    }];
    let r = analyze_file(&items);
    assert!(r.hints.has_main);
    assert!(!r.hints.has_test);
}

#[test]
fn test_fn_sets_hint_and_classifies_test_only() {
    let items = vec![Node::ItemFn {
        ident: s("exercises"),
        attrs: vec![plain_attr("test")],
        nodes: vec![Node::Block { nodes: vec![path(&["mockall", "mock"])] }],
    }];
    let r = analyze_file(&items);
    assert!(r.hints.has_test);
    assert!(!r.hints.has_main);
    assert!(r.imports.is_empty());
    assert_eq!(r.test_imports, vec![s("mockall")]);
}

#[test]
fn proc_macro_attribute_sets_hint() {
    let items = vec![Node::ItemFn {
        ident: s("derive_thing"),
        attrs: vec![plain_attr("proc_macro")],
        nodes: vec![Node::Block { nodes: Vec::new() }],
    }];
    let r = analyze_file(&items);
    assert!(r.hints.has_proc_macro);
    assert!(!r.hints.has_test);
    assert!(!r.hints.has_main);
}

#[test]
fn self_reference_keyword_is_ignored() {
    let items = vec![path(&["crate", "module", "thing"])];
    let r = analyze_file(&items);
    assert!(r.imports.is_empty());
    assert!(r.test_imports.is_empty());
}

#[test]
fn single_segment_path_is_not_a_reference() {
    let items = vec![path(&["lonely"])];
    let r = analyze_file(&items);
    assert!(r.imports.is_empty());
    assert!(r.test_imports.is_empty());
}

#[test]
fn single_name_import_is_a_reference() {
    let items = vec![use_single("lazy_static")];
    let r = analyze_file(&items);
    assert_eq!(r.imports, vec![s("lazy_static")]);
}

#[test]
fn repeated_references_recorded_once() {
    let items = vec![
        path(&["tokio", "spawn"]),
        path(&["tokio", "join"]),
        use_plain("tokio", "runtime"),
    ];
    let r = analyze_file(&items);
    assert_eq!(r.imports, vec![s("tokio")]);
}

#[test]
fn inner_cfg_test_attribute_does_not_mark() {
    // only an outer attribute can mark a module test-only
    let mut attr = cfg_test_attr();
    attr.outer = false;
    let items = vec![Node::ItemMod {
        ident: s("m"),
        attrs: vec![attr],
        nodes: vec![path(&["dep", "x"])],
    }];
    let r = analyze_file(&items);
    assert_eq!(r.imports, vec![s("dep")]);
    assert!(r.test_imports.is_empty());
}

#[test]
fn cfg_test_requires_parenthesized_single_test_token() {
    // a braced group or extra tokens do not count as #[cfg(test)]
    let braced = Attr {
        outer: true,
        path: vec![s("cfg")],
        tokens: vec![TokenTree::Group(
            Delim::Brace,
            vec![TokenTree::Ident(s("test"))],
        )],
    };
    let two_tokens = Attr {
        outer: true,
        path: vec![s("cfg")],
        tokens: vec![TokenTree::Group(
            Delim::Parenthesis,
            vec![TokenTree::Ident(s("test")), TokenTree::Leaf],
        )],
    };
    let items = vec![
        Node::ItemMod {
            ident: s("m1"),
            attrs: vec![braced],
            nodes: vec![path(&["one", "x"])],
        },
        Node::ItemMod {
            ident: s("m2"),
            attrs: vec![two_tokens],
            nodes: vec![path(&["two", "x"])],
        },
    ];
    let r = analyze_file(&items);
    assert_eq!(sorted(&r.imports), vec![s("one"), s("two")]);
    assert!(r.test_imports.is_empty());
}

#[test]
fn filter_imports_keeps_only_lowercase_leading() {
    let out = filter_imports(vec![s("serde"), s("Widget"), s(""), s("_x"), s("9lives")]);
    assert_eq!(out, vec![s("serde")]);
}

#[test]
fn difference_removes_spelled_names() {
    let out = difference(
        &vec![s("a"), s("b"), s("c")],
        &vec![s("b"), s("d")],
    );
    assert_eq!(out, vec![s("a"), s("c")]);
}

#[test]
fn other_constructs_only_contribute_children() {
    // a construct of no special kind introduces no scope of its own
    let items = vec![Node::Other {
        nodes: vec![path(&["log", "info"])],
    }];
    let r = analyze_file(&items);
    assert_eq!(r.imports, vec![s("log")]);
}

#[test]
fn glob_import_classifies_only_first_segment() {
    // use rayon::prelude::*;
    let items = vec![Node::ItemUse {
        tree: UseTree::Prefix {
            ident: s("rayon"),
            tree: Box::new(UseTree::Prefix {
                ident: s("prelude"),
                tree: Box::new(UseTree::Glob),
            }),
        },
    }];
    let r = analyze_file(&items);
    assert_eq!(r.imports, vec![s("rayon")]);
}

#[test]
fn group_import_classifies_root_and_renames() {
    // use futures::{io as fio, task}; then fio::copy() stays local and
    // io::copy() is fresh
    let items = vec![
        Node::ItemUse {
            tree: UseTree::Prefix {
                ident: s("futures"),
                tree: Box::new(UseTree::Group {
                    items: vec![
                        UseTree::Rename { ident: s("io"), rename: s("fio") },
                        UseTree::Name { ident: s("task") },
                    ],
                }),
            },
        },
        path(&["fio", "copy"]),
        path(&["io", "copy"]),
    ];
    let r = analyze_file(&items);
    assert_eq!(sorted(&r.imports), vec![s("futures"), s("io")]);
}
