use morpho_rs::declaration::TypeDeclaration;
use morpho_rs::function::{find_file_for_function, format_function_source, Function};
use morpho_rs::mode::{Output, OutputMode, VisibilityFilter};
use morpho_rs::project::{find_file_for_type, load_project, Project};
use morpho_rs::report::{
    exclude_files, generate_call_graph_output, generate_list_all, generate_output,
    generate_output_multi_dir, generate_output_with_blacklist, generate_report, generate_source,
};
use morpho_rs::syntax::{
    Block, Expr, Field, Fields, FnArg, ImplItem, ImplItemFn, Item, ItemEnum, ItemFn, ItemImpl,
    ItemStruct, ParsedFile, ReturnType, Signature, Stmt, Type, TypeKind, Variant, Visibility,
};
use morpho_rs::trace::trace_calls;

fn path_type(name: &str) -> Type {
    Type {
        text: name.to_string(),
        kind: TypeKind::Path { path_text: name.to_string(), last_segment: Some(name.to_string()) },
    }
}

fn reference_to(elem: Type) -> Type {
    Type { text: format!("& {}", elem.text), kind: TypeKind::Reference { elem: Box::new(elem) } }
}

fn call(name: &str) -> Stmt {
    Stmt::Expr {
        text: format!("{} ()", name),
        expr: Expr::Call {
            func: Box::new(Expr::Path { last_segment: Some(name.to_string()) }),
        },
    }
}

fn body(stmts: Vec<Stmt>) -> Block {
    let inner: Vec<String> = stmts
        .iter()
        .map(|s| match s {
            Stmt::Expr { text, .. } => text.clone(),
            Stmt::Other => String::new(),
        })
        .collect();
    Block { text: format!("{{ {} }}", inner.join(" ; ")), stmts }
}

fn signature(name: &str, inputs: Vec<FnArg>, output: ReturnType) -> Signature {
    Signature {
        constness: false,
        asyncness: false,
        unsafety: false,
        ident: name.to_string(),
        inputs,
        output,
    }
}

fn free_fn(vis: Visibility, name: &str, stmts: Vec<Stmt>) -> Item {
    Item::Fn(ItemFn { vis, sig: signature(name, vec![], ReturnType::Default), block: body(stmts) })
}

fn record(vis: Visibility, name: &str, field: &str, ty: &str) -> Item {
    Item::Struct(ItemStruct {
        vis,
        ident: name.to_string(),
        fields: Fields::Named(vec![Field {
            vis: Visibility::Inherited,
            ident: Some(field.to_string()),
            ty: path_type(ty),
        }]),
    })
}

fn file(path: &str, items: Vec<Item>) -> ParsedFile {
    ParsedFile { path: path.to_string(), items: Some(items) }
}

fn project_of(files: Vec<ParsedFile>) -> Project {
    load_project(files).unwrap()
}

fn mutual() -> Vec<ParsedFile> {
    vec![file(
        "src/lib.rs",
        vec![
            free_fn(Visibility::Inherited, "a", vec![call("b")]),
            free_fn(Visibility::Inherited, "b", vec![call("a")]),
        ],
    )]
}

#[test]
fn mutual_recursion_marks_the_second_visit() {
    let out = generate_output(
        mutual(),
        OutputMode::CallGraph { root: "a".to_string(), visibility: VisibilityFilter::All },
    )
    .unwrap();
    assert_eq!(
        out.content,
        "=== src/lib.rs ===\nfn src/lib.rs::a() -> ()\n└── b\n    └── a (already shown)\n"
    );
}

#[test]
fn mutual_recursion_visits_both_functions_once() {
    let project = project_of(mutual());
    let (visited, types) = trace_calls("a", &project).unwrap();
    assert_eq!(visited, vec!["src/lib.rs::a".to_string(), "src/lib.rs::b".to_string()]);
    assert!(types.is_empty());
}

#[test]
fn trace_holds_the_root_itself() {
    let project = project_of(vec![file(
        "m.rs",
        vec![free_fn(Visibility::Inherited, "alone", vec![])],
    )]);
    let (visited, _) = trace_calls("m.rs::alone", &project).unwrap();
    assert_eq!(visited, vec!["m.rs::alone".to_string()]);
}

#[test]
fn trace_never_visits_more_than_is_indexed() {
    let project = project_of(vec![file(
        "m.rs",
        vec![
            free_fn(Visibility::Inherited, "a", vec![call("b"), call("c"), call("b")]),
            free_fn(Visibility::Inherited, "b", vec![call("c"), call("a")]),
            free_fn(Visibility::Inherited, "c", vec![call("a"), call("outside")]),
            free_fn(Visibility::Inherited, "d", vec![call("a")]),
        ],
    )]);
    let (visited, _) = trace_calls("a", &project).unwrap();
    assert_eq!(visited.len(), 3);
    assert!(visited.len() <= project.functions().len());
    assert!(!visited.contains(&"m.rs::d".to_string()));
}

#[test]
fn trace_collects_types_through_references() {
    let f = Item::Fn(ItemFn {
        vis: Visibility::Public,
        sig: signature(
            "f",
            vec![
                FnArg::Typed(reference_to(path_type("Config"))),
                FnArg::Typed(Type { text: "(u8 , u8)".to_string(), kind: TypeKind::Other }),
                FnArg::Typed(Type {
                    text: "[Item]".to_string(),
                    kind: TypeKind::Slice { elem: Box::new(reference_to(path_type("Item"))) },
                }),
            ],
            ReturnType::Type(path_type("Config")),
        ),
        block: body(vec![]),
    });
    let project = project_of(vec![file("m.rs", vec![f])]);
    let (_, types) = trace_calls("f", &project).unwrap();
    assert_eq!(types, vec!["Config".to_string(), "Item".to_string()]);
}

#[test]
fn unresolvable_root_is_not_found() {
    let result = generate_output(
        mutual(),
        OutputMode::CallGraph { root: "nope".to_string(), visibility: VisibilityFilter::All },
    );
    assert_eq!(result, Err("Function 'nope' not found".to_string()));
    let project = project_of(mutual());
    assert_eq!(trace_calls("nope", &project), Err("Function 'nope' not found".to_string()));
}

fn type_with_method() -> Vec<ParsedFile> {
    let method = ImplItemFn {
        vis: Visibility::Public,
        sig: signature("method", vec![FnArg::Receiver], ReturnType::Type(path_type("u32"))),
        block: Block { text: "{ 1 }".to_string(), stmts: vec![] },
    };
    let hidden = ImplItemFn {
        vis: Visibility::Inherited,
        sig: signature("helper", vec![FnArg::Receiver], ReturnType::Default),
        block: Block { text: "{ }".to_string(), stmts: vec![] },
    };
    vec![file(
        "mod",
        vec![
            Item::Impl(ItemImpl {
                self_ty: path_type("Type"),
                items: vec![ImplItem::Fn(method), ImplItem::Other, ImplItem::Fn(hidden)],
            }),
            free_fn(Visibility::Inherited, "user", vec![call("helper"), call("method")]),
        ],
    )]
}

#[test]
fn source_of_a_method_by_its_bare_name() {
    let out =
        generate_output(type_with_method(), OutputMode::Source { function: "method".to_string() })
            .unwrap();
    assert_eq!(out.content, "=== mod ===\npub fn Type::method(self) -> u32 { 1 }\n");
}

#[test]
fn source_of_an_unknown_function_is_not_found() {
    let result =
        generate_output(type_with_method(), OutputMode::Source { function: "gone".to_string() });
    assert_eq!(result, Err("Function 'gone' not found".to_string()));
}

#[test]
fn private_methods_are_not_indexed() {
    let project = project_of(type_with_method());
    let names: Vec<String> =
        project.functions().iter().map(|f| f.qualified_name.clone()).collect();
    assert_eq!(names, vec!["mod::Type::method".to_string(), "mod::user".to_string()]);
    let (visited, _) = trace_calls("user", &project).unwrap();
    assert_eq!(visited, vec!["mod::user".to_string(), "mod::Type::method".to_string()]);
    let out = generate_call_graph_output(&project, VisibilityFilter::All, Some("user")).unwrap();
    assert_eq!(
        out.content,
        "=== mod ===\nfn mod::user() -> ()\n├── helper\n└── method\n"
    );
}

#[test]
fn later_declaration_of_a_type_replaces_the_earlier() {
    let files = vec![
        file("a.rs", vec![record(Visibility::Public, "Config", "first", "u8")]),
        file("b.rs", vec![record(Visibility::Public, "Config", "second", "u16")]),
    ];
    let out = generate_output(files, OutputMode::ListAll { visibility: VisibilityFilter::All })
        .unwrap();
    assert_eq!(out.content, "=== b.rs ===\npub struct Config {\n    second: u16\n}\n");
    assert_eq!(out.content.matches("struct Config").count(), 1);
}

#[test]
fn later_declaration_of_a_function_replaces_the_earlier() {
    let files = vec![
        file("a.rs", vec![free_fn(Visibility::Inherited, "f", vec![call("x")])]),
        file("a.rs", vec![free_fn(Visibility::Public, "f", vec![])]),
    ];
    let project = project_of(files);
    assert_eq!(project.functions().len(), 1);
    assert_eq!(project.functions()[0].vis, Visibility::Public);
}

#[test]
fn unreadable_files_add_nothing() {
    let files = vec![
        ParsedFile { path: "broken.rs".to_string(), items: None },
        file("ok.rs", vec![free_fn(Visibility::Public, "f", vec![])]),
        ParsedFile { path: "also_broken.rs".to_string(), items: None },
    ];
    let out = generate_output(files, OutputMode::ListAll { visibility: VisibilityFilter::All })
        .unwrap();
    assert_eq!(out.content, "=== ok.rs ===\npub fn ok.rs::f() -> ()\n");
}

#[test]
fn nothing_parsed_gives_an_empty_listing() {
    let files = vec![ParsedFile { path: "broken.rs".to_string(), items: None }];
    let out = generate_output(files, OutputMode::ListAll { visibility: VisibilityFilter::All });
    assert_eq!(out, Ok(Output { content: String::new() }));
}

fn two_files() -> Vec<ParsedFile> {
    vec![
        file(
            "z.rs",
            vec![
                free_fn(Visibility::Public, "zeta", vec![]),
                record(Visibility::Inherited, "Hidden", "x", "u8"),
                free_fn(Visibility::Inherited, "alpha", vec![]),
            ],
        ),
        file(
            "a.rs",
            vec![
                record(Visibility::Public, "Shown", "y", "u8"),
                free_fn(Visibility::Inherited, "inner", vec![]),
            ],
        ),
    ]
}

#[test]
fn listing_orders_files_and_functions() {
    let project = project_of(two_files());
    let out = generate_list_all(&project, VisibilityFilter::All).unwrap();
    assert_eq!(
        out.content,
        "=== a.rs ===\npub struct Shown {\n    y: u8\n}\nfn a.rs::inner() -> ()\n\
         === z.rs ===\nstruct Hidden {\n    x: u8\n}\nfn z.rs::alpha() -> ()\npub fn z.rs::zeta() -> ()\n"
    );
}

#[test]
fn public_listing_is_part_of_the_full_listing() {
    let project = project_of(two_files());
    let public = generate_list_all(&project, VisibilityFilter::PublicOnly).unwrap();
    assert_eq!(
        public.content,
        "=== a.rs ===\npub struct Shown {\n    y: u8\n}\n=== z.rs ===\npub fn z.rs::zeta() -> ()\n"
    );
    let all = generate_list_all(&project, VisibilityFilter::All).unwrap();
    for line in public.content.lines() {
        assert!(all.content.lines().any(|l| l == line));
    }
}

#[test]
fn reports_are_the_same_when_made_twice() {
    let project = project_of(mutual());
    let mode = || OutputMode::CallGraph { root: "a".to_string(), visibility: VisibilityFilter::All };
    assert_eq!(generate_report(&project, mode()), generate_report(&project, mode()));
    let first = generate_list_all(&project, VisibilityFilter::All);
    assert_eq!(first, generate_list_all(&project, VisibilityFilter::All));
}

#[test]
fn of_two_candidates_the_smaller_key_is_meant() {
    let files = vec![
        file("b.rs", vec![free_fn(Visibility::Inherited, "run", vec![])]),
        file("a.rs", vec![free_fn(Visibility::Public, "run", vec![])]),
    ];
    let project = project_of(files);
    let out = generate_source(&project, "run").unwrap();
    assert_eq!(out.content, "=== a.rs ===\npub fn run() {  }\n");
    let exact = generate_source(&project, "b.rs::run").unwrap();
    assert_eq!(exact.content, "=== b.rs ===\nfn run() {  }\n");
}

#[test]
fn call_graph_lists_reached_types_and_contexts() {
    let cond = Expr::Call { func: Box::new(Expr::Path { last_segment: Some("ready".to_string()) }) };
    let branch = Stmt::Expr {
        text: "if ready () { load () }".to_string(),
        expr: Expr::If {
            cond_text: "ready ()".to_string(),
            cond: Box::new(cond),
            then_branch: body(vec![call("load")]),
            else_branch: None,
        },
    };
    let start = Item::Fn(ItemFn {
        vis: Visibility::Public,
        sig: signature(
            "start",
            vec![FnArg::Typed(reference_to(path_type("Config")))],
            ReturnType::Default,
        ),
        block: body(vec![branch, call("print")]),
    });
    let files = vec![file(
        "main.rs",
        vec![
            record(Visibility::Public, "Config", "n", "u8"),
            record(Visibility::Public, "Unused", "n", "u8"),
            start,
            free_fn(Visibility::Inherited, "ready", vec![]),
            free_fn(Visibility::Inherited, "load", vec![call("ready")]),
        ],
    )];
    let out = generate_output(
        files,
        OutputMode::CallGraph { root: "start".to_string(), visibility: VisibilityFilter::All },
    )
    .unwrap();
    assert_eq!(
        out.content,
        "=== main.rs ===\npub struct Config {\n    n: u8\n}\n\
         === main.rs ===\npub fn main.rs::start(& Config) -> ()\n\
         ├── ready\n\
         ├── load [in: if (ready ())]\n\
         │   └── ready (already shown)\n\
         └── print\n"
    );
}

#[test]
fn call_graph_hides_private_types_on_request() {
    let start = Item::Fn(ItemFn {
        vis: Visibility::Public,
        sig: signature("start", vec![FnArg::Typed(path_type("Secret"))], ReturnType::Default),
        block: body(vec![]),
    });
    let files =
        vec![file("main.rs", vec![record(Visibility::Inherited, "Secret", "n", "u8"), start])];
    let project = project_of(files);
    let out = generate_call_graph_output(&project, VisibilityFilter::PublicOnly, Some("start")).unwrap();
    assert_eq!(out.content, "=== main.rs ===\npub fn main.rs::start(Secret) -> ()\n");
    let all = generate_call_graph_output(&project, VisibilityFilter::All, Some("start")).unwrap();
    assert_eq!(
        all.content,
        "=== main.rs ===\nstruct Secret {\n    n: u8\n}\n=== main.rs ===\npub fn main.rs::start(Secret) -> ()\n"
    );
}

fn keyless(name: &str, stmts: Vec<Stmt>) -> Function {
    Function {
        vis: Visibility::Inherited,
        sig: signature(name, vec![], ReturnType::Default),
        block: Some(body(stmts)),
        qualified_name: name.to_string(),
    }
}

#[test]
fn key_without_separator_is_refused() {
    assert_eq!(
        find_file_for_function("plain"),
        Err("Invalid qualified name format: plain".to_string())
    );
    assert_eq!(find_file_for_function("dir/f.rs::T::m"), Ok("dir/f.rs".to_string()));
    let mut project = Project::new();
    project.insert_function(keyless("plain", vec![]));
    assert_eq!(
        generate_source(&project, "plain"),
        Err("Invalid qualified name format: plain".to_string())
    );
    assert_eq!(
        generate_call_graph_output(&project, VisibilityFilter::All, Some("plain")),
        Err("Invalid qualified name format: plain".to_string())
    );
    let listing = generate_list_all(&project, VisibilityFilter::All).unwrap();
    assert_eq!(listing.content, "=== <unknown> ===\nfn plain() -> ()\n");
}

#[test]
fn file_of_a_type() {
    let project = project_of(two_files());
    assert_eq!(find_file_for_type("Shown", &project), Ok("a.rs".to_string()));
    assert_eq!(
        find_file_for_type("Missing", &project),
        Err("Type Missing not found in project".to_string())
    );
}

#[test]
fn function_without_body_as_source() {
    let f = Function {
        vis: Visibility::Public,
        sig: Signature {
            constness: true,
            asyncness: true,
            unsafety: true,
            ident: "f".to_string(),
            inputs: vec![FnArg::Typed(path_type("u8")), FnArg::Typed(path_type("u16"))],
            output: ReturnType::Type(path_type("bool")),
        },
        block: None,
        qualified_name: "x.rs::f".to_string(),
    };
    assert_eq!(
        format_function_source(&f),
        "pub async const unsafe fn f(u8, u16) -> bool { ... }\n"
    );
    assert_eq!(f.signature(), "pub async const unsafe fn x.rs::f(u8, u16) -> bool");
    assert_eq!(f.full_body(), "pub async const unsafe fn x.rs::f(u8, u16) -> bool\n{ ... }\n");
    assert!(f.calls().is_empty());
}

#[test]
fn full_body_shows_expression_statements() {
    let f = Function::from_fn(
        ItemFn {
            vis: Visibility::Inherited,
            sig: signature("g", vec![], ReturnType::Default),
            block: Block {
                text: "{ let x = 1 ; a () ; b () }".to_string(),
                stmts: vec![Stmt::Other, call("a"), call("b")],
            },
        },
        "lib.rs",
    );
    assert_eq!(f.qualified_name, "lib.rs::g");
    assert_eq!(f.full_body(), "fn lib.rs::g() -> ()\n{\n  a ()\n  b ()\n}\n");
    assert_eq!(format_function_source(&f), "fn g() { let x = 1 ; a () ; b () }\n");
}

#[test]
fn method_key_holds_the_type() {
    let m = Function::from_impl_method(
        ImplItemFn {
            vis: Visibility::Public,
            sig: signature("new", vec![], ReturnType::Type(path_type("Self"))),
            block: Block { text: "{ }".to_string(), stmts: vec![] },
        },
        "Vec < T >".to_string(),
        "src/v.rs",
    );
    assert_eq!(m.qualified_name, "src/v.rs::Vec < T >::new");
    assert_eq!(m.signature(), "pub fn src/v.rs::Vec < T >::new() -> Self");
}

#[test]
fn sum_types_in_a_listing() {
    let e = Item::Enum(ItemEnum {
        vis: Visibility::Public,
        ident: "Shape".to_string(),
        variants: vec![Variant { ident: "Dot".to_string(), fields: Fields::Unit }],
    });
    let mut project = Project::new();
    project.insert_item("s.rs", e);
    let out = generate_list_all(&project, VisibilityFilter::PublicOnly).unwrap();
    assert_eq!(out.content, "=== s.rs ===\npub enum Shape {\n    pub Dot\n}\n");
    let types = project.types();
    assert_eq!(types.len(), 1);
    assert!(matches!(types[0].item, TypeDeclaration::Enum(_)));
}

#[test]
fn call_graph_without_root_shows_every_function() {
    let mut files = two_files();
    files.push(file(
        "m.rs",
        vec![
            free_fn(Visibility::Public, "run", vec![call("zeta"), call("run")]),
        ],
    ));
    let project = project_of(files);
    let out = generate_call_graph_output(&project, VisibilityFilter::All, None).unwrap();
    assert_eq!(
        out.content,
        "=== a.rs ===\npub struct Shown {\n    y: u8\n}\n\
         === z.rs ===\nstruct Hidden {\n    x: u8\n}\n\
         fn a.rs::inner() -> ()\n\n\
         === m.rs ===\npub fn m.rs::run() -> ()\n├── zeta\n└── run (already shown)\n\n\
         fn z.rs::alpha() -> ()\n\npub fn z.rs::zeta() -> ()\n\n"
    );
    let public = generate_call_graph_output(&project, VisibilityFilter::PublicOnly, None).unwrap();
    assert_eq!(
        public.content,
        "=== a.rs ===\npub struct Shown {\n    y: u8\n}\n\
         === m.rs ===\npub fn m.rs::run() -> ()\n├── zeta\n└── run (already shown)\n\n\
         pub fn z.rs::zeta() -> ()\n\n"
    );
}

#[test]
fn call_graph_without_root_refuses_a_key_without_separator() {
    let mut project = Project::new();
    project.insert_function(keyless("plain", vec![]));
    assert_eq!(
        generate_call_graph_output(&project, VisibilityFilter::All, None),
        Err("Invalid qualified name format: plain".to_string())
    );
}

#[test]
fn listed_texts_exclude_files_from_a_report() {
    let blacklist = vec!["z.".to_string()];
    let kept = exclude_files(two_files(), &blacklist);
    assert_eq!(kept.len(), 1);
    assert_eq!(kept[0].path, "a.rs");
    let out = generate_output_with_blacklist(
        two_files(),
        OutputMode::ListAll { visibility: VisibilityFilter::All },
        &blacklist,
    )
    .unwrap();
    assert_eq!(
        out.content,
        "=== a.rs ===\npub struct Shown {\n    y: u8\n}\nfn a.rs::inner() -> ()\n"
    );
    let all = generate_output_with_blacklist(
        two_files(),
        OutputMode::ListAll { visibility: VisibilityFilter::All },
        &vec![],
    );
    assert_eq!(
        all,
        generate_output(two_files(), OutputMode::ListAll { visibility: VisibilityFilter::All })
    );
}

#[test]
fn several_roots_are_taken_in_one_after_another() {
    let first = vec![file("a/x.rs", vec![record(Visibility::Public, "Config", "old", "u8")])];
    let second = vec![
        file("b/skip/y.rs", vec![free_fn(Visibility::Public, "gone", vec![])]),
        file("b/y.rs", vec![record(Visibility::Public, "Config", "new", "u8")]),
    ];
    let out = generate_output_multi_dir(
        vec![first, vec![], second],
        OutputMode::ListAll { visibility: VisibilityFilter::All },
        &vec!["/skip/".to_string()],
    )
    .unwrap();
    assert_eq!(out.content, "=== b/y.rs ===\npub struct Config {\n    new: u8\n}\n");
}

#[test]
fn a_copy_of_a_function_reads_as_the_function() {
    let project = project_of(type_with_method());
    for f in project.functions() {
        let copy = f.clone();
        assert_eq!(&copy, f);
        assert_eq!(copy.signature(), f.signature());
        assert_eq!(copy.full_body(), f.full_body());
        assert_eq!(copy.calls(), f.calls());
        assert_eq!(format_function_source(&copy), format_function_source(f));
    }
}

#[test]
fn a_copy_of_an_index_gives_the_same_reports() {
    let mut files = two_files();
    files.extend(mutual());
    let project = project_of(files);
    let copy = project.clone();
    assert_eq!(copy.functions(), project.functions());
    assert_eq!(copy.types(), project.types());
    for visibility in [VisibilityFilter::All, VisibilityFilter::PublicOnly] {
        assert_eq!(generate_list_all(&copy, visibility), generate_list_all(&project, visibility));
        assert_eq!(
            generate_call_graph_output(&copy, visibility, Some("a")),
            generate_call_graph_output(&project, visibility, Some("a"))
        );
        assert_eq!(
            generate_call_graph_output(&copy, visibility, None),
            generate_call_graph_output(&project, visibility, None)
        );
    }
    assert_eq!(generate_source(&copy, "zeta"), generate_source(&project, "zeta"));
}
