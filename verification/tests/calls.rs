use morpho_rs::calls::{extract_calls_from_block, extract_calls_from_expr, CallSite};
use morpho_rs::syntax::{Arm, Block, Expr, Stmt};

fn path(name: &str) -> Expr {
    Expr::Path { last_segment: Some(name.to_string()) }
}

fn call(name: &str) -> Expr {
    Expr::Call { func: Box::new(path(name)) }
}

fn block(exprs: Vec<Expr>) -> Block {
    Block {
        text: String::new(),
        stmts: exprs.into_iter().map(|expr| Stmt::Expr { text: String::new(), expr }).collect(),
    }
}

fn site(name: &str, context: Option<&str>) -> CallSite {
    CallSite { name: name.to_string(), context: context.map(|c| c.to_string()) }
}

fn calls_of(expr: &Expr) -> Vec<CallSite> {
    let mut out = Vec::new();
    extract_calls_from_expr(expr, &mut out);
    out
}

#[test]
fn a_call_gives_the_last_segment_of_its_path() {
    assert_eq!(calls_of(&call("run")), vec![site("run", None)]);
}

#[test]
fn a_call_of_a_method_call_gives_the_method() {
    let e = Expr::Call { func: Box::new(Expr::MethodCall { method: "make".to_string() }) };
    assert_eq!(calls_of(&e), vec![site("make", None)]);
}

#[test]
fn a_call_of_anything_else_gives_nothing() {
    let e = Expr::Call { func: Box::new(Expr::Group { expr: Box::new(path("f")) }) };
    assert_eq!(calls_of(&e), vec![]);
    assert_eq!(calls_of(&Expr::Call { func: Box::new(Expr::Path { last_segment: None }) }), vec![]);
}

#[test]
fn a_path_alone_is_no_call() {
    assert_eq!(calls_of(&path("value")), vec![]);
    assert_eq!(calls_of(&Expr::Other), vec![]);
}

#[test]
fn method_calls_and_macros_give_their_names() {
    assert_eq!(
        calls_of(&Expr::MethodCall { method: "push".to_string() }),
        vec![site("push", None)]
    );
    assert_eq!(
        calls_of(&Expr::Macro { last_segment: Some("println".to_string()) }),
        vec![site("println", None)]
    );
    assert_eq!(calls_of(&Expr::Macro { last_segment: None }), vec![]);
}

#[test]
fn operators_pass_calls_on_in_source_order() {
    let e = Expr::Binary {
        left: Box::new(Expr::Unary { expr: Box::new(call("a")) }),
        right: Box::new(Expr::Try { expr: Box::new(Expr::Group { expr: Box::new(call("b")) }) }),
    };
    assert_eq!(calls_of(&e), vec![site("a", None), site("b", None)]);
}

#[test]
fn blocks_loops_and_async_blocks_add_no_label() {
    let e = Expr::Block {
        block: block(vec![
            Expr::Loop { body: block(vec![call("spin")]) },
            Expr::Async { block: block(vec![call("later")]) },
        ]),
    };
    assert_eq!(calls_of(&e), vec![site("spin", None), site("later", None)]);
}

#[test]
fn statements_that_are_no_expressions_are_passed_over() {
    let b = Block {
        text: String::new(),
        stmts: vec![
            Stmt::Other,
            Stmt::Expr { text: String::new(), expr: call("kept") },
            Stmt::Other,
        ],
    };
    let mut out = vec![site("before", None)];
    extract_calls_from_block(&b, &mut out);
    assert_eq!(out, vec![site("before", None), site("kept", None)]);
}

#[test]
fn an_if_labels_its_arms() {
    let e = Expr::If {
        cond_text: "ok ()".to_string(),
        cond: Box::new(call("ok")),
        then_branch: block(vec![call("yes"), call("also")]),
        else_branch: Some(Box::new(Expr::Block { block: block(vec![call("no")]) })),
    };
    assert_eq!(
        calls_of(&e),
        vec![
            site("ok", None),
            site("yes", Some("if (ok ())")),
            site("also", Some("if (ok ())")),
            site("no", Some("else")),
        ]
    );
}

#[test]
fn an_else_if_keeps_the_label_of_its_own_arm() {
    let inner = Expr::If {
        cond_text: "second ()".to_string(),
        cond: Box::new(call("second")),
        then_branch: block(vec![call("b")]),
        else_branch: None,
    };
    let e = Expr::If {
        cond_text: "first".to_string(),
        cond: Box::new(path("first")),
        then_branch: block(vec![call("a")]),
        else_branch: Some(Box::new(inner)),
    };
    assert_eq!(
        calls_of(&e),
        vec![
            site("a", Some("if (first)")),
            site("second", Some("else")),
            site("b", Some("if (second ())")),
        ]
    );
}

#[test]
fn a_match_labels_each_arm_with_its_pattern() {
    let e = Expr::Match {
        expr: Box::new(call("pick")),
        arms: vec![
            Arm { pat_text: "Some (x)".to_string(), body: call("found") },
            Arm { pat_text: "None".to_string(), body: Expr::Block { block: block(vec![call("missing")]) } },
            Arm { pat_text: "_".to_string(), body: Expr::Other },
        ],
    };
    assert_eq!(
        calls_of(&e),
        vec![
            site("pick", None),
            site("found", Some("match Some (x)")),
            site("missing", Some("match None")),
        ]
    );
}

#[test]
fn while_and_for_label_their_bodies() {
    let w = Expr::While {
        cond_text: "more ()".to_string(),
        cond: Box::new(call("more")),
        body: block(vec![call("step")]),
    };
    assert_eq!(calls_of(&w), vec![site("more", None), site("step", Some("while (more ())"))]);
    let f = Expr::ForLoop {
        expr_text: "items ()".to_string(),
        expr: Box::new(call("items")),
        body: block(vec![call("visit")]),
    };
    assert_eq!(calls_of(&f), vec![site("items", None), site("visit", Some("for items ()"))]);
}

#[test]
fn the_nearest_label_is_the_context() {
    let inner = Expr::While {
        cond_text: "c".to_string(),
        cond: Box::new(call("test")),
        body: block(vec![call("deep")]),
    };
    let e = Expr::ForLoop {
        expr_text: "xs".to_string(),
        expr: Box::new(path("xs")),
        body: block(vec![inner, call("shallow")]),
    };
    assert_eq!(
        calls_of(&e),
        vec![
            site("test", Some("for xs")),
            site("deep", Some("while (c)")),
            site("shallow", Some("for xs")),
        ]
    );
}

#[test]
fn a_while_in_an_if_labels_its_own_body() {
    let inner = Expr::While {
        cond_text: "b".to_string(),
        cond: Box::new(path("b")),
        body: block(vec![call("f")]),
    };
    let e = Expr::If {
        cond_text: "a".to_string(),
        cond: Box::new(path("a")),
        then_branch: block(vec![inner]),
        else_branch: None,
    };
    assert_eq!(calls_of(&e), vec![site("f", Some("while (b)"))]);
}

#[test]
fn a_match_in_a_loop_in_a_match_keeps_the_inner_pattern() {
    let inner = Expr::Match {
        expr: Box::new(call("next")),
        arms: vec![Arm { pat_text: "Some (x)".to_string(), body: call("take") }],
    };
    let e = Expr::Match {
        expr: Box::new(path("state")),
        arms: vec![Arm {
            pat_text: "Open".to_string(),
            body: Expr::Loop { body: block(vec![inner, call("tick")]) },
        }],
    };
    assert_eq!(
        calls_of(&e),
        vec![
            site("next", Some("match Open")),
            site("take", Some("match Some (x)")),
            site("tick", Some("match Open")),
        ]
    );
}

#[test]
fn a_copy_of_an_expression_holds_the_same_calls() {
    let e = Expr::If {
        cond_text: "ok ()".to_string(),
        cond: Box::new(call("ok")),
        then_branch: block(vec![Expr::Match {
            expr: Box::new(call("pick")),
            arms: vec![Arm { pat_text: "_".to_string(), body: call("found") }],
        }]),
        else_branch: Some(Box::new(Expr::Loop { body: block(vec![call("spin")]) })),
    };
    let copy = e.clone();
    assert_eq!(copy, e);
    assert_eq!(calls_of(&copy), calls_of(&e));
}
