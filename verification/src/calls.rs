//! The call sites of a function body, found by the shape of its expressions.

use crate::syntax::{Arm, Block, Expr, Stmt};
use vstd::prelude::*;
use vstd::string::*;

verus! {

/// One call: the bare name of what is called, and a label of the construct
/// around it where there is one.
#[derive(Debug, Clone, PartialEq, Eq)]
pub struct CallSite {
    pub name: String,
    pub context: Option<String>,
}

/// A call site as text.
pub struct CallSiteView {
    pub name: Seq<char>,
    pub context: Option<Seq<char>>,
}

impl View for CallSite {
    type V = CallSiteView;

    open spec fn view(&self) -> CallSiteView {
        CallSiteView {
            name: self.name@,
            context: match self.context {
                Some(c) => Some(c@),
                None => None,
            },
        }
    }
}

/// The call sites of a list as text.
pub open spec fn call_views(calls: Seq<CallSite>) -> Seq<CallSiteView> {
    calls.map_values(|c: CallSite| c@)
}

/// The call with `label` as its context, unless a construct nearer to it
/// has given it one already.
pub open spec fn labelled(call: CallSiteView, label: Seq<char>) -> CallSiteView {
    match call.context {
        Some(_) => call,
        None => CallSiteView { name: call.name, context: Some(label) },
    }
}

/// The same calls, each with `label` as its context where it has none yet.
pub open spec fn tagged(calls: Seq<CallSiteView>, label: Seq<char>) -> Seq<CallSiteView> {
    calls.map_values(|c: CallSiteView| labelled(c, label))
}

/// The label of the calls in the first arm of an `if`.
pub open spec fn if_label(cond_text: Seq<char>) -> Seq<char> {
    "if ("@ + cond_text + ")"@
}

/// The label of the calls in what follows `else`.
pub open spec fn else_label() -> Seq<char> {
    "else"@
}

/// The label of the calls in an arm of a `match`.
pub open spec fn match_label(pat_text: Seq<char>) -> Seq<char> {
    "match "@ + pat_text
}

/// The label of the calls in the body of a `while`.
pub open spec fn while_label(cond_text: Seq<char>) -> Seq<char> {
    "while ("@ + cond_text + ")"@
}

/// The label of the calls in the body of a `for`.
pub open spec fn for_label(expr_text: Seq<char>) -> Seq<char> {
    "for "@ + expr_text
}

/// The call that a called expression stands for: the last segment of a path,
/// or the method of a method call. Any other called expression gives none.
pub open spec fn callee_calls(func: Expr) -> Seq<CallSiteView> {
    match func {
        Expr::Path { last_segment: Some(name) } => seq![
            CallSiteView { name: name@, context: None },
        ],
        Expr::MethodCall { method } => seq![CallSiteView { name: method@, context: None }],
        _ => Seq::empty(),
    }
}

/// The call sites of an expression, in source order.
///
/// A call, a method call and a macro invocation each give one call site.
/// Operators, groups, blocks, `loop`, `async` and `?` pass on the calls of
/// their parts. An `if`, a `match`, a `while` and a `for` pass on the calls
/// of what they test, and label those calls of their arms and bodies that a
/// nearer construct has not labelled. No other expression gives a call site.
pub open spec fn expr_calls(e: Expr) -> Seq<CallSiteView>
    decreases e,
{
    match e {
        Expr::Call { func } => callee_calls(*func),
        Expr::MethodCall { method } => seq![CallSiteView { name: method@, context: None }],
        Expr::Path { .. } => Seq::empty(),
        Expr::Unary { expr } => expr_calls(*expr),
        Expr::Binary { left, right } => expr_calls(*left) + expr_calls(*right),
        Expr::Group { expr } => expr_calls(*expr),
        Expr::Block { block } => stmts_calls(block.stmts@),
        Expr::If { cond_text, cond, then_branch, else_branch } => expr_calls(*cond) + tagged(
            stmts_calls(then_branch.stmts@),
            if_label(cond_text@),
        ) + (match else_branch {
            Some(other) => tagged(expr_calls(*other), else_label()),
            None => Seq::empty(),
        }),
        Expr::Match { expr, arms } => expr_calls(*expr) + arms_calls(arms@),
        Expr::Loop { body } => stmts_calls(body.stmts@),
        Expr::While { cond_text, cond, body } => expr_calls(*cond) + tagged(
            stmts_calls(body.stmts@),
            while_label(cond_text@),
        ),
        Expr::ForLoop { expr_text, expr, body } => expr_calls(*expr) + tagged(
            stmts_calls(body.stmts@),
            for_label(expr_text@),
        ),
        Expr::Async { block } => stmts_calls(block.stmts@),
        Expr::Try { expr } => expr_calls(*expr),
        Expr::Macro { last_segment: Some(name) } => seq![
            CallSiteView { name: name@, context: None },
        ],
        Expr::Macro { last_segment: None } => Seq::empty(),
        Expr::Other => Seq::empty(),
    }
}

/// The call sites of the statements, one statement after another.
pub open spec fn stmts_calls(stmts: Seq<Stmt>) -> Seq<CallSiteView>
    decreases stmts,
{
    if stmts.len() == 0 {
        Seq::empty()
    } else {
        stmts_calls(stmts.drop_last()) + (match stmts.last() {
            Stmt::Expr { expr, .. } => expr_calls(expr),
            Stmt::Other => Seq::empty(),
        })
    }
}

/// The call sites of the arms, one arm after another, each arm's calls
/// labelled with its pattern.
pub open spec fn arms_calls(arms: Seq<Arm>) -> Seq<CallSiteView>
    decreases arms,
{
    if arms.len() == 0 {
        Seq::empty()
    } else {
        arms_calls(arms.drop_last()) + tagged(
            expr_calls(arms.last().body),
            match_label(arms.last().pat_text@),
        )
    }
}

/// The call sites of a block.
pub open spec fn block_calls(b: Block) -> Seq<CallSiteView> {
    stmts_calls(b.stmts@)
}

/// The same paths, each with `label` put before it.
pub open spec fn nested(paths: Seq<Seq<Seq<char>>>, label: Seq<char>) -> Seq<Seq<Seq<char>>> {
    paths.map_values(|p: Seq<Seq<char>>| seq![label] + p)
}

/// For each call site of an expression, in source order, the labels of the
/// labelling constructs around it, the outermost first and the nearest last.
pub open spec fn expr_paths(e: Expr) -> Seq<Seq<Seq<char>>>
    decreases e,
{
    match e {
        Expr::Call { func } => callee_calls(*func).map_values(|c: CallSiteView| Seq::empty()),
        Expr::MethodCall { .. } => seq![Seq::empty()],
        Expr::Path { .. } => Seq::empty(),
        Expr::Unary { expr } => expr_paths(*expr),
        Expr::Binary { left, right } => expr_paths(*left) + expr_paths(*right),
        Expr::Group { expr } => expr_paths(*expr),
        Expr::Block { block } => stmts_paths(block.stmts@),
        Expr::If { cond_text, cond, then_branch, else_branch } => expr_paths(*cond) + nested(
            stmts_paths(then_branch.stmts@),
            if_label(cond_text@),
        ) + (match else_branch {
            Some(other) => nested(expr_paths(*other), else_label()),
            None => Seq::empty(),
        }),
        Expr::Match { expr, arms } => expr_paths(*expr) + arms_paths(arms@),
        Expr::Loop { body } => stmts_paths(body.stmts@),
        Expr::While { cond_text, cond, body } => expr_paths(*cond) + nested(
            stmts_paths(body.stmts@),
            while_label(cond_text@),
        ),
        Expr::ForLoop { expr_text, expr, body } => expr_paths(*expr) + nested(
            stmts_paths(body.stmts@),
            for_label(expr_text@),
        ),
        Expr::Async { block } => stmts_paths(block.stmts@),
        Expr::Try { expr } => expr_paths(*expr),
        Expr::Macro { last_segment: Some(_) } => seq![Seq::empty()],
        Expr::Macro { last_segment: None } => Seq::empty(),
        Expr::Other => Seq::empty(),
    }
}

/// The label paths of the call sites of the statements.
pub open spec fn stmts_paths(stmts: Seq<Stmt>) -> Seq<Seq<Seq<char>>>
    decreases stmts,
{
    if stmts.len() == 0 {
        Seq::empty()
    } else {
        stmts_paths(stmts.drop_last()) + (match stmts.last() {
            Stmt::Expr { expr, .. } => expr_paths(expr),
            Stmt::Other => Seq::empty(),
        })
    }
}

/// The label paths of the call sites of the arms.
pub open spec fn arms_paths(arms: Seq<Arm>) -> Seq<Seq<Seq<char>>>
    decreases arms,
{
    if arms.len() == 0 {
        Seq::empty()
    } else {
        arms_paths(arms.drop_last()) + nested(
            expr_paths(arms.last().body),
            match_label(arms.last().pat_text@),
        )
    }
}

/// The last label of a path, if it has one: that of the nearest construct.
pub open spec fn innermost(path: Seq<Seq<char>>) -> Option<Seq<char>> {
    if path.len() == 0 {
        None
    } else {
        Some(path.last())
    }
}

/// Each call has the innermost label of its path as its context, and none
/// where the path is empty.
pub open spec fn contexts_follow(calls: Seq<CallSiteView>, paths: Seq<Seq<Seq<char>>>) -> bool {
    &&& calls.len() == paths.len()
    &&& forall|i: int| 0 <= i < calls.len() ==> (#[trigger] calls[i]).context == innermost(paths[i])
}

proof fn lemma_follow_tagged(calls: Seq<CallSiteView>, paths: Seq<Seq<Seq<char>>>, label: Seq<char>)
    requires
        contexts_follow(calls, paths),
    ensures
        contexts_follow(tagged(calls, label), nested(paths, label)),
{
    assert forall|i: int| 0 <= i < calls.len() implies (#[trigger] tagged(
        calls,
        label,
    )[i]).context == innermost(nested(paths, label)[i]) by {
        let path = seq![label] + paths[i];
        assert(nested(paths, label)[i] == path);
        assert(calls[i].context == innermost(paths[i]));
        if paths[i].len() > 0 {
            assert(path.last() == paths[i].last());
        } else {
            assert(path.last() == label);
        }
    }
}

/// A call site has a context exactly when a labelling construct stands
/// around it, and the context is the label of the innermost such construct:
/// the one nearest to the call.
pub proof fn lemma_context_is_nearest_label(e: Expr)
    ensures
        contexts_follow(expr_calls(e), expr_paths(e)),
    decreases e,
{
    match e {
        Expr::Call { func } => {},
        Expr::MethodCall { method } => {},
        Expr::Path { .. } => {},
        Expr::Unary { expr } => lemma_context_is_nearest_label(*expr),
        Expr::Binary { left, right } => {
            lemma_context_is_nearest_label(*left);
            lemma_context_is_nearest_label(*right);
        },
        Expr::Group { expr } => lemma_context_is_nearest_label(*expr),
        Expr::Block { block } => lemma_stmts_contexts(block.stmts@),
        Expr::If { cond_text, cond, then_branch, else_branch } => {
            lemma_context_is_nearest_label(*cond);
            lemma_stmts_contexts(then_branch.stmts@);
            lemma_follow_tagged(
                stmts_calls(then_branch.stmts@),
                stmts_paths(then_branch.stmts@),
                if_label(cond_text@),
            );
            match else_branch {
                Some(other) => {
                    lemma_context_is_nearest_label(*other);
                    lemma_follow_tagged(expr_calls(*other), expr_paths(*other), else_label());
                },
                None => {},
            }
        },
        Expr::Match { expr, arms } => {
            lemma_context_is_nearest_label(*expr);
            lemma_arms_contexts(arms@);
        },
        Expr::Loop { body } => lemma_stmts_contexts(body.stmts@),
        Expr::While { cond_text, cond, body } => {
            lemma_context_is_nearest_label(*cond);
            lemma_stmts_contexts(body.stmts@);
            lemma_follow_tagged(
                stmts_calls(body.stmts@),
                stmts_paths(body.stmts@),
                while_label(cond_text@),
            );
        },
        Expr::ForLoop { expr_text, expr, body } => {
            lemma_context_is_nearest_label(*expr);
            lemma_stmts_contexts(body.stmts@);
            lemma_follow_tagged(
                stmts_calls(body.stmts@),
                stmts_paths(body.stmts@),
                for_label(expr_text@),
            );
        },
        Expr::Async { block } => lemma_stmts_contexts(block.stmts@),
        Expr::Try { expr } => lemma_context_is_nearest_label(*expr),
        Expr::Macro { .. } => {},
        Expr::Other => {},
    }
}

/// The same holds of the call sites of a list of statements.
pub proof fn lemma_stmts_contexts(stmts: Seq<Stmt>)
    ensures
        contexts_follow(stmts_calls(stmts), stmts_paths(stmts)),
    decreases stmts,
{
    if stmts.len() > 0 {
        lemma_stmts_contexts(stmts.drop_last());
        match stmts.last() {
            Stmt::Expr { expr, .. } => lemma_context_is_nearest_label(expr),
            Stmt::Other => {},
        }
    }
}

/// The same holds of the call sites of the arms of a `match`.
pub proof fn lemma_arms_contexts(arms: Seq<Arm>)
    ensures
        contexts_follow(arms_calls(arms), arms_paths(arms)),
    decreases arms,
{
    if arms.len() > 0 {
        lemma_arms_contexts(arms.drop_last());
        lemma_context_is_nearest_label(arms.last().body);
        lemma_follow_tagged(
            expr_calls(arms.last().body),
            expr_paths(arms.last().body),
            match_label(arms.last().pat_text@),
        );
    }
}

/// The label paths of the call sites of a block.
pub open spec fn block_paths(b: Block) -> Seq<Seq<Seq<char>>> {
    stmts_paths(b.stmts@)
}

/// The same holds of the call sites of a block, and so of those of a
/// function's body.
pub proof fn lemma_block_contexts(b: Block)
    ensures
        contexts_follow(block_calls(b), block_paths(b)),
{
    lemma_stmts_contexts(b.stmts@);
}

fn push_call(out: &mut Vec<CallSite>, name: &String)
    ensures
        call_views(final(out)@) == call_views(old(out)@) + seq![
            CallSiteView { name: name@, context: None },
        ],
{
    out.push(CallSite { name: name.clone(), context: None });
}

fn push_tagged(out: &mut Vec<CallSite>, calls: &Vec<CallSite>, label: &String)
    ensures
        call_views(final(out)@) == call_views(old(out)@) + tagged(call_views(calls@), label@),
{
    let mut i: usize = 0;
    while i < calls.len()
        invariant
            i <= calls.len(),
            call_views(out@) == call_views(old(out)@) + tagged(
                call_views(calls@.take(i as int)),
                label@,
            ),
        decreases calls.len() - i,
    {
        let ghost before = out@;
        let context = match &calls[i].context {
            Some(nearer) => Some(nearer.clone()),
            None => Some(label.clone()),
        };
        out.push(CallSite { name: calls[i].name.clone(), context });
        proof {
            assert(calls@.take(i + 1) == calls@.take(i as int).push(calls@[i as int]));
            assert(call_views(out@) == call_views(before).push(out@.last()@));
        }
        i = i + 1;
    }
    proof {
        assert(calls@.take(i as int) == calls@);
    }
}

fn label_with(head: &str, text: &String) -> (r: String)
    ensures
        r@ == head@ + text@,
{
    let mut r = String::from_str(head);
    r.append(text.as_str());
    r
}

fn label_around(head: &str, text: &String, tail: &str) -> (r: String)
    ensures
        r@ == head@ + text@ + tail@,
{
    let mut r = label_with(head, text);
    r.append(tail);
    r
}

/// Appends the call that a called expression stands for.
pub fn extract_path_ident(expr: &Expr, out: &mut Vec<CallSite>)
    ensures
        call_views(final(out)@) == call_views(old(out)@) + callee_calls(*expr),
{
    match expr {
        Expr::Path { last_segment: Some(name) } => push_call(out, name),
        Expr::MethodCall { method } => push_call(out, method),
        _ => {},
    }
}

/// Appends the call sites of the statements of a block, in source order.
pub fn extract_calls_from_block(block: &Block, out: &mut Vec<CallSite>)
    ensures
        call_views(final(out)@) == call_views(old(out)@) + block_calls(*block),
    decreases block,
{
    let mut i: usize = 0;
    while i < block.stmts.len()
        invariant
            i <= block.stmts.len(),
            decreases_to!(block => block.stmts),
            call_views(out@) == call_views(old(out)@) + stmts_calls(block.stmts@.take(i as int)),
        decreases block.stmts.len() - i,
    {
        proof {
            vstd::std_specs::vec::axiom_vec_index_decreases(block.stmts, i as int);
            assert(block.stmts@.take(i + 1).drop_last() == block.stmts@.take(i as int));
        }
        match &block.stmts[i] {
            Stmt::Expr { expr, .. } => extract_calls_from_expr(expr, out),
            Stmt::Other => {},
        }
        i = i + 1;
    }
    proof {
        assert(block.stmts@.take(i as int) == block.stmts@);
    }
}

/// Appends the call sites of an expression, in source order.
pub fn extract_calls_from_expr(expr: &Expr, out: &mut Vec<CallSite>)
    ensures
        call_views(final(out)@) == call_views(old(out)@) + expr_calls(*expr),
    decreases expr,
{
    match expr {
        Expr::Call { func } => extract_path_ident(func, out),
        Expr::MethodCall { method } => push_call(out, method),
        Expr::Path { .. } => {},
        Expr::Unary { expr } => extract_calls_from_expr(expr, out),
        Expr::Binary { left, right } => {
            extract_calls_from_expr(left, out);
            extract_calls_from_expr(right, out);
        },
        Expr::Group { expr } => extract_calls_from_expr(expr, out),
        Expr::Block { block } => extract_calls_from_block(block, out),
        Expr::If { cond_text, cond, then_branch, else_branch } => {
            extract_calls_from_expr(cond, out);
            let mut inner: Vec<CallSite> = Vec::new();
            extract_calls_from_block(then_branch, &mut inner);
            let label = label_around("if (", cond_text, ")");
            push_tagged(out, &inner, &label);
            match else_branch {
                Some(other) => {
                    let mut rest: Vec<CallSite> = Vec::new();
                    extract_calls_from_expr(other, &mut rest);
                    let label = String::from_str("else");
                    push_tagged(out, &rest, &label);
                },
                None => {},
            }
        },
        Expr::Match { expr: scrutinee, arms } => {
            extract_calls_from_expr(scrutinee, out);
            let ghost head = call_views(out@);
            let mut i: usize = 0;
            while i < arms.len()
                invariant
                    i <= arms.len(),
                    decreases_to!(expr => arms),
                    call_views(out@) == head + arms_calls(arms@.take(i as int)),
                decreases arms.len() - i,
            {
                proof {
                    vstd::std_specs::vec::axiom_vec_index_decreases(*arms, i as int);
                    assert(decreases_to!(arms@[i as int] => arms@[i as int].body));
                    assert(arms@.take(i + 1).drop_last() == arms@.take(i as int));
                }
                let mut inner: Vec<CallSite> = Vec::new();
                extract_calls_from_expr(&arms[i].body, &mut inner);
                let label = label_with("match ", &arms[i].pat_text);
                push_tagged(out, &inner, &label);
                i = i + 1;
            }
            proof {
                assert(arms@.take(i as int) == arms@);
            }
        },
        Expr::Loop { body } => extract_calls_from_block(body, out),
        Expr::While { cond_text, cond, body } => {
            extract_calls_from_expr(cond, out);
            let mut inner: Vec<CallSite> = Vec::new();
            extract_calls_from_block(body, &mut inner);
            let label = label_around("while (", cond_text, ")");
            push_tagged(out, &inner, &label);
        },
        Expr::ForLoop { expr_text, expr, body } => {
            extract_calls_from_expr(expr, out);
            let mut inner: Vec<CallSite> = Vec::new();
            extract_calls_from_block(body, &mut inner);
            let label = label_with("for ", expr_text);
            push_tagged(out, &inner, &label);
        },
        Expr::Async { block } => extract_calls_from_block(block, out),
        Expr::Try { expr } => extract_calls_from_expr(expr, out),
        Expr::Macro { last_segment: Some(name) } => push_call(out, name),
        Expr::Macro { last_segment: None } => {},
        Expr::Other => {},
    }
}

} // verus!
