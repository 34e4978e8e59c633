use async_stream::scrub::{ExprKind, ExprTree, Rewrite, Scrub};

#[test]
fn yields_become_yield_items_alike_in_fallible_streams() {
    let mut s = Scrub::new(false);
    assert!(!s.has_yielded());
    assert_eq!(s.visit_expr(ExprKind::Yield { has_value: false }), Rewrite::YieldItem { unit: true });
    assert!(s.has_yielded());
    let mut t = Scrub::new(true);
    assert!(t.is_try());
    assert_eq!(t.visit_expr(ExprKind::Yield { has_value: true }), Rewrite::YieldItem { unit: false });
}

#[test]
fn closures_and_async_blocks_are_left_alone() {
    let mut s = Scrub::new(false);
    assert_eq!(s.visit_expr(ExprKind::Closure), Rewrite::Skip);
    assert_eq!(s.visit_expr(ExprKind::Async), Rewrite::Skip);
    assert!(!s.has_yielded());
}

#[test]
fn for_loops_by_their_attributes() {
    let mut s = Scrub::new(false);
    let plain = ExprKind::ForLoop { attrs: 0, first_is_await: false, first_has_tokens: false };
    assert_eq!(s.visit_expr(plain), Rewrite::VisitLoop);
    let two = ExprKind::ForLoop { attrs: 2, first_is_await: true, first_has_tokens: false };
    assert_eq!(s.visit_expr(two), Rewrite::VisitLoop);
    let other = ExprKind::ForLoop { attrs: 1, first_is_await: false, first_has_tokens: false };
    assert_eq!(s.visit_expr(other), Rewrite::VisitLoop);
    let awaiting = ExprKind::ForLoop { attrs: 1, first_is_await: true, first_has_tokens: false };
    assert_eq!(s.visit_expr(awaiting), Rewrite::ForAwait);
    let malformed = ExprKind::ForLoop { attrs: 1, first_is_await: true, first_has_tokens: true };
    assert_eq!(s.visit_expr(malformed), Rewrite::ForAwaitError);
}

#[test]
fn has_yielded_iff_some_visited_expression_yields() {
    let mut s = Scrub::new(false);
    for kind in [ExprKind::Other, ExprKind::Try, ExprKind::Closure] {
        s.visit_expr(kind);
    }
    assert_eq!(Scrub::new(true).visit_expr(ExprKind::Try), Rewrite::ReturnError);
    assert!(!s.has_yielded());
    s.visit_expr(ExprKind::Yield { has_value: true });
    s.visit_expr(ExprKind::Other);
    assert!(s.has_yielded());
}

fn leaf(kind: ExprKind) -> ExprTree {
    ExprTree { kind, subexprs: Vec::new() }
}

fn node(kind: ExprKind, subexprs: Vec<ExprTree>) -> ExprTree {
    ExprTree { kind, subexprs }
}

#[test]
fn plan_rewrites_the_bodys_own_yields_and_tries() {
    // yield 1; let f = || { yield 2 }; x?; async { y? }; yield (z?);
    let body = vec![
        node(ExprKind::Yield { has_value: true }, vec![leaf(ExprKind::Other)]),
        node(ExprKind::Closure, vec![leaf(ExprKind::Yield { has_value: true })]),
        node(ExprKind::Try, vec![leaf(ExprKind::Other)]),
        node(ExprKind::Async, vec![node(ExprKind::Try, vec![leaf(ExprKind::Other)])]),
        node(ExprKind::Yield { has_value: true }, vec![node(ExprKind::Try, vec![leaf(ExprKind::Other)])]),
    ];
    let mut s = Scrub::new(true);
    let plan = s.plan(&body);
    assert_eq!(
        plan,
        vec![
            Rewrite::YieldItem { unit: false },
            Rewrite::Skip,
            Rewrite::ReturnError,
            Rewrite::Visit,
            Rewrite::Skip,
            Rewrite::YieldItem { unit: false },
        ]
    );
    assert!(s.has_yielded());
    assert!(s.is_try());
}

#[test]
fn plan_walks_into_loops_and_the_operands_of_tries() {
    // for x in xs { yield; (a?)? }
    let body = vec![node(
        ExprKind::ForLoop { attrs: 0, first_is_await: false, first_has_tokens: false },
        vec![
            leaf(ExprKind::Other),
            leaf(ExprKind::Yield { has_value: false }),
            node(ExprKind::Try, vec![node(ExprKind::Try, vec![leaf(ExprKind::Other)])]),
        ],
    )];
    let mut s = Scrub::new(false);
    assert_eq!(
        s.plan(&body),
        vec![
            Rewrite::VisitLoop,
            Rewrite::Visit,
            Rewrite::YieldItem { unit: true },
            Rewrite::ReturnError,
            Rewrite::ReturnError,
            Rewrite::Visit,
        ]
    );
    assert!(s.has_yielded());
}

#[test]
fn yields_inside_closures_and_async_blocks_do_not_count() {
    let body = vec![
        node(ExprKind::Closure, vec![leaf(ExprKind::Yield { has_value: false })]),
        node(ExprKind::Async, vec![leaf(ExprKind::Yield { has_value: true })]),
        leaf(ExprKind::Other),
    ];
    let mut s = Scrub::new(false);
    assert_eq!(s.plan(&body), vec![Rewrite::Skip, Rewrite::Skip, Rewrite::Visit]);
    assert!(!s.has_yielded());
}
