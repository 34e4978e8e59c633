//! The rewrite of the body of a `stream!` or `try_stream!` invocation: which expressions
//! become yields to the stream, which are left alone, and whether the body yields at all.
use vstd::prelude::*;

verus! {

/// What the rewrite looks at in an expression of the body.
#[derive(Clone, Copy)]
pub enum ExprKind {
    /// `yield` or `yield value`.
    Yield { has_value: bool },
    /// `operand?`.
    Try,
    /// A closure.
    Closure,
    /// An `async` block.
    Async,
    /// A `for` loop with `attrs` attributes; when it has exactly one, whether that one is
    /// `#[await]` and whether it carries tokens after its path.
    ForLoop { attrs: usize, first_is_await: bool, first_has_tokens: bool },
    /// Any other expression.
    Other,
}

/// What becomes of an expression of the body.
#[derive(Clone, Copy, PartialEq, Eq, Debug)]
pub enum Rewrite {
    /// The `yield` becomes `__yield_tx.yield_item(value).await`, with `()` as the value when
    /// it has none.
    YieldItem { unit: bool },
    /// The operand is rewritten first; then `operand?` becomes a match that gives the value of
    /// `Ok`, or returns the converted error of `Err` from the body.
    ReturnError,
    /// Left as it is, its inside too: closures and `async` blocks are not the stream's body.
    Skip,
    /// The loop is rewritten inside and otherwise kept.
    VisitLoop,
    /// The loop is rewritten inside, then becomes a loop over the items of the stream it
    /// iterates, each taken by awaiting the stream's next item.
    ForAwait,
    /// The loop is rewritten inside, then replaced by the error that its `#[await]` attribute
    /// carries tokens.
    ForAwaitError,
    /// The expression's parts are rewritten.
    Visit,
}

/// The rewrite decision for an expression of kind `kind`; a fallible stream makes the same
/// decisions, since its generator wraps each item in `Ok` itself.
pub open spec fn rewrite_spec(kind: ExprKind) -> Rewrite {
    match kind {
        ExprKind::Yield { has_value } => Rewrite::YieldItem { unit: !has_value },
        ExprKind::Try => Rewrite::ReturnError,
        ExprKind::Closure => Rewrite::Skip,
        ExprKind::Async => Rewrite::Skip,
        ExprKind::ForLoop { attrs, first_is_await, first_has_tokens } => if attrs != 1
            || !first_is_await {
            Rewrite::VisitLoop
        } else if first_has_tokens {
            Rewrite::ForAwaitError
        } else {
            Rewrite::ForAwait
        },
        ExprKind::Other => Rewrite::Visit,
    }
}

/// An expression of the body as the rewrite walks it: its kind, and the expressions directly
/// inside it, in the order a walk meets them. Items declared inside it are never walked and are
/// not listed.
pub struct ExprTree {
    pub kind: ExprKind,
    pub subexprs: Vec<ExprTree>,
}

/// Whether the walk goes on into the expressions inside one with this decision: it does not
/// into closures, `async` blocks and the value of a `yield`.
pub open spec fn enters(r: Rewrite) -> bool {
    !(r is YieldItem) && !(r is Skip)
}

/// The kinds of the expressions that a walk of `t` meets, in the order met: `t` first, then,
/// where the walk enters it, what walks of the expressions inside it meet.
pub open spec fn walk(t: ExprTree) -> Seq<ExprKind>
    decreases t,
{
    seq![t.kind] + if enters(rewrite_spec(t.kind)) {
        walk_all(t.subexprs@)
    } else {
        Seq::empty()
    }
}

/// The kinds of the expressions that walks of `ts`, one after the other, meet.
pub open spec fn walk_all(ts: Seq<ExprTree>) -> Seq<ExprKind>
    decreases ts,
{
    if ts.len() == 0 {
        Seq::empty()
    } else {
        walk(ts[0]) + walk_all(ts.subrange(1, ts.len() as int))
    }
}

/// Whether `t` holds a `yield` of its own: one outside closures, `async` blocks and the values
/// of other `yield`s.
pub open spec fn has_own_yield(t: ExprTree) -> bool
    decreases t,
{
    ||| t.kind is Yield
    ||| !(t.kind is Closure) && !(t.kind is Async) && any_own_yield(t.subexprs@)
}

/// Whether one of `ts` holds a `yield` of its own.
pub open spec fn any_own_yield(ts: Seq<ExprTree>) -> bool
    decreases ts,
{
    ts.len() > 0 && (has_own_yield(ts[0]) || any_own_yield(ts.subrange(1, ts.len() as int)))
}

/// Whether `t` holds a `?` of its own: one outside closures, `async` blocks and the values of
/// `yield`s.
pub open spec fn has_own_try(t: ExprTree) -> bool
    decreases t,
{
    ||| t.kind is Try
    ||| !(t.kind is Yield) && !(t.kind is Closure) && !(t.kind is Async) && any_own_try(
        t.subexprs@,
    )
}

/// Whether one of `ts` holds a `?` of its own.
pub open spec fn any_own_try(ts: Seq<ExprTree>) -> bool
    decreases ts,
{
    ts.len() > 0 && (has_own_try(ts[0]) || any_own_try(ts.subrange(1, ts.len() as int)))
}

/// Whether one of `kinds` is a `yield`.
pub open spec fn meets_yield(kinds: Seq<ExprKind>) -> bool {
    exists|i: int| 0 <= i < kinds.len() && #[trigger] kinds[i] is Yield
}

/// Whether one of `kinds` is a `?`.
pub open spec fn meets_try(kinds: Seq<ExprKind>) -> bool {
    exists|i: int| 0 <= i < kinds.len() && #[trigger] kinds[i] is Try
}

/// The decisions for the expressions of kinds `kinds`, one by one.
pub open spec fn decisions(kinds: Seq<ExprKind>) -> Seq<Rewrite> {
    kinds.map_values(|k: ExprKind| rewrite_spec(k))
}

/// A `for` loop is replaced only when its one attribute is `#[await]`: any other loop is kept
/// and only rewritten inside, whatever tokens its attributes carry. A loop marked `#[await]`
/// becomes a loop over a stream when the attribute carries no tokens, and the error otherwise.
pub proof fn lemma_only_await_loops_are_replaced(
    attrs: usize,
    first_is_await: bool,
    first_has_tokens: bool,
)
    ensures
        (attrs != 1 || !first_is_await) ==> rewrite_spec(
            ExprKind::ForLoop { attrs, first_is_await, first_has_tokens },
        ) == Rewrite::VisitLoop,
        (attrs == 1 && first_is_await) ==> (rewrite_spec(
            ExprKind::ForLoop { attrs, first_is_await, first_has_tokens },
        ) == if first_has_tokens {
            Rewrite::ForAwaitError
        } else {
            Rewrite::ForAwait
        }),
        rewrite_spec(ExprKind::ForLoop { attrs, first_is_await, first_has_tokens })
            != Rewrite::VisitLoop ==> attrs == 1 && first_is_await,
        !first_is_await ==> rewrite_spec(
            ExprKind::ForLoop { attrs, first_is_await, first_has_tokens: true },
        ) == rewrite_spec(ExprKind::ForLoop { attrs, first_is_await, first_has_tokens: false }),
{
}

/// The state of the rewrite of one body.
pub struct Scrub {
    /// Whether the stream is fallible.
    is_try: bool,
    /// Whether the body has yielded.
    has_yielded: bool,
}

/// The view of a rewrite: whether it is fallible, and whether it met a `yield`.
pub struct ScrubView {
    pub is_try: bool,
    pub has_yielded: bool,
}

impl View for Scrub {
    type V = ScrubView;

    closed spec fn view(&self) -> ScrubView {
        ScrubView { is_try: self.is_try, has_yielded: self.has_yielded }
    }
}

/// The state after visiting the expressions of kinds `kinds`, one after the other.
pub open spec fn visit_all(s: ScrubView, kinds: Seq<ExprKind>) -> ScrubView
    decreases kinds.len(),
{
    if kinds.len() == 0 {
        s
    } else {
        visit_all(
            ScrubView { is_try: s.is_try, has_yielded: s.has_yielded || kinds[0] is Yield },
            kinds.drop_first(),
        )
    }
}

impl Scrub {
    /// The rewrite of a body that has not been visited yet.
    pub fn new(is_try: bool) -> (r: Self)
        ensures
            r@ == (ScrubView { is_try, has_yielded: false }),
    {
        Scrub { is_try, has_yielded: false }
    }

    /// Decides what becomes of an expression of kind `kind`, and records a `yield`.
    pub fn visit_expr(&mut self, kind: ExprKind) -> (r: Rewrite)
        ensures
            r == rewrite_spec(kind),
            final(self)@ == (ScrubView {
                is_try: old(self)@.is_try,
                has_yielded: old(self)@.has_yielded || kind is Yield,
            }),
    {
        match kind {
            ExprKind::Yield { has_value } => {
                self.has_yielded = true;
                Rewrite::YieldItem { unit: !has_value }
            },
            ExprKind::Try => Rewrite::ReturnError,
            ExprKind::Closure | ExprKind::Async => Rewrite::Skip,
            ExprKind::ForLoop { attrs, first_is_await, first_has_tokens } => {
                if attrs != 1 || !first_is_await {
                    Rewrite::VisitLoop
                } else if first_has_tokens {
                    Rewrite::ForAwaitError
                } else {
                    Rewrite::ForAwait
                }
            },
            ExprKind::Other => Rewrite::Visit,
        }
    }

    /// Decides what becomes of each expression that walks of `trees`, the expressions of the
    /// statements of a body, meet, in the order met; the walks enter neither closures nor
    /// `async` blocks nor the values of `yield`s. So every `yield` and every `?` of the body's
    /// own is rewritten, and no other; and the body has yielded once some tree holds a `yield`
    /// of its own.
    pub fn plan(&mut self, trees: &Vec<ExprTree>) -> (r: Vec<Rewrite>)
        ensures
            r@ == decisions(walk_all(trees@)),
            final(self)@ == visit_all(old(self)@, walk_all(trees@)),
            final(self)@.is_try == old(self)@.is_try,
            final(self)@.has_yielded == (old(self)@.has_yielded || any_own_yield(trees@)),
    {
        proof {
            assert(trees@.subrange(0, trees@.len() as int) =~= trees@);
        }
        let r = self.plan_from(trees, 0);
        proof {
            lemma_has_yielded_iff_some_yield(old(self)@, walk_all(trees@));
            lemma_walk_all_meets_own_yields(trees@);
        }
        r
    }

    /// The decisions for the walks of `trees` from the one at `start` on.
    fn plan_from(&mut self, trees: &Vec<ExprTree>, start: usize) -> (r: Vec<Rewrite>)
        requires
            start <= trees@.len(),
        ensures
            r@ == decisions(walk_all(trees@.subrange(start as int, trees@.len() as int))),
            final(self)@ == visit_all(
                old(self)@,
                walk_all(trees@.subrange(start as int, trees@.len() as int)),
            ),
        decreases trees@, trees@.len() - start,
    {
        let ghost n = trees@.len() as int;
        if start == trees.len() {
            proof {
                assert(trees@.subrange(start as int, n) =~= Seq::<ExprTree>::empty());
                assert(decisions(Seq::<ExprKind>::empty()) =~= Seq::<Rewrite>::empty());
            }
            return Vec::new();
        }
        let ghost s0 = self@;
        let tree = &trees[start];
        let decision = self.visit_expr(tree.kind);
        let enter = match decision {
            Rewrite::YieldItem { .. } | Rewrite::Skip => false,
            _ => true,
        };
        let ghost s1 = self@;
        let mut out: Vec<Rewrite> = Vec::new();
        out.push(decision);
        let ghost inner_walk = if enter {
            walk_all(tree.subexprs@)
        } else {
            Seq::<ExprKind>::empty()
        };
        if enter {
            proof {
                assert(decreases_to!(trees@ => trees@[start as int]));
                assert(tree.subexprs@.subrange(0, tree.subexprs@.len() as int) =~= tree.subexprs@);
            }
            let mut inner = self.plan_from(&tree.subexprs, 0);
            out.append(&mut inner);
        }
        let ghost s2 = self@;
        let mut rest = self.plan_from(trees, start + 1);
        out.append(&mut rest);
        proof {
            let whole = trees@.subrange(start as int, n);
            let tail = trees@.subrange(start + 1, n);
            assert(whole[0] == *tree);
            assert(whole.subrange(1, whole.len() as int) =~= tail);
            assert(walk(*tree) == seq![tree.kind] + inner_walk);
            assert(walk_all(whole) == walk(*tree) + walk_all(tail));
            assert(decisions(walk_all(whole)) =~= seq![rewrite_spec(tree.kind)] + decisions(
                inner_walk,
            ) + decisions(walk_all(tail)));
            lemma_visit_all_concat(s0, seq![tree.kind], inner_walk);
            lemma_visit_all_concat(s0, seq![tree.kind] + inner_walk, walk_all(tail));
            assert(visit_all(s0, seq![tree.kind]) == s1) by {
                assert(seq![tree.kind].drop_first() =~= Seq::<ExprKind>::empty());
                assert(visit_all(s1, Seq::<ExprKind>::empty()) == s1);
            }
            if !enter {
                assert(inner_walk + Seq::<ExprKind>::empty() =~= inner_walk);
                assert(seq![tree.kind] + inner_walk =~= seq![tree.kind]);
            }
        }
        out
    }

    /// Whether the body has yielded; a body that has not gets a yield that never runs, so that
    /// the type of the items can be inferred.
    pub fn has_yielded(&self) -> (r: bool)
        ensures
            r == self@.has_yielded,
    {
        self.has_yielded
    }

    /// Whether the stream is fallible.
    pub fn is_try(&self) -> (r: bool)
        ensures
            r == self@.is_try,
    {
        self.is_try
    }
}

/// After the rewrite of a body, `has_yielded` holds exactly when one of the visited
/// expressions was a `yield`, and the rewrite stays fallible or not as it started.
pub proof fn lemma_has_yielded_iff_some_yield(s: ScrubView, kinds: Seq<ExprKind>)
    ensures
        visit_all(s, kinds).is_try == s.is_try,
        visit_all(s, kinds).has_yielded == (s.has_yielded || exists|i: int|
            0 <= i < kinds.len() && #[trigger] kinds[i] is Yield),
    decreases kinds.len(),
{
    if kinds.len() > 0 {
        let next = ScrubView { is_try: s.is_try, has_yielded: s.has_yielded || kinds[0] is Yield };
        let tail = kinds.drop_first();
        lemma_has_yielded_iff_some_yield(next, tail);
        if exists|i: int| 0 <= i < kinds.len() && #[trigger] kinds[i] is Yield {
            let i = choose|i: int| 0 <= i < kinds.len() && #[trigger] kinds[i] is Yield;
            if i > 0 {
                assert(tail[i - 1] is Yield);
            }
        }
        if exists|i: int| 0 <= i < tail.len() && #[trigger] tail[i] is Yield {
            let i = choose|i: int| 0 <= i < tail.len() && #[trigger] tail[i] is Yield;
            assert(kinds[i + 1] is Yield);
        }
    }
}

/// The decisions rewrite exactly the `yield`s and `?`s met: the decision for an expression is a
/// yield to the stream exactly when it is a `yield`, and a return of the error exactly when it
/// is a `?`.
pub proof fn lemma_decisions_rewrite_yields_and_tries(kinds: Seq<ExprKind>)
    ensures
        decisions(kinds).len() == kinds.len(),
        forall|i: int|
            0 <= i < kinds.len() ==> ((#[trigger] decisions(kinds)[i] is YieldItem) <==> kinds[i] is Yield)
                && (decisions(kinds)[i] is ReturnError <==> kinds[i] is Try),
{
}

/// Visiting `a` and then `b` is visiting `a + b`.
pub proof fn lemma_visit_all_concat(s: ScrubView, a: Seq<ExprKind>, b: Seq<ExprKind>)
    ensures
        visit_all(s, a + b) == visit_all(visit_all(s, a), b),
    decreases a.len(),
{
    if a.len() > 0 {
        let next = ScrubView { is_try: s.is_try, has_yielded: s.has_yielded || a[0] is Yield };
        lemma_visit_all_concat(next, a.drop_first(), b);
        assert((a + b).drop_first() =~= a.drop_first() + b);
        assert((a + b)[0] == a[0]);
    } else {
        assert(a + b =~= b);
    }
}

/// A `yield` or `?` is among `a + b` exactly when it is among `a` or among `b`.
proof fn lemma_meets_concat(a: Seq<ExprKind>, b: Seq<ExprKind>)
    ensures
        meets_yield(a + b) == (meets_yield(a) || meets_yield(b)),
        meets_try(a + b) == (meets_try(a) || meets_try(b)),
{
    let ab = a + b;
    if meets_yield(ab) {
        let i = choose|i: int| 0 <= i < ab.len() && #[trigger] ab[i] is Yield;
        if i >= a.len() {
            assert(b[i - a.len()] is Yield);
        } else {
            assert(a[i] is Yield);
        }
    }
    if meets_yield(a) {
        let i = choose|i: int| 0 <= i < a.len() && #[trigger] a[i] is Yield;
        assert(ab[i] is Yield);
    }
    if meets_yield(b) {
        let i = choose|i: int| 0 <= i < b.len() && #[trigger] b[i] is Yield;
        assert(ab[i + a.len()] is Yield);
    }
    if meets_try(ab) {
        let i = choose|i: int| 0 <= i < ab.len() && #[trigger] ab[i] is Try;
        if i >= a.len() {
            assert(b[i - a.len()] is Try);
        } else {
            assert(a[i] is Try);
        }
    }
    if meets_try(a) {
        let i = choose|i: int| 0 <= i < a.len() && #[trigger] a[i] is Try;
        assert(ab[i] is Try);
    }
    if meets_try(b) {
        let i = choose|i: int| 0 <= i < b.len() && #[trigger] b[i] is Try;
        assert(ab[i + a.len()] is Try);
    }
}

/// The walk of an expression meets a `yield` exactly when the expression holds one of its own,
/// and a `?` exactly when it holds one of its own.
pub proof fn lemma_walk_meets_own_yields(t: ExprTree)
    ensures
        meets_yield(walk(t)) == has_own_yield(t),
        meets_try(walk(t)) == has_own_try(t),
    decreases t,
{
    let head = seq![t.kind];
    assert(head[0] == t.kind);
    assert(meets_yield(head) == t.kind is Yield);
    assert(meets_try(head) == t.kind is Try);
    if enters(rewrite_spec(t.kind)) {
        lemma_walk_all_meets_own_yields(t.subexprs@);
        lemma_meets_concat(head, walk_all(t.subexprs@));
    } else {
        assert(walk(t) =~= head);
    }
}

/// Walks of expressions meet a `yield` exactly when one of them holds one of its own, and a
/// `?` exactly when one of them holds one of its own.
pub proof fn lemma_walk_all_meets_own_yields(ts: Seq<ExprTree>)
    ensures
        meets_yield(walk_all(ts)) == any_own_yield(ts),
        meets_try(walk_all(ts)) == any_own_try(ts),
    decreases ts,
{
    if ts.len() > 0 {
        lemma_walk_meets_own_yields(ts[0]);
        lemma_walk_all_meets_own_yields(ts.subrange(1, ts.len() as int));
        lemma_meets_concat(walk(ts[0]), walk_all(ts.subrange(1, ts.len() as int)));
    }
}

} // verus!
