//! The token trees that a `stream!` or `try_stream!` invocation expands to: a call of
//! `stream` or `try_stream` with a generator whose body is the invocation's body, rewritten so
//! that `yield value` becomes `__yield_tx.yield_item(value).await`.
use vstd::prelude::*;

use crate::tokens::{
    lemma_tokens_view_seq, token_view, tokens_view, Delimiter, Spacing, Token, TokenTree,
};

verus! {

/// The identifier `w`.
pub open spec fn ident_tree(w: &str) -> TokenTree {
    TokenTree::Ident(w@, 0)
}

/// The lone punctuation character `c`.
pub open spec fn punct_tree(c: char) -> TokenTree {
    TokenTree::Punct(c, Spacing::Alone, 0)
}

/// The punctuation character `c`, joined to the next one.
pub open spec fn joint_tree(c: char) -> TokenTree {
    TokenTree::Punct(c, Spacing::Joint, 0)
}

/// `::`
pub open spec fn path_sep_trees() -> Seq<TokenTree> {
    seq![joint_tree(':'), punct_tree(':')]
}

/// `=>`
pub open spec fn fat_arrow_trees() -> Seq<TokenTree> {
    seq![joint_tree('='), punct_tree('>')]
}

/// The empty group `()`.
pub open spec fn unit_tree() -> TokenTree {
    TokenTree::Group(Delimiter::Parenthesis, Seq::empty())
}

/// The global path `::a::b::c`.
pub open spec fn global_path3_trees(a: &str, b: &str, c: &str) -> Seq<TokenTree> {
    path_sep_trees() + seq![ident_tree(a)] + path_sep_trees() + seq![ident_tree(b)]
        + path_sep_trees() + seq![ident_tree(c)]
}

/// The global path `::a::b::c::d`.
pub open spec fn global_path4_trees(a: &str, b: &str, c: &str, d: &str) -> Seq<TokenTree> {
    global_path3_trees(a, b, c) + path_sep_trees() + seq![ident_tree(d)]
}

/// `__yield_tx.yield_item(value).await`, with `()` as the value when there is none: what
/// `yield value` or `yield` becomes.
pub open spec fn yield_item_trees(value: Option<Seq<TokenTree>>) -> Seq<TokenTree> {
    seq![
        ident_tree("__yield_tx"),
        punct_tree('.'),
        ident_tree("yield_item"),
        TokenTree::Group(
            Delimiter::Parenthesis,
            match value {
                Some(v) => v,
                None => seq![unit_tree()],
            },
        ),
        punct_tree('.'),
        ident_tree("await"),
    ]
}

/// `match operand { ::core::result::Result::Ok(v) => v,
///   ::core::result::Result::Err(e) => return ::core::result::Result::Err(e.into()), }`:
/// what `operand?` becomes.
pub open spec fn return_error_trees(operand: Seq<TokenTree>) -> Seq<TokenTree> {
    let ok_arm = global_path4_trees("core", "result", "Result", "Ok") + seq![
        TokenTree::Group(Delimiter::Parenthesis, seq![ident_tree("v")]),
    ] + fat_arrow_trees() + seq![ident_tree("v"), punct_tree(',')];
    let err_value = seq![
        ident_tree("e"),
        punct_tree('.'),
        ident_tree("into"),
        unit_tree(),
    ];
    let err_arm = global_path4_trees("core", "result", "Result", "Err") + seq![
        TokenTree::Group(Delimiter::Parenthesis, seq![ident_tree("e")]),
    ] + fat_arrow_trees() + seq![ident_tree("return")] + global_path4_trees(
        "core",
        "result",
        "Result",
        "Err",
    ) + seq![TokenTree::Group(Delimiter::Parenthesis, err_value), punct_tree(',')];
    seq![ident_tree("match")] + operand + seq![
        TokenTree::Group(Delimiter::Brace, ok_arm + err_arm),
    ]
}

/// `::core::pin::Pin::new_unchecked(&mut __pinned)`
pub open spec fn pin_new_unchecked_trees() -> Seq<TokenTree> {
    global_path4_trees("core", "pin", "Pin", "new_unchecked") + seq![
        TokenTree::Group(
            Delimiter::Parenthesis,
            seq![punct_tree('&'), ident_tree("mut"), ident_tree("__pinned")],
        ),
    ]
}

/// What `label: for pat in iter body` marked `#[await]` becomes, for the crate at
/// `crate_path`: `{ let mut __pinned = iter;
///   let mut __pinned = unsafe { ::core::pin::Pin::new_unchecked(&mut __pinned) }; label loop {
///   let pat = match crate_path::reexport::next(&mut __pinned).await {
///     ::core::option::Option::Some(e) => e, ::core::option::Option::None => break, };
///   body } }`.
pub open spec fn for_await_trees(
    crate_path: Seq<TokenTree>,
    label: Seq<TokenTree>,
    pat: Seq<TokenTree>,
    iter: Seq<TokenTree>,
    body: Seq<TokenTree>,
) -> Seq<TokenTree> {
    let pin = seq![ident_tree("let"), ident_tree("mut"), ident_tree("__pinned"), punct_tree('=')]
        + iter + seq![
        punct_tree(';'),
        ident_tree("let"),
        ident_tree("mut"),
        ident_tree("__pinned"),
        punct_tree('='),
        ident_tree("unsafe"),
        TokenTree::Group(Delimiter::Brace, pin_new_unchecked_trees()),
        punct_tree(';'),
    ];
    let arms = global_path4_trees("core", "option", "Option", "Some") + seq![
        TokenTree::Group(Delimiter::Parenthesis, seq![ident_tree("e")]),
    ] + fat_arrow_trees() + seq![ident_tree("e"), punct_tree(',')] + global_path4_trees(
        "core",
        "option",
        "Option",
        "None",
    ) + fat_arrow_trees() + seq![ident_tree("break"), punct_tree(',')];
    let next = seq![ident_tree("let")] + pat + seq![punct_tree('='), ident_tree("match")]
        + crate_path + path_sep_trees() + seq![ident_tree("reexport")] + path_sep_trees()
        + seq![
        ident_tree("next"),
        TokenTree::Group(
            Delimiter::Parenthesis,
            seq![punct_tree('&'), ident_tree("mut"), ident_tree("__pinned")],
        ),
        punct_tree('.'),
        ident_tree("await"),
        TokenTree::Group(Delimiter::Brace, arms),
        punct_tree(';'),
    ];
    seq![
        TokenTree::Group(
            Delimiter::Brace,
            pin + label + seq![
                ident_tree("loop"),
                TokenTree::Group(Delimiter::Brace, next + body),
            ],
        ),
    ]
}

/// `if false { __yield_tx.yield_item(()).await; }`: a yield that never runs, which fixes the
/// type of the items of a body that yields nothing.
pub open spec fn dummy_yield_trees() -> Seq<TokenTree> {
    seq![
        ident_tree("if"),
        ident_tree("false"),
        TokenTree::Group(Delimiter::Brace, yield_item_trees(None) + seq![punct_tree(';')]),
    ]
}

/// The body of the generator: the dummy yield when the body has not yielded, then `stmts`;
/// a fallible stream's body is put in a block followed by `::core::result::Result::Ok(())`.
pub open spec fn generator_body_trees(stmts: Seq<TokenTree>, has_yielded: bool, is_try: bool) -> Seq<
    TokenTree,
> {
    let inner = (if has_yielded {
        Seq::empty()
    } else {
        dummy_yield_trees()
    }) + stmts;
    if is_try {
        seq![TokenTree::Group(Delimiter::Brace, inner)] + global_path4_trees(
            "core",
            "result",
            "Result",
            "Ok",
        ) + seq![TokenTree::Group(Delimiter::Parenthesis, seq![unit_tree()])]
    } else {
        inner
    }
}

/// The expansion of a stream macro, for the crate at `crate_path`, with the rewritten body
/// `stmts`: `crate_path::stream(|mut __yield_tx| async move { body })`, or `try_stream` for
/// a fallible stream, where `body` is the generator body.
pub open spec fn expansion_spec(
    crate_path: Seq<TokenTree>,
    stmts: Seq<TokenTree>,
    has_yielded: bool,
    is_try: bool,
) -> Seq<TokenTree> {
    crate_path + path_sep_trees() + seq![
        ident_tree(
            if is_try {
                "try_stream"
            } else {
                "stream"
            },
        ),
        TokenTree::Group(
            Delimiter::Parenthesis,
            seq![
                punct_tree('|'),
                ident_tree("mut"),
                ident_tree("__yield_tx"),
                punct_tree('|'),
                ident_tree("async"),
                ident_tree("move"),
                TokenTree::Group(
                    Delimiter::Brace,
                    generator_body_trees(stmts, has_yielded, is_try),
                ),
            ],
        ),
    ]
}

/// The argument of the call that a `yield` becomes is exactly the yielded expression's
/// tokens, in one pair of parentheses, or `()` when there is none; the rest of the rewrite does
/// not depend on the value.
pub proof fn lemma_yield_item_argument(value: Seq<TokenTree>, other: Option<Seq<TokenTree>>)
    ensures
        yield_item_trees(Some(value)).len() == 6,
        yield_item_trees(Some(value))[3] == TokenTree::Group(Delimiter::Parenthesis, value),
        yield_item_trees(None)[3] == TokenTree::Group(
            Delimiter::Parenthesis,
            seq![TokenTree::Group(Delimiter::Parenthesis, Seq::empty())],
        ),
        forall|i: int|
            0 <= i < 6 && i != 3 ==> yield_item_trees(Some(value))[i] == #[trigger] yield_item_trees(
                other,
            )[i],
{
}

/// The generator runs the statements as they are, after a yield that never runs exactly when
/// the body has not yielded, whatever the statements are; a fallible stream's generator runs
/// the same in a block, then ends with `Ok(())`.
pub proof fn lemma_generator_body_runs_the_statements(stmts: Seq<TokenTree>, has_yielded: bool)
    ensures
        generator_body_trees(stmts, false, false) == dummy_yield_trees() + stmts,
        generator_body_trees(stmts, true, false) == stmts,
        generator_body_trees(stmts, has_yielded, false) == generator_body_trees(
            Seq::empty(),
            has_yielded,
            false,
        ) + stmts,
        generator_body_trees(stmts, has_yielded, true) == seq![
            TokenTree::Group(Delimiter::Brace, generator_body_trees(stmts, has_yielded, false)),
        ] + global_path4_trees("core", "result", "Result", "Ok") + seq![
            TokenTree::Group(Delimiter::Parenthesis, seq![unit_tree()]),
        ],
{
    assert(Seq::<TokenTree>::empty() + stmts =~= stmts);
    assert(dummy_yield_trees() + Seq::<TokenTree>::empty() =~= dummy_yield_trees());
    assert(Seq::<TokenTree>::empty() + Seq::<TokenTree>::empty() =~= Seq::<TokenTree>::empty());
}

/// The tokens inside a group; none for a token that is not a group.
pub open spec fn group_inner(t: TokenTree) -> Seq<TokenTree> {
    match t {
        TokenTree::Group(_, inner) => inner,
        _ => Seq::empty(),
    }
}

/// A loop over a stream is one block; the label only stands before its `loop`, spliced in
/// where an unlabelled loop has none, and changes nothing else.
pub proof fn lemma_for_await_label_only_precedes_loop(
    crate_path: Seq<TokenTree>,
    label: Seq<TokenTree>,
    pat: Seq<TokenTree>,
    iter: Seq<TokenTree>,
    body: Seq<TokenTree>,
)
    ensures
        ({
            let unlabelled = group_inner(for_await_trees(crate_path, Seq::empty(), pat, iter, body)[0]);
            let k: int = iter.len() + 12int;
            for_await_trees(crate_path, label, pat, iter, body) == seq![
                TokenTree::Group(
                    Delimiter::Brace,
                    unlabelled.subrange(0, k) + label + unlabelled.subrange(k, unlabelled.len() as int),
                ),
            ]
        }),
{
    let pin = seq![ident_tree("let"), ident_tree("mut"), ident_tree("__pinned"), punct_tree('=')]
        + iter + seq![
        punct_tree(';'),
        ident_tree("let"),
        ident_tree("mut"),
        ident_tree("__pinned"),
        punct_tree('='),
        ident_tree("unsafe"),
        TokenTree::Group(Delimiter::Brace, pin_new_unchecked_trees()),
        punct_tree(';'),
    ];
    let x = for_await_trees(crate_path, Seq::empty(), pat, iter, body);
    let y = for_await_trees(crate_path, label, pat, iter, body);
    let unlabelled = group_inner(x[0]);
    let after = group_inner(y[0]).subrange((pin.len() + label.len()) as int, group_inner(y[0]).len() as int);
    assert(group_inner(y[0]) =~= pin + label + after);
    assert(unlabelled =~= pin + Seq::<TokenTree>::empty() + after);
    assert(unlabelled =~= pin + after);
    assert(pin.len() == iter.len() + 12);
    assert(unlabelled.subrange(0, pin.len() as int) =~= pin);
    assert(unlabelled.subrange(pin.len() as int, unlabelled.len() as int) =~= after);
    assert(y =~= seq![
        TokenTree::Group(
            Delimiter::Brace,
            unlabelled.subrange(0, pin.len() as int) + label + unlabelled.subrange(
                pin.len() as int,
                unlabelled.len() as int,
            ),
        ),
    ]);
}

/// A loop over a stream takes each item of the stream in turn, and leaves the loop with
/// `break` once the stream has ended: the arms of its match are
/// `::core::option::Option::Some(e) => e, ::core::option::Option::None => break,`.
pub proof fn lemma_for_await_ends_with_break(
    crate_path: Seq<TokenTree>,
    label: Seq<TokenTree>,
    pat: Seq<TokenTree>,
    iter: Seq<TokenTree>,
    body: Seq<TokenTree>,
)
    ensures
        ({
            let block = group_inner(for_await_trees(crate_path, label, pat, iter, body)[0]);
            let k: int = iter.len() + 12int + label.len();
            let looped = group_inner(block[k + 1]);
            let arms = group_inner(looped[pat.len() + crate_path.len() + 12int]);
            &&& block[k] == ident_tree("loop")
            &&& arms == global_path4_trees("core", "option", "Option", "Some") + seq![
                TokenTree::Group(Delimiter::Parenthesis, seq![ident_tree("e")]),
            ] + fat_arrow_trees() + seq![ident_tree("e"), punct_tree(',')] + global_path4_trees(
                "core",
                "option",
                "Option",
                "None",
            ) + fat_arrow_trees() + seq![ident_tree("break"), punct_tree(',')]
        }),
{
}

/// The values of two token sequences one after the other.
pub proof fn lemma_tokens_view_add(a: Seq<Token>, b: Seq<Token>)
    ensures
        tokens_view(a + b) == tokens_view(a) + tokens_view(b),
{
    lemma_tokens_view_seq(a);
    lemma_tokens_view_seq(b);
    lemma_tokens_view_seq(a + b);
    assert(tokens_view(a + b) =~= tokens_view(a) + tokens_view(b));
}

/// Appends `t` to `out`.
fn push_token(out: &mut Vec<Token>, t: Token)
    ensures
        tokens_view(final(out)@) == tokens_view(old(out)@) + seq![token_view(t)],
{
    let ghost before = out@;
    out.push(t);
    proof {
        lemma_tokens_view_add(before, seq![t]);
        lemma_tokens_view_seq(seq![t]);
        assert(final(out)@ =~= before + seq![t]);
        assert(tokens_view(seq![t]) =~= seq![token_view(t)]);
    }
}

/// Appends the tokens of `more` to `out`.
fn push_tokens(out: &mut Vec<Token>, more: Vec<Token>)
    ensures
        tokens_view(final(out)@) == tokens_view(old(out)@) + tokens_view(more@),
{
    let ghost before = out@;
    let ghost added = more@;
    let mut more = more;
    out.append(&mut more);
    proof {
        lemma_tokens_view_add(before, added);
    }
}

/// The identifier `w`.
fn ident(w: &str) -> (r: Token)
    ensures
        token_view(r) == ident_tree(w),
{
    Token::Ident(w.to_owned(), 0)
}

/// The lone punctuation character `c`.
fn punct(c: char) -> (r: Token)
    ensures
        token_view(r) == punct_tree(c),
{
    Token::Punct(c, Spacing::Alone, 0)
}

/// A group of tokens delimited by `d`.
fn group(d: Delimiter, ts: Vec<Token>) -> (r: Token)
    ensures
        token_view(r) == TokenTree::Group(d, tokens_view(ts@)),
{
    Token::Group(d, ts)
}

/// Appends `::`.
fn push_path_sep(out: &mut Vec<Token>)
    ensures
        tokens_view(final(out)@) == tokens_view(old(out)@) + path_sep_trees(),
{
    let ghost before = tokens_view(out@);
    push_token(out, Token::Punct(':', Spacing::Joint, 0));
    push_token(out, Token::Punct(':', Spacing::Alone, 0));
    proof {
        assert(tokens_view(out@) =~= before + path_sep_trees());
    }
}

/// A copy of `ts`, at every depth of groups.
pub fn copy_tokens(ts: &Vec<Token>) -> (r: Vec<Token>)
    ensures
        tokens_view(r@) == tokens_view(ts@),
    decreases ts@,
{
    let mut out: Vec<Token> = Vec::new();
    let mut i: usize = 0;
    proof {
        lemma_tokens_view_seq(ts@);
        assert(tokens_view(out@) =~= tokens_view(ts@).subrange(0, 0));
    }
    while i < ts.len()
        invariant
            i <= ts@.len(),
            tokens_view(ts@) == Seq::new(ts@.len(), |k: int| token_view(ts@[k])),
            tokens_view(out@) == tokens_view(ts@).subrange(0, i as int),
        decreases ts@.len() - i,
    {
        let ghost before = tokens_view(out@);
        let t = match &ts[i] {
            Token::Ident(s, o) => Token::Ident(s.clone(), *o),
            Token::Punct(c, sp, o) => Token::Punct(*c, *sp, *o),
            Token::Literal(s, o) => Token::Literal(s.clone(), *o),
            Token::Group(d, inner) => {
                proof {
                    assert(decreases_to!(ts@ => ts@[i as int]));
                }
                Token::Group(*d, copy_tokens(inner))
            },
        };
        push_token(&mut out, t);
        proof {
            assert(tokens_view(out@) =~= tokens_view(ts@).subrange(0, i + 1));
        }
        i = i + 1;
    }
    proof {
        assert(tokens_view(ts@).subrange(0, ts@.len() as int) =~= tokens_view(ts@));
    }
    out
}

/// The punctuation character `c`, joined to the next one.
fn joint(c: char) -> (r: Token)
    ensures
        token_view(r) == joint_tree(c),
{
    Token::Punct(c, Spacing::Joint, 0)
}

/// Appends `=>`.
fn push_fat_arrow(out: &mut Vec<Token>)
    ensures
        tokens_view(final(out)@) == tokens_view(old(out)@) + fat_arrow_trees(),
{
    let ghost before = tokens_view(out@);
    push_token(out, joint('='));
    push_token(out, punct('>'));
    proof {
        assert(tokens_view(out@) =~= before + fat_arrow_trees());
    }
}

/// A group of one token.
fn group1(d: Delimiter, t: Token) -> (r: Token)
    ensures
        token_view(r) == TokenTree::Group(d, seq![token_view(t)]),
{
    let mut ts: Vec<Token> = Vec::new();
    push_token(&mut ts, t);
    proof {
        empty_view();
        assert(tokens_view(ts@) =~= seq![token_view(t)]);
    }
    group(d, ts)
}

/// The empty group `()`.
fn unit() -> (r: Token)
    ensures
        token_view(r) == unit_tree(),
{
    let ts: Vec<Token> = Vec::new();
    proof {
        empty_view();
    }
    group(Delimiter::Parenthesis, ts)
}

/// No tokens have no values.
proof fn empty_view()
    ensures
        tokens_view(Seq::<Token>::empty()) == Seq::<TokenTree>::empty(),
{
    lemma_tokens_view_seq(Seq::<Token>::empty());
    assert(tokens_view(Seq::<Token>::empty()) =~= Seq::<TokenTree>::empty());
}

/// Appends `::a::b::c`.
fn push_global_path3(out: &mut Vec<Token>, a: &str, b: &str, c: &str)
    ensures
        tokens_view(final(out)@) == tokens_view(old(out)@) + global_path3_trees(a, b, c),
{
    let ghost before = tokens_view(out@);
    push_path_sep(out);
    push_token(out, ident(a));
    push_path_sep(out);
    push_token(out, ident(b));
    push_path_sep(out);
    push_token(out, ident(c));
    proof {
        assert(tokens_view(out@) =~= before + global_path3_trees(a, b, c));
    }
}

/// Appends `::a::b::c::d`.
fn push_global_path4(out: &mut Vec<Token>, a: &str, b: &str, c: &str, d: &str)
    ensures
        tokens_view(final(out)@) == tokens_view(old(out)@) + global_path4_trees(a, b, c, d),
{
    let ghost before = tokens_view(out@);
    push_global_path3(out, a, b, c);
    push_path_sep(out);
    push_token(out, ident(d));
    proof {
        assert(tokens_view(out@) =~= before + global_path4_trees(a, b, c, d));
    }
}

/// The values of tokens that may be absent.
pub open spec fn optional_tokens_view(value: Option<Vec<Token>>) -> Option<Seq<TokenTree>> {
    match value {
        Some(v) => Some(tokens_view(v@)),
        None => None,
    }
}

/// `__yield_tx.yield_item(value).await`, with `()` as the value when there is none: the
/// rewrite of `yield value` or `yield`.
pub fn yield_item_tokens(value: Option<Vec<Token>>) -> (r: Vec<Token>)
    ensures
        tokens_view(r@) == yield_item_trees(optional_tokens_view(value)),
{
    let ghost value_trees = optional_tokens_view(value);
    let arg = match value {
        Some(v) => group(Delimiter::Parenthesis, v),
        None => group1(Delimiter::Parenthesis, unit()),
    };
    let mut out: Vec<Token> = Vec::new();
    proof {
        empty_view();
    }
    push_token(&mut out, ident("__yield_tx"));
    push_token(&mut out, punct('.'));
    push_token(&mut out, ident("yield_item"));
    push_token(&mut out, arg);
    push_token(&mut out, punct('.'));
    push_token(&mut out, ident("await"));
    proof {
        assert(tokens_view(out@) =~= yield_item_trees(value_trees));
    }
    out
}

/// `match operand { Ok(v) => v, Err(e) => return Err(e.into()), }`, with the variants by
/// their global paths: the rewrite of `operand?`.
pub fn return_error_tokens(operand: Vec<Token>) -> (r: Vec<Token>)
    ensures
        tokens_view(r@) == return_error_trees(tokens_view(operand@)),
{
    let ghost operand_trees = tokens_view(operand@);
    proof {
        empty_view();
    }
    let mut err_value: Vec<Token> = Vec::new();
    push_token(&mut err_value, ident("e"));
    push_token(&mut err_value, punct('.'));
    push_token(&mut err_value, ident("into"));
    push_token(&mut err_value, unit());
    let ghost err_value_trees = tokens_view(err_value@);

    let mut arms: Vec<Token> = Vec::new();
    push_global_path4(&mut arms, "core", "result", "Result", "Ok");
    push_token(&mut arms, group1(Delimiter::Parenthesis, ident("v")));
    push_fat_arrow(&mut arms);
    push_token(&mut arms, ident("v"));
    push_token(&mut arms, punct(','));
    push_global_path4(&mut arms, "core", "result", "Result", "Err");
    push_token(&mut arms, group1(Delimiter::Parenthesis, ident("e")));
    push_fat_arrow(&mut arms);
    push_token(&mut arms, ident("return"));
    push_global_path4(&mut arms, "core", "result", "Result", "Err");
    push_token(&mut arms, group(Delimiter::Parenthesis, err_value));
    push_token(&mut arms, punct(','));
    let ghost arms_trees = tokens_view(arms@);

    let mut out: Vec<Token> = Vec::new();
    push_token(&mut out, ident("match"));
    push_tokens(&mut out, operand);
    push_token(&mut out, group(Delimiter::Brace, arms));
    proof {
        assert(err_value_trees =~= seq![
            ident_tree("e"),
            punct_tree('.'),
            ident_tree("into"),
            unit_tree(),
        ]);
        let ok_arm = global_path4_trees("core", "result", "Result", "Ok") + seq![
            TokenTree::Group(Delimiter::Parenthesis, seq![ident_tree("v")]),
        ] + fat_arrow_trees() + seq![ident_tree("v"), punct_tree(',')];
        let err_arm = global_path4_trees("core", "result", "Result", "Err") + seq![
            TokenTree::Group(Delimiter::Parenthesis, seq![ident_tree("e")]),
        ] + fat_arrow_trees() + seq![ident_tree("return")] + global_path4_trees(
            "core",
            "result",
            "Result",
            "Err",
        ) + seq![TokenTree::Group(Delimiter::Parenthesis, err_value_trees), punct_tree(',')];
        assert(arms_trees =~= ok_arm + err_arm);
        assert(tokens_view(out@) =~= return_error_trees(operand_trees));
    }
    out
}

/// The rewrite of `label: for pat in iter body` marked `#[await]`, for the crate at
/// `crate_path`: a loop that takes each item by awaiting the next item of `iter`, pinned in
/// place.
pub fn for_await_tokens(
    crate_path: &Vec<Token>,
    label: Vec<Token>,
    pat: Vec<Token>,
    iter: Vec<Token>,
    body: Vec<Token>,
) -> (r: Vec<Token>)
    ensures
        tokens_view(r@) == for_await_trees(
            tokens_view(crate_path@),
            tokens_view(label@),
            tokens_view(pat@),
            tokens_view(iter@),
            tokens_view(body@),
        ),
{
    let ghost path_t = tokens_view(crate_path@);
    let ghost label_t = tokens_view(label@);
    let ghost pat_t = tokens_view(pat@);
    let ghost iter_t = tokens_view(iter@);
    let ghost body_t = tokens_view(body@);
    proof {
        empty_view();
    }

    let mut pinned: Vec<Token> = Vec::new();
    push_token(&mut pinned, punct('&'));
    push_token(&mut pinned, ident("mut"));
    push_token(&mut pinned, ident("__pinned"));
    let ghost pinned_t = tokens_view(pinned@);

    let mut arms: Vec<Token> = Vec::new();
    push_global_path4(&mut arms, "core", "option", "Option", "Some");
    push_token(&mut arms, group1(Delimiter::Parenthesis, ident("e")));
    push_fat_arrow(&mut arms);
    push_token(&mut arms, ident("e"));
    push_token(&mut arms, punct(','));
    push_global_path4(&mut arms, "core", "option", "Option", "None");
    push_fat_arrow(&mut arms);
    push_token(&mut arms, ident("break"));
    push_token(&mut arms, punct(','));
    let ghost arms_t = tokens_view(arms@);

    let mut next: Vec<Token> = Vec::new();
    push_token(&mut next, ident("let"));
    push_tokens(&mut next, pat);
    push_token(&mut next, punct('='));
    push_token(&mut next, ident("match"));
    push_tokens(&mut next, copy_tokens(crate_path));
    push_path_sep(&mut next);
    push_token(&mut next, ident("reexport"));
    push_path_sep(&mut next);
    push_token(&mut next, ident("next"));
    push_token(&mut next, group(Delimiter::Parenthesis, pinned));
    push_token(&mut next, punct('.'));
    push_token(&mut next, ident("await"));
    push_token(&mut next, group(Delimiter::Brace, arms));
    push_token(&mut next, punct(';'));
    push_tokens(&mut next, body);
    let ghost next_t = tokens_view(next@);

    let mut pinned_again: Vec<Token> = Vec::new();
    push_token(&mut pinned_again, punct('&'));
    push_token(&mut pinned_again, ident("mut"));
    push_token(&mut pinned_again, ident("__pinned"));
    proof {
        assert(tokens_view(pinned_again@) =~= seq![
            punct_tree('&'),
            ident_tree("mut"),
            ident_tree("__pinned"),
        ]);
    }
    let mut new_unchecked: Vec<Token> = Vec::new();
    push_global_path4(&mut new_unchecked, "core", "pin", "Pin", "new_unchecked");
    push_token(&mut new_unchecked, group(Delimiter::Parenthesis, pinned_again));
    proof {
        assert(tokens_view(new_unchecked@) =~= pin_new_unchecked_trees());
    }

    let mut block: Vec<Token> = Vec::new();
    push_token(&mut block, ident("let"));
    push_token(&mut block, ident("mut"));
    push_token(&mut block, ident("__pinned"));
    push_token(&mut block, punct('='));
    push_tokens(&mut block, iter);
    push_token(&mut block, punct(';'));
    push_token(&mut block, ident("let"));
    push_token(&mut block, ident("mut"));
    push_token(&mut block, ident("__pinned"));
    push_token(&mut block, punct('='));
    push_token(&mut block, ident("unsafe"));
    push_token(&mut block, group(Delimiter::Brace, new_unchecked));
    push_token(&mut block, punct(';'));
    push_tokens(&mut block, label);
    push_token(&mut block, ident("loop"));
    push_token(&mut block, group(Delimiter::Brace, next));
    let ghost block_t = tokens_view(block@);

    let mut out: Vec<Token> = Vec::new();
    push_token(&mut out, group(Delimiter::Brace, block));
    proof {
        assert(pinned_t =~= seq![punct_tree('&'), ident_tree("mut"), ident_tree("__pinned")]);
        let arms_s = global_path4_trees("core", "option", "Option", "Some") + seq![
            TokenTree::Group(Delimiter::Parenthesis, seq![ident_tree("e")]),
        ] + fat_arrow_trees() + seq![ident_tree("e"), punct_tree(',')] + global_path4_trees(
            "core",
            "option",
            "Option",
            "None",
        ) + fat_arrow_trees() + seq![ident_tree("break"), punct_tree(',')];
        assert(arms_t =~= arms_s);
        let next_s = seq![ident_tree("let")] + pat_t + seq![punct_tree('='), ident_tree("match")]
            + path_t + path_sep_trees() + seq![ident_tree("reexport")] + path_sep_trees() + seq![
            ident_tree("next"),
            TokenTree::Group(
                Delimiter::Parenthesis,
                seq![punct_tree('&'), ident_tree("mut"), ident_tree("__pinned")],
            ),
            punct_tree('.'),
            ident_tree("await"),
            TokenTree::Group(Delimiter::Brace, arms_s),
            punct_tree(';'),
        ];
        assert(next_t =~= next_s + body_t);
        let pin_s = seq![
            ident_tree("let"),
            ident_tree("mut"),
            ident_tree("__pinned"),
            punct_tree('='),
        ] + iter_t + seq![
            punct_tree(';'),
            ident_tree("let"),
            ident_tree("mut"),
            ident_tree("__pinned"),
            punct_tree('='),
            ident_tree("unsafe"),
            TokenTree::Group(Delimiter::Brace, pin_new_unchecked_trees()),
            punct_tree(';'),
        ];
        assert(block_t =~= pin_s + label_t + seq![
            ident_tree("loop"),
            TokenTree::Group(Delimiter::Brace, next_s + body_t),
        ]);
        assert(tokens_view(out@) =~= for_await_trees(path_t, label_t, pat_t, iter_t, body_t));
    }
    out
}

/// `if false { __yield_tx.yield_item(()).await; }`
fn dummy_yield() -> (r: Vec<Token>)
    ensures
        tokens_view(r@) == dummy_yield_trees(),
{
    proof {
        empty_view();
    }
    let mut yield_unit = yield_item_tokens(None);
    push_token(&mut yield_unit, punct(';'));
    let mut out: Vec<Token> = Vec::new();
    push_token(&mut out, ident("if"));
    push_token(&mut out, ident("false"));
    push_token(&mut out, group(Delimiter::Brace, yield_unit));
    proof {
        assert(tokens_view(out@) =~= dummy_yield_trees());
    }
    out
}

/// The expansion of a stream macro for the crate at `crate_path`, whose rewritten body is
/// `stmts`; `has_yielded` says whether the body yields, and `is_try` whether the stream is
/// fallible.
pub fn expand(crate_path: &Vec<Token>, stmts: Vec<Token>, has_yielded: bool, is_try: bool) -> (r:
    Vec<Token>)
    ensures
        tokens_view(r@) == expansion_spec(
            tokens_view(crate_path@),
            tokens_view(stmts@),
            has_yielded,
            is_try,
        ),
{
    let ghost path = tokens_view(crate_path@);
    let ghost stmts_t = tokens_view(stmts@);
    proof {
        empty_view();
    }

    let mut inner: Vec<Token> = if has_yielded {
        Vec::new()
    } else {
        dummy_yield()
    };
    push_tokens(&mut inner, stmts);
    let ghost inner_t = tokens_view(inner@);
    let generator_body = if is_try {
        let mut b: Vec<Token> = Vec::new();
        push_token(&mut b, group(Delimiter::Brace, inner));
        push_global_path4(&mut b, "core", "result", "Result", "Ok");
        push_token(&mut b, group1(Delimiter::Parenthesis, unit()));
        b
    } else {
        inner
    };
    proof {
        assert(inner_t =~= (if has_yielded {
            Seq::empty()
        } else {
            dummy_yield_trees()
        }) + stmts_t);
        if is_try {
            assert(tokens_view(generator_body@) =~= generator_body_trees(
                stmts_t,
                has_yielded,
                is_try,
            ));
        }
    }
    let ghost body_t = tokens_view(generator_body@);

    let mut closure: Vec<Token> = Vec::new();
    push_token(&mut closure, punct('|'));
    push_token(&mut closure, ident("mut"));
    push_token(&mut closure, ident("__yield_tx"));
    push_token(&mut closure, punct('|'));
    push_token(&mut closure, ident("async"));
    push_token(&mut closure, ident("move"));
    push_token(&mut closure, group(Delimiter::Brace, generator_body));
    let ghost closure_t = tokens_view(closure@);

    let mut out: Vec<Token> = copy_tokens(crate_path);
    push_path_sep(&mut out);
    if is_try {
        push_token(&mut out, ident("try_stream"));
    } else {
        push_token(&mut out, ident("stream"));
    }
    push_token(&mut out, group(Delimiter::Parenthesis, closure));
    proof {
        assert(body_t == generator_body_trees(stmts_t, has_yielded, is_try));
        assert(closure_t =~= seq![
            punct_tree('|'),
            ident_tree("mut"),
            ident_tree("__yield_tx"),
            punct_tree('|'),
            ident_tree("async"),
            ident_tree("move"),
            TokenTree::Group(Delimiter::Brace, body_t),
        ]);
        assert(tokens_view(out@) =~= expansion_spec(path, stmts_t, has_yielded, is_try));
    }
    out
}

} // verus!
