//! Token trees of the body of a `stream!` or `try_stream!` invocation, and the rewrite of
//! `for await` loops into `#[await] for` loops that the expansion later turns into loops over
//! the items of a stream.
use vstd::prelude::*;

verus! {

/// The delimiter of a group of tokens.
#[derive(Clone, Copy, PartialEq, Eq, Debug)]
pub enum Delimiter {
    /// `( ... )`
    Parenthesis,
    /// `{ ... }`
    Brace,
    /// `[ ... ]`
    Bracket,
    /// A group without visible delimiters.
    Invisible,
}

/// Whether a punctuation character is followed immediately by another one.
#[derive(Clone, Copy, PartialEq, Eq, Debug)]
pub enum Spacing {
    Alone,
    Joint,
}

/// A token tree. Each identifier, punctuation character and literal carries its origin: 0 for
/// one that the library makes, otherwise the number that the caller gave the input token it
/// copies, so that the caller can give it back the input token's source location.
pub enum Token {
    /// An identifier or keyword, by its text.
    Ident(String, usize),
    /// A punctuation character.
    Punct(char, Spacing, usize),
    /// A literal, by its text.
    Literal(String, usize),
    /// A delimited group of token trees.
    Group(Delimiter, Vec<Token>),
}

/// The mathematical value of a token tree.
pub enum TokenTree {
    Ident(Seq<char>, usize),
    Punct(char, Spacing, usize),
    Literal(Seq<char>, usize),
    Group(Delimiter, Seq<TokenTree>),
}

/// The value of a token.
pub open spec fn token_view(t: Token) -> TokenTree
    decreases t,
{
    match t {
        Token::Ident(s, o) => TokenTree::Ident(s@, o),
        Token::Punct(c, sp, o) => TokenTree::Punct(c, sp, o),
        Token::Literal(s, o) => TokenTree::Literal(s@, o),
        Token::Group(d, ts) => TokenTree::Group(d, tokens_view(ts@)),
    }
}

/// The values of a sequence of tokens.
pub open spec fn tokens_view(ts: Seq<Token>) -> Seq<TokenTree>
    decreases ts,
{
    if ts.len() == 0 {
        Seq::empty()
    } else {
        seq![token_view(ts[0])] + tokens_view(ts.subrange(1, ts.len() as int))
    }
}

/// Whether `t` is the identifier `word`.
pub open spec fn is_ident(t: TokenTree, word: Seq<char>) -> bool {
    t matches TokenTree::Ident(s, _) && s == word
}

/// `ts` with every `for await` (the identifier `for` directly followed by the identifier
/// `await` in the same group) replaced by `#[await] for`, at every depth of groups.
pub open spec fn replace_for_await_spec(ts: Seq<TokenTree>) -> Seq<TokenTree>
    decreases ts,
{
    if ts.len() == 0 {
        Seq::empty()
    } else if ts.len() > 1 && is_ident(ts[0], "for"@) && is_ident(ts[1], "await"@) {
        seq![
            TokenTree::Punct('#', Spacing::Alone, 0),
            TokenTree::Group(Delimiter::Bracket, seq![ts[1]]),
            ts[0],
        ] + replace_for_await_spec(ts.subrange(2, ts.len() as int))
    } else {
        match ts[0] {
            TokenTree::Group(d, inner) => seq![TokenTree::Group(d, replace_for_await_spec(inner))]
                + replace_for_await_spec(ts.subrange(1, ts.len() as int)),
            _ => seq![ts[0]] + replace_for_await_spec(ts.subrange(1, ts.len() as int)),
        }
    }
}

/// The values of a sequence of tokens, one by one.
pub proof fn lemma_tokens_view_index(ts: Seq<Token>)
    ensures
        tokens_view(ts).len() == ts.len(),
        forall|k: int| 0 <= k < ts.len() ==> #[trigger] tokens_view(ts)[k] == token_view(ts[k]),
    decreases ts.len(),
{
    if ts.len() > 0 {
        let tail = ts.subrange(1, ts.len() as int);
        lemma_tokens_view_index(tail);
        assert forall|k: int| 0 <= k < ts.len() implies #[trigger] tokens_view(ts)[k] == token_view(
            ts[k],
        ) by {
            if k > 0 {
                assert(tokens_view(ts)[k] == tokens_view(tail)[k - 1]);
                assert(tail[k - 1] == ts[k]);
            }
        }
    }
}

/// The values of a sequence of tokens, as a sequence built element by element.
pub proof fn lemma_tokens_view_seq(ts: Seq<Token>)
    ensures
        tokens_view(ts) == Seq::new(ts.len(), |k: int| token_view(ts[k])),
{
    lemma_tokens_view_index(ts);
    assert(tokens_view(ts) =~= Seq::new(ts.len(), |k: int| token_view(ts[k])));
}

/// Whether the text of `s` is `word`.
fn text_is(s: &String, word: &str) -> (r: bool)
    ensures
        r == (s@ == word@),
{
    let w: String = word.to_owned();
    *s == w
}

/// A copy of a token that is not a group.
fn copy_leaf(t: &Token) -> (r: Token)
    requires
        !(*t is Group),
    ensures
        token_view(r) == token_view(*t),
{
    match t {
        Token::Ident(s, o) => Token::Ident(s.clone(), *o),
        Token::Punct(c, sp, o) => Token::Punct(*c, *sp, *o),
        Token::Literal(s, o) => Token::Literal(s.clone(), *o),
        Token::Group(..) => vstd::pervasive::unreached(),
    }
}

/// Replaces `for await` with `#[await] for` in `input`, within every group too; the
/// expansion then turns each loop marked `#[await]` into a loop over the items of a stream.
pub fn replace_for_await(input: &Vec<Token>) -> (r: Vec<Token>)
    ensures
        tokens_view(r@) == replace_for_await_spec(tokens_view(input@)),
    decreases input@,
{
    let ghost v = tokens_view(input@);
    let ghost n = input@.len() as int;
    proof {
        lemma_tokens_view_seq(input@);
    }
    let mut out: Vec<Token> = Vec::new();
    let mut i: usize = 0;
    proof {
        assert(v.subrange(0, n) =~= v);
        assert(tokens_view(out@) =~= Seq::<TokenTree>::empty());
        assert(Seq::<TokenTree>::empty() + replace_for_await_spec(v) =~= replace_for_await_spec(v));
    }
    while i < input.len()
        invariant
            i <= input@.len(),
            n == input@.len(),
            v == tokens_view(input@),
            v == Seq::new(input@.len(), |k: int| token_view(input@[k])),
            tokens_view(out@) + replace_for_await_spec(v.subrange(i as int, n)) == replace_for_await_spec(v),
        decreases input@.len() - i,
    {
        let ghost rest = v.subrange(i as int, n);
        proof {
            lemma_tokens_view_seq(out@);
        }
        let ghost old_out = out@;
        let t = &input[i];
        let mut is_for_await = false;
        if i + 1 < input.len() {
            if let Token::Ident(s, _) = t {
                if let Token::Ident(next, _) = &input[i + 1] {
                    is_for_await = text_is(s, "for") && text_is(next, "await");
                }
            }
        }
        if is_for_await {
            let (s, s_origin, next, next_origin) = match (t, &input[i + 1]) {
                (Token::Ident(s, so), Token::Ident(next, no)) => (s, *so, next, *no),
                _ => vstd::pervasive::unreached(),
            };
            let mut attr: Vec<Token> = Vec::new();
            attr.push(Token::Ident(next.clone(), next_origin));
            proof {
                lemma_tokens_view_seq(attr@);
            }
            out.push(Token::Punct('#', Spacing::Alone, 0));
            out.push(Token::Group(Delimiter::Bracket, attr));
            out.push(Token::Ident(s.clone(), s_origin));
            proof {
                assert(rest[0] == v[i as int]);
                assert(rest[1] == v[i + 1]);
                assert(rest.subrange(2, rest.len() as int) =~= v.subrange(i + 2, n));
                assert(tokens_view(attr@) =~= seq![v[i + 1]]);
                lemma_tokens_view_seq(out@);
                assert(tokens_view(out@) =~= tokens_view(old_out) + seq![
                    TokenTree::Punct('#', Spacing::Alone, 0),
                    TokenTree::Group(Delimiter::Bracket, seq![v[i + 1]]),
                    v[i as int],
                ]);
            }
            i = i + 2;
        } else {
            match t {
                Token::Group(d, inner) => {
                    proof {
                        assert(decreases_to!(input@ => input@[i as int]));
                    }
                    let replaced = replace_for_await(inner);
                    out.push(Token::Group(*d, replaced));
                },
                _ => {
                    out.push(copy_leaf(t));
                },
            }
            proof {
                assert(rest[0] == v[i as int]);
                assert(rest.subrange(1, rest.len() as int) =~= v.subrange(i + 1, n));
                lemma_tokens_view_seq(out@);
                assert(tokens_view(out@) =~= tokens_view(old_out) + seq![
                    tokens_view(out@)[old_out.len() as int],
                ]);
                if rest.len() > 1 && is_ident(rest[0], "for"@) && is_ident(rest[1], "await"@) {
                    assert(false);
                }
            }
            i = i + 1;
        }
    }
    proof {
        assert(v.subrange(n, n) =~= Seq::<TokenTree>::empty());
        assert(tokens_view(out@) + Seq::<TokenTree>::empty() =~= tokens_view(out@));
    }
    out
}

/// Whether no group of `ts`, at any depth, holds the identifier `for` directly followed by the
/// identifier `await`.
pub open spec fn free_of_for_await(ts: Seq<TokenTree>) -> bool
    decreases ts,
{
    if ts.len() == 0 {
        true
    } else {
        &&& !(ts.len() > 1 && is_ident(ts[0], "for"@) && is_ident(ts[1], "await"@))
        &&& match ts[0] {
            TokenTree::Group(_, inner) => free_of_for_await(inner),
            _ => true,
        }
        &&& free_of_for_await(ts.subrange(1, ts.len() as int))
    }
}

/// Tokens without `for await` come out of the rewrite unchanged.
pub proof fn lemma_replace_for_await_keeps_plain_tokens(ts: Seq<TokenTree>)
    requires
        free_of_for_await(ts),
    ensures
        replace_for_await_spec(ts) == ts,
    decreases ts,
{
    if ts.len() > 0 {
        let tail = ts.subrange(1, ts.len() as int);
        lemma_replace_for_await_keeps_plain_tokens(tail);
        match ts[0] {
            TokenTree::Group(d, inner) => {
                lemma_replace_for_await_keeps_plain_tokens(inner);
            },
            _ => {},
        }
        assert(seq![ts[0]] + tail =~= ts);
    }
}

/// The rewrite is local and goes on after each pair it rewrites: rewriting two token sequences
/// one after the other is rewriting each, unless the first ends with `for` and the second
/// starts with `await`, a pair that only the whole holds.
pub proof fn lemma_replace_for_await_concat(a: Seq<TokenTree>, b: Seq<TokenTree>)
    requires
        !(a.len() > 0 && b.len() > 0 && is_ident(a[a.len() - 1], "for"@) && is_ident(
            b[0],
            "await"@,
        )),
    ensures
        replace_for_await_spec(a + b) == replace_for_await_spec(a) + replace_for_await_spec(b),
    decreases a.len(),
{
    let ab = a + b;
    if a.len() == 0 {
        assert(ab =~= b);
        assert(replace_for_await_spec(a) =~= Seq::<TokenTree>::empty());
        assert(Seq::<TokenTree>::empty() + replace_for_await_spec(b) =~= replace_for_await_spec(b));
    } else if a.len() > 1 && is_ident(a[0], "for"@) && is_ident(a[1], "await"@) {
        let rest = a.subrange(2, a.len() as int);
        lemma_replace_for_await_concat(rest, b);
        assert(ab[0] == a[0] && ab[1] == a[1]);
        assert(ab.subrange(2, ab.len() as int) =~= rest + b);
        let head = seq![
            TokenTree::Punct('#', Spacing::Alone, 0),
            TokenTree::Group(Delimiter::Bracket, seq![a[1]]),
            a[0],
        ];
        assert(head + (replace_for_await_spec(rest) + replace_for_await_spec(b)) =~= (head
            + replace_for_await_spec(rest)) + replace_for_await_spec(b));
    } else {
        let rest = a.subrange(1, a.len() as int);
        if a.len() > 1 {
            assert(rest[rest.len() - 1] == a[a.len() - 1]);
        }
        lemma_replace_for_await_concat(rest, b);
        assert(ab[0] == a[0]);
        if ab.len() > 1 {
            if a.len() > 1 {
                assert(ab[1] == a[1]);
            } else {
                assert(ab[1] == b[0]);
            }
        }
        assert(ab.subrange(1, ab.len() as int) =~= rest + b);
        let head = match a[0] {
            TokenTree::Group(d, inner) => seq![TokenTree::Group(d, replace_for_await_spec(inner))],
            _ => seq![a[0]],
        };
        assert(head + (replace_for_await_spec(rest) + replace_for_await_spec(b)) =~= (head
            + replace_for_await_spec(rest)) + replace_for_await_spec(b));
    }
}

/// `for await` becomes `#[await] for`, keeping both identifiers, whatever follows it; the rest
/// is rewritten as well.
pub proof fn lemma_replace_for_await_pair(for_token: TokenTree, await_token: TokenTree, rest: Seq<
    TokenTree,
>)
    requires
        is_ident(for_token, "for"@),
        is_ident(await_token, "await"@),
    ensures
        replace_for_await_spec(seq![for_token, await_token] + rest) == seq![
            TokenTree::Punct('#', Spacing::Alone, 0),
            TokenTree::Group(Delimiter::Bracket, seq![await_token]),
            for_token,
        ] + replace_for_await_spec(rest),
{
    let ts = seq![for_token, await_token] + rest;
    assert(ts[0] == for_token && ts[1] == await_token);
    assert(ts.subrange(2, ts.len() as int) =~= rest);
}

/// A group is rewritten inside, and keeps its delimiter.
pub proof fn lemma_replace_for_await_group(d: Delimiter, inner: Seq<TokenTree>)
    ensures
        replace_for_await_spec(seq![TokenTree::Group(d, inner)]) == seq![
            TokenTree::Group(d, replace_for_await_spec(inner)),
        ],
{
    let ts = seq![TokenTree::Group(d, inner)];
    assert(ts.subrange(1, 1) =~= Seq::<TokenTree>::empty());
    assert(replace_for_await_spec(Seq::<TokenTree>::empty()) =~= Seq::<TokenTree>::empty());
    assert(seq![TokenTree::Group(d, replace_for_await_spec(inner))] + Seq::<TokenTree>::empty()
        =~= seq![TokenTree::Group(d, replace_for_await_spec(inner))]);
}

/// Why the input of a stream macro is malformed.
pub enum InputError {
    /// The input is empty.
    Empty,
    /// The first token tree of the input is not a group.
    CratePathNotGroup,
}

/// Splits the input of a stream macro into the path of the crate, the tokens of its first
/// token tree, which must be a group, and the body, the rest, with `for await` rewritten.
pub fn split_input(input: Vec<Token>) -> (r: Result<(Vec<Token>, Vec<Token>), InputError>)
    ensures
        match r {
            Ok((crate_path, body)) => {
                &&& input@.len() > 0
                &&& input@[0] matches Token::Group(_, path) && crate_path@ == path@
                &&& tokens_view(body@) == replace_for_await_spec(
                    tokens_view(input@.subrange(1, input@.len() as int)),
                )
            },
            Err(e) => {
                ||| input@.len() == 0 && e is Empty
                ||| input@.len() > 0 && !(input@[0] is Group) && e is CratePathNotGroup
            },
        },
{
    let mut input = input;
    if input.len() == 0 {
        return Err(InputError::Empty);
    }
    let ghost whole = input@;
    let first = input.remove(0);
    proof {
        assert(input@ =~= whole.subrange(1, whole.len() as int));
    }
    match first {
        Token::Group(_, path) => {
            let body = replace_for_await(&input);
            Ok((path, body))
        },
        _ => Err(InputError::CratePathNotGroup),
    }
}

} // verus!
