use async_stream::expand::{expand, yield_item_tokens};
use async_stream::scrub::{ExprKind, Rewrite, Scrub};
use async_stream::tokens::{split_input, Delimiter, Spacing, Token};

fn ident(s: &str) -> Token {
    Token::Ident(s.to_string(), 0)
}

fn punct(c: char) -> Token {
    Token::Punct(c, Spacing::Alone, 0)
}

fn group(d: Delimiter, ts: Vec<Token>) -> Token {
    Token::Group(d, ts)
}

fn crate_path() -> Token {
    group(Delimiter::Parenthesis, vec![punct('$'), ident("crate")])
}

/// `Cell::new(0)`
fn new_cell() -> Vec<Token> {
    vec![
        ident("Cell"),
        Token::Punct(':', Spacing::Joint, 0),
        punct(':'),
        ident("new"),
        group(Delimiter::Parenthesis, vec![Token::Literal("0".to_string(), 0)]),
    ]
}

fn show(ts: &[Token]) -> String {
    ts.iter()
        .map(|t| match t {
            Token::Ident(s, _) | Token::Literal(s, _) => s.clone(),
            Token::Punct(c, _, _) => c.to_string(),
            Token::Group(Delimiter::Brace, inner) => format!("{{{}}}", show(inner)),
            Token::Group(Delimiter::Parenthesis, inner) => format!("({})", show(inner)),
            Token::Group(Delimiter::Bracket, inner) => format!("[{}]", show(inner)),
            Token::Group(Delimiter::Invisible, inner) => show(inner),
        })
        .collect::<Vec<_>>()
        .join(" ")
}

#[test]
fn macros() {
    // stream! { yield Cell::new(0); }
    let mut input = vec![crate_path(), ident("yield")];
    input.extend(new_cell());
    input.push(punct(';'));
    let (path, body) = split_input(input).ok().expect("the input starts with the crate path");
    assert_eq!(body.len(), 7);
    let mut scrub = Scrub::new(false);
    assert_eq!(scrub.visit_expr(ExprKind::Yield { has_value: true }), Rewrite::YieldItem { unit: false });
    let mut stmts = yield_item_tokens(Some(body[1..6].iter().map(|t| match t {
        Token::Ident(s, o) => Token::Ident(s.clone(), *o),
        Token::Literal(s, o) => Token::Literal(s.clone(), *o),
        Token::Punct(c, sp, o) => Token::Punct(*c, *sp, *o),
        Token::Group(d, inner) => Token::Group(*d, inner.iter().map(|t| match t {
            Token::Literal(s, o) => Token::Literal(s.clone(), *o),
            _ => panic!("only a literal argument"),
        }).collect()),
    }).collect()));
    stmts.push(punct(';'));
    let expansion = expand(&path, stmts, scrub.has_yielded(), scrub.is_try());
    assert_eq!(
        show(&expansion),
        "$ crate : : stream (| mut __yield_tx | async move {__yield_tx . yield_item (Cell : : new (0)) . await ;})"
    );

    // try_stream! { yield Cell::new(0); return Err(Cell::new(0)); }
    let mut input = vec![crate_path(), ident("yield")];
    input.extend(new_cell());
    input.push(punct(';'));
    input.push(ident("return"));
    input.push(ident("Err"));
    input.push(group(Delimiter::Parenthesis, new_cell()));
    input.push(punct(';'));
    let (path, body) = split_input(input).ok().expect("the input starts with the crate path");
    assert_eq!(body.len(), 11);
    let mut scrub = Scrub::new(true);
    assert_eq!(scrub.visit_expr(ExprKind::Yield { has_value: true }), Rewrite::YieldItem { unit: false });
    assert_eq!(scrub.visit_expr(ExprKind::Other), Rewrite::Visit);
    let expansion = expand(&path, body, scrub.has_yielded(), scrub.is_try());
    let text = show(&expansion);
    assert!(text.starts_with("$ crate : : try_stream (| mut __yield_tx | async move {{yield Cell"));
    assert!(text.ends_with("return Err (Cell : : new (0)) ;} : : core : : result : : Result : : Ok (())})"));
}
