use async_stream::functions::{AsyncStream, PollStart};
use async_stream::poll::Poll;
use async_stream::scrub::{ExprKind, Rewrite, Scrub};
use async_stream::tokens::{replace_for_await, Delimiter, Spacing, Token};
use async_stream::{stream, Stream};
use std::future::Ready;

fn ident(s: &str) -> Token {
    Token::Ident(s.to_string(), 0)
}

fn show(ts: &[Token]) -> String {
    ts.iter()
        .map(|t| match t {
            Token::Ident(s, _) | Token::Literal(s, _) => s.clone(),
            Token::Punct(c, _, _) => c.to_string(),
            Token::Group(Delimiter::Bracket, inner) => format!("[{}]", show(inner)),
            Token::Group(Delimiter::Brace, inner) => format!("{{{}}}", show(inner)),
            Token::Group(Delimiter::Parenthesis, inner) => format!("({})", show(inner)),
            Token::Group(Delimiter::Invisible, inner) => show(inner),
        })
        .collect::<Vec<_>>()
        .join(" ")
}

type Strings = AsyncStream<String, fn(Stream<String>) -> Ready<()>, Ready<()>>;

fn unit_generator(_stream: Stream<String>) -> Ready<()> {
    std::future::ready(())
}

fn collect(items: Vec<String>) -> Vec<String> {
    let mut s: Strings = stream(unit_generator as fn(Stream<String>) -> Ready<()>);
    match s.begin_poll(1) {
        PollStart::Start { function, stream } => s.set_running(function(stream)),
        _ => panic!("first poll"),
    }
    let mut values = Vec::new();
    for item in items {
        if let Ok(Poll::Ready(Some(v))) = s.end_poll::<()>(Poll::Pending, Some(item)) {
            values.push(v);
        }
    }
    assert!(matches!(s.end_poll::<()>(Poll::Ready(()), None), Ok(Poll::Ready(None))));
    values
}

#[test]
fn for_await_test() {
    // for await x in s { yield x.to_owned() + "!"; }
    let body = vec![
        ident("for"),
        ident("await"),
        ident("x"),
        ident("in"),
        ident("s"),
        Token::Group(
            Delimiter::Brace,
            vec![
                ident("yield"),
                ident("x"),
                Token::Punct('.', Spacing::Alone, 0),
                ident("to_owned"),
                Token::Group(Delimiter::Parenthesis, vec![]),
                Token::Punct('+', Spacing::Alone, 0),
                Token::Literal("\"!\"".to_string(), 0),
                Token::Punct(';', Spacing::Alone, 0),
            ],
        ),
    ];
    let rewritten = replace_for_await(&body);
    assert_eq!(show(&rewritten), "# [await] for x in s {yield x . to_owned () + \"!\" ;}");
    let mut scrub = Scrub::new(false);
    assert_eq!(
        scrub.visit_expr(ExprKind::ForLoop { attrs: 1, first_is_await: true, first_has_tokens: false }),
        Rewrite::ForAwait
    );

    let inner = collect(vec!["hello".to_string(), "world".to_string()]);
    let values = collect(inner.into_iter().map(|x| x.to_owned() + "!").collect());
    assert_eq!(2, values.len());
    assert_eq!("hello!", values[0]);
    assert_eq!("world!", values[1]);
}

#[test]
fn for_await_is_rewritten_inside_groups_only_where_adjacent() {
    let body = vec![
        ident("for"),
        ident("x"),
        ident("await"),
        Token::Group(Delimiter::Parenthesis, vec![ident("for"), ident("await"), ident("y")]),
        ident("for"),
    ];
    let rewritten = replace_for_await(&body);
    assert_eq!(show(&rewritten), "for x await (# [await] for y) for");
    match &rewritten[3] {
        Token::Group(_, inner) => assert!(matches!(inner[0], Token::Punct('#', Spacing::Alone, 0))),
        _ => panic!("the group stays a group"),
    }
}

#[test]
fn tokens_without_for_await_are_unchanged() {
    let body = vec![ident("let"), ident("a"), Token::Punct('=', Spacing::Alone, 0), Token::Literal("1".into(), 0)];
    assert_eq!(show(&replace_for_await(&body)), "let a = 1");
}

#[test]
fn for_await_await_is_rewritten_once() {
    let body = vec![ident("for"), ident("await"), ident("await")];
    assert_eq!(show(&replace_for_await(&body)), "# [await] for await");
}
