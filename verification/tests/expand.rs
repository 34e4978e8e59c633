use async_stream::expand::{copy_tokens, expand, for_await_tokens, return_error_tokens, yield_item_tokens};
use async_stream::tokens::{split_input, Delimiter, InputError, Spacing, Token};

fn ident(s: &str) -> Token {
    Token::Ident(s.to_string(), 0)
}

fn show(ts: &[Token]) -> String {
    ts.iter()
        .map(|t| match t {
            Token::Ident(s, _) | Token::Literal(s, _) => s.clone(),
            Token::Punct(c, Spacing::Joint, _) => c.to_string(),
            Token::Punct(c, Spacing::Alone, _) => format!("{} ", c),
            Token::Group(Delimiter::Bracket, inner) => format!("[{}]", show(inner)),
            Token::Group(Delimiter::Brace, inner) => format!("{{{}}}", show(inner)),
            Token::Group(Delimiter::Parenthesis, inner) => format!("({})", show(inner)),
            Token::Group(Delimiter::Invisible, inner) => show(inner),
        })
        .collect::<Vec<_>>()
        .join(" ")
}

#[test]
fn expansion_of_a_body_that_yields() {
    let path = vec![ident("my_crate")];
    let body = vec![ident("yield"), Token::Literal("1".to_string(), 0), Token::Punct(';', Spacing::Alone, 0)];
    let out = expand(&path, body, true, false);
    assert_eq!(
        show(&out),
        "my_crate : :  stream (|  mut __yield_tx |  async move {yield 1 ; })"
    );
}

#[test]
fn expansion_of_a_fallible_body_ends_it_with_ok() {
    let path = vec![ident("c")];
    let out = expand(&path, vec![ident("x")], true, true);
    assert_eq!(
        show(&out),
        "c : :  try_stream (|  mut __yield_tx |  async move {{x} : :  core : :  result : :  Result : :  Ok (())})"
    );
}

#[test]
fn expansion_of_a_body_that_never_yields_has_a_dummy_yield() {
    let path = vec![ident("c")];
    let out = expand(&path, vec![], false, false);
    assert!(show(&out).contains("async move {if false {__yield_tx .  yield_item (()) .  await ; }}"));
}

#[test]
fn yield_becomes_yield_item() {
    assert_eq!(
        show(&yield_item_tokens(Some(vec![ident("x")]))),
        "__yield_tx .  yield_item (x) .  await"
    );
    assert_eq!(show(&yield_item_tokens(None)), "__yield_tx .  yield_item (()) .  await");
}

#[test]
fn question_mark_becomes_a_match_that_returns_the_error() {
    assert_eq!(
        show(&return_error_tokens(vec![ident("r")])),
        "match r {: :  core : :  result : :  Result : :  Ok (v) = >  v ,  : :  core : :  result : :  Result : :  Err (e) = >  return : :  core : :  result : :  Result : :  Err (e .  into ()) , }"
    );
}

#[test]
fn for_await_becomes_a_loop_over_next() {
    let out = for_await_tokens(
        &vec![ident("k")],
        vec![Token::Punct('\'', Spacing::Joint, 0), ident("l"), Token::Punct(':', Spacing::Alone, 0)],
        vec![ident("x")],
        vec![ident("s")],
        vec![Token::Group(Delimiter::Brace, vec![])],
    );
    assert_eq!(
        show(&out),
        "{let mut __pinned =  s ;  let mut __pinned =  unsafe {: :  core : :  pin : :  Pin : :  new_unchecked (&  mut __pinned)} ;  ' l :  loop {let x =  match k : :  reexport : :  next (&  mut __pinned) .  await {: :  core : :  option : :  Option : :  Some (e) = >  e ,  : :  core : :  option : :  Option : :  None = >  break , } ;  {}}}"
    );
}

#[test]
fn split_input_takes_the_crate_path_and_rewrites_the_body() {
    let input = vec![
        Token::Group(Delimiter::Invisible, vec![ident("krate")]),
        ident("for"),
        ident("await"),
        ident("x"),
    ];
    let (path, body) = split_input(input).ok().unwrap();
    assert_eq!(show(&path), "krate");
    assert_eq!(show(&body), "#  [await] for x");
}

#[test]
fn split_input_rejects_malformed_input() {
    assert!(matches!(split_input(vec![]), Err(InputError::Empty)));
    assert!(matches!(split_input(vec![ident("krate")]), Err(InputError::CratePathNotGroup)));
}

#[test]
fn copies_are_deep() {
    let ts = vec![Token::Group(Delimiter::Brace, vec![ident("a"), Token::Group(Delimiter::Bracket, vec![])])];
    assert_eq!(show(&copy_tokens(&ts)), show(&ts));
}

/// The origins of the identifiers of `ts`, at every depth, in order.
fn ident_origins(ts: &[Token]) -> Vec<(String, usize)> {
    let mut out = Vec::new();
    for t in ts {
        match t {
            Token::Ident(s, o) => out.push((s.clone(), *o)),
            Token::Group(_, inner) => out.extend(ident_origins(inner)),
            _ => {}
        }
    }
    out
}

#[test]
fn input_tokens_keep_their_origins_and_made_tokens_have_none() {
    let input = vec![
        Token::Group(Delimiter::Invisible, vec![Token::Ident("krate".to_string(), 1)]),
        Token::Ident("for".to_string(), 2),
        Token::Ident("await".to_string(), 3),
        Token::Ident("x".to_string(), 4),
    ];
    let (path, body) = split_input(input).ok().unwrap();
    assert_eq!(ident_origins(&path), vec![("krate".to_string(), 1)]);
    assert!(matches!(body[0], Token::Punct('#', Spacing::Alone, 0)));
    assert_eq!(
        ident_origins(&body),
        vec![("await".to_string(), 3), ("for".to_string(), 2), ("x".to_string(), 4)]
    );

    let out = yield_item_tokens(Some(vec![Token::Ident("v".to_string(), 7)]));
    assert_eq!(
        ident_origins(&out),
        vec![
            ("__yield_tx".to_string(), 0),
            ("yield_item".to_string(), 0),
            ("v".to_string(), 7),
            ("await".to_string(), 0),
        ]
    );
}
