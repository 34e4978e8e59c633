use async_stream::functions::{AsyncStream, PollStart};
use async_stream::poll::Poll;
use async_stream::{stream, Stream};
use std::future::Ready;

type Plain<T> = AsyncStream<T, fn(Stream<T>) -> Ready<()>, Ready<()>>;

fn unit_generator<T>(_stream: Stream<T>) -> Ready<()> {
    std::future::ready(())
}

/// What a stream gives when its generator yields `items`, one per poll, and then completes.
fn collect<T>(items: Vec<T>) -> Vec<T> {
    let mut s: Plain<T> = stream(unit_generator::<T> as fn(Stream<T>) -> Ready<()>);
    let mut values = Vec::new();
    let mut items = items.into_iter();
    loop {
        match s.begin_poll(0x3000) {
            PollStart::Start { function, stream } => s.set_running(function(stream)),
            PollStart::Resume => {}
            PollStart::Finished => break,
        }
        let out = match items.next() {
            Some(item) => s.end_poll::<()>(Poll::Pending, Some(item)),
            None => s.end_poll::<()>(Poll::Ready(()), None),
        };
        match out {
            Ok(Poll::Ready(Some(v))) => values.push(v),
            Ok(Poll::Ready(None)) => {}
            _ => unreachable!(),
        }
    }
    values
}

#[test]
fn basic_noop_stream() {
    for _ in collect::<()>(vec![]) {
        unreachable!();
    }
}

#[test]
fn basic_empty_stream() {
    let mut ran = false;
    {
        let r = &mut ran;
        let mut s = stream(move |_s: Stream<()>| {
            *r = true;
            println!("hello world!");
            std::future::ready(())
        });
        loop {
            match s.begin_poll(0x4000) {
                PollStart::Start { function, stream } => s.set_running(function(stream)),
                PollStart::Resume => {}
                PollStart::Finished => break,
            }
            match s.end_poll::<()>(Poll::Ready(()), None) {
                Ok(Poll::Ready(None)) => {}
                _ => unreachable!(),
            }
        }
    }
    assert!(ran);
}

#[test]
fn basic_yield_single_value() {
    let values = collect(vec!["hello"]);
    assert_eq!(1, values.len());
    assert_eq!("hello", values[0]);
}

#[test]
fn basic_yield_multi_value() {
    let values = collect(vec!["hello", "world", "dizzy"]);
    assert_eq!(3, values.len());
    assert_eq!("hello", values[0]);
    assert_eq!("world", values[1]);
    assert_eq!("dizzy", values[2]);
}

#[test]
fn basic_return_stream() {
    let values: Vec<u32> = collect(vec![1, 2, 3]);
    assert_eq!(3, values.len());
    assert_eq!(1, values[0]);
    assert_eq!(2, values[1]);
    assert_eq!(3, values[2]);
}
