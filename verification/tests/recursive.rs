use async_stream::functions::{AsyncStream, PendOnce, PollStart};
use async_stream::poll::Poll;
use async_stream::{stream, Stream};
use std::future::Ready;

type Plain = AsyncStream<i32, fn(Stream<i32>) -> Ready<()>, Ready<()>>;

fn unit_generator(_stream: Stream<i32>) -> Ready<()> {
    std::future::ready(())
}

/// Starts a stream at `addr` and returns the handle its generator gets.
fn start(s: &mut Plain, addr: usize) -> Stream<i32> {
    match s.begin_poll(addr) {
        PollStart::Start { function, stream } => {
            let handle = stream.clone();
            s.set_running(function(stream));
            handle
        }
        _ => panic!("a new stream starts on its first poll"),
    }
}

/// Yields `item` through `handle` while the streams at `contexts` are being polled, into the
/// slot of the stream that the handle finds, and polls the await once.
fn yield_through(
    handle: &mut Stream<i32>,
    contexts: &[usize],
    slots: &mut [Option<i32>],
    item: i32,
) -> PendOnce {
    let i = handle.find_context(contexts).ok().expect("called inside the stream's context");
    let mut pend = handle.yield_item(&mut slots[i], item).ok().expect("one yield per poll");
    assert!(pend.poll().is_pending());
    pend
}

/// One poll of a started stream whose generator completes when `completes`, with `slot`
/// the stream's slot; `Some(v)` when the poll is ready with `v`.
fn next(s: &mut Plain, completes: bool, slot: &mut Option<i32>) -> Option<Option<i32>> {
    match s.begin_poll(0) {
        PollStart::Finished => Some(None),
        PollStart::Resume => {
            let poll: Poll<()> = if completes { Poll::Ready(()) } else { Poll::Pending };
            match s.end_poll::<()>(poll, slot.take()) {
                Ok(Poll::Ready(v)) => Some(v),
                Ok(Poll::Pending) => None,
                Err(e) => panic!("{}", e.message()),
            }
        }
        PollStart::Start { .. } => panic!("already started"),
    }
}

#[test]
fn recursive_test() {
    const A1: usize = 0x100;
    const A2: usize = 0x200;
    let mut stream_1: Plain = stream(unit_generator as fn(Stream<i32>) -> Ready<()>);
    let mut handle_1 = start(&mut stream_1, A1);
    let mut handle_1_clone = handle_1.clone();
    let mut stream_2: Plain = stream(unit_generator as fn(Stream<i32>) -> Ready<()>);
    let mut handle_2 = start(&mut stream_2, A2);

    // The slots of the streams at A2 and A1, innermost first while stream_2 is polled.
    let mut slots = [None, None];

    // First poll of stream_1: its generator polls stream_2, whose generator yields 1 through
    // the clone of stream_1's handle: the item goes to stream_1, not to stream_2.
    let mut pend_1 = yield_through(&mut handle_1_clone, &[A2, A1], &mut slots, 1);
    assert_eq!(slots, [None, Some(1)]);
    // stream_2 is pending, and so is the await of its next item in stream_1's generator.
    assert_eq!(next(&mut stream_2, false, &mut slots[0]), None);
    assert_eq!(next(&mut stream_1, false, &mut slots[1]), Some(Some(1)));

    // Second poll: stream_2's generator goes on and yields 2 to stream_2; then stream_1's
    // generator yields 11.
    assert!(pend_1.poll().is_ready());
    let mut pend_2 = yield_through(&mut handle_2, &[A2, A1], &mut slots, 2);
    assert_eq!(next(&mut stream_2, false, &mut slots[0]), Some(Some(2)));
    let mut pend_11 = yield_through(&mut handle_1, &[A1], &mut slots[1..], 11);
    assert_eq!(next(&mut stream_1, false, &mut slots[1]), Some(Some(11)));

    // Third poll: both generators complete.
    assert!(pend_2.poll().is_ready());
    assert_eq!(next(&mut stream_2, true, &mut slots[0]), Some(None));
    assert!(pend_11.poll().is_ready());
    assert_eq!(next(&mut stream_1, true, &mut slots[1]), Some(None));
    assert_eq!(next(&mut stream_1, true, &mut slots[1]), Some(None));
}

#[test]
fn yield_outside_context_is_an_error() {
    let mut s: Plain = stream(unit_generator as fn(Stream<i32>) -> Ready<()>);
    let handle = start(&mut s, 5);
    let e = handle.find_context(&[1, 2, 3]).err().expect("not being polled");
    assert_eq!(e.message(), "called `yield_item` outside of stream context");
}

#[test]
fn double_yield_is_an_error_and_keeps_the_first_item() {
    let mut s: Plain = stream(unit_generator as fn(Stream<i32>) -> Ready<()>);
    let mut handle = start(&mut s, 5);
    let mut slot = None;
    assert!(handle.yield_item(&mut slot, 1).is_ok());
    let e = handle.yield_item(&mut slot, 2).err().expect("second yield in one poll");
    assert_eq!(slot, Some(1));
    assert_eq!(e.message(), "called `yield_item` twice in the same context");
}

#[test]
fn pend_once_pends_exactly_once() {
    let mut p = PendOnce::new();
    assert!(p.poll().is_pending());
    assert!(p.poll().is_ready());
    assert!(p.poll().is_ready());
}
