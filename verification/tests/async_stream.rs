use async_stream::async_stream::{AsyncStream, Begin};
use async_stream::poll::Poll;

type Driven<T> = AsyncStream<T, fn() -> u8, u8>;

fn make() -> u8 {
    0
}

/// A stream past its first poll, with its generator installed.
fn initialized<T>() -> Driven<T> {
    let mut s: Driven<T> = AsyncStream::new(make as fn() -> u8);
    assert!(!s.is_terminated());
    match s.begin_poll() {
        Begin::Initialize { function, .. } => s.install_generator(function()),
        _ => panic!("the first poll initializes the stream"),
    }
    s
}

fn poll_once<T>(s: &mut Driven<T>, res: Poll<()>, sent: Option<T>) -> Poll<Option<T>> {
    match s.begin_poll() {
        Begin::Finished => Poll::Ready(None),
        Begin::Resume => {
            *s.generator_mut() += 1;
            s.end_poll(res, sent)
        }
        Begin::Initialize { .. } => panic!("already initialized"),
    }
}

#[test]
fn gives_each_sent_item_in_order_then_ends() {
    let mut s = initialized::<&str>();
    let mut values = Vec::new();
    for v in ["hello", "world", "dizzy"] {
        match poll_once(&mut s, Poll::Pending, Some(v)) {
            Poll::Ready(Some(x)) => values.push(x),
            _ => panic!("a sent item is given out"),
        }
    }
    assert!(matches!(poll_once(&mut s, Poll::Ready(()), None), Poll::Ready(None)));
    assert_eq!(values, vec!["hello", "world", "dizzy"]);
    assert!(s.is_terminated());
    assert!(matches!(poll_once(&mut s, Poll::Pending, Some("late")), Poll::Ready(None)));
}

#[test]
fn item_sent_in_the_last_poll_is_given_out() {
    let mut s = initialized::<u8>();
    assert!(matches!(poll_once(&mut s, Poll::Ready(()), Some(4)), Poll::Ready(Some(4))));
    assert!(s.is_terminated());
    assert!(matches!(poll_once(&mut s, Poll::Pending, None), Poll::Ready(None)));
}

#[test]
fn pending_generator_without_item_is_pending() {
    let mut s = initialized::<u8>();
    assert!(poll_once(&mut s, Poll::Pending, None).is_pending());
    assert!(!s.is_terminated());
}

#[test]
fn generator_is_polled_in_place() {
    let mut s = initialized::<u8>();
    let _ = poll_once(&mut s, Poll::Pending, None);
    let _ = poll_once(&mut s, Poll::Pending, None);
    assert_eq!(*s.generator_mut(), 2);
}

#[test]
fn send_replaces_the_cell_and_pends_once() {
    let mut s: Driven<u8> = AsyncStream::new(make as fn() -> u8);
    match s.begin_poll() {
        Begin::Initialize { mut sender, function } => {
            s.install_generator(function());
            let mut yielded = Some(1);
            let mut fut = sender.send(&mut yielded, 9);
            assert_eq!(yielded, Some(9));
            assert!(fut.poll().is_pending());
            assert!(fut.poll().is_ready());
        }
        _ => panic!("the first poll initializes the stream"),
    }
}
