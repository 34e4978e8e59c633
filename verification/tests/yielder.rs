use async_stream::yielder::pair;

#[test]
fn send_hands_its_value_over_once() {
    let (mut tx, _rx) = pair::<&str>();
    let mut send = tx.send("hello");
    let mut out = None;
    assert!(send.poll(&mut out).is_pending());
    assert_eq!(out, Some("hello"));
    out = None;
    assert!(send.poll(&mut out).is_ready());
    assert_eq!(out, None);
}

#[test]
fn send_waits_while_the_slot_is_occupied() {
    let (mut tx, _rx) = pair::<u32>();
    let mut send = tx.send(2);
    let mut out = Some(1);
    assert!(send.poll(&mut out).is_pending());
    assert!(send.poll(&mut out).is_pending());
    assert_eq!(out, Some(1));
    out = None;
    assert!(send.poll(&mut out).is_pending());
    assert_eq!(out, Some(2));
    assert!(send.poll(&mut out).is_ready());
}

#[test]
fn sends_in_order_through_one_slot() {
    let (mut tx, _rx) = pair::<u32>();
    let mut taken = Vec::new();
    for v in [3, 1, 2] {
        let mut send = tx.send(v);
        let mut out = None;
        assert!(send.poll(&mut out).is_pending());
        taken.push(out.take().unwrap());
        assert!(send.poll(&mut out).is_ready());
    }
    assert_eq!(taken, vec![3, 1, 2]);
}

#[test]
fn first_delivery_wins_within_one_context() {
    let (mut tx, _rx) = pair::<&str>();
    let mut first = tx.send("v1");
    let mut second = tx.send("v2");
    let mut dst = None;
    assert!(first.poll(&mut dst).is_pending());
    assert!(second.poll(&mut dst).is_pending());
    assert_eq!(dst, Some("v1"));
    assert!(first.is_done());
    assert!(!second.is_done());
}
