//! The channel between the body of a `stream!` invocation and its stream: the body sends
//! each value into the slot of the stream that is polling it.
use core::marker::PhantomData;
use vstd::prelude::*;

use crate::poll::Poll;

verus! {

/// The sending half: the body of a stream sends its values through it.
pub struct Sender<T> {
    _p: PhantomData<T>,
}

/// The receiving half, held by the stream.
pub struct Receiver<T> {
    _p: PhantomData<T>,
}

/// A sender and a receiver for values of type `T`.
pub fn pair<T>() -> (r: (Sender<T>, Receiver<T>)) {
    let tx = Sender { _p: PhantomData };
    let rx = Receiver { _p: PhantomData };
    (tx, rx)
}

impl<T> Sender<T> {
    /// A future that hands `value` over to the stream that polls it.
    pub fn send(&mut self, value: T) -> (r: Send<T>)
        ensures
            r@ == Some(value),
    {
        Send { value: Some(value) }
    }
}

/// A value on its way to the stream.
pub struct Send<T> {
    value: Option<T>,
}

impl<T> View for Send<T> {
    type V = Option<T>;

    /// The value not handed over yet.
    closed spec fn view(&self) -> Option<T> {
        self.value
    }
}

/// One poll of a send that still holds `value`, with `out` the slot of the stream polling it:
/// the value left to send, what the slot holds after the poll, and the poll's outcome.
/// A value is handed over only into an empty slot; an occupied slot is left as it is.
pub open spec fn send_poll_spec<T>(value: Option<T>, out: Option<T>) -> (Option<T>, Option<T>, Poll<()>) {
    match value {
        None => (None, out, Poll::Ready(())),
        Some(v) => match out {
            None => (None, Some(v), Poll::Pending),
            Some(_) => (value, out, Poll::Pending),
        },
    }
}

impl<T> Send<T> {
    /// Whether the value has been handed over.
    pub fn is_done(&self) -> (r: bool)
        ensures
            r == (self@ is None),
    {
        self.value.is_none()
    }

    /// Polls the send with `out`, the slot of the stream that polls it: the value goes into
    /// the slot if the slot is empty; the send is ready once its value has been handed over.
    pub fn poll(&mut self, out: &mut Option<T>) -> (r: Poll<()>)
        ensures
            (final(self)@, *final(out), r) == send_poll_spec(old(self)@, *old(out)),
    {
        if self.value.is_none() {
            return Poll::Ready(());
        }
        let prev = out.take();
        if prev.is_none() {
            *out = self.value.take();
        } else {
            *out = prev;
        }
        Poll::Pending
    }
}

/// A send hands its value over exactly once: the first poll with an empty slot puts the value
/// there and is pending, and the next poll is ready and leaves the slot alone.
pub proof fn lemma_send_hands_over_once<T>(v: T, later_slot: Option<T>)
    ensures
        send_poll_spec(Some(v), None) == (None::<T>, Some(v), Poll::<()>::Pending),
        send_poll_spec(None::<T>, later_slot) == (None::<T>, later_slot, Poll::Ready(())),
{
}

/// A send never overwrites an occupied slot: it keeps its value and stays pending.
pub proof fn lemma_send_waits_for_empty_slot<T>(v: T, occupant: T)
    ensures
        send_poll_spec(Some(v), Some(occupant)) == (Some(v), Some(occupant), Poll::<()>::Pending),
{
}

/// Polling the sends that still hold `values`, in order, within one context whose slot holds
/// `out`: what each send holds afterwards, what the slot holds, and each poll's outcome.
pub open spec fn poll_sends<T>(values: Seq<Option<T>>, out: Option<T>) -> (
    Seq<Option<T>>,
    Option<T>,
    Seq<Poll<()>>,
)
    decreases values.len(),
{
    if values.len() == 0 {
        (Seq::empty(), out, Seq::empty())
    } else {
        let (v, o, p) = send_poll_spec(values[0], out);
        let (vs, o2, ps) = poll_sends(values.drop_first(), o);
        (seq![v] + vs, o2, seq![p] + ps)
    }
}

/// Sends polled against an occupied slot all wait: they keep their values, the slot is kept,
/// and every poll is pending.
pub proof fn lemma_sends_wait_for_occupied_slot<T>(values: Seq<Option<T>>, occupant: T)
    requires
        forall|i: int| 0 <= i < values.len() ==> #[trigger] values[i] is Some,
    ensures
        poll_sends(values, Some(occupant)).0 == values,
        poll_sends(values, Some(occupant)).1 == Some(occupant),
        poll_sends(values, Some(occupant)).2 == Seq::new(values.len(), |i: int| Poll::<()>::Pending),
    decreases values.len(),
{
    if values.len() > 0 {
        let tail = values.drop_first();
        assert forall|i: int| 0 <= i < tail.len() implies #[trigger] tail[i] is Some by {
            assert(values[i + 1] is Some);
        }
        lemma_sends_wait_for_occupied_slot(tail, occupant);
        assert(values[0] is Some);
        assert(poll_sends(values, Some(occupant)).0 =~= values);
        assert(poll_sends(values, Some(occupant)).2 =~= Seq::new(
            values.len(),
            |i: int| Poll::<()>::Pending,
        ));
    }
}

/// Within one context whose slot starts empty, the first send polled delivers its value and
/// the later ones stay pending and keep theirs; with no send polled the slot stays empty.
pub proof fn lemma_first_delivery_wins<T>(values: Seq<Option<T>>)
    requires
        forall|i: int| 0 <= i < values.len() ==> #[trigger] values[i] is Some,
    ensures
        values.len() == 0 ==> poll_sends(values, None).1 == None::<T>,
        values.len() > 0 ==> {
            &&& poll_sends(values, None).1 == values[0]
            &&& poll_sends(values, None).0 == seq![None::<T>] + values.drop_first()
            &&& poll_sends(values, None).2 == Seq::new(values.len(), |i: int| Poll::<()>::Pending)
        },
{
    if values.len() > 0 {
        let tail = values.drop_first();
        assert forall|i: int| 0 <= i < tail.len() implies #[trigger] tail[i] is Some by {
            assert(values[i + 1] is Some);
        }
        assert(values[0] is Some);
        let v0 = values[0]->Some_0;
        lemma_sends_wait_for_occupied_slot(tail, v0);
        assert(poll_sends(values, None).2 =~= Seq::new(values.len(), |i: int| Poll::<()>::Pending));
    }
}

} // verus!
