//! The stream behind `stream` and `try_stream`: a generator future that hands items to its
//! stream through a slot, one item per poll.
use core::marker::PhantomData;
use vstd::prelude::*;

use crate::poll::Poll;

verus! {

/// Either `()` or `Result<(), E>`: the output of the generator future. It says how a yielded
/// value becomes an item of the stream, and which item, if any, the stream gives when the
/// generator completes.
pub trait FutureOutput<T>: Sized {
    /// The item type of the containing stream.
    type Item;

    /// The stream item that a yielded value becomes.
    spec fn spec_yield_item(item: T) -> Self::Item;

    /// The last item that the stream gives when the generator completes with this output.
    spec fn spec_into_item(self) -> Option<Self::Item>;

    /// Converts a yielded value into a stream item.
    fn yield_item(item: T) -> (r: Self::Item)
        ensures
            r == Self::spec_yield_item(item),
    ;

    /// The final item, if any, after the generator has completed with this output.
    fn into_item(self) -> (r: Option<Self::Item>)
        ensures
            r == self.spec_into_item(),
    ;
}

impl<T> FutureOutput<T> for () {
    type Item = T;

    open spec fn spec_yield_item(item: T) -> T {
        item
    }

    open spec fn spec_into_item(self) -> Option<T> {
        None
    }

    fn yield_item(item: T) -> (r: T) {
        item
    }

    fn into_item(self) -> (r: Option<T>) {
        None
    }
}

impl<T, E> FutureOutput<T> for Result<(), E> {
    type Item = Result<T, E>;

    open spec fn spec_yield_item(item: T) -> Result<T, E> {
        Ok(item)
    }

    open spec fn spec_into_item(self) -> Option<Result<T, E>> {
        match self {
            Ok(()) => None,
            Err(e) => Some(Err(e)),
        }
    }

    fn yield_item(item: T) -> (r: Result<T, E>) {
        Ok(item)
    }

    fn into_item(self) -> (r: Option<Result<T, E>>) {
        match self {
            Ok(()) => None,
            Err(e) => Some(Err(e)),
        }
    }
}

/// What goes wrong when a generator misuses its `Stream` handle.
pub enum StreamError {
    /// `yield_item` was called while its stream is not being polled.
    OutsideContext,
    /// `yield_item` was called twice within one poll of the stream.
    DoubleYield,
    /// The generator completed while an item it yielded was still waiting to be taken.
    YieldedAsCompleted,
}

impl StreamError {
    /// The message with which this misuse is reported.
    pub fn message(&self) -> (r: &'static str)
        ensures
            r@ == stream_error_message(*self)@,
    {
        match self {
            StreamError::OutsideContext => "called `yield_item` outside of stream context",
            StreamError::DoubleYield => "called `yield_item` twice in the same context",
            StreamError::YieldedAsCompleted => "yielded item as stream completed",
        }
    }
}

/// The message of each misuse.
pub open spec fn stream_error_message(e: StreamError) -> &'static str {
    match e {
        StreamError::OutsideContext => "called `yield_item` outside of stream context",
        StreamError::DoubleYield => "called `yield_item` twice in the same context",
        StreamError::YieldedAsCompleted => "yielded item as stream completed",
    }
}

/// The states of a stream.
pub enum StreamState<F, Fut> {
    /// The stream hasn't started yet (before the first poll); it holds the function that
    /// creates the generator.
    Initial { function: F },
    /// The stream is running its generator future.
    Running { future: Fut },
    /// The stream has completed and only gives `Ready(None)` from now on.
    Complete,
}

/// The stream behind `stream` and `try_stream`.
pub struct AsyncStream<T, F, Fut> {
    state: StreamState<F, Fut>,
    _item: PhantomData<T>,
}

impl<T, F, Fut> View for AsyncStream<T, F, Fut> {
    type V = StreamState<F, Fut>;

    closed spec fn view(&self) -> StreamState<F, Fut> {
        self.state
    }
}

/// What a poll of the stream starts with.
pub enum PollStart<T, F> {
    /// First poll: the stream is now `Complete` until the caller installs the generator that
    /// `function` makes from `stream`, with `set_running`.
    Start { function: F, stream: Stream<T> },
    /// The generator is running: poll it.
    Resume,
    /// The stream has completed: the poll gives `Ready(None)`.
    Finished,
}

/// The state after a poll of a running generator, and what the poll of the stream gives; the
/// generator gave `poll`, and `slot` holds what it yielded during that poll.
pub open spec fn end_poll_spec<T, F, Fut, O: FutureOutput<T>>(
    state: StreamState<F, Fut>,
    poll: Poll<O>,
    slot: Option<T>,
) -> (StreamState<F, Fut>, Result<Poll<Option<O::Item>>, StreamError>) {
    match poll {
        Poll::Ready(output) => (
            StreamState::Complete,
            match slot {
                Some(_) => Err(StreamError::YieldedAsCompleted),
                None => Ok(Poll::Ready(output.spec_into_item())),
            },
        ),
        Poll::Pending => (
            state,
            match slot {
                Some(item) => Ok(Poll::Ready(Some(O::spec_yield_item(item)))),
                None => Ok(Poll::Pending),
            },
        ),
    }
}

/// One poll of a stream that is running or complete: a complete stream gives `Ready(None)`
/// and stays complete; a running one polls its generator, which gives `poll` and leaves `slot`.
pub open spec fn step_spec<T, F, Fut, O: FutureOutput<T>>(
    state: StreamState<F, Fut>,
    poll: Poll<O>,
    slot: Option<T>,
) -> (StreamState<F, Fut>, Result<Poll<Option<O::Item>>, StreamError>) {
    match state {
        StreamState::Running { .. } => end_poll_spec(state, poll, slot),
        _ => (state, Ok(Poll::Ready(None))),
    }
}

/// The state after the first part of a poll, and whether the poll starts the stream (hands
/// out its function): only a stream that has not started is started, and it is complete
/// until its generator is installed.
pub open spec fn begin_poll_spec<F, Fut>(state: StreamState<F, Fut>) -> (StreamState<F, Fut>, bool) {
    match state {
        StreamState::Initial { .. } => (StreamState::Complete, true),
        _ => (state, false),
    }
}

impl<T, F, Fut> AsyncStream<T, F, Fut> {
    /// A stream that has not started: `function` makes its generator on the first poll.
    pub fn new(function: F) -> (r: Self)
        ensures
            r@ == (StreamState::<F, Fut>::Initial { function }),
    {
        AsyncStream { state: StreamState::Initial { function }, _item: PhantomData }
    }

    /// The first part of a poll. On the first poll it hands out the function and the handle,
    /// at the address `addr` of the stream, from which the caller makes the generator.
    pub fn begin_poll(&mut self, addr: usize) -> (r: PollStart<T, F>)
        ensures
            match old(self)@ {
                StreamState::Initial { function } => {
                    &&& final(self)@ is Complete
                    &&& r matches PollStart::Start { function: f, stream } && f == function
                        && stream@ == addr
                },
                StreamState::Running { .. } => final(self)@ == old(self)@ && r is Resume,
                StreamState::Complete => final(self)@ is Complete && r is Finished,
            },
            final(self)@ == begin_poll_spec(old(self)@).0,
            (r is Start) == begin_poll_spec(old(self)@).1,
    {
        // A running generator stays in place: it may have been pinned by an earlier poll.
        let initial = match &self.state {
            StreamState::Initial { .. } => true,
            _ => false,
        };
        if initial {
            let mut old_state = StreamState::Complete;
            core::mem::swap(&mut old_state, &mut self.state);
            match old_state {
                StreamState::Initial { function } => PollStart::Start {
                    function,
                    stream: Stream { addr, _contravariant: PhantomData },
                },
                _ => vstd::pervasive::unreached(),
            }
        } else {
            match &self.state {
                StreamState::Running { .. } => PollStart::Resume,
                _ => PollStart::Finished,
            }
        }
    }

    /// Installs the generator: the stream is now running it.
    pub fn set_running(&mut self, future: Fut)
        ensures
            final(self)@ == (StreamState::<F, Fut>::Running { future }),
    {
        self.state = StreamState::Running { future };
    }

    /// The generator of a running stream, to poll it.
    pub fn future_mut(&mut self) -> (r: &mut Fut)
        requires
            old(self)@ is Running,
        ensures
            *r == old(self)@->future,
            final(self)@ == (StreamState::<F, Fut>::Running { future: *final(r) }),
    {
        match &mut self.state {
            StreamState::Running { future } => future,
            _ => vstd::pervasive::unreached(),
        }
    }

    /// The last part of a poll of a running stream: the generator gave `poll`, and `slot`
    /// holds what it yielded meanwhile. A completed generator completes the stream.
    pub fn end_poll<O: FutureOutput<T>>(&mut self, poll: Poll<O>, slot: Option<T>) -> (r: Result<
        Poll<Option<O::Item>>,
        StreamError,
    >)
        requires
            old(self)@ is Running,
        ensures
            (final(self)@, r) == end_poll_spec(old(self)@, poll, slot),
    {
        match poll {
            Poll::Ready(output) => {
                self.state = StreamState::Complete;
                match slot {
                    Some(_) => Err(StreamError::YieldedAsCompleted),
                    None => Ok(Poll::Ready(output.into_item())),
                }
            },
            Poll::Pending => match slot {
                Some(item) => Ok(Poll::Ready(Some(O::yield_item(item)))),
                None => Ok(Poll::Pending),
            },
        }
    }

    /// Bounds on the number of items left: none once the stream has completed.
    pub fn size_hint(&self) -> (r: (usize, Option<usize>))
        ensures
            r == (if self@ is Complete {
                (0usize, Some(0usize))
            } else {
                (0usize, None)
            }),
    {
        match &self.state {
            StreamState::Complete => (0, Some(0)),
            _ => (0, None),
        }
    }

    /// Whether the stream has completed.
    pub fn is_terminated(&self) -> (r: bool)
        ensures
            r == (self@ is Complete),
    {
        match &self.state {
            StreamState::Complete => true,
            _ => false,
        }
    }
}

/// Creates an asynchronous stream whose generator, made by `function`, yields the items.
pub fn stream<T, F, Fut>(function: F) -> (r: AsyncStream<T, F, Fut>) where
    F: FnOnce(Stream<T>) -> Fut,
    Fut: core::future::Future<Output = ()>,

    ensures
        r@ == (StreamState::<F, Fut>::Initial { function }),
{
    AsyncStream::new(function)
}

/// Creates a fallible asynchronous stream: yielded values become `Ok` items, and an error
/// that ends the generator becomes the last item.
pub fn try_stream<T, E, F, Fut>(function: F) -> (r: AsyncStream<T, F, Fut>) where
    F: FnOnce(Stream<T>) -> Fut,
    Fut: core::future::Future<Output = Result<(), E>>,

    ensures
        r@ == (StreamState::<F, Fut>::Initial { function }),
{
    AsyncStream::new(function)
}

/// The position of the first of `contexts` that is `addr`, or -1 when none is.
pub open spec fn first_index(contexts: Seq<usize>, addr: usize) -> int
    decreases contexts.len(),
{
    if contexts.len() == 0 {
        -1
    } else if contexts[0] == addr {
        0
    } else {
        let rest = first_index(contexts.drop_first(), addr);
        if rest < 0 {
            -1
        } else {
            rest + 1
        }
    }
}

/// `first_index` is the position of the first match, or -1 when there is none.
pub proof fn lemma_first_index(contexts: Seq<usize>, addr: usize)
    ensures
        -1 <= first_index(contexts, addr) < contexts.len(),
        first_index(contexts, addr) >= 0 ==> contexts[first_index(contexts, addr)] == addr,
        forall|j: int| 0 <= j < first_index(contexts, addr) ==> contexts[j] != addr,
        first_index(contexts, addr) == -1 ==> forall|j: int|
            0 <= j < contexts.len() ==> contexts[j] != addr,
    decreases contexts.len(),
{
    if contexts.len() > 0 && contexts[0] != addr {
        let tail = contexts.drop_first();
        lemma_first_index(tail, addr);
        assert forall|j: int| 0 <= j < first_index(contexts, addr) implies contexts[j] != addr by {
            if j > 0 {
                assert(contexts[j] == tail[j - 1]);
            }
        }
        if first_index(contexts, addr) == -1 {
            assert forall|j: int| 0 <= j < contexts.len() implies contexts[j] != addr by {
                if j > 0 {
                    assert(contexts[j] == tail[j - 1]);
                }
            }
        }
    }
}

/// The handle through which a generator yields items to the stream at its address.
pub struct Stream<T> {
    addr: usize,
    _contravariant: PhantomData<T>,
}

impl<T> View for Stream<T> {
    type V = usize;

    closed spec fn view(&self) -> usize {
        self.addr
    }
}

impl<T> Clone for Stream<T> {
    fn clone(&self) -> (r: Self)
        ensures
            r@ == self@,
    {
        Stream { addr: self.addr, _contravariant: PhantomData }
    }
}

impl<T> Stream<T> {
    /// The same handle, at the same address, for items of type `U`.
    pub fn retyped<U>(&self) -> (r: Stream<U>)
        ensures
            r@ == self@,
    {
        Stream { addr: self.addr, _contravariant: PhantomData }
    }

    /// Finds the stream that this handle yields to among the streams being polled, listed
    /// from the innermost to the outermost by their addresses: the innermost one at its address.
    pub fn find_context(&self, contexts: &[usize]) -> (r: Result<usize, StreamError>)
        ensures
            match r {
                Ok(i) => {
                    &&& i < contexts@.len()
                    &&& contexts@[i as int] == self@
                    &&& forall|j: int| 0 <= j < i ==> contexts@[j] != self@
                },
                Err(e) => {
                    &&& e is OutsideContext
                    &&& forall|j: int| 0 <= j < contexts@.len() ==> contexts@[j] != self@
                },
            },
            match r {
                Ok(i) => i == first_index(contexts@, self@),
                Err(_) => first_index(contexts@, self@) == -1,
            },
    {
        proof {
            lemma_first_index(contexts@, self@);
        }
        let mut i: usize = 0;
        while i < contexts.len()
            invariant
                i <= contexts@.len(),
                forall|j: int| 0 <= j < i ==> contexts@[j] != self@,
            decreases contexts@.len() - i,
        {
            if contexts[i] == self.addr {
                proof {
                    lemma_first_index(contexts@, self@);
                }
                return Ok(i);
            }
            i = i + 1;
        }
        Err(StreamError::OutsideContext)
    }

    /// Yields `item` into `slot`, the slot of the stream being polled; the returned future
    /// pends once, so that the stream hands the item out before the generator goes on.
    /// A slot that already holds an item is left as it is.
    pub fn yield_item(&mut self, slot: &mut Option<T>, item: T) -> (r: Result<PendOnce, StreamError>)
        ensures
            final(self)@ == old(self)@,
            match *old(slot) {
                None => *final(slot) == Some(item) && (r matches Ok(p) && !p@),
                Some(_) => *final(slot) == *old(slot) && (r matches Err(e) && e is DoubleYield),
            },
    {
        match slot {
            Some(_) => Err(StreamError::DoubleYield),
            None => {
                *slot = Some(item);
                Ok(PendOnce::new())
            },
        }
    }
}

/// A future that is pending on its first poll and ready from then on.
pub struct PendOnce {
    polled: bool,
}

impl View for PendOnce {
    type V = bool;

    /// Whether it has been polled.
    closed spec fn view(&self) -> bool {
        self.polled
    }
}

impl PendOnce {
    /// A future that has not been polled.
    pub fn new() -> (r: Self)
        ensures
            !r@,
    {
        PendOnce { polled: false }
    }

    /// Pending on the first poll, ready on every later one.
    pub fn poll(&mut self) -> (r: Poll<()>)
        ensures
            final(self)@,
            r == (if old(self)@ {
                Poll::Ready(())
            } else {
                Poll::<()>::Pending
            }),
    {
        if self.polled {
            Poll::Ready(())
        } else {
            self.polled = true;
            Poll::Pending
        }
    }
}

/// The outputs of successive polls of a stream that starts in `state`, where the generator's
/// polls give `events`: each event is what the generator gave and what it left in the slot.
/// A poll of a complete stream does not poll the generator, and uses up its event unread.
pub open spec fn drive<T, F, Fut, O: FutureOutput<T>>(
    state: StreamState<F, Fut>,
    events: Seq<(Poll<O>, Option<T>)>,
) -> Seq<Result<Poll<Option<O::Item>>, StreamError>>
    decreases events.len(),
{
    if events.len() == 0 {
        Seq::empty()
    } else {
        let (next, out) = step_spec(state, events[0].0, events[0].1);
        seq![out] + drive(next, events.drop_first())
    }
}

/// What a poll of a running stream gives when its generator is still pending and has left
/// `slot`.
pub open spec fn pending_output<T, O: FutureOutput<T>>(slot: Option<T>) -> Result<
    Poll<Option<O::Item>>,
    StreamError,
> {
    match slot {
        Some(item) => Ok(Poll::Ready(Some(O::spec_yield_item(item)))),
        None => Ok(Poll::Pending),
    }
}

/// The events of generator polls that are pending and leave the slots `slots`.
pub open spec fn pending_events<T, O>(slots: Seq<Option<T>>) -> Seq<(Poll<O>, Option<T>)> {
    slots.map_values(|slot: Option<T>| (Poll::<O>::Pending, slot))
}

/// A complete stream is fused: every later poll gives `Ready(None)`.
pub proof fn lemma_complete_is_fused<T, F, Fut, O: FutureOutput<T>>(
    events: Seq<(Poll<O>, Option<T>)>,
)
    ensures
        drive(StreamState::<F, Fut>::Complete, events) == Seq::new(
            events.len(),
            |i: int| Ok::<Poll<Option<O::Item>>, StreamError>(Poll::Ready(None)),
        ),
    decreases events.len(),
{
    if events.len() > 0 {
        lemma_complete_is_fused::<T, F, Fut, O>(events.drop_first());
        assert(drive(StreamState::<F, Fut>::Complete, events) =~= Seq::new(
            events.len(),
            |i: int| Ok::<Poll<Option<O::Item>>, StreamError>(Poll::Ready(None)),
        ));
    } else {
        assert(drive(StreamState::<F, Fut>::Complete, events) =~= Seq::new(
            events.len(),
            |i: int| Ok::<Poll<Option<O::Item>>, StreamError>(Poll::Ready(None)),
        ));
    }
}

/// A running stream gives, in order, each item that its generator yields, on the poll in
/// which it was yielded (and `Pending` on a poll in which nothing was yielded); when the
/// generator completes, the stream gives the final item of its output, and `Ready(None)`
/// on every poll after that.
pub proof fn lemma_stream_gives_yielded_items_in_order<T, F, Fut, O: FutureOutput<T>>(
    future: Fut,
    slots: Seq<Option<T>>,
    output: O,
    rest: Seq<(Poll<O>, Option<T>)>,
)
    ensures
        drive(
            StreamState::<F, Fut>::Running { future },
            pending_events::<T, O>(slots) + seq![(Poll::Ready(output), None::<T>)] + rest,
        ) == slots.map_values(|slot: Option<T>| pending_output::<T, O>(slot)) + seq![
            Ok::<Poll<Option<O::Item>>, StreamError>(Poll::Ready(output.spec_into_item())),
        ] + Seq::new(
            rest.len(),
            |i: int| Ok::<Poll<Option<O::Item>>, StreamError>(Poll::Ready(None)),
        ),
    decreases slots.len(),
{
    let running = StreamState::<F, Fut>::Running { future };
    let events = pending_events::<T, O>(slots) + seq![(Poll::Ready(output), None::<T>)] + rest;
    if slots.len() == 0 {
        assert(events.drop_first() =~= rest);
        lemma_complete_is_fused::<T, F, Fut, O>(rest);
        assert(drive(running, events) =~= slots.map_values(
            |slot: Option<T>| pending_output::<T, O>(slot),
        ) + seq![Ok::<Poll<Option<O::Item>>, StreamError>(Poll::Ready(output.spec_into_item()))]
            + Seq::new(
            rest.len(),
            |i: int| Ok::<Poll<Option<O::Item>>, StreamError>(Poll::Ready(None)),
        ));
    } else {
        let tail = slots.drop_first();
        lemma_stream_gives_yielded_items_in_order::<T, F, Fut, O>(future, tail, output, rest);
        assert(events.drop_first() =~= pending_events::<T, O>(tail) + seq![
            (Poll::Ready(output), None::<T>),
        ] + rest);
        assert(events[0] == (Poll::<O>::Pending, slots[0]));
        assert(drive(running, events) =~= slots.map_values(
            |slot: Option<T>| pending_output::<T, O>(slot),
        ) + seq![Ok::<Poll<Option<O::Item>>, StreamError>(Poll::Ready(output.spec_into_item()))]
            + Seq::new(
            rest.len(),
            |i: int| Ok::<Poll<Option<O::Item>>, StreamError>(Poll::Ready(None)),
        ));
    }
}

/// A fallible stream gives each yielded value as `Ok`, then the error that ended its
/// generator as its last item, and nothing after that.
pub proof fn lemma_try_stream_ends_with_its_error<T, E, F, Fut>(
    future: Fut,
    items: Seq<T>,
    error: E,
    rest: Seq<(Poll<Result<(), E>>, Option<T>)>,
)
    ensures
        drive(
            StreamState::<F, Fut>::Running { future },
            pending_events::<T, Result<(), E>>(items.map_values(|x: T| Some(x))) + seq![
                (Poll::Ready(Err(error)), None::<T>),
            ] + rest,
        ) == items.map_values(
            |x: T| Ok::<Poll<Option<Result<T, E>>>, StreamError>(Poll::Ready(Some(Ok(x)))),
        ) + seq![Ok::<Poll<Option<Result<T, E>>>, StreamError>(Poll::Ready(Some(Err(error))))]
            + Seq::new(
            rest.len(),
            |i: int| Ok::<Poll<Option<Result<T, E>>>, StreamError>(Poll::Ready(None)),
        ),
{
    let slots = items.map_values(|x: T| Some(x));
    lemma_stream_gives_yielded_items_in_order::<T, F, Fut, Result<(), E>>(
        future,
        slots,
        Err(error),
        rest,
    );
    assert(slots.map_values(|slot: Option<T>| pending_output::<T, Result<(), E>>(slot))
        =~= items.map_values(
        |x: T| Ok::<Poll<Option<Result<T, E>>>, StreamError>(Poll::Ready(Some(Ok(x)))),
    ));
}

/// The state of a stream that starts in `state` after polls whose generator events are
/// `events`.
pub open spec fn settle<T, F, Fut, O: FutureOutput<T>>(
    state: StreamState<F, Fut>,
    events: Seq<(Poll<O>, Option<T>)>,
) -> StreamState<F, Fut>
    decreases events.len(),
{
    if events.len() == 0 {
        state
    } else {
        settle(step_spec(state, events[0].0, events[0].1).0, events.drop_first())
    }
}

/// A running stream has terminated after some polls exactly when its generator completed in
/// one of them; until then it runs the same generator.
pub proof fn lemma_terminated_iff_generator_completed<T, F, Fut, O: FutureOutput<T>>(
    future: Fut,
    events: Seq<(Poll<O>, Option<T>)>,
)
    ensures
        settle(StreamState::<F, Fut>::Running { future }, events) is Complete <==> exists|i: int|
            0 <= i < events.len() && #[trigger] events[i].0 is Ready,
        !(settle(StreamState::<F, Fut>::Running { future }, events) is Complete) ==> settle(
            StreamState::<F, Fut>::Running { future },
            events,
        ) == (StreamState::<F, Fut>::Running { future }),
    decreases events.len(),
{
    let running = StreamState::<F, Fut>::Running { future };
    if events.len() > 0 {
        let tail = events.drop_first();
        if events[0].0 is Ready {
            lemma_complete_stays_complete::<T, F, Fut, O>(tail);
        } else {
            lemma_terminated_iff_generator_completed::<T, F, Fut, O>(future, tail);
            if exists|i: int| 0 <= i < events.len() && #[trigger] events[i].0 is Ready {
                let i = choose|i: int| 0 <= i < events.len() && #[trigger] events[i].0 is Ready;
                assert(tail[i - 1].0 is Ready);
            }
            if exists|i: int| 0 <= i < tail.len() && #[trigger] tail[i].0 is Ready {
                let i = choose|i: int| 0 <= i < tail.len() && #[trigger] tail[i].0 is Ready;
                assert(events[i + 1].0 is Ready);
            }
        }
    }
}

/// A complete stream stays complete, whatever its later polls are.
pub proof fn lemma_complete_stays_complete<T, F, Fut, O: FutureOutput<T>>(
    events: Seq<(Poll<O>, Option<T>)>,
)
    ensures
        settle(StreamState::<F, Fut>::Complete, events) is Complete,
    decreases events.len(),
{
    if events.len() > 0 {
        lemma_complete_stays_complete::<T, F, Fut, O>(events.drop_first());
    }
}

/// One output for each poll.
pub proof fn lemma_drive_len<T, F, Fut, O: FutureOutput<T>>(
    state: StreamState<F, Fut>,
    events: Seq<(Poll<O>, Option<T>)>,
)
    ensures
        drive(state, events).len() == events.len(),
    decreases events.len(),
{
    if events.len() > 0 {
        lemma_drive_len::<T, F, Fut, O>(
            step_spec(state, events[0].0, events[0].1).0,
            events.drop_first(),
        );
    }
}

/// A poll that gives `Ready(None)` or a misuse error leaves the stream terminated: before the
/// generator completes, every poll gives an item or `Pending`.
pub proof fn lemma_end_of_stream_means_terminated<T, F, Fut, O: FutureOutput<T>>(
    state: StreamState<F, Fut>,
    events: Seq<(Poll<O>, Option<T>)>,
    i: int,
)
    requires
        !(state is Initial),
        0 <= i < events.len(),
        drive(state, events)[i] == Ok::<Poll<Option<O::Item>>, StreamError>(Poll::Ready(None))
            || drive(state, events)[i] is Err,
    ensures
        settle(state, events.take(i + 1)) is Complete,
    decreases i,
{
    let next = step_spec(state, events[0].0, events[0].1).0;
    assert(events.take(i + 1).drop_first() =~= events.drop_first().take(i));
    assert(events.take(i + 1)[0] == events[0]);
    lemma_drive_len::<T, F, Fut, O>(next, events.drop_first());
    if i == 0 {
        assert(drive(state, events)[0] == step_spec(state, events[0].0, events[0].1).1);
        assert(events.drop_first().take(0) =~= Seq::<(Poll<O>, Option<T>)>::empty());
        if state is Running && events[0].0 is Pending {
            assert(step_spec(state, events[0].0, events[0].1).1 == pending_output::<T, O>(
                events[0].1,
            ));
            assert(false);
        }
        assert(next is Complete);
        assert(settle(state, events.take(1)) == settle(next, events.take(1).drop_first()));
    } else {
        lemma_drive_len::<T, F, Fut, O>(next, events.drop_first());
        assert(drive(state, events)[i] == drive(next, events.drop_first())[i - 1]);
        lemma_end_of_stream_means_terminated::<T, F, Fut, O>(next, events.drop_first(), i - 1);
        assert(settle(state, events.take(i + 1)) == settle(
            next,
            events.take(i + 1).drop_first(),
        ));
    }
}

/// The poll in which the generator first completes gives the final outcome of the stream:
/// its final item, or the error of an item yielded as it completed; every poll before it
/// gives the item yielded in it, or `Pending`.
pub proof fn lemma_completing_poll_gives_final_outcome<T, F, Fut, O: FutureOutput<T>>(
    future: Fut,
    events: Seq<(Poll<O>, Option<T>)>,
    k: int,
)
    requires
        0 <= k < events.len(),
        events[k].0 is Ready,
        forall|j: int| 0 <= j < k ==> #[trigger] events[j].0 is Pending,
    ensures
        drive(StreamState::<F, Fut>::Running { future }, events)[k] == end_poll_spec(
            StreamState::<F, Fut>::Running { future },
            events[k].0,
            events[k].1,
        ).1,
        forall|j: int|
            0 <= j < k ==> drive(StreamState::<F, Fut>::Running { future }, events)[j]
                == pending_output::<T, O>(#[trigger] events[j].1),
    decreases k,
{
    let running = StreamState::<F, Fut>::Running { future };
    if k > 0 {
        let tail = events.drop_first();
        assert(events[0].0 is Pending);
        assert forall|j: int| 0 <= j < k - 1 implies #[trigger] tail[j].0 is Pending by {
            assert(events[j + 1].0 is Pending);
        }
        lemma_completing_poll_gives_final_outcome::<T, F, Fut, O>(future, tail, k - 1);
        lemma_drive_len::<T, F, Fut, O>(running, tail);
        assert(drive(running, events)[k] == drive(running, tail)[k - 1]);
        assert forall|j: int| 0 <= j < k implies drive(running, events)[j] == pending_output::<
            T,
            O,
        >(#[trigger] events[j].1) by {
            if j > 0 {
                assert(drive(running, events)[j] == drive(running, tail)[j - 1]);
                assert(tail[j - 1] == events[j]);
            }
        }
    }
}

/// One whole poll of a stream in `state`: a stream that has not started is started, running
/// the generator `generator` that its function makes; a running stream then polls its
/// generator, which gives `poll` and leaves `slot`; a complete one gives `Ready(None)`. The
/// state after the poll, whether the poll started the stream, and what the poll gives.
pub open spec fn poll_spec<T, F, Fut, O: FutureOutput<T>>(
    state: StreamState<F, Fut>,
    generator: Fut,
    poll: Poll<O>,
    slot: Option<T>,
) -> (StreamState<F, Fut>, bool, Result<Poll<Option<O::Item>>, StreamError>) {
    let (begun, starts) = begin_poll_spec(state);
    let running = if starts {
        StreamState::Running { future: generator }
    } else {
        begun
    };
    let (next, out) = step_spec(running, poll, slot);
    (next, starts, out)
}

/// Whether each of successive whole polls of a stream in `state` starts the stream; each
/// event gives the generator that the function would make, and the generator's poll.
pub open spec fn starts_of<T, F, Fut, O: FutureOutput<T>>(
    state: StreamState<F, Fut>,
    events: Seq<(Fut, Poll<O>, Option<T>)>,
) -> Seq<bool>
    decreases events.len(),
{
    if events.len() == 0 {
        Seq::empty()
    } else {
        let (next, starts, _) = poll_spec(state, events[0].0, events[0].1, events[0].2);
        seq![starts] + starts_of(next, events.drop_first())
    }
}

/// The function of a stream is called exactly once, on its first poll: a poll starts the
/// stream exactly when it is the first poll of a stream that has not started.
pub proof fn lemma_function_called_only_on_first_poll<T, F, Fut, O: FutureOutput<T>>(
    state: StreamState<F, Fut>,
    events: Seq<(Fut, Poll<O>, Option<T>)>,
)
    ensures
        starts_of(state, events).len() == events.len(),
        forall|i: int|
            0 <= i < events.len() ==> (#[trigger] starts_of(state, events)[i] <==> (i == 0
                && state is Initial)),
    decreases events.len(),
{
    if events.len() > 0 {
        let next = poll_spec(state, events[0].0, events[0].1, events[0].2).0;
        assert(!(next is Initial));
        lemma_function_called_only_on_first_poll::<T, F, Fut, O>(next, events.drop_first());
        assert forall|i: int| 0 <= i < events.len() implies (#[trigger] starts_of(state, events)[i]
            <==> (i == 0 && state is Initial)) by {
            if i > 0 {
                assert(starts_of(state, events)[i] == starts_of(next, events.drop_first())[i - 1]);
            }
        }
    }
}

/// A poll of a terminated stream gives `Ready(None)`, neither calls its function nor polls a
/// generator, and leaves it terminated.
pub proof fn lemma_terminated_poll_gives_none<T, F, Fut, O: FutureOutput<T>>(
    generator: Fut,
    poll: Poll<O>,
    slot: Option<T>,
)
    ensures
        poll_spec(StreamState::<F, Fut>::Complete, generator, poll, slot) == (
            StreamState::<F, Fut>::Complete,
            false,
            Ok::<Poll<Option<O::Item>>, StreamError>(Poll::Ready(None)),
        ),
{
}

/// A running stream is terminated after some polls exactly when one of them gave the final
/// outcome of its generator (its final item, `Ready(None)` when there is none, or the error
/// of an item yielded as it completed); a poll that gives `Ready(None)` or an error leaves
/// it terminated; and once terminated, every later poll gives `Ready(None)`.
pub proof fn lemma_termination_history<T, F, Fut, O: FutureOutput<T>>(
    future: Fut,
    events: Seq<(Poll<O>, Option<T>)>,
)
    ensures
        settle(StreamState::<F, Fut>::Running { future }, events) is Complete <==> exists|i: int|
            0 <= i < events.len() && #[trigger] events[i].0 is Ready && drive(
                StreamState::<F, Fut>::Running { future },
                events,
            )[i] == end_poll_spec(
                StreamState::<F, Fut>::Running { future },
                events[i].0,
                events[i].1,
            ).1,
        forall|i: int|
            0 <= i < events.len() && (#[trigger] drive(
                StreamState::<F, Fut>::Running { future },
                events,
            )[i] == Ok::<Poll<Option<O::Item>>, StreamError>(Poll::Ready(None)) || drive(
                StreamState::<F, Fut>::Running { future },
                events,
            )[i] is Err) ==> settle(
                StreamState::<F, Fut>::Running { future },
                events.take(i + 1),
            ) is Complete,
        settle(StreamState::<F, Fut>::Running { future }, events) is Complete ==> forall|
            more: Seq<(Poll<O>, Option<T>)>,
        |
            #[trigger] drive(settle(StreamState::<F, Fut>::Running { future }, events), more)
                == Seq::new(
                more.len(),
                |j: int| Ok::<Poll<Option<O::Item>>, StreamError>(Poll::Ready(None)),
            ),
    decreases events.len(),
{
    let running = StreamState::<F, Fut>::Running { future };
    assert forall|i: int|
        0 <= i < events.len() && (#[trigger] drive(running, events)[i] == Ok::<
            Poll<Option<O::Item>>,
            StreamError,
        >(Poll::Ready(None)) || drive(running, events)[i] is Err) implies settle(
        running,
        events.take(i + 1),
    ) is Complete by {
        lemma_end_of_stream_means_terminated::<T, F, Fut, O>(running, events, i);
    }
    if settle(running, events) is Complete {
        lemma_terminated_iff_generator_completed::<T, F, Fut, O>(future, events);
        assert(settle(running, events) == StreamState::<F, Fut>::Complete);
        assert forall|more: Seq<(Poll<O>, Option<T>)>| #[trigger] drive(
            settle(running, events),
            more,
        ) == Seq::new(
            more.len(),
            |j: int| Ok::<Poll<Option<O::Item>>, StreamError>(Poll::Ready(None)),
        ) by {
            lemma_complete_is_fused::<T, F, Fut, O>(more);
        }
    }
    if events.len() > 0 {
        let tail = events.drop_first();
        lemma_drive_len::<T, F, Fut, O>(running, tail);
        if events[0].0 is Ready {
            lemma_complete_stays_complete::<T, F, Fut, O>(tail);
            assert(drive(running, events)[0] == end_poll_spec(running, events[0].0, events[0].1).1);
        } else {
            lemma_termination_history::<T, F, Fut, O>(future, tail);
            if exists|i: int|
                0 <= i < events.len() && #[trigger] events[i].0 is Ready && drive(running, events)[i]
                    == end_poll_spec(running, events[i].0, events[i].1).1 {
                let i = choose|i: int|
                    0 <= i < events.len() && #[trigger] events[i].0 is Ready && drive(
                        running,
                        events,
                    )[i] == end_poll_spec(running, events[i].0, events[i].1).1;
                assert(i > 0);
                assert(tail[i - 1] == events[i]);
                assert(drive(running, events)[i] == drive(running, tail)[i - 1]);
                assert(tail[i - 1].0 is Ready);
            }
            if exists|i: int|
                0 <= i < tail.len() && #[trigger] tail[i].0 is Ready && drive(running, tail)[i]
                    == end_poll_spec(running, tail[i].0, tail[i].1).1 {
                let i = choose|i: int|
                    0 <= i < tail.len() && #[trigger] tail[i].0 is Ready && drive(running, tail)[i]
                        == end_poll_spec(running, tail[i].0, tail[i].1).1;
                assert(events[i + 1] == tail[i]);
                assert(drive(running, events)[i + 1] == drive(running, tail)[i]);
                assert(events[i + 1].0 is Ready);
            }
        }
    }
}

/// Among nested streams being polled, listed from the innermost to the outermost by their
/// addresses, an item yielded through a handle reaches the innermost stream at the handle's
/// address: that stream's poll gives it, while the other streams, whose slots stay empty,
/// give `Pending`.
pub proof fn lemma_yield_reaches_innermost_stream<T, F, Fut, O: FutureOutput<T>>(
    contexts: Seq<usize>,
    addr: usize,
    futures: Seq<Fut>,
    item: T,
)
    requires
        first_index(contexts, addr) >= 0,
        futures.len() == contexts.len(),
    ensures
        contexts[first_index(contexts, addr)] == addr,
        forall|j: int| 0 <= j < first_index(contexts, addr) ==> contexts[j] != addr,
        end_poll_spec(
            StreamState::<F, Fut>::Running { future: futures[first_index(contexts, addr)] },
            Poll::<O>::Pending,
            Some(item),
        ).1 == Ok::<Poll<Option<O::Item>>, StreamError>(
            Poll::Ready(Some(O::spec_yield_item(item))),
        ),
        forall|k: int|
            0 <= k < contexts.len() && k != first_index(contexts, addr) ==> end_poll_spec(
                StreamState::<F, Fut>::Running { future: #[trigger] futures[k] },
                Poll::<O>::Pending,
                None::<T>,
            ).1 == Ok::<Poll<Option<O::Item>>, StreamError>(Poll::Pending),
{
    lemma_first_index(contexts, addr);
}

} // verus!
