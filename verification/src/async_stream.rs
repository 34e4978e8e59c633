//! A stream whose generator sends its items through a `Sender` into the stream's cell of the
//! last yielded item; the stream takes that item after each poll of the generator.
use core::marker::PhantomData;
use vstd::prelude::*;

use crate::poll::Poll;

verus! {

/// An initialized stream.
pub struct Init<Fut> {
    /// The generator; `None` only between initialization and its installation.
    pub generator: Option<Fut>,
    /// Whether the generator is done.
    pub done: bool,
}

/// The state of the stream.
pub enum State<F, Fut> {
    /// Not initialized yet: holds the function that makes the generator.
    Uninit(F),
    /// Initialized.
    Init(Init<Fut>),
}

/// A stream driven by the generator that its function makes from a `Sender`.
pub struct AsyncStream<T, F, Fut> {
    state: State<F, Fut>,
    _item: PhantomData<T>,
}

impl<T, F, Fut> View for AsyncStream<T, F, Fut> {
    type V = State<F, Fut>;

    closed spec fn view(&self) -> State<F, Fut> {
        self.state
    }
}

/// What a poll of the stream starts with.
pub enum Begin<T, F> {
    /// First poll: the stream is now initialized, and the caller installs the generator that
    /// `function` makes from `sender` with `install_generator`, then polls it.
    Initialize { function: F, sender: Sender<T> },
    /// The generator is running: poll it.
    Resume,
    /// The generator is done: the poll gives `Ready(None)`.
    Finished,
}

/// The state after a poll of the generator, which gave `res` and sent `yielded` meanwhile,
/// and what the poll of the stream gives.
pub open spec fn end_poll_spec<F, Fut, T>(state: State<F, Fut>, res: Poll<()>, yielded: Option<T>) -> (
    State<F, Fut>,
    Poll<Option<T>>,
) {
    match state {
        State::Init(init) => (
            State::Init(Init { generator: init.generator, done: init.done || res is Ready }),
            match yielded {
                Some(y) => Poll::Ready(Some(y)),
                None => match res {
                    Poll::Ready(()) => Poll::Ready(None),
                    Poll::Pending => Poll::Pending,
                },
            },
        ),
        State::Uninit(_) => (state, Poll::Pending),
    }
}

/// One poll of an initialized stream: a done stream gives `Ready(None)`; otherwise the
/// generator is polled, gives `res`, and has sent `yielded`.
pub open spec fn step_spec<F, Fut, T>(state: State<F, Fut>, res: Poll<()>, yielded: Option<T>) -> (
    State<F, Fut>,
    Poll<Option<T>>,
) {
    match state {
        State::Init(init) => if init.done {
            (state, Poll::Ready(None))
        } else {
            end_poll_spec(state, res, yielded)
        },
        State::Uninit(_) => (state, Poll::Pending),
    }
}

/// The outputs of successive polls of an initialized stream in `state`, where the polls of the
/// generator give `events` (what it gave and what it sent). A poll of a done stream does not
/// poll the generator and uses up its event unread.
pub open spec fn drive<F, Fut, T>(state: State<F, Fut>, events: Seq<(Poll<()>, Option<T>)>) -> Seq<
    Poll<Option<T>>,
>
    decreases events.len(),
{
    if events.len() == 0 {
        Seq::empty()
    } else {
        let (next, out) = step_spec(state, events[0].0, events[0].1);
        seq![out] + drive(next, events.drop_first())
    }
}

impl<T, F, Fut> AsyncStream<T, F, Fut> {
    /// A stream that is not initialized: `f` makes its generator on the first poll.
    pub fn new(f: F) -> (r: Self)
        ensures
            r@ == State::<F, Fut>::Uninit(f),
    {
        AsyncStream { state: State::Uninit(f), _item: PhantomData }
    }

    /// Whether the stream has ended.
    pub fn is_terminated(&self) -> (r: bool)
        ensures
            r == (self@ matches State::Init(init) && init.done),
    {
        match &self.state {
            State::Uninit(_) => false,
            State::Init(init) => init.done,
        }
    }

    /// The first part of a poll: initializes the stream on the first poll.
    pub fn begin_poll(&mut self) -> (r: Begin<T, F>)
        ensures
            match old(self)@ {
                State::Uninit(f) => {
                    &&& final(self)@ == State::<F, Fut>::Init(Init { generator: None, done: false })
                    &&& r matches Begin::Initialize { function, .. } && function == f
                },
                State::Init(init) => {
                    &&& final(self)@ == old(self)@
                    &&& if init.done {
                        r is Finished
                    } else {
                        r is Resume
                    }
                },
            },
    {
        // An installed generator stays in place: it may have been pinned by an earlier poll.
        match &self.state {
            State::Init(init) => {
                if init.done {
                    return Begin::Finished;
                } else {
                    return Begin::Resume;
                }
            },
            State::Uninit(_) => {},
        }
        let mut old_state = State::Init(Init { generator: None, done: false });
        core::mem::swap(&mut old_state, &mut self.state);
        match old_state {
            State::Uninit(f) => Begin::Initialize { function: f, sender: Sender { _p: PhantomData } },
            State::Init(_) => vstd::pervasive::unreached(),
        }
    }

    /// The installed generator, if any, to look at.
    pub fn generator(&self) -> (r: Option<&Fut>)
        ensures
            r == match self@ {
                State::Init(init) => match init.generator {
                    Some(g) => Some(&g),
                    None => None,
                },
                State::Uninit(_) => None::<&Fut>,
            },
    {
        match &self.state {
            State::Init(init) => match &init.generator {
                Some(g) => Some(g),
                None => None,
            },
            State::Uninit(_) => None,
        }
    }

    /// Installs the generator of an initialized stream.
    pub fn install_generator(&mut self, generator: Fut)
        requires
            old(self)@ is Init,
        ensures
            final(self)@ == State::<F, Fut>::Init(
                Init { generator: Some(generator), done: old(self)@->Init_0.done },
            ),
    {
        match &mut self.state {
            State::Init(init) => {
                init.generator = Some(generator);
            },
            State::Uninit(_) => vstd::pervasive::unreached(),
        }
    }

    /// The installed generator, to poll it.
    pub fn generator_mut(&mut self) -> (r: &mut Fut)
        requires
            old(self)@ matches State::Init(init) && init.generator is Some,
        ensures
            *r == old(self)@->Init_0.generator->Some_0,
            final(self)@ == State::<F, Fut>::Init(
                Init { generator: Some(*final(r)), done: old(self)@->Init_0.done },
            ),
    {
        match &mut self.state {
            State::Init(init) => match &mut init.generator {
                Some(g) => g,
                None => vstd::pervasive::unreached(),
            },
            State::Uninit(_) => vstd::pervasive::unreached(),
        }
    }

    /// The last part of a poll: the generator gave `res` and sent `yielded`. A ready
    /// generator is done; a sent item is given out first.
    pub fn end_poll(&mut self, res: Poll<()>, yielded: Option<T>) -> (r: Poll<Option<T>>)
        requires
            old(self)@ is Init,
        ensures
            (final(self)@, r) == end_poll_spec(old(self)@, res, yielded),
    {
        let ready = res.is_ready();
        match &mut self.state {
            State::Init(init) => {
                if ready {
                    init.done = true;
                }
            },
            State::Uninit(_) => vstd::pervasive::unreached(),
        }
        match yielded {
            Some(y) => Poll::Ready(Some(y)),
            None => match res {
                Poll::Ready(()) => Poll::Ready(None),
                Poll::Pending => Poll::Pending,
            },
        }
    }
}

/// The sending half through which the generator gives its items.
pub struct Sender<T> {
    _p: PhantomData<T>,
}

impl<T> Sender<T> {
    /// Puts `value` into `yielded`, the stream's cell of the last yielded item, replacing
    /// what it held; the returned future pends once so that the stream hands the value out.
    pub fn send(&mut self, yielded: &mut Option<T>, value: T) -> (r: SendFut)
        ensures
            *final(yielded) == Some(value),
            !r@,
    {
        *yielded = Some(value);
        SendFut { yielded: false }
    }
}

/// A future that is pending on its first poll and ready from then on.
pub struct SendFut {
    yielded: bool,
}

impl View for SendFut {
    type V = bool;

    /// Whether it has been polled.
    closed spec fn view(&self) -> bool {
        self.yielded
    }
}

impl SendFut {
    /// Pending on the first poll, ready on every later one.
    pub fn poll(&mut self) -> (r: Poll<()>)
        ensures
            final(self)@,
            r == (if old(self)@ {
                Poll::Ready(())
            } else {
                Poll::<()>::Pending
            }),
    {
        if self.yielded {
            Poll::Ready(())
        } else {
            self.yielded = true;
            Poll::Pending
        }
    }
}

/// The events of generator polls that are pending and send `sent`.
pub open spec fn pending_events<T>(sent: Seq<Option<T>>) -> Seq<(Poll<()>, Option<T>)> {
    sent.map_values(|s: Option<T>| (Poll::<()>::Pending, s))
}

/// What a poll gives when the generator is pending and has sent `sent`.
pub open spec fn pending_output<T>(sent: Option<T>) -> Poll<Option<T>> {
    match sent {
        Some(y) => Poll::Ready(Some(y)),
        None => Poll::Pending,
    }
}

/// A done stream is fused: every later poll gives `Ready(None)`.
pub proof fn lemma_done_is_fused<F, Fut, T>(generator: Option<Fut>, events: Seq<(Poll<()>, Option<T>)>)
    ensures
        drive(State::<F, Fut>::Init(Init { generator, done: true }), events) == Seq::new(
            events.len(),
            |i: int| Poll::<Option<T>>::Ready(None),
        ),
    decreases events.len(),
{
    if events.len() > 0 {
        lemma_done_is_fused::<F, Fut, T>(generator, events.drop_first());
    }
    assert(drive(State::<F, Fut>::Init(Init { generator, done: true }), events) =~= Seq::new(
        events.len(),
        |i: int| Poll::<Option<T>>::Ready(None),
    ));
}

/// A running stream gives each item that its generator sends, on the poll in which it was
/// sent, in order; the poll in which the generator completes gives the item sent in that poll,
/// if any, or else `Ready(None)`; every later poll gives `Ready(None)`.
pub proof fn lemma_stream_gives_sent_items_in_order<F, Fut, T>(
    generator: Option<Fut>,
    sent: Seq<Option<T>>,
    last: Option<T>,
    rest: Seq<(Poll<()>, Option<T>)>,
)
    ensures
        drive(
            State::<F, Fut>::Init(Init { generator, done: false }),
            pending_events(sent) + seq![(Poll::Ready(()), last)] + rest,
        ) == sent.map_values(|s: Option<T>| pending_output(s)) + seq![Poll::Ready(last)]
            + Seq::new(rest.len(), |i: int| Poll::<Option<T>>::Ready(None)),
    decreases sent.len(),
{
    let running = State::<F, Fut>::Init(Init { generator, done: false });
    let events = pending_events(sent) + seq![(Poll::Ready(()), last)] + rest;
    lemma_done_is_fused::<F, Fut, T>(generator, rest);
    if sent.len() == 0 {
        assert(events.drop_first() =~= rest);
    } else {
        let tail = sent.drop_first();
        lemma_stream_gives_sent_items_in_order::<F, Fut, T>(generator, tail, last, rest);
        assert(events.drop_first() =~= pending_events(tail) + seq![(Poll::Ready(()), last)] + rest);
        assert(events[0] == (Poll::<()>::Pending, sent[0]));
    }
    assert(drive(running, events) =~= sent.map_values(|s: Option<T>| pending_output(s)) + seq![
        Poll::Ready(last),
    ] + Seq::new(rest.len(), |i: int| Poll::<Option<T>>::Ready(None)));
}

} // verus!
