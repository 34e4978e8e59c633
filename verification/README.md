# async-stream

Asynchronous streams of elements written as generator futures, with the logic proved in Verus.

- `src/` is the verified library: the state machines of the streams (`functions`, the
  stream behind `stream` and `try_stream`; `async_stream`, the stream fed through a
  `Sender`), the search for the stream a generator yields to, the channel of `yielder`,
  and the expansion of the `stream!` and `try_stream!` macros over token trees (`tokens`,
  `scrub`, `expand`). Each module states its laws as proof functions: a running stream gives
  the items of its generator in order, then its final item, and is fused after that.
- `app/` is the runtime around it: the `Future` and `futures_core::Stream` implementations,
  pinning, the thread-local list of streams being polled, the waker plumbing, and the
  conversion between `proc_macro2` tokens and the library's token trees.
- `tests/` drives the library's state machines through the scenarios of the streams.
