//! Channel traffic: sending messages across a channel once its connection has
//! been established by a handshake.
//!
//! The encoder wraps what is sent and hangs the channel up in the end, so that
//! its connection can return to a pool. The decoder unwraps what arrives and
//! gives the connection up for another channel when the other end hangs up.
//! Neither touches a connection: each step takes the outcome of the last
//! operation on one, and says what comes next.
use vstd::prelude::*;

verus! {

/// The outcome of an operation that may have to be tried again later.
#[derive(Clone, Copy, Debug, PartialEq, Eq)]
pub enum Async<T> {
    /// The operation has completed.
    Ready(T),
    /// The operation has to be tried again later.
    NotReady,
}

/// The outcome of offering an item to a sink.
#[derive(Clone, Copy, Debug, PartialEq, Eq)]
pub enum AsyncSink<T> {
    /// The sink has taken the item.
    Ready,
    /// The sink has no room, and hands the item back.
    NotReady(T),
}

/// What a channel connection carries, one to a frame.
#[derive(Clone, Copy, Debug, PartialEq, Eq)]
pub enum Message<D> {
    /// An item that was sent over the channel.
    Data(D),
    /// The end of the channel. The connection may carry another one.
    Hangup,
}

/// The sending end of a channel: a sink of messages (`S`), and the pool (`P`)
/// that its connection goes to in the end, if there is one.
pub struct Encoder<S, P> {
    inner: Option<S>,
    hangup_started: bool,
    pool: Option<P>,
}

/// The state of an [`Encoder`].
pub struct EncoderState<S, P> {
    /// The sink, until the channel is closed.
    pub inner: Option<S>,
    /// Whether the sink has taken the message that ends the channel.
    pub hangup_started: bool,
    /// The pool that the connection goes to in the end.
    pub pool: Option<P>,
}

/// What happened to an encoder that is being closed.
pub enum CloseEvent<D, E> {
    /// The encoder was asked to close.
    Polled,
    /// [`Message::Hangup`] was offered to the sink.
    HangupOffered(Result<AsyncSink<Message<D>>, E>),
    /// The sink was asked to flush.
    Flushed(Result<Async<()>, E>),
}

/// What an encoder that is being closed wants done.
pub enum CloseAction<S, E> {
    /// Offer [`Message::Hangup`] to the sink.
    OfferHangup,
    /// Ask the sink to flush.
    Flush,
    /// Put the connection of this sink into the pool; the encoder is closed.
    Recycle(S),
    /// Report this to whoever asked the encoder to close.
    Report(Result<Async<()>, E>),
}

impl<S, P> EncoderState<S, P> {
    /// A channel is hung up only if its connection will go to a pool, and goes
    /// there only after that.
    pub open spec fn wf(self) -> bool {
        &&& self.hangup_started ==> self.pool is Some
        &&& self.inner is None && self.pool is Some ==> self.hangup_started
    }

    /// Whether a hangup is still owed to the other end.
    pub open spec fn owes_hangup(self) -> bool {
        self.pool is Some && !self.hangup_started
    }

    /// Whether `event` can happen to the encoder while it is being closed.
    pub open spec fn expects<D, E>(self, event: CloseEvent<D, E>) -> bool {
        match event {
            CloseEvent::Polled => true,
            CloseEvent::HangupOffered(_) => self.owes_hangup(),
            CloseEvent::Flushed(_) => !self.owes_hangup(),
        }
    }

    /// What the encoder wants done after `event`.
    pub open spec fn close_action<D, E>(self, event: CloseEvent<D, E>) -> CloseAction<S, E> {
        match event {
            CloseEvent::Polled => if self.owes_hangup() {
                CloseAction::OfferHangup
            } else {
                CloseAction::Flush
            },
            CloseEvent::HangupOffered(Ok(AsyncSink::Ready)) => CloseAction::Flush,
            CloseEvent::HangupOffered(Ok(AsyncSink::NotReady(_))) => CloseAction::Report(
                Ok(Async::NotReady),
            ),
            CloseEvent::HangupOffered(Err(err)) => CloseAction::Report(Err(err)),
            CloseEvent::Flushed(Ok(Async::Ready(()))) => match (self.pool, self.inner) {
                (Some(_), Some(inner)) => CloseAction::Recycle(inner),
                _ => CloseAction::Report(Ok(Async::Ready(()))),
            },
            CloseEvent::Flushed(outcome) => CloseAction::Report(outcome),
        }
    }

    /// The state of the encoder after `event`.
    pub open spec fn after_close<D, E>(self, event: CloseEvent<D, E>) -> EncoderState<S, P> {
        match event {
            CloseEvent::HangupOffered(Ok(AsyncSink::Ready)) => EncoderState {
                hangup_started: true,
                ..self
            },
            CloseEvent::Flushed(Ok(Async::Ready(()))) => EncoderState { inner: None, ..self },
            _ => self,
        }
    }
}

impl<S, P> View for Encoder<S, P> {
    type V = EncoderState<S, P>;

    closed spec fn view(&self) -> EncoderState<S, P> {
        EncoderState {
            inner: self.inner,
            hangup_started: self.hangup_started,
            pool: self.pool,
        }
    }
}

/// The message that carries `item`.
pub open spec fn wrapped<D>(item: D) -> Message<D> {
    Message::Data(item)
}

/// What offering an item came to, given what offering the message that carries
/// it came to.
pub open spec fn unwrapped<D, E>(outcome: Result<AsyncSink<Message<D>>, E>) -> Result<
    AsyncSink<D>,
    E,
> {
    match outcome {
        Ok(AsyncSink::NotReady(Message::Data(item))) => Ok(AsyncSink::NotReady(item)),
        Ok(_) => Ok(AsyncSink::Ready),
        Err(err) => Err(err),
    }
}

/// Constructs the sending end of a channel whose messages go to `inner`, and
/// whose connection goes to `pool` in the end, if there is one.
pub fn encoder<S, P>(inner: S, pool: Option<P>) -> (encoder: Encoder<S, P>)
    ensures
        encoder@ == (EncoderState { inner: Some(inner), hangup_started: false, pool }),
        encoder@.wf(),
{
    Encoder { inner: Some(inner), hangup_started: false, pool }
}

impl<S, P> Encoder<S, P> {
    /// The sink, for the operations that the encoder wants done. The encoder
    /// must not have been closed.
    pub fn inner_mut(&mut self) -> (inner: &mut S)
        requires
            old(self)@.inner is Some,
        ensures
            Some(*inner) == old(self)@.inner,
            final(self)@ == (EncoderState { inner: Some(*final(inner)), ..old(self)@ }),
    {
        self.inner.as_mut().unwrap()
    }

    /// The pool that the connection goes to in the end.
    pub fn pool(&self) -> (pool: &Option<P>)
        ensures
            *pool == self@.pool,
    {
        &self.pool
    }

    /// Whether the encoder has yet to be closed. If it is dropped in this state,
    /// it has to be closed first.
    pub fn is_open(&self) -> (res: bool)
        ensures
            res == (self@.inner is Some),
    {
        self.inner.is_some()
    }

    /// The message to offer to the sink for `item`.
    pub fn start_send<D>(&self, item: D) -> (message: Message<D>)
        ensures
            message == wrapped(item),
            message matches Message::Data(kept) && kept == item,
    {
        Message::Data(item)
    }

    /// What offering an item came to, given what offering its message came to.
    /// The sink can hand back nothing but that message.
    pub fn finish_send<D, E>(&self, outcome: Result<AsyncSink<Message<D>>, E>) -> (res: Result<
        AsyncSink<D>,
        E,
    >)
        requires
            !(outcome matches Ok(AsyncSink::NotReady(Message::Hangup))),
        ensures
            res == unwrapped(outcome),
            match outcome {
                Ok(AsyncSink::Ready) => res matches Ok(AsyncSink::Ready),
                Ok(AsyncSink::NotReady(Message::Data(item))) => res matches Ok(
                    AsyncSink::NotReady(kept),
                ) && kept == item,
                Ok(AsyncSink::NotReady(Message::Hangup)) => true,
                Err(err) => res matches Err(kept) && kept == err,
            },
    {
        match outcome {
            Ok(AsyncSink::NotReady(Message::Data(item))) => Ok(AsyncSink::NotReady(item)),
            Ok(_) => Ok(AsyncSink::Ready),
            Err(err) => Err(err),
        }
    }

    /// Takes one step towards closing the encoder. Where there is no pool, the
    /// connection is not hung up, since it will not be reused.
    ///
    /// Each attempt to close begins with [`CloseEvent::Polled`] and ends with a
    /// [`CloseAction::Recycle`] or a [`CloseAction::Report`]; any other action
    /// is to be carried out and its outcome handed in as the next event.
    pub fn close<D, E>(&mut self, event: CloseEvent<D, E>) -> (action: CloseAction<S, E>)
        requires
            old(self)@.wf(),
            old(self)@.inner is Some,
            old(self)@.expects(event),
        ensures
            action == old(self)@.close_action(event),
            final(self)@ == old(self)@.after_close(event),
            final(self)@.wf(),
            final(self)@.pool == old(self)@.pool,
            match event {
                CloseEvent::Polled => final(self)@ == old(self)@ && if old(self)@.pool is Some
                    && !old(self)@.hangup_started {
                    action is OfferHangup
                } else {
                    action is Flush
                },
                CloseEvent::HangupOffered(Ok(AsyncSink::Ready)) => action is Flush
                    && final(self)@.inner == old(self)@.inner && final(self)@.hangup_started,
                CloseEvent::HangupOffered(Ok(AsyncSink::NotReady(_))) => final(self)@ == old(self)@
                    && action matches CloseAction::Report(Ok(Async::NotReady)),
                CloseEvent::HangupOffered(Err(err)) => final(self)@ == old(self)@
                    && (action matches CloseAction::Report(Err(kept)) && kept == err),
                CloseEvent::Flushed(Ok(Async::Ready(()))) => final(self)@.inner is None
                    && final(self)@.hangup_started == old(self)@.hangup_started && if old(
                    self,
                )@.pool is Some {
                    action matches CloseAction::Recycle(inner) && Some(inner) == old(self)@.inner
                } else {
                    action matches CloseAction::Report(Ok(Async::Ready(())))
                },
                CloseEvent::Flushed(Ok(Async::NotReady)) => final(self)@ == old(self)@
                    && action matches CloseAction::Report(Ok(Async::NotReady)),
                CloseEvent::Flushed(Err(err)) => final(self)@ == old(self)@
                    && (action matches CloseAction::Report(Err(kept)) && kept == err),
            },
    {
        match event {
            CloseEvent::Polled => {
                if self.pool.is_some() && !self.hangup_started {
                    CloseAction::OfferHangup
                } else {
                    CloseAction::Flush
                }
            },
            CloseEvent::HangupOffered(Ok(AsyncSink::Ready)) => {
                self.hangup_started = true;
                CloseAction::Flush
            },
            CloseEvent::HangupOffered(Ok(AsyncSink::NotReady(_))) => {
                CloseAction::Report(Ok(Async::NotReady))
            },
            CloseEvent::HangupOffered(Err(err)) => CloseAction::Report(Err(err)),
            CloseEvent::Flushed(Ok(Async::Ready(()))) => {
                let inner: S = self.inner.take().unwrap();
                if self.pool.is_some() {
                    CloseAction::Recycle(inner)
                } else {
                    CloseAction::Report(Ok(Async::Ready(())))
                }
            },
            CloseEvent::Flushed(outcome) => CloseAction::Report(outcome),
        }
    }
}

/// The receiving end of a channel: a stream of messages (`S`).
pub struct Decoder<S> {
    inner: Option<S>,
}

/// What a decoder wants done with what its stream yielded.
pub enum DecodeAction<S, D, E> {
    /// Report this to whoever asked the decoder for an item.
    Report(Result<Async<Option<D>>, E>),
    /// Give up the connection of this stream to be reused, and report that the
    /// channel has ended.
    Recycle(S),
}

impl<S> View for Decoder<S> {
    type V = Option<S>;

    closed spec fn view(&self) -> Option<S> {
        self.inner
    }
}

/// What the decoder of `inner` wants done when it yields `polled`.
pub open spec fn decode_action<S, D, E>(
    inner: S,
    polled: Result<Async<Option<Message<D>>>, E>,
) -> DecodeAction<S, D, E> {
    match polled {
        Ok(Async::NotReady) => DecodeAction::Report(Ok(Async::NotReady)),
        Ok(Async::Ready(None)) => DecodeAction::Report(Ok(Async::Ready(None))),
        Ok(Async::Ready(Some(Message::Data(item)))) => DecodeAction::Report(
            Ok(Async::Ready(Some(item))),
        ),
        Ok(Async::Ready(Some(Message::Hangup))) => DecodeAction::Recycle(inner),
        Err(err) => DecodeAction::Report(Err(err)),
    }
}

/// Constructs the receiving end of a channel whose messages come from `inner`.
pub fn decoder<S>(inner: S) -> (decoder: Decoder<S>)
    ensures
        decoder@ == Some(inner),
{
    Decoder { inner: Some(inner) }
}

impl<S> Decoder<S> {
    /// The stream, to be asked for a message. The channel must not have been
    /// hung up.
    pub fn inner_mut(&mut self) -> (inner: &mut S)
        requires
            old(self)@ is Some,
        ensures
            Some(*inner) == old(self)@,
            final(self)@ == Some(*final(inner)),
    {
        self.inner.as_mut().unwrap()
    }

    /// Whether the channel has yet to be hung up.
    pub fn is_open(&self) -> (res: bool)
        ensures
            res == (self@ is Some),
    {
        self.inner.is_some()
    }

    /// Takes what the stream yielded when asked for a message. When the channel
    /// is hung up, the decoder gives up its stream.
    pub fn poll<D, E>(&mut self, polled: Result<Async<Option<Message<D>>>, E>) -> (action:
        DecodeAction<S, D, E>)
        requires
            old(self)@ is Some,
        ensures
            action == decode_action(old(self)@->0, polled),
            final(self)@ == if action is Recycle {
                None
            } else {
                old(self)@
            },
            match polled {
                Ok(Async::NotReady) => final(self)@ == old(self)@
                    && action matches DecodeAction::Report(Ok(Async::NotReady)),
                Ok(Async::Ready(None)) => final(self)@ == old(self)@
                    && action matches DecodeAction::Report(Ok(Async::Ready(None))),
                Ok(Async::Ready(Some(Message::Data(item)))) => final(self)@ == old(self)@
                    && (action matches DecodeAction::Report(Ok(Async::Ready(Some(kept))))
                    && kept == item),
                Ok(Async::Ready(Some(Message::Hangup))) => final(self)@ is None
                    && (action matches DecodeAction::Recycle(inner) && Some(inner) == old(self)@),
                Err(err) => final(self)@ == old(self)@
                    && (action matches DecodeAction::Report(Err(kept)) && kept == err),
            },
    {
        match polled {
            Ok(Async::NotReady) => DecodeAction::Report(Ok(Async::NotReady)),
            Ok(Async::Ready(None)) => DecodeAction::Report(Ok(Async::Ready(None))),
            Ok(Async::Ready(Some(Message::Data(item)))) => {
                DecodeAction::Report(Ok(Async::Ready(Some(item))))
            },
            Ok(Async::Ready(Some(Message::Hangup))) => {
                let inner: S = self.inner.take().unwrap();
                DecodeAction::Recycle(inner)
            },
            Err(err) => DecodeAction::Report(Err(err)),
        }
    }
}

/// An item that the sink refuses is handed back as it was, and what the sink
/// reports otherwise is passed on.
pub proof fn law_refused_item_is_handed_back<D, E>(item: D, err: E)
    ensures
        unwrapped::<D, E>(Ok(AsyncSink::NotReady(wrapped(item)))) == Ok::<AsyncSink<D>, E>(
            AsyncSink::NotReady(item),
        ),
        unwrapped::<D, E>(Ok(AsyncSink::Ready)) == Ok::<AsyncSink<D>, E>(AsyncSink::Ready),
        unwrapped::<D, E>(Err(err)) == Err::<AsyncSink<D>, E>(err),
{
}

/// Whatever an encoder wants done while it is being closed, it expects the
/// outcome of next, and is still open; and it is closed exactly when it gives up
/// its connection or reports that it is.
pub proof fn law_outcomes_are_expected<S, P, D, E>(
    state: EncoderState<S, P>,
    event: CloseEvent<D, E>,
    offered: Result<AsyncSink<Message<D>>, E>,
    flushed: Result<Async<()>, E>,
)
    requires
        state.wf(),
        state.inner is Some,
        state.expects(event),
    ensures
        state.close_action(event) is OfferHangup ==> state.after_close(event).inner is Some
            && state.after_close(event).expects(CloseEvent::HangupOffered(offered)),
        state.close_action(event) is Flush ==> state.after_close(event).inner is Some
            && state.after_close(event).expects(CloseEvent::<D, E>::Flushed(flushed)),
        state.after_close(event).inner is None <==> (state.close_action(event) is Recycle
            || state.close_action(event) == CloseAction::<S, E>::Report(Ok(Async::Ready(())))),
        state.after_close(event).wf(),
{
}

/// An encoder gives up its sink, to the pool or to be dropped, only when the sink
/// has flushed everything, with or without a pool; and then it does, to the pool
/// if there is one.
pub proof fn law_sink_is_given_up_only_when_flushed<S, P, D, E>(
    state: EncoderState<S, P>,
    event: CloseEvent<D, E>,
)
    requires
        state.inner is Some,
    ensures
        state.after_close(event).inner is None <==> (event matches CloseEvent::Flushed(
            Ok(Async::Ready(())),
        )),
        state.after_close(event).inner is Some ==> state.after_close(event).inner == state.inner,
        state.close_action(event) is Recycle <==> (event matches CloseEvent::Flushed(
            Ok(Async::Ready(())),
        )) && state.pool is Some,
        state.close_action(event) matches CloseAction::Recycle(inner) ==> Some(inner)
            == state.inner,
        (state.close_action(event) matches CloseAction::Report(Ok(Async::Ready(())))) <==> (
        event matches CloseEvent::Flushed(Ok(Async::Ready(())))) && state.pool is None,
{
}

/// A sink that is not ready, for the hangup or with flushing, has the attempt to
/// close end there, with the encoder as it was, so that it can be tried again;
/// and nothing else ends an attempt like that.
pub proof fn law_unready_sink_postpones_closing<S, P, D, E>(
    state: EncoderState<S, P>,
    event: CloseEvent<D, E>,
)
    requires
        state.inner is Some,
    ensures
        (state.close_action(event) matches CloseAction::Report(Ok(Async::NotReady))) <==> {
            ||| event matches CloseEvent::Flushed(Ok(Async::NotReady))
            ||| event matches CloseEvent::HangupOffered(Ok(AsyncSink::NotReady(_)))
        },
        (state.close_action(event) matches CloseAction::Report(Ok(Async::NotReady)))
            ==> state.after_close(event) == state,
{
}

/// Every error of the sink reaches whoever closes the encoder, with the encoder
/// as it was; and no other error does.
pub proof fn law_sink_errors_are_reported<S, P, D, E>(
    state: EncoderState<S, P>,
    event: CloseEvent<D, E>,
    err: E,
)
    requires
        state.inner is Some,
    ensures
        state.close_action(event) == CloseAction::<S, E>::Report(Err(err)) <==> {
            ||| event == CloseEvent::<D, E>::Flushed(Err(err))
            ||| event == CloseEvent::<D, E>::HangupOffered(Err(err))
        },
        (state.close_action(event) matches CloseAction::Report(Err(_))) ==> state.after_close(event)
            == state,
{
}

/// A hangup is offered exactly when an attempt to close begins, there is a pool,
/// and the sink has taken no hangup yet; that it has taken one is remembered from
/// the moment it does, and nothing else is; and flushing is asked for when no
/// hangup is owed. The pool stays the same throughout.
pub proof fn law_hangup_comes_before_flushing<S, P, D, E>(
    state: EncoderState<S, P>,
    event: CloseEvent<D, E>,
)
    requires
        state.inner is Some,
    ensures
        state.close_action(event) is OfferHangup <==> event is Polled && state.pool is Some
            && !state.hangup_started,
        state.close_action(event) is Flush <==> {
            ||| event is Polled && (state.pool is None || state.hangup_started)
            ||| event matches CloseEvent::HangupOffered(Ok(AsyncSink::Ready))
        },
        state.after_close(event).hangup_started <==> {
            ||| state.hangup_started
            ||| event matches CloseEvent::HangupOffered(Ok(AsyncSink::Ready))
        },
        state.after_close(event).pool == state.pool,
        event is Polled ==> state.after_close(event) == state && state.expects(event),
        event is HangupOffered ==> (state.expects(event) <==> state.pool is Some
            && !state.hangup_started),
        event is Flushed ==> (state.expects(event) <==> state.pool is None
            || state.hangup_started),
{
}

/// A message carries the very item that it is made from, and is no hangup.
pub proof fn law_message_carries_its_item<D>(item: D, other: D)
    ensures
        wrapped(item) matches Message::Data(kept) && kept == item,
        wrapped(item) == wrapped(other) ==> item == other,
        wrapped(item) !is Hangup,
{
}

/// A decoder reports exactly the items, the ends, the waits and the errors that
/// its stream yields, and gives up its stream exactly on a hangup.
pub proof fn law_decoder_reports_what_its_stream_yields<S, D, E>(
    stream: S,
    polled: Result<Async<Option<Message<D>>>, E>,
    item: D,
    err: E,
)
    ensures
        decode_action(stream, polled) == DecodeAction::<S, D, E>::Report(
            Ok(Async::Ready(Some(item))),
        ) <==> polled == Ok::<Async<Option<Message<D>>>, E>(
            Async::Ready(Some(Message::Data(item))),
        ),
        decode_action(stream, polled) == DecodeAction::<S, D, E>::Report(Ok(Async::Ready(None)))
            <==> polled == Ok::<Async<Option<Message<D>>>, E>(Async::Ready(None)),
        decode_action(stream, polled) == DecodeAction::<S, D, E>::Report(Ok(Async::NotReady))
            <==> polled == Ok::<Async<Option<Message<D>>>, E>(Async::NotReady),
        decode_action(stream, polled) == DecodeAction::<S, D, E>::Report(Err(err)) <==> polled
            == Err::<Async<Option<Message<D>>>, E>(err),
        decode_action(stream, polled) is Recycle <==> polled == Ok::<Async<Option<Message<D>>>, E>(
            Async::Ready(Some(Message::Hangup)),
        ),
        decode_action(stream, polled) matches DecodeAction::Recycle(inner) ==> inner == stream,
{
}

/// The state of an encoder in `state` once all of `events` have happened to it
/// while it is being closed.
pub open spec fn closing_state<S, P, D, E>(
    state: EncoderState<S, P>,
    events: Seq<CloseEvent<D, E>>,
) -> EncoderState<S, P>
    decreases events.len(),
{
    if events.len() == 0 {
        state
    } else {
        closing_state(state, events.drop_last()).after_close(events.last())
    }
}

/// Whether `events` can happen in turn to an encoder in `state` while it is
/// being closed, over any number of attempts.
pub open spec fn closing_expected<S, P, D, E>(
    state: EncoderState<S, P>,
    events: Seq<CloseEvent<D, E>>,
) -> bool
    decreases events.len(),
{
    events.len() > 0 ==> {
        let before = closing_state(state, events.drop_last());
        &&& closing_expected(state, events.drop_last())
        &&& before.inner is Some
        &&& before.expects(events.last())
    }
}

/// The messages that the sink took from an encoder to which all of `events`
/// happened while it was being closed.
pub open spec fn closing_messages<D, E>(events: Seq<CloseEvent<D, E>>) -> Seq<Message<D>>
    decreases events.len(),
{
    if events.len() == 0 {
        Seq::empty()
    } else if events.last() matches CloseEvent::HangupOffered(Ok(AsyncSink::Ready)) {
        closing_messages(events.drop_last()).push(Message::Hangup)
    } else {
        closing_messages(events.drop_last())
    }
}

/// However often an encoder has to be asked to close, the sink takes at most one
/// hangup from it; it takes none where there is no pool; and an encoder with a
/// pool is closed only after the sink has taken one.
pub proof fn law_channel_is_hung_up_once<S, P, D, E>(
    state: EncoderState<S, P>,
    events: Seq<CloseEvent<D, E>>,
)
    requires
        state.wf(),
        state.inner is Some,
        !state.hangup_started,
        closing_expected(state, events),
    ensures
        closing_messages(events).len() <= 1,
        closing_messages(events) == if closing_state(state, events).hangup_started {
            seq![Message::<D>::Hangup]
        } else {
            Seq::empty()
        },
        state.pool is None ==> closing_messages(events).len() == 0,
        state.pool is Some && closing_state(state, events).inner is None ==> closing_messages(
            events,
        ).len() == 1,
        closing_state(state, events).pool == state.pool,
        closing_state(state, events).wf(),
    decreases events.len(),
{
    if events.len() > 0 {
        law_channel_is_hung_up_once(state, events.drop_last());
    }
}

/// How a stream answers when it is asked for a message.
pub enum Reply<E> {
    /// It yields its next message, or ends.
    Yields,
    /// It has to be asked again later.
    NotReady,
    /// It fails, without losing a message.
    Fails(E),
}

/// How many of `replies` yield a message or the end of the stream.
pub open spec fn yielding<E>(replies: Seq<Reply<E>>) -> nat
    decreases replies.len(),
{
    if replies.len() == 0 {
        0
    } else if replies.last() is Yields {
        yielding(replies.drop_last()) + 1
    } else {
        yielding(replies.drop_last())
    }
}

/// A decoder that is asked for items: what it has done so far, and what is still
/// to come.
///
/// That the end of the channel is remembered is not the decoder's doing: a
/// [`Decoder`] forgets it, and after a hangup must not be polled at all. It
/// stands for a fuse that whoever runs the decoder puts around it, which
/// remembers that the end has been reported, and from then on reports it again
/// without asking the decoder.
pub struct Receiving<S, D> {
    /// The stream of the decoder, unless it has been given up.
    pub stream: Option<S>,
    /// Whether the end of the channel has been reported, as the fuse around the
    /// decoder remembers.
    pub ended: bool,
    /// The messages that the stream has yet to yield, before it ends.
    pub messages: Seq<Message<D>>,
    /// The items that have been reported.
    pub items: Seq<D>,
    /// The streams that have been given up, to be reused.
    pub recycled: Seq<S>,
}

impl<S, D> Receiving<S, D> {
    /// A decoder of `stream`, which yields `messages` and then ends, before it is
    /// asked for anything.
    pub open spec fn new(stream: S, messages: Seq<Message<D>>) -> Receiving<S, D> {
        Receiving {
            stream: Some(stream),
            ended: false,
            messages,
            items: Seq::empty(),
            recycled: Seq::empty(),
        }
    }

    /// What the stream gives when it is asked for a message and answers by
    /// `reply`.
    pub open spec fn polled<E>(self, reply: Reply<E>) -> Result<Async<Option<Message<D>>>, E> {
        match reply {
            Reply::Yields => if self.messages.len() == 0 {
                Ok(Async::Ready(None))
            } else {
                Ok(Async::Ready(Some(self.messages.first())))
            },
            Reply::NotReady => Ok(Async::NotReady),
            Reply::Fails(err) => Err(err),
        }
    }

    /// What is reported when an item is asked for, where the stream answers by
    /// `reply` if it is asked for a message.
    pub open spec fn reports<E>(self, reply: Reply<E>) -> Result<Async<Option<D>>, E> {
        match self.stream {
            Some(stream) if !self.ended => match decode_action(stream, self.polled(reply)) {
                DecodeAction::Report(outcome) => outcome,
                DecodeAction::Recycle(_) => Ok(Async::Ready(None)),
            },
            _ => Ok(Async::Ready(None)),
        }
    }

    /// The decoder after an item has been asked for, where the stream answers by
    /// `reply` if it is asked for a message.
    pub open spec fn asked<E>(self, reply: Reply<E>) -> Receiving<S, D> {
        match self.stream {
            Some(stream) if !self.ended => {
                let messages = if reply is Yields && self.messages.len() > 0 {
                    self.messages.drop_first()
                } else {
                    self.messages
                };
                match decode_action(stream, self.polled(reply)) {
                    DecodeAction::Report(Ok(Async::Ready(Some(item)))) => Receiving {
                        messages,
                        items: self.items.push(item),
                        ..self
                    },
                    DecodeAction::Report(Ok(Async::Ready(None))) => Receiving {
                        ended: true,
                        messages,
                        ..self
                    },
                    DecodeAction::Report(_) => Receiving { messages, ..self },
                    DecodeAction::Recycle(inner) => Receiving {
                        stream: None,
                        ended: true,
                        messages,
                        recycled: self.recycled.push(inner),
                        ..self
                    },
                }
            },
            _ => self,
        }
    }

    /// The decoder after an item has been asked for once for each of `replies`,
    /// by which the stream answers in turn.
    pub open spec fn asked_all<E>(self, replies: Seq<Reply<E>>) -> Receiving<S, D>
        decreases replies.len(),
    {
        if replies.len() == 0 {
            self
        } else {
            self.asked_all(replies.drop_last()).asked(replies.last())
        }
    }
}

/// The messages that carry `items`, in turn.
pub open spec fn carried<D>(items: Seq<D>) -> Seq<Message<D>> {
    items.map_values(|item: D| wrapped(item))
}

/// Until the end has been reported, a decoder has a stream to be asked for a
/// message; a stream is given up only as the end is reported, and at most once.
pub proof fn law_open_channel_has_a_stream<S, D, E>(
    stream: S,
    messages: Seq<Message<D>>,
    replies: Seq<Reply<E>>,
)
    ensures
        ({
            let now = Receiving::new(stream, messages).asked_all(replies);
            &&& !now.ended ==> now.stream == Some(stream) && now.recycled.len() == 0
            &&& now.recycled.len() <= 1
            &&& now.recycled.len() == 1 <==> now.stream is None
        }),
    decreases replies.len(),
{
    if replies.len() > 0 {
        law_open_channel_has_a_stream(stream, messages, replies.drop_last());
    }
}

/// While the channel is open, a stream that is not ready, or that fails, is
/// reported as such, and leaves everything as it was.
pub proof fn law_waiting_changes_nothing<S, D, E>(state: Receiving<S, D>, err: E)
    requires
        state.stream is Some,
        !state.ended,
    ensures
        state.asked(Reply::<E>::NotReady) == state,
        state.reports(Reply::<E>::NotReady) == Ok::<Async<Option<D>>, E>(Async::NotReady),
        state.asked(Reply::Fails(err)) == state,
        state.reports(Reply::Fails(err)) == Err::<Async<Option<D>>, E>(err),
{
}

/// Once the end of a channel has been reported, and a fuse around the decoder
/// remembers it, every further request reports the end, takes no message and
/// gives up no stream, without asking the decoder.
pub proof fn law_end_is_final<S, D, E>(
    state: Receiving<S, D>,
    replies: Seq<Reply<E>>,
    reply: Reply<E>,
)
    requires
        state.ended,
    ensures
        state.asked_all(replies) == state,
        state.asked_all(replies).reports(reply) == Ok::<Async<Option<D>>, E>(Async::Ready(None)),
    decreases replies.len(),
{
    if replies.len() > 0 {
        law_end_is_final(state, replies.drop_last(), reply);
    }
}

/// A decoder reports the items that were sent, in order, one for each time that
/// its stream yields, and keeps its stream meanwhile.
pub proof fn law_items_are_received_in_order<S, D, E>(
    stream: S,
    items: Seq<D>,
    after: Seq<Message<D>>,
    replies: Seq<Reply<E>>,
)
    requires
        yielding(replies) <= items.len(),
    ensures
        Receiving::new(stream, carried(items) + after).asked_all(replies) == (Receiving {
            stream: Some(stream),
            ended: false,
            messages: carried(items.skip(yielding(replies) as int)) + after,
            items: items.take(yielding(replies) as int),
            recycled: Seq::empty(),
        }),
    decreases replies.len(),
{
    if replies.len() == 0 {
        assert(items.skip(0) =~= items);
        assert(items.take(0) =~= Seq::<D>::empty());
    } else {
        let prior = replies.drop_last();
        law_items_are_received_in_order(stream, items, after, prior);
        if replies.last() is Yields {
            let n = yielding(prior) as int;
            let messages = carried(items.skip(n)) + after;
            assert(messages.first() == wrapped(items[n]));
            assert(messages.drop_first() =~= carried(items.skip(n + 1)) + after);
            assert(items.take(n).push(items[n]) =~= items.take(n + 1));
        }
    }
}

/// What an encoder sends is what the decoder at the other end receives, however
/// often it is asked, and however often its stream is not ready or fails: the
/// items that the sink took, in order, one for each time that the stream yields,
/// then the end of the channel, to every further request (a fuse around the
/// decoder remembers the end, as [`Receiving`] tells).
///
/// If the encoder's connection goes to a pool, the decoder gives up its stream
/// too, once, and has taken nothing out of it that comes after the hangup. If
/// not, the channel ends with the stream, which is not given up.
pub proof fn law_channel_is_received<S, P, T, D, E, R>(
    state: EncoderState<S, P>,
    items: Seq<D>,
    events: Seq<CloseEvent<D, E>>,
    stream: T,
    after: Seq<Message<D>>,
    replies: Seq<Reply<R>>,
)
    requires
        state.wf(),
        state.inner is Some,
        !state.hangup_started,
        closing_expected(state, events),
        closing_state(state, events).inner is None,
        state.pool is None ==> after.len() == 0,
    ensures
        ({
            let sent = carried(items) + closing_messages(events);
            let now = Receiving::new(stream, sent + after).asked_all(replies);
            &&& yielding(replies) <= items.len() ==> now.items == items.take(
                yielding(replies) as int,
            ) && !now.ended && now.stream == Some(stream) && now.recycled.len() == 0
            &&& yielding(replies) > items.len() ==> now == (Receiving {
                stream: if state.pool is Some {
                    None
                } else {
                    Some(stream)
                },
                ended: true,
                messages: after,
                items,
                recycled: if state.pool is Some {
                    seq![stream]
                } else {
                    Seq::empty()
                },
            })
        }),
    decreases replies.len(),
{
    law_channel_is_hung_up_once(state, events);
    let end = closing_messages(events);
    let n = items.len();
    assert(carried(items) + end + after =~= carried(items) + (end + after));
    if yielding(replies) <= n {
        law_items_are_received_in_order(stream, items, end + after, replies);
    } else {
        let prior = replies.drop_last();
        if yielding(prior) > n {
            law_channel_is_received(state, items, events, stream, after, prior);
        } else {
            law_items_are_received_in_order(stream, items, end + after, prior);
            assert(items.take(n as int) =~= items);
            assert(carried(items.skip(n as int)) + (end + after) =~= end + after);
            if state.pool is Some {
                assert((end + after).drop_first() =~= after);
                assert(Seq::<T>::empty().push(stream) =~= seq![stream]);
            } else {
                assert(end + after =~= after);
            }
        }
    }
}

} // verus!
