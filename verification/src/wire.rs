//! What a channel connection carries over its life, byte by byte.
//!
//! How a message is turned into the payload of a frame is left open here: it is
//! given as a function, `ser`, from messages to bytes, and its inverse, `de`.
use vstd::prelude::*;

use crate::channel::{CloseEvent, EncoderState, Message};
use crate::handshake::RecvHandshake;

verus! {

/// The bytes that carry `payloads`, one to a frame.
pub open spec fn framed_all(payloads: Seq<Seq<u8>>) -> Seq<u8>
    decreases payloads.len(),
{
    if payloads.len() == 0 {
        Seq::empty()
    } else {
        crate::frame::framed(payloads.first()) + framed_all(payloads.drop_first())
    }
}

/// The payloads of the first `count` frames in `bytes`, and what follows them,
/// if that many frames have arrived and none of them is refused.
pub open spec fn frames_read(bytes: Seq<u8>, count: nat) -> Option<(Seq<Seq<u8>>, Seq<u8>)>
    decreases count,
{
    if count == 0 {
        Some((Seq::empty(), bytes))
    } else if !crate::frame::holds_frame(bytes) || crate::frame::announces_more_than(
        bytes,
        crate::frame::MAX_FRAME_LENGTH as nat,
    ) {
        None
    } else {
        match frames_read(crate::frame::after_frame(bytes), (count - 1) as nat) {
            Some((later, rest)) => Some((seq![crate::frame::frame_payload(bytes)] + later, rest)),
            None => None,
        }
    }
}

/// The payloads of the frames that carry `messages`.
pub open spec fn payloads<D>(
    ser: spec_fn(Message<D>) -> Seq<u8>,
    messages: Seq<Message<D>>,
) -> Seq<Seq<u8>> {
    messages.map_values(|message: Message<D>| ser(message))
}

/// Whether each of `messages` fits into a frame.
pub open spec fn all_fit<D>(
    ser: spec_fn(Message<D>) -> Seq<u8>,
    messages: Seq<Message<D>>,
) -> bool {
    forall|i: int|
        0 <= i < messages.len() ==> ser(#[trigger] messages[i]).len()
            <= crate::frame::MAX_FRAME_LENGTH
}

/// The messages of a channel that sends `items` and is hung up.
pub open spec fn hung_up_channel<D>(items: Seq<D>) -> Seq<Message<D>> {
    crate::channel::carried(items).push(Message::Hangup)
}

/// The bytes on a connection that is opened for the channel `first`, over which
/// that channel sends `items` and is hung up, and which is then reused for the
/// channel `second`; `rest` is what that channel sends.
pub open spec fn reused_connection<D>(
    ser: spec_fn(Message<D>) -> Seq<u8>,
    first: u128,
    items: Seq<D>,
    second: u128,
    rest: Seq<u8>,
) -> Seq<u8> {
    crate::connect::opening_bytes(false, first) + (framed_all(
        payloads(ser, hung_up_channel(items)),
    ) + (crate::connect::opening_bytes(true, second) + rest))
}

/// What one channel on a connection comes to, for a receiver that reads frame
/// after frame until the channel is hung up or no more frames have arrived.
pub struct ChannelRead<D> {
    /// The items that the channel carried.
    pub items: Seq<D>,
    /// Whether the channel was hung up.
    pub hung_up: bool,
    /// The bytes that are still to be read from the connection.
    pub rest: Seq<u8>,
}

/// Reads one channel off `bytes`.
pub open spec fn channel_read<D>(
    de: spec_fn(Seq<u8>) -> Message<D>,
    bytes: Seq<u8>,
) -> ChannelRead<D>
    decreases bytes.len(),
{
    if !crate::frame::holds_frame(bytes) || crate::frame::announces_more_than(
        bytes,
        crate::frame::MAX_FRAME_LENGTH as nat,
    ) {
        ChannelRead { items: Seq::empty(), hung_up: false, rest: bytes }
    } else {
        match crate::channel::decode_action::<(), D, ()>(
            (),
            Ok(crate::channel::Async::Ready(Some(de(crate::frame::frame_payload(bytes))))),
        ) {
            crate::channel::DecodeAction::Report(
                Ok(crate::channel::Async::Ready(Some(item))),
            ) => {
                let later = channel_read(de, crate::frame::after_frame(bytes));
                ChannelRead { items: seq![item] + later.items, ..later }
            },
            _ => ChannelRead {
                items: Seq::empty(),
                hung_up: true,
                rest: crate::frame::after_frame(bytes),
            },
        }
    }
}

/// Payloads that may be framed are read back from their frames, in order,
/// together with whatever follows the last frame.
pub proof fn law_frames_are_read_back(sent: Seq<Seq<u8>>, rest: Seq<u8>)
    requires
        forall|i: int|
            0 <= i < sent.len() ==> (#[trigger] sent[i]).len() <= crate::frame::MAX_FRAME_LENGTH,
    ensures
        frames_read(framed_all(sent) + rest, sent.len()) == Some((sent, rest)),
    decreases sent.len(),
{
    if sent.len() == 0 {
        assert(framed_all(sent) + rest =~= rest);
        assert(sent =~= Seq::empty());
    } else {
        let later = sent.drop_first();
        let tail = framed_all(later) + rest;
        assert forall|i: int| 0 <= i < later.len() implies (#[trigger] later[i]).len()
            <= crate::frame::MAX_FRAME_LENGTH by {
            assert(later[i] == sent[i + 1]);
        }
        law_frames_are_read_back(later, rest);
        assert(sent[0] == sent.first());
        assert(framed_all(sent) + rest =~= crate::frame::framed(sent.first()) + tail);
        crate::frame::law_frame_is_read_back(sent.first(), tail);
        assert(seq![sent.first()] + later =~= sent);
    }
}

/// The items of a channel are read back from its bytes, in order, and reading
/// stops at the hangup, before whatever follows on the connection.
pub proof fn law_channel_is_read_back<D>(
    ser: spec_fn(Message<D>) -> Seq<u8>,
    de: spec_fn(Seq<u8>) -> Message<D>,
    items: Seq<D>,
    rest: Seq<u8>,
)
    requires
        all_fit(ser, hung_up_channel(items)),
        forall|message: Message<D>| de(#[trigger] ser(message)) == message,
    ensures
        channel_read(de, framed_all(payloads(ser, hung_up_channel(items))) + rest) == (
        ChannelRead { items, hung_up: true, rest }),
    decreases items.len(),
{
    let messages = hung_up_channel(items);
    let sent = payloads(ser, messages);
    let tail = framed_all(sent.drop_first()) + rest;
    assert(sent.first() == ser(messages[0]));
    assert(framed_all(sent) + rest =~= crate::frame::framed(sent.first()) + tail);
    crate::frame::law_frame_is_read_back(sent.first(), tail);
    if items.len() == 0 {
        assert(sent.drop_first() =~= Seq::empty());
        assert(tail =~= rest);
        assert(items =~= Seq::empty());
    } else {
        let later = items.drop_first();
        assert forall|i: int| 0 <= i < hung_up_channel(later).len() implies ser(
            #[trigger] hung_up_channel(later)[i],
        ).len() <= crate::frame::MAX_FRAME_LENGTH by {
            assert(hung_up_channel(later)[i] == messages[i + 1]);
        }
        law_channel_is_read_back(ser, de, later, rest);
        assert(sent.drop_first() =~= payloads(ser, hung_up_channel(later)));
        assert(seq![items.first()] + later =~= items);
    }
}

/// The items of a channel that is not hung up are read back from its bytes too,
/// in order; the channel ends with its connection.
pub proof fn law_unfinished_channel_is_read_back<D>(
    ser: spec_fn(Message<D>) -> Seq<u8>,
    de: spec_fn(Seq<u8>) -> Message<D>,
    items: Seq<D>,
)
    requires
        all_fit(ser, crate::channel::carried(items)),
        forall|message: Message<D>| de(#[trigger] ser(message)) == message,
    ensures
        channel_read(de, framed_all(payloads(ser, crate::channel::carried(items)))) == (
        ChannelRead { items, hung_up: false, rest: Seq::empty() }),
    decreases items.len(),
{
    let messages = crate::channel::carried(items);
    let sent = payloads(ser, messages);
    if items.len() == 0 {
        assert(items =~= Seq::empty());
    } else {
        let later = items.drop_first();
        let tail = framed_all(sent.drop_first());
        assert(sent.first() == ser(messages[0]));
        crate::frame::law_frame_is_read_back(sent.first(), tail);
        assert forall|i: int| 0 <= i < crate::channel::carried(later).len() implies ser(
            #[trigger] crate::channel::carried(later)[i],
        ).len() <= crate::frame::MAX_FRAME_LENGTH by {
            assert(crate::channel::carried(later)[i] == messages[i + 1]);
        }
        law_unfinished_channel_is_read_back(ser, de, later);
        assert(sent.drop_first() =~= payloads(ser, crate::channel::carried(later)));
        assert(seq![items.first()] + later =~= items);
    }
}

/// A connection is reused across channels, on the wire as in the pool.
///
/// With none idle at `addr`, the channel `first` gets the new connection `conn`.
/// Once its encoder, which has sent `items`, has been closed, what its sink took
/// is the items and one hangup; and once `conn` is back in the pool, the channel
/// `second` gets it again. Of the bytes on it, the receiver learns that `first`
/// was asked for, then reads each payload in order, and is left, after the frame
/// with the hangup, with exactly the request for `second` and what follows it.
pub proof fn law_connection_is_reused<A, F, S, P, D, E>(
    pool: Map<A, Seq<F>>,
    addr: A,
    conn: F,
    state: EncoderState<S, P>,
    events: Seq<CloseEvent<D, E>>,
    ser: spec_fn(Message<D>) -> Seq<u8>,
    first: u128,
    items: Seq<D>,
    second: u128,
    rest: Seq<u8>,
)
    requires
        crate::pool::idle(pool, addr).len() == 0,
        state.wf(),
        state.inner is Some,
        state.pool is Some,
        !state.hangup_started,
        crate::channel::closing_expected(state, events),
        crate::channel::closing_state(state, events).inner is None,
        all_fit(ser, hung_up_channel(items)),
    ensures
        crate::pool::taken(pool, addr) is None,
        crate::channel::carried(items) + crate::channel::closing_messages(events)
            == hung_up_channel(items),
        crate::pool::taken(
            crate::pool::after_put(crate::pool::after_get(pool, addr), addr, conn),
            addr,
        ) == Some(conn),
        crate::handshake::received(reused_connection(ser, first, items, second, rest)) == Some(
            RecvHandshake::<Seq<u8>, Seq<u8>>::Channel(
                first,
                framed_all(payloads(ser, hung_up_channel(items))) + (crate::connect::opening_bytes(
                    true,
                    second,
                ) + rest),
            ),
        ),
        frames_read(
            framed_all(payloads(ser, hung_up_channel(items))) + (crate::connect::opening_bytes(
                true,
                second,
            ) + rest),
            items.len() + 1,
        ) == Some(
            (
                payloads(ser, hung_up_channel(items)),
                crate::connect::opening_bytes(true, second) + rest,
            ),
        ),
{
    let messages = hung_up_channel(items);
    let sent = payloads(ser, messages);
    let next = crate::connect::opening_bytes(true, second) + rest;
    crate::channel::law_channel_is_hung_up_once(state, events);
    assert(crate::channel::carried(items) + crate::channel::closing_messages(events) =~= messages);
    crate::handshake::law_channel_handshake_is_received(first, framed_all(sent) + next);
    assert forall|i: int| 0 <= i < sent.len() implies (#[trigger] sent[i]).len()
        <= crate::frame::MAX_FRAME_LENGTH by {
        assert(sent[i] == ser(messages[i]));
    }
    law_frames_are_read_back(sent, next);
}

} // verus!
