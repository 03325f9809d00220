//! The framing under the master-worker RPC: a transport over WebSocket messages, and the
//! routing of one connection's messages to the two RPC directions it carries.
use vstd::prelude::*;

verus! {

/// A transport carrying RPC frames over a WebSocket stream `inner`: `to_msg` (a function
/// from `Vec<u8>` to `M`) wraps an encoded frame into a WebSocket message, and `from_msg`
/// (a function from `M` to `Option<Vec<u8>>`) takes the frame out of one, giving none for
/// messages that carry no frame, which are skipped. `In` and `Out` are the frames read and
/// written, `E` the stream's error.
pub struct WsTransport<S, In, Out, M, E, ToMsg, FromMsg> {
    pub inner: S,
    pub to_msg: ToMsg,
    pub from_msg: FromMsg,
    pub _phantom: std::marker::PhantomData<(In, Out, M, E)>,
}

impl<S, In, Out, M, E, ToMsg, FromMsg> WsTransport<S, In, Out, M, E, ToMsg, FromMsg> {
    /// A transport over `inner` with the given wrapping and unwrapping of frames.
    pub fn new(inner: S, to_msg: ToMsg, from_msg: FromMsg) -> (t: Self)
        where
            ToMsg: Fn(Vec<u8>) -> M,
            FromMsg: Fn(M) -> Option<Vec<u8>>,
        ensures
            t.inner == inner,
            t.to_msg == to_msg,
            t.from_msg == from_msg,
    {
        WsTransport { inner, to_msg, from_msg, _phantom: std::marker::PhantomData }
    }
}

/// One message of a connection that carries RPC in both directions: `A` for one
/// direction, `B` for the other.
pub enum BidiMessage<A, B> {
    A(A),
    B(B),
}

/// What the reading side of a multiplexed connection does with what it read.
pub enum Demux<A, B, E> {
    /// Hand the message to the `A` direction.
    ToA(A),
    /// Hand the message to the `B` direction.
    ToB(B),
    /// Report the read error to both directions and stop reading.
    FailBoth(E),
    /// The connection ended: stop reading.
    Stop,
}

/// Routes what was read from a multiplexed connection: each message to its direction; a
/// read error to both directions, after which reading stops; the end of the stream stops
/// reading.
pub fn demux<A, B, E>(read: Option<Result<BidiMessage<A, B>, E>>) -> (d: Demux<A, B, E>)
    ensures
        match read {
            None => d is Stop,
            Some(Err(e)) => d == Demux::<A, B, E>::FailBoth(e),
            Some(Ok(BidiMessage::A(a))) => d == Demux::<A, B, E>::ToA(a),
            Some(Ok(BidiMessage::B(b))) => d == Demux::<A, B, E>::ToB(b),
        },
{
    match read {
        None => Demux::Stop,
        Some(Err(e)) => Demux::FailBoth(e),
        Some(Ok(BidiMessage::A(a))) => Demux::ToA(a),
        Some(Ok(BidiMessage::B(b))) => Demux::ToB(b),
    }
}

} // verus!
