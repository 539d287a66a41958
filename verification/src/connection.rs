//! Per-connection pieces: identifiers, the worker's event decisions, and
//! the writer that turns queued outbound items into wire bytes.
//!
//! The task that owns the TCP socket reads events (an outbound item, an
//! inbound request, a stop) and asks `connection_step` what to do; the
//! bytes it writes come from the encoder, one whole item at a time.

use vstd::prelude::*;
use crate::message::{Request, Response, Version, Headers, ResponseMaybeInterleaved, body_declared};
use crate::codec::{enc_outbound, outbound_encodable, encode_outbound_item, DecodeError};
use crate::octets::{append_bytes, dec_rep, print_dec, lit, bytes_of};

verus! {

/// A connection's identifier, unique per process lifetime.
#[derive(Clone, Copy, Debug, PartialEq, Eq, Hash)]
pub struct ConnectionId(pub usize);

impl ConnectionId {
    /// Draws a random identifier; randomness suffices for log uniqueness
    /// across restarts.
    pub fn generate() -> (r: ConnectionId) {
        ConnectionId(rand::random::<usize>())
    }

    /// The identifier's decimal form, for logs and headers.
    pub fn to_decimal(&self) -> (r: Vec<u8>)
        ensures
            r@ == dec_rep(self.0 as nat),
    {
        print_dec(self.0)
    }
}

/// A deterministic identifier well: each draw is the counter's value.
pub struct ConnectionIdGenerator(pub usize);

impl ConnectionIdGenerator {
    pub fn new() -> (r: ConnectionIdGenerator)
        ensures
            r.0 == 0,
    {
        ConnectionIdGenerator(0)
    }

    pub fn generate(&mut self) -> (r: ConnectionId)
        requires
            old(self).0 < usize::MAX,
        ensures
            r == ConnectionId(old(self).0),
            final(self).0 == old(self).0 + 1,
    {
        let id = self.0;
        self.0 = self.0 + 1;
        ConnectionId(id)
    }
}

/// How a connection ended: the client went away, or this side closed it.
pub enum ConnectionState {
    Disconnected(ConnectionId),
    Closed(ConnectionId),
}

/// One ready event in the connection worker's select.
pub enum ConnEvent {
    /// An outbound item is ready to write.
    Outbound(ResponseMaybeInterleaved),
    /// The outbound queue's senders are all gone.
    OutboundClosed,
    /// An inbound request was decoded.
    Inbound(Request),
    /// The inbound bytes did not decode: a parse error.
    InboundInvalid(DecodeError),
    /// The socket read failed.
    InboundIoError,
    /// The client closed the stream.
    InboundEof,
    /// Stop was requested.
    StopRequested,
}

/// What the worker does for one event.
pub enum ConnAction {
    /// Write this item whole, responses and frames never split.
    Write(ResponseMaybeInterleaved),
    /// Hand this request to the handler and enqueue its response.
    Handle(Request),
    /// Write this error answer whole; close afterwards only when `close`
    /// is set.
    Reply { response: Response, close: bool },
    /// Leave the loop; the client disconnected.
    ExitDisconnected,
    /// Leave the loop for any other reason.
    ExitClosed,
}

/// The answer to bytes that did not parse: a bare 400 (the request never
/// parsed, so there is no CSeq to echo).
pub fn decode_error_reply(e: &DecodeError) -> (r: Response)
    ensures
        r.status == 400,
        r.reason@ == bytes_of("Bad Request"@),
        r.version is V10,
        r.headers.pairs().len() == 0,
        r.body@.len() == 0,
        body_declared(r.headers.pairs(), r.body@),
{
    proof {
        reveal_strlit("Bad Request");
    }
    let headers = Headers::new();
    proof {
        assert(crate::message::lookup_hdr(
            headers.pairs(),
            crate::message::content_length_lc(),
        ) is None);
    }
    Response { version: Version::V10, status: 400, reason: lit("Bad Request"), headers, body: Vec::new() }
}

/// One iteration of the connection worker: the first ready event wins and
/// maps to exactly one action. A parse error is answered with 400; only
/// an oversize body (or an I/O failure) closes the connection.
pub fn connection_step(ev: ConnEvent) -> (r: ConnAction)
    ensures
        (match ev {
            ConnEvent::Outbound(item) => r == ConnAction::Write(item),
            ConnEvent::OutboundClosed => r == ConnAction::ExitClosed,
            ConnEvent::Inbound(req) => r == ConnAction::Handle(req),
            ConnEvent::InboundInvalid(e) => r matches ConnAction::Reply { response, close } && {
                &&& response.status == 400
                &&& response.reason@ == bytes_of("Bad Request"@)
                &&& response.version is V10
                &&& body_declared(response.headers.pairs(), response.body@)
                &&& close == (e is BodyTooLarge)
            },
            ConnEvent::InboundIoError => r == ConnAction::ExitClosed,
            ConnEvent::InboundEof => r == ConnAction::ExitDisconnected,
            ConnEvent::StopRequested => r == ConnAction::ExitClosed,
        }),
{
    match ev {
        ConnEvent::Outbound(item) => ConnAction::Write(item),
        ConnEvent::OutboundClosed => ConnAction::ExitClosed,
        ConnEvent::Inbound(req) => ConnAction::Handle(req),
        ConnEvent::InboundInvalid(e) => {
            let close: bool = match e {
                DecodeError::BodyTooLarge => true,
                _ => false,
            };
            let response = decode_error_reply(&e);
            ConnAction::Reply { response, close }
        },
        ConnEvent::InboundIoError => ConnAction::ExitClosed,
        ConnEvent::InboundEof => ConnAction::ExitDisconnected,
        ConnEvent::StopRequested => ConnAction::ExitClosed,
    }
}

/// The one terminal notification a finished worker sends.
pub fn terminal_state(id: ConnectionId, disconnected: bool) -> (r: ConnectionState)
    ensures
        disconnected ==> r == ConnectionState::Disconnected(id),
        !disconnected ==> r == ConnectionState::Closed(id),
{
    if disconnected {
        ConnectionState::Disconnected(id)
    } else {
        ConnectionState::Closed(id)
    }
}

/// The bytes of a queue of outbound items, one whole encoding after the
/// other.
pub open spec fn enc_all(items: Seq<ResponseMaybeInterleaved>) -> Seq<u8>
    decreases items.len(),
{
    if items.len() == 0 {
        Seq::empty()
    } else {
        enc_outbound(items[0]) + enc_all(items.drop_first())
    }
}

/// Appending an item appends its whole encoding.
pub proof fn lemma_enc_all_snoc(items: Seq<ResponseMaybeInterleaved>, item: ResponseMaybeInterleaved)
    ensures
        enc_all(items.push(item)) == enc_all(items) + enc_outbound(item),
    decreases items.len(),
{
    if items.len() == 0 {
        assert(items.push(item).drop_first() =~= Seq::<ResponseMaybeInterleaved>::empty());
        assert(items.push(item)[0] == item);
        assert(enc_all(items.push(item).drop_first()) == Seq::<u8>::empty());
        assert(enc_all(items.push(item)) == enc_outbound(item) + Seq::<u8>::empty());
        assert(enc_outbound(item) + Seq::<u8>::empty() =~= Seq::<u8>::empty() + enc_outbound(
            item,
        ));
    } else {
        lemma_enc_all_snoc(items.drop_first(), item);
        assert(items.push(item).drop_first() =~= items.drop_first().push(item));
        assert(items.push(item)[0] == items[0]);
        assert(enc_outbound(items[0]) + (enc_all(items.drop_first()) + enc_outbound(item)) =~= (
        enc_outbound(items[0]) + enc_all(items.drop_first())) + enc_outbound(item));
    }
}

/// Writes a queue of outbound items in enqueue order: the bytes are a
/// concatenation of whole encoded responses and whole interleaved frames,
/// no item split by another.
pub fn write_queue(items: &Vec<ResponseMaybeInterleaved>) -> (r: Vec<u8>)
    requires
        forall|i: int| 0 <= i < items@.len() ==> outbound_encodable(#[trigger] items@[i]),
    ensures
        r@ == enc_all(items@),
{
    let mut out: Vec<u8> = Vec::new();
    let mut i: usize = 0;
    proof {
        assert(enc_all(items@.take(0)) =~= Seq::<u8>::empty());
    }
    while i < items.len()
        invariant
            i <= items@.len(),
            forall|k: int| 0 <= k < items@.len() ==> outbound_encodable(#[trigger] items@[k]),
            out@ == enc_all(items@.take(i as int)),
        decreases items@.len() - i,
    {
        let bytes = encode_outbound_item(&items[i]);
        append_bytes(&mut out, &bytes);
        proof {
            lemma_enc_all_snoc(items@.take(i as int), items@[i as int]);
            assert(items@.take(i + 1) =~= items@.take(i as int).push(items@[i as int]));
        }
        i = i + 1;
    }
    proof {
        assert(items@.take(i as int) =~= items@);
    }
    out
}

} // verus!
