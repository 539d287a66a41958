//! Sessions: the per-SETUP state machine, transport resolution, and the
//! forwarding of muxed RTP/RTCP units to the chosen destination.
//!
//! The RTP muxer itself is an outside collaborator owned by the task that
//! runs the session; it hands this module finished `RtpBuf` units. The
//! task loop around these functions performs the socket I/O.

use vstd::prelude::*;
use tokio::sync::mpsc::UnboundedSender;
use crate::message::ResponseMaybeInterleaved;
use crate::octets::{all_digits, print_dec, lemma_dec_rep_val};
use crate::transport::{
    Transport,
    TransportView,
    Port,
    Channel,
    Lower,
    tvs,
    first_supported,
    pick_supported,
    supported,
};

verus! {

/// Declares tokio's unbounded sender so that a session can hold the
/// capability to its connection's writer.
#[verifier::external_type_specification]
#[verifier::external_body]
#[verifier::reject_recursive_types(T)]
pub struct ExUnboundedSender<T>(UnboundedSender<T>);

/// Relies on tokio's UnboundedSender::send: queues the item for the
/// receiving writer unless that receiver is gone; returns whether it was
/// accepted. What the queue holds is not visible here.
#[verifier::external_body]
pub fn send_outbound(tx: &UnboundedSender<ResponseMaybeInterleaved>, item: ResponseMaybeInterleaved) -> (r:
    bool)
{
    tx.send(item).is_ok()
}

/// A session's printable, unguessable identifier: the decimal numeral of
/// a 64-bit draw from the process RNG.
pub struct SessionId {
    pub token: Vec<u8>,
}

impl SessionId {
    /// Draws a fresh identifier. Whatever was drawn, the token is a
    /// non-empty digit string.
    pub fn generate() -> (r: SessionId)
        ensures
            all_digits(r.token@),
            r.token@.len() >= 1,
    {
        let n: usize = rand::random::<usize>();
        let token = print_dec(n);
        proof {
            lemma_dec_rep_val(n as nat);
        }
        SessionId { token }
    }
}

/// The session life cycle. SETUP creates a session in `Ready`; PLAY and
/// PAUSE move between `Playing` and `Paused`; TEARDOWN is accepted from
/// every state and is terminal.
#[derive(Clone, Copy, Debug, PartialEq, Eq)]
pub enum SessionState {
    Init,
    Ready,
    Playing,
    Paused,
    Teardown,
}

use crate::message::Method;

/// The state after a verb, or `None` where the verb is not valid in this
/// state (the handler answers 455).
pub open spec fn next_state(s: SessionState, m: Method) -> Option<SessionState> {
    match m {
        Method::Setup => match s {
            SessionState::Init => Some(SessionState::Ready),
            SessionState::Ready => Some(SessionState::Ready),
            _ => None,
        },
        Method::Play => match s {
            SessionState::Ready => Some(SessionState::Playing),
            SessionState::Paused => Some(SessionState::Playing),
            _ => None,
        },
        Method::Pause => match s {
            SessionState::Playing => Some(SessionState::Paused),
            _ => None,
        },
        Method::Teardown => Some(SessionState::Teardown),
        _ => None,
    }
}

/// Executable state transition; `None` is answered with 455.
pub fn transition(s: SessionState, m: Method) -> (r: Option<SessionState>)
    ensures
        r == next_state(s, m),
        m is Teardown ==> r == Some(SessionState::Teardown),
{
    match m {
        Method::Setup => match s {
            SessionState::Init => Some(SessionState::Ready),
            SessionState::Ready => Some(SessionState::Ready),
            _ => None,
        },
        Method::Play => match s {
            SessionState::Ready => Some(SessionState::Playing),
            SessionState::Paused => Some(SessionState::Playing),
            _ => None,
        },
        Method::Pause => match s {
            SessionState::Playing => Some(SessionState::Paused),
            _ => None,
        },
        Method::Teardown => Some(SessionState::Teardown),
        _ => None,
    }
}

/// One finished unit out of the RTP muxer.
pub enum RtpBuf {
    Rtp(Vec<u8>),
    Rtcp(Vec<u8>),
}

/// The UDP destination of a session: the client's address and its RTP and
/// RTCP ports, as plain values; the task around the library opens the
/// sockets.
pub struct SendOverSocket {
    pub remote_ip: Vec<u8>,
    pub rtp_port: u16,
    pub rtcp_port: u16,
}

/// The TCP-interleaved destination: the capability to the connection's
/// writer and the two channel numbers.
pub struct SendInterleaved {
    pub sender: UnboundedSender<ResponseMaybeInterleaved>,
    pub rtp_channel: u8,
    pub rtcp_channel: u8,
}

/// Where a session's RTP goes.
pub enum SessionSetupTarget {
    RtpUdp(SendOverSocket),
    RtpTcp(SendInterleaved),
}

/// The specification-level image of a target.
pub ghost enum TargetView {
    Udp { remote_ip: Seq<u8>, rtp_port: u16, rtcp_port: u16 },
    Tcp { rtp_channel: u8, rtcp_channel: u8 },
}

impl SessionSetupTarget {
    pub open spec fn view_t(&self) -> TargetView {
        match self {
            SessionSetupTarget::RtpUdp(s) => TargetView::Udp {
                remote_ip: s.remote_ip@,
                rtp_port: s.rtp_port,
                rtcp_port: s.rtcp_port,
            },
            SessionSetupTarget::RtpTcp(s) => TargetView::Tcp {
                rtp_channel: s.rtp_channel,
                rtcp_channel: s.rtcp_channel,
            },
        }
    }
}

/// Why a SETUP could not be satisfied.
#[derive(Clone, Copy, Debug, PartialEq, Eq)]
pub enum SessionSetupError {
    /// No candidate named a transport this server speaks (461).
    TransportNotSupported,
    /// A destination could not be derived from the chosen candidate (400).
    DestinationInvalid,
    /// No even RTP port could be bound within the retry bound (500).
    PortUnavailable,
}

/// The client ports a UDP target uses, derived from the transport: a
/// single port means the pair (p, p+1).
pub open spec fn client_port_pair(p: Port) -> Option<(u16, u16)> {
    match p {
        Port::Single(a) => if a < 65535 {
            Some((a, (a + 1) as u16))
        } else {
            None
        },
        Port::Range(a, b) => Some((a, b)),
    }
}

/// The interleaved channels a TCP target uses: a single channel means the
/// pair (c, c+1).
pub open spec fn chan_pair(c: Channel) -> Option<(u8, u8)> {
    match c {
        Channel::Single(a) => if a < 255 {
            Some((a, (a + 1) as u8))
        } else {
            None
        },
        Channel::Range(a, b) => Some((a, b)),
    }
}

/// The target a resolved transport dictates, or `None` where a needed
/// parameter is missing or unusable.
pub open spec fn target_of(tv: TransportView, peer_ip: Seq<u8>) -> Option<TargetView> {
    match tv.lower {
        None => None,
        Some(Lower::Udp) => match tv.client_port {
            None => None,
            Some(p) => match client_port_pair(p) {
                None => None,
                Some(pp) => {
                    let ip = match tv.destination {
                        None => peer_ip,
                        Some(d) => d,
                    };
                    Some(TargetView::Udp { remote_ip: ip, rtp_port: pp.0, rtcp_port: pp.1 })
                },
            },
        },
        Some(Lower::Tcp) => match tv.interleaved {
            None => None,
            Some(c) => match chan_pair(c) {
                None => None,
                Some(cc) => Some(
                    TargetView::Tcp { rtp_channel: cc.0, rtcp_channel: cc.1 },
                ),
            },
        },
    }
}

impl SessionSetupTarget {
    /// Derives the delivery target from a resolved transport: UDP sends
    /// to the client's destination (or the connection's peer) on its
    /// ports; TCP interleaves on the negotiated channels through `sender`.
    pub fn from_rtsp_transport(
        rtsp_transport: &Transport,
        sender: UnboundedSender<ResponseMaybeInterleaved>,
        peer_ip: &Vec<u8>,
    ) -> (r: Option<SessionSetupTarget>)
        ensures
            match r {
                Some(t) => target_of(rtsp_transport.tv(), peer_ip@) == Some(t.view_t()),
                None => target_of(rtsp_transport.tv(), peer_ip@) is None,
            },
    {
        match &rtsp_transport.lower {
            None => None,
            Some(Lower::Udp) => {
                match &rtsp_transport.client_port {
                    None => None,
                    Some(p) => {
                        let pair: (u16, u16) = match p {
                            Port::Single(a) => {
                                if *a < 65535 {
                                    (*a, *a + 1)
                                } else {
                                    return None;
                                }
                            },
                            Port::Range(a, b) => (*a, *b),
                        };
                        let ip: Vec<u8> = match &rtsp_transport.destination {
                            None => peer_ip.clone(),
                            Some(d) => d.clone(),
                        };
                        Some(
                            SessionSetupTarget::RtpUdp(
                                SendOverSocket {
                                    remote_ip: ip,
                                    rtp_port: pair.0,
                                    rtcp_port: pair.1,
                                },
                            ),
                        )
                    },
                }
            },
            Some(Lower::Tcp) => {
                match &rtsp_transport.interleaved {
                    None => None,
                    Some(c) => {
                        let pair: (u8, u8) = match c {
                            Channel::Single(a) => {
                                if *a < 255 {
                                    (*a, *a + 1)
                                } else {
                                    return None;
                                }
                            },
                            Channel::Range(a, b) => (*a, *b),
                        };
                        Some(
                            SessionSetupTarget::RtpTcp(
                                SendInterleaved {
                                    sender,
                                    rtp_channel: pair.0,
                                    rtcp_channel: pair.1,
                                },
                            ),
                        )
                    },
                }
            },
        }
    }
}

/// The first usable RTP port among the OS-offered candidates, trying at
/// most 16: it must be even (its RTCP companion is then port+1).
pub open spec fn first_even(ports: Seq<u16>, i: int) -> Option<int>
    decreases ports.len() - i,
    when i >= 0
{
    if i >= ports.len() || i >= 16 {
        None
    } else if ports[i] % 2 == 0 {
        Some(i)
    } else {
        first_even(ports, i + 1)
    }
}

/// Picks the RTP port out of bound-socket candidates: the first even one
/// within 16 tries. `None` after 16 failures (SETUP answers 500,
/// "port unavailable").
pub fn pick_rtp_port(ports: &Vec<u16>) -> (r: Option<u16>)
    ensures
        match r {
            Some(p) => exists|i: int|
                first_even(ports@, 0) == Some(i) && 0 <= i < ports@.len() && ports@[i] == p && p % 2
                    == 0,
            None => first_even(ports@, 0) is None,
        },
{
    let mut i: usize = 0;
    while i < ports.len() && i < 16
        invariant
            i <= ports@.len(),
            first_even(ports@, 0) == first_even(ports@, i as int),
        decreases ports@.len() - i,
    {
        if ports[i] % 2 == 0 {
            return Some(ports[i]);
        }
        i = i + 1;
    }
    None
}

/// The transport echoed to the client: the chosen candidate with the
/// server side filled in. UDP gains `server_port=p-(p+1)` with `p` even;
/// TCP gains the interleaved pair, the client's own if it gave one.
pub open spec fn resolved_tv(tv: TransportView, rtp_port: u16, next_chan: u8) -> TransportView {
    match tv.lower {
        Some(Lower::Udp) => TransportView {
            server_port: Some(Port::Range(rtp_port, (rtp_port + 1) as u16)),
            ..tv
        },
        Some(Lower::Tcp) => {
            let a = match tv.interleaved {
                Some(Channel::Single(a)) => if a < 255 {
                    a
                } else {
                    next_chan
                },
                Some(Channel::Range(a, b)) => if a < 255 {
                    a
                } else {
                    next_chan
                },
                None => next_chan,
            };
            TransportView { interleaved: Some(Channel::Range(a, (a + 1) as u8)), ..tv }
        },
        None => tv,
    }
}

/// Fills in the server side of a chosen transport.
pub fn resolve_transport(t: &Transport, rtp_port: u16, next_chan: u8) -> (r: Transport)
    requires
        rtp_port % 2 == 0,
        next_chan < 255,
    ensures
        r.tv() == resolved_tv(t.tv(), rtp_port, next_chan),
{
    let mut out = Transport {
        lower: t.lower,
        cast: t.cast,
        mode: t.mode,
        destination: match &t.destination {
            None => None,
            Some(d) => Some(d.clone()),
        },
        client_port: t.client_port,
        server_port: t.server_port,
        interleaved: t.interleaved,
    };
    match &t.lower {
        Some(Lower::Udp) => {
            proof {
                assert(rtp_port % 2 == 0 ==> rtp_port < 65535) by {
                    if rtp_port == 65535 {
                        assert(rtp_port % 2 == 1);
                    }
                };
            }
            out.server_port = Some(Port::Range(rtp_port, rtp_port + 1));
        },
        Some(Lower::Tcp) => {
            let a: u8 = match &t.interleaved {
                Some(Channel::Single(c)) => {
                    if *c < 255 {
                        *c
                    } else {
                        next_chan
                    }
                },
                Some(Channel::Range(c, d)) => {
                    if *c < 255 {
                        *c
                    } else {
                        next_chan
                    }
                },
                None => next_chan,
            };
            out.interleaved = Some(Channel::Range(a, a + 1));
        },
        None => {},
    }
    out
}


/// The port the negotiation resolves a UDP candidate with (unused for
/// TCP candidates).
pub open spec fn chosen_port(rtp_port: Option<u16>) -> u16 {
    match rtp_port {
        Some(p) => p,
        None => 0,
    }
}

/// Exactly when and why a negotiation fails: no supported candidate; a
/// UDP candidate chosen but no even port bound; or the chosen and
/// resolved candidate still yields no delivery target. `None` means
/// success is owed.
pub open spec fn setup_err_of(
    cands: Seq<TransportView>,
    peer_ip: Seq<u8>,
    rtp_port: Option<u16>,
    next_chan: u8,
) -> Option<SessionSetupError> {
    match first_supported(cands, 0) {
        None => Some(SessionSetupError::TransportNotSupported),
        Some(i) => {
            let chosen = cands[i];
            if chosen.lower == Some(Lower::Udp) && rtp_port is None {
                Some(SessionSetupError::PortUnavailable)
            } else if target_of(
                resolved_tv(chosen, chosen_port(rtp_port), next_chan),
                peer_ip,
            ) is None {
                Some(SessionSetupError::DestinationInvalid)
            } else {
                None
            }
        },
    }
}

/// The outcome of negotiating a SETUP: the transport to echo and the
/// delivery target.
pub struct SessionSetup {
    pub rtsp_transport: Transport,
    pub rtp_target: SessionSetupTarget,
}

impl SessionSetup {
    /// Negotiates the client's candidate transports, first supported one
    /// wins: resolves the server side and derives the delivery target.
    /// `rtp_port` is the even UDP port the task bound (absent when none
    /// could be), `next_chan` the connection's next free channel pair.
    pub fn from_rtsp_candidate_transports(
        candidate_transports: &Vec<Transport>,
        sender: UnboundedSender<ResponseMaybeInterleaved>,
        peer_ip: &Vec<u8>,
        rtp_port: Option<u16>,
        next_chan: u8,
    ) -> (r: Result<SessionSetup, SessionSetupError>)
        requires
            match rtp_port {
                Some(p) => p % 2 == 0,
                None => true,
            },
            next_chan < 255,
        ensures
            (r is Ok) == (setup_err_of(
                tvs(candidate_transports@),
                peer_ip@,
                rtp_port,
                next_chan,
            ) is None),
            (match r {
                Err(e) => setup_err_of(tvs(candidate_transports@), peer_ip@, rtp_port, next_chan)
                    == Some(e),
                Ok(_) => true,
            }),
            match r {
                Ok(setup) => exists|i: int|
                    {
                        &&& first_supported(tvs(candidate_transports@), 0) == Some(i)
                        &&& 0 <= i < candidate_transports@.len()
                        &&& {
                            let chosen = candidate_transports@[i].tv();
                            &&& supported(chosen)
                            &&& (chosen.lower == Some(Lower::Udp) ==> rtp_port is Some)
                            &&& setup.rtsp_transport.tv() == resolved_tv(
                                chosen,
                                match rtp_port {
                                    Some(p) => p,
                                    None => 0,
                                },
                                next_chan,
                            )
                            &&& target_of(setup.rtsp_transport.tv(), peer_ip@) == Some(
                                setup.rtp_target.view_t(),
                            )
                            &&& ((match setup.rtsp_transport.tv().server_port {
                                Some(Port::Range(p, q)) => p % 2 == 0 && q == p + 1,
                                _ => false,
                            }) || (match setup.rtsp_transport.tv().interleaved {
                                Some(Channel::Range(a, b)) => b == a + 1,
                                _ => false,
                            }))
                        }
                    },
                Err(SessionSetupError::TransportNotSupported) => first_supported(
                    tvs(candidate_transports@),
                    0,
                ) is None,
                Err(SessionSetupError::PortUnavailable) => rtp_port is None && (exists|i: int|
                    first_supported(tvs(candidate_transports@), 0) == Some(i) && 0 <= i
                        < candidate_transports@.len() && candidate_transports@[i].tv().lower
                        == Some(Lower::Udp)),
                Err(SessionSetupError::DestinationInvalid) => first_supported(
                    tvs(candidate_transports@),
                    0,
                ) is Some,
            },
    {
        let picked = pick_supported(candidate_transports);
        match picked {
            None => Err(SessionSetupError::TransportNotSupported),
            Some(i) => {
                let chosen = &candidate_transports[i];
                proof {
                    assert(tvs(candidate_transports@)[i as int] == candidate_transports@[
                        i as int
                    ].tv());
                }
                let is_udp: bool = match &chosen.lower {
                    Some(Lower::Udp) => true,
                    _ => false,
                };
                let port: u16;
                if is_udp {
                    match rtp_port {
                        None => {
                            return Err(SessionSetupError::PortUnavailable);
                        },
                        Some(p) => {
                            port = p;
                        },
                    }
                } else {
                    port = 0;
                }
                let resolved = resolve_transport(chosen, port, next_chan);
                proof {
                    assert(resolved_tv(chosen.tv(), port, next_chan) == resolved_tv(
                        chosen.tv(),
                        chosen_port(rtp_port),
                        next_chan,
                    ));
                    match chosen.tv().lower {
                        Some(Lower::Udp) => {
                            assert(resolved.tv().server_port == Some(
                                Port::Range(port, (port + 1) as u16),
                            ));
                        },
                        Some(Lower::Tcp) => {
                            assert(resolved.tv().interleaved matches Some(Channel::Range(a, b))
                                && b == a + 1);
                        },
                        None => {},
                    }
                }
                match SessionSetupTarget::from_rtsp_transport(&resolved, sender, peer_ip) {
                    None => Err(SessionSetupError::DestinationInvalid),
                    Some(target) => Ok(
                        SessionSetup { rtsp_transport: resolved, rtp_target: target },
                    ),
                }
            },
        }
    }
}

use crate::source::SourceMsg;

/// What the session task does with one source message.
pub enum SessionDecision {
    /// Hand the packet to the muxer and deliver its output.
    Mux(Vec<u8>),
    /// Nothing is written (not playing, an Init replay, or a lag notice).
    Drop,
    /// The source ended: tear the session down.
    Stop,
}

/// The decision for one source message in one state. Only a `Playing`
/// session muxes; a paused one drops every packet but keeps its
/// subscription; `End` always stops.
pub open spec fn decision_of(state: SessionState, msg: SourceMsg) -> SessionDecision {
    match msg {
        SourceMsg::End => SessionDecision::Stop,
        SourceMsg::Init(_) => SessionDecision::Drop,
        SourceMsg::Lagged(_) => SessionDecision::Drop,
        SourceMsg::Packet(p) => match state {
            SessionState::Playing => SessionDecision::Mux(p),
            _ => SessionDecision::Drop,
        },
    }
}

/// Decides what to do with one source message. A session that is not
/// `Playing` — in particular a `Paused` one — never asks for a write.
pub fn session_on_source_msg(state: SessionState, msg: SourceMsg) -> (r: SessionDecision)
    ensures
        r == decision_of(state, msg),
        !(state is Playing) ==> !(r is Mux),
{
    match msg {
        SourceMsg::End => SessionDecision::Stop,
        SourceMsg::Init(_) => SessionDecision::Drop,
        SourceMsg::Lagged(_) => SessionDecision::Drop,
        SourceMsg::Packet(p) => match state {
            SessionState::Playing => SessionDecision::Mux(p),
            _ => SessionDecision::Drop,
        },
    }
}

/// The interleaved frame one muxer output becomes: RTP rides the RTP
/// channel, RTCP its companion, payload unchanged.
pub fn interleave_mux_output(target: &SendInterleaved, out: RtpBuf) -> (r: ResponseMaybeInterleaved)
    ensures
        r == (match out {
            RtpBuf::Rtp(b) => ResponseMaybeInterleaved::Interleaved {
                channel: target.rtp_channel,
                payload: b,
            },
            RtpBuf::Rtcp(b) => ResponseMaybeInterleaved::Interleaved {
                channel: target.rtcp_channel,
                payload: b,
            },
        }),
{
    match out {
        RtpBuf::Rtp(b) => ResponseMaybeInterleaved::Interleaved {
            channel: target.rtp_channel,
            payload: b,
        },
        RtpBuf::Rtcp(b) => ResponseMaybeInterleaved::Interleaved {
            channel: target.rtcp_channel,
            payload: b,
        },
    }
}

/// What one muxer outcome means for the session: a produced unit is
/// delivered; a muxer failure tears this one session down (media errors
/// never reach other sessions).
pub enum MuxStep {
    Deliver(RtpBuf),
    TearDown,
}

/// Decides on one muxer outcome. The muxer itself is outside; its result
/// arrives as `Some` unit or `None` for an error.
pub fn on_mux_result(out: Option<RtpBuf>) -> (r: MuxStep)
    ensures
        r == (match out {
            Some(b) => MuxStep::Deliver(b),
            None => MuxStep::TearDown,
        }),
{
    match out {
        Some(b) => MuxStep::Deliver(b),
        None => MuxStep::TearDown,
    }
}

/// One step of the delivery-failure policy: a delivered item resets the
/// count; a failure raises it, and sixteen consecutive failures tear the
/// session down.
pub fn send_failure_step(consecutive: u16, ok: bool) -> (r: (u16, bool))
    ensures
        ok ==> r == (0u16, false),
        !ok ==> ({
            let c: u16 = if consecutive < u16::MAX {
                (consecutive + 1) as u16
            } else {
                consecutive
            };
            r == (c, c >= 16)
        }),
{
    if ok {
        (0, false)
    } else {
        let c: u16 = if consecutive < u16::MAX {
            consecutive + 1
        } else {
            consecutive
        };
        (c, c >= 16)
    }
}

/// The datagram one muxer output becomes on a UDP target: the payload and
/// the port it goes to (RTP or RTCP); the task sends it to the target's
/// address.
pub fn run_udp_step(target: &SendOverSocket, out: RtpBuf) -> (r: (u16, Vec<u8>))
    ensures
        r == (match out {
            RtpBuf::Rtp(b) => (target.rtp_port, b),
            RtpBuf::Rtcp(b) => (target.rtcp_port, b),
        }),
{
    match out {
        RtpBuf::Rtp(b) => (target.rtp_port, b),
        RtpBuf::Rtcp(b) => (target.rtcp_port, b),
    }
}

} // verus!
