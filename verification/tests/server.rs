use oddity_rtsp_server::codec::{Codec, Decoded, DecodeError, Direction, encode_outbound_item};
use oddity_rtsp_server::connection::{
    connection_step, write_queue, ConnAction, ConnEvent, ConnectionIdGenerator,
};
use oddity_rtsp_server::handler::{handle, ConnCtx, ServerState};
use oddity_rtsp_server::message::{Headers, Request, Response, ResponseMaybeInterleaved, Version};
use oddity_rtsp_server::session::{
    interleave_mux_output, on_mux_result, pick_rtp_port, send_failure_step,
    session_on_source_msg, MuxStep, RtpBuf, SendInterleaved, SessionDecision, SessionState,
};
use oddity_rtsp_server::source::{Source, SourceMsg, StreamInfo};
use oddity_rtsp_server::transport::{parse_transport, Lower, Port};

fn sender() -> tokio::sync::mpsc::UnboundedSender<ResponseMaybeInterleaved> {
    tokio::sync::mpsc::unbounded_channel().0
}

fn ctx_with(rtp_port: Option<u16>) -> ConnCtx {
    ConnCtx {
        peer_ip: b"192.0.2.7".to_vec(),
        date: b"Mon, 01 Jan 2024 00:00:00 GMT".to_vec(),
        rtp_port,
        next_chan: 0,
    }
}

fn decode_request(bytes: &[u8]) -> Request {
    let mut codec = Codec::new(Direction::AsServer);
    let mut buf = bytes.to_vec();
    match codec.decode(&mut buf) {
        Ok(Some(Decoded::Request(r))) => r,
        other => panic!("expected a request, got {:?}", kind_of(&other)),
    }
}

fn kind_of(r: &Result<Option<Decoded>, DecodeError>) -> String {
    match r {
        Ok(None) => "hungry".to_string(),
        Ok(Some(Decoded::Request(_))) => "request".to_string(),
        Ok(Some(Decoded::Response(_))) => "response".to_string(),
        Ok(Some(Decoded::Interleaved { .. })) => "interleaved".to_string(),
        Err(e) => format!("{:?}", e),
    }
}

fn header(r: &Response, name: &str) -> Option<Vec<u8>> {
    r.headers.get(&name.as_bytes().to_vec())
}

fn respond(state: &mut ServerState, ctx: &ConnCtx, raw: &[u8]) -> Response {
    let req = decode_request(raw);
    handle(state, ctx, sender(), &req)
}

#[test]
fn options_happy_path() {
    let mut state = ServerState::new();
    let ctx = ctx_with(None);
    let resp = respond(&mut state, &ctx, b"OPTIONS * RTSP/1.0\r\nCSeq: 1\r\n\r\n");
    let mut wire = Vec::new();
    let mut codec = Codec::new(Direction::AsServer);
    codec.encode(&ResponseMaybeInterleaved::Message(resp), &mut wire);
    let text = String::from_utf8(wire).unwrap();
    assert!(text.starts_with("RTSP/1.0 200 OK\r\nCSeq: 1\r\n"));
    assert!(text.contains("Public: OPTIONS, DESCRIBE, SETUP, PLAY, PAUSE, TEARDOWN"));
}

#[test]
fn setup_udp_even_server_port() {
    let mut state = ServerState::new();
    let ctx = ctx_with(Some(5004));
    let resp = respond(
        &mut state,
        &ctx,
        b"SETUP rtsp://h/s RTSP/1.0\r\nCSeq: 2\r\nTransport: RTP/AVP;unicast;client_port=5000-5001\r\n\r\n",
    );
    assert_eq!(resp.status, 200);
    let session = header(&resp, "Session").expect("session header");
    let token: Vec<u8> = session.split(|b| *b == b';').next().unwrap().to_vec();
    assert!(!token.is_empty());
    assert!(token.iter().all(|b| b.is_ascii_digit()));
    let transport = header(&resp, "Transport").expect("transport header");
    let t = String::from_utf8(transport).unwrap();
    assert!(t.contains("client_port=5000-5001"), "{}", t);
    assert!(t.contains("server_port=5004-5005"), "{}", t);
}

#[test]
fn setup_tcp_interleaved_echo() {
    let mut state = ServerState::new();
    let ctx = ctx_with(None);
    let resp = respond(
        &mut state,
        &ctx,
        b"SETUP rtsp://h/s RTSP/1.0\r\nCSeq: 2\r\nTransport: RTP/AVP/TCP;unicast;interleaved=0-1\r\n\r\n",
    );
    assert_eq!(resp.status, 200);
    let transport = String::from_utf8(header(&resp, "Transport").unwrap()).unwrap();
    assert!(transport.contains("interleaved=0-1"), "{}", transport);
}

#[test]
fn play_before_setup_is_454() {
    let mut state = ServerState::new();
    let ctx = ctx_with(None);
    let resp = respond(
        &mut state,
        &ctx,
        b"PLAY rtsp://h/s RTSP/1.0\r\nCSeq: 3\r\nSession: 42\r\n\r\n",
    );
    assert_eq!(resp.status, 454);
}

#[test]
fn interleaved_delivery_bytes() {
    let target = SendInterleaved {
        sender: sender(),
        rtp_channel: 0,
        rtcp_channel: 1,
    };
    let item = interleave_mux_output(&target, RtpBuf::Rtp(vec![0xAA, 0xBB]));
    let wire = encode_outbound_item(&item);
    assert_eq!(wire, vec![0x24, 0x00, 0x00, 0x02, 0xAA, 0xBB]);
}

#[test]
fn unsupported_transport_461() {
    let mut state = ServerState::new();
    let ctx = ctx_with(Some(5004));
    let resp = respond(
        &mut state,
        &ctx,
        b"SETUP rtsp://h/s RTSP/1.0\r\nCSeq: 2\r\nTransport: RTP/SAVP;unicast,RTP/SAVP/TCP;unicast\r\n\r\n",
    );
    assert_eq!(resp.status, 461);
}

#[test]
fn double_teardown_200_then_454() {
    let mut state = ServerState::new();
    let ctx = ctx_with(None);
    let resp = respond(
        &mut state,
        &ctx,
        b"SETUP rtsp://h/s RTSP/1.0\r\nCSeq: 2\r\nTransport: RTP/AVP/TCP;unicast;interleaved=0-1\r\n\r\n",
    );
    assert_eq!(resp.status, 200);
    let session = header(&resp, "Session").unwrap();
    let token: Vec<u8> = session.split(|b| *b == b';').next().unwrap().to_vec();
    let teardown = [
        b"TEARDOWN rtsp://h/s RTSP/1.0\r\nCSeq: 3\r\nSession: ".to_vec(),
        token,
        b"\r\n\r\n".to_vec(),
    ]
    .concat();
    let first = respond(&mut state, &ctx, &teardown);
    assert_eq!(first.status, 200);
    let second = respond(&mut state, &ctx, &teardown);
    assert_eq!(second.status, 454);
}

#[test]
fn body_cap_boundary() {
    let mut codec = Codec::with_max_body(Direction::AsServer, 4);
    let mut at_cap =
        b"OPTIONS * RTSP/1.0\r\nCSeq: 1\r\nContent-Length: 4\r\n\r\nabcd".to_vec();
    match codec.decode(&mut at_cap) {
        Ok(Some(Decoded::Request(r))) => assert_eq!(r.body, b"abcd".to_vec()),
        other => panic!("expected a request, got {}", kind_of(&other)),
    }
    let mut over_cap =
        b"OPTIONS * RTSP/1.0\r\nCSeq: 1\r\nContent-Length: 5\r\n\r\nabcde".to_vec();
    match codec.decode(&mut over_cap) {
        Err(DecodeError::BodyTooLarge) => {}
        other => panic!("expected BodyTooLarge, got {}", kind_of(&other)),
    }
}

#[test]
fn port_allocation_failure_gives_500() {
    let odd_ports: Vec<u16> = (0..16).map(|i| 40001 + 2 * i).collect();
    assert_eq!(pick_rtp_port(&odd_ports), None);
    let mut state = ServerState::new();
    let ctx = ctx_with(None);
    let resp = respond(
        &mut state,
        &ctx,
        b"SETUP rtsp://h/s RTSP/1.0\r\nCSeq: 2\r\nTransport: RTP/AVP;unicast;client_port=5000-5001\r\n\r\n",
    );
    assert_eq!(resp.status, 500);
    assert_eq!(resp.reason, b"port unavailable".to_vec());
}

#[test]
fn pick_rtp_port_takes_first_even() {
    let ports: Vec<u16> = vec![40001, 40003, 40004, 40006];
    assert_eq!(pick_rtp_port(&ports), Some(40004));
}

#[test]
fn broadcast_overflow_drops_oldest_and_lags_once() {
    let cap = 4;
    let mut src = Source::new(b"/s".to_vec(), cap);
    let sub = src.subscribe();
    src.start(StreamInfo { sdp: b"v=0".to_vec() });
    match src.recv(sub) {
        Some(SourceMsg::Init(_)) => {}
        _ => panic!("expected Init first"),
    }
    for i in 0..(cap + 1) {
        src.broadcast_packet(&vec![i as u8]);
    }
    match src.recv(sub) {
        Some(SourceMsg::Lagged(n)) => assert_eq!(n, 1),
        _ => panic!("expected Lagged(1)"),
    }
    match src.recv(sub) {
        Some(SourceMsg::Packet(p)) => assert_eq!(p, vec![1u8]),
        _ => panic!("expected the second packet: the oldest was dropped"),
    }
}

#[test]
fn late_subscriber_sees_init_first() {
    let mut src = Source::new(b"/s".to_vec(), 8);
    src.start(StreamInfo { sdp: b"v=0".to_vec() });
    src.broadcast_packet(&vec![9u8]);
    let sub = src.subscribe();
    match src.recv(sub) {
        Some(SourceMsg::Init(info)) => assert_eq!(info.sdp, b"v=0".to_vec()),
        _ => panic!("expected Init as the very first observation"),
    }
    assert!(src.recv(sub).is_none(), "earlier packets are not replayed");
}

#[test]
fn paused_session_never_muxes() {
    match session_on_source_msg(SessionState::Paused, SourceMsg::Packet(vec![1, 2])) {
        SessionDecision::Drop => {}
        _ => panic!("paused sessions drop packets"),
    }
    match session_on_source_msg(SessionState::Playing, SourceMsg::Packet(vec![1, 2])) {
        SessionDecision::Mux(p) => assert_eq!(p, vec![1, 2]),
        _ => panic!("playing sessions mux packets"),
    }
    match session_on_source_msg(SessionState::Playing, SourceMsg::End) {
        SessionDecision::Stop => {}
        _ => panic!("End stops the session"),
    }
}

#[test]
fn interleaved_frame_round_trip() {
    let item = ResponseMaybeInterleaved::Interleaved {
        channel: 7,
        payload: vec![1, 2, 3, 4, 5],
    };
    let wire = encode_outbound_item(&item);
    let mut codec = Codec::new(Direction::AsServer);
    let mut buf = wire.clone();
    match codec.decode(&mut buf) {
        Ok(Some(Decoded::Interleaved { channel, payload })) => {
            assert_eq!(channel, 7);
            assert_eq!(payload, vec![1, 2, 3, 4, 5]);
        }
        other => panic!("expected the same frame back, got {}", kind_of(&other)),
    }
    assert!(buf.is_empty());
}

#[test]
fn response_round_trip() {
    let mut headers = Headers::new();
    headers.add(b"CSeq".to_vec(), b"9".to_vec());
    headers.add(b"Content-Length".to_vec(), b"2".to_vec());
    let resp = Response {
        version: Version::V10,
        status: 200,
        reason: b"OK".to_vec(),
        headers,
        body: b"ab".to_vec(),
    };
    let wire = encode_outbound_item(&ResponseMaybeInterleaved::Message(resp));
    let mut codec = Codec::new(Direction::AsClient);
    let mut buf = wire.clone();
    match codec.decode(&mut buf) {
        Ok(Some(Decoded::Response(r))) => {
            assert_eq!(r.status, 200);
            assert_eq!(r.reason, b"OK".to_vec());
            assert_eq!(r.body, b"ab".to_vec());
            assert_eq!(header(&r, "cseq"), Some(b"9".to_vec()));
        }
        other => panic!("expected the response back, got {}", kind_of(&other)),
    }
    assert!(buf.is_empty());
}

#[test]
fn decoder_leaves_trailing_bytes() {
    let mut codec = Codec::new(Direction::AsServer);
    let mut buf = b"OPTIONS * RTSP/1.0\r\nCSeq: 1\r\nContent-Length: 3\r\n\r\nxyzREST".to_vec();
    match codec.decode(&mut buf) {
        Ok(Some(Decoded::Request(r))) => {
            assert_eq!(r.body, b"xyz".to_vec());
            assert_eq!(r.method, b"OPTIONS".to_vec());
        }
        other => panic!("expected a request, got {}", kind_of(&other)),
    }
    assert_eq!(buf, b"REST".to_vec());
}

#[test]
fn decoder_is_hungry_on_partial_input() {
    let mut codec = Codec::new(Direction::AsServer);
    let mut buf = b"OPTIONS * RTSP/1.0\r\nCSeq: 1\r\nContent-Leng".to_vec();
    let before = buf.clone();
    assert!(matches!(codec.decode(&mut buf), Ok(None)));
    assert_eq!(buf, before);
}

#[test]
fn decoder_accepts_bare_lf() {
    let mut codec = Codec::new(Direction::AsServer);
    let mut buf = b"OPTIONS * RTSP/1.0\nCSeq: 1\n\n".to_vec();
    match codec.decode(&mut buf) {
        Ok(Some(Decoded::Request(r))) => {
            assert_eq!(header_req(&r, "CSeq"), Some(b"1".to_vec()));
        }
        other => panic!("expected a request, got {}", kind_of(&other)),
    }
}

fn header_req(r: &Request, name: &str) -> Option<Vec<u8>> {
    r.headers.get(&name.as_bytes().to_vec())
}

#[test]
fn decoder_rejects_malformed_start_line() {
    let mut codec = Codec::new(Direction::AsServer);
    let mut buf = b"NONSENSE\r\n\r\n".to_vec();
    assert!(matches!(
        codec.decode(&mut buf),
        Err(DecodeError::MalformedStartLine)
    ));
}

#[test]
fn decoder_rejects_malformed_header() {
    let mut codec = Codec::new(Direction::AsServer);
    let mut buf = b"OPTIONS * RTSP/1.0\r\nno-colon-here\r\n\r\n".to_vec();
    assert!(matches!(
        codec.decode(&mut buf),
        Err(DecodeError::MalformedHeader)
    ));
}

#[test]
fn decoder_rejects_bad_content_length() {
    let mut codec = Codec::new(Direction::AsServer);
    let mut buf = b"OPTIONS * RTSP/1.0\r\nContent-Length: 12x\r\n\r\n".to_vec();
    assert!(matches!(
        codec.decode(&mut buf),
        Err(DecodeError::InvalidContentLength)
    ));
}

#[test]
fn unknown_method_is_501() {
    let mut state = ServerState::new();
    let ctx = ctx_with(None);
    let resp = respond(&mut state, &ctx, b"ANNOUNCE * RTSP/1.0\r\nCSeq: 4\r\n\r\n");
    assert_eq!(resp.status, 501);
}

#[test]
fn missing_cseq_is_400() {
    let mut state = ServerState::new();
    let ctx = ctx_with(None);
    let resp = respond(&mut state, &ctx, b"OPTIONS * RTSP/1.0\r\n\r\n");
    assert_eq!(resp.status, 400);
}

#[test]
fn cseq_is_echoed() {
    let mut state = ServerState::new();
    let ctx = ctx_with(None);
    let resp = respond(&mut state, &ctx, b"OPTIONS * RTSP/1.0\r\nCSeq: 31337\r\n\r\n");
    assert_eq!(header(&resp, "CSeq"), Some(b"31337".to_vec()));
    assert_eq!(header(&resp, "cSeQ"), Some(b"31337".to_vec()));
}

#[test]
fn describe_serves_sdp() {
    let mut state = ServerState::new();
    let ctx = ctx_with(None);
    let mut src = Source::new(b"rtsp://h/s".to_vec(), 8);
    src.start(StreamInfo { sdp: b"v=0\r\no=- 0 0 IN IP4 0.0.0.0\r\n".to_vec() });
    assert!(state.register_source(src));
    let resp = respond(
        &mut state,
        &ctx,
        b"DESCRIBE rtsp://h/s RTSP/1.0\r\nCSeq: 5\r\nAccept: application/sdp\r\n\r\n",
    );
    assert_eq!(resp.status, 200);
    assert_eq!(resp.body, b"v=0\r\no=- 0 0 IN IP4 0.0.0.0\r\n".to_vec());
    assert_eq!(
        header(&resp, "Content-Length"),
        Some(b"29".to_vec())
    );
    let missing = respond(
        &mut state,
        &ctx,
        b"DESCRIBE rtsp://h/other RTSP/1.0\r\nCSeq: 6\r\n\r\n",
    );
    assert_eq!(missing.status, 404);
    let unacceptable = respond(
        &mut state,
        &ctx,
        b"DESCRIBE rtsp://h/s RTSP/1.0\r\nCSeq: 7\r\nAccept: text/html\r\n\r\n",
    );
    assert_eq!(unacceptable.status, 406);
}

#[test]
fn play_pause_state_machine() {
    let mut state = ServerState::new();
    let ctx = ctx_with(None);
    let resp = respond(
        &mut state,
        &ctx,
        b"SETUP rtsp://h/s RTSP/1.0\r\nCSeq: 2\r\nTransport: RTP/AVP/TCP;unicast;interleaved=0-1\r\n\r\n",
    );
    let session = header(&resp, "Session").unwrap();
    let token: Vec<u8> = session.split(|b| *b == b';').next().unwrap().to_vec();
    let with_session = |verb: &str, cseq: u32| {
        [
            format!("{} rtsp://h/s RTSP/1.0\r\nCSeq: {}\r\nSession: ", verb, cseq).into_bytes(),
            token.clone(),
            b"\r\n\r\n".to_vec(),
        ]
        .concat()
    };
    // PAUSE before PLAY is not valid in Ready
    let pause_early = respond(&mut state, &ctx, &with_session("PAUSE", 3));
    assert_eq!(pause_early.status, 455);
    let play = respond(&mut state, &ctx, &with_session("PLAY", 4));
    assert_eq!(play.status, 200);
    let pause = respond(&mut state, &ctx, &with_session("PAUSE", 5));
    assert_eq!(pause.status, 200);
    let play_again = respond(&mut state, &ctx, &with_session("PLAY", 6));
    assert_eq!(play_again.status, 200);
}

#[test]
fn write_queue_concatenates_whole_items() {
    let mut headers = Headers::new();
    headers.add(b"CSeq".to_vec(), b"1".to_vec());
    let resp = Response {
        version: Version::V10,
        status: 200,
        reason: b"OK".to_vec(),
        headers,
        body: Vec::new(),
    };
    let items = vec![
        ResponseMaybeInterleaved::Message(resp),
        ResponseMaybeInterleaved::Interleaved { channel: 2, payload: vec![0xEE] },
    ];
    let wire = write_queue(&items);
    let expected = b"RTSP/1.0 200 OK\r\nCSeq: 1\r\n\r\n\x24\x02\x00\x01\xEE".to_vec();
    assert_eq!(wire, expected);
}

#[test]
fn connection_id_generator_counts_up() {
    let mut gen = ConnectionIdGenerator::new();
    let a = gen.generate();
    let b = gen.generate();
    assert_eq!(a.0, 0);
    assert_eq!(b.0, 1);
    assert_eq!(a.to_decimal(), b"0".to_vec());
}

#[test]
fn transport_parsing_is_tolerant() {
    let t = parse_transport(&b"rtp/avp;UNICAST;client_port=8000".to_vec());
    assert_eq!(t.lower, Some(Lower::Udp));
    assert_eq!(t.client_port, Some(Port::Single(8000)));
    let t2 = parse_transport(&b"RTP/SAVP;unicast".to_vec());
    assert_eq!(t2.lower, None);
}

#[test]
fn start_line_tolerates_multiple_spaces() {
    let req = decode_request(b"OPTIONS   *    RTSP/1.0\r\nCSeq: 8\r\n\r\n");
    assert_eq!(req.method, b"OPTIONS".to_vec());
    assert_eq!(req.uri, b"*".to_vec());
}

#[test]
fn decoder_resumes_after_more_bytes() {
    let mut codec = Codec::new(Direction::AsServer);
    let mut buf = b"OPTIONS * RTSP/1.0\r\nCSeq".to_vec();
    assert!(matches!(codec.decode(&mut buf), Ok(None)));
    buf.extend_from_slice(b": 1\r\n\r\n");
    match codec.decode(&mut buf) {
        Ok(Some(Decoded::Request(r))) => {
            assert_eq!(header_req(&r, "CSeq"), Some(b"1".to_vec()));
        }
        other => panic!("expected a request, got {}", kind_of(&other)),
    }
    assert!(buf.is_empty());
}

#[test]
fn parse_error_becomes_400_reply() {
    match connection_step(ConnEvent::InboundInvalid(DecodeError::BodyTooLarge)) {
        ConnAction::Reply { response, close } => {
            assert_eq!(response.status, 400);
            assert_eq!(response.reason, b"Bad Request".to_vec());
            assert!(close, "an oversize body closes the connection after the 400");
        }
        _ => panic!("expected a 400 reply"),
    }
    match connection_step(ConnEvent::InboundInvalid(DecodeError::MalformedHeader)) {
        ConnAction::Reply { response, close } => {
            assert_eq!(response.status, 400);
            assert!(!close, "other parse errors keep the connection open");
        }
        _ => panic!("expected a 400 reply"),
    }
}

#[test]
fn play_subscribes_and_teardown_unsubscribes() {
    let mut state = ServerState::new();
    let ctx = ctx_with(None);
    let mut src = Source::new(b"rtsp://h/s".to_vec(), 8);
    src.start(StreamInfo { sdp: b"v=0".to_vec() });
    assert!(state.register_source(src));
    let resp = respond(
        &mut state,
        &ctx,
        b"SETUP rtsp://h/s RTSP/1.0\r\nCSeq: 2\r\nTransport: RTP/AVP/TCP;unicast;interleaved=0-1\r\n\r\n",
    );
    assert_eq!(resp.status, 200);
    assert_eq!(state.sessions[0].sub, None);
    let session = header(&resp, "Session").unwrap();
    let token: Vec<u8> = session.split(|b| *b == b';').next().unwrap().to_vec();
    let with_session = |verb: &str, cseq: u32| {
        [
            format!("{} rtsp://h/s RTSP/1.0\r\nCSeq: {}\r\nSession: ", verb, cseq).into_bytes(),
            token.clone(),
            b"\r\n\r\n".to_vec(),
        ]
        .concat()
    };
    let play = respond(&mut state, &ctx, &with_session("PLAY", 3));
    assert_eq!(play.status, 200);
    assert_eq!(state.sessions[0].sub, Some((0, 0)));
    assert_eq!(state.sources[0].subscribers.len(), 1);
    assert!(state.sources[0].subscribers[0].live);
    let teardown = respond(&mut state, &ctx, &with_session("TEARDOWN", 4));
    assert_eq!(teardown.status, 200);
    assert!(state.sessions.is_empty());
    assert!(!state.sources[0].subscribers[0].live);
    assert!(state.sources[0].subscribers[0].queue.is_empty());
}

#[test]
fn source_stop_ends_every_live_subscriber() {
    let mut src = Source::new(b"/s".to_vec(), 8);
    let sub = src.subscribe();
    src.start(StreamInfo { sdp: b"v=0".to_vec() });
    src.stop();
    match src.recv(sub) {
        Some(SourceMsg::Init(_)) => {}
        _ => panic!("expected Init first"),
    }
    match src.recv(sub) {
        Some(SourceMsg::End) => {}
        _ => panic!("expected End last"),
    }
}

#[test]
fn unsubscribed_handle_observes_nothing() {
    let mut src = Source::new(b"/s".to_vec(), 8);
    src.start(StreamInfo { sdp: b"v=0".to_vec() });
    let sub = src.subscribe();
    src.unsubscribe(sub);
    src.broadcast_packet(&vec![1u8]);
    assert!(src.recv(sub).is_none());
    assert!(!src.subscribers[sub].live);
}

#[test]
fn failure_burst_tears_down_at_sixteen() {
    let mut count: u16 = 0;
    for i in 0..16 {
        let (next, teardown) = send_failure_step(count, false);
        count = next;
        if i < 15 {
            assert!(!teardown, "no teardown before the sixteenth failure");
        } else {
            assert!(teardown, "sixteen consecutive failures tear down");
        }
    }
    let (reset, teardown) = send_failure_step(count, true);
    assert_eq!(reset, 0);
    assert!(!teardown);
}

#[test]
fn mux_error_tears_down() {
    match on_mux_result(None) {
        MuxStep::TearDown => {}
        _ => panic!("a muxer error tears the session down"),
    }
    match on_mux_result(Some(RtpBuf::Rtp(vec![1]))) {
        MuxStep::Deliver(RtpBuf::Rtp(p)) => assert_eq!(p, vec![1]),
        _ => panic!("a produced unit is delivered"),
    }
}
