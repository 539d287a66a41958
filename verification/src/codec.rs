//! Framed RTSP codec: a stateful decoder over a byte buffer yielding
//! either a textual message or a `$`-framed interleaved binary frame, and
//! a stateless encoder writing either kind.
//!
//! Framing: a buffer starting with `0x24` carries `0x24 | channel |
//! length (u16, big endian) | payload`. Anything else is a textual
//! message: a start line, then header lines, a blank line, and a body of
//! exactly `Content-Length` bytes (zero if the header is absent). Line
//! endings are CRLF on output; bare LF is accepted on input.

use vstd::prelude::*;
use crate::octets::{
    find_byte,
    lemma_find_byte,
    lemma_find_byte_is,
    lemma_find_byte_extend,
    lemma_dec_rep_val,
    find_byte_exec,
    subvec,
    append_bytes,
    all_digits,
    dec_val,
    dec_rep,
    parse_dec,
    print_dec,
    lit,
    range_eq,
    is_all_digits,
};
use crate::message::{
    Headers,
    Request,
    Response,
    Version,
    ResponseMaybeInterleaved,
    lookup_hdr,
    content_length_lc,
    content_length_name,
};

verus! {

/// Which side of the exchange this codec speaks for: a server decodes
/// requests and encodes responses; a client mirrors that.
#[derive(Clone, Copy, Debug, PartialEq, Eq)]
pub enum Direction {
    AsServer,
    AsClient,
}

/// Why a buffer was rejected.
#[derive(PartialEq, Eq, Clone, Copy, Debug)]
pub enum DecodeError {
    MalformedStartLine,
    MalformedHeader,
    InvalidContentLength,
    BodyTooLarge,
}

/// A decoded request, at specification level.
pub ghost struct SpecReq {
    pub method: Seq<u8>,
    pub uri: Seq<u8>,
    pub headers: Seq<(Seq<u8>, Seq<u8>)>,
    pub body: Seq<u8>,
}

/// A decoded response, at specification level.
pub ghost struct SpecRes {
    pub status: int,
    pub reason: Seq<u8>,
    pub headers: Seq<(Seq<u8>, Seq<u8>)>,
    pub body: Seq<u8>,
}

/// The outcome of one decode attempt on a buffer.
pub ghost enum SpecParse {
    /// More bytes are needed; nothing is consumed.
    Hungry,
    /// The buffer's head is not a message; the given error is reported.
    Fail(DecodeError),
    /// An interleaved frame occupying `used` bytes of the buffer.
    FrameDone { channel: u8, payload: Seq<u8>, used: int },
    /// A request occupying `used` bytes of the buffer.
    ReqDone { rq: SpecReq, used: int },
    /// A response occupying `used` bytes of the buffer.
    ResDone { rs: SpecRes, used: int },
}

pub open spec fn sp() -> Seq<u8> {
    seq![32u8]
}

pub open spec fn crlf() -> Seq<u8> {
    seq![13u8, 10u8]
}

/// The bytes of "RTSP/1.0".
pub open spec fn version_bytes() -> Seq<u8> {
    seq![82u8, 84u8, 83u8, 80u8, 47u8, 49u8, 46u8, 48u8]
}

/// One encoded header line: `Name: Value` and CRLF.
pub open spec fn enc_field(p: (Seq<u8>, Seq<u8>)) -> Seq<u8> {
    p.0 + seq![58u8, 32u8] + p.1 + crlf()
}

/// The encoded header block, in insertion order.
pub open spec fn enc_headers(hs: Seq<(Seq<u8>, Seq<u8>)>) -> Seq<u8>
    decreases hs.len(),
{
    if hs.len() == 0 {
        Seq::empty()
    } else {
        enc_field(hs[0]) + enc_headers(hs.drop_first())
    }
}

/// The wire bytes of a request.
pub open spec fn enc_request(m: Request) -> Seq<u8> {
    m.method@ + sp() + m.uri@ + sp() + version_bytes() + crlf() + enc_headers(m.headers.pairs())
        + crlf() + m.body@
}

/// The wire bytes of a response.
pub open spec fn enc_response(m: Response) -> Seq<u8> {
    version_bytes() + sp() + dec_rep(m.status as nat) + sp() + m.reason@ + crlf() + enc_headers(
        m.headers.pairs(),
    ) + crlf() + m.body@
}

/// The wire bytes of an interleaved frame.
pub open spec fn enc_interleaved(channel: u8, payload: Seq<u8>) -> Seq<u8> {
    seq![36u8, channel, (payload.len() / 256) as u8, (payload.len() % 256) as u8] + payload
}

/// The wire bytes of one outbound item.
pub open spec fn enc_outbound(item: ResponseMaybeInterleaved) -> Seq<u8> {
    match item {
        ResponseMaybeInterleaved::Message(m) => enc_response(m),
        ResponseMaybeInterleaved::Interleaved { channel, payload } => enc_interleaved(
            channel,
            payload@,
        ),
    }
}

/// The next line of `s` starting at `from`: its content (any final CR
/// stripped) and the index just past its LF. `None` while no LF is there.
pub open spec fn split_line(s: Seq<u8>, from: int) -> Option<(Seq<u8>, int)> {
    match find_byte(s, 10, from) {
        None => None,
        Some(j) => {
            let content = if j > from && s[j - 1] == 13 {
                s.subrange(from, j - 1)
            } else {
                s.subrange(from, j)
            };
            Some((content, j + 1))
        },
    }
}

/// The first index at or after `from` that does not hold a space.
pub open spec fn skip_sp(s: Seq<u8>, from: int) -> int
    decreases s.len() - from,
    when from >= 0
{
    if from >= s.len() {
        from
    } else if s[from] == 32 {
        skip_sp(s, from + 1)
    } else {
        from
    }
}

/// A request start line: method, one or more spaces, URI, one or more
/// spaces, and exactly "RTSP/1.0".
pub open spec fn parse_req_line(line: Seq<u8>) -> Option<(Seq<u8>, Seq<u8>)> {
    match find_byte(line, 32, 0) {
        None => None,
        Some(sp1) => {
            if sp1 == 0 {
                None
            } else {
                let method = line.subrange(0, sp1);
                let uri_start = skip_sp(line, sp1);
                match find_byte(line, 32, uri_start) {
                    None => None,
                    Some(sp2) => {
                        let uri = line.subrange(uri_start, sp2);
                        let ver_start = skip_sp(line, sp2);
                        if line.subrange(ver_start, line.len() as int) == version_bytes() {
                            Some((method, uri))
                        } else {
                            None
                        }
                    },
                }
            }
        },
    }
}

/// A response start line: "RTSP/1.0", spaces, a numeric status, and after
/// one space the reason phrase (absent when the line ends at the status).
pub open spec fn parse_res_line(line: Seq<u8>) -> Option<(int, Seq<u8>)> {
    match find_byte(line, 32, 0) {
        None => None,
        Some(sp1) => {
            if line.subrange(0, sp1) != version_bytes() {
                None
            } else {
                let cs = skip_sp(line, sp1);
                let code = match find_byte(line, 32, cs) {
                    None => line.subrange(cs, line.len() as int),
                    Some(sp2) => line.subrange(cs, sp2),
                };
                let reason = match find_byte(line, 32, cs) {
                    None => Seq::<u8>::empty(),
                    Some(sp2) => line.subrange(sp2 + 1, line.len() as int),
                };
                if code.len() > 0 && all_digits(code) && dec_val(code) <= u16::MAX {
                    Some((dec_val(code) as int, reason))
                } else {
                    None
                }
            }
        },
    }
}

/// A header line: a non-empty name before the first colon, a value after
/// it with leading spaces stripped.
pub open spec fn parse_hdr_line(line: Seq<u8>) -> Option<(Seq<u8>, Seq<u8>)> {
    match find_byte(line, 58, 0) {
        None => None,
        Some(c) => {
            if c == 0 {
                None
            } else {
                let vs = skip_sp(line, c + 1);
                Some((line.subrange(0, c), line.subrange(vs, line.len() as int)))
            }
        },
    }
}

/// The outcome of reading header lines up to the blank line.
pub ghost enum HdrsParse {
    Hungry,
    Fail,
    Done { hs: Seq<(Seq<u8>, Seq<u8>)>, body_start: int },
}

/// Reads header lines starting at `from` until a blank line. The line
/// index just past its LF always moves forward, so the search is bounded
/// by the buffer length.
pub open spec fn parse_headers(s: Seq<u8>, from: int, acc: Seq<(Seq<u8>, Seq<u8>)>) -> HdrsParse
    decreases s.len() - from,
    when from >= 0
{
    match split_line(s, from) {
        None => HdrsParse::Hungry,
        Some((line, next)) => {
            if next <= from || next > s.len() {
                // unreachable: a found LF lies in [from, s.len())
                HdrsParse::Fail
            } else if line.len() == 0 {
                HdrsParse::Done { hs: acc, body_start: next }
            } else {
                match parse_hdr_line(line) {
                    None => HdrsParse::Fail,
                    Some(p) => parse_headers(s, next, acc.push(p)),
                }
            }
        },
    }
}

/// Reads the body declared by `Content-Length` out of `hs`.
pub open spec fn parse_body(s: Seq<u8>, body_start: int, hs: Seq<(Seq<u8>, Seq<u8>)>, max_body: int) -> SpecParse {
    match lookup_hdr(hs, content_length_lc()) {
        None => SpecParse::FrameDone { channel: 0, payload: Seq::empty(), used: body_start },
        Some(v) => {
            if v.len() == 0 || !all_digits(v) {
                SpecParse::Fail(DecodeError::InvalidContentLength)
            } else if dec_val(v) > max_body {
                SpecParse::Fail(DecodeError::BodyTooLarge)
            } else if s.len() < body_start + dec_val(v) {
                SpecParse::Hungry
            } else {
                SpecParse::FrameDone {
                    channel: 0,
                    payload: s.subrange(body_start, body_start + dec_val(v)),
                    used: body_start + dec_val(v),
                }
            }
        },
    }
}

/// One decode attempt on the whole buffer `s`.
pub open spec fn parse_msg(dir: Direction, s: Seq<u8>, max_body: int) -> SpecParse {
    if s.len() == 0 {
        SpecParse::Hungry
    } else if s[0] == 36 {
        if s.len() < 4 {
            SpecParse::Hungry
        } else {
            let n = s[2] * 256 + s[3];
            if s.len() < 4 + n {
                SpecParse::Hungry
            } else {
                SpecParse::FrameDone {
                    channel: s[1],
                    payload: s.subrange(4, 4 + n),
                    used: 4 + n,
                }
            }
        }
    } else {
        match split_line(s, 0) {
            None => SpecParse::Hungry,
            Some((line, next)) => match dir {
                Direction::AsServer => match parse_req_line(line) {
                    None => SpecParse::Fail(DecodeError::MalformedStartLine),
                    Some((method, uri)) => match parse_headers(s, next, Seq::empty()) {
                        HdrsParse::Hungry => SpecParse::Hungry,
                        HdrsParse::Fail => SpecParse::Fail(DecodeError::MalformedHeader),
                        HdrsParse::Done { hs, body_start } => match parse_body(
                            s,
                            body_start,
                            hs,
                            max_body,
                        ) {
                            SpecParse::Fail(e) => SpecParse::Fail(e),
                            SpecParse::Hungry => SpecParse::Hungry,
                            SpecParse::FrameDone { channel, payload, used } => SpecParse::ReqDone {
                                rq: SpecReq { method, uri, headers: hs, body: payload },
                                used,
                            },
                            _ => SpecParse::Fail(DecodeError::MalformedStartLine),
                        },
                    },
                },
                Direction::AsClient => match parse_res_line(line) {
                    None => SpecParse::Fail(DecodeError::MalformedStartLine),
                    Some((status, reason)) => match parse_headers(s, next, Seq::empty()) {
                        HdrsParse::Hungry => SpecParse::Hungry,
                        HdrsParse::Fail => SpecParse::Fail(DecodeError::MalformedHeader),
                        HdrsParse::Done { hs, body_start } => match parse_body(
                            s,
                            body_start,
                            hs,
                            max_body,
                        ) {
                            SpecParse::Fail(e) => SpecParse::Fail(e),
                            SpecParse::Hungry => SpecParse::Hungry,
                            SpecParse::FrameDone { channel, payload, used } => SpecParse::ResDone {
                                rs: SpecRes { status, reason, headers: hs, body: payload },
                                used,
                            },
                            _ => SpecParse::Fail(DecodeError::MalformedStartLine),
                        },
                    },
                },
            },
        }
    }
}


/// Builds the bytes of "RTSP/1.0".
pub fn version_vec() -> (r: Vec<u8>)
    ensures
        r@ == version_bytes(),
{
    proof {
        reveal_strlit("RTSP/1.0");
    }
    let v = lit("RTSP/1.0");
    proof {
        assert(v@ =~= version_bytes());
    }
    v
}

/// Encoding headers one more field at a time appends one more line.
pub proof fn lemma_enc_headers_snoc(hs: Seq<(Seq<u8>, Seq<u8>)>, p: (Seq<u8>, Seq<u8>))
    ensures
        enc_headers(hs.push(p)) == enc_headers(hs) + enc_field(p),
    decreases hs.len(),
{
    if hs.len() == 0 {
        assert(hs.push(p).drop_first() =~= Seq::<(Seq<u8>, Seq<u8>)>::empty());
        assert(hs.push(p)[0] == p);
        assert(enc_headers(hs.push(p).drop_first()) == Seq::<u8>::empty());
        assert(enc_headers(hs.push(p)) == enc_field(p) + Seq::<u8>::empty());
        assert(enc_field(p) + Seq::<u8>::empty() =~= Seq::<u8>::empty() + enc_field(p));
    } else {
        lemma_enc_headers_snoc(hs.drop_first(), p);
        assert(hs.push(p).drop_first() =~= hs.drop_first().push(p));
        assert(hs.push(p)[0] == hs[0]);
        assert(enc_field(hs[0]) + (enc_headers(hs.drop_first()) + enc_field(p)) =~= (enc_field(
            hs[0],
        ) + enc_headers(hs.drop_first())) + enc_field(p));
    }
}

/// Appends the encoded header block to `out`.
fn encode_headers_into(out: &mut Vec<u8>, hs: &Headers)
    ensures
        final(out)@ == old(out)@ + enc_headers(hs.pairs()),
{
    let mut i: usize = 0;
    proof {
        assert(hs.pairs().take(0) =~= Seq::<(Seq<u8>, Seq<u8>)>::empty());
        assert(old(out)@ + enc_headers(hs.pairs().take(0)) =~= old(out)@);
    }
    while i < hs.fields.len()
        invariant
            i <= hs.fields@.len(),
            out@ == old(out)@ + enc_headers(hs.pairs().take(i as int)),
        decreases hs.fields@.len() - i,
    {
        let ghost done = hs.pairs().take(i as int);
        append_bytes(out, &hs.fields[i].name);
        out.push(58);
        out.push(32);
        append_bytes(out, &hs.fields[i].value);
        out.push(13);
        out.push(10);
        proof {
            lemma_enc_headers_snoc(done, hs.pairs()[i as int]);
            assert(hs.pairs().take(i + 1) =~= done.push(hs.pairs()[i as int]));
            assert(out@ =~= old(out)@ + enc_headers(hs.pairs().take(i + 1)));
        }
        i = i + 1;
    }
    proof {
        assert(hs.pairs().take(i as int) =~= hs.pairs());
    }
}

/// Serializes a request bit-exactly: start line, headers, blank line, body.
pub fn encode_request(m: &Request) -> (r: Vec<u8>)
    ensures
        r@ == enc_request(*m),
{
    let mut out: Vec<u8> = Vec::new();
    append_bytes(&mut out, &m.method);
    out.push(32);
    append_bytes(&mut out, &m.uri);
    out.push(32);
    let v = version_vec();
    append_bytes(&mut out, &v);
    out.push(13);
    out.push(10);
    encode_headers_into(&mut out, &m.headers);
    out.push(13);
    out.push(10);
    append_bytes(&mut out, &m.body);
    proof {
        assert(out@ =~= enc_request(*m));
    }
    out
}

/// Serializes a response bit-exactly. A non-empty body must be declared by
/// a Content-Length header; the caller establishes that.
pub fn encode_response(m: &Response) -> (r: Vec<u8>)
    requires
        m.body@.len() > 0 ==> lookup_hdr(m.headers.pairs(), content_length_lc()) is Some,
    ensures
        r@ == enc_response(*m),
{
    let mut out: Vec<u8> = Vec::new();
    let v = version_vec();
    append_bytes(&mut out, &v);
    out.push(32);
    let code = print_dec(m.status as usize);
    append_bytes(&mut out, &code);
    out.push(32);
    append_bytes(&mut out, &m.reason);
    out.push(13);
    out.push(10);
    encode_headers_into(&mut out, &m.headers);
    out.push(13);
    out.push(10);
    append_bytes(&mut out, &m.body);
    proof {
        assert(out@ =~= enc_response(*m));
    }
    out
}

/// Serializes an interleaved frame: `$`, the channel, the length big
/// endian, the payload.
pub fn encode_interleaved_frame(channel: u8, payload: &Vec<u8>) -> (r: Vec<u8>)
    requires
        payload@.len() <= 65535,
    ensures
        r@ == enc_interleaved(channel, payload@),
{
    let mut out: Vec<u8> = Vec::new();
    out.push(36);
    out.push(channel);
    let n = payload.len();
    out.push((n / 256) as u8);
    out.push((n % 256) as u8);
    append_bytes(&mut out, payload);
    proof {
        assert(out@ =~= enc_interleaved(channel, payload@));
    }
    out
}

/// Serializes one outbound item, response or interleaved frame.
pub fn encode_outbound_item(item: &ResponseMaybeInterleaved) -> (r: Vec<u8>)
    requires
        outbound_encodable(*item),
    ensures
        r@ == enc_outbound(*item),
{
    match item {
        ResponseMaybeInterleaved::Message(m) => encode_response(m),
        ResponseMaybeInterleaved::Interleaved { channel, payload } => encode_interleaved_frame(
            *channel,
            payload,
        ),
    }
}

/// What the encoder accepts: a frame fits a u16 length; a message with a
/// non-empty body declares it.
pub open spec fn outbound_encodable(item: ResponseMaybeInterleaved) -> bool {
    match item {
        ResponseMaybeInterleaved::Message(m) => m.body@.len() > 0 ==> lookup_hdr(
            m.headers.pairs(),
            content_length_lc(),
        ) is Some,
        ResponseMaybeInterleaved::Interleaved { channel, payload } => payload@.len() <= 65535,
    }
}


/// Bounds and meaning of `skip_sp`: everything skipped was a space.
pub proof fn lemma_skip_sp(s: Seq<u8>, from: int)
    requires
        0 <= from <= s.len(),
    ensures
        from <= skip_sp(s, from) <= s.len(),
        forall|j: int| from <= j < skip_sp(s, from) ==> s[j] == 32,
        skip_sp(s, from) < s.len() ==> s[skip_sp(s, from)] != 32,
    decreases s.len() - from,
{
    if from < s.len() && s[from] == 32 {
        lemma_skip_sp(s, from + 1);
    }
}

/// Executable space skipping.
fn skip_sp_exec(s: &Vec<u8>, from: usize) -> (r: usize)
    requires
        from <= s@.len(),
    ensures
        r == skip_sp(s@, from as int),
        from <= r <= s@.len(),
{
    let mut i: usize = from;
    while i < s.len() && s[i] == 32
        invariant
            from <= i <= s@.len(),
            skip_sp(s@, from as int) == skip_sp(s@, i as int),
        decreases s@.len() - i,
    {
        i = i + 1;
    }
    i
}

/// Parses a request start line into its method and URI tokens.
fn parse_req_line_exec(line: &Vec<u8>) -> (r: Option<(Vec<u8>, Vec<u8>)>)
    ensures
        match r {
            Some(mu) => parse_req_line(line@) == Some((mu.0@, mu.1@)),
            None => parse_req_line(line@) is None,
        },
{
    match find_byte_exec(line, 32, 0) {
        None => None,
        Some(sp1) => {
            if sp1 == 0 {
                return None;
            }
            let method = subvec(line, 0, sp1);
            let uri_start = skip_sp_exec(line, sp1);
            match find_byte_exec(line, 32, uri_start) {
                None => None,
                Some(sp2) => {
                    let uri = subvec(line, uri_start, sp2);
                    let ver_start = skip_sp_exec(line, sp2);
                    let ver = version_vec();
                    if range_eq(line, ver_start, line.len(), &ver) {
                        Some((method, uri))
                    } else {
                        None
                    }
                },
            }
        },
    }
}

/// Parses a response start line into its status code and reason phrase.
fn parse_res_line_exec(line: &Vec<u8>) -> (r: Option<(u16, Vec<u8>)>)
    ensures
        match r {
            Some(sr) => parse_res_line(line@) == Some((sr.0 as int, sr.1@)),
            None => parse_res_line(line@) is None,
        },
{
    match find_byte_exec(line, 32, 0) {
        None => None,
        Some(sp1) => {
            let ver = version_vec();
            if !range_eq(line, 0, sp1, &ver) {
                return None;
            }
            let cs = skip_sp_exec(line, sp1);
            let code_end: usize;
            let reason: Vec<u8>;
            match find_byte_exec(line, 32, cs) {
                None => {
                    code_end = line.len();
                    reason = Vec::new();
                    proof {
                        assert(reason@ =~= Seq::<u8>::empty());
                    }
                },
                Some(sp2) => {
                    let ll = line.len();
                    code_end = sp2;
                    reason = subvec(line, sp2 + 1, ll);
                },
            }
            let ghost code = line@.subrange(cs as int, code_end as int);
            if code_end == cs {
                proof {
                    assert(code.len() == 0);
                }
                return None;
            }
            let code_vec = subvec(line, cs, code_end);
            if !is_all_digits(&code_vec) {
                return None;
            }
            match parse_dec(line, cs, code_end) {
                None => {
                    proof {
                        if dec_val(code) > usize::MAX {
                            assert(dec_val(code) > u16::MAX);
                        }
                    }
                    None
                },
                Some(v) => {
                    if v > 65535 {
                        None
                    } else {
                        Some((v as u16, reason))
                    }
                },
            }
        },
    }
}

/// Parses a header line into its name and its value.
fn parse_hdr_line_exec(line: &Vec<u8>) -> (r: Option<(Vec<u8>, Vec<u8>)>)
    ensures
        match r {
            Some(nv) => parse_hdr_line(line@) == Some((nv.0@, nv.1@)),
            None => parse_hdr_line(line@) is None,
        },
{
    match find_byte_exec(line, 58, 0) {
        None => None,
        Some(c) => {
            if c == 0 {
                return None;
            }
            let ll = line.len();
            let name = subvec(line, 0, c);
            let vs = skip_sp_exec(line, c + 1);
            let value = subvec(line, vs, ll);
            Some((name, value))
        },
    }
}

/// One decoded unit from the inbound byte stream.
pub enum Decoded {
    Request(Request),
    Response(Response),
    Interleaved { channel: u8, payload: Vec<u8> },
}

/// Whether an exec decode outcome agrees with the specification parse.
pub open spec fn decode_matches(
    p: SpecParse,
    r: Result<Option<(Decoded, usize)>, DecodeError>,
) -> bool {
    match r {
        Ok(None) => p is Hungry,
        Ok(Some((d, used))) => match d {
            Decoded::Request(m) => p == SpecParse::ReqDone {
                rq: SpecReq {
                    method: m.method@,
                    uri: m.uri@,
                    headers: m.headers.pairs(),
                    body: m.body@,
                },
                used: used as int,
            } && m.version is V10,
            Decoded::Response(m) => p == SpecParse::ResDone {
                rs: SpecRes {
                    status: m.status as int,
                    reason: m.reason@,
                    headers: m.headers.pairs(),
                    body: m.body@,
                },
                used: used as int,
            } && m.version is V10,
            Decoded::Interleaved { channel, payload } => p == SpecParse::FrameDone {
                channel,
                payload: payload@,
                used: used as int,
            },
        },
        Err(e) => p == SpecParse::Fail(e),
    }
}

/// Reads the headers and the body out of `src` starting at `next`, after a
/// start line has been read.
fn decode_tail(src: &Vec<u8>, next: usize, max_body: usize) -> (r: Result<
    Option<(Headers, Vec<u8>, usize)>,
    DecodeError,
>)
    requires
        next <= src@.len(),
    ensures
        match r {
            Ok(None) => parse_headers(src@, next as int, Seq::empty()) is Hungry || (parse_headers(
                src@,
                next as int,
                Seq::empty(),
            ) matches HdrsParse::Done { hs, body_start } && parse_body(
                src@,
                body_start,
                hs,
                max_body as int,
            ) is Hungry),
            Ok(Some((hdrs, body, used))) => (parse_headers(src@, next as int, Seq::empty())
                matches HdrsParse::Done { hs, body_start } && hs == hdrs.pairs() && parse_body(
                src@,
                body_start,
                hs,
                max_body as int,
            ) == (SpecParse::FrameDone { channel: 0, payload: body@, used: used as int }) && 0
                < used <= src@.len()),
            Err(DecodeError::MalformedHeader) => parse_headers(src@, next as int, Seq::empty())
                is Fail,
            Err(e) => !(e is MalformedHeader) && (parse_headers(src@, next as int, Seq::empty())
                matches HdrsParse::Done { hs, body_start } && parse_body(
                src@,
                body_start,
                hs,
                max_body as int,
            ) == SpecParse::Fail(e)),
        },
{
    let n_src = src.len();
    let mut hdrs = Headers::new();
    let mut pos: usize = next;
    proof {
        assert(hdrs.pairs() =~= Seq::<(Seq<u8>, Seq<u8>)>::empty());
    }
    loop
        invariant
            next <= pos <= src@.len(),
            src@.len() <= usize::MAX,
            parse_headers(src@, next as int, Seq::empty()) == parse_headers(
                src@,
                pos as int,
                hdrs.pairs(),
            ),
        decreases src@.len() - pos,
    {
        match find_byte_exec(src, 10, pos) {
            None => {
                proof {
                    assert(parse_headers(src@, pos as int, hdrs.pairs()) is Hungry);
                    assert(parse_headers(src@, next as int, Seq::empty()) is Hungry);
                }
                return Ok(None);
            },
            Some(j) => {
                proof {
                    lemma_find_byte(src@, 10, pos as int);
                }
                let content_end: usize = if j > pos && src[j - 1] == 13 {
                    j - 1
                } else {
                    j
                };
                let ghost line = src@.subrange(pos as int, content_end as int);
                proof {
                    assert(split_line(src@, pos as int) == Some((line, j + 1)));
                }
                if content_end == pos {
                    // blank line: the body follows
                    let body_start = j + 1;
                    proof {
                        assert(line.len() == 0);
                        assert(parse_headers(src@, pos as int, hdrs.pairs()) == (HdrsParse::Done {
                            hs: hdrs.pairs(),
                            body_start: body_start as int,
                        }));
                        assert(parse_headers(src@, next as int, Seq::empty()) == (HdrsParse::Done {
                            hs: hdrs.pairs(),
                            body_start: body_start as int,
                        }));
                    }
                    let cl_name = content_length_name();
                    match hdrs.get(&cl_name) {
                        None => {
                            proof {
                                crate::octets::lemma_lower_idempotent(
                                    crate::octets::bytes_of("Content-Length"@),
                                );
                                crate::message::lemma_lookup_lower(
                                    hdrs.pairs(),
                                    cl_name@,
                                    content_length_lc(),
                                );
                            }
                            let body: Vec<u8> = Vec::new();
                            proof {
                                assert(body@ =~= Seq::<u8>::empty());
                            }
                            return Ok(Some((hdrs, body, body_start)));
                        },
                        Some(v) => {
                            proof {
                                crate::octets::lemma_lower_idempotent(
                                    crate::octets::bytes_of("Content-Length"@),
                                );
                                crate::message::lemma_lookup_lower(
                                    hdrs.pairs(),
                                    cl_name@,
                                    content_length_lc(),
                                );
                            }
                            if v.len() == 0 {
                                return Err(DecodeError::InvalidContentLength);
                            }
                            if !is_all_digits(&v) {
                                return Err(DecodeError::InvalidContentLength);
                            }
                            proof {
                                assert(v@.subrange(0, v@.len() as int) =~= v@);
                            }
                            match parse_dec(&v, 0, v.len()) {
                                None => {
                                    // the digits overflow usize, so they
                                    // exceed any cap that fits one
                                    return Err(DecodeError::BodyTooLarge);
                                },
                                Some(n) => {
                                    if n > max_body {
                                        return Err(DecodeError::BodyTooLarge);
                                    }
                                    if src.len() - body_start < n {
                                        return Ok(None);
                                    }
                                    let body = subvec(src, body_start, body_start + n);
                                    return Ok(Some((hdrs, body, body_start + n)));
                                },
                            }
                        },
                    }
                } else {
                    let line_vec = subvec(src, pos, content_end);
                    match parse_hdr_line_exec(&line_vec) {
                        None => {
                            return Err(DecodeError::MalformedHeader);
                        },
                        Some((n, v)) => {
                            let ghost prev = hdrs.pairs();
                            let ghost nv = (n@, v@);
                            hdrs.add(n, v);
                            proof {
                                assert(hdrs.pairs() == prev.push(nv));
                                assert(parse_headers(src@, pos as int, prev) == parse_headers(
                                    src@,
                                    j + 1,
                                    prev.push(nv),
                                ));
                            }
                            pos = j + 1;
                        },
                    }
                }
            },
        }
    }
}


/// One decode attempt on the buffer, without consuming it.
fn decode_attempt(dir: Direction, src: &Vec<u8>, max_body: usize) -> (r: Result<
    Option<(Decoded, usize)>,
    DecodeError,
>)
    ensures
        decode_matches(parse_msg(dir, src@, max_body as int), r),
        r matches Ok(Some((d, used))) ==> 0 < used <= src@.len(),
{
    let n_src = src.len();
    if n_src == 0 {
        return Ok(None);
    }
    if src[0] == 36 {
        if n_src < 4 {
            return Ok(None);
        }
        let n: usize = (src[2] as usize) * 256 + (src[3] as usize);
        if n_src < 4 + n {
            return Ok(None);
        }
        let payload = subvec(src, 4, 4 + n);
        return Ok(Some((Decoded::Interleaved { channel: src[1], payload }, 4 + n)));
    }
    match find_byte_exec(src, 10, 0) {
        None => Ok(None),
        Some(j) => {
            proof {
                lemma_find_byte(src@, 10, 0);
            }
            let content_end: usize = if j > 0 && src[j - 1] == 13 {
                j - 1
            } else {
                j
            };
            let ghost line_g = src@.subrange(0, content_end as int);
            proof {
                assert(split_line(src@, 0) == Some((line_g, j + 1)));
            }
            let line = subvec(src, 0, content_end);
            match dir {
                Direction::AsServer => {
                    match parse_req_line_exec(&line) {
                        None => Err(DecodeError::MalformedStartLine),
                        Some((method, uri)) => {
                            match decode_tail(src, j + 1, max_body) {
                                Ok(None) => Ok(None),
                                Err(e) => Err(e),
                                Ok(Some((headers, body, used))) => {
                                    let m = Request {
                                        method,
                                        uri,
                                        version: Version::V10,
                                        headers,
                                        body,
                                    };
                                    Ok(Some((Decoded::Request(m), used)))
                                },
                            }
                        },
                    }
                },
                Direction::AsClient => {
                    match parse_res_line_exec(&line) {
                        None => Err(DecodeError::MalformedStartLine),
                        Some((status, reason)) => {
                            match decode_tail(src, j + 1, max_body) {
                                Ok(None) => Ok(None),
                                Err(e) => Err(e),
                                Ok(Some((headers, body, used))) => {
                                    let m = Response {
                                        version: Version::V10,
                                        status,
                                        reason,
                                        headers,
                                        body,
                                    };
                                    Ok(Some((Decoded::Response(m), used)))
                                },
                            }
                        },
                    }
                },
            }
        },
    }
}

/// The default cap on a request body: 64 KiB.
pub const DEFAULT_MAX_BODY: usize = 65536;

/// A framed RTSP codec over a byte buffer. Decoding consumes whole frames
/// and leaves partial data in the buffer; each frame is parsed afresh, so
/// no parser state survives a finished message.
pub struct Codec {
    pub direction: Direction,
    pub max_body: usize,
}

impl Codec {
    /// A codec with the default body cap.
    pub fn new(direction: Direction) -> (r: Codec)
        ensures
            r.direction == direction,
            r.max_body == DEFAULT_MAX_BODY,
    {
        Codec { direction, max_body: DEFAULT_MAX_BODY }
    }

    /// A codec with a chosen body cap.
    pub fn with_max_body(direction: Direction, max_body: usize) -> (r: Codec)
        ensures
            r.direction == direction,
            r.max_body == max_body,
    {
        Codec { direction, max_body }
    }

    /// Decodes the next whole item out of `src`, consuming exactly its
    /// bytes; returns `None` while more bytes are needed, leaving `src`
    /// untouched (also on an error).
    pub fn decode(&mut self, src: &mut Vec<u8>) -> (r: Result<Option<Decoded>, DecodeError>)
        ensures
            *final(self) == *old(self),
            match r {
                Ok(None) => parse_msg(
                    old(self).direction,
                    old(src)@,
                    old(self).max_body as int,
                ) is Hungry && final(src)@ == old(src)@,
                Ok(Some(d)) => exists|used: int|
                    decode_matches(
                        parse_msg(old(self).direction, old(src)@, old(self).max_body as int),
                        Ok(Some((d, used as usize))),
                    ) && 0 < used <= old(src)@.len() && final(src)@ == old(src)@.subrange(
                        used,
                        old(src)@.len() as int,
                    ),
                Err(e) => parse_msg(old(self).direction, old(src)@, old(self).max_body as int)
                    == SpecParse::Fail(e) && final(src)@ == old(src)@,
            },
    {
        match decode_attempt(self.direction, src, self.max_body) {
            Ok(None) => Ok(None),
            Err(e) => Err(e),
            Ok(Some((d, used))) => {
                let rest = subvec(src, used, src.len());
                *src = rest;
                proof {
                    assert(decode_matches(
                        parse_msg(old(self).direction, old(src)@, old(self).max_body as int),
                        Ok(Some((d, (used as int) as usize))),
                    ));
                }
                Ok(Some(d))
            },
        }
    }

    /// Serializes one outbound item onto `dst`.
    pub fn encode(&mut self, item: &ResponseMaybeInterleaved, dst: &mut Vec<u8>)
        requires
            outbound_encodable(*item),
        ensures
            *final(self) == *old(self),
            final(dst)@ == old(dst)@ + enc_outbound(*item),
    {
        let bytes = encode_outbound_item(item);
        append_bytes(dst, &bytes);
    }
}


/// Framing an interleaved payload and decoding the bytes yields the same
/// channel and payload, consuming exactly the frame.
pub proof fn lemma_interleaved_round_trip(
    dir: Direction,
    channel: u8,
    payload: Seq<u8>,
    max_body: int,
)
    requires
        payload.len() <= 65535,
    ensures
        parse_msg(dir, enc_interleaved(channel, payload), max_body) == (SpecParse::FrameDone {
            channel,
            payload,
            used: 4 + payload.len() as int,
        }),
{
    let s = enc_interleaved(channel, payload);
    assert(s.len() == 4 + payload.len());
    assert(s[0] == 36 && s[1] == channel);
    assert(s[2] == (payload.len() / 256) as u8);
    assert(s[3] == (payload.len() % 256) as u8);
    vstd::arithmetic::div_mod::lemma_fundamental_div_mod(payload.len() as int, 256);
    assert(s[2] * 256 + s[3] == payload.len());
    assert(s.subrange(4, 4 + (s[2] * 256 + s[3])) =~= payload);
}


/// Reading header lines off an encoded header block recovers exactly the
/// encoded fields and stops just past the blank line.
proof fn lemma_parse_headers_enc(
    s: Seq<u8>,
    from: int,
    acc: Seq<(Seq<u8>, Seq<u8>)>,
    hs: Seq<(Seq<u8>, Seq<u8>)>,
    tail_start: int,
)
    requires
        0 <= from,
        crate::message::headers_wf(hs),
        tail_start == from + enc_headers(hs).len() + 2,
        tail_start <= s.len(),
        s.subrange(from, tail_start) == enc_headers(hs) + crlf(),
    ensures
        parse_headers(s, from, acc) == (HdrsParse::Done { hs: acc + hs, body_start: tail_start }),
    decreases hs.len(),
{
    if hs.len() == 0 {
        assert(enc_headers(hs).len() == 0);
        assert(s[from] == 13 && s[from + 1] == 10) by {
            assert(s.subrange(from, tail_start)[0] == s[from]);
            assert(s.subrange(from, tail_start)[1] == s[from + 1]);
            assert((enc_headers(hs) + crlf())[0] == 13);
            assert((enc_headers(hs) + crlf())[1] == 10);
        }
        lemma_find_byte_is(s, 10, from, from + 1);
        assert(split_line(s, from) == Some((s.subrange(from, from), from + 2)));
        assert(s.subrange(from, from).len() == 0);
        assert(acc + hs =~= acc);
    } else {
        let h0 = hs[0];
        let nl = h0.0.len() as int;
        let vl = h0.1.len() as int;
        let field = enc_field(h0);
        assert(field.len() == nl + 2 + vl + 2);
        assert(crate::message::header_name_wf(h0.0) && crate::message::header_value_wf(h0.1));
        let lf = from + nl + 2 + vl + 1;
        // everything in the block before the field's CR is CR-free and
        // LF-free, and the CR sits right before the LF
        assert(forall|k: int|
            0 <= k < tail_start - from ==> s[from + k] == (enc_headers(hs) + crlf())[k]) by {
            assert(forall|k: int|
                0 <= k < tail_start - from ==> s.subrange(from, tail_start)[k] == s[from + k]);
        }
        assert(enc_headers(hs) == field + enc_headers(hs.drop_first()));
        assert(forall|k: int| 0 <= k < field.len() ==> (enc_headers(hs) + crlf())[k] == field[k]);
        assert(forall|k: int| 0 <= k < nl ==> field[k] == h0.0[k]);
        assert(field[nl] == 58 && field[nl + 1] == 32);
        assert(forall|k: int| 0 <= k < vl ==> field[nl + 2 + k] == h0.1[k]);
        assert(field[nl + 2 + vl] == 13 && field[nl + 2 + vl + 1] == 10);
        assert(s[lf] == 10);
        assert(forall|j: int| from <= j < lf ==> s[j] != 10) by {
            assert(forall|k: int| 0 <= k < nl + 2 + vl ==> field[k] != 10) by {
                assert(forall|k: int| 0 <= k < nl ==> field[k] == h0.0[k] && h0.0[k] != 10);
                assert(forall|k: int|
                    0 <= k < vl ==> field[nl + 2 + k] == h0.1[k] && h0.1[k] != 10);
            }
            assert(forall|j: int| from <= j < lf - 1 ==> s[j] == field[j - from] && s[j] != 10);
            assert(s[lf - 1] == 13);
        }
        lemma_find_byte_is(s, 10, from, lf);
        assert(s[lf - 1] == 13);
        let line = s.subrange(from, lf - 1);
        assert(split_line(s, from) == Some((line, lf + 1)));
        assert(line =~= h0.0 + seq![58u8, 32u8] + h0.1);
        // the header line parses back to its name and value
        assert(forall|k: int| 0 <= k < nl ==> line[k] == h0.0[k] && line[k] != 58);
        assert(line[nl] == 58);
        lemma_find_byte_is(line, 58, 0, nl);
        assert(line[nl + 1] == 32);
        if vl > 0 {
            assert(line[nl + 2] == h0.1[0] && h0.1[0] != 32);
            assert(skip_sp(line, nl + 2) == nl + 2);
            assert(skip_sp(line, nl + 1) == nl + 2);
        } else {
            assert(line.len() == nl + 2);
            assert(skip_sp(line, nl + 2) == nl + 2);
            assert(skip_sp(line, nl + 1) == nl + 2);
        }
        assert(line.subrange(0, nl) =~= h0.0);
        assert(line.subrange(nl + 2, line.len() as int) =~= h0.1);
        assert(parse_hdr_line(line) == Some((h0.0, h0.1)));
        // step to the rest of the block
        assert(s.subrange(lf + 1, tail_start) =~= enc_headers(hs.drop_first()) + crlf()) by {
            assert(forall|k: int|
                0 <= k < tail_start - (lf + 1) ==> #[trigger] s.subrange(lf + 1, tail_start)[k]
                    == s[lf + 1 + k]);
            assert(forall|k: int|
                0 <= k < tail_start - (lf + 1) ==> #[trigger] s[lf + 1 + k] == (enc_headers(hs)
                    + crlf())[field.len() + k]);
        }
        lemma_parse_headers_enc(s, lf + 1, acc.push(h0), hs.drop_first(), tail_start);
        assert(acc.push(h0) + hs.drop_first() =~= acc + hs);
        assert(line.len() != 0);
        assert(parse_headers(s, from, acc) == parse_headers(s, lf + 1, acc.push(h0)));
    }
}


/// Well-formedness of a message, for the round-trip laws: what the codec
/// writes it can read back.
pub open spec fn req_rt_ok(m: Request, max_body: int) -> bool {
    m.wf() && m.body@.len() <= max_body
}

pub open spec fn res_rt_ok(m: Response, max_body: int) -> bool {
    m.wf() && m.body@.len() <= max_body
}

/// Encoding a well-formed request and decoding the bytes yields the same
/// request, consuming every byte.
pub proof fn lemma_request_round_trip(m: Request, max_body: int)
    requires
        req_rt_ok(m, max_body),
    ensures
        parse_msg(Direction::AsServer, enc_request(m), max_body) == (SpecParse::ReqDone {
            rq: SpecReq {
                method: m.method@,
                uri: m.uri@,
                headers: m.headers.pairs(),
                body: m.body@,
            },
            used: enc_request(m).len() as int,
        }),
{
    let s = enc_request(m);
    let ml = m.method@.len() as int;
    let ul = m.uri@.len() as int;
    let line = m.method@ + sp() + m.uri@ + sp() + version_bytes();
    let ll = line.len() as int;
    let hs = m.headers.pairs();
    let hb = enc_headers(hs);
    assert(s =~= line + crlf() + (hb + crlf()) + m.body@);
    assert(s[0] == m.method@[0]);
    assert(s[0] != 36 && s.len() > 0);
    // the start line ends at the first LF, preceded by its CR
    assert(forall|k: int| 0 <= k < ml ==> line[k] == m.method@[k]);
    assert(line[ml] == 32);
    assert(forall|k: int| 0 <= k < ul ==> line[ml + 1 + k] == m.uri@[k]);
    assert(line[ml + 1 + ul] == 32);
    assert(forall|k: int| 0 <= k < 8 ==> line[ml + ul + 2 + k] == version_bytes()[k]);
    assert(forall|j: int| 0 <= j < ll ==> s[j] == line[j]);
    assert(s[ll] == 13 && s[ll + 1] == 10);
    assert(forall|j: int| 0 <= j < ll ==> s[j] != 10) by {
        assert(forall|k: int| 0 <= k < 8 ==> version_bytes()[k] != 10);
    }
    lemma_find_byte_is(s, 10, 0, ll + 1);
    assert(s.subrange(0, ll) =~= line);
    assert(split_line(s, 0) == Some((line, ll + 2)));
    // the start line parses back to method and URI
    assert(forall|k: int| 0 <= k < ml ==> line[k] != 32);
    lemma_find_byte_is(line, 32, 0, ml);
    assert(line[ml + 1] == m.uri@[0] && m.uri@[0] != 32);
    assert(skip_sp(line, ml + 1) == ml + 1);
    assert(skip_sp(line, ml) == ml + 1);
    assert(forall|k: int| ml + 1 <= k < ml + 1 + ul ==> line[k] != 32);
    lemma_find_byte_is(line, 32, ml + 1, ml + 1 + ul);
    assert(version_bytes()[0] == 82 && 82 != 32);
    assert(skip_sp(line, ml + 2 + ul) == ml + 2 + ul);
    assert(skip_sp(line, ml + 1 + ul) == ml + 2 + ul);
    assert(line.subrange(0, ml) =~= m.method@);
    assert(line.subrange(ml + 1, ml + 1 + ul) =~= m.uri@);
    assert(line.subrange(ml + 2 + ul, ll) =~= version_bytes());
    assert(parse_req_line(line) == Some((m.method@, m.uri@)));
    // the header block parses back to the fields
    let from = ll + 2;
    let tail_start = from + hb.len() + 2;
    assert(s.subrange(from, tail_start) =~= hb + crlf());
    lemma_parse_headers_enc(s, from, Seq::empty(), hs, tail_start);
    assert(Seq::empty() + hs =~= hs);
    // the body is exactly what Content-Length declares
    assert(s.subrange(tail_start, s.len() as int) =~= m.body@);
    lemma_body_round_trip(s, tail_start, hs, m.body@, max_body);
}

/// Encoding a well-formed response and decoding the bytes yields the
/// same response, consuming every byte.
pub proof fn lemma_response_round_trip(m: Response, max_body: int)
    requires
        res_rt_ok(m, max_body),
    ensures
        parse_msg(Direction::AsClient, enc_response(m), max_body) == (SpecParse::ResDone {
            rs: SpecRes {
                status: m.status as int,
                reason: m.reason@,
                headers: m.headers.pairs(),
                body: m.body@,
            },
            used: enc_response(m).len() as int,
        }),
{
    let s = enc_response(m);
    let code = dec_rep(m.status as nat);
    lemma_dec_rep_val(m.status as nat);
    let cl = code.len() as int;
    let rl = m.reason@.len() as int;
    let line = version_bytes() + sp() + code + sp() + m.reason@;
    let ll = line.len() as int;
    let hs = m.headers.pairs();
    let hb = enc_headers(hs);
    assert(s =~= line + crlf() + (hb + crlf()) + m.body@);
    assert(s[0] == 82 && s.len() > 0 && s[0] != 36);
    assert(forall|k: int| 0 <= k < 8 ==> line[k] == version_bytes()[k]);
    assert(line[8] == 32);
    assert(forall|k: int| 0 <= k < cl ==> line[9 + k] == code[k]);
    assert(line[9 + cl] == 32);
    assert(forall|k: int| 0 <= k < rl ==> line[10 + cl + k] == m.reason@[k]);
    assert(forall|j: int| 0 <= j < ll ==> s[j] == line[j]);
    assert(s[ll] == 13 && s[ll + 1] == 10);
    assert(forall|j: int| 0 <= j < ll ==> s[j] != 10) by {
        assert(forall|k: int| 0 <= k < 8 ==> version_bytes()[k] != 10);
        assert(forall|k: int| 0 <= k < cl ==> crate::octets::is_digit(code[k]) && code[k] != 10);
    }
    lemma_find_byte_is(s, 10, 0, ll + 1);
    assert(s.subrange(0, ll) =~= line);
    assert(split_line(s, 0) == Some((line, ll + 2)));
    // the status line parses back to the code and the reason
    assert(forall|k: int| 0 <= k < 8 ==> version_bytes()[k] != 32);
    lemma_find_byte_is(line, 32, 0, 8);
    assert(line.subrange(0, 8) =~= version_bytes());
    assert(line[9] == code[0] && crate::octets::is_digit(code[0]));
    assert(skip_sp(line, 9) == 9);
    assert(skip_sp(line, 8) == 9);
    assert(forall|k: int| 9 <= k < 9 + cl ==> crate::octets::is_digit(line[k]) && line[k] != 32);
    lemma_find_byte_is(line, 32, 9, 9 + cl);
    assert(line.subrange(9, 9 + cl) =~= code);
    assert(line.subrange(10 + cl, ll) =~= m.reason@);
    assert(dec_val(code) == m.status && m.status <= u16::MAX);
    assert(parse_res_line(line) == Some((m.status as int, m.reason@)));
    let from = ll + 2;
    let tail_start = from + hb.len() + 2;
    assert(s.subrange(from, tail_start) =~= hb + crlf());
    lemma_parse_headers_enc(s, from, Seq::empty(), hs, tail_start);
    assert(Seq::empty() + hs =~= hs);
    assert(s.subrange(tail_start, s.len() as int) =~= m.body@);
    lemma_body_round_trip(s, tail_start, hs, m.body@, max_body);
}

/// A body declared by its headers reads back whole.
proof fn lemma_body_round_trip(
    s: Seq<u8>,
    body_start: int,
    hs: Seq<(Seq<u8>, Seq<u8>)>,
    body: Seq<u8>,
    max_body: int,
)
    requires
        0 <= body_start,
        s.len() == body_start + body.len(),
        s.subrange(body_start, s.len() as int) == body,
        crate::message::body_declared(hs, body),
        body.len() <= max_body,
    ensures
        parse_body(s, body_start, hs, max_body) == (SpecParse::FrameDone {
            channel: 0,
            payload: body,
            used: body_start + body.len(),
        }),
{
    match lookup_hdr(hs, content_length_lc()) {
        None => {
            assert(body.len() == 0);
            assert(Seq::<u8>::empty() =~= body);
        },
        Some(v) => {
            assert(v == dec_rep(body.len() as nat));
            lemma_dec_rep_val(body.len() as nat);
            assert(dec_val(v) == body.len());
        },
    }
}


/// Bytes appended after a complete header block do not change how it
/// reads.
proof fn lemma_parse_headers_extend(
    s: Seq<u8>,
    t: Seq<u8>,
    from: int,
    acc: Seq<(Seq<u8>, Seq<u8>)>,
)
    requires
        0 <= from <= s.len(),
        parse_headers(s, from, acc) is Done,
    ensures
        parse_headers(s + t, from, acc) == parse_headers(s, from, acc),
    decreases s.len() - from,
{
    match find_byte(s, 10, from) {
        None => {
            assert(parse_headers(s, from, acc) is Hungry);
        },
        Some(j) => {
            lemma_find_byte(s, 10, from);
            lemma_find_byte_extend(s, t, 10, from, j);
            let content = if j > from && s[j - 1] == 13 {
                s.subrange(from, j - 1)
            } else {
                s.subrange(from, j)
            };
            if j > from && s[j - 1] == 13 {
                assert((s + t).subrange(from, j - 1) =~= content);
            } else {
                assert((s + t).subrange(from, j) =~= content);
            }
            assert(split_line(s + t, from) == Some((content, j + 1)));
            assert(split_line(s, from) == Some((content, j + 1)));
            if content.len() == 0 {
            } else {
                match parse_hdr_line(content) {
                    None => {
                        assert(parse_headers(s, from, acc) is Fail);
                    },
                    Some(p) => {
                        assert(parse_headers(s, from, acc) == parse_headers(
                            s,
                            j + 1,
                            acc.push(p),
                        ));
                        lemma_parse_headers_extend(s, t, j + 1, acc.push(p));
                    },
                }
            }
        },
    }
}

/// A finished header block ends inside the buffer, past its start.
proof fn lemma_parse_headers_bounds(s: Seq<u8>, from: int, acc: Seq<(Seq<u8>, Seq<u8>)>)
    requires
        0 <= from,
        parse_headers(s, from, acc) is Done,
    ensures
        (match parse_headers(s, from, acc) {
            HdrsParse::Done { body_start, .. } => from < body_start <= s.len(),
            _ => true,
        }),
    decreases s.len() - from,
{
    match find_byte(s, 10, from) {
        None => {},
        Some(j) => {
            let content = if j > from && s[j - 1] == 13 {
                s.subrange(from, j - 1)
            } else {
                s.subrange(from, j)
            };
            if j + 1 <= from || j + 1 > s.len() {
            } else if content.len() == 0 {
            } else {
                match parse_hdr_line(content) {
                    None => {},
                    Some(p) => {
                        lemma_parse_headers_bounds(s, j + 1, acc.push(p));
                    },
                }
            }
        },
    }
}

/// Bytes appended after one complete message or frame do not change what
/// the decoder reads first: it still consumes exactly that item.
pub proof fn lemma_parse_msg_extend(dir: Direction, s: Seq<u8>, t: Seq<u8>, max_body: int)
    requires
        parse_msg(dir, s, max_body) matches SpecParse::ReqDone { .. } || parse_msg(
            dir,
            s,
            max_body,
        ) matches SpecParse::ResDone { .. } || parse_msg(dir, s, max_body)
            matches SpecParse::FrameDone { .. },
    ensures
        parse_msg(dir, s + t, max_body) == parse_msg(dir, s, max_body),
{
    let u = s + t;
    assert(s.len() > 0);
    assert(u[0] == s[0]);
    if s[0] == 36 {
        assert(s.len() >= 4);
        assert(u[1] == s[1] && u[2] == s[2] && u[3] == s[3]);
        let n = s[2] * 256 + s[3];
        assert(s.len() >= 4 + n);
        assert(u.subrange(4, 4 + n) =~= s.subrange(4, 4 + n));
    } else {
        match find_byte(s, 10, 0) {
            None => {
                assert(parse_msg(dir, s, max_body) is Hungry);
            },
            Some(j) => {
                lemma_find_byte(s, 10, 0);
                lemma_find_byte_extend(s, t, 10, 0, j);
                let line = if j > 0 && s[j - 1] == 13 {
                    s.subrange(0, j - 1)
                } else {
                    s.subrange(0, j)
                };
                if j > 0 && s[j - 1] == 13 {
                    assert(u.subrange(0, j - 1) =~= line);
                } else {
                    assert(u.subrange(0, j) =~= line);
                }
                assert(split_line(u, 0) == Some((line, j + 1)));
                assert(split_line(s, 0) == Some((line, j + 1)));
                match parse_headers(s, j + 1, Seq::empty()) {
                    HdrsParse::Hungry => {
                        assert(parse_msg(dir, s, max_body) is Hungry || parse_msg(
                            dir,
                            s,
                            max_body,
                        ) is Fail);
                    },
                    HdrsParse::Fail => {},
                    HdrsParse::Done { hs, body_start } => {
                        lemma_parse_headers_bounds(s, j + 1, Seq::empty());
                        lemma_parse_headers_extend(s, t, j + 1, Seq::empty());
                        match lookup_hdr(hs, content_length_lc()) {
                            None => {
                                assert(u.subrange(body_start, body_start) =~= s.subrange(
                                    body_start,
                                    body_start,
                                ));
                            },
                            Some(v) => {
                                if v.len() == 0 || !all_digits(v) || dec_val(v) > max_body {
                                } else {
                                    assert(s.len() >= body_start + dec_val(v));
                                    assert(u.subrange(
                                        body_start,
                                        body_start + dec_val(v),
                                    ) =~= s.subrange(body_start, body_start + dec_val(v)));
                                }
                            },
                        }
                    },
                }
            },
        }
    }
}

/// For every well-formed request laid at the head of a buffer, the
/// decoder reads exactly that request and leaves the remaining bytes.
pub proof fn lemma_decoder_consumes_exactly(m: Request, rest: Seq<u8>, max_body: int)
    requires
        req_rt_ok(m, max_body),
    ensures
        parse_msg(Direction::AsServer, enc_request(m) + rest, max_body) == (SpecParse::ReqDone {
            rq: SpecReq {
                method: m.method@,
                uri: m.uri@,
                headers: m.headers.pairs(),
                body: m.body@,
            },
            used: enc_request(m).len() as int,
        }),
        (enc_request(m) + rest).subrange(
            enc_request(m).len() as int,
            (enc_request(m) + rest).len() as int,
        ) == rest,
{
    lemma_request_round_trip(m, max_body);
    lemma_parse_msg_extend(Direction::AsServer, enc_request(m), rest, max_body);
    assert((enc_request(m) + rest).subrange(
        enc_request(m).len() as int,
        (enc_request(m) + rest).len() as int,
    ) =~= rest);
}

} // verus!
