//! RTSP message data model: requests, responses, ordered headers with
//! case-insensitive names, and the union written to a TCP connection.

use vstd::prelude::*;
use crate::octets::{lower_seq, dec_rep, lit, eq_ignore_case, bytes_of};

verus! {

/// One header line: a name and a value, order and case preserved.
pub struct HeaderField {
    pub name: Vec<u8>,
    pub value: Vec<u8>,
}

/// An ordered multi-map of header fields. Repeated names are retained in
/// insertion order; lookups fold ASCII case.
pub struct Headers {
    pub fields: Vec<HeaderField>,
}

/// The first value bound to `name` in `hs`, comparing names without case.
pub open spec fn lookup_hdr(hs: Seq<(Seq<u8>, Seq<u8>)>, name: Seq<u8>) -> Option<Seq<u8>>
    decreases hs.len(),
{
    if hs.len() == 0 {
        None
    } else if lower_seq(hs[0].0) == lower_seq(name) {
        Some(hs[0].1)
    } else {
        lookup_hdr(hs.drop_first(), name)
    }
}

impl Headers {
    /// The header list as a sequence of (name, value) byte-sequence pairs.
    pub open spec fn pairs(&self) -> Seq<(Seq<u8>, Seq<u8>)> {
        self.fields@.map_values(|f: HeaderField| (f.name@, f.value@))
    }

    pub fn new() -> (r: Headers)
        ensures
            r.pairs() == Seq::<(Seq<u8>, Seq<u8>)>::empty(),
    {
        let r = Headers { fields: Vec::new() };
        proof {
            assert(r.pairs() =~= Seq::<(Seq<u8>, Seq<u8>)>::empty());
        }
        r
    }

    /// Appends a field at the end, preserving everything before it.
    pub fn add(&mut self, name: Vec<u8>, value: Vec<u8>)
        ensures
            final(self).pairs() == old(self).pairs().push((name@, value@)),
    {
        let ghost n = name@;
        let ghost v = value@;
        self.fields.push(HeaderField { name, value });
        proof {
            assert(self.pairs() =~= old(self).pairs().push((n, v)));
        }
    }

    /// The first value bound to `name`, compared without ASCII case.
    pub fn get(&self, name: &Vec<u8>) -> (r: Option<Vec<u8>>)
        ensures
            match r {
                Some(v) => lookup_hdr(self.pairs(), name@) == Some(v@),
                None => lookup_hdr(self.pairs(), name@) is None,
            },
    {
        let mut i: usize = 0;
        proof {
            assert(self.pairs().skip(0) =~= self.pairs());
        }
        while i < self.fields.len()
            invariant
                i <= self.fields@.len(),
                lookup_hdr(self.pairs(), name@) == lookup_hdr(self.pairs().skip(i as int), name@),
            decreases self.fields@.len() - i,
        {
            proof {
                assert(self.pairs().skip(i as int)[0] == self.pairs()[i as int]);
                assert(self.pairs().skip(i as int).drop_first() =~= self.pairs().skip(i + 1));
            }
            if eq_ignore_case(&self.fields[i].name, name) {
                let v = self.fields[i].value.clone();
                return Some(v);
            }
            i = i + 1;
        }
        proof {
            assert(self.pairs().skip(i as int) =~= Seq::<(Seq<u8>, Seq<u8>)>::empty());
        }
        None
    }
}

/// The protocol version; only RTSP/1.0 is spoken.
pub enum Version {
    V10,
}

/// A client-to-server message. The method is kept as its raw token so that
/// an unknown verb still parses and can be answered with 501.
pub struct Request {
    pub method: Vec<u8>,
    pub uri: Vec<u8>,
    pub version: Version,
    pub headers: Headers,
    pub body: Vec<u8>,
}

/// A server-to-client message.
pub struct Response {
    pub version: Version,
    pub status: u16,
    pub reason: Vec<u8>,
    pub headers: Headers,
    pub body: Vec<u8>,
}

/// What a connection writes besides plain responses: a binary frame carrying
/// RTP or RTCP on one interleaved channel.
pub enum ResponseMaybeInterleaved {
    Message(Response),
    Interleaved { channel: u8, payload: Vec<u8> },
}

/// A start-line token: non-empty, free of spaces and line breaks.
pub open spec fn token_wf(s: Seq<u8>) -> bool {
    s.len() > 0 && forall|i: int| 0 <= i < s.len() ==> s[i] != 32 && s[i] != 13 && s[i] != 10
}

/// A reason phrase: free of line breaks (spaces allowed).
pub open spec fn phrase_wf(s: Seq<u8>) -> bool {
    forall|i: int| 0 <= i < s.len() ==> s[i] != 13 && s[i] != 10
}

/// A header name the codec round-trips: non-empty, no colon, no spaces,
/// no line breaks.
pub open spec fn header_name_wf(s: Seq<u8>) -> bool {
    s.len() > 0 && forall|i: int|
        0 <= i < s.len() ==> s[i] != 58 && s[i] != 32 && s[i] != 13 && s[i] != 10
}

/// A header value the codec round-trips: no line breaks and no leading
/// space (the parser strips leading spaces).
pub open spec fn header_value_wf(s: Seq<u8>) -> bool {
    (forall|i: int| 0 <= i < s.len() ==> s[i] != 13 && s[i] != 10) && (s.len() > 0 ==> s[0] != 32)
}

pub open spec fn headers_wf(hs: Seq<(Seq<u8>, Seq<u8>)>) -> bool {
    forall|i: int|
        0 <= i < hs.len() ==> header_name_wf(#[trigger] hs[i].0) && header_value_wf(hs[i].1)
}

/// The lower-cased name of the Content-Length header.
pub open spec fn content_length_lc() -> Seq<u8> {
    lower_seq(bytes_of("Content-Length"@))
}

/// The body is declared by Content-Length: absent means empty, present
/// means it spells out exactly the body's length.
pub open spec fn body_declared(hs: Seq<(Seq<u8>, Seq<u8>)>, body: Seq<u8>) -> bool {
    match lookup_hdr(hs, content_length_lc()) {
        None => body.len() == 0,
        Some(v) => v == dec_rep(body.len() as nat),
    }
}

impl Request {
    /// A request the codec can write and read back unchanged.
    pub open spec fn wf(&self) -> bool {
        &&& token_wf(self.method@)
        &&& self.method@[0] != 36
        &&& token_wf(self.uri@)
        &&& headers_wf(self.headers.pairs())
        &&& body_declared(self.headers.pairs(), self.body@)
    }
}

impl Response {
    /// A response the codec can write and read back unchanged.
    pub open spec fn wf(&self) -> bool {
        &&& 100 <= self.status <= 999
        &&& phrase_wf(self.reason@)
        &&& headers_wf(self.headers.pairs())
        &&& body_declared(self.headers.pairs(), self.body@)
    }
}

/// Builds the Content-Length header name.
pub fn content_length_name() -> (r: Vec<u8>)
    ensures
        lower_seq(r@) == content_length_lc(),
        header_name_wf(r@),
{
    proof {
        reveal_strlit("Content-Length");
    }
    let v = lit("Content-Length");
    proof {
        assert(lower_seq(v@) =~= content_length_lc());
    }
    v
}


/// A header lookup sees only the folded name: equal-under-case names find
/// the same value.
pub proof fn lemma_lookup_lower(hs: Seq<(Seq<u8>, Seq<u8>)>, n1: Seq<u8>, n2: Seq<u8>)
    requires
        lower_seq(n1) == lower_seq(n2),
    ensures
        lookup_hdr(hs, n1) == lookup_hdr(hs, n2),
    decreases hs.len(),
{
    if hs.len() > 0 {
        lemma_lookup_lower(hs.drop_first(), n1, n2);
    }
}


/// The RTSP verbs this server implements.
#[derive(Clone, Copy, Debug, PartialEq, Eq)]
pub enum Method {
    Options,
    Describe,
    Setup,
    Play,
    Pause,
    Teardown,
}

/// The verb named by a raw method token, compared without ASCII case.
pub open spec fn method_of(tok: Seq<u8>) -> Option<Method> {
    if lower_seq(tok) == lower_seq(bytes_of("OPTIONS"@)) {
        Some(Method::Options)
    } else if lower_seq(tok) == lower_seq(bytes_of("DESCRIBE"@)) {
        Some(Method::Describe)
    } else if lower_seq(tok) == lower_seq(bytes_of("SETUP"@)) {
        Some(Method::Setup)
    } else if lower_seq(tok) == lower_seq(bytes_of("PLAY"@)) {
        Some(Method::Play)
    } else if lower_seq(tok) == lower_seq(bytes_of("PAUSE"@)) {
        Some(Method::Pause)
    } else if lower_seq(tok) == lower_seq(bytes_of("TEARDOWN"@)) {
        Some(Method::Teardown)
    } else {
        None
    }
}

/// Recognizes a raw method token; an unknown token is answered with 501
/// by the handler.
pub fn parse_method(tok: &Vec<u8>) -> (r: Option<Method>)
    ensures
        r == method_of(tok@),
{
    proof {
        reveal_strlit("OPTIONS");
        reveal_strlit("DESCRIBE");
        reveal_strlit("SETUP");
        reveal_strlit("PLAY");
        reveal_strlit("PAUSE");
        reveal_strlit("TEARDOWN");
    }
    let options = lit("OPTIONS");
    let describe = lit("DESCRIBE");
    let setup = lit("SETUP");
    let play = lit("PLAY");
    let pause = lit("PAUSE");
    let teardown = lit("TEARDOWN");
    if eq_ignore_case(tok, &options) {
        Some(Method::Options)
    } else if eq_ignore_case(tok, &describe) {
        Some(Method::Describe)
    } else if eq_ignore_case(tok, &setup) {
        Some(Method::Setup)
    } else if eq_ignore_case(tok, &play) {
        Some(Method::Play)
    } else if eq_ignore_case(tok, &pause) {
        Some(Method::Pause)
    } else if eq_ignore_case(tok, &teardown) {
        Some(Method::Teardown)
    } else {
        None
    }
}


/// Appending a field leaves earlier lookups alone; a miss falls through
/// to the new field.
pub proof fn lemma_lookup_push(hs: Seq<(Seq<u8>, Seq<u8>)>, p: (Seq<u8>, Seq<u8>), n: Seq<u8>)
    ensures
        lookup_hdr(hs.push(p), n) == (match lookup_hdr(hs, n) {
            Some(v) => Some(v),
            None => if lower_seq(p.0) == lower_seq(n) {
                Some(p.1)
            } else {
                None
            },
        }),
    decreases hs.len(),
{
    if hs.len() == 0 {
        assert(hs.push(p)[0] == p);
        assert(hs.push(p).drop_first() =~= Seq::<(Seq<u8>, Seq<u8>)>::empty());
        assert(lookup_hdr(hs.push(p).drop_first(), n) is None);
    } else {
        lemma_lookup_push(hs.drop_first(), p, n);
        assert(hs.push(p)[0] == hs[0]);
        assert(hs.push(p).drop_first() =~= hs.drop_first().push(p));
    }
}

} // verus!
