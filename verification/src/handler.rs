//! The request handler: a mapping from one RTSP request and the server's
//! registries to one response, with the session and source effects the
//! dispatch table prescribes.

use vstd::prelude::*;
use tokio::sync::mpsc::UnboundedSender;
use crate::message::{
    Request,
    Response,
    Version,
    Headers,
    Method,
    ResponseMaybeInterleaved,
    method_of,
    parse_method,
    lookup_hdr,
    lemma_lookup_push,
    content_length_lc,
    content_length_name,
    body_declared,
};
use crate::octets::{
    lit,
    bytes_of,
    lower_seq,
    dec_rep,
    print_dec,
    append_bytes,
    contains_ci,
    contains_ci_exec,
    lemma_lower_idempotent,
    range_eq,
};
use crate::session::{
    SessionId,
    SessionState,
    SessionSetup,
    SessionSetupError,
    next_state,
    transition,
};
use crate::source::{Source, SourceLife};
use crate::transport::{
    parse_candidates,
    print_transport,
    print_transport_spec,
    Port,
    Channel,
    TransportView,
    Lower,
};

verus! {

pub open spec fn cseq_lc() -> Seq<u8> {
    lower_seq(bytes_of("CSeq"@))
}

pub open spec fn session_lc() -> Seq<u8> {
    lower_seq(bytes_of("Session"@))
}

pub open spec fn transport_lc() -> Seq<u8> {
    lower_seq(bytes_of("Transport"@))
}

pub open spec fn public_lc() -> Seq<u8> {
    lower_seq(bytes_of("Public"@))
}

pub open spec fn accept_lc() -> Seq<u8> {
    lower_seq(bytes_of("Accept"@))
}

/// The CSeq value of a request, if it carries one.
pub open spec fn cseq_of(req: Request) -> Option<Seq<u8>> {
    lookup_hdr(req.headers.pairs(), cseq_lc())
}

/// The session token of a request: its Session header up to any `;`.
pub open spec fn session_tok_of(req: Request) -> Option<Seq<u8>> {
    match lookup_hdr(req.headers.pairs(), session_lc()) {
        None => None,
        Some(v) => Some(crate::transport::split_on(v, 59)[0]),
    }
}

/// One live session as the registry holds it: its token, its state, its
/// negotiated setup, the path it was set up for, and — once PLAY
/// subscribed it — the source index and subscriber handle it drains.
pub struct SessionEntry {
    pub id: SessionId,
    pub state: SessionState,
    pub setup: SessionSetup,
    pub path: Vec<u8>,
    pub sub: Option<(usize, usize)>,
}

/// No two registry entries share a token; TEARDOWN of a token therefore
/// removes the only match, and a second TEARDOWN misses.
pub open spec fn tokens_unique(ss: Seq<SessionEntry>) -> bool {
    forall|i: int, j: int| 0 <= i < j < ss.len() ==> ss[i].id.token@ != ss[j].id.token@
}

/// Every stored subscription points at an existing source and an
/// existing subscriber slot of it.
pub open spec fn subs_valid(ss: Seq<SessionEntry>, srcs: Seq<Source>) -> bool {
    forall|i: int|
        0 <= i < ss.len() ==> (match (#[trigger] ss[i]).sub {
            None => true,
            Some(kh) => kh.0 < srcs.len() && kh.1 < srcs[kh.0 as int].subscribers@.len(),
        })
}

/// The registries' invariant: unique session tokens, well-formed
/// sources, and subscriptions that point at real slots.
pub open spec fn state_wf(s: ServerState) -> bool {
    &&& tokens_unique(s.sessions@)
    &&& subs_valid(s.sessions@, s.sources@)
    &&& forall|k: int| 0 <= k < s.sources@.len() ==> crate::source::src_wf(#[trigger] s.sources@[k])
}

/// What PLAY does to the source it subscribes to: one fresh live
/// subscriber is appended, everything else kept.
pub open spec fn subscribed_to(pre: Source, post: Source, h: int) -> bool {
    &&& post.life == pre.life
    &&& post.cap == pre.cap
    &&& post.path == pre.path
    &&& post.subscribers@.len() == pre.subscribers@.len() + 1
    &&& h == pre.subscribers@.len()
    &&& forall|j: int| 0 <= j < pre.subscribers@.len() ==> post.subscribers@[j] == pre.subscribers@[j]
    &&& post.subscribers@[h].seen_init == false
    &&& post.subscribers@[h].live == true
    &&& post.subscribers@[h].lagged == 0
}

/// What TEARDOWN does to the source it leaves: subscriber `h` is given
/// back (dead, empty), every other slot kept.
pub open spec fn unsubscribed_at(pre: Source, post: Source, h: int) -> bool {
    &&& post.life == pre.life
    &&& post.cap == pre.cap
    &&& post.path == pre.path
    &&& post.subscribers@.len() == pre.subscribers@.len()
    &&& forall|j: int|
        0 <= j < pre.subscribers@.len() && j != h ==> post.subscribers@[j] == pre.subscribers@[j]
    &&& post.subscribers@[h].live == false
    &&& post.subscribers@[h].queue@.len() == 0
    &&& post.subscribers@[h].lagged == 0
}

/// What a found or missed token means at every index.
proof fn lemma_find_session_props(ss: Seq<SessionEntry>, tok: Seq<u8>, i: int)
    requires
        0 <= i,
    ensures
        match find_session(ss, tok, i) {
            Some(k) => i <= k < ss.len() && ss[k].id.token@ == tok && forall|j: int|
                i <= j < k ==> ss[j].id.token@ != tok,
            None => forall|j: int| i <= j < ss.len() ==> ss[j].id.token@ != tok,
        },
    decreases ss.len() - i,
{
    if i < ss.len() && ss[i].id.token@ != tok {
        lemma_find_session_props(ss, tok, i + 1);
    }
}

/// A token carried by no entry is never found.
proof fn lemma_find_session_none(ss: Seq<SessionEntry>, tok: Seq<u8>, i: int)
    requires
        0 <= i,
        forall|j: int| i <= j < ss.len() ==> ss[j].id.token@ != tok,
    ensures
        find_session(ss, tok, i) is None,
    decreases ss.len() - i,
{
    if i < ss.len() {
        lemma_find_session_none(ss, tok, i + 1);
    }
}

/// The law behind double TEARDOWN: with unique tokens, removing the
/// session found for a token leaves no session with that token, so the
/// second TEARDOWN of the same token answers 454.
pub proof fn lemma_second_teardown_misses(ss: Seq<SessionEntry>, tok: Seq<u8>, i: int)
    requires
        tokens_unique(ss),
        0 <= i < ss.len(),
        ss[i].id.token@ == tok,
    ensures
        find_session(ss.remove(i), tok, 0) is None,
{
    let rem = ss.remove(i);
    assert forall|j: int| 0 <= j < rem.len() implies rem[j].id.token@ != tok by {
        let korig: int = if j < i {
            j
        } else {
            j + 1
        };
        assert(rem[j] == ss[korig]);
        if korig < i {
            assert(ss[korig].id.token@ != ss[i].id.token@);
        } else {
            assert(ss[i].id.token@ != ss[korig].id.token@);
        }
    }
    lemma_find_session_none(rem, tok, 0);
}

/// The index of the session with this token.
pub open spec fn find_session(ss: Seq<SessionEntry>, tok: Seq<u8>, i: int) -> Option<int>
    decreases ss.len() - i,
    when i >= 0
{
    if i >= ss.len() {
        None
    } else if ss[i].id.token@ == tok {
        Some(i)
    } else {
        find_session(ss, tok, i + 1)
    }
}

/// The index of the source registered for this path.
pub open spec fn find_source(srcs: Seq<Source>, path: Seq<u8>, i: int) -> Option<int>
    decreases srcs.len() - i,
    when i >= 0
{
    if i >= srcs.len() {
        None
    } else if srcs[i].path@ == path {
        Some(i)
    } else {
        find_source(srcs, path, i + 1)
    }
}

/// The server's shared registries: sessions by token, sources by path.
pub struct ServerState {
    pub sessions: Vec<SessionEntry>,
    pub sources: Vec<Source>,
}

impl ServerState {
    pub fn new() -> (r: ServerState)
        ensures
            r.sessions@.len() == 0,
            r.sources@.len() == 0,
    {
        ServerState { sessions: Vec::new(), sources: Vec::new() }
    }

    /// Finds a session by its token.
    pub fn find_session_idx(&self, tok: &Vec<u8>) -> (r: Option<usize>)
        ensures
            match r {
                Some(i) => find_session(self.sessions@, tok@, 0) == Some(i as int) && i
                    < self.sessions@.len(),
                None => find_session(self.sessions@, tok@, 0) is None,
            },
    {
        let mut i: usize = 0;
        while i < self.sessions.len()
            invariant
                i <= self.sessions@.len(),
                find_session(self.sessions@, tok@, 0) == find_session(
                    self.sessions@,
                    tok@,
                    i as int,
                ),
            decreases self.sessions@.len() - i,
        {
            if range_eq(&self.sessions[i].id.token, 0, self.sessions[i].id.token.len(), tok) {
                proof {
                    assert(self.sessions@[i as int].id.token@.subrange(
                        0,
                        self.sessions@[i as int].id.token@.len() as int,
                    ) =~= self.sessions@[i as int].id.token@);
                }
                return Some(i);
            }
            proof {
                assert(self.sessions@[i as int].id.token@.subrange(
                    0,
                    self.sessions@[i as int].id.token@.len() as int,
                ) =~= self.sessions@[i as int].id.token@);
            }
            i = i + 1;
        }
        None
    }

    /// Finds a source by its path.
    pub fn find_source_idx(&self, path: &Vec<u8>) -> (r: Option<usize>)
        ensures
            match r {
                Some(i) => find_source(self.sources@, path@, 0) == Some(i as int) && i
                    < self.sources@.len(),
                None => find_source(self.sources@, path@, 0) is None,
            },
    {
        let mut i: usize = 0;
        while i < self.sources.len()
            invariant
                i <= self.sources@.len(),
                find_source(self.sources@, path@, 0) == find_source(self.sources@, path@, i as int),
            decreases self.sources@.len() - i,
        {
            if range_eq(&self.sources[i].path, 0, self.sources[i].path.len(), path) {
                proof {
                    assert(self.sources@[i as int].path@.subrange(
                        0,
                        self.sources@[i as int].path@.len() as int,
                    ) =~= self.sources@[i as int].path@);
                }
                return Some(i);
            }
            proof {
                assert(self.sources@[i as int].path@.subrange(
                    0,
                    self.sources@[i as int].path@.len() as int,
                ) =~= self.sources@[i as int].path@);
            }
            i = i + 1;
        }
        None
    }

    /// Registers a source; a duplicate path is rejected and nothing
    /// changes.
    pub fn register_source(&mut self, src: Source) -> (r: bool)
        ensures
            r == (find_source(old(self).sessions_srcs(), src.path@, 0) is None),
            r ==> final(self).sources@ == old(self).sources@.push(src),
            !r ==> final(self).sources@ == old(self).sources@,
            final(self).sessions@ == old(self).sessions@,
    {
        match self.find_source_idx(&src.path) {
            Some(_) => false,
            None => {
                self.sources.push(src);
                true
            },
        }
    }

    /// A naming aid: the source table as the lookup sees it.
    pub open spec fn sessions_srcs(&self) -> Seq<Source> {
        self.sources@
    }
}

/// What the surrounding task supplies with each request: the peer's
/// address, a preformatted date, the even UDP port it bound (if any
/// could be), and the connection's next free channel pair.
pub struct ConnCtx {
    pub peer_ip: Vec<u8>,
    pub date: Vec<u8>,
    pub rtp_port: Option<u16>,
    pub next_chan: u8,
}

fn cseq_name() -> (r: Vec<u8>)
    ensures
        r@ == bytes_of("CSeq"@),
        lower_seq(r@) == cseq_lc(),
{
    proof {
        reveal_strlit("CSeq");
    }
    let v = lit("CSeq");
    proof {
        assert(lower_seq(v@) =~= cseq_lc());
    }
    v
}

fn session_name() -> (r: Vec<u8>)
    ensures
        lower_seq(r@) == session_lc(),
{
    proof {
        reveal_strlit("Session");
    }
    let v = lit("Session");
    proof {
        assert(lower_seq(v@) =~= session_lc());
    }
    v
}

fn transport_name() -> (r: Vec<u8>)
    ensures
        lower_seq(r@) == transport_lc(),
{
    proof {
        reveal_strlit("Transport");
    }
    let v = lit("Transport");
    proof {
        assert(lower_seq(v@) =~= transport_lc());
    }
    v
}

fn public_name() -> (r: Vec<u8>)
    ensures
        lower_seq(r@) == public_lc(),
{
    proof {
        reveal_strlit("Public");
    }
    let v = lit("Public");
    proof {
        assert(lower_seq(v@) =~= public_lc());
    }
    v
}

fn accept_name() -> (r: Vec<u8>)
    ensures
        lower_seq(r@) == accept_lc(),
{
    proof {
        reveal_strlit("Accept");
    }
    let v = lit("Accept");
    proof {
        assert(lower_seq(v@) =~= accept_lc());
    }
    v
}


/// Looking a name up in three fields of other names finds nothing. The
/// name arrives already folded, as the `_lc` names are.
proof fn lemma_lookup3(
    pa: (Seq<u8>, Seq<u8>),
    pb: (Seq<u8>, Seq<u8>),
    pc: (Seq<u8>, Seq<u8>),
    n: Seq<u8>,
)
    requires
        lower_seq(pa.0) != lower_seq(n),
        lower_seq(pb.0) != lower_seq(n),
        lower_seq(pc.0) != lower_seq(n),
    ensures
        lookup_hdr(seq![pa, pb, pc], n) is None,
{
    let hs = seq![pa, pb, pc];
    assert(hs[0] == pa);
    assert(hs.drop_first() =~= seq![pb, pc]);
    assert(seq![pb, pc][0] == pb);
    assert(seq![pb, pc].drop_first() =~= seq![pc]);
    assert(seq![pc][0] == pc);
    assert(seq![pc].drop_first() =~= Seq::<(Seq<u8>, Seq<u8>)>::empty());
    assert(lookup_hdr(Seq::<(Seq<u8>, Seq<u8>)>::empty(), n) is None);
    assert(lookup_hdr(seq![pc], n) is None);
    assert(lookup_hdr(seq![pb, pc], n) is None);
    assert(lookup_hdr(hs, n) is None);
}

/// A response skeleton: the status line and the CSeq, Server and Date
/// headers every answer carries.
fn base_response(status: u16, reason: Vec<u8>, cseq: &Vec<u8>, ctx: &ConnCtx) -> (r: Response)
    requires
        100 <= status <= 999,
    ensures
        r.status == status,
        r.reason@ == reason@,
        r.body@.len() == 0,
        r.version is V10,
        lookup_hdr(r.headers.pairs(), cseq_lc()) == Some(cseq@),
        r.headers.pairs().len() == 3,
        r.headers.pairs()[0].0 == bytes_of("CSeq"@),
        lower_seq(r.headers.pairs()[0].0) == cseq_lc(),
        r.headers.pairs()[0].1 == cseq@,
        lookup_hdr(r.headers.pairs(), content_length_lc()) is None,
        lookup_hdr(r.headers.pairs(), public_lc()) is None,
        lookup_hdr(r.headers.pairs(), transport_lc()) is None,
        lookup_hdr(r.headers.pairs(), session_lc()) is None,
        lookup_hdr(r.headers.pairs(), accept_lc()) is None,
        body_declared(r.headers.pairs(), r.body@),
{
    proof {
        reveal_strlit("CSeq");
        reveal_strlit("Server");
        reveal_strlit("Date");
        reveal_strlit("Content-Length");
        reveal_strlit("Public");
        reveal_strlit("Transport");
        reveal_strlit("Session");
        reveal_strlit("Accept");
        reveal_strlit("oddity-rtsp-server");
    }
    let mut headers = Headers::new();
    let cname = cseq_name();
    let ghost na = cname@;
    let cseq_v = cseq.clone();
    let date_v = ctx.date.clone();
    proof {
        assert(cseq_v@ =~= cseq@);
        assert(date_v@ =~= ctx.date@);
    }
    headers.add(cname, cseq_v);
    let server_n = lit("Server");
    let server_v = lit("oddity-rtsp-server");
    headers.add(server_n, server_v);
    let date_n = lit("Date");
    headers.add(date_n, date_v);
    proof {
        let cs = cseq_lc();
        let pa = (na, cseq@);
        let pb = (bytes_of("Server"@), bytes_of("oddity-rtsp-server"@));
        let pc = (bytes_of("Date"@), ctx.date@);
        assert(headers.pairs().len() == 3);
        assert(headers.pairs()[0] == pa);
        assert(headers.pairs()[1] == pb);
        assert(headers.pairs()[2] == pc);
        assert(headers.pairs() =~= seq![pa, pb, pc]);
        assert(lower_seq(pa.0) == cs);
        assert(lower_seq(cs) =~= cs);
        assert(seq![pa, pb, pc][0] == pa);
        assert(lookup_hdr(headers.pairs(), cs) == Some(cseq@));
        assert(lower_seq(pa.0).len() == 4) by {
            assert(lower_seq(pa.0) == cs);
            assert(cs.len() == 4);
        }
        assert(lower_seq(pb.0).len() == 6);
        assert(lower_seq(pc.0).len() == 4);
        assert(lower_seq(pb.0)[0] == 115);
        assert(lower_seq(pc.0)[0] == 100);
        assert(content_length_lc().len() == 14);
        assert(public_lc().len() == 6 && public_lc()[0] == 112);
        assert(transport_lc().len() == 9);
        assert(session_lc().len() == 7);
        assert(accept_lc().len() == 6 && accept_lc()[0] == 97);
        assert(cs.len() == 4 && cs[0] == 99);
        lemma_lookup3(pa, pb, pc, content_length_lc());
        lemma_lookup3(pa, pb, pc, public_lc());
        lemma_lookup3(pa, pb, pc, transport_lc());
        lemma_lookup3(pa, pb, pc, session_lc());
        lemma_lookup3(pa, pb, pc, accept_lc());
    }
    Response { version: Version::V10, status, reason, headers, body: Vec::new() }
}

/// The value of the Public header: every verb this server implements.
pub open spec fn public_value() -> Seq<u8> {
    bytes_of("OPTIONS, DESCRIBE, SETUP, PLAY, PAUSE, TEARDOWN"@)
}

/// The P3 shape of an echoed transport: an even RTP server port with its
/// RTCP companion right above it, or an adjacent interleaved pair.
pub open spec fn transport_answer_ok(tv: TransportView) -> bool {
    ||| (match tv.server_port {
        Some(Port::Range(p, q)) => p % 2 == 0 && q == p + 1,
        _ => false,
    })
    ||| (match tv.interleaved {
        Some(Channel::Range(a, b)) => b == a + 1,
        _ => false,
    })
}


/// An OPTIONS answer: 200 with the verb list.
fn respond_options(cseq: &Vec<u8>, ctx: &ConnCtx) -> (r: Response)
    ensures
        r.status == 200,
        r.version is V10,
        r.reason@ == bytes_of("OK"@),
        lookup_hdr(r.headers.pairs(), cseq_lc()) == Some(cseq@),
        r.headers.pairs().len() >= 1,
        r.headers.pairs()[0].0 == bytes_of("CSeq"@),
        lower_seq(r.headers.pairs()[0].0) == cseq_lc(),
        r.headers.pairs()[0].1 == cseq@,
        lookup_hdr(r.headers.pairs(), public_lc()) == Some(public_value()),
        body_declared(r.headers.pairs(), r.body@),
{
    proof {
        reveal_strlit("OK");
        reveal_strlit("OPTIONS, DESCRIBE, SETUP, PLAY, PAUSE, TEARDOWN");
        reveal_strlit("Public");
        reveal_strlit("Content-Length");
        reveal_strlit("CSeq");
    }
    let mut r = base_response(200, lit("OK"), cseq, ctx);
    let ghost e = r.headers.pairs();
    let pname = public_name();
    let ghost png = pname@;
    r.headers.add(pname, lit("OPTIONS, DESCRIBE, SETUP, PLAY, PAUSE, TEARDOWN"));
    proof {
        assert(lower_seq(public_lc()) =~= public_lc());
        assert(lower_seq(cseq_lc()) =~= cseq_lc());
        assert(lower_seq(content_length_lc()) =~= content_length_lc());
        lemma_lookup_push(e, (png, public_value()), public_lc());
        lemma_lookup_push(e, (png, public_value()), cseq_lc());
        lemma_lookup_push(e, (png, public_value()), content_length_lc());
        assert(lower_seq(png) == public_lc());
        assert(public_lc().len() == 6 && cseq_lc().len() == 4 && content_length_lc().len() == 14);
    }
    r
}

/// A DESCRIBE answer: 200 carrying the SDP body, declared by
/// Content-Length and typed application/sdp.
fn respond_describe_ok(cseq: &Vec<u8>, ctx: &ConnCtx, sdp: Vec<u8>) -> (r: Response)
    ensures
        r.status == 200,
        r.version is V10,
        r.body@ == sdp@,
        lookup_hdr(r.headers.pairs(), cseq_lc()) == Some(cseq@),
        r.headers.pairs().len() >= 1,
        r.headers.pairs()[0].0 == bytes_of("CSeq"@),
        lower_seq(r.headers.pairs()[0].0) == cseq_lc(),
        r.headers.pairs()[0].1 == cseq@,
        body_declared(r.headers.pairs(), r.body@),
{
    proof {
        reveal_strlit("OK");
        reveal_strlit("Content-Type");
        reveal_strlit("application/sdp");
        reveal_strlit("Content-Length");
        reveal_strlit("CSeq");
    }
    let mut r = base_response(200, lit("OK"), cseq, ctx);
    let ghost e0 = r.headers.pairs();
    let ct_n = lit("Content-Type");
    r.headers.add(ct_n, lit("application/sdp"));
    let ghost e1 = r.headers.pairs();
    let cl_n = content_length_name();
    let ghost cln = cl_n@;
    let cl_v = print_dec(sdp.len());
    r.headers.add(cl_n, cl_v);
    proof {
        let ctp = (bytes_of("Content-Type"@), bytes_of("application/sdp"@));
        assert(lower_seq(content_length_lc()) =~= content_length_lc());
        assert(lower_seq(cseq_lc()) =~= cseq_lc());
        lemma_lookup_push(e0, ctp, content_length_lc());
        lemma_lookup_push(e0, ctp, cseq_lc());
        assert(lower_seq(ctp.0).len() == 12 && content_length_lc().len() == 14 && cseq_lc().len()
            == 4);
        lemma_lookup_push(e1, (cln, dec_rep(sdp@.len() as nat)), content_length_lc());
        lemma_lookup_push(e1, (cln, dec_rep(sdp@.len() as nat)), cseq_lc());
        assert(lower_seq(cln) == content_length_lc());
        assert(lookup_hdr(r.headers.pairs(), content_length_lc()) == Some(
            dec_rep(sdp@.len() as nat),
        ));
    }
    r.body = sdp;
    r
}

/// The `;timeout=60` tail of a Session header value.
pub open spec fn timeout_suffix() -> Seq<u8> {
    bytes_of(";timeout=60"@)
}

/// A SETUP answer: 200 echoing the resolved transport and naming the new
/// session with its keep-alive timeout.
fn respond_setup_ok(cseq: &Vec<u8>, ctx: &ConnCtx, transport_val: Vec<u8>, token: &Vec<u8>) -> (r:
    Response)
    ensures
        r.status == 200,
        r.version is V10,
        lookup_hdr(r.headers.pairs(), cseq_lc()) == Some(cseq@),
        r.headers.pairs().len() >= 1,
        r.headers.pairs()[0].0 == bytes_of("CSeq"@),
        lower_seq(r.headers.pairs()[0].0) == cseq_lc(),
        r.headers.pairs()[0].1 == cseq@,
        lookup_hdr(r.headers.pairs(), transport_lc()) == Some(transport_val@),
        lookup_hdr(r.headers.pairs(), session_lc()) == Some(token@ + timeout_suffix()),
        body_declared(r.headers.pairs(), r.body@),
{
    proof {
        reveal_strlit("OK");
        reveal_strlit("Transport");
        reveal_strlit("Session");
        reveal_strlit(";timeout=60");
        reveal_strlit("Content-Length");
        reveal_strlit("CSeq");
    }
    let mut r = base_response(200, lit("OK"), cseq, ctx);
    let ghost e0 = r.headers.pairs();
    let ghost tval = transport_val@;
    let t_n = transport_name();
    let ghost tng = t_n@;
    r.headers.add(t_n, transport_val);
    let ghost e1 = r.headers.pairs();
    let s_n = session_name();
    let ghost sng = s_n@;
    let mut s_v = token.clone();
    proof {
        assert(s_v@ =~= token@);
    }
    let suffix = lit(";timeout=60");
    append_bytes(&mut s_v, &suffix);
    r.headers.add(s_n, s_v);
    proof {
        assert(lower_seq(tng) == transport_lc());
        assert(lower_seq(sng) == session_lc());
        assert(lower_seq(transport_lc()) =~= transport_lc());
        assert(lower_seq(session_lc()) =~= session_lc());
        assert(lower_seq(cseq_lc()) =~= cseq_lc());
        assert(lower_seq(content_length_lc()) =~= content_length_lc());
        assert(transport_lc().len() == 9 && session_lc().len() == 7 && cseq_lc().len() == 4
            && content_length_lc().len() == 14);
        lemma_lookup_push(e0, (tng, tval), transport_lc());
        lemma_lookup_push(e0, (tng, tval), session_lc());
        lemma_lookup_push(e0, (tng, tval), cseq_lc());
        lemma_lookup_push(e0, (tng, tval), content_length_lc());
        lemma_lookup_push(e1, (sng, token@ + timeout_suffix()), transport_lc());
        lemma_lookup_push(e1, (sng, token@ + timeout_suffix()), session_lc());
        lemma_lookup_push(e1, (sng, token@ + timeout_suffix()), cseq_lc());
        lemma_lookup_push(e1, (sng, token@ + timeout_suffix()), content_length_lc());
    }
    r
}


/// Negotiates one SETUP for a given session identifier: the error cases
/// follow `setup_err_of` exactly, and with a token no live session holds
/// the answer is 200 — the resolved transport echoed and the session
/// registered in `Ready`. A colliding token answers 500 and changes
/// nothing; `handle` draws the token at random and calls this.
pub fn setup_session_with_id(
    state: &mut ServerState,
    ctx: &ConnCtx,
    sender: UnboundedSender<ResponseMaybeInterleaved>,
    cseq: &Vec<u8>,
    uri: &Vec<u8>,
    tval: &Vec<u8>,
    id: SessionId,
) -> (r: Response)
    requires
        match ctx.rtp_port {
            Some(p) => p % 2 == 0,
            None => true,
        },
        ctx.next_chan < 255,
        state_wf(*old(state)),
    ensures
        state_wf(*final(state)),
        r.version is V10,
        100 <= r.status <= 999,
        body_declared(r.headers.pairs(), r.body@),
        lookup_hdr(r.headers.pairs(), cseq_lc()) == Some(cseq@),
        r.headers.pairs().len() >= 1,
        r.headers.pairs()[0].0 == bytes_of("CSeq"@),
        lower_seq(r.headers.pairs()[0].0) == cseq_lc(),
        r.headers.pairs()[0].1 == cseq@,
        final(state).sources@ == old(state).sources@,
        ({
            let err = crate::session::setup_err_of(
                crate::transport::parse_candidates_spec(tval@),
                ctx.peer_ip@,
                ctx.rtp_port,
                ctx.next_chan,
            );
            match err {
                Some(SessionSetupError::TransportNotSupported) => r.status == 461 && *final(state)
                    == *old(state),
                Some(SessionSetupError::PortUnavailable) => r.status == 500 && r.reason@
                    == bytes_of("port unavailable"@) && *final(state) == *old(state),
                Some(SessionSetupError::DestinationInvalid) => r.status == 400 && *final(state)
                    == *old(state),
                None => (if find_session(old(state).sessions@, id.token@, 0) is Some {
                    r.status == 500 && r.reason@ == bytes_of("Internal Server Error"@)
                        && *final(state) == *old(state)
                } else {
                    &&& r.status == 200
                    &&& (exists|t: TransportView|
                        lookup_hdr(r.headers.pairs(), transport_lc()) == Some(
                            print_transport_spec(t),
                        ) && transport_answer_ok(t))
                    &&& lookup_hdr(r.headers.pairs(), session_lc()) == Some(
                        id.token@ + timeout_suffix(),
                    )
                    &&& final(state).sessions@.len() == old(state).sessions@.len() + 1
                    &&& (forall|j: int|
                        0 <= j < old(state).sessions@.len() ==> final(state).sessions@[j] == old(state).sessions@[j])
                    &&& final(state).sessions@.last().id.token@ == id.token@
                    &&& final(state).sessions@.last().state == SessionState::Ready
                    &&& final(state).sessions@.last().path@ == uri@
                    &&& final(state).sessions@.last().sub is None
                }),
            }
        }),
{
    proof {
        reveal_strlit("Unsupported Transport");
        reveal_strlit("port unavailable");
        reveal_strlit("Bad Request");
        reveal_strlit("Internal Server Error");
        reveal_strlit("OK");
    }
    let cands = parse_candidates(tval);
    match SessionSetup::from_rtsp_candidate_transports(
        &cands,
        sender,
        &ctx.peer_ip,
        ctx.rtp_port,
        ctx.next_chan,
    ) {
        Err(SessionSetupError::TransportNotSupported) => base_response(
            461,
            lit("Unsupported Transport"),
            cseq,
            ctx,
        ),
        Err(SessionSetupError::PortUnavailable) => base_response(
            500,
            lit("port unavailable"),
            cseq,
            ctx,
        ),
        Err(SessionSetupError::DestinationInvalid) => base_response(
            400,
            lit("Bad Request"),
            cseq,
            ctx,
        ),
        Ok(setup) => {
            match state.find_session_idx(&id.token) {
                Some(_) => {
                    proof {
                        assert(bytes_of("Internal Server Error"@).len() == 21);
                        assert(bytes_of("port unavailable"@).len() == 16);
                    }
                    base_response(500, lit("Internal Server Error"), cseq, ctx)
                },
                None => {
                    let ghost tv = setup.rtsp_transport.tv();
                    let ghost pre_sessions = state.sessions@;
                    let tprint = print_transport(&setup.rtsp_transport);
                    let token = id.token.clone();
                    proof {
                        assert(token@ =~= id.token@);
                    }
                    let path = crate::octets::subvec(uri, 0, uri.len());
                    proof {
                        assert(path@ =~= uri@);
                        lemma_find_session_props(pre_sessions, id.token@, 0);
                    }
                    let entry = SessionEntry {
                        id,
                        state: SessionState::Ready,
                        setup,
                        path,
                        sub: None,
                    };
                    state.sessions.push(entry);
                    let resp = respond_setup_ok(cseq, ctx, tprint, &token);
                    proof {
                        assert(transport_answer_ok(tv));
                        assert(lookup_hdr(resp.headers.pairs(), transport_lc()) == Some(
                            print_transport_spec(tv),
                        ));
                        assert(tokens_unique(state.sessions@)) by {
                            assert forall|a: int, b: int|
                                0 <= a < b < state.sessions@.len() implies state.sessions@[
                                a
                            ].id.token@ != state.sessions@[b].id.token@ by {
                                if b < pre_sessions.len() {
                                } else {
                                    assert(state.sessions@[a] == pre_sessions[a]);
                                    assert(state.sessions@[b].id.token@ != pre_sessions[
                                        a
                                    ].id.token@);
                                }
                            }
                        }
                        assert(subs_valid(state.sessions@, state.sources@));
                    }
                    resp
                },
            }
        },
    }
}

/// Handles one request against the registries: the dispatch table of the
/// server. Every answer echoes the request's CSeq; a request without one
/// is answered 400. Sessions are created by SETUP, subscribed to their
/// source by PLAY, and destroyed by TEARDOWN at once — the registry slot
/// and the subscription go together, so a second TEARDOWN answers 454.
/// A SETUP whose negotiation succeeds answers 200 unless the drawn token
/// collides with a live session (then 500, Internal Server Error).
#[verifier::rlimit(100)]
pub fn handle(
    state: &mut ServerState,
    ctx: &ConnCtx,
    sender: UnboundedSender<ResponseMaybeInterleaved>,
    req: &Request,
) -> (r: Response)
    requires
        match ctx.rtp_port {
            Some(p) => p % 2 == 0,
            None => true,
        },
        ctx.next_chan < 255,
        state_wf(*old(state)),
    ensures
        state_wf(*final(state)),
        r.version is V10,
        100 <= r.status <= 999,
        body_declared(r.headers.pairs(), r.body@),
        (match cseq_of(*req) {
            Some(c) => lookup_hdr(r.headers.pairs(), cseq_lc()) == Some(c)
                && r.headers.pairs().len() >= 1 && r.headers.pairs()[0].0 == bytes_of("CSeq"@)
                && r.headers.pairs()[0].1 == c,
            None => r.status == 400 && *final(state) == *old(state),
        }),
        cseq_of(*req) is Some && method_of(req.method@) is None ==> r.status == 501
            && *final(state) == *old(state),
        cseq_of(*req) is Some && method_of(req.method@) == Some(Method::Options) ==> r.status
            == 200 && r.reason@ == bytes_of("OK"@) && lookup_hdr(r.headers.pairs(), public_lc())
            == Some(public_value()) && *final(state) == *old(state),
        cseq_of(*req) is Some && (method_of(req.method@) == Some(Method::Play) || method_of(
            req.method@,
        ) == Some(Method::Pause) || method_of(req.method@) == Some(Method::Teardown)) ==> (match session_tok_of(
            *req,
        ) {
            None => r.status == 454 && *final(state) == *old(state),
            Some(tok) => match find_session(old(state).sessions@, tok, 0) {
                None => r.status == 454 && *final(state) == *old(state),
                Some(i) => (match method_of(req.method@) {
                    Some(Method::Teardown) => {
                        &&& r.status == 200
                        &&& final(state).sessions@ == old(state).sessions@.remove(i)
                        &&& (match old(state).sessions@[i].sub {
                            None => final(state).sources@ == old(state).sources@,
                            Some(kh) => {
                                &&& final(state).sources@.len() == old(state).sources@.len()
                                &&& (forall|j: int|
                                    0 <= j < old(state).sources@.len() && j != kh.0 ==> final(state).sources@[j] == old(state).sources@[j])
                                &&& unsubscribed_at(
                                    old(state).sources@[kh.0 as int],
                                    final(state).sources@[kh.0 as int],
                                    kh.1 as int,
                                )
                            },
                        })
                    },
                    Some(m) => (match next_state(old(state).sessions@[i].state, m) {
                        None => r.status == 455 && *final(state) == *old(state),
                        Some(ns) => {
                            &&& r.status == 200
                            &&& final(state).sessions@.len() == old(state).sessions@.len()
                            &&& final(state).sessions@[i].state == ns
                            &&& final(state).sessions@[i].id == old(state).sessions@[i].id
                            &&& (forall|j: int|
                                0 <= j < old(state).sessions@.len() && j != i ==> final(state).sessions@[j] == old(state).sessions@[j])
                            &&& (m is Pause ==> final(state).sources@ == old(state).sources@
                                && final(state).sessions@[i].sub == old(state).sessions@[i].sub)
                            &&& (m is Play ==> (match old(state).sessions@[i].sub {
                                Some(_) => final(state).sources@ == old(state).sources@ && final(state).sessions@[i].sub == old(state).sessions@[i].sub,
                                None => (match find_session_source(
                                    old(state).sources@,
                                    old(state).sessions@[i].path@,
                                ) {
                                    None => final(state).sources@ == old(state).sources@ && final(state).sessions@[i].sub is None,
                                    Some(k) => {
                                        &&& final(state).sources@.len() == old(state).sources@.len()
                                        &&& (forall|j: int|
                                            0 <= j < old(state).sources@.len() && j != k
                                                ==> final(state).sources@[j] == old(state).sources@[j])
                                        &&& subscribed_to(
                                            old(state).sources@[k],
                                            final(state).sources@[k],
                                            old(state).sources@[k].subscribers@.len() as int,
                                        )
                                        &&& (final(state).sessions@[i].sub matches Some(kh)
                                            && kh.0 == k && kh.1 == old(state).sources@[k].subscribers@.len())
                                    },
                                }),
                            }))
                        },
                    }),
                    None => true,
                }),
            },
        }),
        cseq_of(*req) is Some && method_of(req.method@) == Some(Method::Setup) ==> ({
            let th = lookup_hdr(req.headers.pairs(), transport_lc());
            match th {
                None => r.status == 400 && *final(state) == *old(state),
                Some(tval) => {
                    let err = crate::session::setup_err_of(
                        crate::transport::parse_candidates_spec(tval),
                        ctx.peer_ip@,
                        ctx.rtp_port,
                        ctx.next_chan,
                    );
                    &&& final(state).sources@ == old(state).sources@
                    &&& (match err {
                        Some(SessionSetupError::TransportNotSupported) => r.status == 461
                            && *final(state) == *old(state),
                        Some(SessionSetupError::PortUnavailable) => r.status == 500 && r.reason@
                            == bytes_of("port unavailable"@) && *final(state) == *old(state),
                        Some(SessionSetupError::DestinationInvalid) => r.status == 400 && *final(state) == *old(state),
                        None => ({
                            ||| ({
                                &&& r.status == 200
                                &&& (exists|t: TransportView|
                                    lookup_hdr(r.headers.pairs(), transport_lc()) == Some(
                                        print_transport_spec(t),
                                    ) && transport_answer_ok(t))
                                &&& final(state).sessions@.len() == old(state).sessions@.len() + 1
                                &&& final(state).sessions@.last().state == SessionState::Ready
                                &&& final(state).sessions@.last().path@ == req.uri@
                                &&& final(state).sessions@.last().sub is None
                            })
                            ||| (r.status == 500 && r.reason@ == bytes_of("Internal Server Error"@)
                                && *final(state) == *old(state))
                        }),
                    })
                },
            }
        }),
        cseq_of(*req) is Some && method_of(req.method@) == Some(Method::Describe) ==> *final(state)
            == *old(state) && ({
            let acc = lookup_hdr(req.headers.pairs(), accept_lc());
            if (acc matches Some(av) && !contains_ci(av, bytes_of("application/sdp"@))) {
                r.status == 406
            } else {
                match find_source(old(state).sources@, req.uri@, 0) {
                    None => r.status == 404,
                    Some(i) => match old(state).sources@[i].life {
                        SourceLife::Streaming(info) => r.status == 200 && r.body@ == info.sdp@,
                        _ => r.status == 404,
                    },
                }
            }
        }),
{
    proof {
        reveal_strlit("Bad Request");
        reveal_strlit("Not Implemented");
        reveal_strlit("Not Found");
        reveal_strlit("Not Acceptable");
        reveal_strlit("Session Not Found");
        reveal_strlit("Method Not Valid in This State");
        reveal_strlit("OK");
        reveal_strlit("CSeq");
        reveal_strlit("Session");
        reveal_strlit("Transport");
        reveal_strlit("Accept");
        reveal_strlit("application/sdp");
        reveal_strlit("Content-Length");
    }
    let cseq_n = cseq_name();
    proof {
        lemma_lower_idempotent(bytes_of("CSeq"@));
        crate::message::lemma_lookup_lower(req.headers.pairs(), cseq_n@, cseq_lc());
    }
    let cseq: Vec<u8> = match req.headers.get(&cseq_n) {
        None => {
            let empty: Vec<u8> = Vec::new();
            return base_response(400, lit("Bad Request"), &empty, ctx);
        },
        Some(c) => c,
    };
    let method = match parse_method(&req.method) {
        None => {
            return base_response(501, lit("Not Implemented"), &cseq, ctx);
        },
        Some(m) => m,
    };
    match method {
        Method::Options => respond_options(&cseq, ctx),
        Method::Describe => {
            let accept_n = accept_name();
            proof {
                lemma_lower_idempotent(bytes_of("Accept"@));
                crate::message::lemma_lookup_lower(req.headers.pairs(), accept_n@, accept_lc());
            }
            match req.headers.get(&accept_n) {
                Some(av) => {
                    let sdp_tag = lit("application/sdp");
                    if !contains_ci_exec(&av, &sdp_tag) {
                        return base_response(406, lit("Not Acceptable"), &cseq, ctx);
                    }
                },
                None => {},
            }
            match state.find_source_idx(&req.uri) {
                None => base_response(404, lit("Not Found"), &cseq, ctx),
                Some(i) => {
                    match &state.sources[i].life {
                        SourceLife::Streaming(info) => {
                            let sdp = info.sdp.clone();
                            proof {
                                assert(sdp@ =~= old(state).sources@[i as int].life->Streaming_0.sdp@);
                            }
                            respond_describe_ok(&cseq, ctx, sdp)
                        },
                        _ => base_response(404, lit("Not Found"), &cseq, ctx),
                    }
                },
            }
        },
        Method::Setup => {
            let transport_n = transport_name();
            proof {
                lemma_lower_idempotent(bytes_of("Transport"@));
                crate::message::lemma_lookup_lower(
                    req.headers.pairs(),
                    transport_n@,
                    transport_lc(),
                );
            }
            let tval = match req.headers.get(&transport_n) {
                None => {
                    return base_response(400, lit("Bad Request"), &cseq, ctx);
                },
                Some(v) => v,
            };
            let id = SessionId::generate();
            setup_session_with_id(state, ctx, sender, &cseq, &req.uri, &tval, id)
        },
        Method::Play | Method::Pause | Method::Teardown => {
            let session_n = session_name();
            proof {
                lemma_lower_idempotent(bytes_of("Session"@));
                crate::message::lemma_lookup_lower(req.headers.pairs(), session_n@, session_lc());
            }
            let sval = match req.headers.get(&session_n) {
                None => {
                    return base_response(454, lit("Session Not Found"), &cseq, ctx);
                },
                Some(v) => v,
            };
            let toks = crate::transport::split_on_exec(&sval, 59);
            proof {
                assert(crate::transport::split_on(sval@, 59).len() >= 1) by {
                    crate::octets::lemma_find_byte(sval@, 59, 0);
                }
                assert(crate::transport::views(toks@).len() == toks@.len());
                assert(crate::transport::views(toks@)[0] == toks@[0]@);
            }
            let tok = &toks[0];
            match state.find_session_idx(tok) {
                None => base_response(454, lit("Session Not Found"), &cseq, ctx),
                Some(i) => {
                    match method {
                        Method::Teardown => {
                            let ghost pre = *state;
                            match state.sessions[i].sub {
                                None => {},
                                Some((k, h)) => {
                                    let src = &mut state.sources[k];
                                    src.unsubscribe(h);
                                },
                            }
                            state.sessions.remove(i);
                            proof {
                                lemma_find_session_props(pre.sessions@, tok@, 0);
                                assert(tokens_unique(state.sessions@)) by {
                                    assert forall|a: int, b: int|
                                        0 <= a < b < state.sessions@.len() implies state.sessions@[
                                        a
                                    ].id.token@ != state.sessions@[b].id.token@ by {
                                        let ao: int = if a < i {
                                            a
                                        } else {
                                            a + 1
                                        };
                                        let bo: int = if b < i {
                                            b
                                        } else {
                                            b + 1
                                        };
                                        assert(state.sessions@[a] == pre.sessions@[ao]);
                                        assert(state.sessions@[b] == pre.sessions@[bo]);
                                    }
                                }
                                assert(subs_valid(state.sessions@, state.sources@)) by {
                                    assert forall|a: int| 0 <= a < state.sessions@.len() implies (
                                    match (#[trigger] state.sessions@[a]).sub {
                                        None => true,
                                        Some(kh) => kh.0 < state.sources@.len() && kh.1
                                            < state.sources@[kh.0 as int].subscribers@.len(),
                                    }) by {
                                        let ao: int = if a < i {
                                            a
                                        } else {
                                            a + 1
                                        };
                                        assert(state.sessions@[a] == pre.sessions@[ao]);
                                    }
                                }
                            }
                            base_response(200, lit("OK"), &cseq, ctx)
                        },
                        _ => {
                            let st = state.sessions[i].state;
                            match transition(st, method) {
                                None => base_response(
                                    455,
                                    lit("Method Not Valid in This State"),
                                    &cseq,
                                    ctx,
                                ),
                                Some(ns) => {
                                    let ghost pre = *state;
                                    let needs_sub: bool = match (&method, &state.sessions[i].sub) {
                                        (Method::Play, None) => true,
                                        _ => false,
                                    };
                                    if needs_sub {
                                        let path = crate::octets::subvec(
                                            &state.sessions[i].path,
                                            0,
                                            state.sessions[i].path.len(),
                                        );
                                        proof {
                                            assert(path@ =~= pre.sessions@[i as int].path@);
                                        }
                                        match state.find_source_idx(&path) {
                                            None => {},
                                            Some(k) => {
                                                let src = &mut state.sources[k];
                                                let h = src.subscribe();
                                                let e = &mut state.sessions[i];
                                                e.sub = Some((k, h));
                                            },
                                        }
                                    }
                                    let e = &mut state.sessions[i];
                                    e.state = ns;
                                    proof {
                                        assert(tokens_unique(state.sessions@)) by {
                                            assert forall|a: int, b: int|
                                                0 <= a < b < state.sessions@.len() implies state.sessions@[
                                                a
                                            ].id.token@ != state.sessions@[b].id.token@ by {
                                                assert(state.sessions@[a].id == pre.sessions@[
                                                    a
                                                ].id);
                                                assert(state.sessions@[b].id == pre.sessions@[
                                                    b
                                                ].id);
                                            }
                                        }
                                    }
                                    base_response(200, lit("OK"), &cseq, ctx)
                                },
                            }
                        },
                    }
                },
            }
        },
    }
}

/// The source registered for this path; a naming aid for `handle`'s
/// PLAY clause.
pub open spec fn find_session_source(srcs: Seq<Source>, path: Seq<u8>) -> Option<int> {
    find_source(srcs, path, 0)
}

} // verus!
