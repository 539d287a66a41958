//! The SETUP `Transport:` header: parsing client candidates, choosing a
//! supported one, and printing the server's answer.

use vstd::prelude::*;
use crate::octets::{
    find_byte,
    find_byte_exec,
    subvec,
    append_bytes,
    all_digits,
    dec_val,
    dec_rep,
    print_dec,
    parse_dec,
    lit,
    bytes_of,
    lower_seq,
    range_eq_ignore_case,
    is_all_digits,
};
use crate::codec::skip_sp;

verus! {

/// The lower transport a candidate asks for.
#[derive(Clone, Copy, Debug, PartialEq, Eq)]
pub enum Lower {
    Udp,
    Tcp,
}

#[derive(Clone, Copy, Debug, PartialEq, Eq)]
pub enum CastKind {
    Unicast,
    Multicast,
}

#[derive(Clone, Copy, Debug, PartialEq, Eq)]
pub enum TransportMode {
    Play,
    Record,
}

/// A port parameter: one port, or an RTP/RTCP pair.
#[derive(Clone, Copy, Debug, PartialEq, Eq)]
pub enum Port {
    Single(u16),
    Range(u16, u16),
}

/// An interleaved channel parameter: one channel, or a pair.
#[derive(Clone, Copy, Debug, PartialEq, Eq)]
pub enum Channel {
    Single(u8),
    Range(u8, u8),
}

/// A parsed transport descriptor. `lower` is `None` when the candidate
/// named a transport this server does not speak (it is kept so that the
/// caller can answer 461).
pub struct Transport {
    pub lower: Option<Lower>,
    pub cast: CastKind,
    pub mode: TransportMode,
    pub destination: Option<Vec<u8>>,
    pub client_port: Option<Port>,
    pub server_port: Option<Port>,
    pub interleaved: Option<Channel>,
}

/// The specification-level image of a `Transport`.
pub ghost struct TransportView {
    pub lower: Option<Lower>,
    pub cast: CastKind,
    pub mode: TransportMode,
    pub destination: Option<Seq<u8>>,
    pub client_port: Option<Port>,
    pub server_port: Option<Port>,
    pub interleaved: Option<Channel>,
}

impl Transport {
    pub open spec fn tv(&self) -> TransportView {
        TransportView {
            lower: self.lower,
            cast: self.cast,
            mode: self.mode,
            destination: match self.destination {
                None => None,
                Some(d) => Some(d@),
            },
            client_port: self.client_port,
            server_port: self.server_port,
            interleaved: self.interleaved,
        }
    }
}

/// A fresh descriptor before any parameter: unknown lower transport,
/// unicast, play.
pub open spec fn default_tv() -> TransportView {
    TransportView {
        lower: None,
        cast: CastKind::Unicast,
        mode: TransportMode::Play,
        destination: None,
        client_port: None,
        server_port: None,
        interleaved: None,
    }
}

/// Splits `s` on every occurrence of `b`; separators are consumed.
pub open spec fn split_on(s: Seq<u8>, b: u8) -> Seq<Seq<u8>>
    decreases s.len(),
{
    match find_byte(s, b, 0) {
        None => seq![s],
        Some(i) => {
            if 0 <= i < s.len() {
                seq![s.subrange(0, i)] + split_on(s.subrange(i + 1, s.len() as int), b)
            } else {
                seq![s]
            }
        },
    }
}

/// The views of a vector of byte vectors.
pub open spec fn views(r: Seq<Vec<u8>>) -> Seq<Seq<u8>> {
    r.map_values(|v: Vec<u8>| v@)
}

/// Executable split on one byte.
pub fn split_on_exec(s: &Vec<u8>, b: u8) -> (r: Vec<Vec<u8>>)
    ensures
        views(r@) == split_on(s@, b),
    decreases s@.len(),
{
    match find_byte_exec(s, b, 0) {
        None => {
            let mut out: Vec<Vec<u8>> = Vec::new();
            out.push(s.clone());
            proof {
                assert(views(out@) =~= split_on(s@, b));
            }
            out
        },
        Some(i) => {
            let sl = s.len();
            let head = subvec(s, 0, i);
            let tail = subvec(s, i + 1, sl);
            let mut rest = split_on_exec(&tail, b);
            let mut out: Vec<Vec<u8>> = Vec::new();
            out.push(head);
            let ghost rest_views = views(rest@);
            out.append(&mut rest);
            proof {
                assert(views(out@) =~= seq![s@.subrange(0, i as int)] + rest_views);
            }
            out
        },
    }
}

/// `s` with leading spaces removed.
pub open spec fn strip_lead(s: Seq<u8>) -> Seq<u8> {
    s.subrange(skip_sp(s, 0), s.len() as int)
}

/// Executable leading-space strip.
pub fn strip_lead_exec(s: &Vec<u8>) -> (r: Vec<u8>)
    ensures
        r@ == strip_lead(s@),
{
    proof {
        crate::codec::lemma_skip_sp(s@, 0);
    }
    let mut i: usize = 0;
    while i < s.len() && s[i] == 32
        invariant
            i <= s@.len(),
            skip_sp(s@, 0) == skip_sp(s@, i as int),
        decreases s@.len() - i,
    {
        i = i + 1;
    }
    subvec(s, i, s.len())
}

/// The lower transport named by a candidate's first token.
pub open spec fn parse_lower(tok: Seq<u8>) -> Option<Lower> {
    if lower_seq(tok) == lower_seq(bytes_of("RTP/AVP"@)) || lower_seq(tok) == lower_seq(
        bytes_of("RTP/AVP/UDP"@),
    ) {
        Some(Lower::Udp)
    } else if lower_seq(tok) == lower_seq(bytes_of("RTP/AVP/TCP"@)) {
        Some(Lower::Tcp)
    } else {
        None
    }
}

/// A port number or `a-b` range, each side in decimal.
pub open spec fn parse_port_val(s: Seq<u8>) -> Option<Port> {
    match find_byte(s, 45, 0) {
        None => {
            if s.len() > 0 && all_digits(s) && dec_val(s) <= u16::MAX {
                Some(Port::Single(dec_val(s) as u16))
            } else {
                None
            }
        },
        Some(i) => {
            let a = s.subrange(0, i);
            let b = s.subrange(i + 1, s.len() as int);
            if a.len() > 0 && all_digits(a) && dec_val(a) <= u16::MAX && b.len() > 0 && all_digits(
                b,
            ) && dec_val(b) <= u16::MAX {
                Some(Port::Range(dec_val(a) as u16, dec_val(b) as u16))
            } else {
                None
            }
        },
    }
}

/// A channel number or `a-b` range, each side in decimal.
pub open spec fn parse_chan_val(s: Seq<u8>) -> Option<Channel> {
    match find_byte(s, 45, 0) {
        None => {
            if s.len() > 0 && all_digits(s) && dec_val(s) <= u8::MAX {
                Some(Channel::Single(dec_val(s) as u8))
            } else {
                None
            }
        },
        Some(i) => {
            let a = s.subrange(0, i);
            let b = s.subrange(i + 1, s.len() as int);
            if a.len() > 0 && all_digits(a) && dec_val(a) <= u8::MAX && b.len() > 0 && all_digits(b)
                && dec_val(b) <= u8::MAX {
                Some(Channel::Range(dec_val(a) as u8, dec_val(b) as u8))
            } else {
                None
            }
        },
    }
}

/// Whether `s` starts with `p`, comparing without ASCII case.
pub open spec fn has_prefix(s: Seq<u8>, p: Seq<u8>) -> bool {
    s.len() >= p.len() && lower_seq(s.subrange(0, p.len() as int)) == lower_seq(p)
}

/// One parameter token applied to a descriptor. Unknown or malformed
/// parameters are ignored, as RFC 2326 asks of extensions.
pub open spec fn apply_param(t: TransportView, tok: Seq<u8>) -> TransportView {
    if lower_seq(tok) == lower_seq(bytes_of("unicast"@)) {
        TransportView { cast: CastKind::Unicast, ..t }
    } else if lower_seq(tok) == lower_seq(bytes_of("multicast"@)) {
        TransportView { cast: CastKind::Multicast, ..t }
    } else if lower_seq(tok) == lower_seq(bytes_of("mode=play"@)) || lower_seq(tok) == lower_seq(
        bytes_of("mode=\"PLAY\""@),
    ) {
        TransportView { mode: TransportMode::Play, ..t }
    } else if lower_seq(tok) == lower_seq(bytes_of("mode=record"@)) || lower_seq(tok) == lower_seq(
        bytes_of("mode=\"RECORD\""@),
    ) {
        TransportView { mode: TransportMode::Record, ..t }
    } else if has_prefix(tok, bytes_of("client_port="@)) {
        match parse_port_val(tok.subrange(12, tok.len() as int)) {
            None => t,
            Some(p) => TransportView { client_port: Some(p), ..t },
        }
    } else if has_prefix(tok, bytes_of("server_port="@)) {
        match parse_port_val(tok.subrange(12, tok.len() as int)) {
            None => t,
            Some(p) => TransportView { server_port: Some(p), ..t },
        }
    } else if has_prefix(tok, bytes_of("interleaved="@)) {
        match parse_chan_val(tok.subrange(12, tok.len() as int)) {
            None => t,
            Some(c) => TransportView { interleaved: Some(c), ..t },
        }
    } else if has_prefix(tok, bytes_of("destination="@)) {
        TransportView { destination: Some(tok.subrange(12, tok.len() as int)), ..t }
    } else {
        t
    }
}

/// Folds the parameter tokens after the first over the descriptor.
pub open spec fn fold_params(t: TransportView, toks: Seq<Seq<u8>>, i: int) -> TransportView
    decreases toks.len() - i,
    when i >= 0
{
    if i >= toks.len() {
        t
    } else {
        fold_params(apply_param(t, strip_lead(toks[i])), toks, i + 1)
    }
}

/// The descriptor spelled by one candidate string.
pub open spec fn parse_transport_spec(s: Seq<u8>) -> TransportView {
    let toks = split_on(s, 59);
    let t0 = TransportView { lower: parse_lower(strip_lead(toks[0])), ..default_tv() };
    fold_params(t0, toks, 1)
}


/// Executable first-token recognition of the lower transport.
fn parse_lower_exec(tok: &Vec<u8>) -> (r: Option<Lower>)
    ensures
        r == parse_lower(tok@),
{
    proof {
        reveal_strlit("RTP/AVP");
        reveal_strlit("RTP/AVP/UDP");
        reveal_strlit("RTP/AVP/TCP");
    }
    let avp = lit("RTP/AVP");
    let avp_udp = lit("RTP/AVP/UDP");
    let avp_tcp = lit("RTP/AVP/TCP");
    if crate::octets::eq_ignore_case(tok, &avp) || crate::octets::eq_ignore_case(tok, &avp_udp) {
        Some(Lower::Udp)
    } else if crate::octets::eq_ignore_case(tok, &avp_tcp) {
        Some(Lower::Tcp)
    } else {
        None
    }
}

/// Executable port-value parse.
fn parse_port_val_exec(v: &Vec<u8>) -> (r: Option<Port>)
    ensures
        r == parse_port_val(v@),
{
    proof {
        assert(v@.subrange(0, v@.len() as int) =~= v@);
    }
    match find_byte_exec(v, 45, 0) {
        None => {
            if v.len() == 0 || !is_all_digits(v) {
                return None;
            }
            match parse_dec(v, 0, v.len()) {
                None => None,
                Some(n) => {
                    if n <= 65535 {
                        Some(Port::Single(n as u16))
                    } else {
                        None
                    }
                },
            }
        },
        Some(i) => {
            let vl = v.len();
            let a = subvec(v, 0, i);
            let b = subvec(v, i + 1, vl);
            if a.len() == 0 || !is_all_digits(&a) || b.len() == 0 || !is_all_digits(&b) {
                return None;
            }
            proof {
                assert(a@.subrange(0, a@.len() as int) =~= a@);
                assert(b@.subrange(0, b@.len() as int) =~= b@);
            }
            match (parse_dec(&a, 0, a.len()), parse_dec(&b, 0, b.len())) {
                (Some(x), Some(y)) => {
                    if x <= 65535 && y <= 65535 {
                        Some(Port::Range(x as u16, y as u16))
                    } else {
                        None
                    }
                },
                _ => None,
            }
        },
    }
}

/// Executable channel-value parse.
fn parse_chan_val_exec(v: &Vec<u8>) -> (r: Option<Channel>)
    ensures
        r == parse_chan_val(v@),
{
    proof {
        assert(v@.subrange(0, v@.len() as int) =~= v@);
    }
    match find_byte_exec(v, 45, 0) {
        None => {
            if v.len() == 0 || !is_all_digits(v) {
                return None;
            }
            match parse_dec(v, 0, v.len()) {
                None => None,
                Some(n) => {
                    if n <= 255 {
                        Some(Channel::Single(n as u8))
                    } else {
                        None
                    }
                },
            }
        },
        Some(i) => {
            let vl = v.len();
            let a = subvec(v, 0, i);
            let b = subvec(v, i + 1, vl);
            if a.len() == 0 || !is_all_digits(&a) || b.len() == 0 || !is_all_digits(&b) {
                return None;
            }
            proof {
                assert(a@.subrange(0, a@.len() as int) =~= a@);
                assert(b@.subrange(0, b@.len() as int) =~= b@);
            }
            match (parse_dec(&a, 0, a.len()), parse_dec(&b, 0, b.len())) {
                (Some(x), Some(y)) => {
                    if x <= 255 && y <= 255 {
                        Some(Channel::Range(x as u8, y as u8))
                    } else {
                        None
                    }
                },
                _ => None,
            }
        },
    }
}

/// Applies one (already stripped) parameter token to the descriptor.
fn apply_param_exec(t: &mut Transport, tok: &Vec<u8>)
    ensures
        final(t).tv() == apply_param(old(t).tv(), tok@),
{
    proof {
        reveal_strlit("unicast");
        reveal_strlit("multicast");
        reveal_strlit("mode=play");
        reveal_strlit("mode=\"PLAY\"");
        reveal_strlit("mode=record");
        reveal_strlit("mode=\"RECORD\"");
        reveal_strlit("client_port=");
        reveal_strlit("server_port=");
        reveal_strlit("interleaved=");
        reveal_strlit("destination=");
    }
    let unicast = lit("unicast");
    let multicast = lit("multicast");
    let mode_play = lit("mode=play");
    let mode_play_q = lit("mode=\"PLAY\"");
    let mode_record = lit("mode=record");
    let mode_record_q = lit("mode=\"RECORD\"");
    if crate::octets::eq_ignore_case(tok, &unicast) {
        t.cast = CastKind::Unicast;
        return ;
    }
    if crate::octets::eq_ignore_case(tok, &multicast) {
        t.cast = CastKind::Multicast;
        return ;
    }
    if crate::octets::eq_ignore_case(tok, &mode_play) || crate::octets::eq_ignore_case(
        tok,
        &mode_play_q,
    ) {
        t.mode = TransportMode::Play;
        return ;
    }
    if crate::octets::eq_ignore_case(tok, &mode_record) || crate::octets::eq_ignore_case(
        tok,
        &mode_record_q,
    ) {
        t.mode = TransportMode::Record;
        return ;
    }
    let client_port_p = lit("client_port=");
    let server_port_p = lit("server_port=");
    let interleaved_p = lit("interleaved=");
    let destination_p = lit("destination=");
    let tl = tok.len();
    if tl >= 12 && range_eq_ignore_case(tok, 0, 12, &client_port_p) {
        let rest = subvec(tok, 12, tl);
        match parse_port_val_exec(&rest) {
            None => {},
            Some(p) => {
                t.client_port = Some(p);
            },
        }
        return ;
    }
    if tl >= 12 && range_eq_ignore_case(tok, 0, 12, &server_port_p) {
        let rest = subvec(tok, 12, tl);
        match parse_port_val_exec(&rest) {
            None => {},
            Some(p) => {
                t.server_port = Some(p);
            },
        }
        return ;
    }
    if tl >= 12 && range_eq_ignore_case(tok, 0, 12, &interleaved_p) {
        let rest = subvec(tok, 12, tl);
        match parse_chan_val_exec(&rest) {
            None => {},
            Some(c) => {
                t.interleaved = Some(c);
            },
        }
        return ;
    }
    if tl >= 12 && range_eq_ignore_case(tok, 0, 12, &destination_p) {
        let rest = subvec(tok, 12, tl);
        t.destination = Some(rest);
        return ;
    }
}

/// Parses one candidate string into a transport descriptor.
pub fn parse_transport(s: &Vec<u8>) -> (r: Transport)
    ensures
        r.tv() == parse_transport_spec(s@),
{
    let toks = split_on_exec(s, 59);
    proof {
        assert(split_on(s@, 59).len() >= 1) by {
            crate::octets::lemma_find_byte(s@, 59, 0);
        }
        assert(views(toks@)[0] == toks@[0]@);
    }
    let first = strip_lead_exec(&toks[0]);
    let lower = parse_lower_exec(&first);
    let mut t = Transport {
        lower,
        cast: CastKind::Unicast,
        mode: TransportMode::Play,
        destination: None,
        client_port: None,
        server_port: None,
        interleaved: None,
    };
    let ghost t0 = t.tv();
    let mut i: usize = 1;
    while i < toks.len()
        invariant
            1 <= i <= toks@.len(),
            fold_params(t0, views(toks@), 1) == fold_params(t.tv(), views(toks@), i as int),
        decreases toks@.len() - i,
    {
        proof {
            assert(views(toks@)[i as int] == toks@[i as int]@);
        }
        let stripped = strip_lead_exec(&toks[i]);
        apply_param_exec(&mut t, &stripped);
        i = i + 1;
    }
    proof {
        assert(fold_params(t.tv(), views(toks@), i as int) == t.tv());
    }
    t
}

/// Parses the comma-separated candidate list of a `Transport:` header.
pub open spec fn parse_candidates_spec(s: Seq<u8>) -> Seq<TransportView> {
    split_on(s, 44).map_values(|c: Seq<u8>| parse_transport_spec(c))
}

/// The views of parsed candidates.
pub open spec fn tvs(r: Seq<Transport>) -> Seq<TransportView> {
    r.map_values(|t: Transport| t.tv())
}

/// Executable candidate-list parse.
pub fn parse_candidates(s: &Vec<u8>) -> (r: Vec<Transport>)
    ensures
        tvs(r@) == parse_candidates_spec(s@),
{
    let parts = split_on_exec(s, 44);
    let mut out: Vec<Transport> = Vec::new();
    let mut i: usize = 0;
    proof {
        assert(tvs(out@) =~= parse_candidates_spec(s@).take(0));
    }
    while i < parts.len()
        invariant
            i <= parts@.len(),
            views(parts@) == split_on(s@, 44),
            tvs(out@) == parse_candidates_spec(s@).take(i as int),
        decreases parts@.len() - i,
    {
        proof {
            assert(views(parts@)[i as int] == parts@[i as int]@);
        }
        let t = parse_transport(&parts[i]);
        let ghost gt = t.tv();
        let ghost prevv = out@;
        out.push(t);
        proof {
            assert(parse_candidates_spec(s@)[i as int] == parse_transport_spec(
                split_on(s@, 44)[i as int],
            ));
            assert(split_on(s@, 44)[i as int] == views(parts@)[i as int]);
            assert(gt == parse_candidates_spec(s@)[i as int]);
            assert(out@ == prevv.push(t));
            assert(parse_candidates_spec(s@).len() == split_on(s@, 44).len());
            assert(views(parts@).len() == parts@.len());
            assert(tvs(prevv).len() == prevv.len());
            assert(prevv.len() == i);
            assert(out@.len() == i + 1);
            assert forall|k: int| 0 <= k < i + 1 implies tvs(out@)[k] == parse_candidates_spec(
                s@,
            ).take(i + 1)[k] by {
                assert(tvs(out@) == Seq::new(out@.len(), |n: int| out@[n].tv()));
                assert(tvs(out@)[k] == out@[k].tv());
                if k < i {
                    assert(out@[k] == prevv[k]);
                    assert(tvs(prevv)[k] == prevv[k].tv());
                    assert(tvs(prevv)[k] == parse_candidates_spec(s@).take(i as int)[k]);
                } else {
                    assert(out@[k].tv() == gt);
                }
            }
            assert(tvs(out@) =~= parse_candidates_spec(s@).take(i + 1));
        }
        i = i + 1;
    }
    proof {
        assert(parse_candidates_spec(s@).take(i as int) =~= parse_candidates_spec(s@));
    }
    out
}

/// Whether this server can serve a candidate: a known lower transport in
/// play mode.
pub open spec fn supported(tv: TransportView) -> bool {
    tv.lower is Some && tv.mode is Play
}

/// Executable support test.
pub fn is_supported(t: &Transport) -> (r: bool)
    ensures
        r == supported(t.tv()),
{
    match (&t.lower, &t.mode) {
        (Some(l), TransportMode::Play) => true,
        _ => false,
    }
}

/// The index of the first supported candidate.
pub open spec fn first_supported(cands: Seq<TransportView>, i: int) -> Option<int>
    decreases cands.len() - i,
    when i >= 0
{
    if i >= cands.len() {
        None
    } else if supported(cands[i]) {
        Some(i)
    } else {
        first_supported(cands, i + 1)
    }
}

/// Finds the first supported candidate, as SETUP resolution asks.
pub fn pick_supported(cands: &Vec<Transport>) -> (r: Option<usize>)
    ensures
        match r {
            Some(i) => first_supported(tvs(cands@), 0) == Some(i as int) && i < cands@.len()
                && supported(cands@[i as int].tv()),
            None => first_supported(tvs(cands@), 0) is None,
        },
{
    let mut i: usize = 0;
    while i < cands.len()
        invariant
            i <= cands@.len(),
            first_supported(tvs(cands@), 0) == first_supported(tvs(cands@), i as int),
        decreases cands@.len() - i,
    {
        proof {
            assert(tvs(cands@)[i as int] == cands@[i as int].tv());
        }
        if is_supported(&cands[i]) {
            return Some(i);
        }
        i = i + 1;
    }
    None
}

/// The printed form of a port parameter.
pub open spec fn print_port(p: Port) -> Seq<u8> {
    match p {
        Port::Single(a) => dec_rep(a as nat),
        Port::Range(a, b) => dec_rep(a as nat) + seq![45u8] + dec_rep(b as nat),
    }
}

/// The printed form of a channel parameter.
pub open spec fn print_chan(c: Channel) -> Seq<u8> {
    match c {
        Channel::Single(a) => dec_rep(a as nat),
        Channel::Range(a, b) => dec_rep(a as nat) + seq![45u8] + dec_rep(b as nat),
    }
}

/// The printed descriptor the server answers with: the lower transport,
/// the cast, and whichever of client_port, server_port and interleaved
/// are set, in that order.
pub open spec fn print_transport_spec(tv: TransportView) -> Seq<u8> {
    (match tv.lower {
        Some(Lower::Tcp) => bytes_of("RTP/AVP/TCP"@),
        _ => bytes_of("RTP/AVP"@),
    }) + (match tv.cast {
        CastKind::Unicast => bytes_of(";unicast"@),
        CastKind::Multicast => bytes_of(";multicast"@),
    }) + (match tv.client_port {
        None => Seq::<u8>::empty(),
        Some(p) => bytes_of(";client_port="@) + print_port(p),
    }) + (match tv.server_port {
        None => Seq::<u8>::empty(),
        Some(p) => bytes_of(";server_port="@) + print_port(p),
    }) + (match tv.interleaved {
        None => Seq::<u8>::empty(),
        Some(c) => bytes_of(";interleaved="@) + print_chan(c),
    })
}

/// Prints a port parameter.
fn print_port_exec(p: &Port) -> (r: Vec<u8>)
    ensures
        r@ == print_port(*p),
{
    match p {
        Port::Single(a) => print_dec(*a as usize),
        Port::Range(a, b) => {
            let mut out = print_dec(*a as usize);
            out.push(45);
            let second = print_dec(*b as usize);
            append_bytes(&mut out, &second);
            proof {
                assert(out@ =~= print_port(*p));
            }
            out
        },
    }
}

/// Prints a channel parameter.
fn print_chan_exec(c: &Channel) -> (r: Vec<u8>)
    ensures
        r@ == print_chan(*c),
{
    match c {
        Channel::Single(a) => print_dec(*a as usize),
        Channel::Range(a, b) => {
            let mut out = print_dec(*a as usize);
            out.push(45);
            let second = print_dec(*b as usize);
            append_bytes(&mut out, &second);
            proof {
                assert(out@ =~= print_chan(*c));
            }
            out
        },
    }
}

/// Prints the descriptor for a response's `Transport:` header.
#[verifier::rlimit(50)]
pub fn print_transport(t: &Transport) -> (r: Vec<u8>)
    ensures
        r@ == print_transport_spec(t.tv()),
{
    proof {
        reveal_strlit("RTP/AVP/TCP");
        reveal_strlit("RTP/AVP");
        reveal_strlit(";unicast");
        reveal_strlit(";multicast");
        reveal_strlit(";client_port=");
        reveal_strlit(";server_port=");
        reveal_strlit(";interleaved=");
    }
    let mut out: Vec<u8> = match &t.lower {
        Some(Lower::Tcp) => lit("RTP/AVP/TCP"),
        _ => lit("RTP/AVP"),
    };
    match &t.cast {
        CastKind::Unicast => {
            let p = lit(";unicast");
            append_bytes(&mut out, &p);
        },
        CastKind::Multicast => {
            let p = lit(";multicast");
            append_bytes(&mut out, &p);
        },
    }
    match &t.client_port {
        None => {},
        Some(p) => {
            let tag = lit(";client_port=");
            append_bytes(&mut out, &tag);
            let pp = print_port_exec(p);
            append_bytes(&mut out, &pp);
        },
    }
    match &t.server_port {
        None => {},
        Some(p) => {
            let tag = lit(";server_port=");
            append_bytes(&mut out, &tag);
            let pp = print_port_exec(p);
            append_bytes(&mut out, &pp);
        },
    }
    match &t.interleaved {
        None => {},
        Some(c) => {
            let tag = lit(";interleaved=");
            append_bytes(&mut out, &tag);
            let cc = print_chan_exec(c);
            append_bytes(&mut out, &cc);
        },
    }
    proof {
        assert(out@ =~= print_transport_spec(t.tv()));
    }
    out
}

} // verus!
