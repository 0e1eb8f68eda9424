//! DNS sinkhole decisions: read the question of a query, and synthesize the
//! answer for a blocked name (a loopback address when the block page is up,
//! NXDOMAIN otherwise). Queries for other names are forwarded verbatim by
//! the daemon.
use vstd::prelude::*;

use crate::state::Snapshot;
use crate::domain::blocked_by;
use crate::text::{join, lower, lower_chars, string_of, utf8_lossy};

verus! {

/// DNS record type `A`.
pub const QTYPE_A: u16 = 1;

/// DNS record type `AAAA`.
pub const QTYPE_AAAA: u16 = 28;

/// TTL, in seconds, of synthesized block answers.
pub const BLOCK_TTL_SECS: u32 = 30;

/// A big-endian 16-bit number.
pub open spec fn be16(hi: u8, lo: u8) -> int {
    hi * 256 + lo
}

/// The labels of the name starting at `pos`, and the offset just past its
/// terminating zero byte; `None` for a truncated name or a compression
/// pointer.
pub open spec fn label_walk(msg: Seq<u8>, pos: int) -> Option<(Seq<Seq<u8>>, int)>
    decreases msg.len() - pos,
{
    if pos < 0 || pos >= msg.len() {
        None
    } else if msg[pos] == 0 {
        Some((Seq::empty(), pos + 1))
    } else if msg[pos] & 0xC0 != 0 {
        None
    } else if pos + 1 + msg[pos] > msg.len() {
        None
    } else {
        match label_walk(msg, pos + 1 + msg[pos]) {
            Some((rest, end)) => Some((seq![msg.subrange(pos + 1, pos + 1 + msg[pos])] + rest, end)),
            None => None,
        }
    }
}

/// The first question of a DNS message: its lower-cased name (labels decoded
/// and joined by dots), the offset just past the question section, and its
/// QTYPE. `None` for a message shorter than a header, without questions, or
/// with a malformed question.
pub open spec fn question(msg: Seq<u8>) -> Option<(Seq<char>, int, int)> {
    if msg.len() < 12 {
        None
    } else if be16(msg[4], msg[5]) < 1 {
        None
    } else {
        match label_walk(msg, 12) {
            None => None,
            Some((labels, p)) => if p + 4 > msg.len() {
                None
            } else {
                Some(
                    (
                        lower(join(labels.map_values(|l: Seq<u8>| utf8_lossy(l)), "."@)),
                        p + 4,
                        be16(msg[p], msg[p + 1]),
                    ),
                )
            },
        }
    }
}

/// Byte 2 of a response: QR set, Opcode and RD kept, AA and TC cleared.
pub open spec fn response_flags(b: u8) -> u8 {
    0x80u8 | (b & 0x78u8) | (b & 0x01u8)
}

/// The NXDOMAIN response to `req`: its header and question, with QR=1,
/// RA=1, RCODE=3 and the answer/authority/additional counts zeroed.
pub open spec fn nxdomain(req: Seq<u8>, qend: int) -> Seq<u8> {
    Seq::new(
        qend as nat,
        |i: int|
            if i == 2 {
                response_flags(req[2])
            } else if i == 3 {
                0x83u8
            } else if 6 <= i < 12 {
                0u8
            } else {
                req[i]
            },
    )
}

/// The address record data of a block answer: `::1` for `AAAA`,
/// `127.0.0.1` otherwise, each preceded by its length.
pub open spec fn loopback_rdata(qtype: u16) -> Seq<u8> {
    if qtype == QTYPE_AAAA {
        seq![0u8, 16u8] + Seq::new(15, |i: int| 0u8) + seq![1u8]
    } else {
        seq![0u8, 4u8, 127u8, 0u8, 0u8, 1u8]
    }
}

/// The answer pointing a blocked name at loopback: the request's header and
/// question with QR=1, RA=1, RCODE=0, ANCOUNT=1, NSCOUNT=ARCOUNT=0, then one
/// record named by a pointer to the question, of type `qtype`, class IN,
/// TTL [`BLOCK_TTL_SECS`].
pub open spec fn address_answer(req: Seq<u8>, qend: int, qtype: u16) -> Seq<u8> {
    Seq::new(
        qend as nat,
        |i: int|
            if i == 2 {
                response_flags(req[2])
            } else if i == 3 {
                0x80u8
            } else if i == 7 {
                1u8
            } else if 6 <= i < 12 {
                0u8
            } else {
                req[i]
            },
    ) + seq![0xC0u8, 0x0Cu8, (qtype / 256) as u8, (qtype % 256) as u8, 0u8, 1u8, 0u8, 0u8, 0u8, 30u8]
        + loopback_rdata(qtype)
}

/// What the sinkhole does with a request: `Some` answer of its own for a
/// blocked name, `None` to forward (also for an unparseable request).
pub open spec fn decision(req: Seq<u8>, domains: Set<Seq<char>>, block_page: bool) -> Option<
    Seq<u8>,
> {
    match question(req) {
        None => None,
        Some((name, qend, qtype)) => if !blocked_by(domains, name) {
            None
        } else if block_page && (qtype == QTYPE_A || qtype == QTYPE_AAAA) {
            Some(address_answer(req, qend, qtype as u16))
        } else {
            Some(nxdomain(req, qend))
        },
    }
}

/// A blocked name is answered by the sinkhole itself. With the block page
/// up, an `A` or `AAAA` query gets a NoError reply with one answer, a
/// record of the query's own type pointing at loopback: `127.0.0.1` for
/// `A`, `::1` for `AAAA`. Otherwise it gets NXDOMAIN with no answers.
pub proof fn lemma_blocked_names_are_answered(
    req: Seq<u8>,
    domains: Set<Seq<char>>,
    block_page: bool,
    name: Seq<char>,
    qend: int,
    qtype: int,
)
    requires
        question(req) == Some((name, qend, qtype)),
        blocked_by(domains, name),
    ensures
        decision(req, domains, block_page) is Some,
        ({
            let r = decision(req, domains, block_page)->Some_0;
            &&& r.subrange(0, 2) == req.subrange(0, 2)
            &&& r[2] & 0x80 == 0x80
            &&& be16(r[4], r[5]) == be16(req[4], req[5])
            &&& if block_page && (qtype == 1 || qtype == 28) {
                &&& r == address_answer(req, qend, qtype as u16)
                &&& r[3] & 0x0f == 0
                &&& be16(r[6], r[7]) == 1
                &&& be16(r[qend + 2], r[qend + 3]) == qtype
                &&& qtype == 1 ==> r.len() == qend + 16 && r.subrange(qend + 12, qend + 16)
                    == seq![127u8, 0u8, 0u8, 1u8]
                &&& qtype == 28 ==> r.len() == qend + 28 && r.subrange(qend + 10, qend + 12)
                    == seq![0u8, 16u8] && (forall|i: int|
                    qend + 12 <= i < qend + 27 ==> r[i] == 0u8) && r[qend + 27] == 1u8
            } else {
                &&& r == nxdomain(req, qend)
                &&& r[3] & 0x0f == 3
                &&& be16(r[6], r[7]) == 0
                &&& r.len() == qend
            }
        }),
{
    lemma_label_walk_end(req, 12);
    assert(12 <= qend <= req.len());
    let r = decision(req, domains, block_page)->Some_0;
    assert(r[2] == response_flags(req[2]));
    let b: u8 = req[2];
    assert((0x80u8 | (b & 0x78u8) | (b & 0x01u8)) & 0x80 == 0x80) by (bit_vector);
    assert(r[2] & 0x80 == 0x80);
    if block_page && (qtype == 1 || qtype == 28) {
        assert(0x80u8 & 0x0f == 0) by (bit_vector);
        assert(r.subrange(0, 2) =~= req.subrange(0, 2));
        if qtype == 1 {
            assert(r.subrange(qend + 12, qend + 16) =~= seq![127u8, 0u8, 0u8, 1u8]);
        }
    } else {
        assert(0x83u8 & 0x0f == 3) by (bit_vector);
        assert(r.subrange(0, 2) =~= req.subrange(0, 2));
    }
}

proof fn lemma_label_walk_end(msg: Seq<u8>, pos: int)
    ensures
        label_walk(msg, pos) matches Some((_, end)) ==> pos < end <= msg.len(),
    decreases msg.len() - pos,
{
    if 0 <= pos < msg.len() && msg[pos] != 0 && msg[pos] & 0xC0 == 0 && pos + 1 + msg[pos]
        <= msg.len() {
        lemma_label_walk_end(msg, pos + 1 + msg[pos]);
    }
}

/// The bytes `msg[from..to]`.
fn bytes_between(msg: &[u8], from: usize, to: usize) -> (r: Vec<u8>)
    requires
        from <= to <= msg.len(),
    ensures
        r@ == msg@.subrange(from as int, to as int),
{
    let mut r: Vec<u8> = Vec::new();
    let mut i = from;
    while i < to
        invariant
            from <= i <= to <= msg.len(),
            r@ == msg@.subrange(from as int, i as int),
        decreases to - i,
    {
        r.push(msg[i]);
        proof {
            assert(r@ =~= msg@.subrange(from as int, i + 1));
        }
        i += 1;
    }
    r
}

/// The decoded labels of the name starting at `pos`, and the offset just
/// past it.
fn walk_labels(msg: &[u8], pos: usize) -> (r: Option<(Vec<Vec<char>>, usize)>)
    requires
        pos <= msg.len(),
    ensures
        match r {
            Some((ls, end)) => label_walk(msg@, pos as int) matches Some((labels, e)) && e
                == end && ls@.map_values(|v: Vec<char>| v@) == labels.map_values(
                |l: Seq<u8>| utf8_lossy(l),
            ),
            None => label_walk(msg@, pos as int) is None,
        },
    decreases msg.len() - pos,
{
    if pos >= msg.len() {
        return None;
    }
    let len = msg[pos];
    if len == 0 {
        let empty: Vec<Vec<char>> = Vec::new();
        proof {
            assert(empty@.map_values(|v: Vec<char>| v@) =~= Seq::<Seq<u8>>::empty().map_values(
                |l: Seq<u8>| utf8_lossy(l),
            ));
        }
        return Some((empty, pos + 1));
    }
    if len & 0xC0 != 0 {
        return None;
    }
    let n = len as usize;
    if n > msg.len() - pos - 1 {
        return None;
    }
    let raw = bytes_between(msg, pos + 1, pos + 1 + n);
    let decoded = crate::text::lossy_text(raw.as_slice());
    let label = crate::text::chars_of(decoded.as_str());
    let ghost label_view = label@;
    assert(label_view == utf8_lossy(msg@.subrange(pos + 1, pos + 1 + n)));
    match walk_labels(msg, pos + 1 + n) {
        None => None,
        Some((rest, end)) => {
            let ghost rest_view = rest@.map_values(|v: Vec<char>| v@);
            let mut all = rest;
            all.insert(0, label);
            proof {
                let (labels, e) = label_walk(msg@, pos + 1 + n)->Some_0;
                let first = msg@.subrange(pos + 1, pos + 1 + n);
                let f = |l: Seq<u8>| utf8_lossy(l);
                let lhs = all@.map_values(|v: Vec<char>| v@);
                let rhs = (seq![first] + labels).map_values(f);
                assert(label_walk(msg@, pos + 1 + n) is Some);
                assert(rest_view == labels.map_values(f));
                assert(rest_view.len() == labels.len());
                assert(all@.len() == rest_view.len() + 1);
                assert(lhs.len() == rhs.len());
                assert forall|k: int| 0 <= k < lhs.len() implies lhs[k] == rhs[k] by {
                    if k == 0 {
                        assert(all@[0]@ == label_view);
                        assert(rhs[0] == f(first));
                    } else {
                        assert(all@[k] == rest@[k - 1]);
                        assert(rest_view[k - 1] == rest@[k - 1]@);
                        assert((seq![first] + labels)[k] == labels[k - 1]);
                        assert(rhs[k] == f(labels[k - 1]));
                        assert(rest_view[k - 1] == f(labels[k - 1]));
                    }
                }
                assert(label_walk(msg@, pos as int) == Some((seq![first] + labels, e)));
                assert(all@.map_values(|v: Vec<char>| v@) =~= (seq![first] + labels).map_values(
                    |l: Seq<u8>| utf8_lossy(l),
                ));
            }
            Some((all, end))
        },
    }
}

/// `parts` joined with `sep` in between.
fn join_chars(parts: &Vec<Vec<char>>, sep: char) -> (r: Vec<char>)
    ensures
        r@ == join(parts@.map_values(|v: Vec<char>| v@), seq![sep]),
{
    let ghost ps = parts@.map_values(|v: Vec<char>| v@);
    if parts.len() == 0 {
        return Vec::new();
    }
    let mut acc = crate::text::slice_chars(&parts[0], 0, parts[0].len());
    proof {
        assert(ps[0] == parts@[0]@);
        assert(ps.take(1)[0] == ps[0]);
        assert(join(ps.take(1), seq![sep]) == ps[0]);
        assert(acc@ =~= join(ps.take(1), seq![sep]));
    }
    let mut i: usize = 1;
    while i < parts.len()
        invariant
            1 <= i <= parts.len(),
            ps == parts@.map_values(|v: Vec<char>| v@),
            acc@ == join(ps.take(i as int), seq![sep]),
        decreases parts.len() - i,
    {
        let mut dot: Vec<char> = Vec::new();
        dot.push(sep);
        let with_sep = crate::text::concat(&acc, &dot);
        acc = crate::text::concat(&with_sep, &parts[i]);
        proof {
            let t = ps.take(i + 1);
            assert(t.drop_last() =~= ps.take(i as int));
            assert(t.last() == parts@[i as int]@);
            assert(dot@ =~= seq![sep]);
        }
        i += 1;
    }
    proof {
        assert(ps.take(parts.len() as int) =~= ps);
    }
    acc
}

/// Parses the first question of `msg`: its lower-cased name, the byte offset
/// just past the question section, and the QTYPE. The question name is never
/// compressed, so this is a straight label walk.
pub fn parse_question(msg: &[u8]) -> (r: Option<(String, usize, u16)>)
    ensures
        match r {
            Some((name, qend, qtype)) => question(msg@) == Some((name@, qend as int, qtype as int)),
            None => question(msg@) is None,
        },
{
    if msg.len() < 12 {
        return None;
    }
    let qdcount: u16 = (msg[4] as u16) * 256 + (msg[5] as u16);
    if qdcount < 1 {
        return None;
    }
    let (labels, pos) = match walk_labels(msg, 12) {
        Some(found) => found,
        None => return None,
    };
    proof {
        lemma_label_walk_end(msg@, 12);
    }
    if pos > msg.len() - 4 || msg.len() < 4 {
        return None;
    }
    let qtype: u16 = (msg[pos] as u16) * 256 + (msg[pos + 1] as u16);
    let dotted = join_chars(&labels, '.');
    let name = string_of(&lower_chars(&dotted));
    proof {
        reveal_strlit(".");
        assert("."@ =~= seq!['.']);
    }
    Some((name, pos + 4, qtype))
}

/// The NXDOMAIN response to `req`, whose question section ends at `qend`.
pub fn build_nxdomain(req: &[u8], qend: usize) -> (r: Vec<u8>)
    requires
        12 <= qend <= req.len(),
    ensures
        r@ == nxdomain(req@, qend as int),
{
    let mut resp = bytes_between(req, 0, qend);
    let flags = 0x80u8 | (req[2] & 0x78u8) | (req[2] & 0x01u8);
    resp.set(2, flags);
    resp.set(3, 0x83u8);
    let mut i: usize = 6;
    while i < 12
        invariant
            6 <= i <= 12,
            12 <= qend <= req@.len(),
            resp@.len() == qend,
            forall|k: int| 6 <= k < i ==> resp@[k] == 0u8,
            forall|k: int| 0 <= k < qend && !(6 <= k < i) ==> resp@[k] == if k == 2 {
                response_flags(req@[2])
            } else if k == 3 {
                0x83u8
            } else {
                req@[k]
            },
        decreases 12 - i,
    {
        resp.set(i, 0u8);
        i += 1;
    }
    proof {
        assert(resp@ =~= nxdomain(req@, qend as int));
    }
    resp
}

/// The block-page answer to `req` (question section ending at `qend`): one
/// `A` or `AAAA` record pointing at loopback.
pub fn build_address_answer(req: &[u8], qend: usize, qtype: u16) -> (r: Vec<u8>)
    requires
        12 <= qend <= req.len(),
    ensures
        r@ == address_answer(req@, qend as int, qtype),
{
    let mut resp = bytes_between(req, 0, qend);
    let flags = 0x80u8 | (req[2] & 0x78u8) | (req[2] & 0x01u8);
    resp.set(2, flags);
    resp.set(3, 0x80u8);
    resp.set(6, 0u8);
    resp.set(7, 1u8);
    resp.set(8, 0u8);
    resp.set(9, 0u8);
    resp.set(10, 0u8);
    resp.set(11, 0u8);
    let ghost head = resp@;
    resp.push(0xC0u8);
    resp.push(0x0Cu8);
    resp.push((qtype / 256) as u8);
    resp.push((qtype % 256) as u8);
    resp.push(0u8);
    resp.push(1u8);
    resp.push(0u8);
    resp.push(0u8);
    resp.push(0u8);
    resp.push(30u8);
    let ghost with_record = resp@;
    if qtype == QTYPE_AAAA {
        resp.push(0u8);
        resp.push(16u8);
        let mut k: usize = 0;
        while k < 15
            invariant
                k <= 15,
                resp@ == with_record + seq![0u8, 16u8] + Seq::new(k as nat, |i: int| 0u8),
            decreases 15 - k,
        {
            resp.push(0u8);
            proof {
                assert(resp@ =~= with_record + seq![0u8, 16u8] + Seq::new((k + 1) as nat, |i: int| 0u8));
            }
            k += 1;
        }
        resp.push(1u8);
    } else {
        resp.push(0u8);
        resp.push(4u8);
        resp.push(127u8);
        resp.push(0u8);
        resp.push(0u8);
        resp.push(1u8);
    }
    proof {
        assert(head =~= Seq::new(
            qend as nat,
            |i: int|
                if i == 2 {
                    response_flags(req@[2])
                } else if i == 3 {
                    0x80u8
                } else if i == 7 {
                    1u8
                } else if 6 <= i < 12 {
                    0u8
                } else {
                    req@[i]
                },
        ));
        assert(resp@ =~= address_answer(req@, qend as int, qtype));
    }
    resp
}

/// Decides what to do with a request: `Some(bytes)` to answer it here (block
/// page redirect or NXDOMAIN), `None` to forward it upstream. Unparseable
/// requests are forwarded (fail open).
pub fn decide(req: &[u8], state: &Snapshot, block_page: bool) -> (r: Option<Vec<u8>>)
    requires
        state.wf(),
    ensures
        match r {
            Some(v) => decision(req@, state.domains@, block_page) == Some(v@),
            None => decision(req@, state.domains@, block_page) is None,
        },
{
    let (name, qend, qtype) = match parse_question(req) {
        Some(q) => q,
        None => return None,
    };
    if !state.is_blocked(name.as_str()) {
        return None;
    }
    proof {
        lemma_label_walk_end(req@, 12);
    }
    if block_page && (qtype == QTYPE_A || qtype == QTYPE_AAAA) {
        Some(build_address_answer(req, qend, qtype))
    } else {
        Some(build_nxdomain(req, qend))
    }
}


/// A DNS-over-TCP frame of `msg`: its length as two big-endian bytes, then
/// the message. The length is taken modulo 2^16, as the 16-bit length field
/// holds it.
pub open spec fn tcp_framed(msg: Seq<u8>) -> Seq<u8> {
    seq![((msg.len() / 256) % 256) as u8, (msg.len() % 256) as u8] + msg
}

/// Frames a DNS message for a TCP stream (see [`tcp_framed`]).
pub fn frame_tcp(msg: &[u8]) -> (r: Vec<u8>)
    ensures
        r@ == tcp_framed(msg@),
{
    let n = msg.len();
    let hi = ((n / 256) % 256) as u8;
    let lo = (n % 256) as u8;
    let mut r: Vec<u8> = Vec::new();
    r.push(hi);
    r.push(lo);
    let mut i: usize = 0;
    while i < n
        invariant
            n == msg.len(),
            i <= n,
            r@ == seq![hi, lo] + msg@.take(i as int),
        decreases n - i,
    {
        r.push(msg[i]);
        proof {
            assert(msg@.take(i + 1) =~= msg@.take(i as int).push(msg@[i as int]));
        }
        i += 1;
    }
    proof {
        assert(msg@.take(n as int) =~= msg@);
    }
    r
}

/// The length announced by a DNS-over-TCP frame's two-byte prefix.
pub fn frame_length(hi: u8, lo: u8) -> (r: usize)
    ensures
        r == be16(hi, lo),
{
    hi as usize * 256 + lo as usize
}

} // verus!
