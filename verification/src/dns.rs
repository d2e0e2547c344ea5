//! The DNS wire codec and the query pipeline.
//!
//! Queries arrive as raw UDP payloads.  The parser reads the header
//! and the first question; the builders produce the synthetic
//! blocked answer (`0.0.0.0` for A, `::` for AAAA, NXDOMAIN
//! otherwise), the SERVFAIL answer, and an address answer for
//! forwarded lookups.  The pipeline decides blocking under the
//! policy and counts every decided query exactly once.

use vstd::prelude::*;

use crate::clock::{local_clock, wall_clock_seconds};
use crate::state::{spec_blocking_active, AppState};
use crate::text::push_char;
use crate::timeofday::NaiveTimeWrapper;

verus! {

/// DNS label bytes as name characters.
pub open spec fn label_chars(bytes: Seq<u8>) -> Seq<char> {
    bytes.map_values(|x: u8| x as char)
}

/// Parses a run of length-prefixed labels ending in the zero label,
/// starting at `i`: the dotted name (each label followed by a dot)
/// and the position after the zero label.  Compressed names are not
/// accepted.
pub open spec fn spec_parse_name(b: Seq<u8>, i: int) -> Option<(Seq<char>, int)>
    decreases b.len() - i,
        when 0 <= i <= b.len()
{
    if i >= b.len() {
        None
    } else if b[i] == 0 {
        Some((Seq::empty(), i + 1))
    } else if b[i] <= 63 && i + 1 + b[i] <= b.len() {
        match spec_parse_name(b, i + 1 + b[i]) {
            Some((rest, end)) => Some(
                (label_chars(b.subrange(i + 1, i + 1 + b[i])) + seq!['.'] + rest, end),
            ),
            None => None,
        }
    } else {
        None
    }
}

/// The end position of a parsed name lies within the packet.
pub proof fn lemma_parse_name_end(b: Seq<u8>, i: int)
    requires
        0 <= i <= b.len(),
    ensures
        spec_parse_name(b, i) matches Some(p) ==> i < p.1 <= b.len(),
    decreases b.len() - i,
{
    if i >= b.len() {
    } else if b[i] == 0 {
    } else if b[i] <= 63 && i + 1 + b[i] <= b.len() {
        lemma_parse_name_end(b, i + 1 + b[i]);
    }
}

/// What the first question of a query says, as plain values.
pub struct QueryModel {
    /// The query id.
    pub id: int,
    /// The dotted queried name, with its trailing dot.
    pub name: Seq<char>,
    /// The record type asked for.
    pub qtype: int,
    /// The class asked for.
    pub qclass: int,
    /// Whether recursion was desired.
    pub rd: bool,
    /// The raw bytes of the question section.
    pub question: Seq<u8>,
}

/// Parses a query datagram: a twelve-byte header, at least one
/// question counted, and the first question read in full.
pub open spec fn spec_parse_query(b: Seq<u8>) -> Option<QueryModel> {
    if b.len() < 12 {
        None
    } else if b[4] == 0 && b[5] == 0 {
        None
    } else {
        match spec_parse_name(b, 12) {
            Some((name, end)) => if end + 4 <= b.len() {
                Some(
                    QueryModel {
                        id: b[0] * 256 + b[1],
                        name,
                        qtype: b[end] * 256 + b[end + 1],
                        qclass: b[end + 2] * 256 + b[end + 3],
                        rd: b[2] % 2 == 1,
                        question: b.subrange(12, end + 4),
                    },
                )
            } else {
                None
            },
            None => None,
        }
    }
}

/// The first question of a parsed query, as executable values.
pub struct DnsQuestion {
    /// The query id.
    pub id: u16,
    /// The dotted queried name, with its trailing dot.
    pub name: String,
    /// The record type asked for.
    pub qtype: u16,
    /// Whether recursion was desired.
    pub recursion_desired: bool,
    /// The raw bytes of the question section.
    pub question: Vec<u8>,
}

impl DnsQuestion {
    /// The question section holds a name (at least the zero label)
    /// and four bytes of type and class.
    pub open spec fn wf(&self) -> bool {
        self.question@.len() >= 5
    }
}

/// Parses one run of labels; returns the dotted name and the
/// position after the zero label.
fn parse_name(packet: &Vec<u8>, pos: usize) -> (r: Option<(String, usize)>)
    requires
        packet@.len() <= 65535,
        pos <= packet@.len(),
    ensures
        r is Some <==> spec_parse_name(packet@, pos as int) is Some,
        r matches Some(p) ==> (spec_parse_name(packet@, pos as int) matches Some(m) && p.0@
            == m.0 && p.1 == m.1 && pos < p.1 <= packet@.len()),
    decreases packet@.len() - pos,
{
    proof {
        lemma_parse_name_end(packet@, pos as int);
    }
    if pos >= packet.len() {
        return None;
    }
    let l = packet[pos];
    if l == 0 {
        return Some((String::new(), pos + 1));
    }
    if l > 63 {
        return None;
    }
    if pos + 1 + (l as usize) > packet.len() {
        return None;
    }
    match parse_name(packet, pos + 1 + (l as usize)) {
        None => None,
        Some((rest, end)) => {
            let mut s = String::new();
            let mut k: usize = 0;
            while k < l as usize
                invariant
                    packet@.len() <= 65535,
                    pos + 1 + l as usize <= packet@.len(),
                    k <= l as usize,
                    s@ == label_chars(packet@.subrange(pos + 1, pos + 1 + l as usize)).take(
                        k as int,
                    ),
                decreases l as usize - k,
            {
                let c = packet[pos + 1 + k];
                proof {
                    assert(label_chars(
                        packet@.subrange(pos + 1, pos + 1 + l as usize),
                    ).take(k + 1) == label_chars(
                        packet@.subrange(pos + 1, pos + 1 + l as usize),
                    ).take(k as int).push(c as char));
                }
                push_char(&mut s, c as char);
                k = k + 1;
            }
            proof {
                assert(label_chars(packet@.subrange(pos + 1, pos + 1 + l as usize)).take(
                    l as int,
                ) =~= label_chars(packet@.subrange(pos + 1, pos + 1 + l as usize)));
            }
            push_char(&mut s, '.');
            s.append(rest.as_str());
            proof {
                let m = spec_parse_name(packet@, pos as int)->0;
                assert(s@ =~= m.0);
            }
            Some((s, end))
        },
    }
}

/// Parses a query datagram into its first question; returns nothing
/// exactly when the datagram is not a well-formed query with at
/// least one question.
pub fn parse_query(packet: &Vec<u8>) -> (r: Option<DnsQuestion>)
    requires
        packet@.len() <= 65535,
    ensures
        r is Some <==> spec_parse_query(packet@) is Some,
        r matches Some(q) ==> (spec_parse_query(packet@) matches Some(m) && q.id == m.id
            && q.name@ == m.name && q.qtype == m.qtype && q.recursion_desired == m.rd
            && q.question@ == m.question && q.wf()),
{
    if packet.len() < 12 {
        return None;
    }
    if packet[4] == 0 && packet[5] == 0 {
        return None;
    }
    match parse_name(packet, 12) {
        None => None,
        Some((name, end)) => {
            if end > packet.len() - 4 {
                proof {
                    assert(spec_parse_query(packet@) is None);
                }
                return None;
            }
            let id = (packet[0] as u16) * 256 + (packet[1] as u16);
            let qtype = (packet[end] as u16) * 256 + (packet[end + 1] as u16);
            let recursion_desired = packet[2] % 2 == 1;
            let mut question: Vec<u8> = Vec::new();
            let mut i: usize = 12;
            while i < end + 4
                invariant
                    packet@.len() <= 65535,
                    12 <= i <= end + 4,
                    end + 4 <= packet@.len(),
                    question@ == packet@.subrange(12, i as int),
                decreases end + 4 - i,
            {
                proof {
                    assert(packet@.subrange(12, i + 1) == packet@.subrange(12, i as int).push(
                        packet@[i as int],
                    ));
                }
                question.push(packet[i]);
                i = i + 1;
            }
            let q = DnsQuestion { id, name, qtype, recursion_desired, question };
            proof {
                let m = spec_parse_query(packet@)->0;
                assert(q.question@ == m.question);
                assert(q.question@.len() >= 5) by {
                    lemma_parse_name_end(packet@, 12);
                }
            }
            Some(q)
        },
    }
}

/// A response header: the echoed id; a response to a standard query,
/// recursion available, recursion desired echoed; one question; the
/// given answer count; the given response code.
pub open spec fn spec_response_header(id: int, rd: bool, rcode: int, ancount: int) -> Seq<u8> {
    seq![
        (id / 256) as u8,
        (id % 256) as u8,
        if rd {
            129u8
        } else {
            128u8
        },
        (128 + rcode) as u8,
        0u8,
        1u8,
        0u8,
        ancount as u8,
        0u8,
        0u8,
        0u8,
        0u8,
    ]
}

/// One answer record over the echoed name: the given type, class IN,
/// TTL 60, and an all-zero address of the given length.
pub open spec fn spec_zero_record(qname: Seq<u8>, qtype: int, rdlen: int) -> Seq<u8> {
    qname + seq![
        (qtype / 256) as u8,
        (qtype % 256) as u8,
        0u8,
        1u8,
        0u8,
        0u8,
        0u8,
        60u8,
        0u8,
        rdlen as u8,
    ] + Seq::new(rdlen as nat, |i: int| 0u8)
}

/// The synthetic blocked response: `0.0.0.0` for an A query, `::`
/// for an AAAA query (NOERROR, TTL 60), and NXDOMAIN with no answer
/// for any other record type; the question is echoed.
pub open spec fn spec_blocked_response(id: int, rd: bool, qtype: int, question: Seq<u8>) -> Seq<
    u8,
> {
    let qname = question.subrange(0, question.len() - 4);
    if qtype == 1 {
        spec_response_header(id, rd, 0, 1) + question + spec_zero_record(qname, 1, 4)
    } else if qtype == 28 {
        spec_response_header(id, rd, 0, 1) + question + spec_zero_record(qname, 28, 16)
    } else {
        spec_response_header(id, rd, 3, 0) + question
    }
}

/// The SERVFAIL response: code 2, the question echoed, no answers.
pub open spec fn spec_servfail_response(id: int, rd: bool, question: Seq<u8>) -> Seq<u8> {
    spec_response_header(id, rd, 2, 0) + question
}

/// Appends every byte of `src` to `out`.
fn push_bytes(out: &mut Vec<u8>, src: &Vec<u8>)
    ensures
        final(out)@ == old(out)@ + src@,
{
    let mut i: usize = 0;
    while i < src.len()
        invariant
            i <= src@.len(),
            out@ == old(out)@ + src@.take(i as int),
        decreases src@.len() - i,
    {
        proof {
            assert(old(out)@ + src@.take(i + 1) == (old(out)@ + src@.take(i as int)).push(
                src@[i as int],
            ));
        }
        out.push(src[i]);
        i = i + 1;
    }
    proof {
        assert(src@.take(src@.len() as int) =~= src@);
    }
}

/// Appends `count` zero bytes to `out`.
fn push_zeros(out: &mut Vec<u8>, count: usize)
    ensures
        final(out)@ == old(out)@ + Seq::new(count as nat, |i: int| 0u8),
    decreases count,
{
    let mut i: usize = 0;
    while i < count
        invariant
            i <= count,
            out@ == old(out)@ + Seq::new(i as nat, |j: int| 0u8),
        decreases count - i,
    {
        proof {
            assert(old(out)@ + Seq::new((i + 1) as nat, |j: int| 0u8) == (old(out)@ + Seq::new(
                i as nat,
                |j: int| 0u8,
            )).push(0u8));
        }
        out.push(0u8);
        i = i + 1;
    }
}

/// Appends the response header.
fn push_header(out: &mut Vec<u8>, id: u16, rd: bool, rcode: u8, ancount: u8)
    requires
        rcode < 16,
    ensures
        final(out)@ == old(out)@ + spec_response_header(id as int, rd, rcode as int, ancount as int),
{
    out.push((id / 256) as u8);
    out.push((id % 256) as u8);
    if rd {
        out.push(129u8);
    } else {
        out.push(128u8);
    }
    out.push(128u8 + rcode);
    out.push(0u8);
    out.push(1u8);
    out.push(0u8);
    out.push(ancount);
    out.push(0u8);
    out.push(0u8);
    out.push(0u8);
    out.push(0u8);
    proof {
        assert(out@ =~= old(out)@ + spec_response_header(
            id as int,
            rd,
            rcode as int,
            ancount as int,
        ));
    }
}

/// Builds the synthetic blocked response for a question.
pub fn build_blocked_response(q: &DnsQuestion) -> (r: Vec<u8>)
    requires
        q.wf(),
    ensures
        r@ == spec_blocked_response(q.id as int, q.recursion_desired, q.qtype as int, q.question@),
{
    let mut out: Vec<u8> = Vec::new();
    let qname_len = q.question.len() - 4;
    if q.qtype == 1 || q.qtype == 28 {
        push_header(&mut out, q.id, q.recursion_desired, 0, 1);
        push_bytes(&mut out, &q.question);
        let ghost mid = out@;
        let mut i: usize = 0;
        while i < qname_len
            invariant
                qname_len == q.question@.len() - 4,
                i <= qname_len,
                out@ == mid + q.question@.subrange(0, i as int),
            decreases qname_len - i,
        {
            proof {
                assert(mid + q.question@.subrange(0, i + 1) == (mid + q.question@.subrange(
                    0,
                    i as int,
                )).push(q.question@[i as int]));
            }
            out.push(q.question[i]);
            i = i + 1;
        }
        out.push((q.qtype / 256) as u8);
        out.push((q.qtype % 256) as u8);
        out.push(0u8);
        out.push(1u8);
        out.push(0u8);
        out.push(0u8);
        out.push(0u8);
        out.push(60u8);
        out.push(0u8);
        if q.qtype == 1 {
            out.push(4u8);
            push_zeros(&mut out, 4);
        } else {
            out.push(16u8);
            push_zeros(&mut out, 16);
        }
        proof {
            assert(out@ =~= spec_blocked_response(
                q.id as int,
                q.recursion_desired,
                q.qtype as int,
                q.question@,
            ));
        }
        out
    } else {
        push_header(&mut out, q.id, q.recursion_desired, 3, 0);
        push_bytes(&mut out, &q.question);
        proof {
            assert(out@ =~= spec_blocked_response(
                q.id as int,
                q.recursion_desired,
                q.qtype as int,
                q.question@,
            ));
        }
        out
    }
}

/// Builds the SERVFAIL response for a question whose upstream lookup
/// failed.
pub fn build_servfail_response(q: &DnsQuestion) -> (r: Vec<u8>)
    ensures
        r@ == spec_servfail_response(q.id as int, q.recursion_desired, q.question@),
{
    let mut out: Vec<u8> = Vec::new();
    push_header(&mut out, q.id, q.recursion_desired, 2, 0);
    push_bytes(&mut out, &q.question);
    out
}

/// One resolved address for a forwarded query.
pub enum IpAnswer {
    /// An IPv4 address.
    V4([u8; 4]),
    /// An IPv6 address.
    V6([u8; 16]),
}

/// The address family answers the record type asked for.
pub open spec fn ip_matches(qtype: int, ip: IpAnswer) -> bool {
    match ip {
        IpAnswer::V4(_) => qtype == 1,
        IpAnswer::V6(_) => qtype == 28,
    }
}

/// One address record over the echoed name: class IN, TTL 300.
pub open spec fn spec_ip_record(qname: Seq<u8>, ip: IpAnswer) -> Seq<u8> {
    match ip {
        IpAnswer::V4(o) => qname + seq![0u8, 1u8, 0u8, 1u8, 0u8, 0u8, 1u8, 44u8, 0u8, 4u8]
            + o@,
        IpAnswer::V6(o) => qname + seq![0u8, 28u8, 0u8, 1u8, 0u8, 0u8, 1u8, 44u8, 0u8, 16u8]
            + o@,
    }
}

/// The records for the addresses whose family answers the record
/// type, in order.
pub open spec fn spec_ip_records(qname: Seq<u8>, qtype: int, ips: Seq<IpAnswer>) -> Seq<u8>
    decreases ips.len(),
{
    if ips.len() == 0 {
        Seq::empty()
    } else if ip_matches(qtype, ips[0]) {
        spec_ip_record(qname, ips[0]) + spec_ip_records(qname, qtype, ips.drop_first())
    } else {
        spec_ip_records(qname, qtype, ips.drop_first())
    }
}

/// How many addresses answer the record type.
pub open spec fn spec_count_matching(qtype: int, ips: Seq<IpAnswer>) -> int
    decreases ips.len(),
{
    if ips.len() == 0 {
        0
    } else if ip_matches(qtype, ips[0]) {
        1 + spec_count_matching(qtype, ips.drop_first())
    } else {
        spec_count_matching(qtype, ips.drop_first())
    }
}

/// The count of matching addresses stays within the list length.
pub proof fn lemma_count_matching_bound(qtype: int, ips: Seq<IpAnswer>)
    ensures
        0 <= spec_count_matching(qtype, ips) <= ips.len(),
    decreases ips.len(),
{
    if ips.len() > 0 {
        lemma_count_matching_bound(qtype, ips.drop_first());
    }
}

/// The forwarded answer: NOERROR, recursion desired and available,
/// the question echoed, and one record for each address whose family
/// answers the record type.
pub open spec fn spec_answer_response(
    id: int,
    qtype: int,
    question: Seq<u8>,
    ips: Seq<IpAnswer>,
) -> Seq<u8> {
    let qname = question.subrange(0, question.len() - 4);
    spec_response_header(id, true, 0, spec_count_matching(qtype, ips)) + question
        + spec_ip_records(qname, qtype, ips)
}

/// Builds the response for a forwarded A or AAAA lookup from the
/// addresses the upstream resolver returned, under the original
/// query id.
pub fn build_answer_response(q: &DnsQuestion, ips: &Vec<IpAnswer>) -> (r: Vec<u8>)
    requires
        q.wf(),
        ips@.len() <= 255,
    ensures
        r@ == spec_answer_response(q.id as int, q.qtype as int, q.question@, ips@),
{
    proof {
        lemma_count_matching_bound(q.qtype as int, ips@);
    }
    let mut count: usize = 0;
    let n = ips.len();
    let mut i: usize = 0;
    proof {
        assert(ips@.skip(0) =~= ips@);
    }
    while i < n
        invariant
            n == ips@.len(),
            n <= 255,
            i <= n,
            count <= i,
            spec_count_matching(q.qtype as int, ips@) == count + spec_count_matching(
                q.qtype as int,
                ips@.skip(i as int),
            ),
        decreases n - i,
    {
        let ghost before = ips@.skip(i as int);
        proof {
            assert(before[0] == ips@[i as int]);
            assert(before.drop_first() =~= ips@.skip(i + 1));
        }
        let matches_family = match &ips[i] {
            IpAnswer::V4(_) => q.qtype == 1,
            IpAnswer::V6(_) => q.qtype == 28,
        };
        if matches_family {
            count = count + 1;
        }
        i = i + 1;
    }
    proof {
        assert(ips@.skip(n as int).len() == 0);
        assert(count == spec_count_matching(q.qtype as int, ips@));
    }
    let mut out: Vec<u8> = Vec::new();
    push_header(&mut out, q.id, true, 0, count as u8);
    push_bytes(&mut out, &q.question);
    let qname_len = q.question.len() - 4;
    let ghost qname = q.question@.subrange(0, q.question@.len() - 4);
    let mut j: usize = 0;
    proof {
        assert(ips@.skip(0) =~= ips@);
    }
    while j < n
        invariant
            n == ips@.len(),
            j <= n,
            qname_len == q.question@.len() - 4,
            qname == q.question@.subrange(0, q.question@.len() - 4),
            q.wf(),
            out@ + spec_ip_records(qname, q.qtype as int, ips@.skip(j as int))
                == spec_response_header(
                q.id as int,
                true,
                0,
                spec_count_matching(q.qtype as int, ips@),
            ) + q.question@ + spec_ip_records(qname, q.qtype as int, ips@),
        decreases n - j,
    {
        let ghost before = ips@.skip(j as int);
        proof {
            assert(before[0] == ips@[j as int]);
            assert(before.drop_first() =~= ips@.skip(j + 1));
        }
        let matches_family = match &ips[j] {
            IpAnswer::V4(_) => q.qtype == 1,
            IpAnswer::V6(_) => q.qtype == 28,
        };
        if matches_family {
            let ghost out0 = out@;
            let mut k: usize = 0;
            while k < qname_len
                invariant
                    qname_len == q.question@.len() - 4,
                    q.wf(),
                    qname == q.question@.subrange(0, q.question@.len() - 4),
                    k <= qname_len,
                    out@ == out0 + qname.take(k as int),
                decreases qname_len - k,
            {
                proof {
                    assert(out0 + qname.take(k + 1) == (out0 + qname.take(k as int)).push(
                        qname[k as int],
                    ));
                }
                out.push(q.question[k]);
                k = k + 1;
            }
            proof {
                assert(qname.take(qname.len() as int) =~= qname);
            }
            match &ips[j] {
                IpAnswer::V4(o) => {
                    out.push(0u8);
                    out.push(1u8);
                    out.push(0u8);
                    out.push(1u8);
                    out.push(0u8);
                    out.push(0u8);
                    out.push(1u8);
                    out.push(44u8);
                    out.push(0u8);
                    out.push(4u8);
                    out.push(o[0]);
                    out.push(o[1]);
                    out.push(o[2]);
                    out.push(o[3]);
                    proof {
                        assert(out@ =~= out0 + spec_ip_record(qname, ips@[j as int]));
                    }
                },
                IpAnswer::V6(o) => {
                    out.push(0u8);
                    out.push(28u8);
                    out.push(0u8);
                    out.push(1u8);
                    out.push(0u8);
                    out.push(0u8);
                    out.push(1u8);
                    out.push(44u8);
                    out.push(0u8);
                    out.push(16u8);
                    let mut k2: usize = 0;
                    let ghost mid = out@;
                    while k2 < 16
                        invariant
                            k2 <= 16,
                            out@ == mid + o@.take(k2 as int),
                        decreases 16 - k2,
                    {
                        proof {
                            assert(mid + o@.take(k2 + 1) == (mid + o@.take(k2 as int)).push(
                                o@[k2 as int],
                            ));
                        }
                        out.push(o[k2]);
                        k2 = k2 + 1;
                    }
                    proof {
                        assert(o@.take(16) =~= o@);
                        assert(out@ =~= mid + o@);
                        assert(out@ =~= out0 + spec_ip_record(qname, ips@[j as int]));
                    }
                },
            }
            proof {
                assert(spec_ip_records(qname, q.qtype as int, before) == spec_ip_record(
                    qname,
                    ips@[j as int],
                ) + spec_ip_records(qname, q.qtype as int, ips@.skip(j + 1)));
                assert(out@ + spec_ip_records(qname, q.qtype as int, ips@.skip(j + 1)) =~= (out0
                    + spec_ip_record(qname, ips@[j as int])) + spec_ip_records(
                    qname,
                    q.qtype as int,
                    ips@.skip(j + 1),
                ));
            }
        } else {
            proof {
                assert(spec_ip_records(qname, q.qtype as int, before) == spec_ip_records(
                    qname,
                    q.qtype as int,
                    ips@.skip(j + 1),
                ));
            }
        }
        j = j + 1;
    }
    proof {
        assert(ips@.skip(n as int).len() == 0);
        assert(out@ + spec_ip_records(qname, q.qtype as int, ips@.skip(n as int)) =~= out@);
        assert(out@ == spec_answer_response(q.id as int, q.qtype as int, q.question@, ips@));
    }
    out
}

/// Overwrites the id field of a response.
pub fn patch_id(bytes: &mut Vec<u8>, id: u16)
    requires
        old(bytes)@.len() >= 2,
    ensures
        final(bytes)@ == old(bytes)@.update(0, (id as int / 256) as u8).update(
            1,
            (id as int % 256) as u8,
        ),
{
    bytes.set(0, (id / 256) as u8);
    bytes.set(1, (id % 256) as u8);
}

/// The outcome of one received datagram: dropped (malformed or
/// question-less), answered locally with the given bytes, or handed
/// to the upstream resolver.
pub enum DnsOutcome {
    /// Malformed or question-less: no response is sent.
    Drop,
    /// Answered locally with these bytes.
    Respond(Vec<u8>),
    /// To be resolved upstream.
    Forward(DnsQuestion),
}

/// Decides one received datagram under the current policy: a
/// datagram that fails to parse or carries no question is dropped
/// and counts nothing; otherwise exactly one counter steps — the
/// blocked counter with a synthetic response when blocking is active
/// and the name is on the blocklist, the forwarded counter when the
/// query is handed upstream.
pub fn process_dns_query(state: &mut AppState, packet: &Vec<u8>) -> (r: DnsOutcome)
    requires
        old(state).wf(),
        packet@.len() <= 65535,
        old(state).stats.queries_blocked < u64::MAX,
        old(state).stats.queries_forwarded < u64::MAX,
    ensures
        final(state).wf(),
        final(state).config == old(state).config,
        final(state).quiz == old(state).quiz,
        final(state).schedule == old(state).schedule,
        final(state).blocker == old(state).blocker,
        final(state).bypass_until == old(state).bypass_until,
        r is Drop <==> spec_parse_query(packet@) is None,
        spec_parse_query(packet@) is None ==> final(state).stats == old(state).stats,
        spec_parse_query(packet@) matches Some(m) ==> {
            &&& final(state).stats.queries_blocked + final(state).stats.queries_forwarded == old(
                state,
            ).stats.queries_blocked + old(state).stats.queries_forwarded + 1
            &&& (r matches DnsOutcome::Respond(bytes) ==> {
                &&& bytes@ == spec_blocked_response(m.id, m.rd, m.qtype, m.question)
                &&& crate::domain::blocked_by(old(state).blocker@, m.name)
                &&& final(state).stats.queries_blocked == old(state).stats.queries_blocked + 1
                &&& final(state).stats.queries_forwarded == old(state).stats.queries_forwarded
            })
            &&& (r matches DnsOutcome::Forward(q) ==> {
                &&& q.id == m.id
                &&& q.name@ == m.name
                &&& q.qtype == m.qtype
                &&& q.recursion_desired == m.rd
                &&& q.question@ == m.question
                &&& q.wf()
                &&& final(state).stats.queries_forwarded == old(state).stats.queries_forwarded
                    + 1
                &&& final(state).stats.queries_blocked == old(state).stats.queries_blocked
            })
            &&& exists|now: i64, day: crate::schedule::WeekdayWrapper, time: NaiveTimeWrapper|
                time.wf() && ((r is Respond) <==> (spec_blocking_active(
                    *old(state),
                    now as int,
                    day,
                    time.spec_minutes(),
                ) && crate::domain::blocked_by(old(state).blocker@, m.name)))
        },
{
    let parsed = parse_query(packet);
    match parsed {
        None => DnsOutcome::Drop,
        Some(q) => {
            let now = wall_clock_seconds();
            let (day, hour, minute) = local_clock();
            let time = NaiveTimeWrapper { hour, minute };
            let active = state.is_blocking_active_at(now, day, time);
            let matched = state.blocker.should_block(q.name.as_str());
            if active && matched {
                state.stats.queries_blocked = state.stats.queries_blocked + 1;
                let bytes = build_blocked_response(&q);
                proof {
                    let m = spec_parse_query(packet@)->0;
                    assert(bytes@ == spec_blocked_response(m.id, m.rd, m.qtype, m.question));
                }
                DnsOutcome::Respond(bytes)
            } else {
                state.stats.queries_forwarded = state.stats.queries_forwarded + 1;
                DnsOutcome::Forward(q)
            }
        },
    }
}

} // verus!
