//! The packet codec.
//!
//! Egress: builds the Ethernet + IPv4 + UDP + DNS query frame byte-exactly,
//! with both checksums computed over the laid-out bytes. Ingress: parses an
//! IPv4 payload up to the DNS answer records (`parse` functions further
//! below).

use crate::bytes::{be16, join_be16};
use crate::model::EthTable;
use vstd::prelude::*;
use vstd::string::StringSliceAdditionalSpecFns;

verus! {

/// The ones'-complement sum of the 16-bit big-endian words of a byte string
/// (an odd trailing byte is padded with zero), before carry folding.
pub open spec fn internet_sum(b: Seq<u8>) -> int
    decreases b.len(),
{
    if b.len() == 0 {
        0
    } else if b.len() == 1 {
        b[0] * 256
    } else {
        be16(b[0], b[1]) + internet_sum(b.skip(2))
    }
}

/// Folds the carries of a ones'-complement sum back in until the value fits
/// 16 bits.
pub open spec fn fold_carry(n: int) -> int
    decreases n,
{
    if n <= 0xffff {
        n
    } else {
        fold_carry(n / 0x10000 + n % 0x10000)
    }
}

/// The internet checksum of a byte string: the complement of its folded
/// ones'-complement sum.
pub open spec fn checksum_of(b: Seq<u8>) -> int {
    0xffff - fold_carry(internet_sum(b))
}

/// The internet sum is never negative.
pub proof fn lemma_internet_sum_nonneg(b: Seq<u8>)
    ensures
        internet_sum(b) >= 0,
    decreases b.len(),
{
    if b.len() >= 2 {
        lemma_internet_sum_nonneg(b.skip(2));
    }
}

/// Folding a non-negative sum lands in `0 ..= 0xffff`.
pub proof fn lemma_fold_carry_range(n: int)
    requires
        n >= 0,
    ensures
        0 <= fold_carry(n) <= 0xffff,
    decreases n,
{
    if n > 0xffff {
        lemma_fold_carry_range(n / 0x10000 + n % 0x10000);
    }
}

/// Computes the internet checksum of a byte string.
#[verifier::loop_isolation(false)]
pub fn internet_checksum(b: &[u8]) -> (r: u16)
    requires
        b@.len() <= 65535,
    ensures
        r == checksum_of(b@),
{
    let mut acc: u64 = 0;
    let mut i: usize = 0;
    proof {
        assert(b@.skip(0) =~= b@);
    }
    while i + 1 < b.len()
        invariant
            0 <= i <= b@.len(),
            i % 2 == 0,
            acc <= 0xffff * i,
            internet_sum(b@) == acc + internet_sum(b@.skip(i as int)),
        decreases b@.len() - i,
    {
        let ghost tail = b@.skip(i as int);
        proof {
            assert(tail[0] == b@[i as int]);
            assert(tail[1] == b@[i as int + 1]);
            assert(tail.skip(2) =~= b@.skip(i as int + 2));
        }
        acc = acc + (b[i] as u64) * 256 + (b[i + 1] as u64);
        i = i + 2;
    }
    if i < b.len() {
        let ghost tail = b@.skip(i as int);
        proof {
            assert(tail[0] == b@[i as int]);
            assert(tail.len() == 1);
        }
        acc = acc + (b[i] as u64) * 256;
        proof {
            assert(internet_sum(b@) == acc);
        }
    } else {
        proof {
            assert(b@.skip(i as int) =~= Seq::<u8>::empty());
            assert(internet_sum(b@) == acc);
        }
    }
    while acc > 0xffff
        invariant
            acc >= 0,
            fold_carry(internet_sum(b@)) == fold_carry(acc as int),
        decreases acc,
    {
        acc = acc / 0x10000 + acc % 0x10000;
    }
    0xffff - (acc as u16)
}

/// Position of the first dot in a name, or the length when there is none.
pub open spec fn first_dot(d: Seq<u8>) -> int
    decreases d.len(),
{
    if d.len() == 0 {
        0
    } else if d[0] == 46 {
        0
    } else {
        1 + first_dot(d.skip(1))
    }
}

/// The first dot lies within the name, everything before it is not a dot,
/// and it really is a dot when it is not the end.
pub proof fn lemma_first_dot(d: Seq<u8>)
    ensures
        0 <= first_dot(d) <= d.len(),
        first_dot(d) < d.len() ==> d[first_dot(d)] == 46,
        forall|j: int| 0 <= j < first_dot(d) ==> (#[trigger] d[j]) != 46,
    decreases d.len(),
{
    if d.len() > 0 && d[0] != 46 {
        lemma_first_dot(d.skip(1));
        assert forall|j: int| 0 <= j < first_dot(d) implies (#[trigger] d[j]) != 46 by {
            if j > 0 {
                assert(d.skip(1)[j - 1] == d[j]);
            }
        }
        if first_dot(d) < d.len() {
            assert(d.skip(1)[first_dot(d) - 1] == d[first_dot(d)]);
        }
    }
}

/// The length-prefixed label encoding of a dotted name, without the final
/// zero byte: each dot-separated stretch becomes its length (truncated to a
/// byte, as on the wire) followed by its bytes.
pub open spec fn encode_labels(d: Seq<u8>) -> Seq<u8>
    decreases d.len(),
    via encode_labels_decreases
{
    let k = first_dot(d);
    if k >= d.len() {
        seq![d.len() as u8] + d
    } else {
        seq![k as u8] + d.take(k) + encode_labels(d.skip(k + 1))
    }
}

#[via_fn]
proof fn encode_labels_decreases(d: Seq<u8>) {
    lemma_first_dot(d);
}

/// The twelve header bytes of one standard recursive query: the transaction
/// id, the flag word `0x0100`, and a single question.
pub open spec fn spec_dns_header(tid: int) -> Seq<u8> {
    seq![
        (tid / 256) as u8,
        (tid % 256) as u8,
        1u8,
        0u8,
        0u8,
        1u8,
        0u8,
        0u8,
        0u8,
        0u8,
        0u8,
        0u8,
    ]
}

/// One complete DNS query message for an A record of `d`, class IN.
pub open spec fn spec_dns_query(d: Seq<u8>, tid: int) -> Seq<u8> {
    spec_dns_header(tid) + encode_labels(d) + seq![0u8, 0u8, 1u8, 0u8, 1u8]
}

/// Finds the next dot at or after `from`; returns the name's length when
/// there is none.
#[verifier::loop_isolation(false)]
fn find_dot(b: &Vec<u8>, from: usize) -> (k: usize)
    requires
        from <= b@.len(),
    ensures
        from <= k <= b@.len(),
        k - from == first_dot(b@.skip(from as int)),
{
    proof {
        lemma_first_dot(b@.skip(from as int));
    }
    let ghost fd = first_dot(b@.skip(from as int));
    let mut k = from;
    while k < b.len()
        invariant
            from <= k <= b@.len(),
            k - from <= fd,
            forall|j: int| from <= j < k ==> (#[trigger] b@[j]) != 46,
        decreases b@.len() - k,
    {
        if b[k] == 46 {
            proof {
                assert(b@.skip(from as int)[k - from] == b@[k as int]);
                lemma_first_dot_at(b@.skip(from as int), k - from);
            }
            return k;
        }
        proof {
            assert(b@.skip(from as int)[k - from] == b@[k as int]);
            if k - from == fd {
                assert(false);
            }
        }
        k = k + 1;
    }
    proof {
        lemma_first_dot_none(b@.skip(from as int));
    }
    k
}

/// A position with a dot, before which no dot occurs, is the first dot.
proof fn lemma_first_dot_at(d: Seq<u8>, p: int)
    requires
        0 <= p < d.len(),
        d[p] == 46,
        forall|j: int| 0 <= j < p ==> (#[trigger] d[j]) != 46,
    ensures
        first_dot(d) == p,
    decreases p,
{
    if p > 0 {
        assert(d.skip(1)[p - 1] == d[p]);
        assert forall|j: int| 0 <= j < p - 1 implies (#[trigger] d.skip(1)[j]) != 46 by {
            assert(d.skip(1)[j] == d[j + 1]);
        }
        lemma_first_dot_at(d.skip(1), p - 1);
    }
}

/// A name without any dot has its first dot at the end.
proof fn lemma_first_dot_none(d: Seq<u8>)
    requires
        forall|j: int| 0 <= j < d.len() ==> (#[trigger] d[j]) != 46,
    ensures
        first_dot(d) == d.len(),
    decreases d.len(),
{
    if d.len() > 0 {
        assert forall|j: int| 0 <= j < d.skip(1).len() implies (#[trigger] d.skip(1)[j]) != 46 by {
            assert(d.skip(1)[j] == d[j + 1]);
        }
        lemma_first_dot_none(d.skip(1));
    }
}

/// Appends the label encoding of a whole name to `out`.
#[verifier::loop_isolation(false)]
#[verifier::rlimit(30)]
fn push_labels(out: &mut Vec<u8>, b: &Vec<u8>)
    ensures
        final(out)@ == old(out)@ + encode_labels(b@),
{
    let ghost base = out@;
    let ghost d = b@;
    let mut pos: usize = 0;
    let mut done = false;
    proof {
        assert(d.skip(0) =~= d);
    }
    while !done
        invariant
            0 <= pos <= d.len(),
            !done ==> base + encode_labels(d) =~= out@ + encode_labels(d.skip(pos as int)),
            done ==> out@ =~= base + encode_labels(d),
        decreases d.len() - pos, if done {
            0int
        } else {
            1int
        },
    {
        let ghost tail = d.skip(pos as int);
        let ghost out0 = out@;
        let k = find_dot(b, pos);
        out.push(#[verifier::truncate] ((k - pos) as u8));
        let mut j = pos;
        while j < k
            invariant
                pos <= j <= k <= b@.len(),
                out@ =~= out0 + seq![(((k - pos) as int) as u8)] + b@.subrange(
                    pos as int,
                    j as int,
                ),
            decreases k - j,
        {
            out.push(b[j]);
            j = j + 1;
        }
        proof {
            assert(first_dot(tail) == k - pos);
            assert(tail.take(k - pos) =~= d.subrange(pos as int, k as int));
        }
        if k == b.len() {
            proof {
                assert(encode_labels(tail) =~= seq![(tail.len() as u8)] + tail);
                assert(tail =~= d.subrange(pos as int, k as int));
                assert(out@ =~= out0 + encode_labels(tail));
            }
            done = true;
        } else {
            proof {
                assert(tail.skip(k - pos + 1) =~= d.skip(k as int + 1));
                assert(encode_labels(tail) =~= seq![(((k - pos) as int) as u8)] + tail.take(k - pos)
                    + encode_labels(d.skip(k as int + 1)));
            }
            pos = k + 1;
        }
    }
}

/// Builds the DNS query message: transaction id `flag_id`, flags `0x0100`,
/// one question asking for the A record of `domain`, class IN, the name
/// encoded as length-prefixed labels ending in a zero byte.
pub fn build_dns_query(domain: &str, flag_id: u16) -> (r: Vec<u8>)
    ensures
        r@ == spec_dns_query(domain.spec_bytes(), flag_id as int),
{
    let b = domain.as_bytes_vec();
    let ghost d = domain.spec_bytes();
    let mut out: Vec<u8> = Vec::new();
    out.push((flag_id / 256) as u8);
    out.push((flag_id % 256) as u8);
    out.push(1);
    out.push(0);
    out.push(0);
    out.push(1);
    out.push(0);
    out.push(0);
    out.push(0);
    out.push(0);
    out.push(0);
    out.push(0);
    proof {
        assert(out@ =~= spec_dns_header(flag_id as int));
    }
    push_labels(&mut out, &b);
    out.push(0);
    out.push(0);
    out.push(1);
    out.push(0);
    out.push(1);
    proof {
        assert(out@ =~= spec_dns_query(d, flag_id as int));
    }
    out
}

/// The label encoding is exactly one byte longer than the name itself: each
/// dot becomes a length byte, and one length byte leads the first label.
pub proof fn lemma_encode_labels_len(d: Seq<u8>)
    ensures
        encode_labels(d).len() == d.len() + 1,
    decreases d.len(),
{
    lemma_first_dot(d);
    let k = first_dot(d);
    if k < d.len() {
        lemma_encode_labels_len(d.skip(k + 1));
    }
}

/// The query message is the name plus eighteen bytes of framing.
pub proof fn lemma_dns_query_len(d: Seq<u8>, tid: int)
    ensures
        spec_dns_query(d, tid).len() == d.len() + 18,
{
    lemma_encode_labels_len(d);
}

/// The eight UDP header bytes with checksum `ck`, followed by the payload.
pub open spec fn spec_udp_packet(src_port: int, dst_port: int, payload: Seq<u8>, ck: int) -> Seq<
    u8,
> {
    seq![
        (src_port / 256) as u8,
        (src_port % 256) as u8,
        (dst_port / 256) as u8,
        (dst_port % 256) as u8,
        (((8 + payload.len()) / 256) as u8),
        (((8 + payload.len()) % 256) as u8),
        (ck / 256) as u8,
        (ck % 256) as u8,
    ] + payload
}

/// The IPv4 pseudo-header for the UDP checksum, followed by the UDP packet
/// with a zero checksum field.
pub open spec fn spec_udp_pseudo(
    src: [u8; 4],
    dst: [u8; 4],
    src_port: int,
    dst_port: int,
    payload: Seq<u8>,
) -> Seq<u8> {
    seq![
        src[0],
        src[1],
        src[2],
        src[3],
        dst[0],
        dst[1],
        dst[2],
        dst[3],
        0u8,
        17u8,
        (((8 + payload.len()) / 256) as u8),
        (((8 + payload.len()) % 256) as u8),
    ] + spec_udp_packet(src_port, dst_port, payload, 0)
}

/// The UDP checksum over the pseudo-header; a computed zero goes on the wire
/// as all ones.
pub open spec fn spec_udp_checksum(
    src: [u8; 4],
    dst: [u8; 4],
    src_port: int,
    dst_port: int,
    payload: Seq<u8>,
) -> int {
    let c = checksum_of(spec_udp_pseudo(src, dst, src_port, dst_port, payload));
    if c == 0 {
        0xffff
    } else {
        c
    }
}

/// The twenty IPv4 header bytes with checksum `ck`: version 4, header length
/// five words, a fixed identification, the don't-fragment flag, TTL 64, and
/// the UDP protocol number.
pub open spec fn spec_ipv4_header(total_len: int, src: [u8; 4], dst: [u8; 4], ck: int) -> Seq<u8> {
    seq![
        0x45u8,
        0u8,
        (total_len / 256) as u8,
        (total_len % 256) as u8,
        22u8,
        4u8,
        0x40u8,
        0u8,
        64u8,
        17u8,
        (ck / 256) as u8,
        (ck % 256) as u8,
        src[0],
        src[1],
        src[2],
        src[3],
        dst[0],
        dst[1],
        dst[2],
        dst[3],
    ]
}

/// The IPv4 header checksum: computed over the header with a zero checksum
/// field.
pub open spec fn spec_ipv4_checksum(total_len: int, src: [u8; 4], dst: [u8; 4]) -> int {
    checksum_of(spec_ipv4_header(total_len, src, dst, 0))
}

/// The fourteen Ethernet header bytes: next-hop MAC, source MAC, IPv4.
pub open spec fn spec_eth_header(src_mac: [u8; 6], dst_mac: [u8; 6]) -> Seq<u8> {
    seq![
        dst_mac[0],
        dst_mac[1],
        dst_mac[2],
        dst_mac[3],
        dst_mac[4],
        dst_mac[5],
        src_mac[0],
        src_mac[1],
        src_mac[2],
        src_mac[3],
        src_mac[4],
        src_mac[5],
        8u8,
        0u8,
    ]
}

/// One complete query frame: Ethernet, IPv4 (both checksums filled in), UDP,
/// and the DNS payload.
pub open spec fn spec_query_frame(
    ether: EthTable,
    dst_ip: [u8; 4],
    src_port: int,
    payload: Seq<u8>,
) -> Seq<u8> {
    spec_eth_header(ether.src_mac, ether.dst_mac) + spec_ipv4_header(
        28 + payload.len() as int,
        ether.src_ip,
        dst_ip,
        spec_ipv4_checksum(28 + payload.len() as int, ether.src_ip, dst_ip),
    ) + spec_udp_packet(
        src_port,
        53,
        payload,
        spec_udp_checksum(ether.src_ip, dst_ip, src_port, 53, payload),
    )
}

/// Appends every byte of `src` to `out`.
#[verifier::loop_isolation(false)]
fn push_bytes(out: &mut Vec<u8>, src: &Vec<u8>)
    ensures
        final(out)@ == old(out)@ + src@,
{
    let ghost base = out@;
    let mut j: usize = 0;
    while j < src.len()
        invariant
            0 <= j <= src@.len(),
            out@ =~= base + src@.subrange(0, j as int),
        decreases src@.len() - j,
    {
        out.push(src[j]);
        j = j + 1;
    }
    proof {
        assert(out@ =~= base + src@);
    }
}

/// Builds the full Ethernet frame that carries one DNS query to port 53 of
/// `dst_ip`, from the scan's interface binding, with the slot as UDP source
/// port. Both checksums are computed over the laid-out bytes.
#[verifier::rlimit(50)]
pub fn build_query_frame(ether: &EthTable, dst_ip: &[u8; 4], src_port: u16, payload: &Vec<u8>) -> (r:
    Vec<u8>)
    requires
        payload@.len() + 28 <= 65535,
    ensures
        r@ == spec_query_frame(*ether, *dst_ip, src_port as int, payload@),
{
    let udp_len: u16 = 8 + (payload.len() as u16);

    // UDP packet with a zero checksum field, then the checksum over the
    // pseudo-header.
    let mut udp: Vec<u8> = Vec::new();
    udp.push((src_port / 256) as u8);
    udp.push((src_port % 256) as u8);
    udp.push(0);
    udp.push(53);
    udp.push((udp_len / 256) as u8);
    udp.push((udp_len % 256) as u8);
    udp.push(0);
    udp.push(0);
    push_bytes(&mut udp, payload);
    proof {
        assert(udp@ =~= spec_udp_packet(src_port as int, 53, payload@, 0));
    }

    let mut pseudo: Vec<u8> = Vec::new();
    pseudo.push(ether.src_ip[0]);
    pseudo.push(ether.src_ip[1]);
    pseudo.push(ether.src_ip[2]);
    pseudo.push(ether.src_ip[3]);
    pseudo.push(dst_ip[0]);
    pseudo.push(dst_ip[1]);
    pseudo.push(dst_ip[2]);
    pseudo.push(dst_ip[3]);
    pseudo.push(0);
    pseudo.push(17);
    pseudo.push((udp_len / 256) as u8);
    pseudo.push((udp_len % 256) as u8);
    push_bytes(&mut pseudo, &udp);
    proof {
        assert(pseudo@ =~= spec_udp_pseudo(
            ether.src_ip,
            *dst_ip,
            src_port as int,
            53,
            payload@,
        ));
    }
    let mut udp_ck = internet_checksum(pseudo.as_slice());
    if udp_ck == 0 {
        udp_ck = 0xffff;
    }
    let ghost ck = spec_udp_checksum(ether.src_ip, *dst_ip, src_port as int, 53, payload@);
    proof {
        lemma_internet_sum_nonneg(pseudo@);
        lemma_fold_carry_range(internet_sum(pseudo@));
        assert(udp_ck == ck);
    }
    udp.set(6, (udp_ck / 256) as u8);
    udp.set(7, (udp_ck % 256) as u8);
    proof {
        assert(udp@ =~= spec_udp_packet(src_port as int, 53, payload@, ck));
    }

    // IPv4 header with a zero checksum field, then its checksum.
    let total_len: u16 = 20 + udp_len;
    let mut ip: Vec<u8> = Vec::new();
    ip.push(0x45);
    ip.push(0);
    ip.push((total_len / 256) as u8);
    ip.push((total_len % 256) as u8);
    ip.push(22);
    ip.push(4);
    ip.push(0x40);
    ip.push(0);
    ip.push(64);
    ip.push(17);
    ip.push(0);
    ip.push(0);
    ip.push(ether.src_ip[0]);
    ip.push(ether.src_ip[1]);
    ip.push(ether.src_ip[2]);
    ip.push(ether.src_ip[3]);
    ip.push(dst_ip[0]);
    ip.push(dst_ip[1]);
    ip.push(dst_ip[2]);
    ip.push(dst_ip[3]);
    proof {
        assert(ip@ =~= spec_ipv4_header(total_len as int, ether.src_ip, *dst_ip, 0));
    }
    let ip_ck = internet_checksum(ip.as_slice());
    proof {
        lemma_internet_sum_nonneg(ip@);
        lemma_fold_carry_range(internet_sum(ip@));
    }
    ip.set(10, (ip_ck / 256) as u8);
    ip.set(11, (ip_ck % 256) as u8);
    proof {
        assert(ip@ =~= spec_ipv4_header(
            total_len as int,
            ether.src_ip,
            *dst_ip,
            spec_ipv4_checksum(total_len as int, ether.src_ip, *dst_ip),
        ));
    }

    // Ethernet header, then the assembled frame.
    let mut frame: Vec<u8> = Vec::new();
    frame.push(ether.dst_mac[0]);
    frame.push(ether.dst_mac[1]);
    frame.push(ether.dst_mac[2]);
    frame.push(ether.dst_mac[3]);
    frame.push(ether.dst_mac[4]);
    frame.push(ether.dst_mac[5]);
    frame.push(ether.src_mac[0]);
    frame.push(ether.src_mac[1]);
    frame.push(ether.src_mac[2]);
    frame.push(ether.src_mac[3]);
    frame.push(ether.src_mac[4]);
    frame.push(ether.src_mac[5]);
    frame.push(8);
    frame.push(0);
    push_bytes(&mut frame, &ip);
    push_bytes(&mut frame, &udp);
    proof {
        assert(frame@ =~= spec_query_frame(*ether, *dst_ip, src_port as int, payload@));
    }
    frame
}

/// How many compression-pointer jumps the name parser will follow before it
/// declares a packet malformed.
pub const NAME_JUMP_BUDGET: usize = 64;

/// Parses a DNS name written at `pos` of message `m`: a run of
/// length-prefixed labels ended by a zero byte, where a byte of 192 or more
/// starts a compression pointer that continues the name elsewhere in the
/// message. Yields the name with dots between the labels, and the position
/// just after the name's bytes at `pos`. Pointers out of the message, byte
/// runs over the edge, the reserved label kinds, and chains longer than
/// `budget` jumps make the name malformed (`None`).
pub open spec fn spec_parse_name(m: Seq<u8>, pos: int, budget: int) -> Option<(Seq<u8>, int)>
    decreases budget, m.len() - pos,
{
    if pos < 0 || pos >= m.len() {
        None
    } else {
        let len = m[pos];
        if len == 0 {
            Some((Seq::empty(), pos + 1))
        } else if len >= 192 {
            if pos + 1 >= m.len() || budget <= 0 {
                None
            } else {
                let target = (len - 192) * 256 + m[pos + 1];
                match spec_parse_name(m, target, budget - 1) {
                    Some(r) => Some((r.0, pos + 2)),
                    None => None,
                }
            }
        } else if len < 64 {
            if pos + 1 + len > m.len() {
                None
            } else {
                match spec_parse_name(m, pos + 1 + len, budget) {
                    Some(r) => {
                        let label = m.subrange(pos + 1, pos + 1 + len);
                        if r.0.len() == 0 {
                            Some((label, r.1))
                        } else {
                            Some((label + seq![46u8] + r.0, r.1))
                        }
                    },
                    None => None,
                }
            }
        } else {
            None
        }
    }
}

/// Parses a DNS name at `pos` of message `m`, following at most `budget`
/// compression jumps; `None` on a malformed name.
#[verifier::loop_isolation(false)]
pub fn parse_name_at(m: &[u8], pos: usize, budget: usize) -> (r: Option<(Vec<u8>, usize)>)
    requires
        m@.len() <= 65535,
    ensures
        ({
            let s = spec_parse_name(m@, pos as int, budget as int);
            &&& (r is Some) == (s is Some)
            &&& (r matches Some(p) ==> s matches Some(q) && p.0@ == q.0 && p.1 == q.1 && p.1
                <= m@.len())
        }),
    decreases budget, m@.len() - pos,
{
    if pos >= m.len() {
        return None;
    }
    let len = m[pos];
    if len == 0 {
        Some((Vec::new(), pos + 1))
    } else if len >= 192 {
        if pos + 1 >= m.len() || budget == 0 {
            None
        } else {
            let target: usize = ((len - 192) as usize) * 256 + (m[pos + 1] as usize);
            match parse_name_at(m, target, budget - 1) {
                Some(r) => Some((r.0, pos + 2)),
                None => None,
            }
        }
    } else if len < 64 {
        if pos + 1 + (len as usize) > m.len() {
            None
        } else {
            match parse_name_at(m, pos + 1 + (len as usize), budget) {
                Some(r) => {
                    let (tail, next) = r;
                    let mut name: Vec<u8> = Vec::new();
                    let mut j: usize = pos + 1;
                    while j < pos + 1 + (len as usize)
                        invariant
                            pos + 1 <= j <= pos + 1 + len <= m@.len(),
                            name@ =~= m@.subrange(pos + 1, j as int),
                        decreases pos + 1 + len - j,
                    {
                        name.push(m[j]);
                        j = j + 1;
                    }
                    if tail.len() > 0 {
                        name.push(46);
                        let mut k: usize = 0;
                        while k < tail.len()
                            invariant
                                0 <= k <= tail@.len(),
                                name@ =~= m@.subrange(pos + 1, pos + 1 + len) + seq![46u8]
                                    + tail@.subrange(0, k as int),
                            decreases tail@.len() - k,
                        {
                            name.push(tail[k]);
                            k = k + 1;
                        }
                        proof {
                            assert(name@ =~= m@.subrange(pos + 1, pos + 1 + len) + seq![46u8]
                                + tail@);
                        }
                    }
                    Some((name, next))
                },
                None => None,
            }
        }
    } else {
        None
    }
}

/// Locates the `n` answer records that start at `pos`: for each, its type
/// code and the offset and length of its RDATA. `None` when a record is cut
/// short or carries a malformed name.
pub open spec fn spec_parse_answers(d: Seq<u8>, pos: int, n: int) -> Option<Seq<(int, int, int)>>
    decreases n,
{
    if n <= 0 {
        Some(Seq::empty())
    } else {
        match spec_parse_name(d, pos, NAME_JUMP_BUDGET as int) {
            None => None,
            Some(r) => {
                let p = r.1;
                if p + 10 > d.len() {
                    None
                } else {
                    let rdlen = be16(d[p + 8], d[p + 9]);
                    if p + 10 + rdlen > d.len() {
                        None
                    } else {
                        match spec_parse_answers(d, p + 10 + rdlen, n - 1) {
                            None => None,
                            Some(rest) => Some(
                                seq![(be16(d[p], d[p + 1]), p + 10, rdlen)] + rest,
                            ),
                        }
                    }
                }
            },
        }
    }
}

/// Position just after the `n` questions that start at `pos`, or `None`
/// when one is malformed.
pub open spec fn spec_skip_questions(d: Seq<u8>, pos: int, n: int) -> Option<int>
    decreases n,
{
    if n <= 0 {
        Some(pos)
    } else {
        match spec_parse_name(d, pos, NAME_JUMP_BUDGET as int) {
            None => None,
            Some(r) => {
                if r.1 + 4 > d.len() {
                    None
                } else {
                    spec_skip_questions(d, r.1 + 4, n - 1)
                }
            },
        }
    }
}

/// The transaction id of a DNS message.
pub open spec fn spec_dns_tid(d: Seq<u8>) -> int
    recommends
        d.len() >= 12,
{
    be16(d[0], d[1])
}

/// Whether the message is a response (its QR bit is set).
pub open spec fn spec_dns_is_response(d: Seq<u8>) -> bool
    recommends
        d.len() >= 12,
{
    d[2] >= 128
}

/// The question count of a DNS message.
pub open spec fn spec_dns_qdcount(d: Seq<u8>) -> int
    recommends
        d.len() >= 12,
{
    be16(d[4], d[5])
}

/// The answer count of a DNS message.
pub open spec fn spec_dns_ancount(d: Seq<u8>) -> int
    recommends
        d.len() >= 12,
{
    be16(d[6], d[7])
}

/// The name asked by the first question of the message.
pub open spec fn spec_dns_first_qname(d: Seq<u8>) -> Option<Seq<u8>> {
    match spec_parse_name(d, 12, NAME_JUMP_BUDGET as int) {
        None => None,
        Some(r) => Some(r.0),
    }
}

/// The located answer records of the message: `None` when the question
/// section or an answer is malformed.
pub open spec fn spec_dns_answers(d: Seq<u8>) -> Option<Seq<(int, int, int)>>
    recommends
        d.len() >= 12,
{
    match spec_skip_questions(d, 12, spec_dns_qdcount(d)) {
        None => None,
        Some(p) => spec_parse_answers(d, p, spec_dns_ancount(d)),
    }
}

/// One located answer record: its type code, and its RDATA's offset and
/// length within the message.
#[derive(Debug, Clone, Copy, PartialEq, Eq, Structural)]
pub struct DnsAnswer {
    /// The record type code (1 A, 2 NS, 5 CNAME, 15 MX, 16 TXT).
    pub rtype: u16,
    /// Offset of the record's RDATA in the message.
    pub roff: usize,
    /// Length of the record's RDATA.
    pub rdlen: usize,
}

/// The view of a located answer: type, RDATA offset, RDATA length.
pub open spec fn answer_view(a: DnsAnswer) -> (int, int, int) {
    (a.rtype as int, a.roff as int, a.rdlen as int)
}

/// Locates the answer records of a DNS message, after skipping its question
/// section; `None` when the message is malformed.
#[verifier::loop_isolation(false)]
pub fn parse_dns_answers(d: &[u8]) -> (r: Option<Vec<DnsAnswer>>)
    requires
        d@.len() >= 12,
        d@.len() <= 65535,
    ensures
        ({
            let s = spec_dns_answers(d@);
            &&& (r is Some) == (s is Some)
            &&& (r matches Some(v) ==> s matches Some(w) && v@.map_values(
                |a: DnsAnswer| answer_view(a),
            ) == w && forall|i: int|
                0 <= i < v@.len() ==> (#[trigger] v@[i]).roff + v@[i].rdlen <= d@.len())
        }),
{
    let qd = join_be16_at(d, 4);
    let an = join_be16_at(d, 6);
    let mut pos: usize = 12;
    let mut i: u16 = 0;
    while i < qd
        invariant
            0 <= i <= qd,
            pos <= d@.len(),
            qd == spec_dns_qdcount(d@),
            spec_skip_questions(d@, 12, qd as int) == spec_skip_questions(
                d@,
                pos as int,
                qd - i,
            ),
        decreases qd - i,
    {
        match parse_name_at(d, pos, NAME_JUMP_BUDGET) {
            None => {
                return None;
            },
            Some(p) => {
                if p.1 + 4 > d.len() {
                    return None;
                }
                pos = p.1 + 4;
            },
        }
        i = i + 1;
    }
    let mut answers: Vec<DnsAnswer> = Vec::new();
    let mut j: u16 = 0;
    proof {
        assert(spec_dns_answers(d@) == spec_parse_answers(d@, pos as int, an as int));
    }
    while j < an
        invariant
            0 <= j <= an,
            pos <= d@.len(),
            an == spec_dns_ancount(d@),
            forall|i: int|
                0 <= i < answers@.len() ==> (#[trigger] answers@[i]).roff + answers@[i].rdlen
                    <= d@.len(),
            ({
                let s = spec_dns_answers(d@);
                &&& (s is Some) == (spec_parse_answers(d@, pos as int, an - j) is Some)
                &&& (s matches Some(w) ==> spec_parse_answers(d@, pos as int, an - j)
                    matches Some(rest) && w =~= answers@.map_values(
                    |a: DnsAnswer| answer_view(a),
                ) + rest)
            }),
        decreases an - j,
    {
        let ghost w0 = answers@.map_values(|a: DnsAnswer| answer_view(a));
        match parse_name_at(d, pos, NAME_JUMP_BUDGET) {
            None => {
                return None;
            },
            Some(p) => {
                let q = p.1;
                if q + 10 > d.len() {
                    return None;
                }
                let rdlen = join_be16_at(d, q + 8) as usize;
                if q + 10 + rdlen > d.len() {
                    return None;
                }
                let rtype = join_be16_at(d, q);
                answers.push(DnsAnswer { rtype, roff: q + 10, rdlen });
                pos = q + 10 + rdlen;
                proof {
                    assert(answers@.map_values(|a: DnsAnswer| answer_view(a)) =~= w0 + seq![
                        (rtype as int, q + 10 as int, rdlen as int),
                    ]);
                }
            },
        }
        j = j + 1;
    }
    Some(answers)
}

/// The UDP datagram inside an IPv4 packet: present when the header is
/// whole, its stated length fits, and the protocol is UDP.
pub open spec fn spec_ipv4_payload(p: Seq<u8>) -> Option<Seq<u8>> {
    if p.len() >= 20 {
        let hl = (p[0] % 16) * 4;
        if hl >= 20 && hl <= p.len() && p[9] == 17 {
            Some(p.skip(hl as int))
        } else {
            None
        }
    } else {
        None
    }
}

/// The DNS response inside an IPv4 packet that belongs to this scan: the
/// packet must carry UDP from port 53, a whole DNS header with the QR bit
/// set, and a transaction id whose high digits equal the scan tag. Yields
/// the DNS message and the UDP destination port.
pub open spec fn spec_scan_response(p: Seq<u8>, flag_id: u16) -> Option<(Seq<u8>, int)> {
    match spec_ipv4_payload(p) {
        None => None,
        Some(u) => {
            if u.len() >= 20 && be16(u[0], u[1]) == 53 {
                let d = u.skip(8);
                if spec_dns_is_response(d) && spec_dns_tid(d) / 100 == flag_id {
                    Some((d, be16(u[2], u[3])))
                } else {
                    None
                }
            } else {
                None
            }
        },
    }
}

/// Pulls this scan's DNS response out of an IPv4 packet: the UDP datagram
/// from port 53 whose transaction id carries the scan tag. Yields the DNS
/// message and the UDP destination port.
pub fn extract_scan_response<'a>(p: &'a [u8], flag_id: u16) -> (r: Option<(&'a [u8], u16)>)
    ensures
        ({
            let s = spec_scan_response(p@, flag_id);
            &&& (r is Some) == (s is Some)
            &&& (r matches Some(x) ==> s matches Some(y) && x.0@ == y.0 && x.1 == y.1)
        }),
{
    if p.len() < 20 {
        return None;
    }
    let hl: usize = ((p[0] % 16) as usize) * 4;
    if !(hl >= 20 && hl <= p.len() && p[9] == 17) {
        return None;
    }
    let u = &p[hl..p.len()];
    if !(u.len() >= 20 && join_be16_at(u, 0) == 53) {
        return None;
    }
    let d = &u[8..u.len()];
    proof {
        assert(u@ == p@.skip(hl as int));
        assert(d@ == u@.skip(8));
    }
    if !(d[2] >= 128) {
        return None;
    }
    let tid = join_be16_at(d, 0);
    if tid / 100 != flag_id {
        return None;
    }
    let port = join_be16_at(u, 2);
    Some((d, port))
}

/// Reads the big-endian 16-bit field at `at`.
pub fn join_be16_at(d: &[u8], at: usize) -> (r: u16)
    requires
        at + 2 <= d@.len(),
    ensures
        r == be16(d@[at as int], d@[at as int + 1]),
{
    join_be16(d[at], d[at + 1])
}

/// Where the transaction id, the UDP ports, and the question name stand in a
/// query frame: the laws of the identifier scheme, read off the wire format.
pub proof fn lemma_query_frame_fields(
    ether: EthTable,
    dst_ip: [u8; 4],
    src_port: int,
    payload: Seq<u8>,
)
    requires
        0 <= src_port < 65536,
        payload.len() >= 12,
    ensures
        ({
            let f = spec_query_frame(ether, dst_ip, src_port, payload);
            &&& f.len() == 42 + payload.len()
            &&& be16(f[34], f[35]) == src_port
            &&& be16(f[36], f[37]) == 53
            &&& f.skip(42) =~= payload
        }),
{
    let f = spec_query_frame(ether, dst_ip, src_port, payload);
    assert(f.skip(42) =~= payload);
}

/// A well-formed question name: dot-separated labels of one to sixty-three
/// bytes each.
pub open spec fn wf_qname(d: Seq<u8>) -> bool
    decreases d.len(),
    via wf_qname_decreases
{
    let k = first_dot(d);
    if k >= d.len() {
        1 <= d.len() <= 63
    } else {
        1 <= k <= 63 && wf_qname(d.skip(k + 1))
    }
}

#[via_fn]
proof fn wf_qname_decreases(d: Seq<u8>) {
    lemma_first_dot(d);
}

/// A well-formed name is never empty.
proof fn lemma_wf_qname_nonempty(d: Seq<u8>)
    requires
        wf_qname(d),
    ensures
        d.len() >= 1,
{
    lemma_first_dot(d);
}

/// Parsing the label encoding of a well-formed name written at `pos` of a
/// message yields exactly the name back and stops right after its zero
/// byte: the decode side of the query codec inverts the encode side.
proof fn lemma_parse_encoded_name(m: Seq<u8>, pos: int, budget: int, d: Seq<u8>)
    requires
        wf_qname(d),
        0 <= pos,
        pos + d.len() + 2 <= m.len(),
        m.subrange(pos, pos + d.len() + 2) == encode_labels(d) + seq![0u8],
        budget >= 0,
    ensures
        spec_parse_name(m, pos, budget) == Some((d, pos + d.len() + 2)),
    decreases d.len(),
{
    lemma_first_dot(d);
    lemma_encode_labels_len(d);
    let k = first_dot(d);
    let enc = encode_labels(d) + seq![0u8];
    let win = m.subrange(pos, pos + d.len() + 2);
    assert forall|j: int| 0 <= j < d.len() + 2 implies #[trigger] m[pos + j] == enc[j] by {
        assert(win[j] == m[pos + j]);
    }
    assert(win[0] == m[pos + 0] && m[pos + 0] == m[pos]);
    if k >= d.len() {
        assert(enc =~= seq![(d.len() as u8)] + d + seq![0u8]);
        assert(m[pos] == enc[0]);
        assert(m[pos] == d.len() as u8);
        assert(1 <= d.len() <= 63);
        assert(m.subrange(pos + 1, pos + 1 + d.len()) =~= d) by {
            assert forall|j: int| 0 <= j < d.len() implies m.subrange(
                pos + 1,
                pos + 1 + d.len(),
            )[j] == d[j] by {
                assert(m[pos + 1 + j] == enc[1 + j]);
            }
        }
        assert(m[pos + (1 + d.len() as int)] == enc[1 + d.len() as int]);
        assert(m[pos + 1 + d.len()] == 0);
        assert(spec_parse_name(m, pos + 1 + d.len(), budget) == Some(
            (Seq::<u8>::empty(), pos + d.len() + 2),
        ));
    } else {
        assert(1 <= k <= 63);
        assert(d[k] == 46);
        let rest = d.skip(k + 1);
        assert(enc =~= seq![(k as u8)] + d.take(k) + (encode_labels(rest) + seq![0u8]));
        assert(m[pos] == enc[0]);
        assert(m[pos] == k as u8);
        assert(m.subrange(pos + 1, pos + 1 + k) =~= d.take(k)) by {
            assert forall|j: int| 0 <= j < k implies m.subrange(pos + 1, pos + 1 + k)[j] == d.take(
                k,
            )[j] by {
                assert(m[pos + 1 + j] == enc[1 + j]);
            }
        }
        lemma_encode_labels_len(rest);
        assert(m.subrange(pos + k + 1, pos + k + 1 + rest.len() + 2) =~= encode_labels(rest)
            + seq![0u8]) by {
            assert forall|j: int| 0 <= j < rest.len() + 2 implies m.subrange(
                pos + k + 1,
                pos + k + 1 + rest.len() + 2,
            )[j] == (encode_labels(rest) + seq![0u8])[j] by {
                assert(m[pos + k + 1 + j] == enc[k + 1 + j]);
            }
        }
        lemma_parse_encoded_name(m, pos + k + 1, budget, rest);
        lemma_wf_qname_nonempty(rest);
        assert(spec_parse_name(m, pos + 1 + k, budget) == Some((rest, pos + d.len() + 2)));
        assert(d.take(k) + seq![46u8] + rest =~= d);
    }
}

/// The query codec round-trips: decoding the message that encodes a
/// well-formed question gives the question back — the same transaction
/// id, one question and no answers, the query bit, and exactly the asked
/// name as the first question.
pub proof fn lemma_query_round_trip(d: Seq<u8>, tid: int)
    requires
        wf_qname(d),
        0 <= tid < 65536,
    ensures
        ({
            let m = spec_dns_query(d, tid);
            &&& spec_dns_tid(m) == tid
            &&& !spec_dns_is_response(m)
            &&& spec_dns_qdcount(m) == 1
            &&& spec_dns_ancount(m) == 0
            &&& spec_dns_first_qname(m) == Some(d)
        }),
{
    let m = spec_dns_query(d, tid);
    lemma_dns_query_len(d, tid);
    assert(m.subrange(12, 12 + d.len() as int + 2) =~= encode_labels(d) + seq![0u8]);
    lemma_parse_encoded_name(m, 12, NAME_JUMP_BUDGET as int, d);
    assert(m[0] == (tid / 256) as u8 && m[1] == (tid % 256) as u8);
    assert(be16((tid / 256) as u8, (tid % 256) as u8) == tid);
}

/// The identifier laws of one emission, read off the frame that carries a
/// query built from the scan tag, a sub-tag, and a slot: the UDP source
/// port is the slot, the destination port is 53, and the transaction id
/// divides back into the scan tag and the sub-tag.
pub proof fn lemma_emission_identifiers(
    ether: EthTable,
    dst_ip: [u8; 4],
    flag_id: u16,
    flag_id2: u16,
    slot: u16,
    d: Seq<u8>,
)
    requires
        flag_id < 655,
        flag_id2 < 100,
    ensures
        ({
            let tid = flag_id * 100 + flag_id2;
            let f = spec_query_frame(ether, dst_ip, slot as int, spec_dns_query(d, tid as int));
            &&& be16(f[34], f[35]) == slot
            &&& be16(f[36], f[37]) == 53
            &&& be16(f[42], f[43]) == tid
            &&& spec_dns_tid(f.skip(42)) == tid
            &&& tid / 100 == flag_id
            &&& tid % 100 == flag_id2
        }),
{
    let tid = flag_id * 100 + flag_id2;
    lemma_dns_query_len(d, tid as int);
    lemma_query_frame_fields(ether, dst_ip, slot as int, spec_dns_query(d, tid as int));
    let f = spec_query_frame(ether, dst_ip, slot as int, spec_dns_query(d, tid as int));
    assert(f[42] == spec_dns_query(d, tid as int)[0]);
    assert(f[43] == spec_dns_query(d, tid as int)[1]);
    assert((flag_id * 100 + flag_id2) / 100 == flag_id && (flag_id * 100 + flag_id2) % 100
        == flag_id2) by (nonlinear_arith)
        requires
            flag_id < 655,
            flag_id2 < 100,
    ;
}

} // verus!
