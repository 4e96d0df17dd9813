//! IPv4 and UDP header codecs and the echo transform.
//!
//! The IPv4 codec parses the packed header fields of RFC 791 out of a
//! byte buffer and serializes them back, bit for bit.  The UDP codec does
//! the same for the RFC 768 header plus payload.  The echo transform
//! swaps the two endpoints of a decoded datagram, recomputes both
//! checksums, and re-serializes it.

use vstd::prelude::*;
use vstd::pervasive::unreached;
use vstd::slice::{slice_subrange, slice_to_vec};
use crate::checksum::{
    be16, be16_join, checksum_spec, checksum_words, lemma_checksum_validates, words_from_bytes,
    words_of_bytes,
};

verus! {

/// Why a buffer could not be decoded or a header could not be encoded.
#[derive(Debug, Clone, Copy, PartialEq, Eq, Structural)]
pub enum CodecError {
    /// The buffer is shorter than the header's own minimum size.
    TruncatedBuffer,
    /// A length field is inconsistent with the size of the buffer.
    InvalidHeaderLength,
    /// At encoding, a length field does not match the actual payload size.
    InvalidLength,
}

/// A decoded IPv4 header.  Multi-byte fields are in host order; the
/// bit-packed fields (`version`/`ihl`, `flags`/`frag_offset`) are held
/// unpacked.
#[derive(Debug, Clone, Copy)]
pub struct IpPacket {
    pub version: u8,
    pub ihl: u8,
    pub tos: u8,
    pub total_len: u16,
    pub id: u16,
    pub flags: u8,
    pub frag_offset: u16,
    pub ttl: u8,
    pub protocol: u8,
    pub checksum: u16,
    pub src_ip: (u8, u8, u8, u8),
    pub dst_ip: (u8, u8, u8, u8),
}

/// The low nibble of the first byte: the header length in 32-bit words.
pub open spec fn ihl_of(b: Seq<u8>) -> int {
    (b[0] % 16) as int
}

/// A buffer holds a syntactically valid IPv4 header: room for the fixed
/// header, an IHL of at least five words, and room for the full header.
pub open spec fn ip_valid_buf(b: Seq<u8>) -> bool {
    &&& b.len() >= 20
    &&& ihl_of(b) >= 5
    &&& b.len() >= 4 * ihl_of(b)
}

/// The header parsed from the first twenty bytes of a buffer.
pub open spec fn ip_parsed(b: Seq<u8>) -> IpPacket {
    IpPacket {
        version: (b[0] / 16) as u8,
        ihl: (b[0] % 16) as u8,
        tos: b[1],
        total_len: be16(b[2], b[3]),
        id: be16(b[4], b[5]),
        flags: (b[6] / 32) as u8,
        frag_offset: be16((b[6] % 32) as u8, b[7]),
        ttl: b[8],
        protocol: b[9],
        checksum: be16(b[10], b[11]),
        src_ip: (b[12], b[13], b[14], b[15]),
        dst_ip: (b[16], b[17], b[18], b[19]),
    }
}

impl IpPacket {
    /// The fields fit their wire widths: a 4-bit version, an IHL of five
    /// to fifteen words, 3-bit flags and a 13-bit fragment offset.
    pub open spec fn wf(self) -> bool {
        &&& self.version < 16
        &&& 5 <= self.ihl <= 15
        &&& self.flags < 8
        &&& self.frag_offset < 0x2000
    }
}

/// The twenty fixed header bytes of a header, big-endian, with
/// `version`/`ihl` and `flags`/`frag_offset` packed back into place.
pub open spec fn ip_header_bytes(h: IpPacket) -> Seq<u8> {
    seq![
        (h.version * 16 + h.ihl) as u8,
        h.tos,
        (h.total_len / 256) as u8,
        (h.total_len % 256) as u8,
        (h.id / 256) as u8,
        (h.id % 256) as u8,
        (h.flags * 32 + h.frag_offset / 256) as u8,
        (h.frag_offset % 256) as u8,
        h.ttl,
        h.protocol,
        (h.checksum / 256) as u8,
        (h.checksum % 256) as u8,
        h.src_ip.0,
        h.src_ip.1,
        h.src_ip.2,
        h.src_ip.3,
        h.dst_ip.0,
        h.dst_ip.1,
        h.dst_ip.2,
        h.dst_ip.3,
    ]
}

/// A header serialized into a buffer of `total_len` bytes: the twenty
/// header bytes, then zeros.  The caller owns the payload region.
pub open spec fn ip_encoded(h: IpPacket) -> Seq<u8>
    recommends
        h.total_len >= 20,
{
    ip_header_bytes(h) + Seq::new((h.total_len - 20) as nat, |i: int| 0u8)
}

impl IpPacket {
    /// Decodes an IPv4 header from the start of `buf`.
    pub fn new(buf: &[u8]) -> (r: Result<IpPacket, CodecError>)
        ensures
            match r {
                Ok(p) => ip_valid_buf(buf@) && p == ip_parsed(buf@) && p.wf(),
                Err(e) => !ip_valid_buf(buf@) && e == (if buf@.len() < 20 {
                    CodecError::TruncatedBuffer
                } else {
                    CodecError::InvalidHeaderLength
                }),
            },
    {
        if buf.len() < 20 {
            return Err(CodecError::TruncatedBuffer);
        }
        let ihl = buf[0] % 16;
        if ihl < 5 || buf.len() < 4 * (ihl as usize) {
            return Err(CodecError::InvalidHeaderLength);
        }
        Ok(
            IpPacket {
                version: buf[0] / 16,
                ihl,
                tos: buf[1],
                total_len: (buf[2] as u16) * 256 + (buf[3] as u16),
                id: (buf[4] as u16) * 256 + (buf[5] as u16),
                flags: buf[6] / 32,
                frag_offset: ((buf[6] % 32) as u16) * 256 + (buf[7] as u16),
                ttl: buf[8],
                protocol: buf[9],
                checksum: (buf[10] as u16) * 256 + (buf[11] as u16),
                src_ip: (buf[12], buf[13], buf[14], buf[15]),
                dst_ip: (buf[16], buf[17], buf[18], buf[19]),
            },
        )
    }

    /// Serializes the header into a fresh buffer of `total_len` bytes.
    /// The bytes after the fixed header are left zero for the caller to
    /// fill with the payload.
    pub fn encode(&self) -> (r: Result<Vec<u8>, CodecError>)
        requires
            self.wf(),
        ensures
            match r {
                Ok(v) => self.total_len >= 4 * self.ihl && v@ == ip_encoded(*self),
                Err(e) => e == CodecError::InvalidLength && self.total_len < 4 * self.ihl,
            },
    {
        if (self.total_len as usize) < 4 * (self.ihl as usize) {
            return Err(CodecError::InvalidLength);
        }
        let mut v: Vec<u8> = Vec::new();
        v.push(self.version * 16 + self.ihl);
        v.push(self.tos);
        v.push((self.total_len / 256) as u8);
        v.push((self.total_len % 256) as u8);
        v.push((self.id / 256) as u8);
        v.push((self.id % 256) as u8);
        v.push(self.flags * 32 + (self.frag_offset / 256) as u8);
        v.push((self.frag_offset % 256) as u8);
        v.push(self.ttl);
        v.push(self.protocol);
        v.push((self.checksum / 256) as u8);
        v.push((self.checksum % 256) as u8);
        v.push(self.src_ip.0);
        v.push(self.src_ip.1);
        v.push(self.src_ip.2);
        v.push(self.src_ip.3);
        v.push(self.dst_ip.0);
        v.push(self.dst_ip.1);
        v.push(self.dst_ip.2);
        v.push(self.dst_ip.3);
        proof {
            assert(v@ =~= ip_header_bytes(*self));
        }
        let n = self.total_len as usize;
        while v.len() < n
            invariant
                n == self.total_len,
                n >= 20,
                20 <= v@.len() <= n,
                v@.take(20) =~= ip_header_bytes(*self),
                forall|j: int| 20 <= j < v@.len() ==> v@[j] == 0,
            decreases n - v@.len(),
        {
            v.push(0);
        }
        proof {
            assert(v@ =~= ip_encoded(*self));
        }
        Ok(v)
    }
}

/// A decoded UDP header and its payload.
#[derive(Debug, Clone)]
pub struct UdpPacket {
    pub src_port: u16,
    pub dst_port: u16,
    pub len: u16,
    pub checksum: u16,
    pub data: Vec<u8>,
}

/// The mathematical view of a UDP packet: the header fields and the
/// payload as a byte sequence.
pub ghost struct UdpView {
    pub src_port: u16,
    pub dst_port: u16,
    pub len: u16,
    pub checksum: u16,
    pub data: Seq<u8>,
}

impl View for UdpPacket {
    type V = UdpView;

    open spec fn view(&self) -> UdpView {
        UdpView {
            src_port: self.src_port,
            dst_port: self.dst_port,
            len: self.len,
            checksum: self.checksum,
            data: self.data@,
        }
    }
}

/// A buffer holds a valid UDP packet: room for the header, and a length
/// field that matches the buffer (the length field counts header plus
/// payload).
pub open spec fn udp_valid_buf(b: Seq<u8>) -> bool {
    &&& b.len() >= 8
    &&& be16(b[4], b[5]) == b.len()
}

/// The packet parsed from a buffer: four big-endian header fields, then
/// the payload.
pub open spec fn udp_parsed(b: Seq<u8>) -> UdpView {
    UdpView {
        src_port: be16(b[0], b[1]),
        dst_port: be16(b[2], b[3]),
        len: be16(b[4], b[5]),
        checksum: be16(b[6], b[7]),
        data: b.skip(8),
    }
}

/// A packet serialized back to bytes: the four header fields big-endian,
/// then the payload verbatim.
pub open spec fn udp_bytes(u: UdpView) -> Seq<u8> {
    seq![
        (u.src_port / 256) as u8,
        (u.src_port % 256) as u8,
        (u.dst_port / 256) as u8,
        (u.dst_port % 256) as u8,
        (u.len / 256) as u8,
        (u.len % 256) as u8,
        (u.checksum / 256) as u8,
        (u.checksum % 256) as u8,
    ] + u.data
}

impl UdpPacket {
    /// Decodes a UDP packet from the whole of `buf`.  The length field
    /// must match the buffer: the caller delimits the packet (the
    /// enclosing IPv4 header's lengths decide it), and the two must
    /// agree.
    pub fn new(buf: &[u8]) -> (r: Result<UdpPacket, CodecError>)
        ensures
            match r {
                Ok(p) => udp_valid_buf(buf@) && p@ == udp_parsed(buf@),
                Err(e) => !udp_valid_buf(buf@) && e == (if buf@.len() < 8 {
                    CodecError::TruncatedBuffer
                } else {
                    CodecError::InvalidHeaderLength
                }),
            },
    {
        if buf.len() < 8 {
            return Err(CodecError::TruncatedBuffer);
        }
        let len = (buf[4] as u16) * 256 + (buf[5] as u16);
        if (len as usize) != buf.len() {
            return Err(CodecError::InvalidHeaderLength);
        }
        let data = slice_to_vec(slice_subrange(buf, 8, buf.len()));
        Ok(
            UdpPacket {
                src_port: (buf[0] as u16) * 256 + (buf[1] as u16),
                dst_port: (buf[2] as u16) * 256 + (buf[3] as u16),
                len,
                checksum: (buf[6] as u16) * 256 + (buf[7] as u16),
                data,
            },
        )
    }

    /// Serializes the packet into a fresh buffer of `len` bytes.
    pub fn encode(&self) -> (r: Result<Vec<u8>, CodecError>)
        ensures
            match r {
                Ok(v) => self.len == 8 + self.data@.len() && v@ == udp_bytes(self@),
                Err(e) => e == CodecError::InvalidLength && self.len != 8 + self.data@.len(),
            },
    {
        if self.len < 8 || (self.len - 8) as usize != self.data.len() {
            return Err(CodecError::InvalidLength);
        }
        let mut v: Vec<u8> = Vec::new();
        v.push((self.src_port / 256) as u8);
        v.push((self.src_port % 256) as u8);
        v.push((self.dst_port / 256) as u8);
        v.push((self.dst_port % 256) as u8);
        v.push((self.len / 256) as u8);
        v.push((self.len % 256) as u8);
        v.push((self.checksum / 256) as u8);
        v.push((self.checksum % 256) as u8);
        let mut k: usize = 0;
        while k < self.data.len()
            invariant
                k <= self.data@.len(),
                v@.len() == 8 + k,
                forall|j: int| 0 <= j < 8 ==> v@[j] == udp_bytes(self@)[j],
                forall|j: int| 8 <= j < v@.len() ==> v@[j] == self.data@[j - 8],
            decreases self.data@.len() - k,
        {
            v.push(self.data[k]);
            k = k + 1;
        }
        proof {
            assert(v@ =~= udp_bytes(self@));
        }
        Ok(v)
    }
}

/// The ten 16-bit big-endian words of the twenty fixed header bytes,
/// over which the IPv4 header checksum is computed.
pub open spec fn ip_header_words(h: IpPacket) -> Seq<u16> {
    seq![
        be16((h.version * 16 + h.ihl) as u8, h.tos),
        h.total_len,
        h.id,
        (h.flags * 0x2000 + h.frag_offset) as u16,
        be16(h.ttl, h.protocol),
        h.checksum,
        be16(h.src_ip.0, h.src_ip.1),
        be16(h.src_ip.2, h.src_ip.3),
        be16(h.dst_ip.0, h.dst_ip.1),
        be16(h.dst_ip.2, h.dst_ip.3),
    ]
}

/// The header with its endpoints exchanged and its checksum cleared.
pub open spec fn ip_swapped(h: IpPacket) -> IpPacket {
    IpPacket { checksum: 0u16, src_ip: h.dst_ip, dst_ip: h.src_ip, ..h }
}

/// The echoed header: endpoints exchanged, checksum recomputed over the
/// header words (with the checksum word zero).
pub open spec fn ip_echoed(h: IpPacket) -> IpPacket {
    IpPacket { checksum: checksum_spec(ip_header_words(ip_swapped(h))), ..ip_swapped(h) }
}

/// The words over which the UDP checksum is computed: the pseudo-header
/// (source address, destination address, a zero byte with the UDP
/// protocol number, the UDP length), then the UDP header with its
/// checksum word zero, then the payload, an unpaired final byte padded
/// with a zero low byte.
pub open spec fn udp_checksum_words(src: (u8, u8, u8, u8), dst: (u8, u8, u8, u8), u: UdpView) -> Seq<u16> {
    seq![
        be16(src.0, src.1),
        be16(src.2, src.3),
        be16(dst.0, dst.1),
        be16(dst.2, dst.3),
        17u16,
        u.len,
        u.src_port,
        u.dst_port,
        u.len,
        0u16,
    ] + words_of_bytes(u.data)
}

/// The packet with its ports exchanged and its checksum cleared.
pub open spec fn udp_swapped(u: UdpView) -> UdpView {
    UdpView { src_port: u.dst_port, dst_port: u.src_port, checksum: 0u16, ..u }
}

/// The echoed packet: ports exchanged, checksum recomputed over the
/// pseudo-header built from the echoed datagram's addresses.
pub open spec fn udp_echoed(u: UdpView, src: (u8, u8, u8, u8), dst: (u8, u8, u8, u8)) -> UdpView {
    UdpView { checksum: checksum_spec(udp_checksum_words(src, dst, udp_swapped(u))), ..udp_swapped(u) }
}

/// The bytes of a whole echoed datagram: the echoed IPv4 header (with a
/// zero options region), then the echoed UDP packet.
pub open spec fn echo_bytes(ip: IpPacket, u: UdpView) -> Seq<u8> {
    ip_encoded(ip_echoed(ip)).take(4 * ip.ihl as int)
        + udp_bytes(udp_echoed(u, ip.dst_ip, ip.src_ip))
}

/// Builds the response to one echo request: swaps the addresses of the
/// IPv4 header and the ports of the UDP packet, recomputes both
/// checksums over the swapped headers, and serializes the result as one
/// datagram.
pub fn udp_echo(ip_packet: IpPacket, udp_packet: UdpPacket) -> (r: Vec<u8>)
    requires
        ip_packet.wf(),
        udp_packet.len == 8 + udp_packet.data@.len(),
        ip_packet.total_len == 4 * ip_packet.ihl + udp_packet.len,
    ensures
        r@ == echo_bytes(ip_packet, udp_packet@),
{
    let mut ip = ip_packet;
    ip.checksum = 0;
    let addr = ip.src_ip;
    ip.src_ip = ip.dst_ip;
    ip.dst_ip = addr;
    let mut ws: Vec<u16> = Vec::new();
    ws.push(be16_join(ip.version * 16 + ip.ihl, ip.tos));
    ws.push(ip.total_len);
    ws.push(ip.id);
    ws.push((ip.flags as u16) * 0x2000 + ip.frag_offset);
    ws.push(be16_join(ip.ttl, ip.protocol));
    ws.push(ip.checksum);
    ws.push(be16_join(ip.src_ip.0, ip.src_ip.1));
    ws.push(be16_join(ip.src_ip.2, ip.src_ip.3));
    ws.push(be16_join(ip.dst_ip.0, ip.dst_ip.1));
    ws.push(be16_join(ip.dst_ip.2, ip.dst_ip.3));
    proof {
        assert(ip == ip_swapped(ip_packet));
        assert(ws@ =~= ip_header_words(ip_swapped(ip_packet)));
    }
    ip.checksum = checksum_words(ws.as_slice());
    proof {
        assert(ip == ip_echoed(ip_packet));
    }

    let mut udp = udp_packet;
    udp.checksum = 0;
    let port = udp.src_port;
    udp.src_port = udp.dst_port;
    udp.dst_port = port;
    let mut uws: Vec<u16> = Vec::new();
    uws.push(be16_join(ip.src_ip.0, ip.src_ip.1));
    uws.push(be16_join(ip.src_ip.2, ip.src_ip.3));
    uws.push(be16_join(ip.dst_ip.0, ip.dst_ip.1));
    uws.push(be16_join(ip.dst_ip.2, ip.dst_ip.3));
    uws.push(17);
    uws.push(udp.len);
    uws.push(udp.src_port);
    uws.push(udp.dst_port);
    uws.push(udp.len);
    uws.push(udp.checksum);
    let mut dws = words_from_bytes(udp.data.as_slice());
    uws.append(&mut dws);
    proof {
        assert(udp@ == udp_swapped(udp_packet@));
        assert(uws@ =~= udp_checksum_words(
            ip_packet.dst_ip,
            ip_packet.src_ip,
            udp_swapped(udp_packet@),
        ));
    }
    udp.checksum = checksum_words(uws.as_slice());
    proof {
        assert(udp@ == udp_echoed(udp_packet@, ip_packet.dst_ip, ip_packet.src_ip));
    }

    let mut out = match ip.encode() {
        Ok(v) => v,
        Err(_) => unreached(),
    };
    out.truncate(4 * (ip.ihl as usize));
    let mut tail = match udp.encode() {
        Ok(v) => v,
        Err(_) => unreached(),
    };
    out.append(&mut tail);
    proof {
        assert(out@ =~= echo_bytes(ip_packet, udp_packet@));
    }
    out
}

/// The declared total length of the datagram in a buffer.
pub open spec fn total_of(b: Seq<u8>) -> int {
    be16(b[2], b[3]) as int
}

/// The IPv4 payload: the bytes between the end of the IPv4 header and
/// the declared total length.
pub open spec fn ip_payload(b: Seq<u8>) -> Seq<u8> {
    b.subrange(4 * ihl_of(b), total_of(b))
}

/// The error with which decoding a whole datagram fails, or `None` where
/// it succeeds.
pub open spec fn datagram_error(b: Seq<u8>) -> Option<CodecError> {
    if b.len() < 20 {
        Some(CodecError::TruncatedBuffer)
    } else if !ip_valid_buf(b) {
        Some(CodecError::InvalidHeaderLength)
    } else if total_of(b) < 4 * ihl_of(b) {
        Some(CodecError::InvalidHeaderLength)
    } else if b.len() < total_of(b) {
        Some(CodecError::TruncatedBuffer)
    } else if ip_payload(b).len() < 8 {
        Some(CodecError::TruncatedBuffer)
    } else if !udp_valid_buf(ip_payload(b)) {
        Some(CodecError::InvalidHeaderLength)
    } else {
        None
    }
}

/// Processes one raw datagram: decodes the IPv4 header, slices out
/// exactly the declared payload, decodes the UDP packet, and builds the
/// echoed response.  A malformed datagram is reported and never stops
/// the caller: every buffer gets either a response or an error.
pub fn echo_datagram(buf: &[u8]) -> (r: Result<Vec<u8>, CodecError>)
    ensures
        match r {
            Ok(v) => datagram_error(buf@) is None && v@ == echo_bytes(
                ip_parsed(buf@),
                udp_parsed(ip_payload(buf@)),
            ),
            Err(e) => datagram_error(buf@) == Some(e),
        },
{
    let ip = match IpPacket::new(buf) {
        Ok(p) => p,
        Err(e) => {
            return Err(e);
        },
    };
    let hl = 4 * (ip.ihl as usize);
    let tl = ip.total_len as usize;
    if tl < hl {
        return Err(CodecError::InvalidHeaderLength);
    }
    if buf.len() < tl {
        return Err(CodecError::TruncatedBuffer);
    }
    let payload = slice_subrange(buf, hl, tl);
    let udp = match UdpPacket::new(payload) {
        Ok(p) => p,
        Err(e) => {
            return Err(e);
        },
    };
    Ok(udp_echo(ip, udp))
}

/// Law: round trip.  A syntactically valid IPv4 header buffer whose
/// declared total length is the buffer's own length, and whose bytes
/// past the twenty fixed header bytes are zero, re-serializes to itself
/// after decoding.  (The decoded header does not keep option or payload
/// bytes, so a nonzero byte there is not restored by `encode`.)
pub proof fn lemma_ip_round_trip(b: Seq<u8>)
    requires
        ip_valid_buf(b),
        total_of(b) == b.len(),
        forall|j: int| 20 <= j < b.len() ==> b[j] == 0,
    ensures
        ip_encoded(ip_parsed(b)) == b,
{
    let h = ip_parsed(b);
    assert(h.total_len == b[2] * 256 + b[3]);
    assert((h.total_len / 256) as u8 == b[2] && (h.total_len % 256) as u8 == b[3]);
    assert((h.id / 256) as u8 == b[4] && (h.id % 256) as u8 == b[5]);
    assert((h.checksum / 256) as u8 == b[10] && (h.checksum % 256) as u8 == b[11]);
    assert((h.version * 16 + h.ihl) as u8 == b[0]);
    assert(h.frag_offset == (b[6] % 32) * 256 + b[7]);
    assert((h.frag_offset / 256) as u8 == b[6] % 32 && (h.frag_offset % 256) as u8 == b[7]);
    assert((h.flags * 32 + h.frag_offset / 256) as u8 == b[6]);
    assert(ip_encoded(h) =~= b);
}

/// The checksum words of a header are its header bytes read as words:
/// the IPv4 header checksum over the words is the Internet checksum of
/// the serialized header.
pub proof fn lemma_ip_words_of_header_bytes(h: IpPacket)
    requires
        h.wf(),
    ensures
        words_of_bytes(ip_header_bytes(h)) == ip_header_words(h),
{
    let bs = ip_header_bytes(h);
    assert(h.total_len / 256 < 256 && h.total_len == (h.total_len / 256) * 256 + h.total_len % 256);
    assert(h.id == (h.id / 256) * 256 + h.id % 256);
    assert(h.checksum == (h.checksum / 256) * 256 + h.checksum % 256);
    assert(h.frag_offset == (h.frag_offset / 256) * 256 + h.frag_offset % 256);
    assert(be16(bs[6], bs[7]) == (h.flags * 0x2000 + h.frag_offset) as u16);
    assert(words_of_bytes(bs) =~= ip_header_words(h));
}

/// Law: checksum validity.  Store into a header (whose checksum field is
/// zero) the checksum computed over its words; recomputing the checksum
/// over the stored header's words then yields zero.  Validating a
/// received header is recomputing over it unmodified and comparing to
/// zero.
pub proof fn lemma_ip_checksum_validates(h: IpPacket)
    requires
        h.checksum == 0,
    ensures
        checksum_spec(
            ip_header_words(IpPacket { checksum: checksum_spec(ip_header_words(h)), ..h }),
        ) == 0,
{
    let c = checksum_spec(ip_header_words(h));
    assert(ip_header_words(IpPacket { checksum: c, ..h }) =~= ip_header_words(h).update(5, c));
    lemma_checksum_validates(ip_header_words(h), 5);
}

} // verus!
