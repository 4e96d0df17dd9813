use tun_echo::checksum::{checksum_bytes, checksum_words, words_from_bytes};
use tun_echo::protocol::{echo_datagram, udp_echo, CodecError, IpPacket, UdpPacket};

/// A well-formed 20-byte IPv4 header with the given addresses, no
/// options, total length `total_len`, protocol UDP, checksum zero.
fn header_bytes(total_len: u16, src: [u8; 4], dst: [u8; 4]) -> Vec<u8> {
    let mut b = vec![
        0x45, 0x00, 0x00, 0x00, 0x1c, 0x46, 0x40, 0x00, 0x40, 0x11, 0x00, 0x00,
    ];
    b[2] = (total_len / 256) as u8;
    b[3] = (total_len % 256) as u8;
    b.extend_from_slice(&src);
    b.extend_from_slice(&dst);
    b
}

/// A whole UDP-over-IPv4 echo request datagram.
fn datagram(src: [u8; 4], dst: [u8; 4], src_port: u16, dst_port: u16, payload: &[u8]) -> Vec<u8> {
    let udp_len = 8 + payload.len() as u16;
    let mut b = header_bytes(20 + udp_len, src, dst);
    for p in [src_port, dst_port, udp_len, 0u16] {
        b.push((p / 256) as u8);
        b.push((p % 256) as u8);
    }
    b.extend_from_slice(payload);
    b
}

#[test]
fn test_ip_round_trip() {
    let b = header_bytes(20, [10, 1, 1, 5], [10, 1, 1, 2]);
    let h = IpPacket::new(&b).unwrap();
    assert_eq!(h.version, 4);
    assert_eq!(h.ihl, 5);
    assert_eq!(h.total_len, 20);
    assert_eq!(h.id, 0x1c46);
    assert_eq!(h.flags, 2);
    assert_eq!(h.frag_offset, 0);
    assert_eq!(h.ttl, 64);
    assert_eq!(h.protocol, 17);
    assert_eq!(h.src_ip, (10, 1, 1, 5));
    assert_eq!(h.dst_ip, (10, 1, 1, 2));
    let e = h.encode().unwrap();
    assert_eq!(e, b);
}

#[test]
fn test_udp_round_trip() {
    let mut b = vec![0x13, 0x88, 0x00, 0x07, 0x00, 0x0b, 0x00, 0x00];
    b.extend_from_slice(&[0xde, 0xad, 0xff]);
    let p = UdpPacket::new(&b).unwrap();
    assert_eq!(p.src_port, 5000);
    assert_eq!(p.dst_port, 7);
    assert_eq!(p.len, 11);
    assert_eq!(p.checksum, 0);
    assert_eq!(p.data, vec![0xde, 0xad, 0xff]);
    let e = p.encode().unwrap();
    assert_eq!(e, b);
}

#[test]
fn test_checksum_known_vector() {
    // The classic RFC 1071 worked example: a TCP/IPv4 header from
    // 172.16.10.99 to 172.16.10.12 with the checksum field zeroed.
    let h: [u8; 20] = [
        0x45, 0x00, 0x00, 0x3c, 0x1c, 0x46, 0x40, 0x00, 0x40, 0x06, 0x00, 0x00, 0xac, 0x10,
        0x0a, 0x63, 0xac, 0x10, 0x0a, 0x0c,
    ];
    assert_eq!(checksum_bytes(&h), 0xb1e6);
}

#[test]
fn test_checksum_validates_to_zero() {
    // Computing the checksum with the checksum word zero, storing it,
    // and recomputing over the stored words yields zero.
    let mut ws: Vec<u16> = vec![
        0x4500, 0x003c, 0x1c46, 0x4000, 0x4011, 0x0000, 0xc0a8, 0x0001, 0xc0a8, 0x00c7,
    ];
    let c = checksum_words(&ws);
    ws[5] = c;
    assert_eq!(checksum_words(&ws), 0);
}

#[test]
fn test_checksum_empty_and_fold() {
    // No words: the complement of zero.
    assert_eq!(checksum_words(&[]), 0xffff);
    // A sum with a carry: 0xffff + 0x0001 folds to 0x0001.
    assert_eq!(checksum_words(&[0xffff, 0x0001]), 0xfffe);
}

#[test]
fn test_odd_payload_words() {
    // An odd-length payload is read as words with a zero-padded low byte.
    let ws = words_from_bytes(&[0x01, 0x02, 0x03]);
    assert_eq!(ws, vec![0x0102, 0x0300]);
    assert_eq!(checksum_bytes(&[0x01, 0x02, 0x03]), checksum_words(&[0x0102, 0x0300]));
}

#[test]
fn test_echo_swaps_endpoints() {
    let req = datagram([10, 1, 1, 5], [10, 1, 1, 2], 5000, 7, b"ping");
    let resp = echo_datagram(&req).unwrap();
    assert_eq!(resp.len(), req.len());
    let ip = IpPacket::new(&resp).unwrap();
    assert_eq!(ip.src_ip, (10, 1, 1, 2));
    assert_eq!(ip.dst_ip, (10, 1, 1, 5));
    assert_eq!(ip.total_len as usize, resp.len());
    let udp = UdpPacket::new(&resp[20..]).unwrap();
    assert_eq!(udp.src_port, 7);
    assert_eq!(udp.dst_port, 5000);
    assert_eq!(udp.len, 12);
    assert_eq!(udp.data, b"ping".to_vec());
}

#[test]
fn test_echo_checksums_validate() {
    let req = datagram([10, 1, 1, 5], [10, 1, 1, 2], 5000, 7, b"abc");
    let resp = echo_datagram(&req).unwrap();
    // The IPv4 header checksum of the response validates to zero.
    assert_ne!(IpPacket::new(&resp).unwrap().checksum, 0);
    assert_eq!(checksum_bytes(&resp[..20]), 0);
    // So does the UDP checksum over pseudo-header plus UDP packet.
    let udp_len = (resp.len() - 20) as u16;
    let mut ws: Vec<u16> = vec![
        0x0a01, 0x0102, // source address 10.1.1.2
        0x0a01, 0x0105, // destination address 10.1.1.5
        0x0011, udp_len,
    ];
    ws.extend_from_slice(&words_from_bytes(&resp[20..]));
    assert_eq!(checksum_words(&ws), 0);
}

#[test]
fn test_udp_echo_direct() {
    let ip = IpPacket::new(&header_bytes(31, [10, 1, 1, 5], [10, 1, 1, 2])).unwrap();
    let udp = UdpPacket {
        src_port: 5000,
        dst_port: 7,
        len: 11,
        checksum: 0x1234,
        data: vec![1, 2, 3],
    };
    let out = udp_echo(ip, udp);
    assert_eq!(out.len(), 31);
    let ip2 = IpPacket::new(&out).unwrap();
    assert_eq!(ip2.src_ip, (10, 1, 1, 2));
    assert_eq!(ip2.dst_ip, (10, 1, 1, 5));
    let udp2 = UdpPacket::new(&out[20..]).unwrap();
    assert_eq!(udp2.src_port, 7);
    assert_eq!(udp2.dst_port, 5000);
    assert_eq!(udp2.data, vec![1, 2, 3]);
}

#[test]
fn test_truncated_buffer_rejected() {
    let b = [0u8; 19];
    assert_eq!(IpPacket::new(&b).unwrap_err(), CodecError::TruncatedBuffer);
    assert_eq!(echo_datagram(&b), Err(CodecError::TruncatedBuffer));
}

#[test]
fn test_invalid_ihl_rejected() {
    // IHL of four words is below the minimum of five.
    let mut b = header_bytes(20, [10, 1, 1, 5], [10, 1, 1, 2]);
    b[0] = 0x44;
    assert_eq!(IpPacket::new(&b).unwrap_err(), CodecError::InvalidHeaderLength);
    // IHL of fifteen words does not fit a twenty-byte buffer.
    b[0] = 0x4f;
    assert_eq!(IpPacket::new(&b).unwrap_err(), CodecError::InvalidHeaderLength);
}

#[test]
fn test_datagram_length_errors() {
    // Total length shorter than the header itself.
    let b = header_bytes(16, [10, 1, 1, 5], [10, 1, 1, 2]);
    assert_eq!(echo_datagram(&b), Err(CodecError::InvalidHeaderLength));
    // Total length larger than the buffer.
    let b = header_bytes(40, [10, 1, 1, 5], [10, 1, 1, 2]);
    assert_eq!(echo_datagram(&b), Err(CodecError::TruncatedBuffer));
    // No room for a UDP header inside the declared payload.
    let mut b = header_bytes(24, [10, 1, 1, 5], [10, 1, 1, 2]);
    b.extend_from_slice(&[0u8; 4]);
    assert_eq!(echo_datagram(&b), Err(CodecError::TruncatedBuffer));
}

#[test]
fn test_udp_decode_errors() {
    assert_eq!(UdpPacket::new(&[0u8; 7]).unwrap_err(), CodecError::TruncatedBuffer);
    // Length field disagrees with the buffer handed in.
    let b = [0x13, 0x88, 0x00, 0x07, 0x00, 0x0d, 0x00, 0x00, 0xaa, 0xbb, 0xcc, 0xdd];
    assert_eq!(UdpPacket::new(&b).unwrap_err(), CodecError::InvalidHeaderLength);
}

#[test]
fn test_encode_errors() {
    let mut h = IpPacket::new(&header_bytes(20, [10, 1, 1, 5], [10, 1, 1, 2])).unwrap();
    h.total_len = 19;
    assert_eq!(h.encode(), Err(CodecError::InvalidLength));
    let p = UdpPacket { src_port: 1, dst_port: 2, len: 12, checksum: 0, data: vec![9] };
    assert_eq!(p.encode(), Err(CodecError::InvalidLength));
}

#[test]
fn test_malformed_then_wellformed() {
    // One truncated datagram is reported as an error and does not keep
    // the next, well-formed one from being echoed.
    let bad = [0x45u8; 10];
    assert_eq!(echo_datagram(&bad), Err(CodecError::TruncatedBuffer));
    let good = datagram([10, 1, 1, 5], [10, 1, 1, 2], 5000, 7, b"again");
    let resp = echo_datagram(&good).unwrap();
    let ip = IpPacket::new(&resp).unwrap();
    assert_eq!(ip.src_ip, (10, 1, 1, 2));
    assert_eq!(ip.dst_ip, (10, 1, 1, 5));
}
