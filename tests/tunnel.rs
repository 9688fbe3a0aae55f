use udp_over_tcp::client::handle_tcp_data;
use udp_over_tcp::endpoint::Endpoint;
use udp_over_tcp::framer::{Deframer, MAX_BODY};
use udp_over_tcp::packets::{decode_udp_packet, encode_udp_packet, DecodeError};
use udp_over_tcp::server::{ServerAction, ServerConnection};

fn buffer(payload: &[u8]) -> [u8; 65535] {
    let mut buf = [0u8; 65535];
    buf[..payload.len()].copy_from_slice(payload);
    buf
}

fn encode(payload: &[u8], addr: Endpoint) -> Vec<u8> {
    encode_udp_packet(buffer(payload), payload.len(), addr)
}

fn local(port: u16) -> Endpoint {
    Endpoint::v4([127, 0, 0, 1], port)
}

fn scenario_frame() -> Vec<u8> {
    vec![0x00, 0x00, 0x00, 0x0A, 0x04, 0x7F, 0x00, 0x00, 0x01, 0x9C, 0x40, 0x01, 0x02, 0x03]
}

#[test]
fn client_frames_datagram() {
    assert_eq!(encode(&[0x01, 0x02, 0x03], local(40000)), scenario_frame());
}

#[test]
fn encode_ignores_bytes_past_size() {
    let buf = buffer(&[0x01, 0x02, 0x03, 0x04]);
    assert_eq!(encode_udp_packet(buf, 3, local(40000)), scenario_frame());
}

#[test]
fn minimum_body_is_seven_bytes() {
    let frame = encode(&[], Endpoint::v4([10, 0, 0, 2], 53));
    assert_eq!(frame, vec![0, 0, 0, 7, 4, 10, 0, 0, 2, 0, 53]);
    assert_eq!(decode_udp_packet(frame[4..].to_vec()), Ok((Endpoint::v4([10, 0, 0, 2], 53), vec![])));
}

#[test]
fn largest_ipv4_datagram_is_accepted() {
    let payload = vec![0x5Au8; 65507];
    let frame = encode(&payload, local(40000));
    assert_eq!(&frame[..4], &[0x00, 0x00, 0xFF, 0xEA]);
    assert_eq!(frame.len(), 4 + 65514);
    let mut deframer = Deframer::new(MAX_BODY);
    let bodies = deframer.feed(&frame);
    assert_eq!(bodies.len(), 1);
    assert_eq!(bodies[0].len(), 65514);
    assert!(!deframer.is_failed());
    assert_eq!(decode_udp_packet(bodies[0].clone()), Ok((local(40000), payload)));
}

#[test]
fn full_receive_buffer_fits_the_limit() {
    let v6 = Endpoint::v6([0xFE, 0x80, 0, 0, 0, 0, 0, 0, 0, 0, 0, 0, 0, 0, 0, 1], 443);
    let frame = encode_udp_packet([7u8; 65535], 65535, v6);
    assert_eq!(frame.len() as u32, 4 + MAX_BODY);
    let mut deframer = Deframer::new(MAX_BODY);
    let bodies = deframer.feed(&frame);
    assert_eq!(bodies.len(), 1);
    assert_eq!(decode_udp_packet(bodies[0].clone()), Ok((v6, vec![7u8; 65535])));
}

#[test]
fn decode_inverts_encode_v4_and_v6() {
    let cases = vec![
        (local(1), vec![]),
        (Endpoint::v4([192, 168, 1, 20], 65535), vec![1, 2, 3, 4, 5]),
        (Endpoint::v6([0x20, 0x01, 0x0d, 0xb8, 0, 0, 0, 0, 0, 0, 0, 0, 0, 0, 0, 0x42], 8080), vec![0xFF; 300]),
    ];
    for (addr, payload) in cases {
        let frame = encode(&payload, addr);
        assert_eq!(decode_udp_packet(frame[4..].to_vec()), Ok((addr, payload)));
    }
}

#[test]
fn ipv6_frame_layout() {
    let mut ip = [0u8; 16];
    ip[15] = 1;
    let frame = encode(&[0xAB], Endpoint::v6(ip, 0x1234));
    let mut expected = vec![0, 0, 0, 20, 6];
    expected.extend_from_slice(&ip);
    expected.extend_from_slice(&[0x12, 0x34, 0xAB]);
    assert_eq!(frame, expected);
}

#[test]
fn decode_rejects_bad_version() {
    assert_eq!(decode_udp_packet(vec![0x05, 1, 2, 3, 4, 5, 6, 7]), Err(DecodeError::BadVersion(5)));
}

#[test]
fn decode_rejects_truncated_bodies() {
    assert_eq!(decode_udp_packet(vec![]), Err(DecodeError::Truncated));
    assert_eq!(decode_udp_packet(vec![4, 127, 0, 0, 1, 0x9C]), Err(DecodeError::Truncated));
    assert_eq!(decode_udp_packet(vec![6, 0, 0, 0, 0, 0, 0, 0, 0, 0, 0, 0, 0, 0, 0, 0, 1, 0]), Err(DecodeError::Truncated));
}

#[test]
fn server_opens_flow_for_new_origin() {
    let mut conn = ServerConnection::new(9000, false, MAX_BODY);
    let bodies = conn.deframer.feed(&scenario_frame());
    assert_eq!(bodies.len(), 1);
    let action = conn.route(bodies[0].clone());
    assert_eq!(action, ServerAction::Open { origin: local(40000), bind_port: 0, payload: vec![0x01, 0x02, 0x03] });
    assert_eq!(conn.downstream(), local(9000));
}

#[test]
fn server_reuses_flow_for_known_origin() {
    let mut conn = ServerConnection::new(9000, false, MAX_BODY);
    let bodies = conn.deframer.feed(&scenario_frame());
    if let ServerAction::Open { origin, .. } = conn.route(bodies[0].clone()) {
        assert_eq!(conn.flows.insert(origin), 0);
    } else {
        panic!("expected a new flow");
    }
    let bodies = conn.deframer.feed(&scenario_frame());
    assert_eq!(conn.route(bodies[0].clone()), ServerAction::Forward { flow: 0, payload: vec![0x01, 0x02, 0x03] });
    assert_eq!(conn.flows.len(), 1);
}

#[test]
fn server_reply_is_tagged_with_origin() {
    let mut conn = ServerConnection::new(9000, false, MAX_BODY);
    let flow = conn.flows.insert(local(40000));
    let reply = encode(&[0xAA, 0xBB], conn.flows.origin(flow));
    assert_eq!(reply, vec![0x00, 0x00, 0x00, 0x09, 0x04, 0x7F, 0x00, 0x00, 0x01, 0x9C, 0x40, 0xAA, 0xBB]);
}

#[test]
fn single_byte_reads_match_one_read() {
    let mut whole = Deframer::new(MAX_BODY);
    let expected = whole.feed(&scenario_frame());
    let mut bytewise = Deframer::new(MAX_BODY);
    let mut got = Vec::new();
    for b in scenario_frame() {
        got.extend(bytewise.feed(&[b]));
    }
    assert_eq!(got, expected);
    assert_eq!(bytewise.pending_len(), 0);
    let conn = ServerConnection::new(9000, false, MAX_BODY);
    assert_eq!(conn.route(got[0].clone()), conn.route(expected[0].clone()));
}

#[test]
fn split_at_every_offset() {
    let frame = scenario_frame();
    for k in 1..frame.len() {
        let mut deframer = Deframer::new(MAX_BODY);
        let mut got = deframer.feed(&frame[..k]);
        assert!(got.is_empty());
        got.extend(deframer.feed(&frame[k..]));
        assert_eq!(got, vec![frame[4..].to_vec()]);
    }
}

#[test]
fn concatenated_frames_in_any_chunks() {
    let frames = vec![
        encode(&[1, 2, 3], local(40000)),
        encode(&[], local(40001)),
        encode(&[9; 40], Endpoint::v6([1; 16], 7)),
    ];
    let stream: Vec<u8> = frames.concat();
    for step in 1..20 {
        let mut deframer = Deframer::new(MAX_BODY);
        let mut got = Vec::new();
        for chunk in stream.chunks(step) {
            got.extend(deframer.feed(chunk));
        }
        let expected: Vec<Vec<u8>> = frames.iter().map(|f| f[4..].to_vec()).collect();
        assert_eq!(got, expected);
    }
}

#[test]
fn coalesced_read_yields_every_frame() {
    let mut stream = scenario_frame();
    stream.extend(encode(&[4, 5], local(40001)));
    stream.extend(&[0, 0]);
    let mut deframer = Deframer::new(MAX_BODY);
    let bodies = deframer.feed(&stream);
    assert_eq!(bodies.len(), 2);
    assert_eq!(deframer.pending_len(), 2);
}

#[test]
fn bad_version_is_dropped_and_connection_goes_on() {
    let mut conn = ServerConnection::new(9000, false, MAX_BODY);
    let mut stream = vec![0, 0, 0, 7, 0x05, 1, 2, 3, 4, 5, 6];
    stream.extend(scenario_frame());
    let bodies = conn.deframer.feed(&stream);
    assert_eq!(bodies.len(), 2);
    assert_eq!(conn.route(bodies[0].clone()), ServerAction::Drop(DecodeError::BadVersion(5)));
    assert!(!conn.deframer.is_failed());
    assert_eq!(
        conn.route(bodies[1].clone()),
        ServerAction::Open { origin: local(40000), bind_port: 0, payload: vec![1, 2, 3] }
    );
}

#[test]
fn zero_length_header_is_skipped() {
    let mut deframer = Deframer::new(MAX_BODY);
    let mut stream = vec![0, 0, 0, 0];
    stream.extend(scenario_frame());
    assert_eq!(deframer.feed(&stream), vec![scenario_frame()[4..].to_vec()]);
}

#[test]
fn oversized_header_fails_the_stream() {
    let mut deframer = Deframer::new(100);
    let mut stream = scenario_frame();
    stream.extend(&[0, 0, 0, 101, 4]);
    let bodies = deframer.feed(&stream);
    assert_eq!(bodies.len(), 1);
    assert!(deframer.is_failed());
    assert!(deframer.feed(&scenario_frame()).is_empty());
}

#[test]
fn two_origins_get_their_own_flows() {
    let mut conn = ServerConnection::new(9000, false, MAX_BODY);
    let mut stream = encode(&[1], local(40000));
    stream.extend(encode(&[2], local(40001)));
    stream.extend(encode(&[3], local(40000)));
    let bodies = conn.deframer.feed(&stream);
    assert_eq!(bodies.len(), 3);
    let mut flows = Vec::new();
    for body in bodies {
        match conn.route(body) {
            ServerAction::Open { origin, .. } => flows.push(conn.flows.insert(origin)),
            ServerAction::Forward { flow, .. } => flows.push(flow),
            ServerAction::Drop(e) => panic!("unexpected drop: {:?}", e),
        }
    }
    assert_eq!(flows, vec![0, 1, 0]);
    assert_eq!(conn.flows.len(), 2);
    assert_eq!(conn.flows.find(&local(40001)), Some(1));
    let reply_a = encode(&[0xAA], conn.flows.origin(0));
    let reply_b = encode(&[0xBB], conn.flows.origin(1));
    assert_eq!(decode_udp_packet(reply_a[4..].to_vec()), Ok((local(40000), vec![0xAA])));
    assert_eq!(decode_udp_packet(reply_b[4..].to_vec()), Ok((local(40001), vec![0xBB])));
}

#[test]
fn port_remapping_disabled_binds_to_downstream_port() {
    let conn = ServerConnection::new(9000, true, MAX_BODY);
    assert_eq!(conn.bind_port(), 9000);
    assert_eq!(ServerConnection::new(9000, false, MAX_BODY).bind_port(), 0);
    let bodies = vec![scenario_frame()[4..].to_vec()];
    assert_eq!(
        conn.route(bodies[0].clone()),
        ServerAction::Open { origin: local(40000), bind_port: 9000, payload: vec![1, 2, 3] }
    );
}

#[test]
fn end_to_end_echo_returns_payload_to_sender() {
    let sender = Endpoint::v4([192, 168, 0, 9], 5353);
    let payload = vec![0x10, 0x20, 0x30, 0x40];
    // client frames the datagram
    let upstream = encode(&payload, sender);
    // server routes it
    let mut conn = ServerConnection::new(9000, false, MAX_BODY);
    let bodies = conn.deframer.feed(&upstream);
    let (flow, sent) = match conn.route(bodies[0].clone()) {
        ServerAction::Open { origin, payload, .. } => (conn.flows.insert(origin), payload),
        other => panic!("unexpected action: {:?}", other),
    };
    assert_eq!(sent, payload);
    // downstream echoes; the server frames the reply for the origin
    let downstream = encode(&sent, conn.flows.origin(flow));
    // client delivers it back
    let mut client = Deframer::new(MAX_BODY);
    let out = handle_tcp_data(&mut client, &downstream);
    assert_eq!(out, vec![Ok((sender, payload))]);
}

#[test]
fn client_drops_bad_frame_and_keeps_the_next() {
    let mut deframer = Deframer::new(MAX_BODY);
    let mut stream = vec![0, 0, 0, 3, 9, 9, 9];
    stream.extend(encode(&[0xAA, 0xBB], local(40000)));
    let out = handle_tcp_data(&mut deframer, &stream[..5]);
    assert!(out.is_empty());
    let out = handle_tcp_data(&mut deframer, &stream[5..]);
    assert_eq!(out, vec![Err(DecodeError::BadVersion(9)), Ok((local(40000), vec![0xAA, 0xBB]))]);
}

#[test]
fn endpoint_equality_and_accessors() {
    assert_eq!(local(1), local(1));
    assert_ne!(local(1), local(2));
    assert_ne!(local(1), Endpoint::v4([127, 0, 0, 2], 1));
    assert_ne!(Endpoint::v6([0; 16], 1), Endpoint::v4([0; 4], 1));
    assert_eq!(local(40000).port(), 40000);
    assert!(Endpoint::v6([0; 16], 1).is_v6());
    assert!(!local(1).is_v6());
}
