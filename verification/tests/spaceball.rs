use spaceball_rs::spaceball::{
    parse_packet, SpaceballBallEvent, SpaceballEvent, SpaceballEvents, SpaceballKeyEvent,
    SpaceballPacket, SpaceballRawPacketIter,
};
use spaceball_rs::{ButtonState, RawPacket, ReadEvent, StreamError, StreamStep};

// K packet: K + byte1 + byte2
// byte1: 010<pick><b8><b7><b6><b5>
// byte2: 0100<b4><b3><b2><b1>
fn make_key_raw(pick: bool, buttons: [bool; 8]) -> Vec<u8> {
    let b1: u8 = 0x40
        | if pick { 0x10 } else { 0 }
        | if buttons[7] { 0x08 } else { 0 }
        | if buttons[6] { 0x04 } else { 0 }
        | if buttons[5] { 0x02 } else { 0 }
        | if buttons[4] { 0x01 } else { 0 };
    let b2: u8 = 0x40
        | if buttons[3] { 0x08 } else { 0 }
        | if buttons[2] { 0x04 } else { 0 }
        | if buttons[1] { 0x02 } else { 0 }
        | if buttons[0] { 0x01 } else { 0 };
    vec![b'K', b1, b2]
}

/// Feed `events` to a fresh reader, collecting what it reports until the
/// stream ends.
fn read_events(events: Vec<ReadEvent>) -> Vec<Result<RawPacket<SpaceballPacket>, StreamError>> {
    let mut it = SpaceballRawPacketIter::new();
    let mut out = Vec::new();
    for ev in events {
        match it.push(ev) {
            StreamStep::Pending => {}
            StreamStep::Packet(rp) => out.push(Ok(rp)),
            StreamStep::Error(e) => out.push(Err(e)),
            StreamStep::End => break,
        }
    }
    out
}

/// The reads that deliver `wire` and then end the line.
fn wire_events(wire: &[u8]) -> Vec<ReadEvent> {
    let mut evs: Vec<ReadEvent> = wire.iter().map(|&b| ReadEvent::Byte(b)).collect();
    evs.push(ReadEvent::Closed);
    evs
}

#[test]
fn key_packet_no_buttons() {
    let raw = make_key_raw(false, [false; 8]);
    let pkt = parse_packet(raw);
    if let SpaceballPacket::Key(k) = pkt {
        assert!(!k.pick);
        assert_eq!(k.buttons, [false; 8]);
    } else {
        panic!("expected Key packet");
    }
}

#[test]
fn key_packet_pick_and_button1() {
    let mut btns = [false; 8];
    btns[0] = true;
    let raw = make_key_raw(true, btns);
    let pkt = parse_packet(raw);
    if let SpaceballPacket::Key(k) = pkt {
        assert!(k.pick);
        assert!(k.buttons[0]);
        assert!(!k.buttons[1]);
    } else {
        panic!("expected Key packet");
    }
}

#[test]
fn spaceball_button_state_trait() {
    let k = SpaceballKeyEvent {
        pick: false,
        buttons: [true, false, true, false, false, false, false, false],
    };
    assert!(k.pressed(0));
    assert!(!k.pressed(1));
    assert!(k.pressed(2));
    assert_eq!(k.count(), 8);
    assert!(k.any_pressed());
}

#[test]
fn ball_packet_zeros() {
    let raw = vec![b'D', 0, 0, 0, 0, 0, 0, 0, 0, 0, 0, 0, 0, 0, 0];
    let pkt = parse_packet(raw);
    if let SpaceballPacket::Ball(b) = pkt {
        assert_eq!(b.period, 0);
        assert_eq!(b.translation, [0, 0, 0]);
        assert_eq!(b.rotation, [0, 0, 0]);
    } else {
        panic!("expected Ball packet");
    }
}

#[test]
fn ball_packet_values() {
    // period = 800 (0x0320), tx = 1000 (0x03E8)
    let period: u16 = 800;
    let tx: i16 = 1000;
    let mut raw = vec![b'D'];
    raw.extend_from_slice(&period.to_be_bytes());
    raw.extend_from_slice(&tx.to_be_bytes());
    raw.extend_from_slice(&[0u8; 10]); // ty, tz, rx, ry, rz
    let pkt = parse_packet(raw);
    if let SpaceballPacket::Ball(b) = pkt {
        assert_eq!(b.period, 800);
        assert_eq!(b.translation[0], 1000);
    } else {
        panic!("expected Ball packet");
    }
}

#[test]
fn raw_iter_plain_ball_packet_wire_includes_cr() {
    // D packet with no escape sequences: wire bytes = decoded bytes + CR
    let period: u16 = 800;
    let tx: i16 = 1000;
    let mut wire: Vec<u8> = vec![b'D'];
    wire.extend_from_slice(&period.to_be_bytes());
    wire.extend_from_slice(&tx.to_be_bytes());
    wire.extend_from_slice(&[0u8; 10]); // ty, tz, rx, ry, rz
    wire.push(b'\r');

    let results = read_events(wire_events(&wire));
    assert_eq!(results.len(), 1);
    let rp = results[0].as_ref().unwrap();
    assert_eq!(rp.raw, wire);
    assert!(matches!(rp.packet, SpaceballPacket::Ball(_)));
}

#[test]
fn raw_iter_escaped_byte_preserved_in_wire() {
    // D packet where period high byte = 0x0D (CR), encoded as ^M on wire
    // Decoded: D 0x0D 0x00 [12 zeros]
    // Wire:    D ^ M  0x00 [12 zeros] CR
    let period_lo: u8 = 0x00;
    let mut wire: Vec<u8> = vec![b'D', b'^', b'M', period_lo];
    wire.extend_from_slice(&[0u8; 12]);
    wire.push(b'\r');

    let results = read_events(wire_events(&wire));
    assert_eq!(results.len(), 1);
    let rp = results[0].as_ref().unwrap();
    // Wire must include the ^ M escape pair
    assert_eq!(rp.raw, wire);
    // Decoded period high byte must be 0x0D
    if let SpaceballPacket::Ball(b) = &rp.packet {
        assert_eq!((b.period >> 8) as u8, 0x0D);
    } else {
        panic!("expected Ball");
    }
}

#[test]
fn raw_iter_bare_cr_is_skipped() {
    // A bare \r followed by a real K packet
    let key_raw = make_key_raw(false, [false; 8]);
    let mut wire: Vec<u8> = vec![b'\r'];
    wire.extend_from_slice(&key_raw);
    wire.push(b'\r');

    let results = read_events(wire_events(&wire));
    // Only one packet (the K packet), bare CR is skipped
    assert_eq!(results.len(), 1);
    assert!(matches!(results[0].as_ref().unwrap().packet, SpaceballPacket::Key(_)));
}

// ── Further cases ────────────────────────────────────────────────────────────

#[test]
fn key_packet_all_buttons_map_to_their_bits() {
    for i in 0..8 {
        let mut btns = [false; 8];
        btns[i] = true;
        let pkt = parse_packet(make_key_raw(false, btns));
        if let SpaceballPacket::Key(k) = pkt {
            assert_eq!(k.buttons, btns);
            assert!(!k.pick);
        } else {
            panic!("expected Key packet");
        }
    }
}

#[test]
fn ball_packet_negative_values_are_twos_complement() {
    let mut raw = vec![b'D', 0x03, 0x20];
    for v in [-1i16, -1000, i16::MIN, i16::MAX, 7, -7] {
        raw.extend_from_slice(&v.to_be_bytes());
    }
    if let SpaceballPacket::Ball(b) = parse_packet(raw) {
        assert_eq!(b.period, 800);
        assert_eq!(b.translation, [-1, -1000, i16::MIN]);
        assert_eq!(b.rotation, [i16::MAX, 7, -7]);
    } else {
        panic!("expected Ball packet");
    }
}

#[test]
fn wrong_length_packets_are_unknown() {
    let raw = vec![b'K', 0x40];
    if let SpaceballPacket::Unknown(v) = parse_packet(raw) {
        assert_eq!(v, vec![b'K', 0x40]);
    } else {
        panic!("expected Unknown");
    }
    let raw = vec![b'D'; 14];
    assert!(matches!(parse_packet(raw), SpaceballPacket::Unknown(_)));
    let raw = vec![b'@', b'1'];
    assert!(matches!(parse_packet(raw), SpaceballPacket::Unknown(_)));
}

#[test]
fn button_state_out_of_range_is_released() {
    let k = SpaceballKeyEvent { pick: true, buttons: [true; 8] };
    assert!(k.pressed(7));
    assert!(!k.pressed(8));
    assert!(!k.pressed(usize::MAX));
    let none = SpaceballKeyEvent { pick: true, buttons: [false; 8] };
    assert!(!none.any_pressed());
}

#[test]
fn raw_iter_all_escapes_decode() {
    // Decoded: K 0x11 0x13 ... written with every escape pair, and an invalid
    // pair ^X that decodes to nothing.
    let wire = vec![b'X', b'^', b'Q', b'^', b'S', b'^', b'M', b'^', b'^', b'^', b'X', b'\r'];
    let results = read_events(wire_events(&wire));
    assert_eq!(results.len(), 1);
    let rp = results[0].as_ref().unwrap();
    assert_eq!(rp.raw, wire);
    if let SpaceballPacket::Unknown(v) = &rp.packet {
        assert_eq!(v, &vec![b'X', 0x11, 0x13, 0x0D, 0x1E]);
    } else {
        panic!("expected Unknown");
    }
}

#[test]
fn raw_iter_escaped_cr_does_not_end_packet() {
    // ^ followed by CR: the CR is consumed as an (invalid) escape.
    let wire = vec![b'A', b'^', b'\r', b'B', b'\r'];
    let results = read_events(wire_events(&wire));
    assert_eq!(results.len(), 1);
    let rp = results[0].as_ref().unwrap();
    assert_eq!(rp.raw, wire);
    if let SpaceballPacket::Unknown(v) = &rp.packet {
        assert_eq!(v, &vec![b'A', b'B']);
    } else {
        panic!("expected Unknown");
    }
}

#[test]
fn raw_iter_two_packets_in_a_row() {
    let mut wire = make_key_raw(true, [false; 8]);
    wire.push(b'\r');
    wire.extend_from_slice(&[b'D'; 15]);
    wire.push(b'\r');
    let results = read_events(wire_events(&wire));
    assert_eq!(results.len(), 2);
    assert_eq!(results[0].as_ref().unwrap().raw, wire[..4].to_vec());
    assert_eq!(results[1].as_ref().unwrap().raw, wire[4..].to_vec());
    assert!(matches!(results[1].as_ref().unwrap().packet, SpaceballPacket::Ball(_)));
}

#[test]
fn raw_iter_timeouts_are_waited_out() {
    let evs = vec![
        ReadEvent::TimedOut,
        ReadEvent::Byte(b'K'),
        ReadEvent::TimedOut,
        ReadEvent::Byte(0x41),
        ReadEvent::Byte(0x40),
        ReadEvent::TimedOut,
        ReadEvent::Byte(b'\r'),
        ReadEvent::Closed,
    ];
    let results = read_events(evs);
    assert_eq!(results.len(), 1);
    if let SpaceballPacket::Key(k) = &results[0].as_ref().unwrap().packet {
        assert!(k.buttons[4]);
    } else {
        panic!("expected Key");
    }
}

#[test]
fn raw_iter_timeout_after_escape_is_an_error() {
    let evs = vec![
        ReadEvent::Byte(b'K'),
        ReadEvent::Byte(b'^'),
        ReadEvent::TimedOut,
        ReadEvent::Byte(b'K'),
        ReadEvent::Byte(0x40),
        ReadEvent::Byte(0x41),
        ReadEvent::Byte(b'\r'),
        ReadEvent::Closed,
    ];
    let results = read_events(evs);
    assert_eq!(results.len(), 2);
    assert_eq!(results[0].as_ref().err(), Some(&StreamError::TimedOut));
    // The partial packet was dropped: the next packet starts afresh.
    assert_eq!(results[1].as_ref().unwrap().raw, vec![b'K', 0x40, 0x41, b'\r']);
}

#[test]
fn raw_iter_failed_read_drops_partial_packet() {
    let evs = vec![
        ReadEvent::Byte(b'D'),
        ReadEvent::Byte(1),
        ReadEvent::Failed,
        ReadEvent::Byte(b'K'),
        ReadEvent::Byte(0x40),
        ReadEvent::Byte(0x40),
        ReadEvent::Byte(b'\r'),
        ReadEvent::Closed,
    ];
    let results = read_events(evs);
    assert_eq!(results.len(), 2);
    assert_eq!(results[0].as_ref().err(), Some(&StreamError::Failed));
    assert_eq!(results[1].as_ref().unwrap().raw, vec![b'K', 0x40, 0x40, b'\r']);
}

#[test]
fn raw_iter_end_of_line_drops_partial_packet() {
    let results = read_events(wire_events(&[b'K', 0x40]));
    assert!(results.is_empty());
}

#[test]
fn events_keep_last_nonzero_period() {
    let mut ev = SpaceballEvents::new();
    let ball = |period: u16| {
        SpaceballPacket::Ball(SpaceballBallEvent { period, translation: [1, 2, 3], rotation: [4, 5, 6] })
    };
    match ev.next_event(&ball(0)) {
        Some(SpaceballEvent::Motion(m)) => assert_eq!(m.period, 800),
        _ => panic!("expected Motion"),
    }
    match ev.next_event(&ball(400)) {
        Some(SpaceballEvent::Motion(m)) => {
            assert_eq!(m.period, 400);
            assert_eq!(m.translation, [1, 2, 3]);
            assert_eq!(m.rotation, [4, 5, 6]);
        }
        _ => panic!("expected Motion"),
    }
    match ev.next_event(&ball(0)) {
        Some(SpaceballEvent::Motion(m)) => assert_eq!(m.period, 400),
        _ => panic!("expected Motion"),
    }
    let key = SpaceballKeyEvent { pick: true, buttons: [false; 8] };
    assert_eq!(ev.next_event(&SpaceballPacket::Key(key)), Some(SpaceballEvent::Button(key)));
    assert_eq!(ev.next_event(&SpaceballPacket::Unknown(vec![b'@'])), None);
}

#[test]
fn raw_iter_frame_of_invalid_escapes_is_dropped() {
    // `^X` decodes to nothing: the frame is dropped and the next one read.
    let wire = vec![b'^', b'X', b'\r', b'K', 0x40, 0x42, b'\r'];
    let results = read_events(wire_events(&wire));
    assert_eq!(results.len(), 1);
    let rp = results[0].as_ref().unwrap();
    assert_eq!(rp.raw, vec![b'K', 0x40, 0x42, b'\r']);
    assert!(matches!(&rp.packet, SpaceballPacket::Key(k) if k.buttons[1]));
}

#[test]
fn events_period_is_latest_nonzero_over_a_sequence() {
    let ball = |period: u16| {
        SpaceballPacket::Ball(SpaceballBallEvent { period, translation: [0; 3], rotation: [0; 3] })
    };
    let key = SpaceballPacket::Key(SpaceballKeyEvent { pick: false, buttons: [false; 8] });
    let packets = vec![
        ball(0),
        key,
        ball(120),
        SpaceballPacket::Unknown(vec![1]),
        ball(0),
        ball(64),
        ball(0),
    ];
    let expected = [800u16, 800, 120, 120, 120, 64, 64];
    let mut ev = SpaceballEvents::new();
    for (p, want) in packets.iter().zip(expected) {
        if let Some(SpaceballEvent::Motion(m)) = ev.next_event(p) {
            assert_eq!(m.period, want);
        }
    }
}
