use spaceball_rs::spaceorb::{
    decode_ball_data, drain_action, orb_event, parse_orb_packet, sign10, DrainAction,
    SpaceOrbBallEvent, SpaceOrbEvent, SpaceOrbKeyEvent, SpaceOrbPacket, SpaceOrbPacketIter,
};
use spaceball_rs::{ButtonState, RawPacket, ReadEvent, StreamError, StreamStep};

fn spaceware_encode(data_bits: &[u8; 9]) -> [u8; 9] {
    const SW: &[u8; 9] = b"SpaceWare";
    std::array::from_fn(|i| (0x80 | data_bits[i]) ^ SW[i])
}

fn pack_10bit(values: [i16; 6]) -> [u8; 9] {
    let v: Vec<u16> = values.iter().map(|&x| (x as u16) & 0x3FF).collect();
    let mut bits = [0u8; 9];
    bits[0] = (v[0] >> 3) as u8;
    bits[1] = (((v[0] & 0x7) << 4) | (v[1] >> 6)) as u8;
    bits[2] = (((v[1] & 0x3F) << 1) | (v[2] >> 9)) as u8;
    bits[3] = ((v[2] >> 2) & 0x7F) as u8;
    bits[4] = (((v[2] & 0x3) << 5) | (v[3] >> 5)) as u8;
    bits[5] = (((v[3] & 0x1F) << 2) | (v[4] >> 8)) as u8;
    bits[6] = ((v[4] >> 1) & 0x7F) as u8;
    bits[7] = (((v[4] & 0x1) << 6) | (v[5] >> 4)) as u8;
    bits[8] = ((v[5] & 0xF) << 3) as u8;
    bits
}

/// Feed `events` to a fresh reader, collecting what it reports until the
/// stream ends.
fn read_events(events: Vec<ReadEvent>) -> Vec<Result<RawPacket<SpaceOrbPacket>, StreamError>> {
    let mut it = SpaceOrbPacketIter::new();
    let mut out = Vec::new();
    for ev in events {
        match it.push(ev) {
            StreamStep::Pending => {}
            StreamStep::Packet(rp) => out.push(Ok(rp)),
            StreamStep::Error(e) => out.push(Err(e)),
            StreamStep::End => break,
        }
    }
    out
}

fn wire_events(wire: &[u8]) -> Vec<ReadEvent> {
    let mut evs: Vec<ReadEvent> = wire.iter().map(|&b| ReadEvent::Byte(b)).collect();
    evs.push(ReadEvent::Closed);
    evs
}

#[test]
fn decode_all_zeros() {
    let encoded = spaceware_encode(&pack_10bit([0; 6]));
    let evt = decode_ball_data(&encoded);
    assert_eq!(evt.force, [0, 0, 0]);
    assert_eq!(evt.torque, [0, 0, 0]);
}

#[test]
fn decode_max_positive() {
    let encoded = spaceware_encode(&pack_10bit([255, 0, 0, 0, 0, 0]));
    let evt = decode_ball_data(&encoded);
    assert_eq!(evt.force[0], 255);
    assert_eq!(evt.force[1], 0);
}

#[test]
fn decode_negative_one() {
    // -1 in 10-bit two's complement = 0x3FF
    let encoded = spaceware_encode(&pack_10bit([-1, 0, 0, 0, 0, 0]));
    let evt = decode_ball_data(&encoded);
    assert_eq!(evt.force[0], -1);
}

#[test]
fn decode_min_value() {
    // -512 in 10-bit = 0x200
    let encoded = spaceware_encode(&pack_10bit([-512, 0, 0, 0, 0, 0]));
    let evt = decode_ball_data(&encoded);
    assert_eq!(evt.force[0], -512);
}

#[test]
fn decode_all_channels() {
    let vals = [100i16, -100, 200, -200, 300, -300];
    let encoded = spaceware_encode(&pack_10bit(vals));
    let evt = decode_ball_data(&encoded);
    assert_eq!(evt.force, [100, -100, 200]);
    assert_eq!(evt.torque, [-200, 300, -300]);
}

#[test]
fn parse_key_no_buttons() {
    // K + period(0x80) + status(0x80 = no buttons, top bit always 1) + reserved(0x80)
    let raw = vec![b'K', 0x80, 0x80, 0x80];
    let pkt = parse_orb_packet(&raw);
    if let SpaceOrbPacket::Key(k) = pkt {
        assert!(!k.rezero);
        assert_eq!(k.buttons, [false; 6]);
    } else {
        panic!("expected Key");
    }
}

#[test]
fn parse_key_button_a() {
    // status = 1000_0001 = 0x81 → button A pressed
    let raw = vec![b'K', 0x80, 0x81, 0x80];
    let pkt = parse_orb_packet(&raw);
    if let SpaceOrbPacket::Key(k) = pkt {
        assert!(k.a());
        assert!(!k.b());
    } else {
        panic!("expected Key");
    }
}

#[test]
fn parse_key_rezero() {
    // status = 1100_0000 = 0xC0 → rezero pressed
    let raw = vec![b'K', 0x80, 0xC0, 0x80];
    let pkt = parse_orb_packet(&raw);
    if let SpaceOrbPacket::Key(k) = pkt {
        assert!(k.rezero);
        assert_eq!(k.buttons, [false; 6]);
    } else {
        panic!("expected Key");
    }
}

#[test]
fn parse_reset_packet() {
    let mut raw = vec![b'R'];
    raw.extend_from_slice(b" Spaceball (R) V4.34 19-Oct-96");
    let pkt = parse_orb_packet(&raw);
    if let SpaceOrbPacket::Reset(s) = pkt {
        assert!(s.contains("V4.34"), "got: {s}");
    } else {
        panic!("expected Reset");
    }
}

#[test]
fn spaceorb_button_state_trait() {
    let k = SpaceOrbKeyEvent { rezero: false, buttons: [true, false, true, false, false, false] };
    assert!(k.pressed(0));
    assert!(!k.pressed(1));
    assert_eq!(k.count(), 6);
    assert!(k.any_pressed());
}

#[test]
fn named_button_accessors() {
    let k = SpaceOrbKeyEvent { rezero: false, buttons: [true, false, false, false, false, true] };
    assert!(k.a());
    assert!(!k.b());
    assert!(k.f());
}

#[test]
fn normalization_max_force() {
    let b = SpaceOrbBallEvent { force: [511, 0, 0], torque: [0, 0, 0] };
    let t = b.force[0] as f32 / 511.0;
    assert!((t - 1.0).abs() < 0.01, "expected ~1.0, got {t}");
}

#[test]
fn normalization_min_force() {
    let b = SpaceOrbBallEvent { force: [-511, 0, 0], torque: [0, 0, 0] };
    let t = b.force[0] as f32 / 511.0;
    assert!((t + 1.0).abs() < 0.01, "expected ~-1.0, got {t}");
}

// ── Further cases ────────────────────────────────────────────────────────────

#[test]
fn sign10_extends_the_sign_bit() {
    assert_eq!(sign10(0), 0);
    assert_eq!(sign10(0x1FF), 511);
    assert_eq!(sign10(0x200), -512);
    assert_eq!(sign10(0x3FF), -1);
    // Bits above the low ten are ignored.
    assert_eq!(sign10(0xFC01), 1);
    assert_eq!(sign10(0xFFFF), -1);
}

#[test]
fn decode_round_trips_the_whole_range() {
    for v in -512i16..512 {
        let vals = [v, -v.max(-511), v / 2, 511 - (v + 512) / 2, v, -1 - v.max(-511)];
        let encoded = spaceware_encode(&pack_10bit(vals));
        let evt = decode_ball_data(&encoded);
        assert_eq!(evt.force, [vals[0], vals[1], vals[2]]);
        assert_eq!(evt.torque, [vals[3], vals[4], vals[5]]);
    }
}

#[test]
fn parse_ball_packet_skips_period_byte() {
    let vals = [1i16, 2, 3, -4, -5, -6];
    let mut raw = vec![b'D', 0xAA];
    raw.extend_from_slice(&spaceware_encode(&pack_10bit(vals)));
    if let SpaceOrbPacket::Ball(b) = parse_orb_packet(&raw) {
        assert_eq!(b, SpaceOrbBallEvent { force: [1, 2, 3], torque: [-4, -5, -6] });
    } else {
        panic!("expected Ball");
    }
}

#[test]
fn parse_key_all_buttons() {
    let raw = vec![b'K', 0x80, 0xBF, 0x80];
    if let SpaceOrbPacket::Key(k) = parse_orb_packet(&raw) {
        assert!(!k.rezero);
        assert_eq!(k.buttons, [true; 6]);
        assert!(k.c() && k.d() && k.e());
    } else {
        panic!("expected Key");
    }
}

#[test]
fn parse_error_packet_flags() {
    let raw = vec![b'E', 0x85, 0x80];
    match parse_orb_packet(&raw) {
        SpaceOrbPacket::Error { brown_out, eeprom, hardware } => {
            assert!(hardware);
            assert!(!eeprom);
            assert!(brown_out);
        }
        _ => panic!("expected Error"),
    }
    let raw = vec![b'E', 0x02, 0x80];
    match parse_orb_packet(&raw) {
        SpaceOrbPacket::Error { brown_out, eeprom, hardware } => {
            assert!(!hardware && eeprom && !brown_out);
        }
        _ => panic!("expected Error"),
    }
}

#[test]
fn parse_status_packet_text_is_trimmed_and_masked() {
    // '!' packet, text with its top bits set and surrounding whitespace.
    let raw = vec![b'!', b' ', b'\t', b'O' | 0x80, b'K', b'\r', b' '];
    if let SpaceOrbPacket::Reset(s) = parse_orb_packet(&raw) {
        assert_eq!(s, "OK");
    } else {
        panic!("expected Reset");
    }
    let raw = vec![b'R', b' ', b' '];
    if let SpaceOrbPacket::Reset(s) = parse_orb_packet(&raw) {
        assert_eq!(s, "");
    } else {
        panic!("expected Reset");
    }
}

#[test]
fn parse_other_packets_are_unknown() {
    let raw = vec![b'N', 0x01];
    if let SpaceOrbPacket::Unknown(v) = parse_orb_packet(&raw) {
        assert_eq!(v, raw);
    } else {
        panic!("expected Unknown");
    }
    // Right header, wrong length.
    assert!(matches!(parse_orb_packet(&[b'K', 0x80, 0x80]), SpaceOrbPacket::Unknown(_)));
    assert!(matches!(parse_orb_packet(&[b'D'; 10]), SpaceOrbPacket::Unknown(_)));
    assert!(matches!(parse_orb_packet(&[]), SpaceOrbPacket::Unknown(_)));
}

#[test]
fn packet_iter_reads_fixed_and_text_packets() {
    let vals = [10i16, -20, 30, -40, 50, -60];
    let mut wire = vec![b'\r', 0x85]; // terminator and a stray data byte: skipped
    wire.push(b'D');
    wire.push(0x80); // period
    wire.extend_from_slice(&spaceware_encode(&pack_10bit(vals)));
    wire.push(0x99); // checksum
    wire.extend_from_slice(&[b'K', 0x80, 0x81, 0x80, 0x77]); // 0x77: checksum
    wire.extend_from_slice(&[b'R', b' ', b'H', b'i', 0x8F]);
    let results = read_events(wire_events(&wire));
    assert_eq!(results.len(), 3);
    let ball = results[0].as_ref().unwrap();
    assert_eq!(ball.raw, wire[2..14].to_vec());
    assert!(matches!(ball.packet, SpaceOrbPacket::Ball(b) if b.force == [10, -20, 30] && b.torque == [-40, 50, -60]));
    let key = results[1].as_ref().unwrap();
    assert_eq!(key.raw, vec![b'K', 0x80, 0x81, 0x80, 0x77]);
    assert!(matches!(key.packet, SpaceOrbPacket::Key(k) if k.a()));
    let reset = results[2].as_ref().unwrap();
    assert_eq!(reset.raw, vec![b'R', b' ', b'H', b'i', 0x8F]);
    assert!(matches!(&reset.packet, SpaceOrbPacket::Reset(s) if s == "Hi"));
}

#[test]
fn packet_iter_failures() {
    // A failed read between packets is reported; inside a packet it ends
    // the stream and drops the partial packet.
    let evs = vec![ReadEvent::TimedOut, ReadEvent::Failed, ReadEvent::Byte(b'K'), ReadEvent::Byte(0x80)];
    let mut it = SpaceOrbPacketIter::new();
    let mut outs = Vec::new();
    for ev in evs {
        outs.push(it.push(ev));
    }
    assert!(matches!(outs[0], StreamStep::Pending));
    assert!(matches!(outs[1], StreamStep::Error(StreamError::Failed)));
    assert!(matches!(it.push(ReadEvent::TimedOut), StreamStep::Pending));
    assert!(matches!(it.push(ReadEvent::Failed), StreamStep::End));
    // Afresh: a whole key packet reads normally.
    let mut got = None;
    for b in [b'K', 0x80, 0x80, 0x80, 0x80] {
        if let StreamStep::Packet(rp) = it.push(ReadEvent::Byte(b)) {
            got = Some(rp);
        }
    }
    assert_eq!(got.unwrap().raw, vec![b'K', 0x80, 0x80, 0x80, 0x80]);
    assert!(matches!(it.push(ReadEvent::Closed), StreamStep::End));
}

#[test]
fn events_only_from_ball_and_key_packets() {
    let b = SpaceOrbBallEvent { force: [1, 2, 3], torque: [4, 5, 6] };
    assert_eq!(orb_event(&SpaceOrbPacket::Ball(b)), Some(SpaceOrbEvent::Motion(b)));
    let k = SpaceOrbKeyEvent { rezero: true, buttons: [false; 6] };
    assert_eq!(orb_event(&SpaceOrbPacket::Key(k)), Some(SpaceOrbEvent::Button(k)));
    assert_eq!(orb_event(&SpaceOrbPacket::Reset(String::from("x"))), None);
    assert_eq!(orb_event(&SpaceOrbPacket::Unknown(vec![1])), None);
    assert_eq!(
        orb_event(&SpaceOrbPacket::Error { brown_out: false, eeprom: false, hardware: true }),
        None
    );
}

#[test]
fn drain_reads_until_silence() {
    assert_eq!(drain_action(ReadEvent::Byte(b'R')), DrainAction::KeepDraining);
    assert_eq!(drain_action(ReadEvent::TimedOut), DrainAction::Done);
    assert_eq!(drain_action(ReadEvent::Closed), DrainAction::Done);
    assert_eq!(drain_action(ReadEvent::Failed), DrainAction::Fail);
}

#[test]
fn decode_ignores_top_bits_and_padding() {
    let vals = [-512i16, 511, -1, 0, 137, -300];
    let bits = pack_10bit(vals);
    const SW: &[u8; 9] = b"SpaceWare";
    for pad in 0..8u8 {
        for mask in [0u16, 0x1FF, 0x0AA, 0x155] {
            let mut groups = bits;
            groups[8] |= pad;
            let bytes: [u8; 9] = std::array::from_fn(|i| {
                let high = if mask & (1 << i) != 0 { 0x80 } else { 0 };
                (groups[i] | high) ^ SW[i]
            });
            let evt = decode_ball_data(&bytes);
            assert_eq!(evt.force, [-512, 511, -1]);
            assert_eq!(evt.torque, [0, 137, -300]);
        }
    }
}
