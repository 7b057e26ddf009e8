//! The two wire protocols as the devices speak them, stated with their
//! literal byte values and proved of the readers, parsers and probes.
use vstd::prelude::*;
use crate::spaceorb::{
    ball_field, reset_chars, signed10, spaceware_byte, is_trim_space, trim, trim_start, trim_end,
    lemma_orb_frame, orb_frame, orb_fresh, orb_phase_for, orb_reported, orb_run, orb_step,
    orb_skipped_header, spaceorb_packet_of, OrbOutput, OrbPhase, SpaceOrbPacket,
};
use crate::spaceball::{
    has_period, next_period, period_after, sb_fresh, sb_reported, sb_step, spaceball_packet_of,
    SbOutput, SbState, SpaceballPacket,
};
use crate::probe::{spaceball_probe_action, spaceorb_probe_action, ProbeAction};
use crate::ports::is_candidate;
use crate::stream::{byte_events, ReadEvent, StreamError, StreamStep};

verus! {

// ── SpaceOrb framing ─────────────────────────────────────────────────────────

/// `outs` is `n` reports of nothing followed by the packet with wire bytes `wire`.
pub open spec fn orb_quiet_then(outs: Seq<OrbOutput>, n: nat, wire: Seq<u8>) -> bool {
    &&& outs.len() == n + 1
    &&& forall|i: int| 0 <= i < n ==> #[trigger] outs[i] == OrbOutput::Pending
    &&& outs[n as int] == OrbOutput::Packet(wire)
}

/// Law: between packets, a `CR` (0x0D) or any byte with the top bit set is
/// passed over; any other byte starts a packet.
pub proof fn lemma_orb_header_bytes(b: u8)
    ensures
        orb_step(orb_fresh(), ReadEvent::Byte(b)).1 == OrbOutput::Pending,
        (b == 0x0D || b >= 0x80) <==> orb_step(orb_fresh(), ReadEvent::Byte(b)).0 == orb_fresh(),
        !(b == 0x0D || b >= 0x80) ==> orb_step(orb_fresh(), ReadEvent::Byte(b)).0.header == b,
{
    assert(b & 0x80 != 0 <==> b >= 0x80) by (bit_vector);
}

/// Law: the bodies of ball (`D`), key (`K`), error (`E`) and `N` packets are
/// 11, 4, 3 and 2 bytes long, checksum included. A reader between packets
/// that receives such a header and then exactly that many bytes reports
/// nothing until the last of them, then one packet with exactly those wire
/// bytes, and stands between packets again.
pub proof fn lemma_orb_fixed_body_lengths(h: u8, body: Seq<u8>)
    requires
        (h == 0x44 && body.len() == 11) || (h == 0x4B && body.len() == 4)
            || (h == 0x45 && body.len() == 3) || (h == 0x4E && body.len() == 2),
    ensures
        orb_run(orb_fresh(), byte_events(seq![h] + body)).0 == orb_fresh(),
        orb_quiet_then(orb_run(orb_fresh(), byte_events(seq![h] + body)).1, body.len(), seq![h] + body),
{
    assert(h & 0x80 == 0) by (bit_vector)
        requires h == 0x44 || h == 0x4B || h == 0x45 || h == 0x4E;
    assert(orb_frame(h, body));
    lemma_orb_frame(h, body);
}

/// Law: any other packet (a header below 0x80 other than `CR`, `D`, `K`,
/// `E`, `N`) runs to its checksum byte, the first byte with the top bit set.
/// A reader between packets that receives such a packet reports nothing
/// until the checksum byte, then one packet with exactly those wire bytes.
pub proof fn lemma_orb_text_body(h: u8, body: Seq<u8>)
    requires
        h < 0x80,
        h != 0x0D && h != 0x44 && h != 0x4B && h != 0x45 && h != 0x4E,
        body.len() >= 1,
        body.last() >= 0x80,
        forall|i: int| 0 <= i < body.len() - 1 ==> #[trigger] body[i] < 0x80,
    ensures
        orb_run(orb_fresh(), byte_events(seq![h] + body)).0 == orb_fresh(),
        orb_quiet_then(orb_run(orb_fresh(), byte_events(seq![h] + body)).1, body.len(), seq![h] + body),
{
    let last = body.last();
    assert(h & 0x80 == 0) by (bit_vector) requires h < 0x80;
    assert(last & 0x80 != 0) by (bit_vector) requires last >= 0x80;
    assert forall|i: int| 0 <= i < body.len() - 1 implies #[trigger] body[i] & 0x80 == 0 by {
        let x = body[i];
        assert(x & 0x80 == 0) by (bit_vector) requires x < 0x80;
    }
    assert(orb_phase_for(h) == OrbPhase::UntilXor);
    assert(orb_frame(h, body));
    lemma_orb_frame(h, body);
}

/// Law: a failed read between packets is reported as an error and the
/// reader keeps its place; the end of the line ends the stream. Inside a
/// packet either one ends the stream and drops the partial packet. A
/// timeout never changes anything.
pub proof fn lemma_orb_failures(s: crate::spaceorb::OrbState)
    ensures
        orb_step(orb_fresh(), ReadEvent::Failed) == (orb_fresh(), OrbOutput::Failed),
        orb_step(orb_fresh(), ReadEvent::Closed) == (orb_fresh(), OrbOutput::End),
        s.phase != OrbPhase::Header ==> orb_step(s, ReadEvent::Failed) == (orb_fresh(), OrbOutput::End),
        s.phase != OrbPhase::Header ==> orb_step(s, ReadEvent::Closed) == (orb_fresh(), OrbOutput::End),
        orb_step(s, ReadEvent::TimedOut) == (s, OrbOutput::Pending),
{
}

/// Law: what the reader hands its caller. A packet carries its wire bytes
/// and the packet parsed from all of them but the last (the checksum byte);
/// a failed read is the error `Failed`.
pub proof fn lemma_orb_reported(r: StreamStep<SpaceOrbPacket>, wire: Seq<u8>)
    ensures
        orb_reported(r, OrbOutput::Packet(wire)) ==> (r matches StreamStep::Packet(rp)
            && rp.raw@ == wire && spaceorb_packet_of(wire.subrange(0, wire.len() - 1), rp.packet)),
        orb_reported(r, OrbOutput::Failed) ==> r == StreamStep::<SpaceOrbPacket>::Error(StreamError::Failed),
        orb_reported(r, OrbOutput::Pending) ==> r is Pending,
        orb_reported(r, OrbOutput::End) ==> r is End,
{
    assert(wire.drop_last() =~= wire.subrange(0, wire.len() - 1));
}

// ── SpaceOrb packets ─────────────────────────────────────────────────────────

/// Law: what each SpaceOrb packet (header and data, checksum removed)
/// parses to. `K`, a period byte, the status byte and a reserved byte is a
/// key event: buttons A to F are status bits 0 to 5 (masks 0x01 to 0x20),
/// rezero is bit 6 (0x40). `E`, the flag byte and a reserved byte is an
/// error report: hardware is bit 0 (0x01), EEPROM bit 1 (0x02), brown-out
/// bit 2 (0x04). `D` with ten data bytes is a ball event; `R` and `!` carry
/// text. Anything else is returned as it is.
pub proof fn lemma_orb_parse_literals(raw: Seq<u8>, p: SpaceOrbPacket)
    requires
        spaceorb_packet_of(raw, p),
    ensures
        raw.len() == 4 && raw[0] == 0x4B ==> (p matches SpaceOrbPacket::Key(k)
            && k.buttons[0] == (raw[2] & 0x01 != 0)
            && k.buttons[1] == (raw[2] & 0x02 != 0)
            && k.buttons[2] == (raw[2] & 0x04 != 0)
            && k.buttons[3] == (raw[2] & 0x08 != 0)
            && k.buttons[4] == (raw[2] & 0x10 != 0)
            && k.buttons[5] == (raw[2] & 0x20 != 0)
            && k.rezero == (raw[2] & 0x40 != 0)),
        raw.len() == 3 && raw[0] == 0x45 ==> (p matches SpaceOrbPacket::Error { brown_out, eeprom, hardware }
            && hardware == (raw[1] & 0x01 != 0)
            && eeprom == (raw[1] & 0x02 != 0)
            && brown_out == (raw[1] & 0x04 != 0)),
        raw.len() == 11 && raw[0] == 0x44 ==> p is Ball,
        raw.len() > 0 && (raw[0] == 0x52 || raw[0] == 0x21) ==> p is Reset,
        !(raw.len() == 4 && raw[0] == 0x4B) && !(raw.len() == 3 && raw[0] == 0x45)
            && !(raw.len() == 11 && raw[0] == 0x44)
            && !(raw.len() > 0 && (raw[0] == 0x52 || raw[0] == 0x21))
            ==> (p matches SpaceOrbPacket::Unknown(v) && v@ == raw),
{
    if raw.len() == 4 && raw[0] == 0x4B {
        if let SpaceOrbPacket::Key(k) = p {
            assert(k.buttons[0] == crate::bits::bit_set(raw[2], 0));
            assert(k.buttons[1] == crate::bits::bit_set(raw[2], 1));
            assert(k.buttons[2] == crate::bits::bit_set(raw[2], 2));
            assert(k.buttons[3] == crate::bits::bit_set(raw[2], 3));
            assert(k.buttons[4] == crate::bits::bit_set(raw[2], 4));
            assert(k.buttons[5] == crate::bits::bit_set(raw[2], 5));
        }
    }
}

/// Law: an error packet travels intact. A reader between packets that
/// receives `E`, a flag byte `f`, a reserved byte `x` and a checksum byte
/// `c` reports nothing until `c`, then hands its caller one packet with wire
/// bytes exactly `E f x c`: the error report with hardware `f & 0x01`,
/// EEPROM `f & 0x02` and brown-out `f & 0x04`.
pub proof fn lemma_orb_error_packet(f: u8, x: u8, c: u8, r: StreamStep<SpaceOrbPacket>)
    ensures
        ({
            let wire = seq![0x45u8, f, x, c];
            &&& orb_run(orb_fresh(), byte_events(wire)).0 == orb_fresh()
            &&& orb_quiet_then(orb_run(orb_fresh(), byte_events(wire)).1, 3, wire)
            &&& orb_reported(r, OrbOutput::Packet(wire)) ==> (r matches StreamStep::Packet(rp)
                && rp.raw@ == wire
                && (rp.packet matches SpaceOrbPacket::Error { brown_out, eeprom, hardware }
                && hardware == (f & 0x01 != 0) && eeprom == (f & 0x02 != 0) && brown_out == (f & 0x04 != 0)))
        }),
{
    let wire = seq![0x45u8, f, x, c];
    let body = seq![f, x, c];
    assert(seq![0x45u8] + body =~= wire);
    lemma_orb_fixed_body_lengths(0x45u8, body);
    lemma_orb_reported(r, wire);
    if orb_reported(r, OrbOutput::Packet(wire)) {
        if let StreamStep::Packet(rp) = r {
            let raw = wire.subrange(0, 3);
            assert(raw =~= seq![0x45u8, f, x]);
            lemma_orb_parse_literals(raw, rp.packet);
        }
    }
}

/// Law: a key packet travels intact. A reader between packets that receives
/// `K`, a period byte `t`, a status byte `s`, a reserved byte `x` and a
/// checksum byte `c` reports nothing until `c`, then hands its caller one
/// packet with wire bytes exactly `K t s x c`: buttons A to F are the bits
/// 0x01 to 0x20 of `s`, rezero its bit 0x40.
pub proof fn lemma_orb_key_packet(t: u8, s: u8, x: u8, c: u8, r: StreamStep<SpaceOrbPacket>)
    ensures
        ({
            let wire = seq![0x4Bu8, t, s, x, c];
            &&& orb_run(orb_fresh(), byte_events(wire)).0 == orb_fresh()
            &&& orb_quiet_then(orb_run(orb_fresh(), byte_events(wire)).1, 4, wire)
            &&& orb_reported(r, OrbOutput::Packet(wire)) ==> (r matches StreamStep::Packet(rp)
                && rp.raw@ == wire
                && (rp.packet matches SpaceOrbPacket::Key(k)
                && k.buttons[0] == (s & 0x01 != 0) && k.buttons[1] == (s & 0x02 != 0)
                && k.buttons[2] == (s & 0x04 != 0) && k.buttons[3] == (s & 0x08 != 0)
                && k.buttons[4] == (s & 0x10 != 0) && k.buttons[5] == (s & 0x20 != 0)
                && k.rezero == (s & 0x40 != 0)))
        }),
{
    let wire = seq![0x4Bu8, t, s, x, c];
    let body = seq![t, s, x, c];
    assert(seq![0x4Bu8] + body =~= wire);
    lemma_orb_fixed_body_lengths(0x4Bu8, body);
    lemma_orb_reported(r, wire);
    if orb_reported(r, OrbOutput::Packet(wire)) {
        if let StreamStep::Packet(rp) = r {
            let raw = wire.subrange(0, 4);
            assert(raw =~= seq![0x4Bu8, t, s, x]);
            lemma_orb_parse_literals(raw, rp.packet);
        }
    }
}


/// The 7-bit group of data byte `j` of a ball packet, with the mask byte
/// written out: the ASCII text "SpaceWare".
pub open spec fn unmasked(bytes: Seq<u8>, j: int) -> int {
    let key = seq!['S', 'p', 'a', 'c', 'e', 'W', 'a', 'r', 'e'];
    ((bytes[j] ^ (key[j] as u8)) & 0x7F) as int
}

proof fn lemma_field_arith(a: u8, b: u8, c: u8)
    by (bit_vector)
    requires
        a <= 0x7F, b <= 0x7F, c <= 0x7F,
    ensures
        (((a as u16) << 3u16) | ((b as u16) >> 4u16)) == (a as u16) * 8 + (b as u16) / 16,
        ((((a & 0x0F) as u16) << 6u16) | ((b as u16) >> 1u16)) == ((a as u16) % 16) * 64 + (b as u16) / 2,
        ((((a & 0x1F) as u16) << 5u16) | ((b as u16) >> 2u16)) == ((a as u16) % 32) * 32 + (b as u16) / 4,
        ((((a & 0x3F) as u16) << 4u16) | ((b as u16) >> 3u16)) == ((a as u16) % 64) * 16 + (b as u16) / 8,
        ((((a & 0x01) as u16) << 9u16) | ((b as u16) << 2u16) | ((c as u16) >> 5u16))
            == ((a as u16) % 2) * 512 + (b as u16) * 4 + (c as u16) / 32,
        ((((a & 0x03) as u16) << 8u16) | ((b as u16) << 1u16) | ((c as u16) >> 6u16))
            == ((a as u16) % 4) * 256 + (b as u16) * 2 + (c as u16) / 64,
{
}

proof fn lemma_xor_mask(b: u8, k: u8)
    by (bit_vector)
    ensures
        (b ^ k) & 0x7F <= 0x7F,
{
}

/// Law: where the six values of a SpaceOrb ball packet sit. Once each data
/// byte is XORed with the matching letter of "SpaceWare" and its top bit
/// dropped, the nine 7-bit groups `g0`..`g8` hold force x, y, z and torque
/// x, y, z as 10-bit fields in order, most significant bit first: force x is
/// `g0` and the top 3 bits of `g1`, force y the low 4 bits of `g1` and the
/// top 6 of `g2`, and so on; the last 3 bits of `g8` are padding.
pub proof fn lemma_ball_field_literals(bytes: Seq<u8>)
    requires
        bytes.len() == 9,
    ensures
        ball_field(bytes, 0) as int == unmasked(bytes, 0) * 8 + unmasked(bytes, 1) / 16,
        ball_field(bytes, 1) as int == (unmasked(bytes, 1) % 16) * 64 + unmasked(bytes, 2) / 2,
        ball_field(bytes, 2) as int == (unmasked(bytes, 2) % 2) * 512 + unmasked(bytes, 3) * 4 + unmasked(bytes, 4) / 32,
        ball_field(bytes, 3) as int == (unmasked(bytes, 4) % 32) * 32 + unmasked(bytes, 5) / 4,
        ball_field(bytes, 4) as int == (unmasked(bytes, 5) % 4) * 256 + unmasked(bytes, 6) * 2 + unmasked(bytes, 7) / 64,
        ball_field(bytes, 5) as int == (unmasked(bytes, 7) % 64) * 16 + unmasked(bytes, 8) / 8,
{
    let g = |j: int| crate::spaceorb::ball_group(bytes, j);
    assert forall|j: int| 0 <= j < 9 implies #[trigger] crate::spaceorb::ball_group(bytes, j) as int == unmasked(bytes, j) by {
        let key = seq!['S', 'p', 'a', 'c', 'e', 'W', 'a', 'r', 'e'];
        assert(spaceware_byte(j) == key[j] as u8);
    }
    assert forall|j: int| 0 <= j < 9 implies #[trigger] crate::spaceorb::ball_group(bytes, j) <= 0x7F by {
        lemma_xor_mask(bytes[j], spaceware_byte(j));
    }
    crate::spaceorb::lemma_ball_fields_of(bytes);
    let g0 = g(0); let g1 = g(1); let g2 = g(2); let g3 = g(3); let g4 = g(4);
    let g5 = g(5); let g6 = g(6); let g7 = g(7); let g8 = g(8);
    assert(g0 <= 0x7F && g1 <= 0x7F && g2 <= 0x7F && g3 <= 0x7F && g4 <= 0x7F);
    assert(g5 <= 0x7F && g6 <= 0x7F && g7 <= 0x7F && g8 <= 0x7F);
    lemma_field_arith(g0, g1, g2);
    lemma_field_arith(g1, g2, g3);
    lemma_field_arith(g2, g3, g4);
    lemma_field_arith(g4, g5, g6);
    lemma_field_arith(g5, g6, g7);
    lemma_field_arith(g7, g8, g8);
}

/// Law: a 10-bit field is read as two's complement: values from 512 up
/// stand for the value minus 1024; bits above the tenth are ignored.
pub proof fn lemma_signed10_literals(v: u16)
    ensures
        signed10(v) == (if v as int % 1024 >= 512 { v as int % 1024 - 1024 } else { v as int % 1024 }),
{
    assert((v & 0x3FF) as int == v as int % 1024) by (bit_vector);
}

/// Law: the text of a reset or status packet is made of the bytes after the
/// header, each with its top bit cleared.
pub proof fn lemma_reset_chars_literals(raw: Seq<u8>)
    requires
        raw.len() >= 1,
    ensures
        reset_chars(raw).len() == raw.len() - 1,
        forall|i: int| 0 <= i < raw.len() - 1 ==> #[trigger] reset_chars(raw)[i] as int == raw[i + 1] as int % 128,
{
    assert forall|i: int| 0 <= i < raw.len() - 1 implies #[trigger] reset_chars(raw)[i] as int == raw[i + 1] as int % 128 by {
        let b = raw[i + 1];
        assert((b & 0x7F) as int == b as int % 128) by (bit_vector);
    }
}

/// The whitespace that `str::trim` removes among 7-bit characters: tab,
/// line feed, vertical tab, form feed, carriage return, space.
pub open spec fn ascii_space(c: char) -> bool {
    c == '\t' || c == '\n' || c == '\x0B' || c == '\x0C' || c == '\r' || c == ' '
}

proof fn lemma_trim_start_shape(s: Seq<char>) -> (a: int)
    ensures
        0 <= a <= s.len(),
        trim_start(s) == s.subrange(a, s.len() as int),
        forall|i: int| 0 <= i < a ==> is_trim_space(#[trigger] s[i]),
        a < s.len() ==> !is_trim_space(s[a]),
    decreases s.len(),
{
    if s.len() > 0 && is_trim_space(s[0]) {
        let a1 = lemma_trim_start_shape(s.drop_first());
        assert(s.drop_first().subrange(a1, s.drop_first().len() as int) =~= s.subrange(a1 + 1, s.len() as int));
        assert forall|i: int| 0 <= i < a1 + 1 implies is_trim_space(#[trigger] s[i]) by {
            if i > 0 { assert(s[i] == s.drop_first()[i - 1]); }
        }
        if a1 + 1 < s.len() { assert(s[a1 + 1] == s.drop_first()[a1]); }
        a1 + 1
    } else {
        assert(s.subrange(0, s.len() as int) =~= s);
        0
    }
}

proof fn lemma_trim_end_shape(s: Seq<char>) -> (b: int)
    ensures
        0 <= b <= s.len(),
        trim_end(s) == s.subrange(0, b),
        forall|i: int| b <= i < s.len() ==> is_trim_space(#[trigger] s[i]),
        b > 0 ==> !is_trim_space(s[b - 1]),
    decreases s.len(),
{
    if s.len() > 0 && is_trim_space(s.last()) {
        let b1 = lemma_trim_end_shape(s.drop_last());
        assert(s.drop_last().subrange(0, b1) =~= s.subrange(0, b1));
        assert forall|i: int| b1 <= i < s.len() implies is_trim_space(#[trigger] s[i]) by {
            if i < s.len() - 1 { assert(s[i] == s.drop_last()[i]); }
        }
        if b1 > 0 { assert(s[b1 - 1] == s.drop_last()[b1 - 1]); }
        b1
    } else {
        assert(s.subrange(0, s.len() as int) =~= s);
        s.len() as int
    }
}

/// Law: trimming keeps one run of the text: it removes exactly the leading
/// and trailing tabs, line feeds, vertical tabs, form feeds, carriage
/// returns and spaces, so what is left neither starts nor ends with one.
pub proof fn lemma_trim_literals(s: Seq<char>)
    ensures
        forall|c: char| #[trigger] is_trim_space(c) <==> ascii_space(c),
        exists|a: int, b: int| 0 <= a <= b <= s.len() && trim(s) == s.subrange(a, b)
            && (forall|i: int| 0 <= i < a ==> ascii_space(#[trigger] s[i]))
            && (forall|i: int| b <= i < s.len() ==> ascii_space(#[trigger] s[i])),
        trim(s).len() > 0 ==> !ascii_space(trim(s)[0]) && !ascii_space(trim(s).last()),
{
    assert forall|c: char| #[trigger] is_trim_space(c) <==> ascii_space(c) by {
        if '\t' <= c && c <= '\r' {
            assert(c == '\t' || c == '\n' || c == '\x0B' || c == '\x0C' || c == '\r');
        }
    }
    let a = lemma_trim_start_shape(s);
    let t = trim_start(s);
    let b = lemma_trim_end_shape(t);
    assert(trim(s) =~= s.subrange(a, a + b));
    assert forall|i: int| a + b <= i < s.len() implies ascii_space(#[trigger] s[i]) by {
        assert(s[i] == t[i - a]);
    }
    if trim(s).len() > 0 {
        assert(trim(s)[0] == t[0]);
        assert(trim(s).last() == t[b - 1]);
    }
    assert(0 <= a <= a + b <= s.len());
}

// ── Spaceball packets ────────────────────────────────────────────────────────

/// The signed big-endian 16-bit value of `hi`, `lo`.
pub open spec fn signed_be(hi: u8, lo: u8) -> int {
    hi as int * 256 + lo as int - (if hi >= 0x80 { 65536int } else { 0int })
}

/// Law: what each Spaceball packet (decoded bytes, `CR` removed) parses to.
/// `K` and two bytes is a key event: pick is bit 0x10 of the first byte,
/// buttons 1 to 4 the bits 0x01 to 0x08 of the second, buttons 5 to 8 the
/// bits 0x01 to 0x08 of the first. `D` and fourteen bytes is a ball event:
/// the period, then translation x, y, z and rotation x, y, z, each two
/// bytes, most significant first, the displacements signed. Anything else is
/// returned as it is.
pub proof fn lemma_sb_parse_literals(raw: Seq<u8>, p: SpaceballPacket)
    requires
        spaceball_packet_of(raw, p),
    ensures
        raw.len() == 3 && raw[0] == 0x4B ==> (p matches SpaceballPacket::Key(k)
            && k.pick == (raw[1] & 0x10 != 0)
            && k.buttons[0] == (raw[2] & 0x01 != 0)
            && k.buttons[1] == (raw[2] & 0x02 != 0)
            && k.buttons[2] == (raw[2] & 0x04 != 0)
            && k.buttons[3] == (raw[2] & 0x08 != 0)
            && k.buttons[4] == (raw[1] & 0x01 != 0)
            && k.buttons[5] == (raw[1] & 0x02 != 0)
            && k.buttons[6] == (raw[1] & 0x04 != 0)
            && k.buttons[7] == (raw[1] & 0x08 != 0)),
        raw.len() == 15 && raw[0] == 0x44 ==> (p matches SpaceballPacket::Ball(b)
            && b.period as int == raw[1] as int * 256 + raw[2] as int
            && b.translation[0] as int == signed_be(raw[3], raw[4])
            && b.translation[1] as int == signed_be(raw[5], raw[6])
            && b.translation[2] as int == signed_be(raw[7], raw[8])
            && b.rotation[0] as int == signed_be(raw[9], raw[10])
            && b.rotation[1] as int == signed_be(raw[11], raw[12])
            && b.rotation[2] as int == signed_be(raw[13], raw[14])),
        !(raw.len() == 3 && raw[0] == 0x4B) && !(raw.len() == 15 && raw[0] == 0x44)
            ==> (p matches SpaceballPacket::Unknown(v) && v@ == raw),
{
    if raw.len() == 3 && raw[0] == 0x4B {
        if let SpaceballPacket::Key(k) = p {
            assert(k.buttons[0] == crate::bits::bit_set(raw[2], 0));
            assert(k.buttons[1] == crate::bits::bit_set(raw[2], 1));
            assert(k.buttons[2] == crate::bits::bit_set(raw[2], 2));
            assert(k.buttons[3] == crate::bits::bit_set(raw[2], 3));
            assert(k.buttons[4] == crate::bits::bit_set(raw[1], 0));
            assert(k.buttons[5] == crate::bits::bit_set(raw[1], 1));
            assert(k.buttons[6] == crate::bits::bit_set(raw[1], 2));
            assert(k.buttons[7] == crate::bits::bit_set(raw[1], 3));
        }
    }
    if raw.len() == 15 && raw[0] == 0x44 {
        if let SpaceballPacket::Ball(b) = p {
            assert(b.translation[0] as int == crate::bits::be_i16(raw[3], raw[4]));
            assert(b.translation[1] as int == crate::bits::be_i16(raw[5], raw[6]));
            assert(b.translation[2] as int == crate::bits::be_i16(raw[7], raw[8]));
            assert(b.rotation[0] as int == crate::bits::be_i16(raw[9], raw[10]));
            assert(b.rotation[1] as int == crate::bits::be_i16(raw[11], raw[12]));
            assert(b.rotation[2] as int == crate::bits::be_i16(raw[13], raw[14]));
        }
    }
}

// ── Spaceball framing ────────────────────────────────────────────────────────

/// The decoded bytes that the escape pair `^c` stands for: `^Q` 0x11, `^S`
/// 0x13, `^M` 0x0D (`CR`), `^^` 0x1E, any other pair nothing.
pub open spec fn escape_pair_value(c: u8) -> Seq<u8> {
    if c == 0x51 { seq![0x11u8] }
    else if c == 0x53 { seq![0x13u8] }
    else if c == 0x4D { seq![0x0Du8] }
    else if c == 0x5E { seq![0x1Eu8] }
    else { Seq::empty() }
}

/// Law: how the Spaceball reader treats each byte. Outside an escape pair,
/// `CR` (0x0D) ends the packet: the reader reports it, wire bytes with the
/// `CR`, unless nothing was decoded, and starts afresh either way; `^`
/// (0x5E) opens an escape pair and decodes to nothing yet; any other byte
/// is kept as it is. The byte after `^` closes the pair, decodes as the
/// pair says, and never ends the packet, even if it is `CR`. Every byte
/// goes into the wire bytes.
pub proof fn lemma_sb_byte_literals(s: SbState, b: u8)
    ensures
        sb_fresh() == (SbState { wire: Seq::empty(), decoded: Seq::empty(), escape: false }),
        !s.escape && b == 0x0D && s.decoded.len() > 0 ==>
            sb_step(s, ReadEvent::Byte(b)) == (sb_fresh(), SbOutput::Packet(s.wire.push(0x0Du8), s.decoded)),
        !s.escape && b == 0x0D && s.decoded.len() == 0 ==>
            sb_step(s, ReadEvent::Byte(b)) == (sb_fresh(), SbOutput::Pending),
        !s.escape && b == 0x5E ==> sb_step(s, ReadEvent::Byte(b))
            == (SbState { wire: s.wire.push(0x5Eu8), decoded: s.decoded, escape: true }, SbOutput::Pending),
        !s.escape && b != 0x0D && b != 0x5E ==> sb_step(s, ReadEvent::Byte(b))
            == (SbState { wire: s.wire.push(b), decoded: s.decoded.push(b), escape: false }, SbOutput::Pending),
        s.escape ==> sb_step(s, ReadEvent::Byte(b))
            == (SbState { wire: s.wire.push(b), decoded: s.decoded + escape_pair_value(b), escape: false }, SbOutput::Pending),
{
}

/// Law: how the Spaceball reader treats a read that brings no byte. A
/// timeout is waited out, except right after `^`, where it is an error; a
/// failed read is an error; the end of the line ends the stream. An error or
/// the end drops the partial packet.
pub proof fn lemma_sb_no_byte_literals(s: SbState)
    ensures
        !s.escape ==> sb_step(s, ReadEvent::TimedOut) == (s, SbOutput::Pending),
        s.escape ==> sb_step(s, ReadEvent::TimedOut) == (sb_fresh(), SbOutput::Failed(StreamError::TimedOut)),
        sb_step(s, ReadEvent::Failed) == (sb_fresh(), SbOutput::Failed(StreamError::Failed)),
        sb_step(s, ReadEvent::Closed) == (sb_fresh(), SbOutput::End),
{
}

/// Law: what the Spaceball reader hands its caller: a packet with its wire
/// bytes and the packet parsed from its decoded bytes; an error with the
/// read that caused it.
pub proof fn lemma_sb_reported(r: StreamStep<SpaceballPacket>, wire: Seq<u8>, decoded: Seq<u8>, e: StreamError)
    ensures
        sb_reported(r, SbOutput::Packet(wire, decoded)) ==> (r matches StreamStep::Packet(rp)
            && rp.raw@ == wire && spaceball_packet_of(decoded, rp.packet)),
        sb_reported(r, SbOutput::Failed(e)) ==> r == StreamStep::<SpaceballPacket>::Error(e),
        sb_reported(r, SbOutput::Pending) ==> r is Pending,
        sb_reported(r, SbOutput::End) ==> r is End,
{
}

// ── Spaceball events ─────────────────────────────────────────────────────────

/// Law: a ball packet with a non-zero period sets the period that motion
/// covers; one with period 0, and any other packet, leaves it as it was;
/// before any packet it is 800 (50 ms at 20 Hz).
pub proof fn lemma_period_literals(last: u16, p: SpaceballPacket)
    ensures
        period_after(Seq::<SpaceballPacket>::empty()) == 800,
        has_period(p) <==> (p matches SpaceballPacket::Ball(b) && b.period != 0),
        (p matches SpaceballPacket::Ball(b) && b.period != 0) ==> next_period(last, p) == p->Ball_0.period,
        !(p matches SpaceballPacket::Ball(b) && b.period != 0) ==> next_period(last, p) == last,
{
}

// ── Probes ───────────────────────────────────────────────────────────────────

/// Law: the Spaceball probe over every reply. Before the query, only the
/// Spaceball's power-up `@` (0x40) confirms it, only the SpaceOrb's reset
/// `R` (0x52) rules it out, and every other reply, silence and `CR`
/// included, calls for the query. After the query only the SpaceOrb's `!`
/// (0x21) rules it out; every other reply, silence included, confirms it.
pub proof fn lemma_spaceball_probe_literals(reply: Option<u8>)
    ensures
        (spaceball_probe_action(false, reply) == ProbeAction::Open) <==> reply == Some(0x40u8),
        (spaceball_probe_action(false, reply) == ProbeAction::Reject) <==> reply == Some(0x52u8),
        (spaceball_probe_action(false, reply) == ProbeAction::SendQuery)
            <==> (reply != Some(0x40u8) && reply != Some(0x52u8)),
        (spaceball_probe_action(true, reply) == ProbeAction::Reject) <==> reply == Some(0x21u8),
        (spaceball_probe_action(true, reply) == ProbeAction::Open) <==> reply != Some(0x21u8),
{
}

/// Law: the SpaceOrb probe over every reply. While it polls, only the
/// SpaceOrb's start-up `R` (0x52) or `!` (0x21) confirms it, only the
/// Spaceball's `@` (0x40) rules it out, and every other reply, silence and
/// the header of a Spaceball packet included, means polling on. After the
/// query only `!` confirms it.
pub proof fn lemma_spaceorb_probe_literals(reply: Option<u8>)
    ensures
        (spaceorb_probe_action(false, reply) == ProbeAction::Open)
            <==> (reply == Some(0x52u8) || reply == Some(0x21u8)),
        (spaceorb_probe_action(false, reply) == ProbeAction::Reject) <==> reply == Some(0x40u8),
        (spaceorb_probe_action(false, reply) == ProbeAction::KeepReading)
            <==> (reply != Some(0x52u8) && reply != Some(0x21u8) && reply != Some(0x40u8)),
        (spaceorb_probe_action(true, reply) == ProbeAction::Open) <==> reply == Some(0x21u8),
        (spaceorb_probe_action(true, reply) == ProbeAction::Reject) <==> reply != Some(0x21u8),
{
}

// ── Ports ────────────────────────────────────────────────────────────────────

/// `/dev/tty.` starts at character `i` of `name`.
pub open spec fn dial_in_at(name: Seq<char>, i: int) -> bool {
    &&& 0 <= i && i + 9 <= name.len()
    &&& name[i] == '/' && name[i + 1] == 'd' && name[i + 2] == 'e' && name[i + 3] == 'v'
    &&& name[i + 4] == '/' && name[i + 5] == 't' && name[i + 6] == 't' && name[i + 7] == 'y'
    &&& name[i + 8] == '.'
}

/// Law: a port is worth probing exactly when it is a USB port whose name
/// holds no `/dev/tty.` (a macOS dial-in device).
pub proof fn lemma_candidate_literals(name: Seq<char>, is_usb: bool)
    ensures
        is_candidate(name, is_usb) <==> (is_usb && !exists|i: int| #[trigger] dial_in_at(name, i)),
{
    let pat = crate::ports::dial_in_marker();
    if exists|i: int| #[trigger] dial_in_at(name, i) {
        let i = choose|i: int| #[trigger] dial_in_at(name, i);
        assert(name.subrange(i, i + pat.len()) =~= pat);
    }
    if crate::ports::has_infix(name, pat) {
        let i = choose|i: int| 0 <= i && i + pat.len() <= name.len() && #[trigger] name.subrange(i, i + pat.len()) == pat;
        let w = name.subrange(i, i + pat.len());
        assert(w[0] == pat[0] && w[1] == pat[1] && w[2] == pat[2] && w[3] == pat[3] && w[4] == pat[4]);
        assert(w[5] == pat[5] && w[6] == pat[6] && w[7] == pat[7] && w[8] == pat[8]);
        assert(dial_in_at(name, i));
    }
}

} // verus!
