use vstd::prelude::*;
use crate::bits::bit_set;
use crate::buttons::ButtonState;
use crate::stream::{byte_events, RawPacket, ReadEvent, StreamError, StreamStep};

verus! {

/// Two's-complement value of the low ten bits of `v`.
pub open spec fn signed10(v: u16) -> int {
    let low = (v & 0x3FF) as int;
    if low >= 512 { low - 1024 } else { low }
}

proof fn lemma_sign10(w: u16)
    by (bit_vector)
    ensures
        (w & 0x3FF) <= 0x3FF,
        (w & 0x3FF) & 0x200 != 0 <==> (w & 0x3FF) >= 512,
        (w & 0x3FF) & 0x200 != 0 ==> (((w & 0x3FF) as i16) | (-1i16 << 10u16)) == ((w & 0x3FF) as i16) - 1024,
        (w & 0x3FF) & 0x200 == 0 ==> ((w & 0x3FF) as i16) == (w & 0x3FF),
        ((w & 0x3FF) as i16) == (w & 0x3FF),
{
}

/// Sign-extend the low ten bits of `v` to an `i16`.
pub fn sign10(v: u16) -> (r: i16)
    ensures
        r as int == signed10(v),
        -512 <= r < 512,
{
    proof { lemma_sign10(v); }
    let v = v & 0x3FF;
    if v & 0x200 != 0 {
        (v as i16) | (-1i16 << 10u16)
    } else {
        v as i16
    }
}

/// Byte `i` of the ASCII text "SpaceWare", which the SpaceOrb XORs over the
/// nine data bytes of a ball packet.
pub open spec fn spaceware_byte(i: int) -> u8 {
    if i == 0 { 0x53 }
    else if i == 1 { 0x70 }
    else if i == 2 { 0x61 }
    else if i == 3 { 0x63 }
    else if i == 4 { 0x65 }
    else if i == 5 { 0x57 }
    else if i == 6 { 0x61 }
    else if i == 7 { 0x72 }
    else { 0x65 }
}

/// The 7-bit group carried by data byte `i` once the "SpaceWare" mask is removed.
pub open spec fn ball_group(bytes: Seq<u8>, i: int) -> u8 {
    (bytes[i] ^ spaceware_byte(i)) & 0x7F
}

/// The 63 payload bits of a ball packet: the nine 7-bit groups, first group
/// most significant.
pub open spec fn ball_bits(bytes: Seq<u8>) -> u64 {
    ((ball_group(bytes, 0) as u64) << 56u64)
        | ((ball_group(bytes, 1) as u64) << 49u64)
        | ((ball_group(bytes, 2) as u64) << 42u64)
        | ((ball_group(bytes, 3) as u64) << 35u64)
        | ((ball_group(bytes, 4) as u64) << 28u64)
        | ((ball_group(bytes, 5) as u64) << 21u64)
        | ((ball_group(bytes, 6) as u64) << 14u64)
        | ((ball_group(bytes, 7) as u64) << 7u64)
        | (ball_group(bytes, 8) as u64)
}

/// Bit position of the lowest bit of 10-bit field `k` within `ball_bits`:
/// the six fields are packed from the top, leaving three unused low bits.
pub open spec fn field_shift(k: int) -> u64 {
    (53 - 10 * k) as u64
}

/// The unsigned 10-bit field `k` (0..6) of a ball packet: force x, y, z,
/// then torque x, y, z.
pub open spec fn ball_field(bytes: Seq<u8>, k: int) -> u16 {
    ((ball_bits(bytes) >> field_shift(k)) & 0x3FF) as u16
}

proof fn lemma_fields(
    g0: u8, g1: u8, g2: u8, g3: u8, g4: u8, g5: u8, g6: u8, g7: u8, g8: u8, n: u64,
)
    by (bit_vector)
    requires
        g0 <= 0x7F, g1 <= 0x7F, g2 <= 0x7F, g3 <= 0x7F, g4 <= 0x7F,
        g5 <= 0x7F, g6 <= 0x7F, g7 <= 0x7F, g8 <= 0x7F,
        n == ((g0 as u64) << 56u64) | ((g1 as u64) << 49u64) | ((g2 as u64) << 42u64)
            | ((g3 as u64) << 35u64) | ((g4 as u64) << 28u64) | ((g5 as u64) << 21u64)
            | ((g6 as u64) << 14u64) | ((g7 as u64) << 7u64) | (g8 as u64),
    ensures
        ((n >> 53u64) & 0x3FF) as u16 == (((g0 as u16) << 3u16) | ((g1 as u16) >> 4u16)),
        ((n >> 43u64) & 0x3FF) as u16 == ((((g1 & 0x0F) as u16) << 6u16) | ((g2 as u16) >> 1u16)),
        ((n >> 33u64) & 0x3FF) as u16 == ((((g2 & 0x01) as u16) << 9u16) | ((g3 as u16) << 2u16) | ((g4 as u16) >> 5u16)),
        ((n >> 23u64) & 0x3FF) as u16 == ((((g4 & 0x1F) as u16) << 5u16) | ((g5 as u16) >> 2u16)),
        ((n >> 13u64) & 0x3FF) as u16 == ((((g5 & 0x03) as u16) << 8u16) | ((g6 as u16) << 1u16) | ((g7 as u16) >> 6u16)),
        ((n >> 3u64) & 0x3FF) as u16 == ((((g7 & 0x3F) as u16) << 4u16) | ((g8 as u16) >> 3u16)),
{
}

/// The six 10-bit fields of a ball packet's data bytes, in terms of its
/// 7-bit groups.
pub proof fn lemma_ball_fields_of(bytes: Seq<u8>)
    requires
        bytes.len() == 9,
    ensures
        ({
            let g0 = ball_group(bytes, 0); let g1 = ball_group(bytes, 1); let g2 = ball_group(bytes, 2);
            let g3 = ball_group(bytes, 3); let g4 = ball_group(bytes, 4); let g5 = ball_group(bytes, 5);
            let g6 = ball_group(bytes, 6); let g7 = ball_group(bytes, 7); let g8 = ball_group(bytes, 8);
            &&& ball_field(bytes, 0) == (((g0 as u16) << 3u16) | ((g1 as u16) >> 4u16))
            &&& ball_field(bytes, 1) == ((((g1 & 0x0F) as u16) << 6u16) | ((g2 as u16) >> 1u16))
            &&& ball_field(bytes, 2) == ((((g2 & 0x01) as u16) << 9u16) | ((g3 as u16) << 2u16) | ((g4 as u16) >> 5u16))
            &&& ball_field(bytes, 3) == ((((g4 & 0x1F) as u16) << 5u16) | ((g5 as u16) >> 2u16))
            &&& ball_field(bytes, 4) == ((((g5 & 0x03) as u16) << 8u16) | ((g6 as u16) << 1u16) | ((g7 as u16) >> 6u16))
            &&& ball_field(bytes, 5) == ((((g7 & 0x3F) as u16) << 4u16) | ((g8 as u16) >> 3u16))
        }),
{
    let b = bytes;
    lemma_mask7(b[0], spaceware_byte(0));
    lemma_mask7(b[1], spaceware_byte(1));
    lemma_mask7(b[2], spaceware_byte(2));
    lemma_mask7(b[3], spaceware_byte(3));
    lemma_mask7(b[4], spaceware_byte(4));
    lemma_mask7(b[5], spaceware_byte(5));
    lemma_mask7(b[6], spaceware_byte(6));
    lemma_mask7(b[7], spaceware_byte(7));
    lemma_mask7(b[8], spaceware_byte(8));
    lemma_fields(
        ball_group(b, 0), ball_group(b, 1), ball_group(b, 2), ball_group(b, 3), ball_group(b, 4),
        ball_group(b, 5), ball_group(b, 6), ball_group(b, 7), ball_group(b, 8), ball_bits(b),
    );
    assert(field_shift(0) == 53 && field_shift(1) == 43 && field_shift(2) == 33);
    assert(field_shift(3) == 23 && field_shift(4) == 13 && field_shift(5) == 3);
}

proof fn lemma_mask7(b: u8, k: u8)
    by (bit_vector)
    ensures
        (b ^ k) & 0x7F <= 0x7F,
{
}

/// Force and torque of a SpaceOrb ball packet, as 10-bit signed integers.
#[derive(Debug, Clone, Copy, PartialEq, Eq)]
pub struct SpaceOrbBallEvent {
    pub force: [i16; 3],
    pub torque: [i16; 3],
}

/// Decode the nine packed data bytes of a ball packet: remove the
/// "SpaceWare" mask, take the six 10-bit fields from the top of the 63
/// payload bits, and sign-extend each.
pub fn decode_ball_data(bytes: &[u8; 9]) -> (r: SpaceOrbBallEvent)
    ensures
        forall|k: int| 0 <= k < 3 ==> r.force[k] as int == signed10(#[trigger] ball_field(bytes@, k)),
        forall|k: int| 0 <= k < 3 ==> r.torque[k] as int == signed10(#[trigger] ball_field(bytes@, k + 3)),
        forall|k: int| 0 <= k < 3 ==> -512 <= #[trigger] r.force[k] < 512 && -512 <= r.torque[k] < 512,
{
    let d0 = (bytes[0] ^ 0x53) & 0x7F;
    let d1 = (bytes[1] ^ 0x70) & 0x7F;
    let d2 = (bytes[2] ^ 0x61) & 0x7F;
    let d3 = (bytes[3] ^ 0x63) & 0x7F;
    let d4 = (bytes[4] ^ 0x65) & 0x7F;
    let d5 = (bytes[5] ^ 0x57) & 0x7F;
    let d6 = (bytes[6] ^ 0x61) & 0x7F;
    let d7 = (bytes[7] ^ 0x72) & 0x7F;
    let d8 = (bytes[8] ^ 0x65) & 0x7F;
    proof {
        let b = bytes@;
        assert(d0 == ball_group(b, 0) && d1 == ball_group(b, 1) && d2 == ball_group(b, 2));
        assert(d3 == ball_group(b, 3) && d4 == ball_group(b, 4) && d5 == ball_group(b, 5));
        assert(d6 == ball_group(b, 6) && d7 == ball_group(b, 7) && d8 == ball_group(b, 8));
        lemma_mask7(bytes[0], 0x53);
        lemma_mask7(bytes[1], 0x70);
        lemma_mask7(bytes[2], 0x61);
        lemma_mask7(bytes[3], 0x63);
        lemma_mask7(bytes[4], 0x65);
        lemma_mask7(bytes[5], 0x57);
        lemma_mask7(bytes[6], 0x61);
        lemma_mask7(bytes[7], 0x72);
        lemma_mask7(bytes[8], 0x65);
        lemma_fields(d0, d1, d2, d3, d4, d5, d6, d7, d8, ball_bits(b));
        assert(field_shift(0) == 53 && field_shift(1) == 43 && field_shift(2) == 33);
        assert(field_shift(3) == 23 && field_shift(4) == 13 && field_shift(5) == 3);
    }

    let fx = ((d0 as u16) << 3u16) | ((d1 as u16) >> 4u16);
    let fy = (((d1 & 0x0F) as u16) << 6u16) | ((d2 as u16) >> 1u16);
    let fz = (((d2 & 0x01) as u16) << 9u16) | ((d3 as u16) << 2u16) | ((d4 as u16) >> 5u16);
    let tx = (((d4 & 0x1F) as u16) << 5u16) | ((d5 as u16) >> 2u16);
    let ty = (((d5 & 0x03) as u16) << 8u16) | ((d6 as u16) << 1u16) | ((d7 as u16) >> 6u16);
    let tz = (((d7 & 0x3F) as u16) << 4u16) | ((d8 as u16) >> 3u16);

    let r = SpaceOrbBallEvent {
        force: [sign10(fx), sign10(fy), sign10(fz)],
        torque: [sign10(tx), sign10(ty), sign10(tz)],
    };
    proof {
        assert forall|k: int| 0 <= k < 3 implies r.force[k] as int == signed10(#[trigger] ball_field(bytes@, k)) by {
            if k == 0 {} else if k == 1 {} else {}
        }
        assert forall|k: int| 0 <= k < 3 implies r.torque[k] as int == signed10(#[trigger] ball_field(bytes@, k + 3)) by {
            if k == 0 {} else if k == 1 {} else {}
        }
    }
    r
}


/// The 63 payload bits that carry six 10-bit two's-complement values
/// (force x, y, z, torque x, y, z), packed from the top.
pub open spec fn pack_ball_fields(v: Seq<i16>) -> u64 {
    ((((v[0] as u16) & 0x3FF) as u64) << 53u64)
        | ((((v[1] as u16) & 0x3FF) as u64) << 43u64)
        | ((((v[2] as u16) & 0x3FF) as u64) << 33u64)
        | ((((v[3] as u16) & 0x3FF) as u64) << 23u64)
        | ((((v[4] as u16) & 0x3FF) as u64) << 13u64)
        | ((((v[5] as u16) & 0x3FF) as u64) << 3u64)
}

/// Data bytes a SpaceOrb may send for the values `v`. The 63 payload bits
/// carry `v` packed from the top and `pad` (0..8) in the three unused low
/// bits; byte `j` holds the `j`-th 7-bit group with top bit `high[j]` (0x00
/// or 0x80), masked with "SpaceWare".
pub open spec fn encode_ball_data_with(v: Seq<i16>, pad: u64, high: Seq<u8>) -> Seq<u8> {
    Seq::new(
        9,
        |j: int|
            (((((pack_ball_fields(v) | pad) >> ((56 - 7 * j) as u64)) & 0x7F) as u8) | high[j])
                ^ spaceware_byte(j),
    )
}

/// The nine data bytes a SpaceOrb sends for the values `v`: each 7-bit group
/// of the payload with its top bit set, zero padding, masked with
/// "SpaceWare".
pub open spec fn encode_ball_data(v: Seq<i16>) -> Seq<u8> {
    encode_ball_data_with(v, 0, Seq::new(9, |j: int| 0x80u8))
}

/// Top bits for the nine data bytes: each 0x00 or 0x80.
pub open spec fn valid_high_bits(high: Seq<u8>) -> bool {
    high.len() == 9 && forall|j: int| 0 <= j < 9 ==> #[trigger] high[j] == 0u8 || high[j] == 0x80u8
}

proof fn lemma_unmask(n: u64, s: u64, h: u8, k: u8)
    by (bit_vector)
    requires
        h == 0 || h == 0x80,
    ensures
        ((((((n >> s) & 0x7F) as u8) | h) ^ k) ^ k) & 0x7F == ((n >> s) & 0x7F) as u8,
{
}

proof fn lemma_regroup(n: u64)
    by (bit_vector)
    requires
        n >> 63u64 == 0,
    ensures
        ((((n >> 56u64) & 0x7F) as u8 as u64) << 56u64)
            | ((((n >> 49u64) & 0x7F) as u8 as u64) << 49u64)
            | ((((n >> 42u64) & 0x7F) as u8 as u64) << 42u64)
            | ((((n >> 35u64) & 0x7F) as u8 as u64) << 35u64)
            | ((((n >> 28u64) & 0x7F) as u8 as u64) << 28u64)
            | ((((n >> 21u64) & 0x7F) as u8 as u64) << 21u64)
            | ((((n >> 14u64) & 0x7F) as u8 as u64) << 14u64)
            | ((((n >> 7u64) & 0x7F) as u8 as u64) << 7u64)
            | (((n & 0x7F) as u8) as u64) == n,
{
}

proof fn lemma_unpack(a: u16, b: u16, c: u16, d: u16, e: u16, f: u16, pad: u64, n: u64)
    by (bit_vector)
    requires
        pad < 8,
        n == ((((a & 0x3FF) as u64) << 53u64) | (((b & 0x3FF) as u64) << 43u64)
            | (((c & 0x3FF) as u64) << 33u64) | (((d & 0x3FF) as u64) << 23u64)
            | (((e & 0x3FF) as u64) << 13u64) | (((f & 0x3FF) as u64) << 3u64)) | pad,
    ensures
        n >> 63u64 == 0,
        ((n >> 53u64) & 0x3FF) as u16 == a & 0x3FF,
        ((n >> 43u64) & 0x3FF) as u16 == b & 0x3FF,
        ((n >> 33u64) & 0x3FF) as u16 == c & 0x3FF,
        ((n >> 23u64) & 0x3FF) as u16 == d & 0x3FF,
        ((n >> 13u64) & 0x3FF) as u16 == e & 0x3FF,
        ((n >> 3u64) & 0x3FF) as u16 == f & 0x3FF,
{
}

proof fn lemma_sign10_inverse(x: i16)
    by (bit_vector)
    requires
        -512 <= x < 512,
    ensures
        (((x as u16) & 0x3FF) >= 512 ==> ((x as u16) & 0x3FF) as int - 1024 == x as int),
        (((x as u16) & 0x3FF) < 512 ==> ((x as u16) & 0x3FF) as int == x as int),
        ((x as u16) & 0x3FF) & 0x3FF == (x as u16) & 0x3FF,
{
}

/// Law: decoding inverts the SpaceOrb's packing. Data bytes that carry six
/// values in the 10-bit range decode back to those values, whatever the top
/// bit of each byte and whatever the three padding bits.
pub proof fn lemma_decode_inverts_packing(v: Seq<i16>, pad: u64, high: Seq<u8>)
    requires
        v.len() == 6,
        forall|k: int| 0 <= k < 6 ==> -512 <= #[trigger] v[k] < 512,
        pad < 8,
        valid_high_bits(high),
    ensures
        forall|k: int| 0 <= k < 6 ==>
            signed10(#[trigger] ball_field(encode_ball_data_with(v, pad, high), k)) == v[k] as int,
{
    let n = pack_ball_fields(v) | pad;
    let e = encode_ball_data_with(v, pad, high);
    lemma_unpack(
        #[verifier::truncate] (v[0] as u16),
        #[verifier::truncate] (v[1] as u16),
        #[verifier::truncate] (v[2] as u16),
        #[verifier::truncate] (v[3] as u16),
        #[verifier::truncate] (v[4] as u16),
        #[verifier::truncate] (v[5] as u16),
        pad,
        n,
    );
    assert forall|j: int| 0 <= j < 9 implies #[trigger] ball_group(e, j) == ((n >> ((56 - 7 * j) as u64)) & 0x7F) as u8 by {
        lemma_unmask(n, (56 - 7 * j) as u64, high[j], spaceware_byte(j));
    }
    assert(ball_group(e, 0) == ((n >> 56u64) & 0x7F) as u8);
    assert(ball_group(e, 1) == ((n >> 49u64) & 0x7F) as u8);
    assert(ball_group(e, 2) == ((n >> 42u64) & 0x7F) as u8);
    assert(ball_group(e, 3) == ((n >> 35u64) & 0x7F) as u8);
    assert(ball_group(e, 4) == ((n >> 28u64) & 0x7F) as u8);
    assert(ball_group(e, 5) == ((n >> 21u64) & 0x7F) as u8);
    assert(ball_group(e, 6) == ((n >> 14u64) & 0x7F) as u8);
    assert(ball_group(e, 7) == ((n >> 7u64) & 0x7F) as u8);
    assert(ball_group(e, 8) == ((n >> 0u64) & 0x7F) as u8);
    assert(n >> 0u64 == n) by (bit_vector);
    lemma_regroup(n);
    assert(ball_bits(e) == n);
    assert forall|k: int| 0 <= k < 6 implies signed10(#[trigger] ball_field(e, k)) == v[k] as int by {
        lemma_sign10_inverse(v[k]);
        if k == 0 {
            assert(ball_field(e, k) == (v[0] as u16) & 0x3FF);
        } else if k == 1 {
            assert(ball_field(e, k) == (v[1] as u16) & 0x3FF);
        } else if k == 2 {
            assert(ball_field(e, k) == (v[2] as u16) & 0x3FF);
        } else if k == 3 {
            assert(ball_field(e, k) == (v[3] as u16) & 0x3FF);
        } else if k == 4 {
            assert(ball_field(e, k) == (v[4] as u16) & 0x3FF);
        } else {
            assert(ball_field(e, k) == (v[5] as u16) & 0x3FF);
        }
    }
}

/// Law: the data bytes a SpaceOrb sends for six values in the 10-bit range
/// (top bits set, zero padding) decode back to those values.
pub proof fn lemma_decode_inverts_encode(v: Seq<i16>)
    requires
        v.len() == 6,
        forall|k: int| 0 <= k < 6 ==> -512 <= #[trigger] v[k] < 512,
    ensures
        forall|k: int| 0 <= k < 6 ==> signed10(#[trigger] ball_field(encode_ball_data(v), k)) == v[k] as int,
{
    lemma_decode_inverts_packing(v, 0, Seq::new(9, |j: int| 0x80u8));
}

/// Button state of a SpaceOrb key packet.
#[derive(Debug, Clone, Copy, PartialEq, Eq)]
pub struct SpaceOrbKeyEvent {
    pub rezero: bool,
    /// Buttons A to F: `buttons[0]` is A, `buttons[5]` is F.
    pub buttons: [bool; 6],
}

impl SpaceOrbKeyEvent {
    pub fn a(&self) -> (r: bool)
        ensures r == self.buttons[0],
    {
        self.buttons[0]
    }

    pub fn b(&self) -> (r: bool)
        ensures r == self.buttons[1],
    {
        self.buttons[1]
    }

    pub fn c(&self) -> (r: bool)
        ensures r == self.buttons[2],
    {
        self.buttons[2]
    }

    pub fn d(&self) -> (r: bool)
        ensures r == self.buttons[3],
    {
        self.buttons[3]
    }

    pub fn e(&self) -> (r: bool)
        ensures r == self.buttons[4],
    {
        self.buttons[4]
    }

    pub fn f(&self) -> (r: bool)
        ensures r == self.buttons[5],
    {
        self.buttons[5]
    }
}

impl ButtonState for SpaceOrbKeyEvent {
    open spec fn button_states(&self) -> Seq<bool> {
        self.buttons@
    }

    fn pressed(&self, index: usize) -> (r: bool) {
        if index < 6 {
            self.buttons[index]
        } else {
            false
        }
    }

    fn count(&self) -> (n: usize) {
        6
    }
}

/// Whether `c` is removed by `str::trim` among the characters a SpaceOrb
/// can send (all below U+0080): tab, line feed, vertical tab, form feed,
/// carriage return and space.
pub open spec fn is_trim_space(c: char) -> bool {
    c == ' ' || ('\t' <= c && c <= '\r')
}

/// `s` without its leading whitespace.
pub open spec fn trim_start(s: Seq<char>) -> Seq<char>
    decreases s.len(),
{
    if s.len() > 0 && is_trim_space(s[0]) {
        trim_start(s.drop_first())
    } else {
        s
    }
}

/// `s` without its trailing whitespace.
pub open spec fn trim_end(s: Seq<char>) -> Seq<char>
    decreases s.len(),
{
    if s.len() > 0 && is_trim_space(s.last()) {
        trim_end(s.drop_last())
    } else {
        s
    }
}

/// `s` without leading or trailing whitespace.
pub open spec fn trim(s: Seq<char>) -> Seq<char> {
    trim_end(trim_start(s))
}

/// The text of a reset or status packet: every byte after the header, with
/// its top bit cleared, read as a character.
pub open spec fn reset_chars(raw: Seq<u8>) -> Seq<char> {
    Seq::new((raw.len() - 1) as nat, |i: int| (raw[i + 1] & 0x7F) as char)
}

/// Appends `c` to `s` (std's `String::push`).
#[verifier::external_body]
fn push_char(s: &mut String, c: char)
    ensures
        final(s)@ == old(s)@.push(c),
{
    s.push(c);
}

proof fn lemma_trim_start_skip(s: Seq<char>, i: int)
    requires
        0 <= i <= s.len(),
        forall|j: int| 0 <= j < i ==> is_trim_space(#[trigger] s[j]),
    ensures
        trim_start(s) == trim_start(s.subrange(i, s.len() as int)),
    decreases i,
{
    if i > 0 {
        assert(s.drop_first() == s.subrange(1, s.len() as int));
        lemma_trim_start_skip(s.drop_first(), i - 1);
        assert(s.drop_first().subrange(i - 1, s.drop_first().len() as int) == s.subrange(i, s.len() as int));
    } else {
        assert(s.subrange(0, s.len() as int) == s);
    }
}

proof fn lemma_trim_end_cut(s: Seq<char>, e: int)
    requires
        0 <= e <= s.len(),
        forall|j: int| e <= j < s.len() ==> is_trim_space(#[trigger] s[j]),
    ensures
        trim_end(s) == trim_end(s.subrange(0, e)),
    decreases s.len() - e,
{
    if e < s.len() {
        assert(s.drop_last() == s.subrange(0, s.len() - 1));
        lemma_trim_end_cut(s.drop_last(), e);
        assert(s.drop_last().subrange(0, e) == s.subrange(0, e));
    } else {
        assert(s.subrange(0, e) == s);
    }
}

/// The trimmed text of a reset packet, built from `raw[1..]`.
fn reset_text(raw: &[u8]) -> (text: String)
    requires
        raw@.len() >= 1,
    ensures
        text@ == trim(reset_chars(raw@)),
{
    let n = raw.len();
    let ghost chars = reset_chars(raw@);
    let mut start: usize = 1;
    while start < n && is_space_byte(raw[start])
        invariant
            1 <= start <= n,
            n == raw@.len(),
            chars == reset_chars(raw@),
            forall|j: int| 0 <= j < start - 1 ==> is_trim_space(#[trigger] chars[j]),
        decreases n - start,
    {
        start = start + 1;
    }
    let mut end: usize = n;
    while end > start && is_space_byte(raw[end - 1])
        invariant
            1 <= start <= end <= n,
            n == raw@.len(),
            chars == reset_chars(raw@),
            forall|j: int| end - 1 <= j < n - 1 ==> is_trim_space(#[trigger] chars[j]),
        decreases end - start,
    {
        end = end - 1;
    }
    let ghost kept = chars.subrange(start - 1, end - 1);
    proof {
        lemma_trim_start_skip(chars, start - 1);
        let rest = chars.subrange(start - 1, chars.len() as int);
        if start < n {
            assert(rest[0] == chars[start - 1]);
            assert(trim_start(rest) == rest);
        } else {
            assert(rest.len() == 0);
        }
        lemma_trim_end_cut(rest, end - start);
        assert(rest.subrange(0, end - start) == kept);
        if end > start {
            assert(kept.last() == chars[end - 2]);
            assert(trim_end(kept) == kept);
        } else {
            assert(kept.len() == 0);
        }
    }
    let mut text = String::new();
    let mut i: usize = start;
    while i < end
        invariant
            1 <= start <= i <= end <= n,
            n == raw@.len(),
            chars == reset_chars(raw@),
            kept == chars.subrange(start - 1, end - 1),
            text@ == chars.subrange(start - 1, i - 1),
        decreases end - i,
    {
        let c = masked_char(raw[i]);
        push_char(&mut text, c);
        assert(c == chars[i - 1]);
        assert(chars.subrange(start - 1, i as int) =~= chars.subrange(start - 1, i - 1).push(c));
        i = i + 1;
    }
    text
}

/// Whether the character of the 7-bit packet byte `b` is whitespace to
/// `str::trim`.
fn is_space_byte(b: u8) -> (r: bool)
    ensures
        r == is_trim_space((b & 0x7F) as char),
{
    let c = b & 0x7F;
    c == 0x20 || (0x09 <= c && c <= 0x0D)
}

/// The character of a 7-bit packet byte.
fn masked_char(b: u8) -> (c: char)
    ensures
        c == (b & 0x7F) as char,
{
    (b & 0x7F) as char
}


/// A decoded SpaceOrb packet.
#[derive(Debug)]
pub enum SpaceOrbPacket {
    Ball(SpaceOrbBallEvent),
    Key(SpaceOrbKeyEvent),
    /// The text of a reset (`R`) or status (`!`) packet, trimmed.
    Reset(String),
    Error { brown_out: bool, eeprom: bool, hardware: bool },
    /// Any other packet: its bytes, header included, checksum excluded.
    Unknown(Vec<u8>),
}

/// `b` holds the force and torque encoded in the nine data bytes `bytes`.
pub open spec fn orb_ball_of(bytes: Seq<u8>, b: SpaceOrbBallEvent) -> bool {
    forall|k: int|
        0 <= k < 3 ==> #[trigger] b.force[k] as int == signed10(ball_field(bytes, k))
            && b.torque[k] as int == signed10(ball_field(bytes, k + 3))
}

/// `k` holds the buttons of the status byte of a key packet.
pub open spec fn orb_key_of(status: u8, k: SpaceOrbKeyEvent) -> bool {
    &&& k.rezero == bit_set(status, 6)
    &&& forall|i: int| 0 <= i < 6 ==> #[trigger] k.buttons[i] == bit_set(status, i)
}

/// `p` is the packet that `raw` (header and data bytes, checksum excluded)
/// decodes to. A ball packet is `D`, a period byte and nine data bytes; a
/// key packet is `K`, a period byte, the status byte and one more; an error
/// packet is `E`, the flag byte and one more; `R` and `!` carry text.
pub open spec fn spaceorb_packet_of(raw: Seq<u8>, p: SpaceOrbPacket) -> bool {
    if raw.len() == 11 && raw[0] == 0x44u8 {
        p matches SpaceOrbPacket::Ball(b) && orb_ball_of(raw.subrange(2, 11), b)
    } else if raw.len() == 4 && raw[0] == 0x4Bu8 {
        p matches SpaceOrbPacket::Key(k) && orb_key_of(raw[2], k)
    } else if raw.len() == 3 && raw[0] == 0x45u8 {
        p matches SpaceOrbPacket::Error { brown_out, eeprom, hardware }
            && hardware == bit_set(raw[1], 0) && eeprom == bit_set(raw[1], 1)
            && brown_out == bit_set(raw[1], 2)
    } else if raw.len() > 0 && (raw[0] == 0x52u8 || raw[0] == 0x21u8) {
        p matches SpaceOrbPacket::Reset(s) && s@ == trim(reset_chars(raw))
    } else {
        p matches SpaceOrbPacket::Unknown(v) && v@ == raw
    }
}

/// Parse a SpaceOrb packet from its header and data bytes (checksum byte
/// already removed).
pub fn parse_orb_packet(raw: &[u8]) -> (p: SpaceOrbPacket)
    ensures
        spaceorb_packet_of(raw@, p),
{
    let n = raw.len();
    if n == 11 && raw[0] == 0x44 {
        let data: [u8; 9] = [raw[2], raw[3], raw[4], raw[5], raw[6], raw[7], raw[8], raw[9], raw[10]];
        assert(data@ =~= raw@.subrange(2, 11));
        SpaceOrbPacket::Ball(decode_ball_data(&data))
    } else if n == 4 && raw[0] == 0x4B {
        let status = raw[2];
        let k = SpaceOrbKeyEvent {
            rezero: (status & 0x40) != 0,
            buttons: [
                (status & 0x01) != 0,
                (status & 0x02) != 0,
                (status & 0x04) != 0,
                (status & 0x08) != 0,
                (status & 0x10) != 0,
                (status & 0x20) != 0,
            ],
        };
        assert forall|i: int| 0 <= i < 6 implies #[trigger] k.buttons[i] == bit_set(status, i) by {
            if i == 0 {} else if i == 1 {} else if i == 2 {} else if i == 3 {} else if i == 4 {} else {}
        }
        SpaceOrbPacket::Key(k)
    } else if n == 3 && raw[0] == 0x45 {
        let flags = raw[1];
        SpaceOrbPacket::Error {
            hardware: (flags & 0x01) != 0,
            eeprom: (flags & 0x02) != 0,
            brown_out: (flags & 0x04) != 0,
        }
    } else if n > 0 && (raw[0] == 0x52 || raw[0] == 0x21) {
        SpaceOrbPacket::Reset(reset_text(raw))
    } else {
        SpaceOrbPacket::Unknown(vstd::slice::slice_to_vec(raw))
    }
}


/// Where a SpaceOrb packet reader stands in the byte stream.
#[derive(Debug, Clone, Copy, PartialEq, Eq)]
pub enum OrbPhase {
    /// Waiting for a header byte.
    Header,
    /// Reading a body of this many bytes, checksum included.
    Fixed(usize),
    /// Reading a body that ends with the first byte whose top bit is set.
    UntilXor,
}

/// The model of a SpaceOrb packet reader.
pub struct OrbState {
    pub phase: OrbPhase,
    pub header: u8,
    pub body: Seq<u8>,
}

/// What a SpaceOrb packet reader reports for one read, in the model.
pub enum OrbOutput {
    Pending,
    /// A packet with these wire bytes: header, data and checksum.
    Packet(Seq<u8>),
    Failed,
    End,
}

/// The reader's state between packets.
pub open spec fn orb_fresh() -> OrbState {
    OrbState { phase: OrbPhase::Header, header: 0, body: Seq::empty() }
}

/// How the body after header `h` is delimited: ball, key, error and `N`
/// packets have a fixed length; any other packet runs to its checksum byte,
/// the first one with the top bit set.
pub open spec fn orb_phase_for(h: u8) -> OrbPhase {
    if h == 0x44 { OrbPhase::Fixed(11) }
    else if h == 0x4B { OrbPhase::Fixed(4) }
    else if h == 0x45 { OrbPhase::Fixed(3) }
    else if h == 0x4E { OrbPhase::Fixed(2) }
    else { OrbPhase::UntilXor }
}

/// A byte that cannot start a packet: the `CR` that ends one, or a data
/// byte (top bit set).
pub open spec fn orb_skipped_header(b: u8) -> bool {
    b == 0x0D || b & 0x80 != 0
}

/// Whether body `body` is complete in phase `phase`.
pub open spec fn orb_body_done(phase: OrbPhase, body: Seq<u8>) -> bool {
    match phase {
        OrbPhase::Fixed(n) => body.len() >= n,
        _ => body.len() > 0 && body.last() & 0x80 != 0,
    }
}

/// One read of a SpaceOrb packet reader. Timeouts are waited out. Between
/// packets a failed read is reported and the reader keeps its place; inside
/// a packet a failed read, like the end of the line, ends the stream and
/// drops the partial packet.
pub open spec fn orb_step(s: OrbState, ev: ReadEvent) -> (OrbState, OrbOutput) {
    match s.phase {
        OrbPhase::Header => match ev {
            ReadEvent::Byte(b) => if orb_skipped_header(b) {
                (s, OrbOutput::Pending)
            } else {
                (OrbState { phase: orb_phase_for(b), header: b, body: Seq::empty() }, OrbOutput::Pending)
            },
            ReadEvent::TimedOut => (s, OrbOutput::Pending),
            ReadEvent::Failed => (s, OrbOutput::Failed),
            ReadEvent::Closed => (s, OrbOutput::End),
        },
        _ => match ev {
            ReadEvent::Byte(b) => {
                let body = s.body.push(b);
                if orb_body_done(s.phase, body) {
                    (orb_fresh(), OrbOutput::Packet(seq![s.header] + body))
                } else {
                    (OrbState { phase: s.phase, header: s.header, body: body }, OrbOutput::Pending)
                }
            },
            ReadEvent::TimedOut => (s, OrbOutput::Pending),
            _ => (orb_fresh(), OrbOutput::End),
        },
    }
}

/// The state and the reports after the reads `evs`, starting from `s`.
pub open spec fn orb_run(s: OrbState, evs: Seq<ReadEvent>) -> (OrbState, Seq<OrbOutput>)
    decreases evs.len(),
{
    if evs.len() == 0 {
        (s, Seq::empty())
    } else {
        let (s1, outs) = orb_run(s, evs.drop_last());
        let (s2, o) = orb_step(s1, evs.last());
        (s2, outs.push(o))
    }
}

/// `r` is what the reader reports for the model's output `o`: a packet
/// carries the wire bytes and the packet parsed from them without the
/// checksum byte.
pub open spec fn orb_reported(r: StreamStep<SpaceOrbPacket>, o: OrbOutput) -> bool {
    match o {
        OrbOutput::Pending => r is Pending,
        OrbOutput::Packet(wire) => r matches StreamStep::Packet(rp)
            && rp.raw@ == wire && spaceorb_packet_of(wire.drop_last(), rp.packet),
        OrbOutput::Failed => r == StreamStep::<SpaceOrbPacket>::Error(StreamError::Failed),
        OrbOutput::End => r is End,
    }
}

/// Reads SpaceOrb packets from a byte stream, one read at a time.
pub struct SpaceOrbPacketIter {
    phase: OrbPhase,
    header: u8,
    body: Vec<u8>,
}

impl View for SpaceOrbPacketIter {
    type V = OrbState;

    closed spec fn view(&self) -> OrbState {
        OrbState { phase: self.phase, header: self.header, body: self.body@ }
    }
}

impl SpaceOrbPacketIter {
    /// A reader waiting for its first packet.
    pub fn new() -> (it: Self)
        ensures
            it@ == orb_fresh(),
    {
        SpaceOrbPacketIter { phase: OrbPhase::Header, header: 0, body: Vec::new() }
    }

    fn reset(&mut self)
        ensures
            final(self)@ == orb_fresh(),
    {
        self.phase = OrbPhase::Header;
        self.header = 0;
        self.body = Vec::new();
    }

    /// Take in one read and say what it completed.
    pub fn push(&mut self, ev: ReadEvent) -> (r: StreamStep<SpaceOrbPacket>)
        ensures
            final(self)@ == orb_step(old(self)@, ev).0,
            orb_reported(r, orb_step(old(self)@, ev).1),
    {
        match self.phase {
            OrbPhase::Header => match ev {
                ReadEvent::Byte(b) => {
                    if b == 0x0D || b & 0x80 != 0 {
                        StreamStep::Pending
                    } else {
                        self.phase = if b == 0x44 {
                            OrbPhase::Fixed(11)
                        } else if b == 0x4B {
                            OrbPhase::Fixed(4)
                        } else if b == 0x45 {
                            OrbPhase::Fixed(3)
                        } else if b == 0x4E {
                            OrbPhase::Fixed(2)
                        } else {
                            OrbPhase::UntilXor
                        };
                        self.header = b;
                        self.body = Vec::new();
                        StreamStep::Pending
                    }
                },
                ReadEvent::TimedOut => StreamStep::Pending,
                ReadEvent::Failed => StreamStep::Error(StreamError::Failed),
                ReadEvent::Closed => StreamStep::End,
            },
            _ => match ev {
                ReadEvent::Byte(b) => {
                    let done = match self.phase {
                        OrbPhase::Fixed(n) => self.read_exact_orb(b, n),
                        _ => self.read_until_xor(b),
                    };
                    if done {
                        let r = self.finish();
                        self.reset();
                        r
                    } else {
                        StreamStep::Pending
                    }
                },
                ReadEvent::TimedOut => StreamStep::Pending,
                _ => {
                    self.reset();
                    StreamStep::End
                },
            },
        }
    }

    /// One byte of a body of `n` bytes: whether the body is now complete.
    fn read_exact_orb(&mut self, b: u8, n: usize) -> (done: bool)
        ensures
            final(self)@ == (OrbState { body: old(self)@.body.push(b), ..old(self)@ }),
            done == (final(self)@.body.len() >= n),
    {
        self.body.push(b);
        self.body.len() >= n
    }

    /// One byte of a body that runs to its checksum byte: whether it was the
    /// checksum byte.
    fn read_until_xor(&mut self, b: u8) -> (done: bool)
        ensures
            final(self)@ == (OrbState { body: old(self)@.body.push(b), ..old(self)@ }),
            done == (b & 0x80 != 0),
    {
        self.body.push(b);
        b & 0x80 != 0
    }

    /// The packet made of the header and the complete body.
    fn finish(&self) -> (r: StreamStep<SpaceOrbPacket>)
        requires
            self@.body.len() > 0,
        ensures
            orb_reported(r, OrbOutput::Packet(seq![self@.header] + self@.body)),
    {
        let n = self.body.len();
        let mut wire: Vec<u8> = Vec::new();
        wire.push(self.header);
        let mut i: usize = 0;
        while i < n
            invariant
                i <= n,
                n == self@.body.len(),
                wire@ == seq![self@.header] + self@.body.subrange(0, i as int),
            decreases n - i,
        {
            wire.push(self.body[i]);
            assert(self@.body.subrange(0, i + 1) =~= self@.body.subrange(0, i as int).push(self@.body[i as int]));
            i = i + 1;
        }
        assert(self@.body.subrange(0, n as int) =~= self@.body);
        let packet = parse_orb_packet(vstd::slice::slice_subrange(wire.as_slice(), 0, n));
        assert(wire@.subrange(0, n as int) =~= wire@.drop_last());
        StreamStep::Packet(RawPacket { raw: wire, packet })
    }
}


/// `h` and `body` form one well-formed SpaceOrb packet: a header that can
/// start a packet and a body delimited as that header says, ending with its
/// checksum byte.
pub open spec fn orb_frame(h: u8, body: Seq<u8>) -> bool {
    &&& !orb_skipped_header(h)
    &&& body.len() > 0
    &&& match orb_phase_for(h) {
        OrbPhase::Fixed(n) => body.len() == n,
        _ => body.last() & 0x80 != 0 && forall|i: int| 0 <= i < body.len() - 1 ==> #[trigger] body[i] & 0x80 == 0,
    }
}

/// `n` reports of nothing.
pub open spec fn orb_pendings(n: nat) -> Seq<OrbOutput> {
    Seq::new(n, |i: int| OrbOutput::Pending)
}

proof fn lemma_orb_frame_prefix(h: u8, body: Seq<u8>, i: int)
    requires
        orb_frame(h, body),
        0 <= i < body.len(),
    ensures
        orb_run(orb_fresh(), byte_events(seq![h] + body.take(i))).0
            == (OrbState { phase: orb_phase_for(h), header: h, body: body.take(i) }),
        orb_run(orb_fresh(), byte_events(seq![h] + body.take(i))).1 =~= orb_pendings((i + 1) as nat),
    decreases i,
{
    let evs = byte_events(seq![h] + body.take(i));
    if i == 0 {
        assert(evs.drop_last() =~= Seq::<ReadEvent>::empty());
        assert(evs.last() == ReadEvent::Byte(h));
        assert(orb_run(orb_fresh(), evs.drop_last()) == (orb_fresh(), Seq::<OrbOutput>::empty()));
        assert(body.take(0) =~= Seq::<u8>::empty());
    } else {
        lemma_orb_frame_prefix(h, body, i - 1);
        assert(evs.drop_last() =~= byte_events(seq![h] + body.take(i - 1)));
        assert(evs.last() == ReadEvent::Byte(body[i - 1]));
        assert(body.take(i - 1).push(body[i - 1]) =~= body.take(i));
        let prev = orb_run(orb_fresh(), evs.drop_last());
        assert(prev.0 == (OrbState { phase: orb_phase_for(h), header: h, body: body.take(i - 1) }));
        assert(!orb_body_done(orb_phase_for(h), body.take(i))) by {
            match orb_phase_for(h) {
                OrbPhase::Fixed(n) => {},
                _ => {
                    assert(body.take(i).last() == body[i - 1]);
                },
            }
        }
        assert(orb_phase_for(h) != OrbPhase::Header);
    }
}

/// Law: a reader between packets that receives one well-formed packet
/// reports nothing until the packet's last byte, then reports that packet
/// with all its wire bytes, and stands between packets again.
pub proof fn lemma_orb_frame(h: u8, body: Seq<u8>)
    requires
        orb_frame(h, body),
    ensures
        orb_run(orb_fresh(), byte_events(seq![h] + body)).0 == orb_fresh(),
        orb_run(orb_fresh(), byte_events(seq![h] + body)).1
            =~= orb_pendings(body.len()).push(OrbOutput::Packet(seq![h] + body)),
{
    let n = body.len() as int;
    lemma_orb_frame_prefix(h, body, n - 1);
    let evs = byte_events(seq![h] + body);
    assert(evs.drop_last() =~= byte_events(seq![h] + body.take(n - 1)));
    assert(evs.last() == ReadEvent::Byte(body[n - 1]));
    assert(body.take(n - 1).push(body[n - 1]) =~= body);
    assert(seq![h] + body.take(n - 1).push(body[n - 1]) =~= seq![h] + body);
}

/// Law: reading `a` and then `b` is reading `a + b`: the reader's state
/// after `a` is all that `b` depends on, and the reports come in order.
pub proof fn lemma_orb_run_append(s: OrbState, a: Seq<ReadEvent>, b: Seq<ReadEvent>)
    ensures
        orb_run(s, a + b).0 == orb_run(orb_run(s, a).0, b).0,
        orb_run(s, a + b).1 =~= orb_run(s, a).1 + orb_run(orb_run(s, a).0, b).1,
    decreases b.len(),
{
    if b.len() == 0 {
        assert(a + b =~= a);
    } else {
        lemma_orb_run_append(s, a, b.drop_last());
        assert((a + b).drop_last() =~= a + b.drop_last());
        assert((a + b).last() == b.last());
    }
}

/// Law: between packets, the `CR` that ends a packet and stray data bytes
/// are passed over without a report.
pub proof fn lemma_orb_skips_noise(b: u8)
    requires
        orb_skipped_header(b),
    ensures
        orb_step(orb_fresh(), ReadEvent::Byte(b)) == (orb_fresh(), OrbOutput::Pending),
{
}

/// Law: a timeout changes nothing and reports nothing, wherever it comes.
pub proof fn lemma_orb_timeout_transparent(s: OrbState)
    ensures
        orb_step(s, ReadEvent::TimedOut) == (s, OrbOutput::Pending),
{
}


/// The states a reader between packets can reach: a header that can start
/// a packet, in the phase that header calls for, with an incomplete body.
pub open spec fn orb_wf(s: OrbState) -> bool {
    match s.phase {
        OrbPhase::Header => s == orb_fresh(),
        OrbPhase::Fixed(n) => {
            &&& s.phase == orb_phase_for(s.header)
            &&& !orb_skipped_header(s.header)
            &&& s.body.len() < n
        },
        OrbPhase::UntilXor => {
            &&& s.phase == orb_phase_for(s.header)
            &&& !orb_skipped_header(s.header)
            &&& forall|i: int| 0 <= i < s.body.len() ==> #[trigger] s.body[i] & 0x80 == 0
        },
    }
}

proof fn lemma_orb_step_wf(s: OrbState, ev: ReadEvent)
    requires
        orb_wf(s),
    ensures
        orb_wf(orb_step(s, ev).0),
        orb_step(s, ev).1 matches OrbOutput::Packet(wire)
            ==> wire.len() > 0 && orb_frame(wire[0], wire.drop_first()),
{
    if let ReadEvent::Byte(b) = ev {
        if s.phase != OrbPhase::Header {
            let body = s.body.push(b);
            assert((seq![s.header] + body)[0] == s.header);
            assert((seq![s.header] + body).drop_first() =~= body);
            assert(body.last() == b);
            assert forall|i: int| 0 <= i < body.len() - 1 implies #[trigger] body[i] == s.body[i] by {}
        }
    }
}

proof fn lemma_orb_run_len(s: OrbState, evs: Seq<ReadEvent>)
    ensures
        orb_run(s, evs).1.len() == evs.len(),
    decreases evs.len(),
{
    if evs.len() > 0 {
        lemma_orb_run_len(s, evs.drop_last());
    }
}

/// Law: whatever the reads, a reader that starts between packets only ever
/// reports well-formed packets: a header that can start a packet followed
/// by a body delimited as that header says.
pub proof fn lemma_orb_reports_frames(evs: Seq<ReadEvent>)
    ensures
        orb_wf(orb_run(orb_fresh(), evs).0),
        forall|i: int| 0 <= i < evs.len() ==>
            (#[trigger] orb_run(orb_fresh(), evs).1[i] matches OrbOutput::Packet(wire)
                ==> wire.len() > 0 && orb_frame(wire[0], wire.drop_first())),
    decreases evs.len(),
{
    if evs.len() > 0 {
        lemma_orb_reports_frames(evs.drop_last());
        lemma_orb_run_len(orb_fresh(), evs.drop_last());
        let (s1, outs) = orb_run(orb_fresh(), evs.drop_last());
        lemma_orb_step_wf(s1, evs.last());
        assert(orb_run(orb_fresh(), evs).1 == outs.push(orb_step(s1, evs.last()).1));
        assert forall|i: int| 0 <= i < evs.len() implies
            (#[trigger] orb_run(orb_fresh(), evs).1[i] matches OrbOutput::Packet(wire)
                ==> wire.len() > 0 && orb_frame(wire[0], wire.drop_first())) by {
            if i < evs.len() - 1 {
                assert(orb_run(orb_fresh(), evs).1[i] == outs[i]);
            }
        }
    }
}

/// Bytes that a reader between packets passes over: each is the `CR` that
/// ends a packet or a stray data byte.
pub open spec fn orb_noise(j: Seq<u8>) -> bool {
    forall|i: int| 0 <= i < j.len() ==> orb_skipped_header(#[trigger] j[i])
}

proof fn lemma_orb_noise_run(j: Seq<u8>)
    requires
        orb_noise(j),
    ensures
        orb_run(orb_fresh(), byte_events(j)).0 == orb_fresh(),
        orb_run(orb_fresh(), byte_events(j)).1 =~= orb_pendings(j.len()),
    decreases j.len(),
{
    if j.len() > 0 {
        let evs = byte_events(j);
        assert(evs.drop_last() =~= byte_events(j.drop_last()));
        assert(evs.last() == ReadEvent::Byte(j.last()));
        assert(orb_noise(j.drop_last()));
        lemma_orb_noise_run(j.drop_last());
        assert(orb_skipped_header(j[j.len() - 1]));
    } else {
        assert(byte_events(j) =~= Seq::<ReadEvent>::empty());
    }
}

/// Law: a reader between packets that receives any run of `CR`s and stray
/// data bytes, then one well-formed packet, reports nothing until the
/// packet's last byte, then that packet with exactly its wire bytes (the
/// skipped bytes are in no packet), and stands between packets again, so
/// whatever follows is read afresh.
pub proof fn lemma_orb_noise_then_frame(j: Seq<u8>, h: u8, body: Seq<u8>)
    requires
        orb_noise(j),
        orb_frame(h, body),
    ensures
        orb_run(orb_fresh(), byte_events(j + (seq![h] + body))).0 == orb_fresh(),
        orb_run(orb_fresh(), byte_events(j + (seq![h] + body))).1
            =~= orb_pendings(j.len() + body.len()).push(OrbOutput::Packet(seq![h] + body)),
{
    let f = seq![h] + body;
    assert(byte_events(j + f) =~= byte_events(j) + byte_events(f));
    lemma_orb_noise_run(j);
    lemma_orb_frame(h, body);
    lemma_orb_run_append(orb_fresh(), byte_events(j), byte_events(f));
    assert(orb_pendings(j.len()) + orb_pendings(body.len()).push(OrbOutput::Packet(f))
        =~= orb_pendings(j.len() + body.len()).push(OrbOutput::Packet(f)));
}

/// Law: force and torque travel intact from a SpaceOrb to the caller. A
/// reader between packets that receives a ball packet (`D`, any period
/// byte, nine data bytes carrying `v` with any top bits and padding, any
/// checksum byte) reports one packet, with exactly those wire bytes, and
/// every packet those bytes parse to is a ball event holding `v`.
pub proof fn lemma_orb_ball_frame(period: u8, v: Seq<i16>, pad: u64, high: Seq<u8>, checksum: u8)
    requires
        v.len() == 6,
        forall|k: int| 0 <= k < 6 ==> -512 <= #[trigger] v[k] < 512,
        pad < 8,
        valid_high_bits(high),
    ensures
        ({
            let body = seq![period] + encode_ball_data_with(v, pad, high) + seq![checksum];
            let wire = seq![0x44u8] + body;
            &&& orb_run(orb_fresh(), byte_events(wire)).0 == orb_fresh()
            &&& orb_run(orb_fresh(), byte_events(wire)).1
                =~= orb_pendings(body.len()).push(OrbOutput::Packet(wire))
            &&& forall|p: SpaceOrbPacket| #[trigger] spaceorb_packet_of(wire.drop_last(), p) ==>
                (p matches SpaceOrbPacket::Ball(b) && (forall|k: int| 0 <= k < 3 ==>
                    #[trigger] b.force[k] == v[k] && b.torque[k] == v[k + 3]))
        }),
{
    let e = encode_ball_data_with(v, pad, high);
    let body = seq![period] + e + seq![checksum];
    let wire = seq![0x44u8] + body;
    assert(e.len() == 9);
    assert(body.len() == 11);
    assert(orb_frame(0x44u8, body)) by {
        assert(0x44u8 & 0x80u8 == 0) by (bit_vector);
    }
    lemma_orb_frame(0x44u8, body);
    lemma_decode_inverts_packing(v, pad, high);
    assert(wire.drop_last().subrange(2, 11) =~= e);
    assert forall|p: SpaceOrbPacket| #[trigger] spaceorb_packet_of(wire.drop_last(), p) implies
        (p matches SpaceOrbPacket::Ball(b) && (forall|k: int| 0 <= k < 3 ==>
            #[trigger] b.force[k] == v[k] && b.torque[k] == v[k + 3])) by {
        assert(wire.drop_last().len() == 11);
        assert(wire.drop_last()[0] == 0x44u8);
        if let SpaceOrbPacket::Ball(b) = p {
            assert forall|k: int| 0 <= k < 3 implies #[trigger] b.force[k] == v[k] && b.torque[k] == v[k + 3] by {
                assert(signed10(ball_field(e, k)) == v[k] as int);
                assert(signed10(ball_field(e, k + 3)) == v[k + 3] as int);
            }
        }
    }
}

/// A device-level SpaceOrb event, before scaling to rates.
#[derive(Debug, Clone, Copy, PartialEq, Eq)]
pub enum SpaceOrbEvent {
    Motion(SpaceOrbBallEvent),
    Button(SpaceOrbKeyEvent),
}

/// The event for packet `p`: a ball packet gives motion, a key packet its
/// buttons; reset, error and unknown packets give nothing.
pub fn orb_event(p: &SpaceOrbPacket) -> (r: Option<SpaceOrbEvent>)
    ensures
        match *p {
            SpaceOrbPacket::Ball(b) => r == Some(SpaceOrbEvent::Motion(b)),
            SpaceOrbPacket::Key(k) => r == Some(SpaceOrbEvent::Button(k)),
            _ => r is None,
        },
{
    match p {
        SpaceOrbPacket::Ball(b) => Some(SpaceOrbEvent::Motion(*b)),
        SpaceOrbPacket::Key(k) => Some(SpaceOrbEvent::Button(*k)),
        _ => None,
    }
}

/// What to do with one read while discarding the SpaceOrb's start-up
/// packets after opening its port.
#[derive(Debug, Clone, Copy, PartialEq, Eq)]
pub enum DrainAction {
    /// A byte came: keep reading.
    KeepDraining,
    /// The line fell silent (or ended): the port is ready.
    Done,
    /// The read failed: opening fails with that error.
    Fail,
}

/// The drain decision for one read: read until silence.
pub fn drain_action(ev: ReadEvent) -> (a: DrainAction)
    ensures
        a == match ev {
            ReadEvent::Byte(_) => DrainAction::KeepDraining,
            ReadEvent::TimedOut | ReadEvent::Closed => DrainAction::Done,
            ReadEvent::Failed => DrainAction::Fail,
        },
{
    match ev {
        ReadEvent::Byte(_) => DrainAction::KeepDraining,
        ReadEvent::TimedOut => DrainAction::Done,
        ReadEvent::Closed => DrainAction::Done,
        ReadEvent::Failed => DrainAction::Fail,
    }
}

} // verus!
