use vstd::prelude::*;
use crate::bits::{be_i16, be_u16, bit_set, i16_from_be, u16_from_be};
use crate::buttons::ButtonState;
use crate::stream::{byte_events, RawPacket, ReadEvent, StreamError, StreamStep};

verus! {

/// A key press or release. Sent whenever any button changes state.
#[derive(Debug, Clone, Copy, PartialEq, Eq)]
pub struct SpaceballKeyEvent {
    /// Whether the pick button (beneath the ball) is pressed.
    pub pick: bool,
    /// Buttons 1 to 8: `buttons[0]` is button 1, `buttons[7]` is button 8.
    pub buttons: [bool; 8],
}

impl ButtonState for SpaceballKeyEvent {
    open spec fn button_states(&self) -> Seq<bool> {
        self.buttons@
    }

    fn pressed(&self, index: usize) -> (r: bool) {
        if index < 8 {
            self.buttons[index]
        } else {
            false
        }
    }

    fn count(&self) -> (n: usize) {
        8
    }
}

/// A ball displacement. Sent while the ball is in motion.
#[derive(Debug, Clone, Copy, PartialEq, Eq)]
pub struct SpaceballBallEvent {
    /// Time since the previous ball event, in 1/16 ms.
    pub period: u16,
    /// Translation displacement x, y, z.
    pub translation: [i16; 3],
    /// Rotation displacement x, y, z.
    pub rotation: [i16; 3],
}

/// A decoded Spaceball packet.
#[derive(Debug)]
pub enum SpaceballPacket {
    Key(SpaceballKeyEvent),
    Ball(SpaceballBallEvent),
    /// Any other packet: its decoded bytes, type byte included, final `CR`
    /// excluded.
    Unknown(Vec<u8>),
}

/// `k` holds the buttons of a key packet `raw` (`K` and two data bytes).
/// The first data byte is `010 pick b8 b7 b6 b5`, the second `0100 b4 b3 b2 b1`.
pub open spec fn spaceball_key_of(raw: Seq<u8>, k: SpaceballKeyEvent) -> bool {
    &&& k.pick == bit_set(raw[1], 4)
    &&& forall|i: int| 0 <= i < 4 ==> #[trigger] k.buttons[i] == bit_set(raw[2], i)
    &&& forall|i: int| 4 <= i < 8 ==> #[trigger] k.buttons[i] == bit_set(raw[1], i - 4)
}

/// `b` holds the ball packet `raw`: `D`, then the period and the six
/// displacements (translation x, y, z, rotation x, y, z), each big-endian.
pub open spec fn spaceball_ball_of(raw: Seq<u8>, b: SpaceballBallEvent) -> bool {
    &&& b.period as int == be_u16(raw[1], raw[2])
    &&& forall|k: int| 0 <= k < 3 ==> #[trigger] b.translation[k] as int == be_i16(raw[3 + 2 * k], raw[4 + 2 * k])
    &&& forall|k: int| 0 <= k < 3 ==> #[trigger] b.rotation[k] as int == be_i16(raw[9 + 2 * k], raw[10 + 2 * k])
}

/// `p` is the packet that the decoded bytes `raw` (type byte first, no
/// final `CR`) stand for.
pub open spec fn spaceball_packet_of(raw: Seq<u8>, p: SpaceballPacket) -> bool {
    if raw.len() == 3 && raw[0] == 0x4Bu8 {
        p matches SpaceballPacket::Key(k) && spaceball_key_of(raw, k)
    } else if raw.len() == 15 && raw[0] == 0x44u8 {
        p matches SpaceballPacket::Ball(b) && spaceball_ball_of(raw, b)
    } else {
        p matches SpaceballPacket::Unknown(v) && v@ == raw
    }
}

/// Parse the decoded bytes of one Spaceball packet.
pub fn parse_packet(raw: Vec<u8>) -> (p: SpaceballPacket)
    ensures
        spaceball_packet_of(raw@, p),
{
    let n = raw.len();
    if n == 3 && raw[0] == 0x4B {
        let b1 = raw[1];
        let b2 = raw[2];
        let k = SpaceballKeyEvent {
            pick: (b1 & 0x10) != 0,
            buttons: [
                (b2 & 0x01) != 0,
                (b2 & 0x02) != 0,
                (b2 & 0x04) != 0,
                (b2 & 0x08) != 0,
                (b1 & 0x01) != 0,
                (b1 & 0x02) != 0,
                (b1 & 0x04) != 0,
                (b1 & 0x08) != 0,
            ],
        };
        assert forall|i: int| 0 <= i < 4 implies #[trigger] k.buttons[i] == bit_set(raw@[2], i) by {
            if i == 0 {} else if i == 1 {} else if i == 2 {} else {}
        }
        assert forall|i: int| 4 <= i < 8 implies #[trigger] k.buttons[i] == bit_set(raw@[1], i - 4) by {
            if i == 4 {} else if i == 5 {} else if i == 6 {} else {}
        }
        SpaceballPacket::Key(k)
    } else if n == 15 && raw[0] == 0x44 {
        let b = SpaceballBallEvent {
            period: u16_from_be(raw[1], raw[2]),
            translation: [
                i16_from_be(raw[3], raw[4]),
                i16_from_be(raw[5], raw[6]),
                i16_from_be(raw[7], raw[8]),
            ],
            rotation: [
                i16_from_be(raw[9], raw[10]),
                i16_from_be(raw[11], raw[12]),
                i16_from_be(raw[13], raw[14]),
            ],
        };
        assert forall|k: int| 0 <= k < 3 implies #[trigger] b.translation[k] as int == be_i16(raw@[3 + 2 * k], raw@[4 + 2 * k]) by {
            if k == 0 {} else if k == 1 {} else {}
        }
        assert forall|k: int| 0 <= k < 3 implies #[trigger] b.rotation[k] as int == be_i16(raw@[9 + 2 * k], raw@[10 + 2 * k]) by {
            if k == 0 {} else if k == 1 {} else {}
        }
        SpaceballPacket::Ball(b)
    } else {
        SpaceballPacket::Unknown(raw)
    }
}


/// The model of a Spaceball packet reader: the wire bytes and decoded
/// bytes of the packet so far, and whether the last byte was the escape
/// byte `^`.
pub struct SbState {
    pub wire: Seq<u8>,
    pub decoded: Seq<u8>,
    pub escape: bool,
}

/// What a Spaceball packet reader reports for one read, in the model.
pub enum SbOutput {
    Pending,
    /// A packet: its wire bytes (final `CR` included) and its decoded bytes.
    Packet(Seq<u8>, Seq<u8>),
    Failed(StreamError),
    End,
}

/// The reader's state between packets.
pub open spec fn sb_fresh() -> SbState {
    SbState { wire: Seq::empty(), decoded: Seq::empty(), escape: false }
}

/// What the escape pair `^c` decodes to: `^Q`, `^S`, `^M` and `^^` stand
/// for 0x11, 0x13, 0x0D and 0x1E; any other pair decodes to nothing.
pub open spec fn sb_unescape(c: u8) -> Seq<u8> {
    if c == 0x51 { seq![0x11u8] }
    else if c == 0x53 { seq![0x13u8] }
    else if c == 0x4D { seq![0x0Du8] }
    else if c == 0x5E { seq![0x1Eu8] }
    else { Seq::empty() }
}

/// One read of a Spaceball packet reader. A packet ends at an unescaped
/// `CR`; a `CR` with nothing decoded before it is passed over. Timeouts are
/// waited out, except right after `^`, where they are reported like any
/// failed read. A failed read is reported and the end of the line ends the
/// stream; either way the partial packet is dropped.
pub open spec fn sb_step(s: SbState, ev: ReadEvent) -> (SbState, SbOutput) {
    match ev {
        ReadEvent::Byte(b) => if s.escape {
            (SbState { wire: s.wire.push(b), decoded: s.decoded + sb_unescape(b), escape: false }, SbOutput::Pending)
        } else if b == 0x0D {
            if s.decoded.len() > 0 {
                (sb_fresh(), SbOutput::Packet(s.wire.push(b), s.decoded))
            } else {
                (sb_fresh(), SbOutput::Pending)
            }
        } else if b == 0x5E {
            (SbState { wire: s.wire.push(b), decoded: s.decoded, escape: true }, SbOutput::Pending)
        } else {
            (SbState { wire: s.wire.push(b), decoded: s.decoded.push(b), escape: false }, SbOutput::Pending)
        },
        ReadEvent::TimedOut => if s.escape {
            (sb_fresh(), SbOutput::Failed(StreamError::TimedOut))
        } else {
            (s, SbOutput::Pending)
        },
        ReadEvent::Failed => (sb_fresh(), SbOutput::Failed(StreamError::Failed)),
        ReadEvent::Closed => (sb_fresh(), SbOutput::End),
    }
}

/// The state and the reports after the reads `evs`, starting from `s`.
pub open spec fn sb_run(s: SbState, evs: Seq<ReadEvent>) -> (SbState, Seq<SbOutput>)
    decreases evs.len(),
{
    if evs.len() == 0 {
        (s, Seq::empty())
    } else {
        let (s1, outs) = sb_run(s, evs.drop_last());
        let (s2, o) = sb_step(s1, evs.last());
        (s2, outs.push(o))
    }
}

/// `r` is what the reader reports for the model's output `o`: a packet
/// carries the wire bytes and the packet parsed from the decoded bytes.
pub open spec fn sb_reported(r: StreamStep<SpaceballPacket>, o: SbOutput) -> bool {
    match o {
        SbOutput::Pending => r is Pending,
        SbOutput::Packet(wire, decoded) => r matches StreamStep::Packet(rp)
            && rp.raw@ == wire && spaceball_packet_of(decoded, rp.packet),
        SbOutput::Failed(e) => r == StreamStep::<SpaceballPacket>::Error(e),
        SbOutput::End => r is End,
    }
}

/// Reads Spaceball packets from a byte stream, one read at a time, undoing
/// the `^` escapes and keeping the wire bytes of each packet.
pub struct SpaceballRawPacketIter {
    wire: Vec<u8>,
    decoded: Vec<u8>,
    escape: bool,
}

impl View for SpaceballRawPacketIter {
    type V = SbState;

    closed spec fn view(&self) -> SbState {
        SbState { wire: self.wire@, decoded: self.decoded@, escape: self.escape }
    }
}

impl SpaceballRawPacketIter {
    /// A reader waiting for its first packet.
    pub fn new() -> (it: Self)
        ensures
            it@ == sb_fresh(),
    {
        SpaceballRawPacketIter { wire: Vec::new(), decoded: Vec::new(), escape: false }
    }

    fn reset(&mut self)
        ensures
            final(self)@ == sb_fresh(),
    {
        self.wire = Vec::new();
        self.decoded = Vec::new();
        self.escape = false;
    }

    /// Take in one read and say what it completed.
    pub fn push(&mut self, ev: ReadEvent) -> (r: StreamStep<SpaceballPacket>)
        ensures
            final(self)@ == sb_step(old(self)@, ev).0,
            sb_reported(r, sb_step(old(self)@, ev).1),
    {
        match ev {
            ReadEvent::Byte(b) => {
                if self.escape {
                    self.wire.push(b);
                    if b == 0x51 {
                        self.decoded.push(0x11);
                    } else if b == 0x53 {
                        self.decoded.push(0x13);
                    } else if b == 0x4D {
                        self.decoded.push(0x0D);
                    } else if b == 0x5E {
                        self.decoded.push(0x1E);
                    }
                    proof {
                        assert(self.decoded@ =~= old(self)@.decoded + sb_unescape(b));
                    }
                    self.escape = false;
                    StreamStep::Pending
                } else if b == 0x0D {
                    if self.decoded.len() > 0 {
                        let mut wire = Vec::new();
                        let mut decoded = Vec::new();
                        std::mem::swap(&mut wire, &mut self.wire);
                        std::mem::swap(&mut decoded, &mut self.decoded);
                        wire.push(b);
                        StreamStep::Packet(RawPacket { raw: wire, packet: parse_packet(decoded) })
                    } else {
                        self.reset();
                        StreamStep::Pending
                    }
                } else if b == 0x5E {
                    self.wire.push(b);
                    self.escape = true;
                    StreamStep::Pending
                } else {
                    self.wire.push(b);
                    self.decoded.push(b);
                    StreamStep::Pending
                }
            },
            ReadEvent::TimedOut => {
                if self.escape {
                    self.reset();
                    StreamStep::Error(StreamError::TimedOut)
                } else {
                    StreamStep::Pending
                }
            },
            ReadEvent::Failed => {
                self.reset();
                StreamStep::Error(StreamError::Failed)
            },
            ReadEvent::Closed => {
                self.reset();
                StreamStep::End
            },
        }
    }
}


/// The wire form of byte `b` inside a packet: 0x11, 0x13, 0x0D (`CR`) and
/// 0x1E travel as `^Q`, `^S`, `^M` and `^^`; any other byte as itself.
pub open spec fn sb_escape_byte(b: u8) -> Seq<u8> {
    if b == 0x11 { seq![0x5Eu8, 0x51u8] }
    else if b == 0x13 { seq![0x5Eu8, 0x53u8] }
    else if b == 0x0D { seq![0x5Eu8, 0x4Du8] }
    else if b == 0x1E { seq![0x5Eu8, 0x5Eu8] }
    else { seq![b] }
}

/// The wire form of the packet bytes `p`, without the final `CR`.
pub open spec fn sb_escape(p: Seq<u8>) -> Seq<u8>
    decreases p.len(),
{
    if p.len() == 0 {
        Seq::empty()
    } else {
        sb_escape(p.drop_last()) + sb_escape_byte(p.last())
    }
}

/// Packet bytes that have a wire form: `^` itself (0x5E) has none.
pub open spec fn sb_encodable(p: Seq<u8>) -> bool {
    forall|i: int| 0 <= i < p.len() ==> #[trigger] p[i] != 0x5Eu8
}

/// `n` reports of nothing.
pub open spec fn sb_pendings(n: nat) -> Seq<SbOutput> {
    Seq::new(n, |i: int| SbOutput::Pending)
}

/// Law: reading `a` and then `b` is reading `a + b`.
pub proof fn lemma_sb_run_append(s: SbState, a: Seq<ReadEvent>, b: Seq<ReadEvent>)
    ensures
        sb_run(s, a + b).0 == sb_run(sb_run(s, a).0, b).0,
        sb_run(s, a + b).1 =~= sb_run(s, a).1 + sb_run(sb_run(s, a).0, b).1,
    decreases b.len(),
{
    if b.len() == 0 {
        assert(a + b =~= a);
    } else {
        lemma_sb_run_append(s, a, b.drop_last());
        assert((a + b).drop_last() =~= a + b.drop_last());
        assert((a + b).last() == b.last());
    }
}

proof fn lemma_byte_events_append(a: Seq<u8>, b: Seq<u8>)
    ensures
        byte_events(a + b) =~= byte_events(a) + byte_events(b),
{
}

proof fn lemma_sb_escape_byte_run(s: SbState, x: u8)
    requires
        !s.escape,
        x != 0x5Eu8,
    ensures
        sb_run(s, byte_events(sb_escape_byte(x))).0
            == (SbState { wire: s.wire + sb_escape_byte(x), decoded: s.decoded.push(x), escape: false }),
        sb_run(s, byte_events(sb_escape_byte(x))).1 =~= sb_pendings(sb_escape_byte(x).len()),
{
    let e = sb_escape_byte(x);
    let evs = byte_events(e);
    assert(sb_run(s, Seq::<ReadEvent>::empty()) == (s, Seq::<SbOutput>::empty()));
    if e.len() == 1 {
        assert(evs.drop_last() =~= Seq::<ReadEvent>::empty());
        assert(evs.last() == ReadEvent::Byte(x));
        assert(s.wire + e =~= s.wire.push(x));
    } else {
        let c = e[1];
        assert(evs.drop_last() =~= seq![ReadEvent::Byte(0x5Eu8)]);
        assert(evs.last() == ReadEvent::Byte(c));
        let one = seq![ReadEvent::Byte(0x5Eu8)];
        assert(one.drop_last() =~= Seq::<ReadEvent>::empty());
        let mid = SbState { wire: s.wire.push(0x5Eu8), decoded: s.decoded, escape: true };
        assert(sb_run(s, one).0 == mid);
        assert(sb_unescape(c) =~= seq![x]);
        assert(s.wire.push(0x5Eu8).push(c) =~= s.wire + e);
        assert(s.decoded + seq![x] =~= s.decoded.push(x));
    }
}

proof fn lemma_sb_escape_prefix(p: Seq<u8>, i: int)
    requires
        sb_encodable(p),
        0 <= i <= p.len(),
    ensures
        sb_run(sb_fresh(), byte_events(sb_escape(p.take(i)))).0
            == (SbState { wire: sb_escape(p.take(i)), decoded: p.take(i), escape: false }),
        sb_run(sb_fresh(), byte_events(sb_escape(p.take(i)))).1 =~= sb_pendings(sb_escape(p.take(i)).len()),
    decreases i,
{
    if i == 0 {
        assert(p.take(0) =~= Seq::<u8>::empty());
        assert(byte_events(Seq::<u8>::empty()) =~= Seq::<ReadEvent>::empty());
        assert(sb_fresh().decoded =~= Seq::<u8>::empty());
    } else {
        lemma_sb_escape_prefix(p, i - 1);
        let prev = p.take(i - 1);
        let x = p[i - 1];
        assert(p.take(i).drop_last() =~= prev);
        assert(p.take(i).last() == x);
        assert(sb_escape(p.take(i)) == sb_escape(prev) + sb_escape_byte(x));
        lemma_byte_events_append(sb_escape(prev), sb_escape_byte(x));
        lemma_sb_run_append(sb_fresh(), byte_events(sb_escape(prev)), byte_events(sb_escape_byte(x)));
        let mid = SbState { wire: sb_escape(prev), decoded: prev, escape: false };
        lemma_sb_escape_byte_run(mid, x);
        assert(prev.push(x) =~= p.take(i));
        assert(sb_pendings(sb_escape(prev).len()) + sb_pendings(sb_escape_byte(x).len())
            =~= sb_pendings(sb_escape(p.take(i)).len()));
    }
}

/// Law: the reader undoes the Spaceball's escaping. A reader between
/// packets that receives the wire form of packet bytes `p`, then `CR`,
/// reports nothing until the `CR`, then reports one packet whose wire bytes
/// are all it received and whose decoded bytes are `p`, and stands between
/// packets again.
pub proof fn lemma_sb_frame(p: Seq<u8>)
    requires
        p.len() > 0,
        sb_encodable(p),
    ensures
        sb_run(sb_fresh(), byte_events(sb_escape(p).push(0x0Du8))).0 == sb_fresh(),
        sb_run(sb_fresh(), byte_events(sb_escape(p).push(0x0Du8))).1
            =~= sb_pendings(sb_escape(p).len()).push(SbOutput::Packet(sb_escape(p).push(0x0Du8), p)),
{
    lemma_sb_escape_prefix(p, p.len() as int);
    assert(p.take(p.len() as int) =~= p);
    let evs = byte_events(sb_escape(p).push(0x0Du8));
    assert(evs.drop_last() =~= byte_events(sb_escape(p)));
    assert(evs.last() == ReadEvent::Byte(0x0Du8));
}

/// Law: a `CR` between packets is passed over without a report.
pub proof fn lemma_sb_bare_cr_skipped()
    ensures
        sb_step(sb_fresh(), ReadEvent::Byte(0x0Du8)) == (sb_fresh(), SbOutput::Pending),
{
}


/// Law: a timeout changes nothing and reports nothing, except right after
/// the escape byte `^`, where it is reported as an error and the partial
/// packet is dropped.
pub proof fn lemma_sb_timeout(s: SbState)
    ensures
        !s.escape ==> sb_step(s, ReadEvent::TimedOut) == (s, SbOutput::Pending),
        s.escape ==> sb_step(s, ReadEvent::TimedOut) == (sb_fresh(), SbOutput::Failed(StreamError::TimedOut)),
{
}

/// Law: every packet the reader reports has decoded bytes and wire bytes
/// that end with the `CR` that closed it.
pub proof fn lemma_sb_packet_shape(s: SbState, ev: ReadEvent)
    ensures
        sb_step(s, ev).1 matches SbOutput::Packet(wire, decoded)
            ==> decoded.len() > 0 && wire.len() > 0 && wire.last() == 0x0Du8,
{
}

/// The bytes that the wire bytes `w` of a packet decode to, and whether
/// `w` ends inside an escape pair.
pub open spec fn sb_decode(w: Seq<u8>) -> (Seq<u8>, bool)
    decreases w.len(),
{
    if w.len() == 0 {
        (Seq::empty(), false)
    } else {
        let (d, esc) = sb_decode(w.drop_last());
        let b = w.last();
        if esc {
            (d + sb_unescape(b), false)
        } else if b == 0x5E {
            (d, true)
        } else {
            (d.push(b), false)
        }
    }
}

/// The reader's decoded bytes are the decoding of its wire bytes.
pub open spec fn sb_consistent(s: SbState) -> bool {
    sb_decode(s.wire) == (s.decoded, s.escape)
}

proof fn lemma_sb_run_len(s: SbState, evs: Seq<ReadEvent>)
    ensures
        sb_run(s, evs).1.len() == evs.len(),
    decreases evs.len(),
{
    if evs.len() > 0 {
        lemma_sb_run_len(s, evs.drop_last());
    }
}

proof fn lemma_sb_step_consistent(s: SbState, ev: ReadEvent)
    requires
        sb_consistent(s),
    ensures
        sb_consistent(sb_step(s, ev).0),
        sb_step(s, ev).1 matches SbOutput::Packet(wire, decoded) ==> decoded == sb_decode(wire.drop_last()).0,
{
    assert(sb_decode(Seq::<u8>::empty()) == (Seq::<u8>::empty(), false));
    if let ReadEvent::Byte(b) = ev {
        assert(s.wire.push(b).drop_last() =~= s.wire);
    }
}

/// Law: whatever the reads, every packet that a reader between packets
/// reports carries decoded bytes that are exactly the decoding of its wire
/// bytes before the closing `CR`, and the reader's partial packet always
/// decodes its partial wire bytes.
pub proof fn lemma_sb_reports_decode_wire(evs: Seq<ReadEvent>)
    ensures
        sb_consistent(sb_run(sb_fresh(), evs).0),
        forall|i: int| 0 <= i < evs.len() ==>
            (#[trigger] sb_run(sb_fresh(), evs).1[i] matches SbOutput::Packet(wire, decoded)
                ==> decoded == sb_decode(wire.drop_last()).0),
    decreases evs.len(),
{
    if evs.len() == 0 {
        assert(sb_decode(Seq::<u8>::empty()) == (Seq::<u8>::empty(), false));
    } else {
        lemma_sb_reports_decode_wire(evs.drop_last());
        lemma_sb_run_len(sb_fresh(), evs.drop_last());
        let (s1, outs) = sb_run(sb_fresh(), evs.drop_last());
        lemma_sb_step_consistent(s1, evs.last());
        assert(sb_run(sb_fresh(), evs).1 == outs.push(sb_step(s1, evs.last()).1));
        assert forall|i: int| 0 <= i < evs.len() implies
            (#[trigger] sb_run(sb_fresh(), evs).1[i] matches SbOutput::Packet(wire, decoded)
                ==> decoded == sb_decode(wire.drop_last()).0) by {
            if i < evs.len() - 1 {
                assert(sb_run(sb_fresh(), evs).1[i] == outs[i]);
            }
        }
    }
}

/// The wire bytes `w` hold no packet end: every `CR` in them is the second
/// byte of an escape pair.
pub open spec fn sb_unterminated(w: Seq<u8>) -> bool
    decreases w.len(),
{
    if w.len() == 0 {
        true
    } else {
        sb_unterminated(w.drop_last()) && !(w.last() == 0x0Du8 && !sb_decode(w.drop_last()).1)
    }
}

/// The state of a reader between packets after the wire bytes `w`.
pub open spec fn sb_state_after(w: Seq<u8>) -> SbState {
    SbState { wire: w, decoded: sb_decode(w).0, escape: sb_decode(w).1 }
}

proof fn lemma_sb_unterminated_run(w: Seq<u8>)
    requires
        sb_unterminated(w),
    ensures
        sb_run(sb_fresh(), byte_events(w)).0 == sb_state_after(w),
        sb_run(sb_fresh(), byte_events(w)).1 =~= sb_pendings(w.len()),
    decreases w.len(),
{
    if w.len() == 0 {
        assert(byte_events(w) =~= Seq::<ReadEvent>::empty());
        assert(w =~= Seq::<u8>::empty());
        assert(sb_decode(w) == (Seq::<u8>::empty(), false));
    } else {
        let evs = byte_events(w);
        assert(evs.drop_last() =~= byte_events(w.drop_last()));
        assert(evs.last() == ReadEvent::Byte(w.last()));
        lemma_sb_unterminated_run(w.drop_last());
        assert(w.drop_last().push(w.last()) =~= w);
    }
}

/// Law: a reader between packets that receives wire bytes `w`, none of
/// which ends a packet, then the `CR` that does, reports nothing before that
/// `CR`. At the `CR` it reports the packet whose wire bytes are all it
/// received and whose decoded bytes are their decoding, unless that
/// decoding is empty (a bare `CR`, or only invalid escape pairs), in which
/// case those bytes are dropped without a report. Either way it stands
/// between packets again.
pub proof fn lemma_sb_first_frame(w: Seq<u8>)
    requires
        sb_unterminated(w),
        !sb_decode(w).1,
    ensures
        sb_run(sb_fresh(), byte_events(w.push(0x0Du8))).0 == sb_fresh(),
        sb_decode(w).0.len() > 0 ==> sb_run(sb_fresh(), byte_events(w.push(0x0Du8))).1
            =~= sb_pendings(w.len()).push(SbOutput::Packet(w.push(0x0Du8), sb_decode(w).0)),
        sb_decode(w).0.len() == 0 ==> sb_run(sb_fresh(), byte_events(w.push(0x0Du8))).1
            =~= sb_pendings(w.len() + 1),
{
    lemma_sb_unterminated_run(w);
    let evs = byte_events(w.push(0x0Du8));
    assert(evs.drop_last() =~= byte_events(w));
    assert(evs.last() == ReadEvent::Byte(0x0Du8));
}

/// A device-level Spaceball event, before scaling to rates.
#[derive(Debug, Clone, Copy, PartialEq, Eq)]
pub enum SpaceballEvent {
    /// Ball motion; `period` is the time the displacements cover, never 0.
    Motion(SpaceballBallEvent),
    Button(SpaceballKeyEvent),
}

/// The period that motion covers after packet `p`, when it was `last`
/// before: a ball packet's own period when non-zero, else `last`.
pub open spec fn next_period(last: u16, p: SpaceballPacket) -> u16 {
    match p {
        SpaceballPacket::Ball(b) => if b.period > 0 { b.period } else { last },
        _ => last,
    }
}

/// The period after the packets `ps`, starting from the default 800.
pub open spec fn period_after(ps: Seq<SpaceballPacket>) -> u16
    decreases ps.len(),
{
    if ps.len() == 0 {
        800
    } else {
        next_period(period_after(ps.drop_last()), ps.last())
    }
}

/// Packet `p` is a ball packet with a non-zero period.
pub open spec fn has_period(p: SpaceballPacket) -> bool {
    p matches SpaceballPacket::Ball(b) && b.period > 0
}

/// Law: after any sequence of packets the period that motion covers is the
/// period of the latest ball packet with a non-zero period, or 800 (50 ms,
/// the 20 Hz default) when there is none.
pub proof fn lemma_period_is_latest(ps: Seq<SpaceballPacket>)
    ensures
        (forall|i: int| 0 <= i < ps.len() ==> !has_period(#[trigger] ps[i])) ==> period_after(ps) == 800,
        forall|i: int|
            0 <= i < ps.len() && #[trigger] has_period(ps[i])
                && (forall|j: int| i < j < ps.len() ==> !has_period(#[trigger] ps[j]))
                ==> (ps[i] matches SpaceballPacket::Ball(b) && period_after(ps) == b.period),
    decreases ps.len(),
{
    if ps.len() > 0 {
        let q = ps.drop_last();
        lemma_period_is_latest(q);
        assert forall|i: int| 0 <= i < q.len() implies q[i] == ps[i] by {}
        if has_period(ps.last()) {
            assert forall|i: int|
                0 <= i < ps.len() && #[trigger] has_period(ps[i])
                    && (forall|j: int| i < j < ps.len() ==> !has_period(#[trigger] ps[j]))
                    implies (ps[i] matches SpaceballPacket::Ball(b) && period_after(ps) == b.period) by {
                if i < ps.len() - 1 {
                    assert(!has_period(ps[ps.len() - 1]));
                }
            }
        } else {
            assert(period_after(ps) == period_after(q));
            assert forall|i: int|
                0 <= i < ps.len() && #[trigger] has_period(ps[i])
                    && (forall|j: int| i < j < ps.len() ==> !has_period(#[trigger] ps[j]))
                    implies (ps[i] matches SpaceballPacket::Ball(b) && period_after(ps) == b.period) by {
                assert(i < ps.len() - 1);
                assert(has_period(q[i]));
                assert forall|j: int| i < j < q.len() implies !has_period(#[trigger] q[j]) by {
                    assert(q[j] == ps[j]);
                }
            }
            if forall|i: int| 0 <= i < ps.len() ==> !has_period(#[trigger] ps[i]) {
                assert forall|i: int| 0 <= i < q.len() implies !has_period(#[trigger] q[i]) by {
                    assert(q[i] == ps[i]);
                }
            }
        }
    }
}

/// Turns Spaceball packets into events, remembering the last non-zero
/// period reported by the ball (initially 800, i.e. 50 ms at 20 Hz) so that
/// every motion covers a non-zero time.
pub struct SpaceballEvents {
    last_period: u16,
    seen: Ghost<Seq<SpaceballPacket>>,
}

impl SpaceballEvents {
    #[verifier::type_invariant]
    spec fn period_tracks_packets(self) -> bool {
        &&& self.last_period > 0
        &&& self.last_period == period_after(self.seen@)
    }

    /// The period that the next motion without one of its own will cover.
    pub closed spec fn period(&self) -> u16 {
        self.last_period
    }

    /// The packets turned into events so far.
    pub closed spec fn seen(&self) -> Seq<SpaceballPacket> {
        self.seen@
    }

    pub fn new() -> (r: Self)
        ensures
            r.period() == 800,
            r.seen() == Seq::<SpaceballPacket>::empty(),
    {
        SpaceballEvents { last_period: 800, seen: Ghost(Seq::empty()) }
    }

    /// The event for packet `p`: a ball packet gives motion over its own
    /// period, or over the last non-zero one when its period is 0; a key
    /// packet gives its buttons; any other packet gives nothing. The period
    /// is always that of all packets seen so far (see `lemma_period_is_latest`).
    pub fn next_event(&mut self, p: &SpaceballPacket) -> (r: Option<SpaceballEvent>)
        ensures
            final(self).seen() == old(self).seen().push(*p),
            final(self).period() == period_after(final(self).seen()),
            final(self).period() == next_period(old(self).period(), *p),
            match *p {
                SpaceballPacket::Ball(b) => r == Some(SpaceballEvent::Motion(SpaceballBallEvent {
                    period: final(self).period(),
                    translation: b.translation,
                    rotation: b.rotation,
                })),
                SpaceballPacket::Key(k) => r == Some(SpaceballEvent::Button(k)),
                SpaceballPacket::Unknown(_) => r is None,
            },
            final(self).period() > 0,
            r matches Some(SpaceballEvent::Motion(m)) ==> m.period > 0,
    {
        proof { use_type_invariant(&*self); }
        let ghost seen = self.seen@.push(*p);
        assert(seen.drop_last() =~= self.seen@);
        let period = match p {
            SpaceballPacket::Ball(b) => if b.period > 0 { b.period } else { self.last_period },
            _ => self.last_period,
        };
        *self = SpaceballEvents { last_period: period, seen: Ghost(seen) };
        match p {
            SpaceballPacket::Ball(b) => Some(SpaceballEvent::Motion(SpaceballBallEvent {
                period: period,
                translation: b.translation,
                rotation: b.rotation,
            })),
            SpaceballPacket::Key(k) => Some(SpaceballEvent::Button(*k)),
            SpaceballPacket::Unknown(_) => None,
        }
    }
}

} // verus!
