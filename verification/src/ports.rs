use vstd::prelude::*;

verus! {

/// What port scanning needs to know of a serial port.
#[derive(Debug)]
pub struct PortCandidate {
    pub port_name: String,
    /// Whether the port belongs to a USB device.
    pub is_usb: bool,
}

/// `pat` occurs in `s` as a contiguous run.
pub open spec fn has_infix(s: Seq<char>, pat: Seq<char>) -> bool {
    exists|i: int| 0 <= i && i + pat.len() <= s.len() && #[trigger] s.subrange(i, i + pat.len()) == pat
}

/// The prefix of macOS dial-in device names, `/dev/tty.`.
pub open spec fn dial_in_marker() -> Seq<char> {
    seq!['/', 'd', 'e', 'v', '/', 't', 't', 'y', '.']
}

/// A port worth probing: a USB serial port that is not a macOS dial-in
/// device (`/dev/tty.NAME`, which blocks on carrier detect; its call-out
/// twin `/dev/cu.NAME` is probed instead). Linux `ttyUSB0` and `ttyACM0`
/// have no dot and are kept.
pub open spec fn is_candidate(name: Seq<char>, is_usb: bool) -> bool {
    is_usb && !has_infix(name, dial_in_marker())
}

/// Whether `pat` occurs in `name` at character `i`.
fn occurs_at(name: &str, len: usize, pat: &[char; 9], i: usize) -> (r: bool)
    requires
        len == name@.len(),
        i + 9 <= len,
    ensures
        r == (name@.subrange(i as int, i + 9) == pat@),
{
    let mut j: usize = 0;
    while j < 9
        invariant
            j <= 9,
            i + 9 <= len,
            len == name@.len(),
            forall|k: int| 0 <= k < j ==> name@[i + k] == pat@[k],
        decreases 9 - j,
    {
        if name.get_char(i + j) != pat[j] {
            assert(name@.subrange(i as int, i + 9)[j as int] != pat@[j as int]);
            return false;
        }
        j = j + 1;
    }
    assert(name@.subrange(i as int, i + 9) =~= pat@);
    true
}

/// Whether a port named `name` is worth probing.
pub fn is_candidate_port(name: &str, is_usb: bool) -> (r: bool)
    ensures
        r == is_candidate(name@, is_usb),
{
    if !is_usb {
        return false;
    }
    let pat: [char; 9] = ['/', 'd', 'e', 'v', '/', 't', 't', 'y', '.'];
    assert(pat@ =~= dial_in_marker());
    let len = name.unicode_len();
    if len < 9 {
        assert(!has_infix(name@, dial_in_marker()));
        return true;
    }
    let mut i: usize = 0;
    while i <= len - 9
        invariant
            len == name@.len(),
            len >= 9,
            i <= len - 8,
            pat@ == dial_in_marker(),
            forall|k: int| 0 <= k < i ==> #[trigger] name@.subrange(k, k + dial_in_marker().len()) != dial_in_marker(),
        decreases len - i,
    {
        if occurs_at(name, len, &pat, i) {
            assert(name@.subrange(i as int, i + dial_in_marker().len()) == dial_in_marker());
            return false;
        }
        i = i + 1;
    }
    assert forall|k: int| 0 <= k && k + dial_in_marker().len() <= name@.len()
        implies #[trigger] name@.subrange(k, k + dial_in_marker().len()) != dial_in_marker() by {
        assert(k < i);
    }
    true
}

/// The view of each port: its name and whether it is a USB port.
pub open spec fn port_views(ports: Seq<PortCandidate>) -> Seq<(Seq<char>, bool)> {
    ports.map_values(|p: PortCandidate| (p.port_name@, p.is_usb))
}

/// The serial ports worth probing for a 6DOF device, in the order given.
pub fn candidate_ports(ports: &Vec<PortCandidate>) -> (r: Vec<PortCandidate>)
    ensures
        port_views(r@) == port_views(ports@).filter(|v: (Seq<char>, bool)| is_candidate(v.0, v.1)),
{
    let ghost pred = |v: (Seq<char>, bool)| is_candidate(v.0, v.1);
    let mut r: Vec<PortCandidate> = Vec::new();
    let n = ports.len();
    let mut i: usize = 0;
    while i < n
        invariant
            i <= n,
            n == ports@.len(),
            pred == (|v: (Seq<char>, bool)| is_candidate(v.0, v.1)),
            port_views(r@) == port_views(ports@).take(i as int).filter(pred),
        decreases n - i,
    {
        let p = &ports[i];
        let keep = is_candidate_port(p.port_name.as_str(), p.is_usb);
        let ghost before = r@;
        if keep {
            r.push(PortCandidate { port_name: p.port_name.clone(), is_usb: p.is_usb });
            assert(port_views(r@) =~= port_views(before).push(port_views(ports@)[i as int]));
        } else {
            assert(port_views(r@) =~= port_views(before));
        }
        proof {
            reveal_with_fuel(Seq::<_>::filter, 1);
            assert(port_views(ports@).take(i + 1).drop_last() =~= port_views(ports@).take(i as int));
        }
        i = i + 1;
    }
    assert(port_views(ports@).take(n as int) =~= port_views(ports@));
    r
}

} // verus!
