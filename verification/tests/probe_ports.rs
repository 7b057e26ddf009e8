use spaceball_rs::ports::{candidate_ports, is_candidate_port, PortCandidate};
use spaceball_rs::probe::{ProbeAction, SpaceOrbProbe, SpaceballProbe};

#[test]
fn spaceball_probe_power_up_byte() {
    let mut p = SpaceballProbe::new();
    assert_eq!(p.on_reply(Some(b'@')), ProbeAction::Open);
    let mut p = SpaceballProbe::new();
    assert_eq!(p.on_reply(Some(b'R')), ProbeAction::Reject);
}

#[test]
fn spaceball_probe_query_reply() {
    // Echo of the query: a Spaceball.
    let mut p = SpaceballProbe::new();
    assert_eq!(p.on_reply(None), ProbeAction::SendQuery);
    assert_eq!(p.on_reply(Some(b'?')), ProbeAction::Open);

    // Silence after the query: assumed to be a Spaceball.
    let mut p = SpaceballProbe::new();
    assert_eq!(p.on_reply(None), ProbeAction::SendQuery);
    assert_eq!(p.on_reply(None), ProbeAction::Open);

    // The SpaceOrb's reply `!`: not a Spaceball.
    let mut p = SpaceballProbe::new();
    assert_eq!(p.on_reply(Some(b'x')), ProbeAction::SendQuery);
    assert_eq!(p.on_reply(Some(b'!')), ProbeAction::Reject);

    // A `!` before the query only calls for the query.
    let mut p = SpaceballProbe::new();
    assert_eq!(p.on_reply(Some(b'!')), ProbeAction::SendQuery);
    assert_eq!(p.on_reply(Some(b'z')), ProbeAction::Open);
}

#[test]
fn spaceorb_probe_polling_then_query() {
    let mut p = SpaceOrbProbe::new();
    assert_eq!(p.on_reply(Some(b'\r')), ProbeAction::KeepReading);
    assert_eq!(p.on_reply(None), ProbeAction::KeepReading);
    assert_eq!(p.on_reply(Some(b'R')), ProbeAction::Open);

    let mut p = SpaceOrbProbe::new();
    assert_eq!(p.on_reply(Some(b'!')), ProbeAction::Open);

    let mut p = SpaceOrbProbe::new();
    assert_eq!(p.on_reply(Some(b'@')), ProbeAction::Reject);

    let mut p = SpaceOrbProbe::new();
    assert_eq!(p.on_reply(None), ProbeAction::KeepReading);
    assert_eq!(p.on_deadline(), ProbeAction::SendQuery);
    assert_eq!(p.on_reply(Some(b'!')), ProbeAction::Open);

    let mut p = SpaceOrbProbe::new();
    assert_eq!(p.on_deadline(), ProbeAction::SendQuery);
    assert_eq!(p.on_reply(Some(b'R')), ProbeAction::Reject);
    assert_eq!(p.on_deadline(), ProbeAction::Reject);
}

#[test]
fn probes_never_both_confirm() {
    for b in 0..=255u8 {
        for queried in [false, true] {
            let mut sb = SpaceballProbe::new();
            let mut orb = SpaceOrbProbe::new();
            if queried {
                let _ = sb.on_reply(None);
                let _ = orb.on_deadline();
            }
            let a = sb.on_reply(Some(b));
            let o = orb.on_reply(Some(b));
            assert!(!(a == ProbeAction::Open && o == ProbeAction::Open), "byte {b} queried {queried}");
        }
    }
}

#[test]
fn candidate_port_names() {
    assert!(is_candidate_port("/dev/cu.usbserial-0001", true));
    assert!(!is_candidate_port("/dev/tty.usbserial-0001", true));
    assert!(is_candidate_port("/dev/ttyUSB0", true));
    assert!(is_candidate_port("/dev/ttyACM0", true));
    assert!(!is_candidate_port("/dev/ttyUSB0", false));
    assert!(!is_candidate_port("x/dev/tty.", true));
    assert!(is_candidate_port("/dev/tty", true));
    assert!(is_candidate_port("", true));
    assert!(is_candidate_port("/dév/tty.x", true));
}

#[test]
fn candidate_ports_keeps_order_and_filters() {
    let ports = vec![
        PortCandidate { port_name: "/dev/cu.usbserial-A".to_string(), is_usb: true },
        PortCandidate { port_name: "/dev/tty.usbserial-A".to_string(), is_usb: true },
        PortCandidate { port_name: "/dev/cu.Bluetooth".to_string(), is_usb: false },
        PortCandidate { port_name: "/dev/ttyUSB0".to_string(), is_usb: true },
    ];
    let kept = candidate_ports(&ports);
    let names: Vec<&str> = kept.iter().map(|p| p.port_name.as_str()).collect();
    assert_eq!(names, vec!["/dev/cu.usbserial-A", "/dev/ttyUSB0"]);
    assert!(kept.iter().all(|p| p.is_usb));
    assert!(candidate_ports(&Vec::new()).is_empty());
}
