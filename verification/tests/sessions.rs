use dcs_rich_presence::session::Session;
use dcs_rich_presence::session::SessionStatus;

#[test]
fn machine_starts_idle_with_a_baseline_status() {
    let s = Session::new();
    assert!(matches!(s.status, SessionStatus::Idle));
    assert!(s.callsign.is_none());
    let idle = Session::idle_status();
    assert_eq!(idle.title, "Mission planning");
    assert!(idle.detail.is_none());
}

#[test]
fn bye_twice_gives_the_same_idle_status_both_times() {
    let mut s = Session::new();
    s.handle_datagram(b"telem Pilot1,A-10C_2,120.0,3048.0,1700000000");
    let first = s.handle_datagram(b"bye").expect("bye publishes");
    assert!(matches!(s.status, SessionStatus::Idle));
    let second = s.handle_datagram(b"bye").expect("bye publishes again");
    assert!(matches!(s.status, SessionStatus::Idle));
    assert_eq!(first.title, "Mission planning");
    assert_eq!(second.title, first.title);
    assert!(first.detail.is_none() && second.detail.is_none());
}

#[test]
fn scenario_publishes_exactly_three_times() {
    let inputs: [&[u8]; 4] = [
        b"telem Pilot1,A-10C_2,120.0,3048.0,1700000000",
        b"bye",
        b"garbage",
        b"telem Pilot1,A-10C_2,120.0,3048.0,1700000100",
    ];
    let mut s = Session::new();
    let mut published: Vec<String> = Vec::new();
    for input in inputs {
        if let Some(st) = s.handle_datagram(input) {
            published.push(st.title);
        }
    }
    assert_eq!(published.len(), 3);
    assert_eq!(published[0], "Pilot1 in A10-C");
    assert_eq!(published[1], "Mission planning");
    assert_eq!(published[2], "Pilot1 in A10-C");
}

#[test]
fn live_status_carries_the_composed_lines() {
    let mut s = Session::new();
    let st = s
        .handle_datagram(b"telem Pilot1,A-10C_2,120.0,3048.0,1700000000")
        .expect("a valid sample publishes");
    assert_eq!(st.title, "Pilot1 in A10-C");
    assert_eq!(st.detail.unwrap(), "233 knots at 10k feet");
    assert_eq!(st.small_image.unwrap(), "a-10c_2");
    assert_eq!(st.small_text.unwrap(), "A10-C");
    assert!(matches!(s.status, SessionStatus::Active(_)));
}

#[test]
fn malformed_input_changes_nothing() {
    let mut s = Session::new();
    s.handle_datagram(b"telem Pilot1,A-10C_2,120.0,3048.0,1700000000");
    assert!(s.handle_datagram(b"garbage").is_none());
    assert!(s.handle_datagram(&[0xff, 0x00, 0x41]).is_none());
    assert!(s.handle_datagram(b"telem a,b,not a number,0.0,0").is_none());
    assert!(matches!(s.status, SessionStatus::Active(_)));
}

#[test]
fn every_valid_sample_republishes() {
    let mut s = Session::new();
    let a = s.handle_datagram(b"telem Pilot1,A-10C_2,120.0,3048.0,1");
    let b = s.handle_datagram(b"telem Pilot1,A-10C_2,121.0,3048.0,2");
    assert!(a.is_some() && b.is_some());
    assert_eq!(b.unwrap().detail.unwrap(), "235 knots at 10k feet");
}

#[test]
fn override_callsign_applies_until_cleared() {
    let mut s = Session::new();
    s.set_callsign("Goose".to_string());
    let st = s
        .handle_datagram(b"telem New callsign,F-16C_50,0.0,0.0,1")
        .expect("publishes");
    assert_eq!(st.title, "Goose in F-16CM bl.50");
    s.set_callsign(String::new());
    let st = s
        .handle_datagram(b"telem New callsign,F-16C_50,0.0,0.0,2")
        .expect("publishes");
    assert_eq!(st.title, "flying F-16CM bl.50");
}
