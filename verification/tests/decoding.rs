use dcs_rich_presence::decode::decode_datagram;
use dcs_rich_presence::decode::decode_line;
use dcs_rich_presence::decode::encode_telem_line;
use dcs_rich_presence::decode::Decoded;

#[test]
fn encode_then_decode_round_trips_all_five_values() {
    let line = encode_telem_line("Pilot1", "A-10C_2", 120_000, 3_048_000, 1_700_000_000);
    assert_eq!(line, "telem Pilot1,A-10C_2,120.000,3048.000,1700000000");
    match decode_line(&line) {
        Decoded::Telem(t) => {
            assert_eq!(t.name, "Pilot1");
            assert_eq!(t.vehicle, "A-10C_2");
            assert_eq!(t.ias_milli, 120_000);
            assert_eq!(t.alt_milli, 3_048_000);
            assert_eq!(t.sample_time, 1_700_000_000);
        }
        _ => panic!("expected a telemetry sample"),
    }
}

#[test]
fn encode_then_decode_round_trips_negative_altitude() {
    let line = encode_telem_line("", "Mi-8MT", 500, -12_375, 5);
    assert_eq!(line, "telem ,Mi-8MT,0.500,-12.375,5");
    match decode_line(&line) {
        Decoded::Telem(t) => {
            assert_eq!(t.name, "");
            assert_eq!(t.vehicle, "Mi-8MT");
            assert_eq!(t.ias_milli, 500);
            assert_eq!(t.alt_milli, -12_375);
            assert_eq!(t.sample_time, 5);
        }
        _ => panic!("expected a telemetry sample"),
    }
}

#[test]
fn bye_is_the_disconnect_signal() {
    assert!(matches!(decode_line("bye"), Decoded::Bye));
    assert!(matches!(decode_datagram(b"bye"), Decoded::Bye));
}

#[test]
fn bye_must_match_exactly() {
    assert!(matches!(decode_line("bye "), Decoded::Malformed));
    assert!(matches!(decode_line("BYE"), Decoded::Malformed));
    assert!(matches!(decode_line("byebye"), Decoded::Malformed));
}

#[test]
fn non_utf8_bytes_are_malformed() {
    assert!(matches!(decode_datagram(&[0xff, 0xfe, 0x00]), Decoded::Malformed));
    assert!(matches!(decode_datagram(&[b't', b'e', 0xc3, 0x28]), Decoded::Malformed));
}

#[test]
fn unrecognized_lines_are_malformed() {
    assert!(matches!(decode_line("garbage"), Decoded::Malformed));
    assert!(matches!(decode_line(""), Decoded::Malformed));
    assert!(matches!(decode_line("telem"), Decoded::Malformed));
    assert!(matches!(decode_line("hello A,B,1.0,2.0,3"), Decoded::Malformed));
}

#[test]
fn missing_fields_are_malformed() {
    assert!(matches!(decode_line("telem onlyname"), Decoded::Malformed));
    assert!(matches!(decode_line("telem a,b,1.0,2.0"), Decoded::Malformed));
}

#[test]
fn unparsable_numbers_are_malformed() {
    assert!(matches!(decode_line("telem a,b,fast,2.0,3"), Decoded::Malformed));
    assert!(matches!(decode_line("telem a,b,1.0,2.0.0,3"), Decoded::Malformed));
    assert!(matches!(decode_line("telem a,b,1.,2.0,3"), Decoded::Malformed));
    assert!(matches!(decode_line("telem a,b,.5,2.0,3"), Decoded::Malformed));
    assert!(matches!(decode_line("telem a,b,1.0,2.0,-3"), Decoded::Malformed));
    assert!(matches!(decode_line("telem a,b,1.0,2.0,3 extra"), Decoded::Malformed));
}

#[test]
fn content_after_the_fifth_field_is_ignored() {
    match decode_line("telem a,b,1.0,2.0,3,ignored,also ignored") {
        Decoded::Telem(t) => {
            assert_eq!(t.sample_time, 3);
        }
        _ => panic!("expected a telemetry sample"),
    }
}

#[test]
fn fraction_digits_beyond_the_third_do_not_contribute() {
    match decode_line("telem a,b,1.2345,0.0,0") {
        Decoded::Telem(t) => {
            assert_eq!(t.ias_milli, 1_234);
        }
        _ => panic!("expected a telemetry sample"),
    }
}

#[test]
fn timestamp_bounds_follow_u64() {
    match decode_line("telem a,b,0.0,0.0,18446744073709551615") {
        Decoded::Telem(t) => {
            assert_eq!(t.sample_time, u64::MAX);
        }
        _ => panic!("expected a telemetry sample"),
    }
    assert!(matches!(
        decode_line("telem a,b,0.0,0.0,18446744073709551616"),
        Decoded::Malformed
    ));
}

#[test]
fn quantities_beyond_carried_range_are_malformed() {
    match decode_line("telem a,b,1000000000.000,-1000000000.000,0") {
        Decoded::Telem(t) => {
            assert_eq!(t.ias_milli, 1_000_000_000_000);
            assert_eq!(t.alt_milli, -1_000_000_000_000);
        }
        _ => panic!("expected a telemetry sample"),
    }
    assert!(matches!(
        decode_line("telem a,b,1000000000.001,0.0,0"),
        Decoded::Malformed
    ));
}

#[test]
fn empty_name_field_is_accepted() {
    match decode_line("telem ,SA342M,10.0,20.0,30") {
        Decoded::Telem(t) => {
            assert_eq!(t.name, "");
            assert_eq!(t.vehicle, "SA342M");
        }
        _ => panic!("expected a telemetry sample"),
    }
}
