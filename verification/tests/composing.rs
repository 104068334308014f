use dcs_rich_presence::compose::compose;
use dcs_rich_presence::decode::TelemetrySample;
use dcs_rich_presence::vehicles::resolve_vehicle;

fn sample(name: &str, vehicle: &str, ias_milli: i64, alt_milli: i64) -> TelemetrySample {
    TelemetrySample {
        name: name.to_string(),
        vehicle: vehicle.to_string(),
        ias_milli,
        alt_milli,
        sample_time: 1_700_000_000,
    }
}

#[test]
fn airspeed_at_or_below_the_floor_shows_zero_knots() {
    let st = compose(&sample("Pilot1", "A-10C_2", 5_000, 0), &None);
    assert_eq!(st.detail.unwrap(), "0 knots at 0k feet");
}

#[test]
fn airspeed_above_the_floor_converts_to_knots() {
    let st = compose(&sample("Pilot1", "A-10C_2", 50_000, 0), &None);
    assert_eq!(st.detail.unwrap(), "97 knots at 0k feet");
}

#[test]
fn altitude_converts_to_thousands_of_feet() {
    let st = compose(&sample("Pilot1", "A-10C_2", 120_000, 3_048_000), &None);
    assert_eq!(st.detail.unwrap(), "233 knots at 10k feet");
}

#[test]
fn negative_altitude_keeps_its_sign() {
    let st = compose(&sample("Pilot1", "A-10C_2", 0, -1_000_000), &None);
    assert_eq!(st.detail.unwrap(), "0 knots at -3k feet");
}

#[test]
fn known_vehicle_composes_with_its_curated_name() {
    let st = compose(&sample("Pilot1", "A-10C_2", 120_000, 3_048_000), &None);
    assert_eq!(st.title, "Pilot1 in A10-C");
    assert_eq!(st.small_text.unwrap(), "A10-C");
    assert_eq!(st.small_image.unwrap(), "a-10c_2");
}

#[test]
fn unknown_vehicle_composes_verbatim() {
    let st = compose(&sample("Pilot1", "MIG-21BIS", 120_000, 3_048_000), &None);
    assert_eq!(st.title, "Pilot1 in MIG-21BIS");
    assert_eq!(st.small_text.unwrap(), "MIG-21BIS");
    assert_eq!(st.small_image.unwrap(), "mig-21bis");
}

#[test]
fn sentinel_name_shows_an_anonymous_flight() {
    let st = compose(&sample("New callsign", "F-16C_50", 0, 0), &None);
    assert_eq!(st.title, "flying F-16CM bl.50");
}

#[test]
fn override_callsign_replaces_the_reported_name() {
    let cs = Some("Goose".to_string());
    let st = compose(&sample("New callsign", "A-10C_2", 0, 0), &cs);
    assert_eq!(st.title, "Goose in A10-C");
}

#[test]
fn empty_override_is_no_override() {
    let cs = Some(String::new());
    let st = compose(&sample("Pilot1", "A-10C_2", 0, 0), &cs);
    assert_eq!(st.title, "Pilot1 in A10-C");
}

#[test]
fn sentinel_override_falls_back_to_the_reported_name() {
    let cs = Some("New callsign".to_string());
    let st = compose(&sample("Pilot1", "A-10C_2", 0, 0), &cs);
    assert_eq!(st.title, "Pilot1 in A10-C");
}

#[test]
fn resolver_maps_known_identifiers_only() {
    assert_eq!(resolve_vehicle("A-10C_2"), "A10-C");
    assert_eq!(resolve_vehicle("F-16C_50"), "F-16CM bl.50");
    assert_eq!(resolve_vehicle("MIG-21BIS"), "MIG-21BIS");
    assert_eq!(resolve_vehicle(""), "");
}
