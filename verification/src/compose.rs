//! The presentation composer: turns one telemetry sample and an optional
//! user override into the two-line status that is published, together
//! with the image hints the presence transport accepts.
//!
//! The detail line derives knots as airspeed × 1.944, floored to zero at
//! or below a small stationary-noise threshold, and thousands of feet as
//! altitude × 3.281 / 1000; both are rounded to the nearest whole number,
//! halves away from zero. Composition is a pure function of its inputs.

use vstd::prelude::*;

use crate::decode::SampleView;
use crate::decode::TelemetrySample;
use crate::numbers::render_i64;
use crate::numbers::render_int_spec;
use crate::text::str_eq;
use crate::vehicles::display_vehicle_spec;
use crate::vehicles::resolve_vehicle;

verus! {

/// Indicated airspeed at or below this many thousandths of a unit is
/// shown as zero knots, to hide sensor noise while parked.
pub const SPEED_FLOOR_MILLI: i64 = 10_000;

/// Knots per airspeed unit, in thousandths.
pub const KNOTS_PER_UNIT_MILLI: i64 = 1_944;

/// Feet per altitude unit, in thousandths.
pub const FEET_PER_UNIT_MILLI: i64 = 3_281;

/// The reported name that means "no callsign set".
pub open spec fn sentinel_name() -> Seq<char> {
    seq!['N', 'e', 'w', ' ', 'c', 'a', 'l', 'l', 's', 'i', 'g', 'n']
}

pub open spec fn in_separator() -> Seq<char> {
    seq![' ', 'i', 'n', ' ']
}

pub open spec fn flying_prefix() -> Seq<char> {
    seq!['f', 'l', 'y', 'i', 'n', 'g', ' ']
}

pub open spec fn knots_separator() -> Seq<char> {
    seq![' ', 'k', 'n', 'o', 't', 's', ' ', 'a', 't', ' ']
}

pub open spec fn feet_suffix() -> Seq<char> {
    seq!['k', ' ', 'f', 'e', 'e', 't']
}

/// Whole knots shown for an indicated airspeed given in thousandths.
pub open spec fn knots_of(ias_milli: int) -> int {
    if ias_milli > SPEED_FLOOR_MILLI {
        (ias_milli * KNOTS_PER_UNIT_MILLI + 500_000) / 1_000_000
    } else {
        0
    }
}

/// Whole thousands of feet shown for a barometric altitude given in
/// thousandths of its raw unit.
pub open spec fn kft_of(alt_milli: int) -> int {
    let x = alt_milli * FEET_PER_UNIT_MILLI;
    if x >= 0 {
        (x + 500_000_000) / 1_000_000_000
    } else {
        -((-x + 500_000_000) / 1_000_000_000)
    }
}

/// The detail line: speed and altitude with their units.
pub open spec fn detail_spec(ias_milli: int, alt_milli: int) -> Seq<char> {
    render_int_spec(knots_of(ias_milli)) + knots_separator() + render_int_spec(kft_of(alt_milli))
        + feet_suffix()
}

/// Title shown when no usable override is present.
pub open spec fn plain_title(name: Seq<char>, disp: Seq<char>) -> Seq<char> {
    if name == sentinel_name() {
        flying_prefix() + disp
    } else {
        name + in_separator() + disp
    }
}

/// The title line: an override name is used when it is non-empty and not
/// the sentinel; otherwise the reported name, with the sentinel shown as
/// an anonymous flight.
pub open spec fn title_spec(name: Seq<char>, callsign: Option<Seq<char>>, disp: Seq<char>) -> Seq<
    char,
> {
    match callsign {
        Some(c) => if c.len() > 0 && c != sentinel_name() {
            c + in_separator() + disp
        } else {
            plain_title(name, disp)
        },
        None => plain_title(name, disp),
    }
}

/// Mathematical content of one composed status.
pub struct StatusView {
    pub title: Seq<char>,
    pub detail: Option<Seq<char>>,
    pub small_image: Option<Seq<char>>,
    pub small_text: Option<Seq<char>>,
}

/// One composed status payload, ready for the presence transport.
pub struct Status {
    pub title: String,
    pub detail: Option<String>,
    pub small_image: Option<String>,
    pub small_text: Option<String>,
}

impl View for Status {
    type V = StatusView;

    open spec fn view(&self) -> StatusView {
        StatusView {
            title: self.title@,
            detail: match self.detail {
                Some(d) => Some(d@),
                None => None,
            },
            small_image: match self.small_image {
                Some(s) => Some(s@),
                None => None,
            },
            small_text: match self.small_text {
                Some(s) => Some(s@),
                None => None,
            },
        }
    }
}

impl Status {
    /// An identical copy, field for field.
    pub fn duplicate(&self) -> (r: Status)
        ensures
            r@ == self@,
    {
        Status {
            title: self.title.clone(),
            detail: match &self.detail {
                Some(d) => Some(d.clone()),
                None => None,
            },
            small_image: match &self.small_image {
                Some(s) => Some(s.clone()),
                None => None,
            },
            small_text: match &self.small_text {
                Some(s) => Some(s.clone()),
                None => None,
            },
        }
    }
}

/// The lower-cased form of a piece of text, as std computes it.
pub uninterp spec fn lower_of(s: Seq<char>) -> Seq<char>;

/// Relies on str::to_lowercase: the result depends on the characters
/// alone, so equal text always lower-cases equally.
#[verifier::external_body]
fn to_lowercase_string(s: &str) -> (r: String)
    ensures
        r@ == lower_of(s@),
{
    s.to_lowercase()
}

pub open spec fn opt_string_view(o: Option<String>) -> Option<Seq<char>> {
    match o {
        Some(s) => Some(s@),
        None => None,
    }
}

/// The status composed for a sample under an optional override callsign.
pub open spec fn compose_spec(s: SampleView, callsign: Option<Seq<char>>) -> StatusView {
    StatusView {
        title: title_spec(s.name, callsign, display_vehicle_spec(s.vehicle)),
        detail: Some(detail_spec(s.ias_milli, s.alt_milli)),
        small_image: Some(lower_of(s.vehicle)),
        small_text: Some(display_vehicle_spec(s.vehicle)),
    }
}

fn title_with_override(over: &str, disp: &str) -> (r: String)
    ensures
        r@ == over@ + in_separator() + disp@,
{
    proof {
        reveal_strlit(" in ");
    }
    let mut t = String::from_str(over);
    t.append(" in ");
    t.append(disp);
    proof {
        assert(t@ =~= over@ + in_separator() + disp@);
    }
    t
}

fn title_plain(name: &str, disp: &str) -> (r: String)
    ensures
        r@ == plain_title(name@, disp@),
{
    proof {
        reveal_strlit("New callsign");
        reveal_strlit("flying ");
        assert(("New callsign")@ =~= sentinel_name());
    }
    if str_eq(name, "New callsign") {
        let mut t = String::from_str("flying ");
        t.append(disp);
        proof {
            assert(t@ =~= flying_prefix() + disp@);
        }
        t
    } else {
        title_with_override(name, disp)
    }
}

/// Composes the published status for one telemetry sample.
pub fn compose(sample: &TelemetrySample, callsign: &Option<String>) -> (st: Status)
    requires
        sample.wf(),
    ensures
        st@ == compose_spec(sample@, opt_string_view(*callsign)),
{
    let disp = resolve_vehicle(sample.vehicle.as_str());
    let title = match callsign {
        Some(c) => {
            proof {
                reveal_strlit("New callsign");
                assert(("New callsign")@ =~= sentinel_name());
            }
            if !c.as_str().is_empty() && !str_eq(c.as_str(), "New callsign") {
                title_with_override(c.as_str(), disp.as_str())
            } else {
                title_plain(sample.name.as_str(), disp.as_str())
            }
        },
        None => title_plain(sample.name.as_str(), disp.as_str()),
    };
    // unit conversions, all in non-negative machine integers
    let knots: i64 = if sample.ias_milli > SPEED_FLOOR_MILLI {
        (((sample.ias_milli as u64) * (KNOTS_PER_UNIT_MILLI as u64) + 500_000) / 1_000_000) as i64
    } else {
        0
    };
    let alt_mag: u64 = if sample.alt_milli >= 0 {
        sample.alt_milli as u64
    } else {
        (-sample.alt_milli) as u64
    };
    let kft_mag: u64 = (alt_mag * (FEET_PER_UNIT_MILLI as u64) + 500_000_000) / 1_000_000_000;
    let kft: i64 = if sample.alt_milli >= 0 {
        kft_mag as i64
    } else {
        -(kft_mag as i64)
    };
    proof {
        assert(knots == knots_of(sample@.ias_milli));
        assert(kft == kft_of(sample@.alt_milli));
    }
    let mut detail = render_i64(knots);
    proof {
        reveal_strlit(" knots at ");
        reveal_strlit("k feet");
    }
    detail.append(" knots at ");
    let kft_text = render_i64(kft);
    detail.append(kft_text.as_str());
    detail.append("k feet");
    proof {
        assert(detail@ =~= detail_spec(sample@.ias_milli, sample@.alt_milli));
    }
    let small_image = to_lowercase_string(sample.vehicle.as_str());
    Status {
        title,
        detail: Some(detail),
        small_image: Some(small_image),
        small_text: Some(disp),
    }
}

} // verus!
