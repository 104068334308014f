//! The vehicle name resolver: a fixed mapping from a small set of raw
//! simulator vehicle identifiers to curated display names. Identifiers
//! outside the mapping are shown unchanged.

use vstd::prelude::*;

use crate::text::str_eq;

verus! {

pub open spec fn a10_raw() -> Seq<char> {
    seq!['A', '-', '1', '0', 'C', '_', '2']
}

pub open spec fn a10_display() -> Seq<char> {
    seq!['A', '1', '0', '-', 'C']
}

pub open spec fn f16_raw() -> Seq<char> {
    seq!['F', '-', '1', '6', 'C', '_', '5', '0']
}

pub open spec fn f16_display() -> Seq<char> {
    seq!['F', '-', '1', '6', 'C', 'M', ' ', 'b', 'l', '.', '5', '0']
}

/// The display name for a raw vehicle identifier.
pub open spec fn display_vehicle_spec(v: Seq<char>) -> Seq<char> {
    if v == a10_raw() {
        a10_display()
    } else if v == f16_raw() {
        f16_display()
    } else {
        v
    }
}

/// Looks a raw vehicle identifier up in the fixed display-name mapping.
pub fn resolve_vehicle(v: &str) -> (r: String)
    ensures
        r@ == display_vehicle_spec(v@),
{
    proof {
        reveal_strlit("A-10C_2");
        reveal_strlit("A10-C");
        reveal_strlit("F-16C_50");
        reveal_strlit("F-16CM bl.50");
        assert(("A-10C_2")@ =~= a10_raw());
        assert(("A10-C")@ =~= a10_display());
        assert(("F-16C_50")@ =~= f16_raw());
        assert(("F-16CM bl.50")@ =~= f16_display());
    }
    if str_eq(v, "A-10C_2") {
        String::from_str("A10-C")
    } else if str_eq(v, "F-16C_50") {
        String::from_str("F-16CM bl.50")
    } else {
        v.to_owned()
    }
}

} // verus!
