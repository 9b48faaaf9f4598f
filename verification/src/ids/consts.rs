//! Numeric identifiers of a few commonly used Wikidata items and properties,
//! and the unit suffixes of the common units.

use vstd::prelude::*;

use crate::ids::Qid;

verus! {

/// Property P31, "instance of".
pub const INSTANCE_OF: u64 = 31;

/// Property P569, "date of birth".
pub const DATE_OF_BIRTH: u64 = 569;

/// Property P570, "date of death".
pub const DATE_OF_DEATH: u64 = 570;

/// Item Q2, the Earth.
pub const EARTH: u64 = 2;

/// Item Q11573, the metre.
pub const METRE: u64 = 11573;

/// Item Q11570, the kilogram.
pub const KILOGRAM: u64 = 11570;

/// Item Q11574, the second.
pub const SECOND: u64 = 11574;

/// Item Q28390, the degree of arc.
pub const DEGREE: u64 = 28390;

/// Item Q828224, the kilometre.
pub const KILOMETRE: u64 = 828224;

/// Item Q174728, the centimetre.
pub const CENTIMETRE: u64 = 174728;

/// Which suffix, if any, `unit_suffix` yields for each item.
pub open spec fn spec_unit_suffix(q: Qid, r: Option<&str>) -> bool {
    if q.0 == METRE {
        r matches Some(s) && s@ == " m"@
    } else if q.0 == KILOGRAM {
        r matches Some(s) && s@ == " kg"@
    } else if q.0 == SECOND {
        r matches Some(s) && s@ == " s"@
    } else if q.0 == DEGREE {
        r matches Some(s) && s@ == "\u{b0}"@
    } else if q.0 == KILOMETRE {
        r matches Some(s) && s@ == " km"@
    } else if q.0 == CENTIMETRE {
        r matches Some(s) && s@ == " cm"@
    } else {
        r is None
    }
}

/// If the item is a commonly used unit on Wikidata, get it as a unit suffix.
pub fn unit_suffix(qid: Qid) -> (r: Option<&'static str>)
    ensures
        spec_unit_suffix(qid, r),
{
    if qid.0 == METRE {
        Some(" m")
    } else if qid.0 == KILOGRAM {
        Some(" kg")
    } else if qid.0 == SECOND {
        Some(" s")
    } else if qid.0 == DEGREE {
        Some("\u{b0}")
    } else if qid.0 == KILOMETRE {
        Some(" km")
    } else if qid.0 == CENTIMETRE {
        Some(" cm")
    } else {
        None
    }
}

} // verus!
