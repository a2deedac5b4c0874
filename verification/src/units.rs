//! Size units and their byte multipliers.
//!
//! Units are binary (powers of 1024). An unrecognized unit tag falls back to
//! `Byte` (multiplier 1): this permissive fallback is deliberate, not an
//! error condition.

use vstd::prelude::*;

verus! {

/// A size unit from the fixed set the probe understands.
#[derive(Clone, Copy, Debug, PartialEq, Eq, Structural)]
pub enum Unit {
    Byte,
    Kilobyte,
    Megabyte,
    Gigabyte,
}

/// Byte multiplier of a unit: binary units, so powers of 1024.
pub open spec fn spec_multiplier(u: Unit) -> nat {
    match u {
        Unit::Byte => 1,
        Unit::Kilobyte => 1024,
        Unit::Megabyte => 1048576,
        Unit::Gigabyte => 1073741824,
    }
}

/// The unit a textual tag denotes: `"KB"`, `"MB"` and `"GB"` name the three
/// larger units; any other tag (including `"B"`) falls back to `Byte`.
pub open spec fn spec_unit_of_tag(tag: Seq<char>) -> Unit {
    if tag == "KB"@ {
        Unit::Kilobyte
    } else if tag == "MB"@ {
        Unit::Megabyte
    } else if tag == "GB"@ {
        Unit::Gigabyte
    } else {
        Unit::Byte
    }
}

impl Unit {
    /// Byte multiplier of this unit.
    pub fn multiplier(self) -> (m: u64)
        ensures
            m == spec_multiplier(self),
            1 <= m <= 1073741824,
    {
        match self {
            Unit::Byte => 1,
            Unit::Kilobyte => 1024,
            Unit::Megabyte => 1048576,
            Unit::Gigabyte => 1073741824,
        }
    }

    /// Parse a unit tag, falling back to `Byte` for anything unrecognized.
    pub fn from_tag(tag: &str) -> (u: Unit)
        ensures
            u == spec_unit_of_tag(tag@),
    {
        proof {
            reveal_strlit("KB");
            reveal_strlit("MB");
            reveal_strlit("GB");
        }
        if tag_matches(tag, 'K', 'B') {
            proof {
                assert(tag@ =~= "KB"@);
            }
            Unit::Kilobyte
        } else if tag_matches(tag, 'M', 'B') {
            proof {
                assert(tag@ =~= "MB"@);
            }
            Unit::Megabyte
        } else if tag_matches(tag, 'G', 'B') {
            proof {
                assert(tag@ =~= "GB"@);
            }
            Unit::Gigabyte
        } else {
            Unit::Byte
        }
    }
}

/// Whether `tag` is exactly the two characters `a` then `b`.
fn tag_matches(tag: &str, a: char, b: char) -> (r: bool)
    ensures
        r == (tag@ =~= seq![a, b]),
{
    if tag.unicode_len() == 2 {
        let c0 = tag.get_char(0);
        let c1 = tag.get_char(1);
        c0 == a && c1 == b
    } else {
        false
    }
}

} // verus!
