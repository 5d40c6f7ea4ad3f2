//! What a venue is called and what family it belongs to, for display and grouping.

use crate::text::text_eq;
use vstd::prelude::*;

verus! {

/// The kind of market a venue is.
#[derive(Debug, Clone, Copy, PartialEq, Eq, Structural, PartialOrd, Ord, Hash)]
pub enum AssetFamily {
    /// Cash equities.
    Equities,
    /// Spot metals, energy, and foreign exchange.
    SpotAndFx,
    /// Listed futures and perpetuals.
    Futures,
}

/// The stable identifier of each family.
pub open spec fn family_text(f: AssetFamily) -> Seq<char> {
    match f {
        AssetFamily::Equities => "equities"@,
        AssetFamily::SpotAndFx => "spot_and_fx"@,
        AssetFamily::Futures => "futures"@,
    }
}

/// The family a text names, if any.
pub open spec fn family_of_text(t: Seq<char>) -> Option<AssetFamily> {
    if t == "equities"@ {
        Some(AssetFamily::Equities)
    } else if t == "spot_and_fx"@ {
        Some(AssetFamily::SpotAndFx)
    } else if t == "futures"@ {
        Some(AssetFamily::Futures)
    } else {
        None
    }
}

impl AssetFamily {
    /// A stable, lowercase identifier.
    pub fn as_str(self) -> (r: &'static str)
        ensures
            r@ == family_text(self),
    {
        match self {
            AssetFamily::Equities => "equities",
            AssetFamily::SpotAndFx => "spot_and_fx",
            AssetFamily::Futures => "futures",
        }
    }

    /// The heading a surface prints for this family.
    pub fn heading(self) -> (r: &'static str)
        ensures
            r@ == (match self {
                AssetFamily::Equities => "Equities"@,
                AssetFamily::SpotAndFx => "Spot and FX"@,
                AssetFamily::Futures => "Futures"@,
            }),
    {
        match self {
            AssetFamily::Equities => "Equities",
            AssetFamily::SpotAndFx => "Spot and FX",
            AssetFamily::Futures => "Futures",
        }
    }

    /// Parses the identifier produced by [`AssetFamily::as_str`]; `None` outside the set.
    pub fn from_str_exact(value: &str) -> (r: Option<AssetFamily>)
        ensures
            r == family_of_text(value@),
    {
        if text_eq(value, "equities") {
            Some(AssetFamily::Equities)
        } else if text_eq(value, "spot_and_fx") {
            Some(AssetFamily::SpotAndFx)
        } else if text_eq(value, "futures") {
            Some(AssetFamily::Futures)
        } else {
            None
        }
    }

    /// Every family, in the order a board lists them.
    pub fn all() -> (r: [AssetFamily; 3])
        ensures
            r@ == seq![AssetFamily::Equities, AssetFamily::SpotAndFx, AssetFamily::Futures],
    {
        let r = [AssetFamily::Equities, AssetFamily::SpotAndFx, AssetFamily::Futures];
        assert(r@ =~= seq![AssetFamily::Equities, AssetFamily::SpotAndFx, AssetFamily::Futures]);
        r
    }
}

/// The family vocabulary round-trips through its identifiers.
pub proof fn family_text_round_trips(f: AssetFamily)
    ensures
        family_of_text(family_text(f)) == Some(f),
{
    reveal_strlit("equities");
    reveal_strlit("spot_and_fx");
    reveal_strlit("futures");
    assert("equities"@.len() == 8);
    assert("spot_and_fx"@.len() == 11);
    assert("futures"@.len() == 7);
}

/// How a venue is presented. Every field is optional.
#[derive(Debug, Clone, Default, PartialEq, Eq)]
pub struct VenueProfile {
    /// The venue's name as it prefers to be called.
    pub display_name: Option<String>,
    /// The city or region it is identified by.
    pub location: Option<String>,
    /// Which family it belongs to, for grouping.
    pub family: Option<AssetFamily>,
}

impl VenueProfile {
    /// The label a surface should print, falling back to the identifier.
    pub fn label<'a>(&'a self, venue_id: &'a str) -> (r: &'a str)
        ensures
            r@ == (match self.display_name {
                Some(name) => name@,
                None => venue_id@,
            }),
    {
        match &self.display_name {
            Some(name) => name.as_str(),
            None => venue_id,
        }
    }

    /// A copy of this profile.
    pub fn duplicate(&self) -> (r: VenueProfile)
        ensures
            r == *self,
    {
        VenueProfile {
            display_name: match &self.display_name {
                Some(s) => Some(s.clone()),
                None => None,
            },
            location: match &self.location {
                Some(s) => Some(s.clone()),
                None => None,
            },
            family: self.family,
        }
    }
}

} // verus!
