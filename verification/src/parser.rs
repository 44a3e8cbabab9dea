//! Road classes and the filter that keeps the ways a vehicle may use.

use std::str::FromStr;
use vstd::prelude::*;
use crate::graph::NodeId;

verus! {

/// The tag key that carries a way's road class.
pub const TARGET_TAG_KEY: &'static str = "highway";

/// The road classes that enter the graph; `NA` marks an edge that stems from no way.
#[derive(PartialEq, Eq, Structural, Debug, Clone, Copy, Hash)]
pub enum ApprovedHighwayType {
    Secondary,
    LivingStreet,
    Residential,
    Tertiary,
    Trunk,
    Motorway,
    Primary,
    MotorwayLink,
    TrunkLink,
    PrimaryLink,
    SecondaryLink,
    TertiaryLink,
    NA,
}

/// The road class that a tag value names, if it names one.
pub open spec fn highway_type_of(s: Seq<char>) -> Option<ApprovedHighwayType> {
    if s == "secondary"@ {
        Some(ApprovedHighwayType::Secondary)
    } else if s == "living_street"@ {
        Some(ApprovedHighwayType::LivingStreet)
    } else if s == "residential"@ {
        Some(ApprovedHighwayType::Residential)
    } else if s == "tertiary"@ {
        Some(ApprovedHighwayType::Tertiary)
    } else if s == "trunk"@ {
        Some(ApprovedHighwayType::Trunk)
    } else if s == "motorway"@ {
        Some(ApprovedHighwayType::Motorway)
    } else if s == "primary"@ {
        Some(ApprovedHighwayType::Primary)
    } else if s == "motorway_link"@ {
        Some(ApprovedHighwayType::MotorwayLink)
    } else if s == "trunk_link"@ {
        Some(ApprovedHighwayType::TrunkLink)
    } else if s == "primary_link"@ {
        Some(ApprovedHighwayType::PrimaryLink)
    } else if s == "secondary_link"@ {
        Some(ApprovedHighwayType::SecondaryLink)
    } else if s == "tertiary_link"@ {
        Some(ApprovedHighwayType::TertiaryLink)
    } else {
        None
    }
}

/// `str`'s equality compares the two strings character by character.
pub assume_specification[ <str as PartialEq>::eq ](a: &str, b: &str) -> (r: bool)
    ensures
        r == (a@ == b@),
;

impl std::str::FromStr for ApprovedHighwayType {
    type Err = ();

    /// Reads a road class from the value of a `highway` tag.
    fn from_str(s: &str) -> (r: Result<Self, ()>)
        ensures
            match highway_type_of(s@) {
                Some(t) => r == Ok::<ApprovedHighwayType, ()>(t),
                None => r is Err,
            },
    {
        if s.eq("secondary") {
            Ok(ApprovedHighwayType::Secondary)
        } else if s.eq("living_street") {
            Ok(ApprovedHighwayType::LivingStreet)
        } else if s.eq("residential") {
            Ok(ApprovedHighwayType::Residential)
        } else if s.eq("tertiary") {
            Ok(ApprovedHighwayType::Tertiary)
        } else if s.eq("trunk") {
            Ok(ApprovedHighwayType::Trunk)
        } else if s.eq("motorway") {
            Ok(ApprovedHighwayType::Motorway)
        } else if s.eq("primary") {
            Ok(ApprovedHighwayType::Primary)
        } else if s.eq("motorway_link") {
            Ok(ApprovedHighwayType::MotorwayLink)
        } else if s.eq("trunk_link") {
            Ok(ApprovedHighwayType::TrunkLink)
        } else if s.eq("primary_link") {
            Ok(ApprovedHighwayType::PrimaryLink)
        } else if s.eq("secondary_link") {
            Ok(ApprovedHighwayType::SecondaryLink)
        } else if s.eq("tertiary_link") {
            Ok(ApprovedHighwayType::TertiaryLink)
        } else {
            Err(())
        }
    }
}

/// A way of the map: a line through nodes, with tags that describe it.
#[derive(Debug, Clone, PartialEq, Eq)]
pub struct Way {
    pub id: i64,
    /// The nodes of the way, in order.
    pub nodes: Vec<NodeId>,
    /// The tags of the way as pairs of key and value.
    pub tags: Vec<(String, String)>,
}

/// The road class of a way with these tags: what the value of its first `highway` tag
/// names, if there is such a tag and its value names a class.
pub open spec fn way_type(tags: Seq<(String, String)>) -> Option<ApprovedHighwayType>
    decreases tags.len(),
{
    if tags.len() == 0 {
        None
    } else if tags[0].0@ == TARGET_TAG_KEY@ {
        highway_type_of(tags[0].1@)
    } else {
        way_type(tags.drop_first())
    }
}

/// Keeps a way that a vehicle may use, together with its road class: a way whose first
/// `highway` tag has one of the values `secondary`, `living_street`, `residential`,
/// `tertiary`, `trunk`, `motorway`, `primary`, `motorway_link`, `trunk_link`,
/// `primary_link`, `secondary_link` and `tertiary_link`.
pub fn filter_way_data(osm_way: &Way) -> (r: Option<(&Way, ApprovedHighwayType)>)
    ensures
        match way_type(osm_way.tags@) {
            Some(t) => r == Some((osm_way, t)),
            None => r is None,
        },
{
    let mut i: usize = 0;
    assert(osm_way.tags@.skip(0) =~= osm_way.tags@);
    while i < osm_way.tags.len()
        invariant
            i <= osm_way.tags.len(),
            way_type(osm_way.tags@) == way_type(osm_way.tags@.skip(i as int)),
        decreases osm_way.tags.len() - i,
    {
        if osm_way.tags[i].0.as_str().eq(TARGET_TAG_KEY) {
            return match ApprovedHighwayType::from_str(osm_way.tags[i].1.as_str()) {
                Ok(highway_type) => Some((osm_way, highway_type)),
                Err(_) => None,
            };
        }
        proof {
            assert(osm_way.tags@.skip(i as int).drop_first() =~= osm_way.tags@.skip(i as int + 1));
        }
        i += 1;
    }
    None
}

} // verus!
