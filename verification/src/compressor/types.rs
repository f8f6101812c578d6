use vstd::prelude::*;

use crate::compressor::literals::literal_value::str_eq;
use crate::compressor::osm_tags::Tags;

verus! {

/// The kind of an element, as the two top bits of its first byte.
#[derive(PartialEq, Eq, Debug, Clone, Copy, Structural)]
pub enum ElementType {
    Node,
    Way,
    Relation,
    RelationTyped,
}

impl ElementType {
    pub open spec fn spec_discriminant(self) -> u8 {
        match self {
            ElementType::Node => 0,
            ElementType::Way => 1,
            ElementType::Relation => 2,
            ElementType::RelationTyped => 3,
        }
    }

    pub fn discriminant(&self) -> (r: u8)
        ensures
            r == self.spec_discriminant(),
    {
        match self {
            ElementType::Node => 0b00,
            ElementType::Way => 0b01,
            ElementType::Relation => 0b10,
            ElementType::RelationTyped => 0b11,
        }
    }
}

/// The kinds of relations that are stored with a number for their kind.
#[derive(PartialEq, Eq, Debug, Clone, Copy, Structural)]
pub enum KnownRelationTypeTag {
    TypeMultipolygon,
    TypeRoute,
    TypeRouteMaster,
    TypeRestriction,
    TypeBoundary,
    TypePublicTransport,
    TypeDestinationSign,
    TypeWaterway,
    TypeEnforcement,
    TypeConnectivity,
    TypeAssociatedStreet,
    TypeSuperroute,
    TypeSite,
    TypeNetwork,
    TypeBuilding,
    TypeMultilinestring,
    TypeStreet,
    TypeBridge,
    TypeTunnel,
    NaturalWater,
    NaturalWood,
}

/// The kind of relation that a tag names, if any.
pub open spec fn relation_tag_of(k: Seq<char>, v: Seq<char>) -> Option<KnownRelationTypeTag> {
    if k == "type"@ && v == "multipolygon"@ {
        Some(KnownRelationTypeTag::TypeMultipolygon)
    } else if k == "type"@ && v == "route"@ {
        Some(KnownRelationTypeTag::TypeRoute)
    } else if k == "type"@ && v == "route_master"@ {
        Some(KnownRelationTypeTag::TypeRouteMaster)
    } else if k == "type"@ && v == "restriction"@ {
        Some(KnownRelationTypeTag::TypeRestriction)
    } else if k == "type"@ && v == "boundary"@ {
        Some(KnownRelationTypeTag::TypeBoundary)
    } else if k == "type"@ && v == "public_transport"@ {
        Some(KnownRelationTypeTag::TypePublicTransport)
    } else if k == "type"@ && v == "destination_sign"@ {
        Some(KnownRelationTypeTag::TypeDestinationSign)
    } else if k == "type"@ && v == "waterway"@ {
        Some(KnownRelationTypeTag::TypeWaterway)
    } else if k == "type"@ && v == "enforcement"@ {
        Some(KnownRelationTypeTag::TypeEnforcement)
    } else if k == "type"@ && v == "connectivity"@ {
        Some(KnownRelationTypeTag::TypeConnectivity)
    } else if k == "type"@ && v == "associatedStreet"@ {
        Some(KnownRelationTypeTag::TypeAssociatedStreet)
    } else if k == "type"@ && v == "superroute"@ {
        Some(KnownRelationTypeTag::TypeSuperroute)
    } else if k == "type"@ && v == "site"@ {
        Some(KnownRelationTypeTag::TypeSite)
    } else if k == "type"@ && v == "network"@ {
        Some(KnownRelationTypeTag::TypeNetwork)
    } else if k == "type"@ && v == "building"@ {
        Some(KnownRelationTypeTag::TypeBuilding)
    } else if k == "type"@ && v == "multilinestring"@ {
        Some(KnownRelationTypeTag::TypeMultilinestring)
    } else if k == "type"@ && v == "street"@ {
        Some(KnownRelationTypeTag::TypeStreet)
    } else if k == "type"@ && v == "bridge"@ {
        Some(KnownRelationTypeTag::TypeBridge)
    } else if k == "type"@ && v == "tunnel"@ {
        Some(KnownRelationTypeTag::TypeTunnel)
    } else if k == "natural"@ && v == "water"@ {
        Some(KnownRelationTypeTag::NaturalWater)
    } else if k == "natural"@ && v == "wood"@ {
        Some(KnownRelationTypeTag::NaturalWood)
    } else {
        None
    }
}

/// The kind of relation that the first tag naming one names.
pub open spec fn first_relation_tag(s: Seq<(Seq<char>, Seq<char>)>) -> Option<KnownRelationTypeTag>
    decreases s.len(),
{
    if s.len() == 0 {
        None
    } else {
        match relation_tag_of(s[0].0, s[0].1) {
            Some(t) => Some(t),
            None => first_relation_tag(s.drop_first()),
        }
    }
}

/// The kind of relation that a tag names, if any.
fn match_relation_tag(k: &str, v: &str) -> (r: Option<KnownRelationTypeTag>)
    ensures
        r == relation_tag_of(k@, v@),
{
    if str_eq(k, "type") && str_eq(v, "multipolygon") {
        Some(KnownRelationTypeTag::TypeMultipolygon)
    } else if str_eq(k, "type") && str_eq(v, "route") {
        Some(KnownRelationTypeTag::TypeRoute)
    } else if str_eq(k, "type") && str_eq(v, "route_master") {
        Some(KnownRelationTypeTag::TypeRouteMaster)
    } else if str_eq(k, "type") && str_eq(v, "restriction") {
        Some(KnownRelationTypeTag::TypeRestriction)
    } else if str_eq(k, "type") && str_eq(v, "boundary") {
        Some(KnownRelationTypeTag::TypeBoundary)
    } else if str_eq(k, "type") && str_eq(v, "public_transport") {
        Some(KnownRelationTypeTag::TypePublicTransport)
    } else if str_eq(k, "type") && str_eq(v, "destination_sign") {
        Some(KnownRelationTypeTag::TypeDestinationSign)
    } else if str_eq(k, "type") && str_eq(v, "waterway") {
        Some(KnownRelationTypeTag::TypeWaterway)
    } else if str_eq(k, "type") && str_eq(v, "enforcement") {
        Some(KnownRelationTypeTag::TypeEnforcement)
    } else if str_eq(k, "type") && str_eq(v, "connectivity") {
        Some(KnownRelationTypeTag::TypeConnectivity)
    } else if str_eq(k, "type") && str_eq(v, "associatedStreet") {
        Some(KnownRelationTypeTag::TypeAssociatedStreet)
    } else if str_eq(k, "type") && str_eq(v, "superroute") {
        Some(KnownRelationTypeTag::TypeSuperroute)
    } else if str_eq(k, "type") && str_eq(v, "site") {
        Some(KnownRelationTypeTag::TypeSite)
    } else if str_eq(k, "type") && str_eq(v, "network") {
        Some(KnownRelationTypeTag::TypeNetwork)
    } else if str_eq(k, "type") && str_eq(v, "building") {
        Some(KnownRelationTypeTag::TypeBuilding)
    } else if str_eq(k, "type") && str_eq(v, "multilinestring") {
        Some(KnownRelationTypeTag::TypeMultilinestring)
    } else if str_eq(k, "type") && str_eq(v, "street") {
        Some(KnownRelationTypeTag::TypeStreet)
    } else if str_eq(k, "type") && str_eq(v, "bridge") {
        Some(KnownRelationTypeTag::TypeBridge)
    } else if str_eq(k, "type") && str_eq(v, "tunnel") {
        Some(KnownRelationTypeTag::TypeTunnel)
    } else if str_eq(k, "natural") && str_eq(v, "water") {
        Some(KnownRelationTypeTag::NaturalWater)
    } else if str_eq(k, "natural") && str_eq(v, "wood") {
        Some(KnownRelationTypeTag::NaturalWood)
    } else {
        None
    }
}

impl KnownRelationTypeTag {
    /// The kind of relation that the first tag naming one names.
    pub fn try_match(tags: &Tags) -> (r: Option<KnownRelationTypeTag>)
        ensures
            r == first_relation_tag(tags.view_pairs()),
    {
        let n = tags.len();
        let mut i: usize = 0;
        assert(tags.view_pairs().skip(0) =~= tags.view_pairs());
        while i < n
            invariant
                n == tags.view_pairs().len(),
                i <= n,
                first_relation_tag(tags.view_pairs()) == first_relation_tag(
                    tags.view_pairs().skip(i as int),
                ),
            decreases n - i,
        {
            let (k, v) = tags.get(i);
            proof {
                let s = tags.view_pairs().skip(i as int);
                assert(s[0] == tags.view_pairs()[i as int]);
                assert(s.drop_first() =~= tags.view_pairs().skip(i + 1));
            }
            match match_relation_tag(k, v) {
                Some(t) => {
                    return Some(t);
                },
                None => {},
            }
            i = i + 1;
        }
        proof {
            assert(tags.view_pairs().skip(n as int) =~= Seq::<(Seq<char>, Seq<char>)>::empty());
        }
        None
    }

    pub open spec fn spec_discriminant(self) -> u8 {
        match self {
            KnownRelationTypeTag::TypeMultipolygon => 0,
            KnownRelationTypeTag::TypeRoute => 1,
            KnownRelationTypeTag::TypeRouteMaster => 2,
            KnownRelationTypeTag::TypeRestriction => 3,
            KnownRelationTypeTag::TypeBoundary => 4,
            KnownRelationTypeTag::TypePublicTransport => 5,
            KnownRelationTypeTag::TypeDestinationSign => 6,
            KnownRelationTypeTag::TypeWaterway => 7,
            KnownRelationTypeTag::TypeEnforcement => 8,
            KnownRelationTypeTag::TypeConnectivity => 9,
            KnownRelationTypeTag::TypeAssociatedStreet => 10,
            KnownRelationTypeTag::TypeSuperroute => 11,
            KnownRelationTypeTag::TypeSite => 12,
            KnownRelationTypeTag::TypeNetwork => 13,
            KnownRelationTypeTag::TypeBuilding => 14,
            KnownRelationTypeTag::TypeMultilinestring => 15,
            KnownRelationTypeTag::TypeStreet => 16,
            KnownRelationTypeTag::TypeBridge => 17,
            KnownRelationTypeTag::TypeTunnel => 18,
            KnownRelationTypeTag::NaturalWater => 19,
            KnownRelationTypeTag::NaturalWood => 20,
        }
    }

    /// The number a kind of relation is stored as.
    pub fn discriminant(&self) -> (r: u8)
        ensures
            r == self.spec_discriminant(),
    {
        match self {
            KnownRelationTypeTag::TypeMultipolygon => 0,
            KnownRelationTypeTag::TypeRoute => 1,
            KnownRelationTypeTag::TypeRouteMaster => 2,
            KnownRelationTypeTag::TypeRestriction => 3,
            KnownRelationTypeTag::TypeBoundary => 4,
            KnownRelationTypeTag::TypePublicTransport => 5,
            KnownRelationTypeTag::TypeDestinationSign => 6,
            KnownRelationTypeTag::TypeWaterway => 7,
            KnownRelationTypeTag::TypeEnforcement => 8,
            KnownRelationTypeTag::TypeConnectivity => 9,
            KnownRelationTypeTag::TypeAssociatedStreet => 10,
            KnownRelationTypeTag::TypeSuperroute => 11,
            KnownRelationTypeTag::TypeSite => 12,
            KnownRelationTypeTag::TypeNetwork => 13,
            KnownRelationTypeTag::TypeBuilding => 14,
            KnownRelationTypeTag::TypeMultilinestring => 15,
            KnownRelationTypeTag::TypeStreet => 16,
            KnownRelationTypeTag::TypeBridge => 17,
            KnownRelationTypeTag::TypeTunnel => 18,
            KnownRelationTypeTag::NaturalWater => 19,
            KnownRelationTypeTag::NaturalWood => 20,
        }
    }
}

} // verus!
