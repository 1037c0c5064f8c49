//! The enum spellings the frontend sees.
//!
//! The store's tags are a persistence format; these are an API between two
//! halves of one artifact that always ship together, so they are kept apart
//! and changing one costs a rebuild of the frontend and nothing more.
//!
//! Every conversion below is **total**, and each tag names exactly one
//! variant: a value survives the round trip to the frontend and back.

use vstd::prelude::*;

use crate::ingredient::Aisle;
use crate::overlay::CheckState;
use crate::recipe::RefDisplay;
use crate::units::{MassUnit, Unit, VolumeUnit};

verus! {

/// A unit, as the frontend names it. The UI owns the *label*; this is the
/// identity underneath it, and it never changes with the language.
#[derive(Debug, Clone, Copy, PartialEq, Eq, Structural)]
pub enum UnitTag {
    Mg,
    G,
    Kg,
    Oz,
    Lb,
    Ml,
    Cl,
    Dl,
    L,
    TspFr,
    TbspFr,
    CupMetric,
    TspUs,
    TbspUs,
    CupUs,
    FlozUs,
    Piece,
    Pinch,
    ToTaste,
}

pub open spec fn unit_tag(unit: Unit) -> UnitTag {
    match unit {
        Unit::Mass(MassUnit::Milligram) => UnitTag::Mg,
        Unit::Mass(MassUnit::Gram) => UnitTag::G,
        Unit::Mass(MassUnit::Kilogram) => UnitTag::Kg,
        Unit::Mass(MassUnit::Ounce) => UnitTag::Oz,
        Unit::Mass(MassUnit::Pound) => UnitTag::Lb,
        Unit::Volume(VolumeUnit::Milliliter) => UnitTag::Ml,
        Unit::Volume(VolumeUnit::Centiliter) => UnitTag::Cl,
        Unit::Volume(VolumeUnit::Deciliter) => UnitTag::Dl,
        Unit::Volume(VolumeUnit::Liter) => UnitTag::L,
        Unit::Volume(VolumeUnit::TeaspoonFr) => UnitTag::TspFr,
        Unit::Volume(VolumeUnit::TablespoonFr) => UnitTag::TbspFr,
        Unit::Volume(VolumeUnit::CupMetric) => UnitTag::CupMetric,
        Unit::Volume(VolumeUnit::TeaspoonUs) => UnitTag::TspUs,
        Unit::Volume(VolumeUnit::TablespoonUs) => UnitTag::TbspUs,
        Unit::Volume(VolumeUnit::CupUs) => UnitTag::CupUs,
        Unit::Volume(VolumeUnit::FluidOunceUs) => UnitTag::FlozUs,
        Unit::Piece => UnitTag::Piece,
        Unit::Pinch => UnitTag::Pinch,
        Unit::ToTaste => UnitTag::ToTaste,
    }
}

pub open spec fn unit_of(tag: UnitTag) -> Unit {
    match tag {
        UnitTag::Mg => Unit::Mass(MassUnit::Milligram),
        UnitTag::G => Unit::Mass(MassUnit::Gram),
        UnitTag::Kg => Unit::Mass(MassUnit::Kilogram),
        UnitTag::Oz => Unit::Mass(MassUnit::Ounce),
        UnitTag::Lb => Unit::Mass(MassUnit::Pound),
        UnitTag::Ml => Unit::Volume(VolumeUnit::Milliliter),
        UnitTag::Cl => Unit::Volume(VolumeUnit::Centiliter),
        UnitTag::Dl => Unit::Volume(VolumeUnit::Deciliter),
        UnitTag::L => Unit::Volume(VolumeUnit::Liter),
        UnitTag::TspFr => Unit::Volume(VolumeUnit::TeaspoonFr),
        UnitTag::TbspFr => Unit::Volume(VolumeUnit::TablespoonFr),
        UnitTag::CupMetric => Unit::Volume(VolumeUnit::CupMetric),
        UnitTag::TspUs => Unit::Volume(VolumeUnit::TeaspoonUs),
        UnitTag::TbspUs => Unit::Volume(VolumeUnit::TablespoonUs),
        UnitTag::CupUs => Unit::Volume(VolumeUnit::CupUs),
        UnitTag::FlozUs => Unit::Volume(VolumeUnit::FluidOunceUs),
        UnitTag::Piece => Unit::Piece,
        UnitTag::Pinch => Unit::Pinch,
        UnitTag::ToTaste => Unit::ToTaste,
    }
}

impl From<Unit> for UnitTag {
    fn from(unit: Unit) -> (t: UnitTag)
        ensures
            t == unit_tag(unit),
    {
        match unit {
            Unit::Mass(MassUnit::Milligram) => UnitTag::Mg,
            Unit::Mass(MassUnit::Gram) => UnitTag::G,
            Unit::Mass(MassUnit::Kilogram) => UnitTag::Kg,
            Unit::Mass(MassUnit::Ounce) => UnitTag::Oz,
            Unit::Mass(MassUnit::Pound) => UnitTag::Lb,
            Unit::Volume(VolumeUnit::Milliliter) => UnitTag::Ml,
            Unit::Volume(VolumeUnit::Centiliter) => UnitTag::Cl,
            Unit::Volume(VolumeUnit::Deciliter) => UnitTag::Dl,
            Unit::Volume(VolumeUnit::Liter) => UnitTag::L,
            Unit::Volume(VolumeUnit::TeaspoonFr) => UnitTag::TspFr,
            Unit::Volume(VolumeUnit::TablespoonFr) => UnitTag::TbspFr,
            Unit::Volume(VolumeUnit::CupMetric) => UnitTag::CupMetric,
            Unit::Volume(VolumeUnit::TeaspoonUs) => UnitTag::TspUs,
            Unit::Volume(VolumeUnit::TablespoonUs) => UnitTag::TbspUs,
            Unit::Volume(VolumeUnit::CupUs) => UnitTag::CupUs,
            Unit::Volume(VolumeUnit::FluidOunceUs) => UnitTag::FlozUs,
            Unit::Piece => UnitTag::Piece,
            Unit::Pinch => UnitTag::Pinch,
            Unit::ToTaste => UnitTag::ToTaste,
        }
    }
}

impl vstd::std_specs::convert::FromSpecImpl<Unit> for UnitTag {
    open spec fn obeys_from_spec() -> bool {
        true
    }

    open spec fn from_spec(unit: Unit) -> UnitTag {
        unit_tag(unit)
    }
}

impl From<UnitTag> for Unit {
    fn from(tag: UnitTag) -> (u: Unit)
        ensures
            u == unit_of(tag),
    {
        match tag {
            UnitTag::Mg => Unit::Mass(MassUnit::Milligram),
            UnitTag::G => Unit::Mass(MassUnit::Gram),
            UnitTag::Kg => Unit::Mass(MassUnit::Kilogram),
            UnitTag::Oz => Unit::Mass(MassUnit::Ounce),
            UnitTag::Lb => Unit::Mass(MassUnit::Pound),
            UnitTag::Ml => Unit::Volume(VolumeUnit::Milliliter),
            UnitTag::Cl => Unit::Volume(VolumeUnit::Centiliter),
            UnitTag::Dl => Unit::Volume(VolumeUnit::Deciliter),
            UnitTag::L => Unit::Volume(VolumeUnit::Liter),
            UnitTag::TspFr => Unit::Volume(VolumeUnit::TeaspoonFr),
            UnitTag::TbspFr => Unit::Volume(VolumeUnit::TablespoonFr),
            UnitTag::CupMetric => Unit::Volume(VolumeUnit::CupMetric),
            UnitTag::TspUs => Unit::Volume(VolumeUnit::TeaspoonUs),
            UnitTag::TbspUs => Unit::Volume(VolumeUnit::TablespoonUs),
            UnitTag::CupUs => Unit::Volume(VolumeUnit::CupUs),
            UnitTag::FlozUs => Unit::Volume(VolumeUnit::FluidOunceUs),
            UnitTag::Piece => Unit::Piece,
            UnitTag::Pinch => Unit::Pinch,
            UnitTag::ToTaste => Unit::ToTaste,
        }
    }
}

impl vstd::std_specs::convert::FromSpecImpl<UnitTag> for Unit {
    open spec fn obeys_from_spec() -> bool {
        true
    }

    open spec fn from_spec(tag: UnitTag) -> Unit {
        unit_of(tag)
    }
}

/// Every unit survives the round trip to the frontend and back, and every
/// tag the frontend can send names a unit that spells it back.
pub proof fn law_units_round_trip(unit: Unit, tag: UnitTag)
    ensures
        unit_of(unit_tag(unit)) == unit,
        unit_tag(unit_of(tag)) == tag,
{
}

/// Where the item is found in the shop, as the frontend names it.
#[derive(Debug, Clone, Copy, PartialEq, Eq, Structural)]
pub enum AisleTag {
    Produce,
    Butcher,
    Fish,
    Deli,
    Dairy,
    Bakery,
    Grocery,
    Frozen,
    Beverages,
    Household,
    Other,
}

pub open spec fn aisle_tag(aisle: Aisle) -> AisleTag {
    match aisle {
        Aisle::Produce => AisleTag::Produce,
        Aisle::Butcher => AisleTag::Butcher,
        Aisle::Fish => AisleTag::Fish,
        Aisle::Deli => AisleTag::Deli,
        Aisle::Dairy => AisleTag::Dairy,
        Aisle::Bakery => AisleTag::Bakery,
        Aisle::Grocery => AisleTag::Grocery,
        Aisle::Frozen => AisleTag::Frozen,
        Aisle::Beverages => AisleTag::Beverages,
        Aisle::Household => AisleTag::Household,
        Aisle::Other => AisleTag::Other,
    }
}

pub open spec fn aisle_of(tag: AisleTag) -> Aisle {
    match tag {
        AisleTag::Produce => Aisle::Produce,
        AisleTag::Butcher => Aisle::Butcher,
        AisleTag::Fish => Aisle::Fish,
        AisleTag::Deli => Aisle::Deli,
        AisleTag::Dairy => Aisle::Dairy,
        AisleTag::Bakery => Aisle::Bakery,
        AisleTag::Grocery => Aisle::Grocery,
        AisleTag::Frozen => Aisle::Frozen,
        AisleTag::Beverages => Aisle::Beverages,
        AisleTag::Household => Aisle::Household,
        AisleTag::Other => Aisle::Other,
    }
}

impl From<Aisle> for AisleTag {
    fn from(aisle: Aisle) -> (t: AisleTag)
        ensures
            t == aisle_tag(aisle),
    {
        match aisle {
            Aisle::Produce => AisleTag::Produce,
            Aisle::Butcher => AisleTag::Butcher,
            Aisle::Fish => AisleTag::Fish,
            Aisle::Deli => AisleTag::Deli,
            Aisle::Dairy => AisleTag::Dairy,
            Aisle::Bakery => AisleTag::Bakery,
            Aisle::Grocery => AisleTag::Grocery,
            Aisle::Frozen => AisleTag::Frozen,
            Aisle::Beverages => AisleTag::Beverages,
            Aisle::Household => AisleTag::Household,
            Aisle::Other => AisleTag::Other,
        }
    }
}

impl vstd::std_specs::convert::FromSpecImpl<Aisle> for AisleTag {
    open spec fn obeys_from_spec() -> bool {
        true
    }

    open spec fn from_spec(aisle: Aisle) -> AisleTag {
        aisle_tag(aisle)
    }
}

impl From<AisleTag> for Aisle {
    fn from(tag: AisleTag) -> (a: Aisle)
        ensures
            a == aisle_of(tag),
    {
        match tag {
            AisleTag::Produce => Aisle::Produce,
            AisleTag::Butcher => Aisle::Butcher,
            AisleTag::Fish => Aisle::Fish,
            AisleTag::Deli => Aisle::Deli,
            AisleTag::Dairy => Aisle::Dairy,
            AisleTag::Bakery => Aisle::Bakery,
            AisleTag::Grocery => Aisle::Grocery,
            AisleTag::Frozen => Aisle::Frozen,
            AisleTag::Beverages => Aisle::Beverages,
            AisleTag::Household => Aisle::Household,
            AisleTag::Other => Aisle::Other,
        }
    }
}

impl vstd::std_specs::convert::FromSpecImpl<AisleTag> for Aisle {
    open spec fn obeys_from_spec() -> bool {
        true
    }

    open spec fn from_spec(tag: AisleTag) -> Aisle {
        aisle_of(tag)
    }
}

/// Every aisle survives the round trip, and every tag names an aisle that
/// spells it back.
pub proof fn law_aisles_round_trip(aisle: Aisle, tag: AisleTag)
    ensures
        aisle_of(aisle_tag(aisle)) == aisle,
        aisle_tag(aisle_of(tag)) == tag,
{
}

/// What a cart line shows. `Checked` and `AutoChecked` are both settled but
/// they do not mean the same thing, and the UI keeps them in two separate
/// sections for that reason.
#[derive(Debug, Clone, Copy, PartialEq, Eq, Structural)]
pub enum CheckStateTag {
    ToBuy,
    Checked,
    AutoChecked,
}

pub open spec fn check_state_tag(state: CheckState) -> CheckStateTag {
    match state {
        CheckState::ToBuy => CheckStateTag::ToBuy,
        CheckState::Checked { .. } => CheckStateTag::Checked,
        CheckState::AutoChecked => CheckStateTag::AutoChecked,
    }
}

/// The tag of a line's state.
pub fn state_tag(state: &CheckState) -> (t: CheckStateTag)
    ensures
        t == check_state_tag(*state),
{
    match state {
        CheckState::ToBuy => CheckStateTag::ToBuy,
        CheckState::Checked { .. } => CheckStateTag::Checked,
        CheckState::AutoChecked => CheckStateTag::AutoChecked,
    }
}

/// How an ingredient reference renders inside an instruction step.
#[derive(Debug, Clone, Copy, PartialEq, Eq, Structural)]
pub enum RefDisplayTag {
    Full,
    NameOnly,
    QuantityOnly,
}

pub open spec fn display_tag(display: RefDisplay) -> RefDisplayTag {
    match display {
        RefDisplay::Full => RefDisplayTag::Full,
        RefDisplay::NameOnly => RefDisplayTag::NameOnly,
        RefDisplay::QuantityOnly => RefDisplayTag::QuantityOnly,
    }
}

pub open spec fn display_of(tag: RefDisplayTag) -> RefDisplay {
    match tag {
        RefDisplayTag::Full => RefDisplay::Full,
        RefDisplayTag::NameOnly => RefDisplay::NameOnly,
        RefDisplayTag::QuantityOnly => RefDisplay::QuantityOnly,
    }
}

impl From<RefDisplay> for RefDisplayTag {
    fn from(display: RefDisplay) -> (t: RefDisplayTag)
        ensures
            t == display_tag(display),
    {
        match display {
            RefDisplay::Full => RefDisplayTag::Full,
            RefDisplay::NameOnly => RefDisplayTag::NameOnly,
            RefDisplay::QuantityOnly => RefDisplayTag::QuantityOnly,
        }
    }
}

impl vstd::std_specs::convert::FromSpecImpl<RefDisplay> for RefDisplayTag {
    open spec fn obeys_from_spec() -> bool {
        true
    }

    open spec fn from_spec(display: RefDisplay) -> RefDisplayTag {
        display_tag(display)
    }
}

impl From<RefDisplayTag> for RefDisplay {
    fn from(tag: RefDisplayTag) -> (d: RefDisplay)
        ensures
            d == display_of(tag),
    {
        match tag {
            RefDisplayTag::Full => RefDisplay::Full,
            RefDisplayTag::NameOnly => RefDisplay::NameOnly,
            RefDisplayTag::QuantityOnly => RefDisplay::QuantityOnly,
        }
    }
}

impl vstd::std_specs::convert::FromSpecImpl<RefDisplayTag> for RefDisplay {
    open spec fn obeys_from_spec() -> bool {
        true
    }

    open spec fn from_spec(tag: RefDisplayTag) -> RefDisplay {
        display_of(tag)
    }
}

/// Every reference display survives the round trip, and every tag names a
/// display that spells it back.
pub proof fn law_displays_round_trip(display: RefDisplay, tag: RefDisplayTag)
    ensures
        display_of(display_tag(display)) == display,
        display_tag(display_of(tag)) == tag,
{
}

} // verus!
