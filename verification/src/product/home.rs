//! Spaces, interface levels, and the home screen's list of spaces.

use vstd::prelude::*;

verus! {

/// A human context that objects live in.
#[derive(Debug, Clone, Copy, PartialEq, Eq, Structural)]
pub enum SpaceType {
    Personal,
    Family,
    Work,
    Community,
    Project,
}

/// How much technical detail the interface shows.
#[derive(Debug, Clone, Copy, PartialEq, Eq, Structural)]
pub enum InterfaceComplexity {
    Simple,
    Standard,
    Advanced,
    Expert,
}

/// The name of a space, as its `Debug` form prints it.
pub open spec fn space_name(s: SpaceType) -> Seq<char> {
    match s {
        SpaceType::Personal => "Personal"@,
        SpaceType::Family => "Family"@,
        SpaceType::Work => "Work"@,
        SpaceType::Community => "Community"@,
        SpaceType::Project => "Project"@,
    }
}

/// The name of an interface level, as its `Debug` form prints it.
pub open spec fn complexity_name(c: InterfaceComplexity) -> Seq<char> {
    match c {
        InterfaceComplexity::Simple => "Simple"@,
        InterfaceComplexity::Standard => "Standard"@,
        InterfaceComplexity::Advanced => "Advanced"@,
        InterfaceComplexity::Expert => "Expert"@,
    }
}

impl SpaceType {
    pub fn name(&self) -> (r: &'static str)
        ensures
            r@ == space_name(*self),
    {
        match self {
            SpaceType::Personal => "Personal",
            SpaceType::Family => "Family",
            SpaceType::Work => "Work",
            SpaceType::Community => "Community",
            SpaceType::Project => "Project",
        }
    }
}

impl InterfaceComplexity {
    pub fn name(&self) -> (r: &'static str)
        ensures
            r@ == complexity_name(*self),
    {
        match self {
            InterfaceComplexity::Simple => "Simple",
            InterfaceComplexity::Standard => "Standard",
            InterfaceComplexity::Advanced => "Advanced",
            InterfaceComplexity::Expert => "Expert",
        }
    }

    /// Whether the level shows cryptographic and storage internals.
    pub open spec fn shows_internals(self) -> bool {
        self == InterfaceComplexity::Advanced || self == InterfaceComplexity::Expert
    }
}

pub struct NexHomeController;

impl NexHomeController {
    /// Every space, in the order the home screen offers them.
    pub fn list_available_spaces() -> (r: Vec<SpaceType>)
        ensures
            r@ == seq![SpaceType::Personal, SpaceType::Family, SpaceType::Work, SpaceType::Community, SpaceType::Project],
    {
        let mut v: Vec<SpaceType> = Vec::new();
        v.push(SpaceType::Personal);
        v.push(SpaceType::Family);
        v.push(SpaceType::Work);
        v.push(SpaceType::Community);
        v.push(SpaceType::Project);
        assert(v@ =~= seq![SpaceType::Personal, SpaceType::Family, SpaceType::Work, SpaceType::Community, SpaceType::Project]);
        v
    }
}

} // verus!
