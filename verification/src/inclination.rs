//! Inclination type.

use vstd::prelude::*;

verus! {

/// The tendency toward something spatially or temporally.
#[derive(Clone, Copy, Debug, Default, Eq, Hash, PartialEq, Structural)]
pub enum Inclination {
    #[default]
    Up,
    Down,
    Left,
    Right,
    Forward,
    Backward,
    Top,
    Middle,
    Bottom,
    First,
    Last,
    Previous,
    Next,
}

/// The four screen directions.
pub open spec fn spec_is_directional(i: Inclination) -> bool {
    i is Up || i is Down || i is Left || i is Right
}

/// Inclinations that relate to some ordered set.
pub open spec fn spec_is_positional(i: Inclination) -> bool {
    i is Previous || i is Next || i is First || i is Last || i is Forward || i is Backward
        || i is Middle
}

/// Inclinations that relate to physical space.
pub open spec fn spec_is_spatial(i: Inclination) -> bool {
    i is Up || i is Down || i is Left || i is Right || i is Forward || i is Backward || i is Top
        || i is Middle || i is Bottom
}

/// Inclinations that relate to time.
pub open spec fn spec_is_temporal(i: Inclination) -> bool {
    i is Forward || i is Backward || i is Previous || i is Next || i is First || i is Last
        || i is Middle
}

/// The directional counterpart of an inclination.
pub open spec fn spec_to_directional(i: Inclination) -> Inclination {
    match i {
        Inclination::Forward => Inclination::Right,
        Inclination::Backward => Inclination::Left,
        Inclination::Top => Inclination::Up,
        Inclination::Middle => Inclination::Right,
        Inclination::Bottom => Inclination::Down,
        Inclination::First => Inclination::Left,
        Inclination::Last => Inclination::Right,
        Inclination::Previous => Inclination::Left,
        Inclination::Next => Inclination::Right,
        other => other,
    }
}

/// The positional counterpart of an inclination.
pub open spec fn spec_to_positional(i: Inclination) -> Inclination {
    match i {
        Inclination::Up => Inclination::Forward,
        Inclination::Down => Inclination::Backward,
        Inclination::Left => Inclination::Previous,
        Inclination::Right => Inclination::Next,
        Inclination::Top => Inclination::First,
        Inclination::Bottom => Inclination::Last,
        other => other,
    }
}

/// The spatial counterpart of an inclination.
pub open spec fn spec_to_spatial(i: Inclination) -> Inclination {
    match i {
        Inclination::First => Inclination::Top,
        Inclination::Last => Inclination::Bottom,
        Inclination::Previous => Inclination::Left,
        Inclination::Next => Inclination::Right,
        other => other,
    }
}

/// The temporal counterpart of an inclination (the same mapping as the positional one).
pub open spec fn spec_to_temporal(i: Inclination) -> Inclination {
    spec_to_positional(i)
}

// Checks.
impl Inclination {
    /// Whether this inclination is aimed at one of the four directions.
    pub fn is_directional(&self) -> (r: bool)
        ensures
            r == spec_is_directional(*self),
    {
        matches!(self, Self::Up | Self::Down | Self::Left | Self::Right)
    }

    /// Whether this inclination is positional (relating to some ordered set).
    pub fn is_positional(&self) -> (r: bool)
        ensures
            r == spec_is_positional(*self),
    {
        matches!(
            self,
            Self::Previous | Self::Next | Self::First | Self::Last | Self::Forward | Self::Backward
                | Self::Middle
        )
    }

    /// Whether this inclination is spatial (relating to physical space).
    pub fn is_spatial(&self) -> (r: bool)
        ensures
            r == spec_is_spatial(*self),
    {
        matches!(
            self,
            Self::Up | Self::Down | Self::Left | Self::Right | Self::Forward | Self::Backward
                | Self::Top | Self::Middle | Self::Bottom
        )
    }

    /// Whether this inclination is temporal (relating to time).
    pub fn is_temporal(&self) -> (r: bool)
        ensures
            r == spec_is_temporal(*self),
    {
        matches!(
            self,
            Self::Forward | Self::Backward | Self::Previous | Self::Next | Self::First | Self::Last
                | Self::Middle
        )
    }
}

// Conversions.
impl Inclination {
    /// Convert this inclination to its directional counterpart, if it's not already.
    pub fn to_directional(self) -> (r: Self)
        ensures
            r == spec_to_directional(self),
    {
        match self {
            Self::Forward => Self::Right,
            Self::Backward => Self::Left,
            Self::Top => Self::Up,
            Self::Middle => Self::Right,
            Self::Bottom => Self::Down,
            Self::First => Self::Left,
            Self::Last => Self::Right,
            Self::Previous => Self::Left,
            Self::Next => Self::Right,
            i => i,
        }
    }

    /// Convert this inclination to its positional counterpart, if it's not already.
    pub fn to_positional(self) -> (r: Self)
        ensures
            r == spec_to_positional(self),
    {
        match self {
            Self::Up => Self::Forward,
            Self::Down => Self::Backward,
            Self::Left => Self::Previous,
            Self::Right => Self::Next,
            Self::Top => Self::First,
            Self::Bottom => Self::Last,
            i => i,
        }
    }

    /// Convert this inclination to its spatial counterpart, if it's not already.
    pub fn to_spatial(self) -> (r: Self)
        ensures
            r == spec_to_spatial(self),
    {
        match self {
            Self::First => Self::Top,
            Self::Last => Self::Bottom,
            Self::Previous => Self::Left,
            Self::Next => Self::Right,
            i => i,
        }
    }

    /// Convert this inclination to its temporal counterpart, if it's not already.
    pub fn to_temporal(self) -> (r: Self)
        ensures
            r == spec_to_temporal(self),
    {
        match self {
            Self::Up => Self::Forward,
            Self::Down => Self::Backward,
            Self::Left => Self::Previous,
            Self::Right => Self::Next,
            Self::Top => Self::First,
            Self::Bottom => Self::Last,
            i => i,
        }
    }
}

/// Each conversion lands in its own family: the directional counterpart of any inclination is
/// directional, the positional one positional, the spatial one spatial and the temporal one
/// temporal.
pub proof fn lemma_conversions_land_in_family(i: Inclination)
    ensures
        spec_is_directional(spec_to_directional(i)),
        spec_is_positional(spec_to_positional(i)),
        spec_is_spatial(spec_to_spatial(i)),
        spec_is_temporal(spec_to_temporal(i)),
{
}

/// A conversion leaves an inclination that already belongs to the target family unchanged, and
/// converting twice is the same as converting once.
pub proof fn lemma_conversions_fix_family(i: Inclination)
    ensures
        spec_is_directional(i) ==> spec_to_directional(i) == i,
        spec_is_positional(i) ==> spec_to_positional(i) == i,
        spec_is_spatial(i) ==> spec_to_spatial(i) == i,
        spec_is_temporal(i) ==> spec_to_temporal(i) == i,
        spec_to_directional(spec_to_directional(i)) == spec_to_directional(i),
        spec_to_positional(spec_to_positional(i)) == spec_to_positional(i),
        spec_to_spatial(spec_to_spatial(i)) == spec_to_spatial(i),
        spec_to_temporal(spec_to_temporal(i)) == spec_to_temporal(i),
{
}

/// Positional and temporal inclinations are the same family.
pub proof fn lemma_positional_is_temporal(i: Inclination)
    ensures
        spec_is_positional(i) == spec_is_temporal(i),
{
}

} // verus!
