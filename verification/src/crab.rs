//! Individual entities ("crabs") and their attribute types.
//!
//! A crab is immutable once constructed: it carries a name, a speed, a
//! color and a diet, each readable through an accessor.

use vstd::prelude::*;

verus! {

/// A color an entity can have. `Red`, `Yellow` and `Blue` are primary;
/// `Orange`, `Green` and `Purple` are the blends of two primaries.
#[derive(Clone, Copy, PartialEq, Eq, Structural, Debug)]
pub enum Color {
    Red,
    Yellow,
    Blue,
    Orange,
    Green,
    Purple,
}

impl Color {
    /// The deterministic color-mixing rule: two distinct primary colors
    /// blend into the secondary they compose; every other pair keeps the
    /// first parent's color.
    pub open spec fn cross_spec(a: Color, b: Color) -> Color {
        match (a, b) {
            (Color::Red, Color::Yellow) => Color::Orange,
            (Color::Yellow, Color::Red) => Color::Orange,
            (Color::Yellow, Color::Blue) => Color::Green,
            (Color::Blue, Color::Yellow) => Color::Green,
            (Color::Red, Color::Blue) => Color::Purple,
            (Color::Blue, Color::Red) => Color::Purple,
            _ => a,
        }
    }

    /// Mixes two parent colors into the offspring's color.
    pub fn cross(a: Color, b: Color) -> (r: Color)
        ensures
            r == Color::cross_spec(a, b),
    {
        match (a, b) {
            (Color::Red, Color::Yellow) => Color::Orange,
            (Color::Yellow, Color::Red) => Color::Orange,
            (Color::Yellow, Color::Blue) => Color::Green,
            (Color::Blue, Color::Yellow) => Color::Green,
            (Color::Red, Color::Blue) => Color::Purple,
            (Color::Blue, Color::Red) => Color::Purple,
            _ => a,
        }
    }
}

/// What an entity eats. Which diet a newly bred entity gets is decided by
/// the caller (for instance from an external source of randomness), so the
/// library stays deterministic.
#[derive(Clone, Copy, PartialEq, Eq, Structural, Debug)]
pub enum Diet {
    Plants,
    Fish,
    Shrimp,
}

/// The mathematical value of a [`Crab`]: its four attributes, with the
/// name as a sequence of characters.
#[verifier::ext_equal]
pub struct CrabView {
    pub name: Seq<char>,
    pub speed: u64,
    pub color: Color,
    pub diet: Diet,
}

/// An individual entity. Immutable once constructed.
pub struct Crab {
    name: String,
    speed: u64,
    color: Color,
    diet: Diet,
}

impl View for Crab {
    type V = CrabView;

    closed spec fn view(&self) -> CrabView {
        CrabView { name: self.name@, speed: self.speed, color: self.color, diet: self.diet }
    }
}

impl Crab {
    /// Constructs an entity with exactly the given attributes.
    pub fn new(name: String, speed: u64, color: Color, diet: Diet) -> (r: Crab)
        ensures
            r@ == (CrabView { name: name@, speed, color, diet }),
    {
        Crab { name, speed, color, diet }
    }

    /// The entity's name.
    pub fn name(&self) -> (r: &str)
        ensures
            r@ == self@.name,
    {
        self.name.as_str()
    }

    /// The entity's speed.
    pub fn speed(&self) -> (r: u64)
        ensures
            r == self@.speed,
    {
        self.speed
    }

    /// The entity's color.
    pub fn color(&self) -> (r: Color)
        ensures
            r == self@.color,
    {
        self.color
    }

    /// The entity's diet.
    pub fn diet(&self) -> (r: Diet)
        ensures
            r == self@.diet,
    {
        self.diet
    }

    /// Whether this entity's name is exactly `name`.
    pub fn has_name(&self, name: &str) -> (r: bool)
        ensures
            r == (self@.name == name@),
    {
        self.name == name.to_owned()
    }
}

} // verus!
