//! The three-state cyclic grade that robots attach to each flavour's token
//! observation, used after a peer dies to decide which survivor holds the
//! freshest view of a lost token.

use crate::errors::ParseError;
use vstd::prelude::*;

verus! {

/// A cyclic colour tag: `A`, then `B`, then `C`, then `A` again.
#[derive(Clone, Copy, Debug, PartialEq, Eq, Structural)]
pub enum Grade {
    A,
    B,
    C,
}

/// Types with a cyclic successor of type [`Grade`].
pub trait Next {
    /// The successor, as a mathematical value.
    spec fn next_spec(&self) -> Grade;

    /// The successor: `A -> B -> C -> A`.
    fn next(&self) -> (g: Grade)
        ensures
            g == self.next_spec(),
    ;
}

impl Next for Grade {
    open spec fn next_spec(&self) -> Grade {
        match self {
            Grade::A => Grade::B,
            Grade::B => Grade::C,
            Grade::C => Grade::A,
        }
    }

    fn next(&self) -> (g: Grade) {
        match self {
            Grade::A => Grade::B,
            Grade::B => Grade::C,
            Grade::C => Grade::A,
        }
    }
}

/// Taking the successor three times comes back to the start: the grades form
/// a cycle of length three.
pub proof fn lemma_grade_cycle(g: Grade)
    ensures
        g.next_spec().next_spec().next_spec() == g,
{
}

/// The grade an observation carries after `bumps` sightings of its token,
/// starting from the lowest grade.
pub open spec fn spec_grade_after(bumps: nat) -> Grade
    decreases bumps,
{
    if bumps == 0 {
        Grade::A
    } else {
        spec_grade_after((bumps - 1) as nat).next_spec()
    }
}

/// The wire byte of a grade: the grades are numbered 0 to 2 in declaration
/// order.
pub open spec fn spec_grade_byte(g: Grade) -> u8 {
    match g {
        Grade::A => 0,
        Grade::B => 1,
        Grade::C => 2,
    }
}

/// The grade a wire byte names; meaningful only for bytes 0 to 2.
pub open spec fn spec_byte_grade(b: u8) -> Grade {
    if b == 0 {
        Grade::A
    } else if b == 1 {
        Grade::B
    } else {
        Grade::C
    }
}

impl Grade {
    /// The wire byte of this grade.
    pub fn as_u8(self) -> (b: u8)
        ensures
            b == spec_grade_byte(self),
    {
        match self {
            Grade::A => 0,
            Grade::B => 1,
            Grade::C => 2,
        }
    }

    /// Decodes a wire byte: bytes 0 to 2 name a grade, all others are
    /// rejected.
    pub fn try_from(value: u8) -> (r: Result<Grade, ParseError>)
        ensures
            value <= 2 ==> r == Ok::<Grade, ParseError>(spec_byte_grade(value)),
            value > 2 ==> r == Err::<Grade, ParseError>(ParseError::ConversionError),
    {
        match value {
            0 => Ok(Grade::A),
            1 => Ok(Grade::B),
            2 => Ok(Grade::C),
            _ => Err(ParseError::ConversionError),
        }
    }

    /// Whether this grade is the cyclic successor of `other`: the only pairs
    /// that compare as strictly newer.
    pub open spec fn newer_than(self, other: Grade) -> bool {
        self == other.next_spec()
    }
}

/// Encoding a grade and decoding the byte gives the grade back.
pub proof fn lemma_grade_byte_round_trip(g: Grade)
    ensures
        spec_byte_grade(spec_grade_byte(g)) == g,
        spec_grade_byte(g) <= 2,
{
}

impl PartialOrd for Grade {
    /// The cyclic comparison: each grade is greater than its predecessor,
    /// less than its successor, and equal to itself.
    fn partial_cmp(&self, other: &Grade) -> (r: Option<core::cmp::Ordering>) {
        match (self, other) {
            (Grade::B, Grade::A) | (Grade::C, Grade::B) | (Grade::A, Grade::C) => Some(
                core::cmp::Ordering::Greater,
            ),
            (Grade::A, Grade::B) | (Grade::B, Grade::C) | (Grade::C, Grade::A) => Some(
                core::cmp::Ordering::Less,
            ),
            _ => Some(core::cmp::Ordering::Equal),
        }
    }
}

impl vstd::std_specs::cmp::PartialOrdSpecImpl for Grade {
    open spec fn obeys_partial_cmp_spec() -> bool {
        true
    }

    open spec fn partial_cmp_spec(&self, other: &Grade) -> Option<core::cmp::Ordering> {
        if self.newer_than(*other) {
            Some(core::cmp::Ordering::Greater)
        } else if other.newer_than(*self) {
            Some(core::cmp::Ordering::Less)
        } else {
            Some(core::cmp::Ordering::Equal)
        }
    }
}

} // verus!
