//! The sample model: one normalized audio amplitude, held as a fixed-point
//! integer in thousandths of full scale, so that clipping detection and the
//! vertical pixel offset are exact integer functions of the stored value.

use vstd::arithmetic::div_mod::{lemma_div_is_ordered, lemma_div_pos_is_pos};
use vstd::prelude::*;

verus! {

/// Full scale (an amplitude of one) in thousandths.
pub const FULL_SCALE_MILLI: i32 = 1000;

/// Half the height of one band, in pixels: the largest vertical offset a
/// sample can be drawn at from its band's midline.
pub const HALF_BAND: u32 = 32;

/// One audio amplitude in thousandths of full scale. A magnitude of
/// `FULL_SCALE_MILLI` or more is legal and denotes clipping.
#[derive(Clone, Copy, Debug, PartialEq, Eq, Structural)]
pub struct Sample {
    pub milli: i32,
}

impl Sample {
    /// Whether this sample reaches or exceeds full scale, which the
    /// rasterizer renders in the accent color.
    pub open spec fn is_clipped(self) -> bool {
        self.milli >= FULL_SCALE_MILLI || self.milli <= -FULL_SCALE_MILLI
    }

    /// The stored amplitude clamped to full scale, used for positioning.
    pub open spec fn clamped_milli(self) -> int {
        if self.milli > FULL_SCALE_MILLI {
            FULL_SCALE_MILLI as int
        } else if self.milli < -FULL_SCALE_MILLI {
            -FULL_SCALE_MILLI as int
        } else {
            self.milli as int
        }
    }

    /// The vertical pixel offset of this sample's drawn endpoint above its
    /// band midline: the clamped amplitude scaled to half a band,
    /// truncated toward zero.
    pub open spec fn offset(self) -> int {
        if self.clamped_milli() >= 0 {
            (HALF_BAND * self.clamped_milli()) / (FULL_SCALE_MILLI as int)
        } else {
            -((HALF_BAND * -self.clamped_milli()) / (FULL_SCALE_MILLI as int))
        }
    }

    pub proof fn lemma_offset_bounds(self)
        ensures
            -(HALF_BAND as int) <= self.offset() <= HALF_BAND as int,
    {
        let c = self.clamped_milli();
        if c >= 0 {
            lemma_div_pos_is_pos(HALF_BAND * c, FULL_SCALE_MILLI as int);
            lemma_div_is_ordered(HALF_BAND * c, 32000, FULL_SCALE_MILLI as int);
        } else {
            lemma_div_pos_is_pos(HALF_BAND * -c, FULL_SCALE_MILLI as int);
            lemma_div_is_ordered(HALF_BAND * -c, 32000, FULL_SCALE_MILLI as int);
        }
    }

    pub fn new(milli: i32) -> (s: Sample)
        ensures
            s.milli == milli,
    {
        Sample { milli }
    }

    /// The executable clipping test, exact on the stored value.
    pub fn clipped(&self) -> (c: bool)
        ensures
            c == self.is_clipped(),
    {
        self.milli >= FULL_SCALE_MILLI || self.milli <= -FULL_SCALE_MILLI
    }

    /// The executable pixel offset, equal to the specification offset.
    pub fn offset_px(&self) -> (o: i32)
        ensures
            o == self.offset(),
            -(HALF_BAND as int) <= o <= HALF_BAND as int,
    {
        let m: i32 = if self.milli > FULL_SCALE_MILLI {
            FULL_SCALE_MILLI
        } else if self.milli < -FULL_SCALE_MILLI {
            -FULL_SCALE_MILLI
        } else {
            self.milli
        };
        proof {
            self.lemma_offset_bounds();
        }
        if m >= 0 {
            let v: u32 = (HALF_BAND * (m as u32)) / (FULL_SCALE_MILLI as u32);
            v as i32
        } else {
            let neg: u32 = (-m) as u32;
            let v: u32 = (HALF_BAND * neg) / (FULL_SCALE_MILLI as u32);
            -(v as i32)
        }
    }
}

} // verus!
