//! Units, and the constants of the air that sound travels in.
use vstd::prelude::*;

use crate::double::Double;

verus! {

pub const COORDINATE_UNIT: &'static str = "m";

pub const TIME_UNIT: &'static str = "s";

pub const DELAY_UNIT: &'static str = "s";

pub const SPEED_UNIT: &'static str = "m/s";

/// 343 m/s.
pub const AIR_SPEED: u64 = 0x4075_7000_0000_0000;

/// 2000 m.
pub const OBSERVABLE_RADIUS: u64 = 0x409f_4000_0000_0000;

/// 50 m/s: no medium is slower.
pub const MIN_SPEED: u64 = 0x4049_0000_0000_0000;

/// 2000 m/s: no medium is faster.
pub const MAX_SPEED: u64 = 0x409f_4000_0000_0000;

/// How sound travels, and how far a position can be from the origin.
#[derive(Clone, Copy, Debug, PartialEq, Eq, Structural)]
pub struct PhysicalModel {
    pub sound_speed: Double,
    /// An estimate that lies farther out is rejected, not pulled back.
    pub observable_radius: Double,
}

impl Default for PhysicalModel {
    fn default() -> (r: PhysicalModel)
        ensures
            r == (PhysicalModel {
                sound_speed: Double { bits: AIR_SPEED },
                observable_radius: Double { bits: OBSERVABLE_RADIUS },
            }),
    {
        PhysicalModel {
            sound_speed: Double { bits: AIR_SPEED },
            observable_radius: Double { bits: OBSERVABLE_RADIUS },
        }
    }
}

impl PhysicalModel {
    /// The speed is one that sound can have.
    pub open spec fn speed_ok(self) -> bool {
        self.sound_speed.finite() && (Double { bits: MIN_SPEED }).below(self.sound_speed)
            && self.sound_speed.below(Double { bits: MAX_SPEED })
    }

    /// The radius is a positive number.
    pub open spec fn radius_ok(self) -> bool {
        self.observable_radius.finite() && (Double { bits: 0 }).below(self.observable_radius)
    }

    /// Why the model is refused.
    pub open spec fn objection(self) -> Option<Seq<char>> {
        if !self.speed_ok() {
            Some("sound_speed must be finite and within 50..2000 m/s"@)
        } else if !self.radius_ok() {
            Some("observable_radius must be a positive finite number of metres"@)
        } else {
            None
        }
    }

    /// Refuses a model that air does not have.
    pub fn validate(&self) -> (r: Result<(), String>)
        ensures
            match r {
                Ok(_) => self.objection() is None,
                Err(msg) => self.objection() == Some(msg@),
            },
    {
        if !(self.sound_speed.is_finite() && (Double { bits: MIN_SPEED }).is_below(
            self.sound_speed,
        ) && self.sound_speed.is_below(Double { bits: MAX_SPEED })) {
            return Err("sound_speed must be finite and within 50..2000 m/s".to_owned());
        }
        if !(self.observable_radius.is_finite() && (Double { bits: 0 }).is_below(
            self.observable_radius,
        )) {
            return Err(
                "observable_radius must be a positive finite number of metres".to_owned(),
            );
        }
        Ok(())
    }
}

} // verus!
