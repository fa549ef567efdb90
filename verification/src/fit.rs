//! The size limit on the Chebyshev fits of a transmission-line model: a
//! model is accepted only when each of its four mandatory fits holds at most
//! `MAX_CHEBY` coefficients.

use vstd::prelude::*;

verus! {

/// Largest number of Chebyshev coefficients a fit of a line model may hold.
pub const MAX_CHEBY: usize = 32;

/// The mandatory fits of a line model, in the order they are checked.
#[derive(Clone, Copy, Debug, PartialEq, Eq, Structural)]
pub enum FitName {
    /// Per-unit-length capacitance.
    C,
    /// Per-unit-length inductance.
    L,
    /// Strip factor of the conductor resistance.
    StripFactor,
    /// Enclosure-wall factor of the conductor resistance.
    WallFactor,
}

/// A fit may hold at most 32 coefficients.
pub proof fn law_fit_limit_is_32()
    ensures
        MAX_CHEBY == 32,
{
}

/// Checks the coefficient counts of the four mandatory fits of a line
/// model, in the order capacitance, inductance, strip factor, wall factor,
/// and names the first one that holds more than `MAX_CHEBY` coefficients.
pub fn check_fit_sizes(c_fit: usize, l_fit: usize, strip_factor: usize, wall_factor: usize) -> (res:
    Result<(), FitName>)
    ensures
        res is Ok <==> (c_fit <= 32 && l_fit <= 32 && strip_factor <= 32 && wall_factor <= 32),
        res is Ok <==> (c_fit <= MAX_CHEBY && l_fit <= MAX_CHEBY && strip_factor <= MAX_CHEBY
            && wall_factor <= MAX_CHEBY),
        res == Err::<(), FitName>(FitName::C) <==> c_fit > MAX_CHEBY,
        res == Err::<(), FitName>(FitName::L) <==> (c_fit <= MAX_CHEBY && l_fit > MAX_CHEBY),
        res == Err::<(), FitName>(FitName::StripFactor) <==> (c_fit <= MAX_CHEBY && l_fit
            <= MAX_CHEBY && strip_factor > MAX_CHEBY),
        res == Err::<(), FitName>(FitName::WallFactor) <==> (c_fit <= MAX_CHEBY && l_fit
            <= MAX_CHEBY && strip_factor <= MAX_CHEBY && wall_factor > MAX_CHEBY),
{
    if c_fit > MAX_CHEBY {
        Err(FitName::C)
    } else if l_fit > MAX_CHEBY {
        Err(FitName::L)
    } else if strip_factor > MAX_CHEBY {
        Err(FitName::StripFactor)
    } else if wall_factor > MAX_CHEBY {
        Err(FitName::WallFactor)
    } else {
        Ok(())
    }
}

} // verus!
