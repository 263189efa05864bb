//! Ensemble selection data: which thermodynamic ensemble a run uses,
//! with the coupling parameters each one needs.

use vstd::prelude::*;

verus! {

/// Temperature-coupling parameters of an NVT run.
#[derive(Clone, Copy, Debug, PartialEq, Eq, Structural)]
pub struct ThermostatOption {
    pub target_temperature: i64,
    pub relaxation_time: i64,
}

/// Pressure-coupling parameters of an NPT run.
#[derive(Clone, Copy, Debug, PartialEq, Eq, Structural)]
pub struct BarostatOptions {
    pub target_pressure: i64,
}

/// The thermodynamic ensemble of a run: constant energy, constant
/// temperature, or constant pressure.
#[derive(Clone, Copy, Debug, PartialEq, Eq, Structural)]
pub enum Ensemble {
    Nve,
    Nvt(ThermostatOption),
    Npt(BarostatOptions),
}

} // verus!
