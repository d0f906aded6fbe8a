//! Settings that the host application shows and stores.
use vstd::prelude::*;

verus! {

/// Temperature unit selected for display.
#[derive(Debug, Clone, Copy, PartialEq, Eq, Structural)]
pub enum TempUnits {
    Celsius,
    Fahrenheit,
}

impl TempUnits {
    /// The unit's display name.
    pub open spec fn spec_name(self) -> Seq<char> {
        match self {
            TempUnits::Celsius => "Celsius"@,
            TempUnits::Fahrenheit => "Fahrenheit"@,
        }
    }

    /// Display name of the unit, as written into log records.
    pub fn name(&self) -> (r: &'static str)
        ensures
            r@ == self.spec_name(),
    {
        match self {
            TempUnits::Celsius => "Celsius",
            TempUnits::Fahrenheit => "Fahrenheit",
        }
    }
}

/// A change made in the settings dialog.
#[derive(Debug, Clone)]
pub enum Message {
    ToggleStartWithWindows,
    ToggleStartMinimized,
    TempUnitSelected(TempUnits),
    TempLowThresholdChanged(String),
    TempHighThresholdChanged(String),
}

} // verus!
