use vstd::prelude::*;

verus! {

/// Why a time-temperature curve could not be built, or why a lookup
/// refused its query.
#[derive(Debug, Clone, Copy, PartialEq, Eq, Structural)]
pub enum TimeTemperatureCurveError {
    /// A constructor was given no points at all.
    EmptyPoints,
    /// Two points share a time value within tolerance.
    DuplicateTime,
    /// A non-finite time or temperature appeared in construction input
    /// or in a lookup query.
    InvalidValue,
}

impl TimeTemperatureCurveError {
    /// A human-readable account of the error, one fixed sentence per variant.
    pub fn message(&self) -> (r: &'static str)
        ensures
            (match self {
                TimeTemperatureCurveError::EmptyPoints => r@
                    == "TimeTemperatureCurve cannot be created with empty points"@,
                TimeTemperatureCurveError::DuplicateTime => r@
                    == "TimeTemperatureCurve cannot have duplicate time values"@,
                TimeTemperatureCurveError::InvalidValue => r@
                    == "TimeTemperatureCurve cannot have NaN or infinite values"@,
            }),
    {
        match self {
            TimeTemperatureCurveError::EmptyPoints => {
                "TimeTemperatureCurve cannot be created with empty points"
            },
            TimeTemperatureCurveError::DuplicateTime => {
                "TimeTemperatureCurve cannot have duplicate time values"
            },
            TimeTemperatureCurveError::InvalidValue => {
                "TimeTemperatureCurve cannot have NaN or infinite values"
            },
        }
    }
}

} // verus!
