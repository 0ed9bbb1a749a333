use thermal_core::curve_error::TimeTemperatureCurveError;

#[test]
fn test_error_messages() {
    assert_eq!(
        TimeTemperatureCurveError::EmptyPoints.message(),
        "TimeTemperatureCurve cannot be created with empty points"
    );
    assert_eq!(
        TimeTemperatureCurveError::DuplicateTime.message(),
        "TimeTemperatureCurve cannot have duplicate time values"
    );
    assert_eq!(
        TimeTemperatureCurveError::InvalidValue.message(),
        "TimeTemperatureCurve cannot have NaN or infinite values"
    );
}

#[test]
fn test_error_equality() {
    assert_eq!(
        TimeTemperatureCurveError::EmptyPoints,
        TimeTemperatureCurveError::EmptyPoints
    );
    assert_ne!(
        TimeTemperatureCurveError::EmptyPoints,
        TimeTemperatureCurveError::InvalidValue
    );
    let e = TimeTemperatureCurveError::DuplicateTime;
    assert_eq!(e.clone(), e);
}
