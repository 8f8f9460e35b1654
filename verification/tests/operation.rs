use proj_core::error::Error;
use proj_core::grid::GridError;
use proj_core::operation::{
    AreaOfInterestCrs, GridShiftDirection, OperationEndpoints, OperationStepDirection,
};
use proj_core::text::{decimal_string, parse_u32};

#[test]
fn step_direction_inverse() {
    assert_eq!(OperationStepDirection::Forward.inverse(), OperationStepDirection::Reverse);
    assert_eq!(OperationStepDirection::Reverse.inverse(), OperationStepDirection::Forward);
    assert_eq!(
        OperationStepDirection::Forward.inverse().inverse(),
        OperationStepDirection::Forward
    );
}

#[test]
fn grid_shift_direction_inverse() {
    assert_eq!(GridShiftDirection::Forward.inverse(), GridShiftDirection::Reverse);
    assert_eq!(GridShiftDirection::Reverse.inverse(), GridShiftDirection::Forward);
}

#[test]
fn area_of_interest_crs_inverse() {
    assert_eq!(AreaOfInterestCrs::SourceCrs.inverse(), AreaOfInterestCrs::TargetCrs);
    assert_eq!(AreaOfInterestCrs::TargetCrs.inverse(), AreaOfInterestCrs::SourceCrs);
    assert_eq!(
        AreaOfInterestCrs::GeographicDegrees.inverse(),
        AreaOfInterestCrs::GeographicDegrees
    );
    assert_eq!(
        AreaOfInterestCrs::GeographicDegreesWrapped.inverse(),
        AreaOfInterestCrs::GeographicDegreesWrapped
    );
}

#[test]
fn endpoints_swap_in_reverse() {
    let e = OperationEndpoints {
        source_crs_epsg: Some(4267),
        target_crs_epsg: Some(4326),
        source_datum_epsg: Some(6267),
        target_datum_epsg: None,
    };
    assert_eq!(e.for_direction(OperationStepDirection::Forward), e);
    let r = e.for_direction(OperationStepDirection::Reverse);
    assert_eq!(r.source_crs_epsg, Some(4326));
    assert_eq!(r.target_crs_epsg, Some(4267));
    assert_eq!(r.source_datum_epsg, None);
    assert_eq!(r.target_datum_epsg, Some(6267));
    assert_eq!(r.for_direction(OperationStepDirection::Reverse), e);
}

#[test]
fn decimal_text_round_trips() {
    for n in [0u32, 7, 10, 4326, u32::MAX] {
        let s = decimal_string(n as u64);
        assert_eq!(s, n.to_string());
        assert_eq!(parse_u32(&s), Some(n));
    }
}

#[test]
fn errors_display_their_context() {
    let e = Error::NonConvergence { context: "inverse series", iterations: 12 };
    assert_eq!(e.message(), "inverse series did not converge after 12 iterations");
    let g: Error = GridError::NotFound("x".into()).into();
    assert_eq!(g.message(), "grid not found: x");
    assert_eq!(Error::OutOfRange("lat".into()).message(), "coordinate out of range: lat");
    assert_eq!(
        Error::OperationSelection("none".into()).message(),
        "operation selection failed: none"
    );
}

#[test]
fn trim_removes_unicode_white_space_at_both_ends() {
    for text in [
        "  EPSG \t",
        "\u{3000}\u{85}x y\u{2028}\n",
        "",
        " \u{a0} ",
        "\u{200b}z\u{200b}",
        "no-space",
    ] {
        assert_eq!(proj_core::text::trim(text), text.trim(), "{text:?}");
    }
}
