//! Identifiers, directions and selection vocabulary of coordinate operations.

use vstd::prelude::*;

verus! {

/// Stable identifier for a registry-backed coordinate operation.
#[derive(Debug, Clone, Copy, PartialEq, Eq, Hash, Structural)]
pub struct CoordinateOperationId(pub u32);

/// Stable identifier for a grid resource referenced by an operation.
#[derive(Debug, Clone, Copy, PartialEq, Eq, Hash, Structural)]
pub struct GridId(pub u32);

/// Direction in which one step of a concatenated operation runs.
#[derive(Debug, Clone, Copy, PartialEq, Eq, Structural)]
pub enum OperationStepDirection {
    Forward,
    Reverse,
}

impl OperationStepDirection {
    pub open spec fn spec_inverse(self) -> Self {
        match self {
            OperationStepDirection::Forward => OperationStepDirection::Reverse,
            OperationStepDirection::Reverse => OperationStepDirection::Forward,
        }
    }

    /// The opposite direction.
    pub fn inverse(self) -> (r: Self)
        ensures
            r == self.spec_inverse(),
            r != self,
    {
        match self {
            OperationStepDirection::Forward => OperationStepDirection::Reverse,
            OperationStepDirection::Reverse => OperationStepDirection::Forward,
        }
    }
}

/// The coordinate space in which an area of interest is expressed.
#[derive(Debug, Clone, Copy, PartialEq, Eq, Structural)]
pub enum AreaOfInterestCrs {
    /// Geographic degrees with conventional west <= east bounds.
    GeographicDegrees,
    /// Geographic degrees with bounds crossing the antimeridian, represented
    /// by west > east.
    GeographicDegreesWrapped,
    SourceCrs,
    TargetCrs,
}

impl AreaOfInterestCrs {
    pub open spec fn spec_inverse(self) -> Self {
        match self {
            AreaOfInterestCrs::GeographicDegrees => AreaOfInterestCrs::GeographicDegrees,
            AreaOfInterestCrs::GeographicDegreesWrapped => AreaOfInterestCrs::GeographicDegreesWrapped,
            AreaOfInterestCrs::SourceCrs => AreaOfInterestCrs::TargetCrs,
            AreaOfInterestCrs::TargetCrs => AreaOfInterestCrs::SourceCrs,
        }
    }

    /// The same area seen from the inverse transform: source and target
    /// swap, geographic areas stay as they are.
    pub fn inverse(self) -> (r: Self)
        ensures
            r == self.spec_inverse(),
    {
        match self {
            AreaOfInterestCrs::GeographicDegrees => AreaOfInterestCrs::GeographicDegrees,
            AreaOfInterestCrs::GeographicDegreesWrapped => AreaOfInterestCrs::GeographicDegreesWrapped,
            AreaOfInterestCrs::SourceCrs => AreaOfInterestCrs::TargetCrs,
            AreaOfInterestCrs::TargetCrs => AreaOfInterestCrs::SourceCrs,
        }
    }
}

#[derive(Debug, Clone, Copy, PartialEq, Eq, Structural)]
pub enum GridInterpolation {
    Bilinear,
}

/// Direction in which a grid shift is applied.
#[derive(Debug, Clone, Copy, PartialEq, Eq, Structural)]
pub enum GridShiftDirection {
    Forward,
    Reverse,
}

impl GridShiftDirection {
    pub open spec fn spec_inverse(self) -> Self {
        match self {
            GridShiftDirection::Forward => GridShiftDirection::Reverse,
            GridShiftDirection::Reverse => GridShiftDirection::Forward,
        }
    }

    /// The opposite direction.
    pub fn inverse(self) -> (r: Self)
        ensures
            r == self.spec_inverse(),
            r != self,
    {
        match self {
            GridShiftDirection::Forward => GridShiftDirection::Reverse,
            GridShiftDirection::Reverse => GridShiftDirection::Forward,
        }
    }
}

/// One step of a concatenated operation.
#[derive(Debug, Clone, Copy, PartialEq, Eq, Structural)]
pub struct OperationStep {
    pub operation_id: CoordinateOperationId,
    pub direction: OperationStepDirection,
}

/// How the selected operation matched the requested CRS pair.
#[derive(Debug, Clone, Copy, PartialEq, Eq, Structural)]
pub enum OperationMatchKind {
    Custom,
    ExactSourceTarget,
    DerivedGeographic,
    DatumCompatible,
    Explicit,
}

#[derive(Debug, Clone, Copy, PartialEq, Eq, Structural)]
pub enum SelectionPolicy {
    /// Select the best supported registry/generated-registry operation,
    /// explicit custom operation, or internal identity behavior.
    BestAvailable,
    /// Require a grid-backed datum operation whenever a datum shift is needed.
    RequireGrids,
    /// Require selected registry operations to match the configured area of interest.
    RequireExactAreaMatch,
    /// Select one explicit registry operation by id.
    Operation(CoordinateOperationId),
}

#[derive(Debug, Clone, Copy, PartialEq, Eq, Structural)]
pub enum VerticalGridOffsetConvention {
    /// Grid values are geoid heights in meters (`N`), applied as
    /// gravity height `H = h - N` and ellipsoidal height `h = H + N`.
    GeoidHeightMeters,
}

#[derive(Debug, Clone, Copy, PartialEq, Eq, Structural)]
pub enum SelectionReason {
    CustomOperation,
    ExplicitOperation,
    ExactSourceTarget,
    AreaOfUseMatch,
    AccuracyPreferred,
    NonDeprecated,
    PreferredOperation,
}

#[derive(Debug, Clone, Copy, PartialEq, Eq, Structural)]
pub enum SkippedOperationReason {
    AreaOfUseMismatch,
    MissingGrid,
    UnsupportedGridFormat,
    PolicyFiltered,
    LessPreferred,
    Deprecated,
}

#[derive(Debug, Clone, Copy, PartialEq, Eq, Structural)]
pub enum VerticalTransformAction {
    /// No explicit vertical CRS participates in the transform.
    NotApplicable,
    /// `z` is preserved because the vertical CRS semantics and units match.
    Preserved,
    /// `z` is converted between units of the same vertical reference frame.
    UnitConverted,
    /// `z` is transformed by an explicit vertical operation.
    Transformed,
}

/// The source and target codes an operation reports, in the order of one
/// direction of travel.
#[derive(Debug, Clone, Copy, PartialEq, Eq, Structural)]
pub struct OperationEndpoints {
    pub source_crs_epsg: Option<u32>,
    pub target_crs_epsg: Option<u32>,
    pub source_datum_epsg: Option<u32>,
    pub target_datum_epsg: Option<u32>,
}

impl OperationEndpoints {
    pub open spec fn spec_for_direction(self, direction: OperationStepDirection) -> Self {
        match direction {
            OperationStepDirection::Forward => self,
            OperationStepDirection::Reverse => OperationEndpoints {
                source_crs_epsg: self.target_crs_epsg,
                target_crs_epsg: self.source_crs_epsg,
                source_datum_epsg: self.target_datum_epsg,
                target_datum_epsg: self.source_datum_epsg,
            },
        }
    }

    /// The endpoints as seen when the operation runs in `direction`: a
    /// reverse run swaps source and target CRS and datum codes.
    pub fn for_direction(self, direction: OperationStepDirection) -> (r: Self)
        ensures
            r == self.spec_for_direction(direction),
    {
        match direction {
            OperationStepDirection::Forward => self,
            OperationStepDirection::Reverse => OperationEndpoints {
                source_crs_epsg: self.target_crs_epsg,
                target_crs_epsg: self.source_crs_epsg,
                source_datum_epsg: self.target_datum_epsg,
                target_datum_epsg: self.source_datum_epsg,
            },
        }
    }
}

/// Inverting a step direction twice gives back the same direction.
pub proof fn lemma_step_direction_inverse_involutive(d: OperationStepDirection)
    ensures
        d.spec_inverse().spec_inverse() == d,
{
}

/// Inverting a grid-shift direction twice gives back the same direction.
pub proof fn lemma_grid_shift_direction_inverse_involutive(d: GridShiftDirection)
    ensures
        d.spec_inverse().spec_inverse() == d,
{
}

/// Inverting an area-of-interest space twice gives back the same space, and
/// geographic spaces are their own inverse.
pub proof fn lemma_area_of_interest_crs_inverse_involutive(c: AreaOfInterestCrs)
    ensures
        c.spec_inverse().spec_inverse() == c,
        c == AreaOfInterestCrs::GeographicDegrees ==> c.spec_inverse() == c,
        c == AreaOfInterestCrs::GeographicDegreesWrapped ==> c.spec_inverse() == c,
{
}

/// Viewing endpoints in reverse twice gives back the forward endpoints, and
/// the reverse view of the inverse direction agrees with the forward view.
pub proof fn lemma_endpoints_reverse_involutive(e: OperationEndpoints, d: OperationStepDirection)
    ensures
        e.spec_for_direction(OperationStepDirection::Reverse).spec_for_direction(
            OperationStepDirection::Reverse,
        ) == e,
        e.spec_for_direction(d).spec_for_direction(OperationStepDirection::Reverse)
            == e.spec_for_direction(d.spec_inverse()),
{
}

} // verus!
