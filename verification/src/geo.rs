//! Pixel-to-geocoordinate projection: the unique affine map, calibrated
//! from two fixed (pixel, geo) reference pairs, that sends both reference
//! pixels exactly to their geographic coordinates.
//!
//! Coordinates are nanodegrees; the interpolation uses integer division
//! truncating toward zero, so both reference points map exactly.

use vstd::prelude::*;

verus! {

/// First calibration reference point, pixel coordinates.
pub const REF1_X: i64 = 394;

pub const REF1_Y: i64 = 223;

/// First calibration reference point, nanodegrees.
pub const REF1_LAT: i64 = 42_101_781_061;

pub const REF1_LONG: i64 = 2_294_541_510;

/// Second calibration reference point, pixel coordinates.
pub const REF2_X: i64 = 309;

pub const REF2_Y: i64 = 416;

/// Second calibration reference point, nanodegrees.
pub const REF2_LAT: i64 = 41_235_099_893;

pub const REF2_LONG: i64 = 1_811_857_550;

/// Largest pixel coordinate magnitude the projector accepts; far beyond
/// any real image while keeping the interpolation product in `i64`.
pub const MAX_PIXEL: i64 = 1_000_000;

/// Integer division truncating toward zero (`b > 0`).
pub open spec fn div_trunc(a: int, b: int) -> int {
    if a >= 0 {
        a / b
    } else {
        -((-a) / b)
    }
}

/// Longitude of pixel column `x`, nanodegrees.
pub open spec fn project_long(x: int) -> int {
    REF2_LONG + div_trunc((x - REF2_X) * (REF1_LONG - REF2_LONG), REF1_X - REF2_X)
}

/// Latitude of pixel row `y`, nanodegrees. The pixel rows grow downward
/// while latitude grows upward, so the interpolation runs from the second
/// reference point back toward the first.
pub open spec fn project_lat(y: int) -> int {
    REF2_LAT + div_trunc((REF2_Y - y) * (REF1_LAT - REF2_LAT), REF2_Y - REF1_Y)
}

fn div_trunc_exec(a: i64, b: i64) -> (r: i64)
    requires
        b > 0,
        -0x4000_0000_0000_0000 < a < 0x4000_0000_0000_0000,
    ensures
        r == div_trunc(a as int, b as int),
{
    if a >= 0 {
        ((a as u64) / (b as u64)) as i64
    } else {
        -((((-a) as u64) / (b as u64)) as i64)
    }
}

/// Project a pixel coordinate to `(longitude, latitude)` in nanodegrees.
/// Total over the accepted pixel range: extrapolation outside the source
/// image is permitted and expected for edge stations.
pub fn project(x: i64, y: i64) -> (r: (i64, i64))
    requires
        -MAX_PIXEL <= x <= MAX_PIXEL,
        -MAX_PIXEL <= y <= MAX_PIXEL,
    ensures
        r.0 == project_long(x as int),
        r.1 == project_lat(y as int),
{
    let dx = x - REF2_X;
    let dy = REF2_Y - y;
    proof {
        assert(-1_000_309 * 482_683_960 <= dx * 482_683_960 <= 1_000_309 * 482_683_960)
            by (nonlinear_arith)
            requires
                -1_000_309 <= dx <= 1_000_309,
        ;
        assert(-1_000_416 * 866_681_168 <= dy * 866_681_168 <= 1_000_416 * 866_681_168)
            by (nonlinear_arith)
            requires
                -1_000_416 <= dy <= 1_000_416,
        ;
    }
    let long = REF2_LONG + div_trunc_exec(dx * (REF1_LONG - REF2_LONG), REF1_X - REF2_X);
    let lat = REF2_LAT + div_trunc_exec(dy * (REF1_LAT - REF2_LAT), REF2_Y - REF1_Y);
    (long, lat)
}

/// Both calibration reference points project exactly to their own
/// geographic coordinates.
pub proof fn lemma_project_calibration()
    ensures
        project_long(REF1_X as int) == REF1_LONG,
        project_lat(REF1_Y as int) == REF1_LAT,
        project_long(REF2_X as int) == REF2_LONG,
        project_lat(REF2_Y as int) == REF2_LAT,
{
    assert((REF1_X - REF2_X) * (REF1_LONG - REF2_LONG) == 85 * 482_683_960);
    assert(85 * 482_683_960 == 41_028_136_600int);
    assert(41_028_136_600int / 85 == 482_683_960int);
    assert((REF2_Y - REF1_Y) * (REF1_LAT - REF2_LAT) == 193 * 866_681_168);
    assert(193 * 866_681_168 == 167_269_465_424int);
    assert(167_269_465_424int / 193 == 866_681_168int);
}

} // verus!
