//! The canonical domain model: stations, measurements, the fixed unit table,
//! and the error taxonomy shared by both source adapters.
//!
//! Text fields are UTF-8 byte strings. Geographic coordinates are integers
//! in nanodegrees (`1e-9` degree), wind directions millidegrees
//! (`1e-3` degree) and temperatures millidegrees Celsius, so that every
//! value the contracts speak of is exact.

use vstd::prelude::*;

verus! {

/// A physical observation site.
#[derive(Debug, PartialEq, Eq)]
pub struct Station {
    /// Stable identifier: the hex MD5 digest of `url`.
    pub id: Vec<u8>,
    /// Human-readable label; empty until enriched.
    pub name: Vec<u8>,
    /// Meters above sea level.
    pub elevation: i64,
    /// Canonical detail-page URL.
    pub url: Vec<u8>,
    /// Latitude in nanodegrees.
    pub lat: i64,
    /// Longitude in nanodegrees.
    pub long: i64,
    /// Internal-only: the station has both a name and a wind reading.
    /// Stations failing this are excluded from output and never serialized.
    pub available: bool,
}

/// One reading, tied 1:1 to a `Station` by `station_id`.
#[derive(Debug, PartialEq, Eq)]
pub struct Measurement {
    pub station_id: Vec<u8>,
    /// km/h; zero is valid and means calm.
    pub wind_speed: u64,
    /// Millidegrees in [0, 360000); present only if `wind_speed > 0`.
    pub wind_direction: Option<i64>,
    /// Optional gusts, km/h.
    pub gusts_speed: Option<u64>,
    /// Optional millidegrees Celsius.
    pub temperature: Option<i64>,
    /// The measurement's UTC instant, `YYYY-MM-DDTHH:MMZ` or the source's
    /// own fixed-width UTC timestamp key.
    pub last_update: Vec<u8>,
}

/// Wind direction may be present only for a nonzero wind speed.
pub open spec fn measurement_wf(m: Measurement) -> bool {
    m.wind_direction is Some ==> m.wind_speed > 0
}

/// Why a whole adapter invocation failed; no partial results accompany it.
#[derive(Debug, PartialEq, Eq)]
pub enum FetchError {
    /// The designated image-map container is absent.
    MapMissing,
    /// Two hotspots share one link target; geocoding would be ambiguous.
    DuplicateStation { href: Vec<u8> },
    /// The embedded readings assignment is absent from every script.
    ReadingsMissing,
    /// The embedded station-metadata assignment is absent.
    MetadataMissing,
    /// The readings map holds no timestamp at all.
    EmptyReadings,
    /// A fixed CSS selector failed to compile.
    BadSelector,
    /// An embedded assignment was found but its payload is not the
    /// expected shape of JSON.
    BadJson,
    /// The current UTC clock reading was outside the representable range.
    BadClock,
}

/// What a single field parser rejected.
#[derive(Debug, Clone, Copy, PartialEq, Eq)]
pub enum ParseErrorKind {
    /// Wind line: unit token missing or not the expected unit.
    WrongUnit,
    /// Wind line: the speed token is not an integer.
    BadSpeed,
    /// Wind line: a direction was required but could not be resolved.
    BadDirection,
    /// Temperature line: separator count is not exactly two.
    BadTemperatureFormat,
    /// Temperature line: the value before the first separator is not a
    /// decimal number.
    BadTemperatureValue,
    /// Elevation line: not `(... m)` around an integer.
    BadElevation,
    /// Last-update line: the fixed prefix/suffix template does not match.
    BadTemplate,
    /// Last-update line: the inner text is not a valid `HH:MM`.
    BadTime,
}

/// A parse failure carrying the offending raw text.
#[derive(Debug, PartialEq, Eq)]
pub struct ParseError {
    pub kind: ParseErrorKind,
    pub raw: Vec<u8>,
}

/// A per-item failure: the item is excluded and processing continues.
#[derive(Debug, PartialEq, Eq)]
pub enum ItemErrorKind {
    /// Hotspot with no link target.
    MissingHref,
    /// Hotspot with no pixel coordinates.
    MissingCoords,
    /// Hotspot coordinates that do not parse as two integers in range.
    BadCoords,
    /// Tooltip panel with no identifier.
    MissingPanelId,
    /// Tooltip panel whose join key matches no discovered station.
    UnknownStation,
    /// A second tooltip panel for a station already enriched.
    DuplicatePanel,
    /// Panel without the station name header.
    MissingName,
    /// Panel without the elevation note.
    MissingElevation,
    /// Panel without the required row.
    MissingRow,
    /// A field parser rejected the row.
    Field { err: ParseError },
    /// A reading whose vendor id has no station metadata.
    MissingStationMeta,
}

/// A recovered per-item failure, logged with the offending identifier.
#[derive(Debug, PartialEq, Eq)]
pub struct ItemError {
    /// The identifier of the station or panel the item belonged to.
    pub subject: Vec<u8>,
    pub kind: ItemErrorKind,
}

/// The fixed field-name to unit-of-measurement table.
pub fn get_units() -> (r: Vec<(&'static str, &'static str)>)
    ensures
        r@.len() == 8,
        r@[0].0@ == "wind_speed"@ && r@[0].1@ == "km/h"@,
        r@[1].0@ == "wind_direction"@ && r@[1].1@ == "\u{b0}"@,
        r@[2].0@ == "gusts_speed"@ && r@[2].1@ == "km/h"@,
        r@[3].0@ == "temperature"@ && r@[3].1@ == "\u{b0}C"@,
        r@[4].0@ == "lat"@ && r@[4].1@ == "\u{b0}"@,
        r@[5].0@ == "long"@ && r@[5].1@ == "\u{b0}"@,
        r@[6].0@ == "elevation"@ && r@[6].1@ == "m"@,
        r@[7].0@ == "last_update"@ && r@[7].1@ == "ISO 8601"@,
{
    let mut r: Vec<(&'static str, &'static str)> = Vec::new();
    r.push(("wind_speed", "km/h"));
    r.push(("wind_direction", "\u{b0}"));
    r.push(("gusts_speed", "km/h"));
    r.push(("temperature", "\u{b0}C"));
    r.push(("lat", "\u{b0}"));
    r.push(("long", "\u{b0}"));
    r.push(("elevation", "m"));
    r.push(("last_update", "ISO 8601"));
    r
}

} // verus!
