//! Adapters that normalize live weather observations from two public web
//! sources into one canonical model of stations and measurements.
//!
//! Text is handled as UTF-8 byte strings (`Vec<u8>`), geographic coordinates
//! as nanodegrees, temperatures and wind directions as millidegrees: every
//! quantity the logic touches is a plain integer or byte sequence, so each
//! parsing and normalization step carries an exact contract.
//!
//! - [`common`]: the `Station` / `Measurement` records, the unit table and
//!   the error taxonomy.
//! - [`text`]: byte-string trimming, tokenizing, matching and integer /
//!   fixed-point decimal parsing.
//! - [`fields`]: the wind, temperature, elevation and last-update line
//!   parsers and the compass table.
//! - [`geo`]: the two-point affine pixel-to-geocoordinate projection.
//! - [`time_utc`]: resolving a reported time of day against the current UTC
//!   instant and rendering the fixed timestamp format.
//! - [`meteoclimatic`]: the Tooltip-Map source adapter (image-map hotspots
//!   joined with tooltip panels).
//! - [`meteocat`]: the Embedded-JSON source adapter (script-embedded
//!   assignments, most-recent-timestamp selection, metadata join).
//! - [`codec`], [`scrape`], [`jsonv`]: the trusted bridges to the outside
//!   decoders, digest, HTML parser and JSON parser.

pub mod codec;
pub mod common;
pub mod fields;
pub mod geo;
pub mod jsonv;
pub mod meteocat;
pub mod meteoclimatic;
pub mod scrape;
pub mod text;
pub mod time_utc;
