//! The Embedded-JSON source adapter: scan every script body for the two
//! embedded variable assignments, parse both as JSON, select the most
//! recent timestamp among the readings, join each vendor reading with its
//! station metadata, and emit one station and one measurement per joined
//! vendor id.

use vstd::prelude::*;

use crate::codec::{decode_utf8, md5_hex, md5_hex_of};
use crate::common::{FetchError, ItemError, ItemErrorKind, Measurement, Station, measurement_wf};
use crate::fields::slice_owned;
use crate::jsonv::{is_null, json_from_slice, number_literal, object_entries, string_bytes};
use crate::scrape::{parse_document, parse_selector, select_all, text_bytes};
use crate::text::{
    bytes_eq, ends_with, ends_with_exec, parse_scaled, scaled_of, starts_with, starts_with_exec,
    subrange_vec, trim_exec, trimmed,
};

verus! {

/// The fixed query-string template every vendor id is appended to.
pub open spec fn codi_prefix() -> Seq<u8> {
    seq![104u8, 116u8, 116u8, 112u8, 115u8, 58u8, 47u8, 47u8, 119u8, 119u8, 119u8, 46u8, 109u8, 101u8, 116u8, 101u8, 111u8, 46u8, 99u8, 97u8, 116u8, 47u8, 111u8, 98u8, 115u8, 101u8, 114u8, 118u8, 97u8, 99u8, 105u8, 111u8, 110u8, 115u8, 47u8, 120u8, 101u8, 109u8, 97u8, 47u8, 100u8, 97u8, 100u8, 101u8, 115u8, 63u8, 99u8, 111u8, 100u8, 105u8, 61u8]
}

/// The assignment prefix that carries the readings map.
pub open spec fn dades_prefix() -> Seq<u8> {
    seq![118u8, 97u8, 114u8, 32u8, 100u8, 97u8, 100u8, 101u8, 115u8, 32u8, 61u8, 32u8]
}

/// The assignment prefix that carries the station-metadata map.
pub open spec fn meta_prefix() -> Seq<u8> {
    seq![118u8, 97u8, 114u8, 32u8, 109u8, 101u8, 116u8, 97u8, 32u8, 61u8, 32u8]
}

/// One vendor reading at one timestamp, fields in millidegrees or
/// milli-km/h as parsed from the JSON number literals.
pub struct RawReading {
    pub wind: Option<i64>,
    pub dir: Option<i64>,
    pub gust: Option<i64>,
    pub temp: Option<i64>,
}

/// One vendor's station metadata: name, coordinates in nanodegrees, and
/// altitude in milli-meters.
pub struct RawMeta {
    pub name: Vec<u8>,
    pub lat: i64,
    pub long: i64,
    pub alt: i64,
}

// ---------------------------------------------------------------------------
// the line-oriented micro-grammar of the embedded assignments
// ---------------------------------------------------------------------------
/// The JSON payload of an assignment line: the trimmed line must carry
/// the literal prefix and end with the statement terminator; what lies
/// between, trimmed again, is the payload.
pub open spec fn payload_of(line: Seq<u8>, prefix: Seq<u8>) -> Option<Seq<u8>> {
    let t = trimmed(line);
    if starts_with(t, prefix) && t.len() > prefix.len() && ends_with(t, seq![59u8]) {
        Option::Some(trimmed(t.subrange(prefix.len() as int, t.len() - 1)))
    } else {
        Option::None
    }
}

/// Extract the JSON payload of an assignment line.
pub fn assignment_payload(line: &[u8], prefix: &[u8]) -> (r: Option<Vec<u8>>)
    ensures
        match r {
            Option::Some(p) => payload_of(line@, prefix@) == Option::Some(p@),
            Option::None => payload_of(line@, prefix@) is None,
        },
{
    let t = trim_exec(line);
    let semi: Vec<u8> = vec![59u8];
    proof {
        assert(semi@ =~= seq![59u8]);
    }
    if !starts_with_exec(t.as_slice(), prefix) || t.len() <= prefix.len() || !ends_with_exec(
        t.as_slice(),
        semi.as_slice(),
    ) {
        return None;
    }
    let mid = subrange_vec(t.as_slice(), prefix.len(), t.len() - 1);
    Some(trim_exec(mid.as_slice()))
}

/// Split a script body into lines: segments between line feeds, each
/// stripped of one trailing carriage return.
fn split_lines(s: &[u8]) -> (r: Vec<Vec<u8>>) {
    let mut lines: Vec<Vec<u8>> = Vec::new();
    let mut start: usize = 0;
    let mut i: usize = 0;
    while i < s.len()
        invariant
            0 <= start <= i <= s@.len(),
        decreases s@.len() - i,
    {
        if s[i] == 10 {
            let end = if i > start && s[i - 1] == 13 {
                i - 1
            } else {
                i
            };
            lines.push(subrange_vec(s, start, end));
            start = i + 1;
        }
        i = i + 1;
    }
    if start < s.len() {
        let end = if s.len() > start && s[s.len() - 1] == 13 {
            s.len() - 1
        } else {
            s.len()
        };
        lines.push(subrange_vec(s, start, end));
    }
    lines
}

// ---------------------------------------------------------------------------
// timestamp selection
// ---------------------------------------------------------------------------
/// Strict lexicographic byte order.
pub open spec fn lex_lt(a: Seq<u8>, b: Seq<u8>) -> bool
    decreases a.len(),
{
    if b.len() == 0 {
        false
    } else if a.len() == 0 {
        true
    } else if a[0] < b[0] {
        true
    } else if a[0] > b[0] {
        false
    } else {
        lex_lt(a.drop_first(), b.drop_first())
    }
}

proof fn lemma_lex_total(a: Seq<u8>, b: Seq<u8>)
    ensures
        lex_lt(a, b) || lex_lt(b, a) || a =~= b,
    decreases a.len(),
{
    if a.len() > 0 && b.len() > 0 && a[0] == b[0] {
        lemma_lex_total(a.drop_first(), b.drop_first());
        if !lex_lt(a, b) && !lex_lt(b, a) {
            assert(a.drop_first() =~= b.drop_first());
            assert(a.len() == b.len());
            assert forall|i: int| 0 <= i < a.len() implies a[i] == b[i] by {
                if i > 0 {
                    assert(a[i] == a.drop_first()[i - 1]);
                    assert(b[i] == b.drop_first()[i - 1]);
                }
            }
            assert(a =~= b);
        }
    }
}

proof fn lemma_lex_trans(a: Seq<u8>, b: Seq<u8>, c: Seq<u8>)
    requires
        lex_lt(a, b),
        lex_lt(b, c),
    ensures
        lex_lt(a, c),
    decreases a.len() + b.len() + c.len(),
{
    if a.len() > 0 && b.len() > 0 && c.len() > 0 && a[0] == b[0] && b[0] == c[0] {
        lemma_lex_trans(a.drop_first(), b.drop_first(), c.drop_first());
    }
}

proof fn lemma_lex_irrefl(a: Seq<u8>)
    ensures
        !lex_lt(a, a),
    decreases a.len(),
{
    if a.len() > 0 {
        lemma_lex_irrefl(a.drop_first());
    }
}

fn bytes_lt(a: &[u8], b: &[u8]) -> (r: bool)
    ensures
        r == lex_lt(a@, b@),
{
    let mut i: usize = 0;
    while i < a.len() && i < b.len()
        invariant
            0 <= i <= a@.len(),
            i <= b@.len(),
            forall|k: int| 0 <= k < i ==> a@[k] == b@[k],
        decreases a@.len() - i,
    {
        if a[i] < b[i] {
            proof {
                lemma_lex_at(a@, b@, i as int);
            }
            return true;
        }
        if a[i] > b[i] {
            proof {
                lemma_lex_at(a@, b@, i as int);
            }
            return false;
        }
        i = i + 1;
    }
    proof {
        lemma_lex_at(a@, b@, i as int);
    }
    a.len() < b.len()
}

proof fn lemma_lex_at(a: Seq<u8>, b: Seq<u8>, i: int)
    requires
        0 <= i <= a.len(),
        i <= b.len(),
        forall|k: int| 0 <= k < i ==> a[k] == b[k],
        i == a.len() || i == b.len() || a[i] != b[i],
    ensures
        lex_lt(a, b) == (if i < a.len() && i < b.len() {
            a[i] < b[i]
        } else {
            a.len() < b.len()
        }),
    decreases i,
{
    if i > 0 {
        assert(a.drop_first().len() == a.len() - 1);
        assert(forall|k: int|
            0 <= k < i - 1 ==> a.drop_first()[k] == #[trigger] b.drop_first()[k]);
        lemma_lex_at(a.drop_first(), b.drop_first(), i - 1);
        assert(a[0] == b[0]);
    }
}

/// The index of a maximal timestamp among the reading groups; `None`
/// exactly when there are none.
pub fn select_latest(groups: &Vec<(Vec<u8>, Vec<(Vec<u8>, RawReading)>)>) -> (r: Option<usize>)
    ensures
        r is Some <==> groups@.len() > 0,
        r matches Some(i) ==> i < groups@.len() && forall|j: int|
            0 <= j < groups@.len() ==> !lex_lt(groups@[i as int].0@, #[trigger] groups@[j].0@),
{
    if groups.len() == 0 {
        return None;
    }
    proof {
        lemma_lex_irrefl(groups@[0].0@);
    }
    let mut best: usize = 0;
    let mut j: usize = 1;
    while j < groups.len()
        invariant
            0 <= best < j <= groups@.len(),
            forall|k: int|
                0 <= k < j ==> !lex_lt(groups@[best as int].0@, #[trigger] groups@[k].0@),
        decreases groups@.len() - j,
    {
        if !bytes_lt(groups[j].0.as_slice(), groups[best].0.as_slice()) {
            let ghost old_best = best as int;
            best = j;
            proof {
                assert forall|k: int|
                    0 <= k < j + 1 implies !lex_lt(
                    groups@[best as int].0@,
                    #[trigger] groups@[k].0@,
                ) by {
                    let gb = groups@[best as int].0@;
                    let go = groups@[old_best].0@;
                    let gk = groups@[k].0@;
                    lemma_lex_total(gb, go);
                    if k < j && lex_lt(gb, gk) {
                        assert(!lex_lt(go, gk));
                        lemma_lex_total(go, gk);
                        if lex_lt(gk, go) {
                            lemma_lex_trans(gb, gk, go);
                            assert(false);
                        } else {
                            assert(gk =~= go);
                            assert(false);
                        }
                    }
                    if k == j && lex_lt(gb, gk) {
                        lemma_lex_irrefl(gb);
                        assert(false);
                    }
                }
            }
        } else {
            proof {
                assert forall|k: int|
                    0 <= k < j + 1 implies !lex_lt(
                    groups@[best as int].0@,
                    #[trigger] groups@[k].0@,
                ) by {
                    if k == j {
                        let gb = groups@[best as int].0@;
                        let gk = groups@[k].0@;
                        if lex_lt(gb, gk) {
                            lemma_lex_trans(gk, gb, gk);
                            lemma_lex_irrefl(gk);
                        }
                    }
                }
            }
        }
        j = j + 1;
    }
    Some(best)
}

// ---------------------------------------------------------------------------
// rounding
// ---------------------------------------------------------------------------
/// A milli-scaled value rounded to the nearest whole unit, halves away
/// from zero, negatives clamped to zero.
pub open spec fn round_milli_clamped(m: i64) -> u64 {
    if m <= 0 {
        0u64
    } else {
        (m / 1000 + if m % 1000 >= 500 {
            1int
        } else {
            0int
        }) as u64
    }
}

/// A milli-scaled value rounded to the nearest whole unit, halves away
/// from zero.
pub open spec fn round_milli(m: i64) -> i64 {
    if m >= 0 {
        (m / 1000 + if m % 1000 >= 500 {
            1int
        } else {
            0int
        }) as i64
    } else {
        (-(((-m) as i64) / 1000 + if ((-m) as i64) % 1000 >= 500 {
            1int
        } else {
            0int
        })) as i64
    }
}

fn round_milli_clamped_exec(m: i64) -> (r: u64)
    ensures
        r == round_milli_clamped(m),
{
    if m <= 0 {
        0
    } else {
        let um = m as u64;
        um / 1000 + if um % 1000 >= 500 {
            1
        } else {
            0
        }
    }
}

fn round_milli_exec(m: i64) -> (r: i64)
    requires
        m != i64::MIN,
    ensures
        r == round_milli(m),
{
    if m >= 0 {
        let um = m as u64;
        (um / 1000 + if um % 1000 >= 500 {
            1
        } else {
            0
        }) as i64
    } else {
        let um = (-m) as u64;
        -((um / 1000 + if um % 1000 >= 500 {
            1
        } else {
            0
        }) as i64)
    }
}


// ---------------------------------------------------------------------------
// JSON walking
// ---------------------------------------------------------------------------
/// First entry whose key equals `key`.
fn entry_lookup(entries: &Vec<(Vec<u8>, serde_json::Value)>, key: &[u8]) -> (r: Option<usize>)
    ensures
        r matches Some(i) ==> i < entries@.len() && entries@[i as int].0@ == key@,
{
    let mut i: usize = 0;
    while i < entries.len()
        invariant
            0 <= i <= entries@.len(),
        decreases entries@.len() - i,
    {
        if bytes_eq(entries[i].0.as_slice(), key) {
            return Some(i);
        }
        i = i + 1;
    }
    None
}

/// An optional milli-scaled number field: absent or null means `None`;
/// anything present that is not a number with a readable literal is a
/// document-shape failure.
fn field_milli(entries: &Vec<(Vec<u8>, serde_json::Value)>, key: &[u8]) -> (r: Result<
    Option<i64>,
    FetchError,
>)
    ensures
        r matches Err(e) ==> e == FetchError::BadJson,
{
    match entry_lookup(entries, key) {
        Option::None => Ok(None),
        Option::Some(i) => {
            if is_null(&entries[i].1) {
                return Ok(None);
            }
            match number_literal(&entries[i].1) {
                Option::None => Err(FetchError::BadJson),
                Option::Some(lit) => match parse_scaled(lit.as_slice(), 3) {
                    Option::Some(v) => Ok(Some(v)),
                    Option::None => Err(FetchError::BadJson),
                },
            }
        },
    }
}

/// A required nano-scaled number field.
fn field_nano(entries: &Vec<(Vec<u8>, serde_json::Value)>, key: &[u8]) -> (r: Result<
    i64,
    FetchError,
>)
    ensures
        r matches Err(e) ==> e == FetchError::BadJson,
{
    match entry_lookup(entries, key) {
        Option::None => Err(FetchError::BadJson),
        Option::Some(i) => match number_literal(&entries[i].1) {
            Option::None => Err(FetchError::BadJson),
            Option::Some(lit) => match parse_scaled(lit.as_slice(), 9) {
                Option::Some(v) => Ok(v),
                Option::None => Err(FetchError::BadJson),
            },
        },
    }
}

/// One vendor's reading object.
fn read_reading(v: &serde_json::Value) -> (r: Result<RawReading, FetchError>)
    ensures
        r matches Err(e) ==> e == FetchError::BadJson,
{
    let entries = match object_entries(v) {
        Option::Some(e) => e,
        Option::None => {
            return Err(FetchError::BadJson);
        },
    };
    let k_wind: Vec<u8> = vec![118u8, 101u8, 108u8, 111u8, 99u8, 105u8, 116u8, 97u8, 116u8, 86u8, 101u8, 110u8, 116u8];
    let k_dir: Vec<u8> = vec![100u8, 105u8, 114u8, 101u8, 99u8, 99u8, 105u8, 111u8, 86u8, 101u8, 110u8, 116u8];
    let k_gust: Vec<u8> = vec![114u8, 97u8, 116u8, 120u8, 97u8, 77u8, 97u8, 120u8, 105u8, 109u8, 97u8, 86u8, 101u8, 110u8, 116u8];
    let k_temp: Vec<u8> = vec![116u8, 101u8, 109u8, 112u8, 101u8, 114u8, 97u8, 116u8, 117u8, 114u8, 97u8];
    let wind = match field_milli(&entries, k_wind.as_slice()) {
        Ok(v) => v,
        Err(e) => {
            return Err(e);
        },
    };
    let dir = match field_milli(&entries, k_dir.as_slice()) {
        Ok(v) => v,
        Err(e) => {
            return Err(e);
        },
    };
    let gust = match field_milli(&entries, k_gust.as_slice()) {
        Ok(v) => v,
        Err(e) => {
            return Err(e);
        },
    };
    let temp = match field_milli(&entries, k_temp.as_slice()) {
        Ok(v) => v,
        Err(e) => {
            return Err(e);
        },
    };
    Ok(RawReading { wind, dir, gust, temp })
}

/// The readings map: timestamp, then vendor id, then the reading object.
fn walk_readings(v: &serde_json::Value) -> (r: Result<
    Vec<(Vec<u8>, Vec<(Vec<u8>, RawReading)>)>,
    FetchError,
>)
    ensures
        r matches Err(e) ==> e == FetchError::BadJson,
{
    let groups_raw = match object_entries(v) {
        Option::Some(e) => e,
        Option::None => {
            return Err(FetchError::BadJson);
        },
    };
    let mut groups: Vec<(Vec<u8>, Vec<(Vec<u8>, RawReading)>)> = Vec::new();
    let mut i: usize = 0;
    while i < groups_raw.len()
        invariant
            0 <= i <= groups_raw@.len(),
        decreases groups_raw@.len() - i,
    {
        let inner_raw = match object_entries(&groups_raw[i].1) {
            Option::Some(e) => e,
            Option::None => {
                return Err(FetchError::BadJson);
            },
        };
        let mut inner: Vec<(Vec<u8>, RawReading)> = Vec::new();
        let mut j: usize = 0;
        while j < inner_raw.len()
            invariant
                0 <= j <= inner_raw@.len(),
            decreases inner_raw@.len() - j,
        {
            let reading = match read_reading(&inner_raw[j].1) {
                Ok(rd) => rd,
                Err(e) => {
                    return Err(e);
                },
            };
            inner.push((slice_owned(inner_raw[j].0.as_slice()), reading));
            j = j + 1;
        }
        groups.push((slice_owned(groups_raw[i].0.as_slice()), inner));
        i = i + 1;
    }
    Ok(groups)
}

/// The station-metadata map: vendor id to name, coordinates and altitude.
fn walk_metas(v: &serde_json::Value) -> (r: Result<Vec<(Vec<u8>, RawMeta)>, FetchError>)
    ensures
        r matches Err(e) ==> e == FetchError::BadJson,
{
    let entries_raw = match object_entries(v) {
        Option::Some(e) => e,
        Option::None => {
            return Err(FetchError::BadJson);
        },
    };
    let mut metas: Vec<(Vec<u8>, RawMeta)> = Vec::new();
    let mut i: usize = 0;
    while i < entries_raw.len()
        invariant
            0 <= i <= entries_raw@.len(),
        decreases entries_raw@.len() - i,
    {
        let fields = match object_entries(&entries_raw[i].1) {
            Option::Some(e) => e,
            Option::None => {
                return Err(FetchError::BadJson);
            },
        };
        let k_nom: Vec<u8> = vec![110u8, 111u8, 109u8];
        let name = match entry_lookup(&fields, k_nom.as_slice()) {
            Option::Some(ix) => match string_bytes(&fields[ix].1) {
                Option::Some(nm) => nm,
                Option::None => {
                    return Err(FetchError::BadJson);
                },
            },
            Option::None => {
                return Err(FetchError::BadJson);
            },
        };
        let k_coord: Vec<u8> = vec![99u8, 111u8, 111u8, 114u8, 100u8, 101u8, 110u8, 97u8, 100u8, 101u8, 115u8];
        let coords = match entry_lookup(&fields, k_coord.as_slice()) {
            Option::Some(ix) => match object_entries(&fields[ix].1) {
                Option::Some(c) => c,
                Option::None => {
                    return Err(FetchError::BadJson);
                },
            },
            Option::None => {
                return Err(FetchError::BadJson);
            },
        };
        let k_lat: Vec<u8> = vec![108u8, 97u8, 116u8, 105u8, 116u8, 117u8, 100u8];
        let lat = match field_nano(&coords, k_lat.as_slice()) {
            Ok(v) => v,
            Err(e) => {
                return Err(e);
            },
        };
        let k_long: Vec<u8> = vec![108u8, 111u8, 110u8, 103u8, 105u8, 116u8, 117u8, 100u8];
        let long = match field_nano(&coords, k_long.as_slice()) {
            Ok(v) => v,
            Err(e) => {
                return Err(e);
            },
        };
        let k_alt: Vec<u8> = vec![97u8, 108u8, 116u8, 105u8, 116u8, 117u8, 100u8];
        let alt = match field_milli(&fields, k_alt.as_slice()) {
            Ok(Option::Some(v)) => v,
            Ok(Option::None) => {
                return Err(FetchError::BadJson);
            },
            Err(e) => {
                return Err(e);
            },
        };
        metas.push((slice_owned(entries_raw[i].0.as_slice()), RawMeta { name, lat, long, alt }));
        i = i + 1;
    }
    Ok(metas)
}

// ---------------------------------------------------------------------------
// join and build
// ---------------------------------------------------------------------------
/// Index of the first metadata entry for `vendor`.
pub open spec fn find_meta_spec(metas: Seq<(Vec<u8>, RawMeta)>, vendor: Seq<u8>) -> Option<int>
    decreases metas.len(),
{
    if metas.len() == 0 {
        Option::None
    } else if metas[0].0@ == vendor {
        Option::Some(0)
    } else {
        match find_meta_spec(metas.drop_first(), vendor) {
            Option::None => Option::None,
            Option::Some(i) => Option::Some(i + 1),
        }
    }
}

proof fn lemma_find_meta_at(metas: Seq<(Vec<u8>, RawMeta)>, vendor: Seq<u8>, i: int)
    requires
        0 <= i <= metas.len(),
        forall|k: int| 0 <= k < i ==> metas[k].0@ != vendor,
        i == metas.len() || metas[i].0@ == vendor,
    ensures
        i < metas.len() ==> find_meta_spec(metas, vendor) == Option::Some(i),
        i == metas.len() ==> find_meta_spec(metas, vendor) is None,
    decreases metas.len(),
{
    if metas.len() > 0 && metas[0].0@ != vendor {
        lemma_find_meta_at(metas.drop_first(), vendor, i - 1);
    }
}

/// First metadata entry for `vendor`.
fn meta_lookup(metas: &Vec<(Vec<u8>, RawMeta)>, vendor: &[u8]) -> (r: Option<usize>)
    ensures
        match r {
            Option::Some(i) => find_meta_spec(metas@, vendor@) == Option::Some(i as int) && i
                < metas@.len() && metas@[i as int].0@ == vendor@,
            Option::None => find_meta_spec(metas@, vendor@) is None,
        },
{
    let mut i: usize = 0;
    while i < metas.len()
        invariant
            0 <= i <= metas@.len(),
            forall|k: int| 0 <= k < i ==> metas@[k].0@ != vendor@,
        decreases metas@.len() - i,
    {
        if bytes_eq(metas[i].0.as_slice(), vendor) {
            proof {
                lemma_find_meta_at(metas@, vendor@, i as int);
            }
            return Some(i);
        }
        i = i + 1;
    }
    proof {
        lemma_find_meta_at(metas@, vendor@, i as int);
    }
    None
}

/// What one reading decides against the metadata map: a reading without a
/// wind speed is silently skipped; a wind-bearing reading joins the first
/// metadata entry for its vendor id, and is an item error when none
/// exists (or when the metadata's altitude is of unroundable magnitude).
pub enum JoinOut {
    Skip,
    NoMeta,
    Pair { mi: int },
}

pub open spec fn join_outcome(entry: (Vec<u8>, RawReading), metas: Seq<(Vec<u8>, RawMeta)>)
    -> JoinOut {
    if entry.1.wind is None {
        JoinOut::Skip
    } else {
        match find_meta_spec(metas, entry.0@) {
            Option::None => JoinOut::NoMeta,
            Option::Some(mi) => if metas[mi].1.alt == i64::MIN {
                JoinOut::NoMeta
            } else {
                JoinOut::Pair { mi }
            },
        }
    }
}

/// Indices, in order, of the emitted readings among the first `n`.
pub open spec fn pair_indices(
    g: Seq<(Vec<u8>, RawReading)>,
    metas: Seq<(Vec<u8>, RawMeta)>,
    n: int,
) -> Seq<int>
    decreases n,
{
    if n <= 0 {
        Seq::empty()
    } else {
        let pre = pair_indices(g, metas, n - 1);
        if join_outcome(g[n - 1], metas) is Pair {
            pre.push(n - 1)
        } else {
            pre
        }
    }
}

/// Indices, in order, of the error-recorded readings among the first `n`.
pub open spec fn err_indices(
    g: Seq<(Vec<u8>, RawReading)>,
    metas: Seq<(Vec<u8>, RawMeta)>,
    n: int,
) -> Seq<int>
    decreases n,
{
    if n <= 0 {
        Seq::empty()
    } else {
        let pre = err_indices(g, metas, n - 1);
        if join_outcome(g[n - 1], metas) is NoMeta {
            pre.push(n - 1)
        } else {
            pre
        }
    }
}

/// The station a joined vendor id yields: the query-template URL with the
/// vendor id, its digest as id, and name, rounded elevation and
/// coordinates copied from the metadata entry.
pub open spec fn joined_station_ok(st: Station, vendor: Seq<u8>, meta: RawMeta) -> bool {
    &&& st.url@ == codi_prefix() + vendor
    &&& st.id@ == md5_hex_of(st.url@)
    &&& st.name@ == meta.name@
    &&& st.elevation == round_milli(meta.alt)
    &&& st.lat == meta.lat
    &&& st.long == meta.long
    &&& st.available
}

/// The measurement a joined reading yields: wind and gusts rounded to
/// whole km/h, the direction kept only for nonzero wind, the temperature
/// copied, and the selected timestamp verbatim.
pub open spec fn joined_measurement_ok(
    m: Measurement,
    st: Station,
    r: RawReading,
    ts: Seq<u8>,
) -> bool {
    &&& m.station_id@ == st.id@
    &&& (match r.wind {
        Option::Some(w) => m.wind_speed == round_milli_clamped(w),
        Option::None => false,
    })
    &&& m.wind_direction == (if m.wind_speed > 0 {
        r.dir
    } else {
        Option::<i64>::None
    })
    &&& m.gusts_speed == (match r.gust {
        Option::Some(g) => Option::Some(round_milli_clamped(g)),
        Option::None => Option::<u64>::None,
    })
    &&& m.temperature == r.temp
    &&& m.last_update@ == ts
}

/// What holds of every output record of the Embedded-JSON adapter,
/// whichever timestamp was selected.
pub open spec fn mc_output_basic(st: Station, m: Measurement) -> bool {
    &&& st.available
    &&& m.station_id@ == st.id@
    &&& measurement_wf(m)
    &&& st.id@ == md5_hex_of(st.url@)
    &&& starts_with(st.url@, codi_prefix())
}

/// One output record of the Embedded-JSON adapter: the station is always
/// available, its id is the digest of the query-template URL, and the
/// measurement carries the selected timestamp verbatim.
pub open spec fn mc_output_ok(st: Station, m: Measurement, ts: Seq<u8>) -> bool {
    &&& mc_output_basic(st, m)
    &&& m.last_update@ == ts
}

/// Build the output records for the readings at the selected timestamp:
/// one station and one measurement per vendor reading that has a wind
/// speed and joins station metadata, in reading order; wind-bearing
/// readings without metadata are recorded as item errors, in order.
#[verifier::loop_isolation(false)]
#[verifier::rlimit(60)]
pub fn build_outputs(
    group: &Vec<(Vec<u8>, RawReading)>,
    ts: &[u8],
    metas: &Vec<(Vec<u8>, RawMeta)>,
) -> (out: (Vec<Station>, Vec<Measurement>, Vec<ItemError>))
    ensures
        out.0@.len() == out.1@.len(),
        out.0@.len() == pair_indices(group@, metas@, group@.len() as int).len(),
        out.2@.len() == err_indices(group@, metas@, group@.len() as int).len(),
        forall|j: int|
            #![trigger out.0@[j]]
            0 <= j < out.0@.len() ==> {
                let gi = pair_indices(group@, metas@, group@.len() as int)[j];
                &&& 0 <= gi < group@.len()
                &&& match join_outcome(group@[gi], metas@) {
                    JoinOut::Pair { mi } => joined_station_ok(
                        out.0@[j],
                        group@[gi].0@,
                        metas@[mi].1,
                    ) && joined_measurement_ok(out.1@[j], out.0@[j], group@[gi].1, ts@),
                    _ => false,
                }
            },
        forall|j: int|
            #![trigger out.2@[j]]
            0 <= j < out.2@.len() ==> {
                let gi = err_indices(group@, metas@, group@.len() as int)[j];
                &&& 0 <= gi < group@.len()
                &&& out.2@[j].subject@ == group@[gi].0@
                &&& out.2@[j].kind == ItemErrorKind::MissingStationMeta
            },
        forall|j: int|
            0 <= j < out.0@.len() ==> mc_output_ok(#[trigger] out.0@[j], out.1@[j], ts@),
{
    let mut sts: Vec<Station> = Vec::new();
    let mut ms: Vec<Measurement> = Vec::new();
    let mut errs: Vec<ItemError> = Vec::new();
    let mut i: usize = 0;
    // ghost mirrors of the emitted and error index sequences
    let ghost mut pi: Seq<int> = Seq::empty();
    let ghost mut ei: Seq<int> = Seq::empty();
    while i < group.len()
        invariant
            0 <= i <= group@.len(),
            sts@.len() == ms@.len(),
            pi == pair_indices(group@, metas@, i as int),
            ei == err_indices(group@, metas@, i as int),
            sts@.len() == pi.len(),
            errs@.len() == ei.len(),
            forall|j: int|
                #![trigger pi[j]]
                0 <= j < pi.len() ==> {
                    &&& 0 <= pi[j] < group@.len()
                    &&& match join_outcome(group@[pi[j]], metas@) {
                        JoinOut::Pair { mi } => joined_station_ok(
                            sts@[j],
                            group@[pi[j]].0@,
                            metas@[mi].1,
                        ) && joined_measurement_ok(ms@[j], sts@[j], group@[pi[j]].1, ts@),
                        _ => false,
                    }
                },
            forall|j: int|
                #![trigger ei[j]]
                0 <= j < ei.len() ==> {
                    &&& 0 <= ei[j] < group@.len()
                    &&& errs@[j].subject@ == group@[ei[j]].0@
                    &&& errs@[j].kind == ItemErrorKind::MissingStationMeta
                },
            forall|j: int|
                0 <= j < sts@.len() ==> mc_output_ok(#[trigger] sts@[j], ms@[j], ts@),
        decreases group@.len() - i,
    {
        let ghost pre_pi = pair_indices(group@, metas@, i as int);
        let ghost pre_ei = err_indices(group@, metas@, i as int);
        proof {
            assert(pair_indices(group@, metas@, i + 1) == (if join_outcome(
                group@[i as int],
                metas@,
            ) is Pair {
                pre_pi.push(i as int)
            } else {
                pre_pi
            }));
            assert(err_indices(group@, metas@, i + 1) == (if join_outcome(
                group@[i as int],
                metas@,
            ) is NoMeta {
                pre_ei.push(i as int)
            } else {
                pre_ei
            }));
        }
        let vendor = group[i].0.as_slice();
        let wind_milli = match group[i].1.wind {
            Option::Some(w) => Some(w),
            Option::None => None,
        };
        if let Option::Some(wind_milli) = wind_milli {
            let mi_opt = meta_lookup(metas, vendor);
            let joined: Option<usize> = match mi_opt {
                Option::Some(mi) => {
                    if metas[mi].1.alt == i64::MIN {
                        None
                    } else {
                        Some(mi)
                    }
                },
                Option::None => None,
            };
            match joined {
                Option::None => {
                    // wind-bearing reading with no usable metadata record
                    let ghost pre_errs = errs@;
                    errs.push(
                        ItemError {
                            subject: slice_owned(vendor),
                            kind: ItemErrorKind::MissingStationMeta,
                        },
                    );
                    proof {
                        assert(join_outcome(group@[i as int], metas@) is NoMeta);
                        let old_ei = ei;
                        ei = ei.push(i as int);
                        assert forall|j: int| #![trigger ei[j]] 0 <= j < ei.len() implies {
                            &&& 0 <= ei[j] < group@.len()
                            &&& errs@[j].subject@ == group@[ei[j]].0@
                            &&& errs@[j].kind == ItemErrorKind::MissingStationMeta
                        } by {
                            if j < pre_errs.len() {
                                assert(errs@[j] == pre_errs[j]);
                                assert(ei[j] == old_ei[j]);
                            } else {
                                assert(ei[j] == i as int);
                            }
                        }
                    }
                },
                Option::Some(mi) => {
                    let mut url: Vec<u8> = vec![104u8, 116u8, 116u8, 112u8, 115u8, 58u8, 47u8, 47u8, 119u8, 119u8, 119u8, 46u8, 109u8, 101u8, 116u8, 101u8, 111u8, 46u8, 99u8, 97u8, 116u8, 47u8, 111u8, 98u8, 115u8, 101u8, 114u8, 118u8, 97u8, 99u8, 105u8, 111u8, 110u8, 115u8, 47u8, 120u8, 101u8, 109u8, 97u8, 47u8, 100u8, 97u8, 100u8, 101u8, 115u8, 63u8, 99u8, 111u8, 100u8, 105u8, 61u8];
                    proof {
                        assert(url@ =~= codi_prefix());
                    }
                    let mut tail = slice_owned(vendor);
                    url.append(&mut tail);
                    let id = md5_hex(url.as_slice());
                    let wind_speed = round_milli_clamped_exec(wind_milli);
                    let wind_direction: Option<i64> = if wind_speed > 0 {
                        group[i].1.dir
                    } else {
                        None
                    };
                    let gusts_speed: Option<u64> = match group[i].1.gust {
                        Option::Some(g) => Some(round_milli_clamped_exec(g)),
                        Option::None => None,
                    };
                    let meta = &metas[mi].1;
                    let st = Station {
                        id: slice_owned(id.as_slice()),
                        name: slice_owned(meta.name.as_slice()),
                        elevation: round_milli_exec(meta.alt),
                        url,
                        lat: meta.lat,
                        long: meta.long,
                        available: true,
                    };
                    let meas = Measurement {
                        station_id: id,
                        wind_speed,
                        wind_direction,
                        gusts_speed,
                        temperature: group[i].1.temp,
                        last_update: slice_owned(ts),
                    };
                    let ghost pre_sts = sts@;
                    let ghost pre_ms = ms@;
                    proof {
                        crate::text::lemma_prefix_of_concat(codi_prefix(), group@[i as int].0@);
                        assert(join_outcome(group@[i as int], metas@) == (JoinOut::Pair {
                            mi: mi as int,
                        }));
                        assert(joined_station_ok(st, group@[i as int].0@, metas@[mi as int].1));
                        assert(joined_measurement_ok(meas, st, group@[i as int].1, ts@));
                        assert(mc_output_ok(st, meas, ts@));
                    }
                    sts.push(st);
                    ms.push(meas);
                    proof {
                        let old_pi = pi;
                        pi = pi.push(i as int);
                        assert forall|j: int| #![trigger pi[j]] 0 <= j < pi.len() implies {
                            &&& 0 <= pi[j] < group@.len()
                            &&& match join_outcome(group@[pi[j]], metas@) {
                                JoinOut::Pair { mi } => joined_station_ok(
                                    sts@[j],
                                    group@[pi[j]].0@,
                                    metas@[mi].1,
                                ) && joined_measurement_ok(ms@[j], sts@[j], group@[pi[j]].1, ts@),
                                _ => false,
                            }
                        } by {
                            if j < pre_sts.len() {
                                assert(sts@[j] == pre_sts[j]);
                                assert(ms@[j] == pre_ms[j]);
                                assert(pi[j] == old_pi[j]);
                            } else {
                                assert(pi[j] == i as int);
                            }
                        }
                        assert forall|j: int|
                            0 <= j < sts@.len() implies mc_output_ok(
                            #[trigger] sts@[j],
                            ms@[j],
                            ts@,
                        ) by {
                            if j < pre_sts.len() {
                                assert(sts@[j] == pre_sts[j]);
                                assert(ms@[j] == pre_ms[j]);
                                assert(mc_output_ok(pre_sts[j], pre_ms[j], ts@));
                            }
                        }
                    }
                },
            }
        } else {
            proof {
                assert(join_outcome(group@[i as int], metas@) is Skip);
            }
        }
        i = i + 1;
    }
    proof {
        assert forall|j: int| #![trigger sts@[j]] 0 <= j < sts@.len() implies {
            let gi = pair_indices(group@, metas@, group@.len() as int)[j];
            &&& 0 <= gi < group@.len()
            &&& match join_outcome(group@[gi], metas@) {
                JoinOut::Pair { mi } => joined_station_ok(sts@[j], group@[gi].0@, metas@[mi].1)
                    && joined_measurement_ok(ms@[j], sts@[j], group@[gi].1, ts@),
                _ => false,
            }
        } by {
            assert(pair_indices(group@, metas@, group@.len() as int)[j] == pi[j]);
        }
        assert forall|j: int| #![trigger errs@[j]] 0 <= j < errs@.len() implies {
            let gi = err_indices(group@, metas@, group@.len() as int)[j];
            &&& 0 <= gi < group@.len()
            &&& errs@[j].subject@ == group@[gi].0@
            &&& errs@[j].kind == ItemErrorKind::MissingStationMeta
        } by {
            assert(err_indices(group@, metas@, group@.len() as int)[j] == ei[j]);
        }
    }
    (sts, ms, errs)
}

/// Run the whole Embedded-JSON adapter over one fetched document body:
/// decode, find the two embedded assignments, parse both as JSON, select
/// the most recent timestamp, and join readings with station metadata.
pub fn fetch_data(body: &[u8]) -> (r: Result<
    (Vec<Station>, Vec<Measurement>, Vec<ItemError>),
    FetchError,
>)
    ensures
        r matches Ok(out) ==> out.0@.len() == out.1@.len() && forall|j: int|
            0 <= j < out.0@.len() ==> mc_output_basic(#[trigger] out.0@[j], out.1@[j]),
        // every emitted measurement carries the one selected timestamp
        r matches Ok(out) ==> forall|j1: int, j2: int|
            0 <= j1 < out.1@.len() && 0 <= j2 < out.1@.len() ==> #[trigger] out.1@[j1].last_update@
                == #[trigger] out.1@[j2].last_update@,
        r matches Err(e) ==> e matches FetchError::ReadingsMissing || e matches
            FetchError::MetadataMissing || e matches FetchError::EmptyReadings || e matches
            FetchError::BadJson || e matches FetchError::BadSelector,
{
    let text = decode_utf8(body);
    let doc = parse_document(text.as_slice());
    let script_sel = match parse_selector("script") {
        Ok(sel) => sel,
        Err(e) => {
            return Err(e);
        },
    };
    let scripts = select_all(&doc, &script_sel);
    let dades_pre: Vec<u8> = vec![118u8, 97u8, 114u8, 32u8, 100u8, 97u8, 100u8, 101u8, 115u8, 32u8, 61u8, 32u8];
    let meta_pre: Vec<u8> = vec![118u8, 97u8, 114u8, 32u8, 109u8, 101u8, 116u8, 97u8, 32u8, 61u8, 32u8];
    let mut readings: Option<Vec<(Vec<u8>, Vec<(Vec<u8>, RawReading)>)>> = None;
    let mut metas: Option<Vec<(Vec<u8>, RawMeta)>> = None;
    let mut i: usize = 0;
    while i < scripts.len()
        invariant
            0 <= i <= scripts@.len(),
        decreases scripts@.len() - i,
    {
        let content = text_bytes(&scripts[i]);
        let lines = split_lines(content.as_slice());
        let mut j: usize = 0;
        while j < lines.len()
            invariant
                0 <= j <= lines@.len(),
            decreases lines@.len() - j,
        {
            if let Option::Some(payload) = assignment_payload(
                lines[j].as_slice(),
                dades_pre.as_slice(),
            ) {
                match json_from_slice(payload.as_slice()) {
                    Option::Some(v) => {
                        match walk_readings(&v) {
                            Ok(g) => {
                                readings = Some(g);
                            },
                            Err(e) => {
                                return Err(e);
                            },
                        }
                    },
                    Option::None => {
                        return Err(FetchError::BadJson);
                    },
                }
            } else if let Option::Some(payload) = assignment_payload(
                lines[j].as_slice(),
                meta_pre.as_slice(),
            ) {
                match json_from_slice(payload.as_slice()) {
                    Option::Some(v) => {
                        match walk_metas(&v) {
                            Ok(m) => {
                                metas = Some(m);
                            },
                            Err(e) => {
                                return Err(e);
                            },
                        }
                    },
                    Option::None => {
                        return Err(FetchError::BadJson);
                    },
                }
            }
            j = j + 1;
        }
        i = i + 1;
    }
    let groups = match readings {
        Option::Some(g) => g,
        Option::None => {
            return Err(FetchError::ReadingsMissing);
        },
    };
    let station_metas = match metas {
        Option::Some(m) => m,
        Option::None => {
            return Err(FetchError::MetadataMissing);
        },
    };
    let latest = match select_latest(&groups) {
        Option::Some(ix) => ix,
        Option::None => {
            return Err(FetchError::EmptyReadings);
        },
    };
    let (sts, ms, errs) = build_outputs(
        &groups[latest].1,
        groups[latest].0.as_slice(),
        &station_metas,
    );
    proof {
        assert forall|j: int|
            0 <= j < sts@.len() implies mc_output_basic(#[trigger] sts@[j], ms@[j]) by {
            assert(mc_output_ok(sts@[j], ms@[j], groups@[latest as int].0@));
        }
        assert forall|j1: int, j2: int|
            0 <= j1 < ms@.len() && 0 <= j2 < ms@.len() implies #[trigger] ms@[j1].last_update@
            == #[trigger] ms@[j2].last_update@ by {
            assert(mc_output_ok(sts@[j1], ms@[j1], groups@[latest as int].0@));
            assert(mc_output_ok(sts@[j2], ms@[j2], groups@[latest as int].0@));
        }
    }
    Ok((sts, ms, errs))
}

} // verus!
