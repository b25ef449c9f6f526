//! Field parsers: wind, temperature, elevation and last-update lines, each
//! isolating one messy text format, plus the 16-point compass table.

use vstd::prelude::*;

use crate::common::{ParseError, ParseErrorKind};
use crate::text::{
    all_digits, all_digits_exec, bytes_eq, digits_val, ends_with, ends_with_exec, find_byte,
    find_byte_exec, i64_of_ascii, parse_i64, parse_scaled, scaled_of, starts_with,
    starts_with_exec, subrange_vec, tokenize, tokens_of, trim_exec, trimmed, u64_of_digits,
    parse_u64,
};

verus! {

// ---------------------------------------------------------------------------
// compass table
// ---------------------------------------------------------------------------
/// ASCII uppercase of one byte.
pub open spec fn upper(b: u8) -> u8 {
    if 97u8 <= b <= 122u8 {
        (b - 32u8) as u8
    } else {
        b
    }
}

pub open spec fn upper_seq(s: Seq<u8>) -> Seq<u8> {
    Seq::new(s.len(), |i: int| upper(s[i]))
}

pub fn upper_ascii(s: &[u8]) -> (r: Vec<u8>)
    ensures
        r@ == upper_seq(s@),
{
    let mut r: Vec<u8> = Vec::new();
    let mut i: usize = 0;
    while i < s.len()
        invariant
            0 <= i <= s@.len(),
            r@ =~= upper_seq(s@).subrange(0, i as int),
        decreases s@.len() - i,
    {
        let b = s[i];
        if 97 <= b && b <= 122 {
            r.push(b - 32);
        } else {
            r.push(b);
        }
        proof {
            assert(upper_seq(s@).subrange(0, i + 1) =~= upper_seq(s@).subrange(0, i as int).push(
                upper(s@[i as int]),
            ));
        }
        i = i + 1;
    }
    proof {
        assert(upper_seq(s@).subrange(0, s@.len() as int) =~= upper_seq(s@));
    }
    r
}

/// Millidegrees for a compass abbreviation: N = 0, step 22.5 degrees,
/// case-insensitive; `None` for anything else.
pub open spec fn compass_millideg(s: Seq<u8>) -> Option<i64> {
    let u = upper_seq(s);
    if u == seq![78u8] {
        Option::Some(0i64)
    } else if u == seq![78u8, 78u8, 69u8] {
        Option::Some(22500i64)
    } else if u == seq![78u8, 69u8] {
        Option::Some(45000i64)
    } else if u == seq![69u8, 78u8, 69u8] {
        Option::Some(67500i64)
    } else if u == seq![69u8] {
        Option::Some(90000i64)
    } else if u == seq![69u8, 83u8, 69u8] {
        Option::Some(112500i64)
    } else if u == seq![83u8, 69u8] {
        Option::Some(135000i64)
    } else if u == seq![83u8, 83u8, 69u8] {
        Option::Some(157500i64)
    } else if u == seq![83u8] {
        Option::Some(180000i64)
    } else if u == seq![83u8, 83u8, 87u8] {
        Option::Some(202500i64)
    } else if u == seq![83u8, 87u8] {
        Option::Some(225000i64)
    } else if u == seq![87u8, 83u8, 87u8] {
        Option::Some(247500i64)
    } else if u == seq![87u8] {
        Option::Some(270000i64)
    } else if u == seq![87u8, 78u8, 87u8] {
        Option::Some(292500i64)
    } else if u == seq![78u8, 87u8] {
        Option::Some(315000i64)
    } else if u == seq![78u8, 78u8, 87u8] {
        Option::Some(337500i64)
    } else {
        Option::None
    }
}

fn tok1(u: &[u8], a: u8) -> (r: bool)
    ensures
        r == (u@ == seq![a]),
{
    let r = u.len() == 1 && u[0] == a;
    proof {
        if r {
            assert(u@ =~= seq![a]);
        }
    }
    r
}

fn tok2(u: &[u8], a: u8, b: u8) -> (r: bool)
    ensures
        r == (u@ == seq![a, b]),
{
    let r = u.len() == 2 && u[0] == a && u[1] == b;
    proof {
        if r {
            assert(u@ =~= seq![a, b]);
        }
    }
    r
}

fn tok3(u: &[u8], a: u8, b: u8, c: u8) -> (r: bool)
    ensures
        r == (u@ == seq![a, b, c]),
{
    let r = u.len() == 3 && u[0] == a && u[1] == b && u[2] == c;
    proof {
        if r {
            assert(u@ =~= seq![a, b, c]);
        }
    }
    r
}

/// Compass abbreviation to millidegrees (N = 0, NNE = 22500, ... step
/// 22500), upper-cased first; unresolvable abbreviations give `None`.
pub fn wind_direction_to_degrees(direction: &[u8]) -> (r: Option<i64>)
    ensures
        r == compass_millideg(direction@),
{
    let u = upper_ascii(direction);
    let us = u.as_slice();
    if tok1(us, 78) {
        Some(0)
    } else if tok3(us, 78, 78, 69) {
        Some(22500)
    } else if tok2(us, 78, 69) {
        Some(45000)
    } else if tok3(us, 69, 78, 69) {
        Some(67500)
    } else if tok1(us, 69) {
        Some(90000)
    } else if tok3(us, 69, 83, 69) {
        Some(112500)
    } else if tok2(us, 83, 69) {
        Some(135000)
    } else if tok3(us, 83, 83, 69) {
        Some(157500)
    } else if tok1(us, 83) {
        Some(180000)
    } else if tok3(us, 83, 83, 87) {
        Some(202500)
    } else if tok2(us, 83, 87) {
        Some(225000)
    } else if tok3(us, 87, 83, 87) {
        Some(247500)
    } else if tok1(us, 87) {
        Some(270000)
    } else if tok3(us, 87, 78, 87) {
        Some(292500)
    } else if tok2(us, 78, 87) {
        Some(315000)
    } else if tok3(us, 78, 78, 87) {
        Some(337500)
    } else {
        None
    }
}

// ---------------------------------------------------------------------------
// wind
// ---------------------------------------------------------------------------
/// The source's literal calm marker.
pub open spec fn calm_lit() -> Seq<u8> {
    seq![67u8, 97u8, 108u8, 109u8, 97u8]  // "Calma"
}

/// The only accepted wind speed unit.
pub open spec fn kmh_lit() -> Seq<u8> {
    seq![107u8, 109u8, 47u8, 104u8]  // "km/h"
}

/// What `parse_wind` decides for a given line.
pub enum WindOut {
    Value { speed: u64, dir: Option<i64> },
    BadUnit { raw: Seq<u8> },
    BadSpeed { raw: Seq<u8> },
    BadDirection { raw: Seq<u8> },
}

/// The wind grammar: the calm marker means zero; otherwise token 0 is the
/// integer speed, token 1 must be the unit, and token 2 resolves through
/// the compass table only when a direction is wanted and the speed is
/// nonzero.
pub open spec fn wind_outcome(s: Seq<u8>, want_direction: bool) -> WindOut {
    if s == calm_lit() {
        WindOut::Value { speed: 0u64, dir: Option::None }
    } else {
        let toks = tokens_of(s);
        if toks.len() < 2 {
            WindOut::BadUnit { raw: s }
        } else if toks[1] != kmh_lit() {
            WindOut::BadUnit { raw: toks[1] }
        } else {
            match u64_of_digits(toks[0]) {
                Option::None => WindOut::BadSpeed { raw: s },
                Option::Some(speed) => {
                    if want_direction && speed != 0 {
                        if toks.len() >= 3 && compass_millideg(toks[2]) is Some {
                            WindOut::Value { speed, dir: compass_millideg(toks[2]) }
                        } else {
                            WindOut::BadDirection { raw: s }
                        }
                    } else {
                        WindOut::Value { speed, dir: Option::None }
                    }
                },
            }
        }
    }
}

/// Any line whose first token is the literal zero and whose second token
/// is the expected unit parses as a calm reading, whatever direction
/// token follows.
pub proof fn lemma_zero_wind(s: Seq<u8>, want_direction: bool)
    requires
        tokens_of(s).len() >= 2,
        tokens_of(s)[0] == seq![48u8],
        tokens_of(s)[1] == kmh_lit(),
    ensures
        wind_outcome(s, want_direction) == (WindOut::Value {
            speed: 0u64,
            dir: Option::<i64>::None,
        }),
{
    if s == calm_lit() {
        assert(forall|i: int| 0 <= i < calm_lit().len() ==> !crate::text::is_ws(calm_lit()[i]));
        crate::text::lemma_token_prefix_range(calm_lit(), 0, calm_lit().len() as int);
        assert(calm_lit().skip(0) =~= calm_lit());
        assert(tokens_of(calm_lit())[0] == calm_lit());
        assert(false);
    } else {
        let z = seq![48u8];
        assert(all_digits(z));
        assert(z.drop_first() =~= Seq::<u8>::empty());
        assert(crate::text::strip_zeros(z) =~= Seq::<u8>::empty()) by {
            reveal_with_fuel(crate::text::strip_zeros, 3);
            assert(z.drop_first() =~= Seq::<u8>::empty());
        }
        assert(digits_val(z) == 0) by {
            reveal_with_fuel(crate::text::digits_val, 3);
            assert(z.drop_last() =~= Seq::<u8>::empty());
        }
        assert(u64_of_digits(z) == Option::Some(0u64));
    }
}

/// A parsed wind line never reports a direction for a calm wind.
pub proof fn lemma_wind_value_wf(s: Seq<u8>, want_direction: bool)
    ensures
        match wind_outcome(s, want_direction) {
            WindOut::Value { speed, dir } => dir is Some ==> speed > 0,
            _ => true,
        },
{
}

/// Parse one wind line into `(speed km/h, direction millidegrees)`.
pub fn parse_wind(line: &[u8], want_direction: bool) -> (r: Result<
    (u64, Option<i64>),
    ParseError,
>)
    ensures
        match wind_outcome(line@, want_direction) {
            WindOut::Value { speed, dir } => r == Result::<(u64, Option<i64>), ParseError>::Ok(
                (speed, dir),
            ),
            WindOut::BadUnit { raw } => r matches Result::Err(e) && e.kind
                == ParseErrorKind::WrongUnit && e.raw@ == raw,
            WindOut::BadSpeed { raw } => r matches Result::Err(e) && e.kind
                == ParseErrorKind::BadSpeed && e.raw@ == raw,
            WindOut::BadDirection { raw } => r matches Result::Err(e) && e.kind
                == ParseErrorKind::BadDirection && e.raw@ == raw,
        },
{
    let calm: Vec<u8> = vec![67u8, 97u8, 108u8, 109u8, 97u8];
    if bytes_eq(line, calm.as_slice()) {
        return Ok((0, None));
    }
    let toks = tokenize(line);
    if toks.len() < 2 {
        return Err(ParseError { kind: ParseErrorKind::WrongUnit, raw: slice_owned(line) });
    }
    let unit: Vec<u8> = vec![107u8, 109u8, 47u8, 104u8];
    if !bytes_eq(toks[1].as_slice(), unit.as_slice()) {
        let raw = slice_owned(toks[1].as_slice());
        return Err(ParseError { kind: ParseErrorKind::WrongUnit, raw });
    }
    let speed = match parse_u64(toks[0].as_slice()) {
        Option::Some(v) => v,
        Option::None => {
            return Err(ParseError { kind: ParseErrorKind::BadSpeed, raw: slice_owned(line) });
        },
    };
    if want_direction && speed != 0 {
        if toks.len() >= 3 {
            match wind_direction_to_degrees(toks[2].as_slice()) {
                Option::Some(d) => Ok((speed, Some(d))),
                Option::None => Err(
                    ParseError { kind: ParseErrorKind::BadDirection, raw: slice_owned(line) },
                ),
            }
        } else {
            Err(ParseError { kind: ParseErrorKind::BadDirection, raw: slice_owned(line) })
        }
    } else {
        Ok((speed, None))
    }
}

/// Copy of a whole slice as an owned vector.
pub fn slice_owned(s: &[u8]) -> (r: Vec<u8>)
    ensures
        r@ == s@,
{
    let r = subrange_vec(s, 0, s.len());
    proof {
        assert(s@.subrange(0, s@.len() as int) =~= s@);
    }
    r
}

// ---------------------------------------------------------------------------
// temperature
// ---------------------------------------------------------------------------
/// The degrees-Celsius field separator as it actually appears in the
/// decoded page: the source's legacy-encoding mismatch leaves one stray
/// byte before the degree sign, matched literally.
pub open spec fn temp_sep() -> Seq<u8> {
    seq![195u8, 130u8, 194u8, 176u8, 67u8]
}

/// Non-overlapping occurrences of the separator, leftmost first.
pub open spec fn count_sep(s: Seq<u8>) -> nat
    decreases s.len(),
{
    if s.len() < 5 {
        0
    } else if starts_with(s, temp_sep()) {
        1 + count_sep(s.skip(5))
    } else {
        count_sep(s.drop_first())
    }
}

/// Index of the first occurrence of the separator.
pub open spec fn find_sep(s: Seq<u8>) -> Option<int>
    decreases s.len(),
{
    if s.len() < 5 {
        Option::None
    } else if starts_with(s, temp_sep()) {
        Option::Some(0)
    } else {
        match find_sep(s.drop_first()) {
            Option::None => Option::None,
            Option::Some(i) => Option::Some(i + 1),
        }
    }
}

/// `s` with every decimal comma replaced by a decimal point.
pub open spec fn commas_to_points(s: Seq<u8>) -> Seq<u8> {
    Seq::new(s.len(), |i: int| if s[i] == 44u8 {
        46u8
    } else {
        s[i]
    })
}

pub enum TempOut {
    Value { millideg: i64 },
    BadFormat { raw: Seq<u8> },
    BadValue { raw: Seq<u8> },
}

/// The temperature grammar: the separator must occur exactly twice; the
/// text before its first occurrence, decimal comma replaced, is the value.
pub open spec fn temp_outcome(s: Seq<u8>) -> TempOut {
    if count_sep(s) == 2 {
        match find_sep(s) {
            Option::None => TempOut::BadFormat { raw: s },
            Option::Some(d) => {
                let lit = commas_to_points(s.subrange(0, d));
                match scaled_of(lit, 3) {
                    Option::Some(v) => TempOut::Value { millideg: v },
                    Option::None => TempOut::BadValue { raw: s.subrange(0, d) },
                }
            },
        }
    } else {
        TempOut::BadFormat { raw: s }
    }
}

/// Whether the separator occurs at position `i` of `s`.
pub open spec fn sep_at(s: Seq<u8>, i: int) -> bool {
    0 <= i && i + 5 <= s.len() && s.subrange(i, i + 5) == temp_sep()
}

proof fn lemma_sep_skip(s: Seq<u8>, i: int)
    requires
        0 <= i <= s.len(),
    ensures
        starts_with(s.skip(i), temp_sep()) == sep_at(s, i),
{
    if i + 5 <= s.len() {
        assert(s.skip(i).subrange(0, 5) =~= s.subrange(i, i + 5));
    }
}

proof fn lemma_sep_shift(s: Seq<u8>, k: int)
    requires
        s.len() > 0,
        0 <= k,
    ensures
        sep_at(s.drop_first(), k) == sep_at(s, k + 1),
{
    if k + 6 <= s.len() {
        assert(s.drop_first().subrange(k, k + 5) =~= s.subrange(k + 1, k + 6));
    }
}

proof fn lemma_find_sep_at(s: Seq<u8>, i: int)
    requires
        0 <= i <= s.len(),
        forall|k: int| 0 <= k < i ==> !sep_at(s, k),
        i == s.len() || sep_at(s, i),
    ensures
        i < s.len() ==> find_sep(s) == Option::Some(i),
        i == s.len() ==> find_sep(s) is None,
    decreases s.len(),
{
    lemma_sep_skip(s, 0);
    if s.len() < 5 {
        // a separator cannot fit, so the requirements force i == s.len()
    } else if i == 0 {
        // sep_at(s, 0) holds, so find_sep(s) unfolds to Some(0)
    } else {
        assert(!sep_at(s, 0));
        assert forall|k: int| 0 <= k < i - 1 implies !sep_at(s.drop_first(), k) by {
            lemma_sep_shift(s, k);
        }
        if i < s.len() {
            lemma_sep_shift(s, i - 1);
        }
        lemma_find_sep_at(s.drop_first(), i - 1);
    }
}

fn sep_at_exec(s: &[u8], i: usize) -> (r: bool)
    requires
        i <= s@.len(),
    ensures
        r == sep_at(s@, i as int),
{
    if s.len() < 5 || i > s.len() - 5 {
        return false;
    }
    let seg = subrange_vec(s, i, i + 5);
    let sep: Vec<u8> = vec![195u8, 130u8, 194u8, 176u8, 67u8];
    bytes_eq(seg.as_slice(), sep.as_slice())
}

fn find_sep_exec(s: &[u8]) -> (r: Option<usize>)
    ensures
        match r {
            Option::Some(i) => find_sep(s@) == Option::Some(i as int) && i + 5 <= s@.len(),
            Option::None => find_sep(s@) is None,
        },
{
    let mut i: usize = 0;
    while i < s.len()
        invariant
            0 <= i <= s@.len(),
            forall|k: int| 0 <= k < i ==> !sep_at(s@, k),
        decreases s@.len() - i,
    {
        if sep_at_exec(s, i) {
            proof {
                lemma_find_sep_at(s@, i as int);
            }
            return Some(i);
        }
        i = i + 1;
    }
    proof {
        lemma_find_sep_at(s@, i as int);
    }
    None
}

fn count_sep_exec(s: &[u8]) -> (r: u64)
    ensures
        r == count_sep(s@),
{
    let mut i: usize = 0;
    let mut cnt: u64 = 0;
    proof {
        assert(s@.skip(0) =~= s@);
    }
    while i < s.len()
        invariant
            0 <= i <= s@.len(),
            cnt <= i,
            cnt + count_sep(s@.skip(i as int)) == count_sep(s@),
        decreases s@.len() - i,
    {
        proof {
            lemma_sep_skip(s@, i as int);
        }
        if sep_at_exec(s, i) {
            proof {
                assert(s@.skip(i as int).skip(5) =~= s@.skip(i + 5));
            }
            cnt = cnt + 1;
            i = i + 5;
        } else {
            proof {
                if s@.skip(i as int).len() >= 5 {
                    assert(s@.skip(i as int).drop_first() =~= s@.skip(i + 1));
                } else {
                    assert(count_sep(s@.skip(i as int)) == 0);
                    assert(s@.skip(i as int).drop_first() =~= s@.skip(i + 1));
                    assert(count_sep(s@.skip(i + 1)) == 0);
                }
            }
            i = i + 1;
        }
    }
    proof {
        assert(s@.skip(i as int) =~= Seq::<u8>::empty());
    }
    cnt
}

/// Parse one temperature line into millidegrees Celsius.
pub fn parse_temperature(line: &[u8]) -> (r: Result<i64, ParseError>)
    ensures
        match temp_outcome(line@) {
            TempOut::Value { millideg } => r == Result::<i64, ParseError>::Ok(millideg),
            TempOut::BadFormat { raw } => r matches Result::Err(e) && e.kind
                == ParseErrorKind::BadTemperatureFormat && e.raw@ == raw,
            TempOut::BadValue { raw } => r matches Result::Err(e) && e.kind
                == ParseErrorKind::BadTemperatureValue && e.raw@ == raw,
        },
{
    let cnt = count_sep_exec(line);
    if cnt != 2 {
        return Err(
            ParseError { kind: ParseErrorKind::BadTemperatureFormat, raw: slice_owned(line) },
        );
    }
    match find_sep_exec(line) {
        Option::None => Err(
            ParseError { kind: ParseErrorKind::BadTemperatureFormat, raw: slice_owned(line) },
        ),
        Option::Some(d) => {
            let pre = subrange_vec(line, 0, d);
            let mut lit: Vec<u8> = Vec::new();
            let mut i: usize = 0;
            while i < pre.len()
                invariant
                    0 <= i <= pre@.len(),
                    lit@ =~= commas_to_points(pre@).subrange(0, i as int),
                decreases pre@.len() - i,
            {
                let b = pre[i];
                if b == 44 {
                    lit.push(46);
                } else {
                    lit.push(b);
                }
                proof {
                    assert(commas_to_points(pre@).subrange(0, i + 1) =~= commas_to_points(
                        pre@,
                    ).subrange(0, i as int).push(commas_to_points(pre@)[i as int]));
                }
                i = i + 1;
            }
            proof {
                assert(commas_to_points(pre@).subrange(0, pre@.len() as int) =~= commas_to_points(
                    pre@,
                ));
            }
            match parse_scaled(lit.as_slice(), 3) {
                Option::Some(v) => Ok(v),
                Option::None => Err(
                    ParseError { kind: ParseErrorKind::BadTemperatureValue, raw: pre },
                ),
            }
        },
    }
}

// ---------------------------------------------------------------------------
// elevation
// ---------------------------------------------------------------------------
pub enum ElevOut {
    Value { meters: i64 },
    Bad { raw: Seq<u8> },
}

/// The elevation grammar: `(` ... ` m)` around a trimmed integer.
pub open spec fn elev_outcome(s: Seq<u8>) -> ElevOut {
    if s.len() >= 4 && s[0] == 40u8 && ends_with(s, seq![32u8, 109u8, 41u8]) {
        match i64_of_ascii(trimmed(s.subrange(1, s.len() - 3))) {
            Option::Some(v) => ElevOut::Value { meters: v },
            Option::None => ElevOut::Bad { raw: s },
        }
    } else {
        ElevOut::Bad { raw: s }
    }
}

/// Parse one elevation line into whole meters.
pub fn parse_elevation(line: &[u8]) -> (r: Result<i64, ParseError>)
    ensures
        match elev_outcome(line@) {
            ElevOut::Value { meters } => r == Result::<i64, ParseError>::Ok(meters),
            ElevOut::Bad { raw } => r matches Result::Err(e) && e.kind
                == ParseErrorKind::BadElevation && e.raw@ == raw,
        },
{
    let suffix: Vec<u8> = vec![32u8, 109u8, 41u8];
    if line.len() < 4 || !(line[0] == 40) || !ends_with_exec(line, suffix.as_slice()) {
        return Err(ParseError { kind: ParseErrorKind::BadElevation, raw: slice_owned(line) });
    }
    let inner = subrange_vec(line, 1, line.len() - 3);
    let t = trim_exec(inner.as_slice());
    match parse_i64(t.as_slice()) {
        Option::Some(v) => Ok(v),
        Option::None => Err(
            ParseError { kind: ParseErrorKind::BadElevation, raw: slice_owned(line) },
        ),
    }
}

// ---------------------------------------------------------------------------
// last-update template and time of day
// ---------------------------------------------------------------------------
/// The fixed prefix of the last-update row.
pub open spec fn update_prefix() -> Seq<u8> {
    seq![65u8, 99u8, 116u8, 117u8, 97u8, 108u8, 105u8, 122u8, 97u8, 100u8, 111u8, 58u8]
}

/// The fixed suffix of the last-update row.
pub open spec fn update_suffix() -> Seq<u8> {
    seq![85u8, 84u8, 67u8]  // "UTC"
}

/// A wall-clock `HH:MM`: one or two digits, a colon, one or two digits,
/// hour below 24 and minute below 60.
pub open spec fn hhmm_of(s: Seq<u8>) -> Option<(u8, u8)> {
    match find_byte(s, 58u8) {
        Option::None => Option::None,
        Option::Some(d) => {
            let hp = s.subrange(0, d);
            let mp = s.subrange(d + 1, s.len() as int);
            if 1 <= hp.len() <= 2 && 1 <= mp.len() <= 2 && all_digits(hp) && all_digits(mp)
                && digits_val(hp) <= 23 && digits_val(mp) <= 59 {
                Option::Some(((digits_val(hp) as u8), (digits_val(mp) as u8)))
            } else {
                Option::None
            }
        },
    }
}

pub enum UpdateOut {
    Value { hour: u8, minute: u8 },
    BadTemplate { raw: Seq<u8> },
    BadTime { raw: Seq<u8> },
}

/// The last-update grammar: the fixed prefix and suffix around a trimmed
/// `HH:MM` time of day.
pub open spec fn update_outcome(s: Seq<u8>) -> UpdateOut {
    if s.len() >= 15 && starts_with(s, update_prefix()) && ends_with(s, update_suffix()) {
        let inner = trimmed(s.subrange(12, s.len() - 3));
        match hhmm_of(inner) {
            Option::Some((h, m)) => UpdateOut::Value { hour: h, minute: m },
            Option::None => UpdateOut::BadTime { raw: inner },
        }
    } else {
        UpdateOut::BadTemplate { raw: s }
    }
}

/// Parse one last-update line into the `(hour, minute)` it reports.
pub fn parse_last_update(line: &[u8]) -> (r: Result<(u8, u8), ParseError>)
    ensures
        match update_outcome(line@) {
            UpdateOut::Value { hour, minute } => r == Result::<(u8, u8), ParseError>::Ok(
                (hour, minute),
            ),
            UpdateOut::BadTemplate { raw } => r matches Result::Err(e) && e.kind
                == ParseErrorKind::BadTemplate && e.raw@ == raw,
            UpdateOut::BadTime { raw } => r matches Result::Err(e) && e.kind
                == ParseErrorKind::BadTime && e.raw@ == raw,
        },
{
    let prefix: Vec<u8> = vec![
        65u8, 99u8, 116u8, 117u8, 97u8, 108u8, 105u8, 122u8, 97u8, 100u8, 111u8, 58u8,
    ];
    let suffix: Vec<u8> = vec![85u8, 84u8, 67u8];
    if line.len() < 15 || !starts_with_exec(line, prefix.as_slice()) || !ends_with_exec(
        line,
        suffix.as_slice(),
    ) {
        return Err(ParseError { kind: ParseErrorKind::BadTemplate, raw: slice_owned(line) });
    }
    let mid = subrange_vec(line, 12, line.len() - 3);
    let inner = trim_exec(mid.as_slice());
    match parse_hhmm(inner.as_slice()) {
        Option::Some((h, m)) => Ok((h, m)),
        Option::None => Err(ParseError { kind: ParseErrorKind::BadTime, raw: inner }),
    }
}

/// Parse a `HH:MM` time of day.
pub fn parse_hhmm(s: &[u8]) -> (r: Option<(u8, u8)>)
    ensures
        r == hhmm_of(s@),
{
    match find_byte_exec(s, 58) {
        Option::None => None,
        Option::Some(d) => {
            let n = s.len();
            let hp = subrange_vec(s, 0, d);
            let mp = subrange_vec(s, d + 1, n);
            if hp.len() < 1 || hp.len() > 2 || mp.len() < 1 || mp.len() > 2 {
                return None;
            }
            if !all_digits_exec(hp.as_slice()) || !all_digits_exec(mp.as_slice()) {
                return None;
            }
            proof {
                crate::text::lemma_strip_zeros_val(hp@);
                crate::text::lemma_strip_zeros_val(mp@);
                if all_digits(hp@) {
                    crate::text::lemma_digits_val_bound(hp@);
                }
                if all_digits(mp@) {
                    crate::text::lemma_digits_val_bound(mp@);
                }
                assert(crate::text::pow10(2) == 100) by {
                    reveal_with_fuel(crate::text::pow10, 3);
                }
            }
            let h = match parse_u64(hp.as_slice()) {
                Option::Some(v) => v,
                Option::None => {
                    return None;
                },
            };
            let m = match parse_u64(mp.as_slice()) {
                Option::Some(v) => v,
                Option::None => {
                    return None;
                },
            };
            if h <= 23 && m <= 59 {
                Some((h as u8, m as u8))
            } else {
                None
            }
        },
    }
}

} // verus!
