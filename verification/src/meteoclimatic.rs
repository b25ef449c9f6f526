//! The Tooltip-Map source adapter: two passes over one parsed document.
//! Pass 1 discovers stations from the circular hotspots of the designated
//! image map; pass 2 enriches them from the tooltip panels, joined by the
//! link target each panel reconstructs, and emits one measurement per
//! enriched station. A failure inside one item is recorded and skipped;
//! only an absent map container or a duplicated link target aborts the
//! whole fetch.

use vstd::prelude::*;

use crate::codec::{decode_entities, decode_latin9, md5_hex, md5_hex_of};
use crate::common::{
    FetchError, ItemError, ItemErrorKind, Measurement, ParseError, ParseErrorKind, Station,
    measurement_wf,
};
use crate::fields::{
    ElevOut, TempOut, UpdateOut, WindOut, elev_outcome, parse_elevation, parse_last_update,
    parse_temperature, parse_wind, temp_outcome, update_outcome, wind_outcome,
};
use crate::geo::{MAX_PIXEL, project, project_lat, project_long};
use crate::scrape::{
    attr_bytes, child_text_at, parse_document, parse_selector, select_all, select_within,
    text_bytes,
};
use crate::fields::slice_owned;
use crate::text::{
    bytes_eq, find_byte, find_byte_exec, i64_of_ascii, parse_i64, subrange_vec, trim_exec,
};
use crate::time_utc::{UtcStamp, iso_minute, format_iso_minute, resolve_time_of_day, resolved,
    stamp_wf};

verus! {

/// The site origin every relative hotspot link is resolved against.
pub open spec fn site_prefix() -> Seq<u8> {
    seq![
        104u8, 116u8, 116u8, 112u8, 115u8, 58u8, 47u8, 47u8, 119u8, 119u8, 119u8, 46u8, 109u8,
        101u8, 116u8, 101u8, 111u8, 99u8, 108u8, 105u8, 109u8, 97u8, 116u8, 105u8, 99u8, 46u8,
        110u8, 101u8, 116u8,
    ]
}

/// The relative link a panel's identifier reconstructs.
pub open spec fn perfil_prefix() -> Seq<u8> {
    seq![47u8, 112u8, 101u8, 114u8, 102u8, 105u8, 108u8, 47u8]
}

/// The only hotspot shape that carries a station.
pub open spec fn circle_lit() -> Seq<u8> {
    seq![99u8, 105u8, 114u8, 99u8, 108u8, 101u8]
}

/// One image-map hotspot, as extracted from the document.
pub struct RawArea {
    pub shape: Vec<u8>,
    pub href: Option<Vec<u8>>,
    pub coords: Option<Vec<u8>>,
}

/// One tooltip panel, as extracted from the document: its join
/// identifier, assembled header name, elevation note, and the text of its
/// table rows in order.
pub struct RawPanel {
    pub vendor_id: Option<Vec<u8>>,
    pub name: Option<Vec<u8>>,
    pub elevation_line: Option<Vec<u8>>,
    pub rows: Vec<Vec<u8>>,
}

// ---------------------------------------------------------------------------
// pass 1: station discovery
// ---------------------------------------------------------------------------
/// A discovered station before enrichment.
pub struct AreaAdd {
    pub href: Seq<u8>,
    pub x: i64,
    pub y: i64,
}

/// The two pixel coordinates at the head of a hotspot's `coords`
/// attribute: integer column and row, comma-separated, within the
/// accepted pixel range.
pub open spec fn coords_xy(c: Seq<u8>) -> Option<(i64, i64)> {
    match find_byte(c, 44u8) {
        Option::None => Option::None,
        Option::Some(d) => {
            let xs = c.subrange(0, d);
            let rest = c.skip(d + 1);
            let ys = match find_byte(rest, 44u8) {
                Option::None => rest,
                Option::Some(e) => rest.subrange(0, e),
            };
            match (i64_of_ascii(xs), i64_of_ascii(ys)) {
                (Option::Some(x), Option::Some(y)) => {
                    if -MAX_PIXEL <= x <= MAX_PIXEL && -MAX_PIXEL <= y <= MAX_PIXEL {
                        Option::Some((x, y))
                    } else {
                        Option::None
                    }
                },
                _ => Option::None,
            }
        },
    }
}

/// The station a hotspot contributes, when it is a circle with a link
/// target and well-formed coordinates.
pub open spec fn area_add(a: RawArea) -> Option<AreaAdd> {
    if a.shape@ != circle_lit() {
        Option::None
    } else {
        match a.href {
            Option::None => Option::None,
            Option::Some(h) => match a.coords {
                Option::None => Option::None,
                Option::Some(c) => match coords_xy(c@) {
                    Option::None => Option::None,
                    Option::Some(xy) => Option::Some(AreaAdd { href: h@, x: xy.0, y: xy.1 }),
                },
            },
        }
    }
}

/// The item error a hotspot produces instead, if any; non-circular shapes
/// are skipped silently.
pub open spec fn area_fail(a: RawArea) -> Option<(Seq<u8>, ItemErrorKind)> {
    if a.shape@ != circle_lit() {
        Option::None
    } else {
        match a.href {
            Option::None => Option::Some((Seq::<u8>::empty(), ItemErrorKind::MissingHref)),
            Option::Some(h) => match a.coords {
                Option::None => Option::Some((h@, ItemErrorKind::MissingCoords)),
                Option::Some(c) => match coords_xy(c@) {
                    Option::None => Option::Some((h@, ItemErrorKind::BadCoords)),
                    Option::Some(xy) => Option::None,
                },
            },
        }
    }
}

/// Parse the two leading pixel coordinates of a `coords` attribute.
fn parse_coords(c: &[u8]) -> (r: Option<(i64, i64)>)
    ensures
        r == coords_xy(c@),
{
    let d = match find_byte_exec(c, 44) {
        Option::Some(d) => d,
        Option::None => {
            return None;
        },
    };
    let n = c.len();
    let xs = subrange_vec(c, 0, d);
    let rest = subrange_vec(c, d + 1, n);
    proof {
        assert(rest@ =~= c@.skip(d + 1));
    }
    let ys = match find_byte_exec(rest.as_slice(), 44) {
        Option::Some(e) => subrange_vec(rest.as_slice(), 0, e),
        Option::None => rest,
    };
    let x = match parse_i64(xs.as_slice()) {
        Option::Some(x) => x,
        Option::None => {
            return None;
        },
    };
    let y = match parse_i64(ys.as_slice()) {
        Option::Some(y) => y,
        Option::None => {
            return None;
        },
    };
    if -MAX_PIXEL <= x && x <= MAX_PIXEL && -MAX_PIXEL <= y && y <= MAX_PIXEL {
        Some((x, y))
    } else {
        None
    }
}

/// What pass 1 records for one station entry.
pub open spec fn entry_ok(key: Vec<u8>, st: Station) -> bool {
    &&& st.url@ == site_prefix() + key@
    &&& st.id@ == md5_hex_of(st.url@)
    &&& st.name@.len() == 0
    &&& st.elevation == 0
    &&& !st.available
}

/// Consume one hotspot: a new station entry, a silent skip, or an item
/// error.
fn consume_area(a: &RawArea) -> (r: Result<Option<(Vec<u8>, Station)>, ItemError>)
    ensures
        match area_add(*a) {
            Option::Some(d) => r matches Ok(o) && o matches Some(p) && p.0@ == d.href && entry_ok(
                p.0,
                p.1,
            ) && p.1.long == project_long(d.x as int) && p.1.lat == project_lat(d.y as int),
            Option::None => match area_fail(*a) {
                Option::Some(f) => r matches Err(e) && e.subject@ == f.0 && e.kind == f.1,
                Option::None => r matches Ok(o) && o is None,
            },
        },
{
    let circle: Vec<u8> = vec![99u8, 105u8, 114u8, 99u8, 108u8, 101u8];
    if !bytes_eq(a.shape.as_slice(), circle.as_slice()) {
        return Ok(None);
    }
    let href = match &a.href {
        Option::Some(h) => h,
        Option::None => {
            return Err(ItemError { subject: Vec::new(), kind: ItemErrorKind::MissingHref });
        },
    };
    let coords = match &a.coords {
        Option::Some(c) => c,
        Option::None => {
            return Err(
                ItemError { subject: slice_owned(href.as_slice()), kind: ItemErrorKind::MissingCoords },
            );
        },
    };
    let (x, y) = match parse_coords(coords.as_slice()) {
        Option::Some(xy) => xy,
        Option::None => {
            return Err(
                ItemError { subject: slice_owned(href.as_slice()), kind: ItemErrorKind::BadCoords },
            );
        },
    };
    let mut url: Vec<u8> = vec![
        104u8, 116u8, 116u8, 112u8, 115u8, 58u8, 47u8, 47u8, 119u8, 119u8, 119u8, 46u8, 109u8,
        101u8, 116u8, 101u8, 111u8, 99u8, 108u8, 105u8, 109u8, 97u8, 116u8, 105u8, 99u8, 46u8,
        110u8, 101u8, 116u8,
    ];
    proof {
        assert(url@ =~= site_prefix());
    }
    let mut tail = slice_owned(href.as_slice());
    url.append(&mut tail);
    let id = md5_hex(url.as_slice());
    let (long, lat) = project(x, y);
    let st = Station {
        id,
        name: Vec::new(),
        elevation: 0,
        url,
        lat,
        long,
        available: false,
    };
    Ok(Some((slice_owned(href.as_slice()), st)))
}

/// First entry whose key equals `key`.
pub open spec fn find_key_spec(s: Seq<(Vec<u8>, Station)>, key: Seq<u8>) -> Option<int>
    decreases s.len(),
{
    if s.len() == 0 {
        Option::None
    } else if s[0].0@ == key {
        Option::Some(0)
    } else {
        match find_key_spec(s.drop_first(), key) {
            Option::None => Option::None,
            Option::Some(i) => Option::Some(i + 1),
        }
    }
}

proof fn lemma_find_key_at(s: Seq<(Vec<u8>, Station)>, key: Seq<u8>, i: int)
    requires
        0 <= i <= s.len(),
        forall|k: int| 0 <= k < i ==> s[k].0@ != key,
        i == s.len() || s[i].0@ == key,
    ensures
        i < s.len() ==> find_key_spec(s, key) == Option::Some(i),
        i == s.len() ==> find_key_spec(s, key) is None,
    decreases s.len(),
{
    if s.len() > 0 && s[0].0@ != key {
        lemma_find_key_at(s.drop_first(), key, i - 1);
    }
}

proof fn lemma_find_key_exists(s: Seq<(Vec<u8>, Station)>, key: Seq<u8>, k: int)
    requires
        0 <= k < s.len(),
        s[k].0@ == key,
    ensures
        find_key_spec(s, key) is Some,
    decreases s.len(),
{
    if s[0].0@ != key {
        lemma_find_key_exists(s.drop_first(), key, k - 1);
    }
}

fn find_key(s: &Vec<(Vec<u8>, Station)>, key: &[u8]) -> (r: Option<usize>)
    ensures
        match r {
            Option::Some(i) => find_key_spec(s@, key@) == Option::Some(i as int) && i < s@.len()
                && s@[i as int].0@ == key@,
            Option::None => find_key_spec(s@, key@) is None && forall|k: int|
                0 <= k < s@.len() ==> #[trigger] s@[k].0@ != key@,
        },
{
    let mut i: usize = 0;
    while i < s.len()
        invariant
            0 <= i <= s@.len(),
            forall|k: int| 0 <= k < i ==> s@[k].0@ != key@,
        decreases s@.len() - i,
    {
        if bytes_eq(s[i].0.as_slice(), key) {
            proof {
                lemma_find_key_at(s@, key@, i as int);
            }
            return Some(i);
        }
        i = i + 1;
    }
    proof {
        lemma_find_key_at(s@, key@, i as int);
    }
    None
}

/// Whether any of the first `n` hotspots contributes `href`.
pub open spec fn adds_href_before(areas: Seq<RawArea>, n: int, href: Seq<u8>) -> bool
    decreases n,
{
    if n <= 0 {
        false
    } else {
        adds_href_before(areas, n - 1, href) || (match area_add(areas[n - 1]) {
            Option::Some(d) => d.href == href,
            Option::None => false,
        })
    }
}

/// The link target of the first hotspot among the first `n` that repeats
/// an earlier hotspot's link target; `None` when all are distinct.
pub open spec fn first_dup_href(areas: Seq<RawArea>, n: int) -> Option<Seq<u8>>
    decreases n,
{
    if n <= 0 {
        Option::None
    } else {
        match first_dup_href(areas, n - 1) {
            Option::Some(h) => Option::Some(h),
            Option::None => match area_add(areas[n - 1]) {
                Option::Some(d) => if adds_href_before(areas, n - 1, d.href) {
                    Option::Some(d.href)
                } else {
                    Option::None
                },
                Option::None => Option::None,
            },
        }
    }
}

/// Indices, in order, of the hotspots among the first `n` that contribute
/// a station.
pub open spec fn add_indices(areas: Seq<RawArea>, n: int) -> Seq<int>
    decreases n,
{
    if n <= 0 {
        Seq::empty()
    } else {
        let pre = add_indices(areas, n - 1);
        if area_add(areas[n - 1]) is Some {
            pre.push(n - 1)
        } else {
            pre
        }
    }
}

/// Indices, in order, of the hotspots among the first `n` that are
/// recorded as item errors.
pub open spec fn fail_indices(areas: Seq<RawArea>, n: int) -> Seq<int>
    decreases n,
{
    if n <= 0 {
        Seq::empty()
    } else {
        let pre = fail_indices(areas, n - 1);
        if area_fail(areas[n - 1]) is Some {
            pre.push(n - 1)
        } else {
            pre
        }
    }
}

proof fn lemma_adds_before_intro(areas: Seq<RawArea>, n: int, a: int, href: Seq<u8>)
    requires
        0 <= a < n,
        match area_add(areas[a]) {
            Option::Some(d) => d.href == href,
            Option::None => false,
        },
    ensures
        adds_href_before(areas, n, href),
    decreases n,
{
    if a < n - 1 {
        lemma_adds_before_intro(areas, n - 1, a, href);
    }
}

proof fn lemma_adds_before_witness(areas: Seq<RawArea>, n: int, href: Seq<u8>) -> (a: int)
    requires
        adds_href_before(areas, n, href),
    ensures
        0 <= a < n && match area_add(areas[a]) {
            Option::Some(d) => d.href == href,
            Option::None => false,
        },
    decreases n,
{
    if adds_href_before(areas, n - 1, href) {
        lemma_adds_before_witness(areas, n - 1, href)
    } else {
        n - 1
    }
}

proof fn lemma_add_index_of(areas: Seq<RawArea>, n: int, a: int) -> (k: int)
    requires
        0 <= a < n,
        area_add(areas[a]) is Some,
    ensures
        0 <= k < add_indices(areas, n).len() && add_indices(areas, n)[k] == a,
    decreases n,
{
    if a == n - 1 {
        add_indices(areas, n - 1).len() as int
    } else {
        lemma_add_index_of(areas, n - 1, a)
    }
}

proof fn lemma_first_dup_mono(areas: Seq<RawArea>, n: int, m: int)
    requires
        0 <= n <= m,
        first_dup_href(areas, n) is Some,
    ensures
        first_dup_href(areas, m) == first_dup_href(areas, n),
    decreases m,
{
    if m > n {
        lemma_first_dup_mono(areas, n, m - 1);
    }
}

/// Pass 1 over all hotspots: the station map keyed by link target, in
/// first-contribution order, and the item errors that were skipped, in
/// order. The pass succeeds exactly when no two hotspots contribute the
/// same link target; the first repeated link target otherwise aborts the
/// whole fetch.
#[verifier::loop_isolation(false)]
#[verifier::rlimit(100)]
pub fn collect_stations(areas: &Vec<RawArea>) -> (r: Result<
    (Vec<(Vec<u8>, Station)>, Vec<ItemError>),
    FetchError,
>)
    ensures
        r matches Ok(out) ==> {
            &&& first_dup_href(areas@, areas@.len() as int) is None
            &&& out.0@.len() == add_indices(areas@, areas@.len() as int).len()
            &&& out.1@.len() == fail_indices(areas@, areas@.len() as int).len()
            &&& forall|k: int|
                #![trigger out.0@[k]]
                0 <= k < out.0@.len() ==> {
                    let gi = add_indices(areas@, areas@.len() as int)[k];
                    &&& 0 <= gi < areas@.len()
                    &&& match area_add(areas@[gi]) {
                        Option::Some(d) => out.0@[k].0@ == d.href && entry_ok(
                            out.0@[k].0,
                            out.0@[k].1,
                        ) && out.0@[k].1.long == project_long(d.x as int) && out.0@[k].1.lat
                            == project_lat(d.y as int),
                        Option::None => false,
                    }
                }
            &&& forall|k: int|
                #![trigger out.1@[k]]
                0 <= k < out.1@.len() ==> {
                    let gi = fail_indices(areas@, areas@.len() as int)[k];
                    &&& 0 <= gi < areas@.len()
                    &&& match area_fail(areas@[gi]) {
                        Option::Some(f) => out.1@[k].subject@ == f.0 && out.1@[k].kind == f.1,
                        Option::None => false,
                    }
                }
            &&& forall|k1: int, k2: int|
                0 <= k1 < k2 < out.0@.len() ==> out.0@[k1].0@ != out.0@[k2].0@
            &&& forall|a: int|
                0 <= a < areas@.len() ==> match area_add(#[trigger] areas@[a]) {
                    Option::Some(d) => find_key_spec(out.0@, d.href) is Some,
                    Option::None => true,
                }
        },
        r matches Err(e) ==> e matches FetchError::DuplicateStation { href } && first_dup_href(
            areas@,
            areas@.len() as int,
        ) == Option::Some(href@),
{
    let mut pairs: Vec<(Vec<u8>, Station)> = Vec::new();
    let mut errs: Vec<ItemError> = Vec::new();
    let mut i: usize = 0;
    // ghost mirrors of the contributing and error index sequences
    let ghost mut ai: Seq<int> = Seq::empty();
    let ghost mut fi: Seq<int> = Seq::empty();
    while i < areas.len()
        invariant
            0 <= i <= areas@.len(),
            ai == add_indices(areas@, i as int),
            fi == fail_indices(areas@, i as int),
            pairs@.len() == ai.len(),
            errs@.len() == fi.len(),
            first_dup_href(areas@, i as int) is None,
            forall|k: int|
                #![trigger ai[k]]
                0 <= k < ai.len() ==> {
                    &&& 0 <= ai[k] < i
                    &&& match area_add(areas@[ai[k]]) {
                        Option::Some(d) => pairs@[k].0@ == d.href && entry_ok(
                            pairs@[k].0,
                            pairs@[k].1,
                        ) && pairs@[k].1.long == project_long(d.x as int) && pairs@[k].1.lat
                            == project_lat(d.y as int),
                        Option::None => false,
                    }
                },
            forall|k: int|
                #![trigger fi[k]]
                0 <= k < fi.len() ==> {
                    &&& 0 <= fi[k] < i
                    &&& match area_fail(areas@[fi[k]]) {
                        Option::Some(f) => errs@[k].subject@ == f.0 && errs@[k].kind == f.1,
                        Option::None => false,
                    }
                },
            forall|k1: int, k2: int|
                0 <= k1 < k2 < pairs@.len() ==> pairs@[k1].0@ != pairs@[k2].0@,
        decreases areas@.len() - i,
    {
        match consume_area(&areas[i]) {
            Ok(Option::Some((key, st))) => {
                match find_key(&pairs, key.as_slice()) {
                    Option::Some(k0) => {
                        proof {
                            // the matched entry's hotspot already contributed this href
                            assert(ai[k0 as int] < i && match area_add(areas@[ai[k0 as int]]) {
                                Option::Some(d) => d.href == key@,
                                Option::None => false,
                            });
                            lemma_adds_before_intro(areas@, i as int, ai[k0 as int], key@);
                            assert(first_dup_href(areas@, i + 1) == Option::Some(key@));
                            lemma_first_dup_mono(areas@, i + 1, areas@.len() as int);
                        }
                        return Err(FetchError::DuplicateStation { href: key });
                    },
                    Option::None => {
                        let ghost gkey = key@;
                        let ghost old_pairs = pairs@;
                        let ghost old_ai = ai;
                        pairs.push((key, st));
                        proof {
                            assert(forall|k: int|
                                0 <= k < old_pairs.len() ==> pairs@[k] == #[trigger] old_pairs[
                                k]);
                            let last = pairs@.len() - 1;
                            assert(pairs@[last].0@ == gkey);
                            ai = ai.push(i as int);
                            assert forall|k: int| #![trigger ai[k]] 0 <= k < ai.len() implies {
                                &&& 0 <= ai[k] < i + 1
                                &&& match area_add(areas@[ai[k]]) {
                                    Option::Some(d) => pairs@[k].0@ == d.href && entry_ok(
                                        pairs@[k].0,
                                        pairs@[k].1,
                                    ) && pairs@[k].1.long == project_long(d.x as int)
                                        && pairs@[k].1.lat == project_lat(d.y as int),
                                    Option::None => false,
                                }
                            } by {
                                if k < last {
                                    assert(pairs@[k] == old_pairs[k]);
                                    assert(ai[k] == old_ai[k]);
                                } else {
                                    assert(ai[k] == i as int);
                                }
                            }
                            // no earlier hotspot contributed this href, so no
                            // duplicate arises at this step
                            if adds_href_before(areas@, i as int, gkey) {
                                let a = lemma_adds_before_witness(areas@, i as int, gkey);
                                let k = lemma_add_index_of(areas@, i as int, a);
                                assert(old_pairs[k].0@ == gkey);
                                assert(false);
                            }
                        }
                    },
                }
            },
            Ok(Option::None) => {},
            Err(e) => {
                proof {
                    fi = fi.push(i as int);
                }
                let ghost old_errs = errs@;
                let ghost old_fi_len = fi.len() - 1;
                errs.push(e);
                proof {
                    assert forall|k: int| #![trigger fi[k]] 0 <= k < fi.len() implies {
                        &&& 0 <= fi[k] < i + 1
                        &&& match area_fail(areas@[fi[k]]) {
                            Option::Some(f) => errs@[k].subject@ == f.0 && errs@[k].kind == f.1,
                            Option::None => false,
                        }
                    } by {
                        if k < old_fi_len {
                            assert(errs@[k] == old_errs[k]);
                        } else {
                            assert(fi[k] == i as int);
                        }
                    }
                }
            },
        }
        i = i + 1;
    }
    proof {
        assert forall|a: int| 0 <= a < areas@.len() implies match area_add(
            #[trigger] areas@[a],
        ) {
            Option::Some(d) => find_key_spec(pairs@, d.href) is Some,
            Option::None => true,
        } by {
            match area_add(areas@[a]) {
                Option::Some(d) => {
                    let k = lemma_add_index_of(areas@, areas@.len() as int, a);
                    assert(pairs@[k].0@ == d.href);
                    lemma_find_key_exists(pairs@, d.href, k);
                },
                Option::None => {},
            }
        }
        assert forall|k: int| #![trigger pairs@[k]] 0 <= k < pairs@.len() implies {
            let gi = add_indices(areas@, areas@.len() as int)[k];
            &&& 0 <= gi < areas@.len()
            &&& match area_add(areas@[gi]) {
                Option::Some(d) => pairs@[k].0@ == d.href && entry_ok(pairs@[k].0, pairs@[k].1)
                    && pairs@[k].1.long == project_long(d.x as int) && pairs@[k].1.lat
                    == project_lat(d.y as int),
                Option::None => false,
            }
        } by {
            assert(add_indices(areas@, areas@.len() as int)[k] == ai[k]);
        }
        assert forall|k: int| #![trigger errs@[k]] 0 <= k < errs@.len() implies {
            let gi = fail_indices(areas@, areas@.len() as int)[k];
            &&& 0 <= gi < areas@.len()
            &&& match area_fail(areas@[gi]) {
                Option::Some(f) => errs@[k].subject@ == f.0 && errs@[k].kind == f.1,
                Option::None => false,
            }
        } by {
            assert(fail_indices(areas@, areas@.len() as int)[k] == fi[k]);
        }
    }
    Ok((pairs, errs))
}

// ---------------------------------------------------------------------------
// pass 2: enrichment and measurement
// ---------------------------------------------------------------------------
/// The fields of the measurement a panel yields.
pub struct MeasSpec {
    pub wind: u64,
    pub dir: Option<i64>,
    pub gusts: Option<u64>,
    pub temp: Option<i64>,
    pub last: Seq<u8>,
}

/// A per-panel failure, at specification level.
pub enum FailKind {
    MissingPanelId,
    UnknownStation,
    DuplicatePanel,
    MissingName,
    MissingElevation,
    MissingRow,
    Field { kind: ParseErrorKind, raw: Seq<u8> },
}

pub struct FailSpec {
    pub subject: Seq<u8>,
    pub kind: FailKind,
}

/// Whether an emitted item error matches a specification-level failure.
pub open spec fn fail_matches(e: ItemError, f: FailSpec) -> bool {
    e.subject@ == f.subject && match f.kind {
        FailKind::MissingPanelId => e.kind == ItemErrorKind::MissingPanelId,
        FailKind::UnknownStation => e.kind == ItemErrorKind::UnknownStation,
        FailKind::DuplicatePanel => e.kind == ItemErrorKind::DuplicatePanel,
        FailKind::MissingName => e.kind == ItemErrorKind::MissingName,
        FailKind::MissingElevation => e.kind == ItemErrorKind::MissingElevation,
        FailKind::MissingRow => e.kind == ItemErrorKind::MissingRow,
        FailKind::Field { kind, raw } => match e.kind {
            ItemErrorKind::Field { err } => err.kind == kind && err.raw@ == raw,
            _ => false,
        },
    }
}

pub enum PanelOut {
    Meas { k: int, name: Seq<u8>, elevation: i64, m: MeasSpec },
    Fail { f: FailSpec },
}

/// What one panel decides against the station map and the current UTC
/// instant: which station it enriches and the measurement it emits, or
/// the item error that excludes it.
pub open spec fn panel_outcome(p: RawPanel, now: UtcStamp, stations: Seq<(Vec<u8>, Station)>)
    -> PanelOut {
    match p.vendor_id {
        Option::None => PanelOut::Fail {
            f: FailSpec { subject: Seq::<u8>::empty(), kind: FailKind::MissingPanelId },
        },
        Option::Some(vid) => {
            let href = perfil_prefix() + vid@;
            match find_key_spec(stations, href) {
                Option::None => PanelOut::Fail {
                    f: FailSpec { subject: vid@, kind: FailKind::UnknownStation },
                },
                Option::Some(k) => {
                    if stations[k].1.available {
                        PanelOut::Fail {
                            f: FailSpec { subject: vid@, kind: FailKind::DuplicatePanel },
                        }
                    } else {
                        panel_fields(p, now, k, vid@)
                    }
                },
            }
        },
    }
}

/// The field-parsing stage of a panel, once its station (index `k`) is
/// resolved.
pub open spec fn panel_fields(p: RawPanel, now: UtcStamp, k: int, vid: Seq<u8>) -> PanelOut {
    match p.name {
        Option::None => PanelOut::Fail {
            f: FailSpec { subject: vid, kind: FailKind::MissingName },
        },
        Option::Some(nm) => match p.elevation_line {
            Option::None => PanelOut::Fail {
                f: FailSpec { subject: vid, kind: FailKind::MissingElevation },
            },
            Option::Some(el) => match elev_outcome(el@) {
                ElevOut::Bad { raw } => PanelOut::Fail {
                    f: FailSpec {
                        subject: vid,
                        kind: FailKind::Field { kind: ParseErrorKind::BadElevation, raw },
                    },
                },
                ElevOut::Value { meters } => {
                    if p.rows@.len() < 2 {
                        PanelOut::Fail {
                            f: FailSpec { subject: vid, kind: FailKind::MissingRow },
                        }
                    } else {
                        match update_outcome(p.rows@[1]@) {
                            UpdateOut::BadTemplate { raw } => PanelOut::Fail {
                                f: FailSpec {
                                    subject: vid,
                                    kind: FailKind::Field {
                                        kind: ParseErrorKind::BadTemplate,
                                        raw,
                                    },
                                },
                            },
                            UpdateOut::BadTime { raw } => PanelOut::Fail {
                                f: FailSpec {
                                    subject: vid,
                                    kind: FailKind::Field { kind: ParseErrorKind::BadTime, raw },
                                },
                            },
                            UpdateOut::Value { hour, minute } => panel_wind(
                                p,
                                k,
                                vid,
                                nm@,
                                meters,
                                iso_minute(resolved(now, hour, minute)),
                            ),
                        }
                    }
                },
            },
        },
    }
}

/// The wind, gusts and temperature stage of a panel.
pub open spec fn panel_wind(p: RawPanel, k: int, vid: Seq<u8>, name: Seq<u8>, meters: i64, last: Seq<u8>)
    -> PanelOut {
    let temp = if p.rows@.len() >= 3 {
        match temp_outcome(p.rows@[2]@) {
            TempOut::Value { millideg } => Option::Some(millideg),
            _ => Option::None,
        }
    } else {
        Option::None
    };
    if p.rows@.len() < 5 {
        PanelOut::Fail { f: FailSpec { subject: vid, kind: FailKind::MissingRow } }
    } else {
        match wind_outcome(p.rows@[4]@, true) {
            WindOut::BadUnit { raw } => PanelOut::Fail {
                f: FailSpec {
                    subject: vid,
                    kind: FailKind::Field { kind: ParseErrorKind::WrongUnit, raw },
                },
            },
            WindOut::BadSpeed { raw } => PanelOut::Fail {
                f: FailSpec {
                    subject: vid,
                    kind: FailKind::Field { kind: ParseErrorKind::BadSpeed, raw },
                },
            },
            WindOut::BadDirection { raw } => PanelOut::Fail {
                f: FailSpec {
                    subject: vid,
                    kind: FailKind::Field { kind: ParseErrorKind::BadDirection, raw },
                },
            },
            WindOut::Value { speed, dir } => {
                let gusts = if p.rows@.len() >= 6 {
                    match wind_outcome(p.rows@[5]@, false) {
                        WindOut::Value { speed: g, dir: _g } => Option::Some(g),
                        _ => Option::None,
                    }
                } else {
                    Option::None
                };
                PanelOut::Meas {
                    k,
                    name,
                    elevation: meters,
                    m: MeasSpec { wind: speed, dir, gusts, temp, last },
                }
            },
        }
    }
}

/// Consume one tooltip panel: on success the station at the resolved index
/// is enriched and marked available and the panel's measurement is
/// returned; on failure the station map is untouched.
#[verifier::rlimit(50)]
pub fn consume_panel(p: &RawPanel, now: &UtcStamp, stations: &mut Vec<(Vec<u8>, Station)>) -> (r:
    Result<(Measurement, usize), ItemError>)
    requires
        stamp_wf(*now),
        now.year >= 1,
    ensures
        match panel_outcome(*p, *now, old(stations)@) {
            PanelOut::Meas { k, name, elevation, m } => {
                &&& r matches Ok(pr)
                &&& 0 <= k < old(stations)@.len()
                &&& final(stations)@.len() == old(stations)@.len()
                &&& (forall|j: int|
                    0 <= j < final(stations)@.len() && j != k ==> #[trigger] final(stations)@[j] == old(
                        stations,
                    )@[j])
                &&& final(stations)@[k].0@ == old(stations)@[k].0@
                &&& final(stations)@[k].1.id@ == old(stations)@[k].1.id@
                &&& final(stations)@[k].1.url@ == old(stations)@[k].1.url@
                &&& final(stations)@[k].1.lat == old(stations)@[k].1.lat
                &&& final(stations)@[k].1.long == old(stations)@[k].1.long
                &&& final(stations)@[k].1.name@ == name
                &&& final(stations)@[k].1.elevation == elevation
                &&& final(stations)@[k].1.available
                &&& (r matches Ok(pr) ==> pr.1 == k && pr.0.station_id@ == old(
                    stations,
                )@[k].1.id@ && pr.0.wind_speed == m.wind && pr.0.wind_direction == m.dir
                    && pr.0.gusts_speed == m.gusts && pr.0.temperature == m.temp
                    && pr.0.last_update@ == m.last && measurement_wf(pr.0))
            },
            PanelOut::Fail { f } => r matches Err(e) && fail_matches(e, f) && final(stations)@ == old(
                stations,
            )@,
        },
{
    let vid = match &p.vendor_id {
        Option::Some(v) => v,
        Option::None => {
            return Err(ItemError { subject: Vec::new(), kind: ItemErrorKind::MissingPanelId });
        },
    };
    let mut href: Vec<u8> = vec![47u8, 112u8, 101u8, 114u8, 102u8, 105u8, 108u8, 47u8];
    proof {
        assert(href@ =~= perfil_prefix());
    }
    let mut tail = slice_owned(vid.as_slice());
    href.append(&mut tail);
    let k = match find_key(stations, href.as_slice()) {
        Option::Some(k) => k,
        Option::None => {
            return Err(
                ItemError { subject: slice_owned(vid.as_slice()), kind: ItemErrorKind::UnknownStation },
            );
        },
    };
    if stations[k].1.available {
        return Err(
            ItemError { subject: slice_owned(vid.as_slice()), kind: ItemErrorKind::DuplicatePanel },
        );
    }
    let name = match &p.name {
        Option::Some(nm) => nm,
        Option::None => {
            return Err(
                ItemError { subject: slice_owned(vid.as_slice()), kind: ItemErrorKind::MissingName },
            );
        },
    };
    let elevation_line = match &p.elevation_line {
        Option::Some(el) => el,
        Option::None => {
            return Err(
                ItemError {
                    subject: slice_owned(vid.as_slice()),
                    kind: ItemErrorKind::MissingElevation,
                },
            );
        },
    };
    let meters = match parse_elevation(elevation_line.as_slice()) {
        Ok(v) => v,
        Err(err) => {
            return Err(
                ItemError { subject: slice_owned(vid.as_slice()), kind: ItemErrorKind::Field { err } },
            );
        },
    };
    if p.rows.len() < 2 {
        return Err(
            ItemError { subject: slice_owned(vid.as_slice()), kind: ItemErrorKind::MissingRow },
        );
    }
    let (hour, minute) = match parse_last_update(p.rows[1].as_slice()) {
        Ok(hm) => hm,
        Err(err) => {
            return Err(
                ItemError { subject: slice_owned(vid.as_slice()), kind: ItemErrorKind::Field { err } },
            );
        },
    };
    let stamp = resolve_time_of_day(now, hour, minute);
    let last_update = format_iso_minute(&stamp);
    let temperature: Option<i64> = if p.rows.len() >= 3 {
        match parse_temperature(p.rows[2].as_slice()) {
            Ok(v) => Some(v),
            Err(_) => None,
        }
    } else {
        None
    };
    if p.rows.len() < 5 {
        return Err(
            ItemError { subject: slice_owned(vid.as_slice()), kind: ItemErrorKind::MissingRow },
        );
    }
    let (wind_speed, wind_direction) = match parse_wind(p.rows[4].as_slice(), true) {
        Ok(sd) => sd,
        Err(err) => {
            return Err(
                ItemError { subject: slice_owned(vid.as_slice()), kind: ItemErrorKind::Field { err } },
            );
        },
    };
    let gusts_speed: Option<u64> = if p.rows.len() >= 6 {
        match parse_wind(p.rows[5].as_slice(), false) {
            Ok((g, _)) => Some(g),
            Err(_) => None,
        }
    } else {
        None
    };
    proof {
        crate::fields::lemma_wind_value_wf(p.rows@[4]@, true);
    }
    let station_id = slice_owned(stations[k].1.id.as_slice());
    let new_name = slice_owned(name.as_slice());
    let old_pair = &stations[k];
    let updated = Station {
        id: slice_owned(old_pair.1.id.as_slice()),
        name: new_name,
        elevation: meters,
        url: slice_owned(old_pair.1.url.as_slice()),
        lat: old_pair.1.lat,
        long: old_pair.1.long,
        available: true,
    };
    let key_copy = slice_owned(old_pair.0.as_slice());
    stations.set(k, (key_copy, updated));
    let meas = Measurement {
        station_id,
        wind_speed,
        wind_direction,
        gusts_speed,
        temperature,
        last_update,
    };
    Ok((meas, k))
}


/// The fields of a station entry that pass 2 never changes.
pub open spec fn entry_static(p: (Vec<u8>, Station)) -> bool {
    &&& p.1.url@ == site_prefix() + p.0@
    &&& p.1.id@ == md5_hex_of(p.1.url@)
}

/// A field-for-field copy of a station.
fn copy_station(st: &Station) -> (r: Station)
    ensures
        r.id@ == st.id@,
        r.name@ == st.name@,
        r.elevation == st.elevation,
        r.url@ == st.url@,
        r.lat == st.lat,
        r.long == st.long,
        r.available == st.available,
{
    Station {
        id: slice_owned(st.id.as_slice()),
        name: slice_owned(st.name.as_slice()),
        elevation: st.elevation,
        url: slice_owned(st.url.as_slice()),
        lat: st.lat,
        long: st.long,
        available: st.available,
    }
}

/// Whether one of the accepted (panel, station) pairs already enriched
/// station index `k`.
pub open spec fn taken_has(taken: Seq<(int, int)>, k: int) -> bool
    decreases taken.len(),
{
    if taken.len() == 0 {
        false
    } else {
        taken.last().1 == k || taken_has(taken.drop_last(), k)
    }
}

/// The station index a panel enriches, decided against the initial
/// station map and the set of stations already enriched; `None` when the
/// panel fails for any reason.
pub open spec fn panel_accept(
    p: RawPanel,
    now: UtcStamp,
    st0: Seq<(Vec<u8>, Station)>,
    taken: Seq<(int, int)>,
) -> Option<int> {
    match p.vendor_id {
        Option::None => Option::None,
        Option::Some(vid) => match find_key_spec(st0, perfil_prefix() + vid@) {
            Option::None => Option::None,
            Option::Some(k) => if st0[k].1.available || taken_has(taken, k) {
                Option::None
            } else {
                match panel_fields(p, now, k, vid@) {
                    PanelOut::Meas { .. } => Option::Some(k),
                    PanelOut::Fail { .. } => Option::None,
                }
            },
        },
    }
}

/// The item error a rejected panel yields, decided against the same
/// state. (The accepted case never arises where this is used.)
pub open spec fn panel_fail_spec(
    p: RawPanel,
    now: UtcStamp,
    st0: Seq<(Vec<u8>, Station)>,
    taken: Seq<(int, int)>,
) -> FailSpec {
    match p.vendor_id {
        Option::None => FailSpec {
            subject: Seq::<u8>::empty(),
            kind: FailKind::MissingPanelId,
        },
        Option::Some(vid) => match find_key_spec(st0, perfil_prefix() + vid@) {
            Option::None => FailSpec { subject: vid@, kind: FailKind::UnknownStation },
            Option::Some(k) => if st0[k].1.available || taken_has(taken, k) {
                FailSpec { subject: vid@, kind: FailKind::DuplicatePanel }
            } else {
                match panel_fields(p, now, k, vid@) {
                    PanelOut::Meas { .. } => FailSpec {
                        subject: vid@,
                        kind: FailKind::MissingPanelId,
                    },
                    PanelOut::Fail { f } => f,
                }
            },
        },
    }
}

/// The (panel index, station index) pairs accepted among the first `n`
/// panels, in order.
pub open spec fn accepted_pairs(
    panels: Seq<RawPanel>,
    now: UtcStamp,
    st0: Seq<(Vec<u8>, Station)>,
    n: int,
) -> Seq<(int, int)>
    decreases n,
{
    if n <= 0 {
        Seq::empty()
    } else {
        let pre = accepted_pairs(panels, now, st0, n - 1);
        match panel_accept(panels[n - 1], now, st0, pre) {
            Option::Some(k) => pre.push((n - 1, k)),
            Option::None => pre,
        }
    }
}

/// Indices, in order, of the rejected panels among the first `n`.
pub open spec fn rejected_indices(
    panels: Seq<RawPanel>,
    now: UtcStamp,
    st0: Seq<(Vec<u8>, Station)>,
    n: int,
) -> Seq<int>
    decreases n,
{
    if n <= 0 {
        Seq::empty()
    } else {
        let pre = rejected_indices(panels, now, st0, n - 1);
        if panel_accept(panels[n - 1], now, st0, accepted_pairs(panels, now, st0, n - 1))
            is Some {
            pre
        } else {
            pre.push(n - 1)
        }
    }
}

/// What the `j`-th accepted panel contributes: the output station carries
/// the panel's name and elevation over the initial entry's identity and
/// coordinates, and the output measurement carries the panel's fields.
pub open spec fn accepted_output_ok(
    panels: Seq<RawPanel>,
    now: UtcStamp,
    st0: Seq<(Vec<u8>, Station)>,
    pair: (int, int),
    st: Station,
    m: Measurement,
) -> bool {
    &&& 0 <= pair.0 < panels.len()
    &&& 0 <= pair.1 < st0.len()
    &&& match panels[pair.0].vendor_id {
        Option::Some(vid) => match panel_fields(panels[pair.0], now, pair.1, vid@) {
            PanelOut::Meas { k: _, name, elevation, m: mf } => {
                &&& st.name@ == name
                &&& st.elevation == elevation
                &&& st.available
                &&& st.id@ == st0[pair.1].1.id@
                &&& st.url@ == st0[pair.1].1.url@
                &&& st.lat == st0[pair.1].1.lat
                &&& st.long == st0[pair.1].1.long
                &&& m.station_id@ == st.id@
                &&& m.wind_speed == mf.wind
                &&& m.wind_direction == mf.dir
                &&& m.gusts_speed == mf.gusts
                &&& m.temperature == mf.temp
                &&& m.last_update@ == mf.last
            },
            PanelOut::Fail { .. } => false,
        },
        Option::None => false,
    }
}

proof fn lemma_find_key_bounds(s: Seq<(Vec<u8>, Station)>, key: Seq<u8>)
    ensures
        match find_key_spec(s, key) {
            Option::Some(i) => 0 <= i < s.len() && s[i].0@ == key,
            Option::None => true,
        },
    decreases s.len(),
{
    if s.len() > 0 && s[0].0@ != key {
        lemma_find_key_bounds(s.drop_first(), key);
    }
}

proof fn lemma_taken_push(taken: Seq<(int, int)>, pair: (int, int), k: int)
    ensures
        taken_has(taken.push(pair), k) == (taken_has(taken, k) || pair.1 == k),
{
    assert(taken.push(pair).drop_last() =~= taken);
    assert(taken.push(pair).last() == pair);
}

proof fn lemma_find_key_congruent(
    s1: Seq<(Vec<u8>, Station)>,
    s2: Seq<(Vec<u8>, Station)>,
    key: Seq<u8>,
)
    requires
        s1.len() == s2.len(),
        forall|k: int| 0 <= k < s1.len() ==> s1[k].0@ == #[trigger] s2[k].0@,
    ensures
        find_key_spec(s1, key) == find_key_spec(s2, key),
    decreases s1.len(),
{
    if s1.len() > 0 {
        assert(s1[0].0@ == s2[0].0@);
        assert forall|k: int|
            0 <= k < s1.drop_first().len() implies s1.drop_first()[k].0@ == #[trigger] s2
            .drop_first()[k].0@ by {
            assert(s1.drop_first()[k] == s1[k + 1]);
            assert(s2.drop_first()[k] == s2[k + 1]);
            assert(s1[k + 1].0@ == s2[k + 1].0@);
        }
        lemma_find_key_congruent(s1.drop_first(), s2.drop_first(), key);
    }
}

/// One output record of the tooltip adapter.
pub open spec fn output_ok(st: Station, m: Measurement) -> bool {
    &&& st.available
    &&& m.station_id@ == st.id@
    &&& measurement_wf(m)
    &&& st.id@ == md5_hex_of(st.url@)
    &&& crate::text::starts_with(st.url@, site_prefix())
}

/// Pass 2 over all tooltip panels: each panel that joins and parses
/// enriches its station and emits exactly one (station, measurement)
/// pair; every failure is recorded as an item error and skipped.
#[verifier::loop_isolation(false)]
#[verifier::rlimit(100)]
pub fn collect_measurements(
    panels: &Vec<RawPanel>,
    now: &UtcStamp,
    stations: &mut Vec<(Vec<u8>, Station)>,
) -> (out: (Vec<Station>, Vec<Measurement>, Vec<ItemError>))
    requires
        stamp_wf(*now),
        now.year >= 1,
        forall|k: int|
            0 <= k < old(stations)@.len() ==> entry_static(#[trigger] old(stations)@[k]),
    ensures
        out.0@.len() == out.1@.len(),
        // every panel yields exactly one output pair or one item error
        out.0@.len() + out.2@.len() == panels@.len(),
        forall|j: int|
            0 <= j < out.0@.len() ==> output_ok(#[trigger] out.0@[j], out.1@[j]),
        // the outputs are exactly the accepted panels' contributions, in order
        out.0@.len() == accepted_pairs(panels@, *now, old(stations)@, panels@.len() as int).len(),
        forall|j: int|
            #![trigger out.0@[j]]
            0 <= j < out.0@.len() ==> accepted_output_ok(
                panels@,
                *now,
                old(stations)@,
                accepted_pairs(panels@, *now, old(stations)@, panels@.len() as int)[j],
                out.0@[j],
                out.1@[j],
            ),
        // the item errors are exactly the rejected panels' failures, in order
        out.2@.len() == rejected_indices(panels@, *now, old(stations)@, panels@.len() as int).len(),
        forall|j: int|
            #![trigger out.2@[j]]
            0 <= j < out.2@.len() ==> {
                let pj = rejected_indices(panels@, *now, old(stations)@, panels@.len() as int)[j];
                &&& 0 <= pj < panels@.len()
                &&& fail_matches(
                    out.2@[j],
                    panel_fail_spec(
                        panels@[pj],
                        *now,
                        old(stations)@,
                        accepted_pairs(panels@, *now, old(stations)@, pj),
                    ),
                )
            },
        // the station map: entries of accepted panels are enriched and
        // available, every other entry is untouched
        final(stations)@.len() == old(stations)@.len(),
        forall|k: int|
            #![trigger taken_has(accepted_pairs(panels@, *now, old(stations)@, panels@.len() as int), k)]
            0 <= k < final(stations)@.len() && !taken_has(
                accepted_pairs(panels@, *now, old(stations)@, panels@.len() as int),
                k,
            ) ==> final(stations)@[k] == old(stations)@[k],
        forall|k: int|
            #![trigger taken_has(accepted_pairs(panels@, *now, old(stations)@, panels@.len() as int), k)]
            0 <= k < final(stations)@.len() && taken_has(
                accepted_pairs(panels@, *now, old(stations)@, panels@.len() as int),
                k,
            ) ==> final(stations)@[k].1.available,
{
    let ghost st0 = stations@;
    let mut sts: Vec<Station> = Vec::new();
    let mut ms: Vec<Measurement> = Vec::new();
    let mut errs: Vec<ItemError> = Vec::new();
    let mut i: usize = 0;
    // ghost mirrors of the accepted pairs and rejected indices
    let ghost mut tk: Seq<(int, int)> = Seq::empty();
    let ghost mut rj: Seq<int> = Seq::empty();
    while i < panels.len()
        invariant
            0 <= i <= panels@.len(),
            st0 == old(stations)@,
            stations@.len() == st0.len(),
            sts@.len() == ms@.len(),
            sts@.len() + errs@.len() == i,
            tk == accepted_pairs(panels@, *now, st0, i as int),
            rj == rejected_indices(panels@, *now, st0, i as int),
            sts@.len() == tk.len(),
            errs@.len() == rj.len(),
            forall|k: int|
                #![trigger taken_has(tk, k)]
                0 <= k < stations@.len() && !taken_has(tk, k) ==> stations@[k] == st0[k],
            forall|k: int|
                #![trigger taken_has(tk, k)]
                0 <= k < stations@.len() && taken_has(tk, k) ==> (stations@[k].1.available
                    && stations@[k].0@ == st0[k].0@ && stations@[k].1.id@ == st0[k].1.id@
                    && stations@[k].1.url@ == st0[k].1.url@ && stations@[k].1.lat == st0[k].1.lat
                    && stations@[k].1.long == st0[k].1.long),
            forall|k: int|
                0 <= k < stations@.len() ==> entry_static(#[trigger] stations@[k]),
            forall|j: int|
                #![trigger tk[j]]
                0 <= j < tk.len() ==> accepted_output_ok(
                    panels@,
                    *now,
                    st0,
                    tk[j],
                    sts@[j],
                    ms@[j],
                ),
            forall|j: int|
                #![trigger rj[j]]
                0 <= j < rj.len() ==> {
                    &&& 0 <= rj[j] < panels@.len()
                    &&& fail_matches(
                        errs@[j],
                        panel_fail_spec(
                            panels@[rj[j]],
                            *now,
                            st0,
                            accepted_pairs(panels@, *now, st0, rj[j]),
                        ),
                    )
                },
            forall|j: int| 0 <= j < sts@.len() ==> output_ok(#[trigger] sts@[j], ms@[j]),
        decreases panels@.len() - i,
    {
        let ghost pre_stations = stations@;
        proof {
            // the current map and the initial map agree on every key, so a
            // panel's join key resolves identically against either
            assert forall|k: int|
                0 <= k < stations@.len() implies stations@[k].0@ == #[trigger] st0[k].0@ by {
                if taken_has(tk, k) {
                    assert(stations@[k].0@ == st0[k].0@);
                } else {
                    assert(stations@[k] == st0[k]);
                }
            }
            match panels@[i as int].vendor_id {
                Option::Some(vid) => {
                    lemma_find_key_congruent(pre_stations, st0, perfil_prefix() + vid@);
                },
                Option::None => {},
            }
        }
        match consume_panel(&panels[i], now, stations) {
            Ok((meas, idx)) => {
                proof {
                    // the panel was accepted: it resolved station `idx`,
                    // which was not yet available
                    assert(panel_accept(panels@[i as int], *now, st0, tk) == Option::Some(
                        idx as int,
                    )) by {
                        assert(!pre_stations[idx as int].1.available);
                        if taken_has(tk, idx as int) {
                            assert(pre_stations[idx as int].1.available);
                        }
                        assert(!st0[idx as int].1.available && !taken_has(tk, idx as int));
                    }
                }
                let st_out = copy_station(&stations[idx].1);
                proof {
                    crate::text::lemma_prefix_of_concat(site_prefix(), stations@[idx as int].0@);
                    assert forall|k: int|
                        0 <= k < stations@.len() implies entry_static(
                        #[trigger] stations@[k],
                    ) by {
                        if k != idx {
                            assert(stations@[k] == pre_stations[k]);
                        } else {
                            assert(stations@[k].0@ == pre_stations[k].0@);
                            assert(stations@[k].1.url@ == pre_stations[k].1.url@);
                            assert(stations@[k].1.id@ == pre_stations[k].1.id@);
                        }
                    }
                    assert(entry_static(stations@[idx as int]));
                    assert(output_ok(st_out, meas));
                }
                let ghost pre_sts = sts@;
                let ghost pre_ms = ms@;
                let ghost old_tk = tk;
                sts.push(st_out);
                ms.push(meas);
                proof {
                    tk = tk.push((i as int, idx as int));
                    assert(accepted_output_ok(
                        panels@,
                        *now,
                        st0,
                        (i as int, idx as int),
                        st_out,
                        meas,
                    ));
                    assert forall|j: int| #![trigger tk[j]] 0 <= j < tk.len() implies
                        accepted_output_ok(panels@, *now, st0, tk[j], sts@[j], ms@[j]) by {
                        if j < pre_sts.len() {
                            assert(sts@[j] == pre_sts[j]);
                            assert(ms@[j] == pre_ms[j]);
                            assert(tk[j] == old_tk[j]);
                        } else {
                            assert(tk[j] == (i as int, idx as int));
                        }
                    }
                    assert forall|j: int|
                        0 <= j < sts@.len() implies output_ok(#[trigger] sts@[j], ms@[j]) by {
                        if j < pre_sts.len() {
                            assert(sts@[j] == pre_sts[j]);
                            assert(ms@[j] == pre_ms[j]);
                            assert(output_ok(pre_sts[j], pre_ms[j]));
                        }
                    }
                    // bridging: only entry idx changed, and it is now taken
                    assert forall|k: int| true implies taken_has(tk, k) == (taken_has(old_tk, k)
                        || idx as int == k) by {
                        lemma_taken_push(old_tk, (i as int, idx as int), k);
                    }
                    assert(taken_has(tk, idx as int));
                    assert forall|k: int|
                        #![trigger taken_has(tk, k)]
                        0 <= k < stations@.len() && !taken_has(tk, k) implies stations@[k] == st0[
                        k] by {
                        assert(k != idx);
                        assert(!taken_has(old_tk, k));
                        assert(stations@[k] == pre_stations[k]);
                    }
                    assert forall|k: int|
                        #![trigger taken_has(tk, k)]
                        0 <= k < stations@.len() && taken_has(tk, k) implies
                        (stations@[k].1.available && stations@[k].0@ == st0[k].0@
                            && stations@[k].1.id@ == st0[k].1.id@ && stations@[k].1.url@ == st0[
                        k].1.url@ && stations@[k].1.lat == st0[k].1.lat && stations@[k].1.long
                            == st0[k].1.long) by {
                        if k != idx {
                            assert(taken_has(old_tk, k));
                            assert(stations@[k] == pre_stations[k]);
                        } else {
                            assert(!taken_has(old_tk, idx as int));
                            assert(pre_stations[k] == st0[k]);
                        }
                    }
                }
            },
            Err(e) => {
                proof {
                    // the panel was rejected, and its failure is the one the
                    // fold predicts
                    assert(panel_accept(panels@[i as int], *now, st0, tk) is None && match
                        panel_outcome(panels@[i as int], *now, pre_stations) {
                        PanelOut::Fail { f } => f == panel_fail_spec(
                            panels@[i as int],
                            *now,
                            st0,
                            tk,
                        ),
                        PanelOut::Meas { .. } => false,
                    }) by {
                        match panels@[i as int].vendor_id {
                            Option::Some(vid) => {
                                let href = perfil_prefix() + vid@;
                                lemma_find_key_bounds(st0, href);
                                match find_key_spec(st0, href) {
                                    Option::Some(k) => {
                                        if !taken_has(tk, k) {
                                            assert(pre_stations[k] == st0[k]);
                                        } else {
                                            assert(pre_stations[k].1.available);
                                        }
                                    },
                                    Option::None => {},
                                }
                            },
                            Option::None => {},
                        }
                    }
                    rj = rj.push(i as int);
                }
                let ghost old_errs = errs@;
                let ghost old_rj = rj;
                errs.push(e);
                proof {
                    assert forall|j: int| #![trigger rj[j]] 0 <= j < rj.len() implies {
                        &&& 0 <= rj[j] < panels@.len()
                        &&& fail_matches(
                            errs@[j],
                            panel_fail_spec(
                                panels@[rj[j]],
                                *now,
                                st0,
                                accepted_pairs(panels@, *now, st0, rj[j]),
                            ),
                        )
                    } by {
                        if j < old_errs.len() {
                            assert(errs@[j] == old_errs[j]);
                            assert(rj[j] == old_rj[j]);
                        } else {
                            assert(rj[j] == i as int);
                            assert(accepted_pairs(panels@, *now, st0, i as int) == tk);
                        }
                    }
                }
            },
        }
        i = i + 1;
    }
    (sts, ms, errs)
}


/// `s` with every UTF-8 non-breaking space replaced by a plain space.
pub open spec fn nbsp_replaced(s: Seq<u8>) -> Seq<u8>
    decreases s.len(),
{
    if s.len() == 0 {
        Seq::empty()
    } else if s.len() >= 2 && s[0] == 194u8 && s[1] == 160u8 {
        seq![32u8] + nbsp_replaced(s.skip(2))
    } else {
        seq![s[0]] + nbsp_replaced(s.skip(1))
    }
}

pub fn replace_nbsp(s: &[u8]) -> (r: Vec<u8>)
    ensures
        r@ == nbsp_replaced(s@),
{
    let mut out: Vec<u8> = Vec::new();
    let mut i: usize = 0;
    proof {
        assert(s@.skip(0) =~= s@);
    }
    while i < s.len()
        invariant
            0 <= i <= s@.len(),
            nbsp_replaced(s@) == out@ + nbsp_replaced(s@.skip(i as int)),
        decreases s@.len() - i,
    {
        let ghost rest = s@.skip(i as int);
        if i + 1 < s.len() && s[i] == 194 && s[i + 1] == 160 {
            proof {
                assert(rest.len() >= 2 && rest[0] == 194u8 && rest[1] == 160u8);
                assert(rest.skip(2) =~= s@.skip(i + 2));
                assert(out@ + (seq![32u8] + nbsp_replaced(s@.skip(i + 2))) =~= (out@ + seq![32u8])
                    + nbsp_replaced(s@.skip(i + 2)));
            }
            out.push(32);
            i = i + 2;
        } else {
            proof {
                assert(rest[0] == s@[i as int]);
                assert(!(rest.len() >= 2 && rest[0] == 194u8 && rest[1] == 160u8));
                assert(rest.skip(1) =~= s@.skip(i + 1));
                assert(out@ + (seq![s@[i as int]] + nbsp_replaced(s@.skip(i + 1))) =~= (out@
                    + seq![s@[i as int]]) + nbsp_replaced(s@.skip(i + 1)));
            }
            let b = s[i];
            out.push(b);
            i = i + 1;
        }
    }
    proof {
        assert(s@.skip(i as int) =~= Seq::<u8>::empty());
        assert(out@ + Seq::<u8>::empty() =~= out@);
    }
    out
}

/// The direct children of the header cell: each text node's text, a
/// `None` for every other node kind, in document order.
fn child_texts(th: &scraper::ElementRef<'_>) -> (r: Vec<Option<String>>) {
    let mut pieces: Vec<Option<String>> = Vec::new();
    let mut j: usize = 0;
    while j < 4096
        invariant
            0 <= j <= 4096,
        decreases 4096 - j,
    {
        match child_text_at(th, j) {
            Option::None => {
                j = 4096;
            },
            Option::Some(piece) => {
                pieces.push(piece);
                if j < 4095 {
                    j = j + 1;
                } else {
                    j = 4096;
                }
            },
        }
    }
    pieces
}

/// The concatenation of the entity-decoded text pieces among the first
/// `n` children; element children contribute nothing.
pub open spec fn pieces_concat(ps: Seq<Option<String>>, n: int) -> Seq<u8>
    decreases n,
{
    if n <= 0 {
        Seq::empty()
    } else {
        pieces_concat(ps, n - 1) + match ps[n - 1] {
            Option::Some(s) => crate::codec::html_unescaped_of(s@),
            Option::None => Seq::<u8>::empty(),
        }
    }
}

/// The station name a header yields: its direct text children
/// entity-decoded and concatenated, non-breaking spaces normalized to
/// plain spaces, then trimmed.
pub open spec fn name_of(ps: Seq<Option<String>>) -> Seq<u8> {
    crate::text::trimmed(nbsp_replaced(pieces_concat(ps, ps.len() as int)))
}

/// Assemble a panel's station name from its header's direct children.
pub fn assemble_name(pieces: &Vec<Option<String>>) -> (r: Vec<u8>)
    ensures
        r@ == name_of(pieces@),
{
    let mut acc: Vec<u8> = Vec::new();
    let mut i: usize = 0;
    while i < pieces.len()
        invariant
            0 <= i <= pieces@.len(),
            acc@ == pieces_concat(pieces@, i as int),
        decreases pieces@.len() - i,
    {
        match &pieces[i] {
            Option::Some(text) => {
                let mut bytes = decode_entities(text.as_str());
                acc.append(&mut bytes);
            },
            Option::None => {
                proof {
                    assert(acc@ + Seq::<u8>::empty() =~= acc@);
                }
            },
        }
        i = i + 1;
    }
    let normalized = replace_nbsp(acc.as_slice());
    trim_exec(normalized.as_slice())
}

/// Extract the plain fields of every hotspot of the image map.
fn extract_areas(map_el: &scraper::ElementRef<'_>) -> (r: Result<Vec<RawArea>, FetchError>)
    ensures
        r matches Err(e) ==> e == FetchError::BadSelector,
{
    let area_sel = match parse_selector("area") {
        Ok(sel) => sel,
        Err(e) => {
            return Err(e);
        },
    };
    let els = select_within(map_el, &area_sel);
    let mut areas: Vec<RawArea> = Vec::new();
    let mut i: usize = 0;
    while i < els.len()
        invariant
            0 <= i <= els@.len(),
        decreases els@.len() - i,
    {
        let shape = match attr_bytes(&els[i], "shape") {
            Option::Some(v) => v,
            Option::None => Vec::new(),
        };
        let href = attr_bytes(&els[i], "href");
        let coords = attr_bytes(&els[i], "coords");
        areas.push(RawArea { shape, href, coords });
        i = i + 1;
    }
    Ok(areas)
}

/// Extract the plain fields of every tooltip panel of the document.
fn extract_panels(doc: &scraper::Html) -> (r: Result<Vec<RawPanel>, FetchError>)
    ensures
        r matches Err(e) ==> e == FetchError::BadSelector,
{
    let tooltip_sel = match parse_selector("span.tooltip") {
        Ok(sel) => sel,
        Err(e) => {
            return Err(e);
        },
    };
    let tr_sel = match parse_selector("tr") {
        Ok(sel) => sel,
        Err(e) => {
            return Err(e);
        },
    };
    let th_sel = match parse_selector("th") {
        Ok(sel) => sel,
        Err(e) => {
            return Err(e);
        },
    };
    let petitet_sel = match parse_selector("span.petitet") {
        Ok(sel) => sel,
        Err(e) => {
            return Err(e);
        },
    };
    let spans = select_all(doc, &tooltip_sel);
    let mut panels: Vec<RawPanel> = Vec::new();
    let mut i: usize = 0;
    while i < spans.len()
        invariant
            0 <= i <= spans@.len(),
        decreases spans@.len() - i,
    {
        let el = &spans[i];
        let vendor_id = attr_bytes(el, "id");
        let ths = select_within(el, &th_sel);
        let name: Option<Vec<u8>> = if ths.len() > 0 {
            Some(assemble_name(&child_texts(&ths[0])))
        } else {
            None
        };
        let pets = select_within(el, &petitet_sel);
        let elevation_line: Option<Vec<u8>> = if pets.len() > 0 {
            Some(text_bytes(&pets[0]))
        } else {
            None
        };
        let trs = select_within(el, &tr_sel);
        let mut rows: Vec<Vec<u8>> = Vec::new();
        let mut j: usize = 0;
        while j < trs.len()
            invariant
                0 <= j <= trs@.len(),
            decreases trs@.len() - j,
        {
            let text = text_bytes(&trs[j]);
            rows.push(trim_exec(text.as_slice()));
            j = j + 1;
        }
        panels.push(RawPanel { vendor_id, name, elevation_line, rows });
        i = i + 1;
    }
    Ok(panels)
}

/// Run the whole Tooltip-Map adapter over one fetched document body:
/// decode the legacy encoding, discover stations from the image map,
/// enrich them from the tooltip panels, and emit the available stations
/// paired one-to-one with their measurements, along with the item errors
/// that were skipped.
pub fn fetch_data(body: &[u8], now: &UtcStamp) -> (r: Result<
    (Vec<Station>, Vec<Measurement>, Vec<ItemError>),
    FetchError,
>)
    requires
        stamp_wf(*now),
        now.year >= 1,
    ensures
        r matches Ok(out) ==> out.0@.len() == out.1@.len() && forall|j: int|
            0 <= j < out.0@.len() ==> output_ok(#[trigger] out.0@[j], out.1@[j]),
        r matches Err(e) ==> e matches FetchError::MapMissing || e matches
            FetchError::DuplicateStation { href: _ } || e matches FetchError::BadSelector,
{
    let text = decode_latin9(body);
    let doc = parse_document(text.as_slice());
    let map_sel = match parse_selector("map#estacions") {
        Ok(sel) => sel,
        Err(e) => {
            return Err(e);
        },
    };
    let maps = select_all(&doc, &map_sel);
    if maps.len() == 0 {
        return Err(FetchError::MapMissing);
    }
    let areas = match extract_areas(&maps[0]) {
        Ok(a) => a,
        Err(e) => {
            return Err(e);
        },
    };
    let (mut stations, mut errs) = match collect_stations(&areas) {
        Ok(out) => out,
        Err(e) => {
            return Err(e);
        },
    };
    let panels = match extract_panels(&doc) {
        Ok(p) => p,
        Err(e) => {
            return Err(e);
        },
    };
    proof {
        assert forall|k: int|
            0 <= k < stations@.len() implies entry_static(#[trigger] stations@[k]) by {
            assert(entry_ok(stations@[k].0, stations@[k].1));
        }
    }
    let (sts, ms, mut errs2) = collect_measurements(&panels, now, &mut stations);
    errs.append(&mut errs2);
    Ok((sts, ms, errs))
}

} // verus!
