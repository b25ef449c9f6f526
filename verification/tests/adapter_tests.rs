use zephyr::common::{FetchError, ItemErrorKind};
use zephyr::meteocat;
use zephyr::meteoclimatic;
use zephyr::time_utc::UtcStamp;

fn tooltip_fixture() -> Vec<u8> {
    let mut body: Vec<u8> = Vec::new();
    body.extend_from_slice(b"<html><body>\n<map id=\"estacions\" name=\"estacions\">\n");
    body.extend_from_slice(
        b"<area shape=\"circle\" href=\"/perfil/ES123\" coords=\"394,223,8\">\n",
    );
    body.extend_from_slice(
        b"<area shape=\"circle\" href=\"/perfil/ES999\" coords=\"309,416,8\">\n",
    );
    body.extend_from_slice(b"<area shape=\"rect\" href=\"/perfil/EX\" coords=\"1,2,3,4\">\n");
    body.extend_from_slice(b"</map>\n<span class=\"tooltip\" id=\"ES123\"><table>\n");
    body.extend_from_slice(
        b"<tr><th>Bellmunt <span class=\"petitet\">(1246 m)</span></th></tr>\n",
    );
    body.extend_from_slice(b"<tr><td>Actualizado: 12:30 UTC</td></tr>\n");
    // raw legacy bytes: \xc2\xb0 decodes to the two glyphs the parser expects
    body.extend_from_slice(b"<tr><td>21,4\xc2\xb0C (max)\xc2\xb0C (min)</td></tr>\n");
    body.extend_from_slice(b"<tr><td>humidity 40%</td></tr>\n");
    body.extend_from_slice(b"<tr><td>12 km/h N</td></tr>\n");
    body.extend_from_slice(b"<tr><td>20 km/h</td></tr>\n");
    body.extend_from_slice(b"</table></span>\n");
    body.extend_from_slice(
        b"<span class=\"tooltip\" id=\"ES777\"><table><tr><th>Ghost</th></tr></table></span>\n",
    );
    body.extend_from_slice(b"</body></html>\n");
    body
}

fn fixed_now() -> UtcStamp {
    UtcStamp { year: 2024, month: 1, day: 2, hour: 0, minute: 5 }
}

#[test]
fn tooltip_adapter_end_to_end() {
    let body = tooltip_fixture();
    let (stations, measurements, errs) =
        meteoclimatic::fetch_data(&body, &fixed_now()).unwrap();
    assert_eq!(stations.len(), 1);
    assert_eq!(measurements.len(), 1);
    let st = &stations[0];
    assert_eq!(st.name, b"Bellmunt".to_vec());
    assert_eq!(st.elevation, 1246);
    assert_eq!(st.url, b"https://www.meteoclimatic.net/perfil/ES123".to_vec());
    assert_eq!(st.id, b"52f4789e7cdbefc4311eab9b768d53fe".to_vec());
    assert_eq!(st.long, 2_294_541_510);
    assert_eq!(st.lat, 42_101_781_061);
    assert!(st.available);
    let m = &measurements[0];
    assert_eq!(m.station_id, st.id);
    assert_eq!(m.wind_speed, 12);
    assert_eq!(m.wind_direction, Some(0));
    assert_eq!(m.gusts_speed, Some(20));
    assert_eq!(m.temperature, Some(21400));
    // 12:30 lies in the future of 00:05, so the reading belongs to yesterday
    assert_eq!(m.last_update, b"2024-01-01T12:30Z".to_vec());
    // the panel with an unknown join key was skipped, not fatal
    assert!(errs.iter().any(|e| e.kind == ItemErrorKind::UnknownStation
        && e.subject == b"ES777".to_vec()));
}

#[test]
fn tooltip_adapter_is_deterministic() {
    let body = tooltip_fixture();
    let a = meteoclimatic::fetch_data(&body, &fixed_now()).unwrap();
    let b = meteoclimatic::fetch_data(&body, &fixed_now()).unwrap();
    assert_eq!(a.0, b.0);
    assert_eq!(a.1, b.1);
}

#[test]
fn tooltip_adapter_duplicate_href_is_fatal() {
    let mut body: Vec<u8> = Vec::new();
    body.extend_from_slice(b"<html><body><map id=\"estacions\" name=\"estacions\">");
    body.extend_from_slice(b"<area shape=\"circle\" href=\"/perfil/A\" coords=\"1,2,3\">");
    body.extend_from_slice(b"<area shape=\"circle\" href=\"/perfil/A\" coords=\"4,5,6\">");
    body.extend_from_slice(b"</map></body></html>");
    let err = meteoclimatic::fetch_data(&body, &fixed_now()).unwrap_err();
    assert_eq!(err, FetchError::DuplicateStation { href: b"/perfil/A".to_vec() });
}

#[test]
fn tooltip_adapter_missing_map_is_fatal() {
    let body = b"<html><body><p>nothing here</p></body></html>".to_vec();
    let err = meteoclimatic::fetch_data(&body, &fixed_now()).unwrap_err();
    assert_eq!(err, FetchError::MapMissing);
}

#[test]
fn tooltip_adapter_bad_wind_skips_station() {
    let mut body = tooltip_fixture();
    // corrupt the wind row unit
    let needle = b"12 km/h N".to_vec();
    let pos = body.windows(needle.len()).position(|w| w == &needle[..]).unwrap();
    body[pos + 3] = b'm';
    body[pos + 4] = b'p';
    body[pos + 5] = b'h';
    body[pos + 6] = b' ';
    let (stations, measurements, errs) =
        meteoclimatic::fetch_data(&body, &fixed_now()).unwrap();
    assert_eq!(stations.len(), 0);
    assert_eq!(measurements.len(), 0);
    assert!(errs.iter().any(|e| e.subject == b"ES123".to_vec()));
}

fn embedded_fixture() -> Vec<u8> {
    let mut body: Vec<u8> = Vec::new();
    body.extend_from_slice(b"<html><head><script>\n");
    body.extend_from_slice(b"var dades = {\"2024-01-02T10:00Z\": {");
    body.extend_from_slice(b"\"V1\": {\"temperatura\": 21.4, \"velocitatVent\": 11.5, ");
    body.extend_from_slice(b"\"direccioVent\": 90.0, \"ratxaMaximaVent\": 15.2}, ");
    body.extend_from_slice(b"\"V2\": {\"velocitatVent\": 3.0}, ");
    body.extend_from_slice(b"\"V3\": {\"velocitatVent\": 5.0}, ");
    body.extend_from_slice(b"\"V4\": {\"temperatura\": 1.0}}, ");
    body.extend_from_slice(b"\"2024-01-01T10:00Z\": {\"V1\": {\"velocitatVent\": 99.0}}};\n");
    body.extend_from_slice(b"var meta = {\"V1\": {\"nom\": \"Alpha\", \"coordenades\": ");
    body.extend_from_slice(b"{\"latitud\": 41.5, \"longitud\": 2.25}, \"altitud\": 350.6}, ");
    body.extend_from_slice(b"\"V2\": {\"nom\": \"Beta\", \"coordenades\": ");
    body.extend_from_slice(b"{\"latitud\": 40.0, \"longitud\": 1.0}, \"altitud\": 10.0}};\n");
    body.extend_from_slice(b"</script></head><body></body></html>\n");
    body
}

#[test]
fn embedded_adapter_end_to_end() {
    let body = embedded_fixture();
    let (stations, measurements, errs) = meteocat::fetch_data(&body).unwrap();
    // only vendor ids present in both maps at the latest timestamp
    assert_eq!(stations.len(), 2);
    assert_eq!(measurements.len(), 2);
    let i1 = stations.iter().position(|s| s.name == b"Alpha".to_vec()).unwrap();
    let i2 = stations.iter().position(|s| s.name == b"Beta".to_vec()).unwrap();
    let s1 = &stations[i1];
    assert_eq!(s1.url, b"https://www.meteo.cat/observacions/xema/dades?codi=V1".to_vec());
    assert_eq!(s1.id, b"10db7fb7d81ac91c3daf7f113855b610".to_vec());
    assert_eq!(s1.elevation, 351);
    assert_eq!(s1.lat, 41_500_000_000);
    assert_eq!(s1.long, 2_250_000_000);
    assert!(s1.available);
    let m1 = &measurements[i1];
    assert_eq!(m1.station_id, s1.id);
    assert_eq!(m1.wind_speed, 12);
    assert_eq!(m1.wind_direction, Some(90000));
    assert_eq!(m1.gusts_speed, Some(15));
    assert_eq!(m1.temperature, Some(21400));
    // the lexicographically greater timestamp was selected
    assert_eq!(m1.last_update, b"2024-01-02T10:00Z".to_vec());
    let s2 = &stations[i2];
    assert_eq!(s2.id, b"58220743358be020bd0127fc3c63db33".to_vec());
    assert_eq!(s2.elevation, 10);
    let m2 = &measurements[i2];
    assert_eq!(m2.wind_speed, 3);
    assert_eq!(m2.wind_direction, None);
    assert_eq!(m2.gusts_speed, None);
    assert_eq!(m2.temperature, None);
    assert_eq!(m2.last_update, b"2024-01-02T10:00Z".to_vec());
    // a reading without metadata is a skipped item, not a fatal failure
    assert!(errs.iter().any(|e| e.kind == ItemErrorKind::MissingStationMeta
        && e.subject == b"V3".to_vec()));
}

#[test]
fn embedded_adapter_is_deterministic() {
    let body = embedded_fixture();
    let a = meteocat::fetch_data(&body).unwrap();
    let b = meteocat::fetch_data(&body).unwrap();
    assert_eq!(a.0, b.0);
    assert_eq!(a.1, b.1);
}

#[test]
fn embedded_adapter_missing_assignments_are_fatal() {
    let body = b"<html><head><script>\nvar dades = {};\n</script></head></html>".to_vec();
    assert_eq!(meteocat::fetch_data(&body).unwrap_err(), FetchError::MetadataMissing);
    let body = b"<html><head><script>\nvar meta = {};\n</script></head></html>".to_vec();
    assert_eq!(meteocat::fetch_data(&body).unwrap_err(), FetchError::ReadingsMissing);
}

#[test]
fn embedded_adapter_empty_readings_is_fatal() {
    let body =
        b"<html><head><script>\nvar dades = {};\nvar meta = {};\n</script></head></html>"
        .to_vec();
    assert_eq!(meteocat::fetch_data(&body).unwrap_err(), FetchError::EmptyReadings);
}

#[test]
fn embedded_adapter_malformed_json_is_fatal() {
    let body =
        b"<html><head><script>\nvar dades = [1, 2];\nvar meta = {};\n</script></head></html>"
        .to_vec();
    assert_eq!(meteocat::fetch_data(&body).unwrap_err(), FetchError::BadJson);
}
