use zephyr::common::ItemErrorKind;
use zephyr::meteocat;
use zephyr::meteoclimatic;
use zephyr::time_utc::{UtcStamp, current_utc};

fn fixed_now() -> UtcStamp {
    UtcStamp { year: 2024, month: 1, day: 2, hour: 0, minute: 5 }
}

/// One circular hotspot plus one panel whose header holds `name_raw` as
/// raw legacy-encoded bytes.
fn mini_tooltip(name_raw: &[u8]) -> Vec<u8> {
    let mut body: Vec<u8> = Vec::new();
    body.extend_from_slice(b"<html><body><map id=\"estacions\" name=\"estacions\">");
    body.extend_from_slice(b"<area shape=\"circle\" href=\"/perfil/ES1\" coords=\"10,20,8\">");
    body.extend_from_slice(b"</map><span class=\"tooltip\" id=\"ES1\"><table>");
    body.extend_from_slice(b"<tr><th>");
    body.extend_from_slice(name_raw);
    body.extend_from_slice(b"<span class=\"petitet\">(5 m)</span></th></tr>");
    body.extend_from_slice(b"<tr><td>Actualizado: 12:30 UTC</td></tr>");
    body.extend_from_slice(b"<tr><td>no temp</td></tr>");
    body.extend_from_slice(b"<tr><td>hum</td></tr>");
    body.extend_from_slice(b"<tr><td>Calma</td></tr>");
    body.extend_from_slice(b"</table></span></body></html>");
    body
}

#[test]
fn entity_references_are_decoded_in_names() {
    let body = mini_tooltip(b"A &amp; B");
    let (stations, _, _) = meteoclimatic::fetch_data(&body, &fixed_now()).unwrap();
    assert_eq!(stations.len(), 1);
    assert_eq!(stations[0].name, b"A & B".to_vec());
    assert_eq!(stations[0].elevation, 5);
}

#[test]
fn nonbreaking_spaces_become_plain_spaces_in_names() {
    // 0xA0 is the non-breaking space of the legacy single-byte encoding
    let body = mini_tooltip(b"A\xa0B");
    let (stations, _, _) = meteoclimatic::fetch_data(&body, &fixed_now()).unwrap();
    assert_eq!(stations.len(), 1);
    assert_eq!(stations[0].name, b"A B".to_vec());
}

#[test]
fn calm_panel_yields_zero_wind_without_direction() {
    let body = mini_tooltip(b"Calm Site");
    let (stations, measurements, _) = meteoclimatic::fetch_data(&body, &fixed_now()).unwrap();
    assert_eq!(stations.len(), 1);
    assert_eq!(measurements[0].wind_speed, 0);
    assert_eq!(measurements[0].wind_direction, None);
    assert_eq!(measurements[0].gusts_speed, None);
    assert_eq!(measurements[0].temperature, None);
}

#[test]
fn hotspot_without_href_is_an_item_error() {
    let mut body: Vec<u8> = Vec::new();
    body.extend_from_slice(b"<html><body><map id=\"estacions\" name=\"estacions\">");
    body.extend_from_slice(b"<area shape=\"circle\" coords=\"10,20,8\">");
    body.extend_from_slice(b"</map></body></html>");
    let (stations, measurements, errs) = meteoclimatic::fetch_data(&body, &fixed_now()).unwrap();
    assert!(stations.is_empty() && measurements.is_empty());
    assert!(errs.iter().any(|e| e.kind == ItemErrorKind::MissingHref));
}

#[test]
fn hotspot_with_bad_coordinates_is_an_item_error() {
    let mut body: Vec<u8> = Vec::new();
    body.extend_from_slice(b"<html><body><map id=\"estacions\" name=\"estacions\">");
    body.extend_from_slice(b"<area shape=\"circle\" href=\"/perfil/X\" coords=\"a,b,c\">");
    body.extend_from_slice(b"<area shape=\"circle\" href=\"/perfil/Y\">");
    body.extend_from_slice(b"</map></body></html>");
    let (_, _, errs) = meteoclimatic::fetch_data(&body, &fixed_now()).unwrap();
    assert!(errs.iter().any(|e| e.kind == ItemErrorKind::BadCoords
        && e.subject == b"/perfil/X".to_vec()));
    assert!(errs.iter().any(|e| e.kind == ItemErrorKind::MissingCoords
        && e.subject == b"/perfil/Y".to_vec()));
}

#[test]
fn second_panel_for_one_station_is_an_item_error() {
    let mut body = mini_tooltip(b"First");
    // append a second panel with the same join identifier
    let tail = b"</body></html>";
    body.truncate(body.len() - tail.len());
    body.extend_from_slice(b"<span class=\"tooltip\" id=\"ES1\"><table>");
    body.extend_from_slice(b"<tr><th>Second<span class=\"petitet\">(9 m)</span></th></tr>");
    body.extend_from_slice(b"<tr><td>Actualizado: 01:00 UTC</td></tr>");
    body.extend_from_slice(b"<tr><td>t</td></tr><tr><td>h</td></tr>");
    body.extend_from_slice(b"<tr><td>Calma</td></tr></table></span>");
    body.extend_from_slice(tail);
    let (stations, measurements, errs) = meteoclimatic::fetch_data(&body, &fixed_now()).unwrap();
    assert_eq!(stations.len(), 1);
    assert_eq!(measurements.len(), 1);
    assert_eq!(stations[0].name, b"First".to_vec());
    assert!(errs.iter().any(|e| e.kind == ItemErrorKind::DuplicatePanel
        && e.subject == b"ES1".to_vec()));
}

#[test]
fn invalid_utf8_is_replaced_during_decoding() {
    let mut body: Vec<u8> = Vec::new();
    body.extend_from_slice(b"<html><head><script>\n");
    body.extend_from_slice(b"var dades = {\"T1\": {\"V1\": {\"velocitatVent\": 1.0}}};\n");
    body.extend_from_slice(b"var meta = {\"V1\": {\"nom\": \"Be\xffta\", \"coordenades\": ");
    body.extend_from_slice(b"{\"latitud\": 40.0, \"longitud\": 1.0}, \"altitud\": 1.0}};\n");
    body.extend_from_slice(b"</script></head><body></body></html>\n");
    let (stations, _, _) = meteocat::fetch_data(&body).unwrap();
    assert_eq!(stations.len(), 1);
    // the stray byte was replaced, never passed through
    assert_eq!(stations[0].name, b"Be\xef\xbf\xbdta".to_vec());
}

#[test]
fn current_clock_is_well_formed() {
    let now = current_utc().unwrap();
    assert!((1..=12).contains(&now.month));
    assert!((1..=31).contains(&now.day));
    assert!(now.hour <= 23 && now.minute <= 59);
    assert!((1..=9999).contains(&now.year));
}
