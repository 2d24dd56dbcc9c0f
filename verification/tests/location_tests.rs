use edge_weather::location::resolve_location;

fn s(x: &str) -> String {
    x.to_string()
}

#[test]
fn all_fields_present_uses_metadata() {
    let (geo, known) = resolve_location(
        Some(s("Paris")),
        Some(s("FR")),
        Some(s("Ile-de-France")),
        Some((s("48.85"), s("2.35"))),
    );
    assert!(known);
    assert_eq!(geo.city, "Paris");
    assert_eq!(geo.country, "FR");
    assert_eq!(geo.region, "Ile-de-France");
    assert_eq!(geo.lat, "48.85");
    assert_eq!(geo.long, "2.35");
}

#[test]
fn missing_city_falls_back_to_default() {
    let (geo, known) = resolve_location(
        None,
        Some(s("FR")),
        Some(s("Ile-de-France")),
        Some((s("48.85"), s("2.35"))),
    );
    assert!(!known);
    assert_eq!(geo.city, "Ames");
    assert_eq!(geo.country, "US");
    assert_eq!(geo.region, "Iowa");
    assert_eq!(geo.lat, "42.03");
    assert_eq!(geo.long, "-93.62");
}

#[test]
fn missing_country_falls_back_to_default() {
    let (geo, known) = resolve_location(
        Some(s("Paris")),
        None,
        Some(s("Ile-de-France")),
        Some((s("48.85"), s("2.35"))),
    );
    assert!(!known);
    assert_eq!(geo.city, "Ames");
}

#[test]
fn missing_region_falls_back_to_default() {
    let (geo, known) = resolve_location(
        Some(s("Paris")),
        Some(s("FR")),
        None,
        Some((s("48.85"), s("2.35"))),
    );
    assert!(!known);
    assert_eq!(geo.region, "Iowa");
}

#[test]
fn missing_coordinates_fall_back_to_default() {
    let (geo, known) = resolve_location(Some(s("Paris")), Some(s("FR")), Some(s("Ile-de-France")), None);
    assert!(!known);
    assert_eq!(geo.lat, "42.03");
    assert_eq!(geo.long, "-93.62");
}

#[test]
fn all_fields_missing_fall_back_to_default() {
    let (geo, known) = resolve_location(None, None, None, None);
    assert!(!known);
    assert_eq!(geo.city, "Ames");
    assert_eq!(geo.country, "US");
    assert_eq!(geo.region, "Iowa");
    assert_eq!(geo.lat, "42.03");
    assert_eq!(geo.long, "-93.62");
}
