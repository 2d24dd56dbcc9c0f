use edge_weather::handler::{format_log_line, respond, weather_query_url, FetchOutcome};
use edge_weather::location::{resolve_location, GeographicData};
use edge_weather::render::{render_page, RenderError};
use edge_weather::report::{Current, Daily, DailyTemp, OneCall};

fn s(x: &str) -> String {
    x.to_string()
}

fn paris() -> GeographicData {
    GeographicData {
        lat: s("48.85"),
        long: s("2.35"),
        city: s("Paris"),
        country: s("FR"),
        region: s("Ile-de-France"),
    }
}

fn paris_report() -> OneCall {
    OneCall {
        lat: s("48.85"),
        lon: s("2.35"),
        timezone_offset: s("3600"),
        current: Some(Current { temp: s("60.0") }),
        daily: Some(vec![Daily {
            temp: DailyTemp {
                morn: s("55"),
                day: s("65"),
                eve: s("58"),
                night: s("50"),
                min: s("50"),
                max: s("65"),
            },
        }]),
    }
}

#[test]
fn transport_failure_gives_400_no_weather_data() {
    let reply = respond(&paris(), true, FetchOutcome::TransportFailure);
    assert_eq!(reply.status, 400);
    assert_eq!(reply.body, "no weather data available");
    assert!(!reply.is_html);
}

#[test]
fn paris_scenario_gives_200_with_all_values() {
    let (geo, known) = resolve_location(
        Some(s("Paris")),
        Some(s("FR")),
        Some(s("Ile-de-France")),
        Some((s("48.85"), s("2.35"))),
    );
    assert!(known);
    let reply = respond(&geo, known, FetchOutcome::Report(paris_report()));
    assert_eq!(reply.status, 200);
    assert!(reply.is_html);
    assert!(reply.body.contains("Paris"));
    assert!(reply.body.contains("Ile-de-France"));
    assert!(reply.body.contains("FR"));
    assert!(reply.body.contains("60"));
    assert!(reply.body.contains("55"));
    assert!(reply.body.contains("65"));
    assert!(reply.body.contains("58"));
    assert!(reply.body.contains("50"));
}

#[test]
fn successful_report_renders_current_and_first_day() {
    let reply = respond(&paris(), true, FetchOutcome::Report(paris_report()));
    assert_eq!(reply.status, 200);
    assert!(reply.body.contains("The current temperature is: 60.0"));
    assert!(reply.body.contains("morning: 55, day: 65, evening: 58, night: 50"));
    assert!(reply.body.contains("Your location is estimated using Cloudflare edge servers."));
}

#[test]
fn unknown_location_renders_fallback_sentence() {
    let (geo, known) = resolve_location(None, None, None, None);
    let reply = respond(&geo, known, FetchOutcome::Report(paris_report()));
    assert_eq!(reply.status, 200);
    assert!(reply.body.contains("Unable to determine location, using Ames as default."));
    assert!(reply.body.contains("Ames"));
    assert!(reply.body.contains("Iowa"));
    assert!(reply.body.contains("US"));
}

#[test]
fn unreadable_body_gives_502_malformed() {
    let reply = respond(&paris(), true, FetchOutcome::ParseFailure);
    assert_eq!(reply.status, 502);
    assert_eq!(reply.body, "malformed weather payload");
    assert!(!reply.is_html);
}

#[test]
fn empty_daily_gives_502_incomplete() {
    let mut oc = paris_report();
    oc.daily = Some(vec![]);
    let reply = respond(&paris(), true, FetchOutcome::Report(oc));
    assert_eq!(reply.status, 502);
    assert_eq!(reply.body, "incomplete weather data");
}

#[test]
fn missing_current_gives_502_incomplete() {
    let mut oc = paris_report();
    oc.current = None;
    let reply = respond(&paris(), true, FetchOutcome::Report(oc));
    assert_eq!(reply.status, 502);
    assert_eq!(reply.body, "incomplete weather data");
}

#[test]
fn report_with_both_parts_absent_gives_502_incomplete() {
    let oc = OneCall {
        lat: s("1"),
        lon: s("2"),
        timezone_offset: s("3"),
        current: None,
        daily: None,
    };
    let reply = respond(&paris(), true, FetchOutcome::Report(oc));
    assert_eq!(reply.status, 502);
    assert_eq!(reply.body, "incomplete weather data");
    assert!(!reply.is_html);
}

#[test]
fn render_reports_missing_current() {
    let mut oc = paris_report();
    oc.current = None;
    assert_eq!(render_page(&paris(), true, &oc), Err(RenderError::MissingCurrent));
}

#[test]
fn render_reports_missing_daily() {
    let mut oc = paris_report();
    oc.daily = None;
    assert_eq!(render_page(&paris(), true, &oc), Err(RenderError::MissingDaily));
    let mut oc2 = paris_report();
    oc2.daily = Some(vec![]);
    assert_eq!(render_page(&paris(), true, &oc2), Err(RenderError::MissingDaily));
}

#[test]
fn render_escapes_metadata_strings() {
    let geo = GeographicData {
        lat: s("1"),
        long: s("2"),
        city: s("<script>alert(\"x\")</script>"),
        country: s("A&B"),
        region: s("it's"),
    };
    let html = render_page(&geo, true, &paris_report()).unwrap();
    assert!(!html.contains("<script>"));
    assert!(html.contains("&lt;script&gt;alert(&quot;x&quot;)&lt;/script&gt;"));
    assert!(html.contains("A&amp;B"));
    assert!(html.contains("it&#39;s"));
}

#[test]
fn query_url_is_exact() {
    let url = weather_query_url(&paris(), "testkey");
    assert_eq!(
        url,
        "https://api.openweathermap.org/data/2.5/onecall?lat=48.85&lon=2.35&units=imperial&exclude=minutely,hourly,alerts&appid=testkey"
    );
}

#[test]
fn log_line_with_coordinates_and_region() {
    let line = format_log_line(
        "1700000000",
        "/",
        &Some((s("48.85"), s("2.35"))),
        &Some(s("Ile-de-France")),
    );
    assert_eq!(line, "1700000000 - [/], located at: (48.85, 2.35), within: Ile-de-France");
}

#[test]
fn log_line_with_defaults() {
    let line = format_log_line("t", "/w", &None, &None);
    assert_eq!(line, "t - [/w], located at: (0.0, 0.0), within: unknown region");
}

#[test]
fn log_line_with_coordinates_only() {
    let line = format_log_line("t", "/w", &Some((s("1.0"), s("-2.0"))), &None);
    assert_eq!(line, "t - [/w], located at: (1.0, -2.0), within: unknown region");
}

#[test]
fn log_line_with_region_only() {
    let line = format_log_line("t", "/w", &None, &Some(s("Iowa")));
    assert_eq!(line, "t - [/w], located at: (0.0, 0.0), within: Iowa");
}

#[test]
fn escape_leaves_plain_text_unchanged() {
    let html = render_page(&paris(), true, &paris_report()).unwrap();
    assert!(html.contains("Weather data for city: Paris, region: Ile-de-France, country: FR"));
}
