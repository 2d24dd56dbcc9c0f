use vstd::prelude::*;
use crate::location::{GeographicData, GeographicDataV};
use crate::render::{render_page, spec_render};
use crate::report::{OneCall, OneCallV};

verus! {

/// What the single outbound call produced, once its body, if any, has been
/// read: a transport failure, a body that could not be read as a weather
/// report, or the report.  Reading the provider's JSON into a report happens
/// beside the call itself, outside the library.
pub enum FetchOutcome {
    TransportFailure,
    ParseFailure,
    Report(OneCall),
}

/// The response the handler sends: a status code, a body, and whether the
/// body is an HTML page.
#[derive(Debug, Clone, PartialEq, Eq)]
pub struct HttpReply {
    pub status: u16,
    pub body: String,
    pub is_html: bool,
}

/// The text of the provider query for a location and an API key.
pub open spec fn query_url_of(g: GeographicDataV, key: Seq<char>) -> Seq<char> {
    "https://api.openweathermap.org/data/2.5/onecall?lat="@ + g.lat + "&lon="@ + g.long
        + "&units=imperial&exclude=minutely,hourly,alerts&appid="@ + key
}

/// Builds the provider query: the fixed endpoint, the location's
/// coordinates, imperial units, the fixed exclusion list, and the API key.
pub fn weather_query_url(geo: &GeographicData, api_key: &str) -> (r: String)
    ensures
        r@ == query_url_of(geo@, api_key@),
{
    let mut out = String::from_str("https://api.openweathermap.org/data/2.5/onecall?lat=");
    out.append(geo.lat.as_str());
    out.append("&lon=");
    out.append(geo.long.as_str());
    out.append("&units=imperial&exclude=minutely,hourly,alerts&appid=");
    out.append(api_key);
    out
}

/// The text of the line logged for an inbound request.
pub open spec fn log_line_of(
    now: Seq<char>,
    path: Seq<char>,
    coordinates: Option<(Seq<char>, Seq<char>)>,
    region: Option<Seq<char>>,
) -> Seq<char> {
    now + " - ["@ + path + "], located at: ("@ + (match coordinates {
        Some(c) => c.0,
        None => "0.0"@,
    }) + ", "@ + (match coordinates {
        Some(c) => c.1,
        None => "0.0"@,
    }) + "), within: "@ + (match region {
        Some(rg) => rg,
        None => "unknown region"@,
    })
}

/// Formats the line logged for an inbound request: timestamp, path, the
/// coordinates if present (else a zero pair), and the region if present
/// (else a fixed phrase).
pub fn format_log_line(
    now: &str,
    path: &str,
    coordinates: &Option<(String, String)>,
    region: &Option<String>,
) -> (r: String)
    ensures
        r@ == log_line_of(
            now@,
            path@,
            match coordinates {
                Some(c) => Some((c.0@, c.1@)),
                None => None,
            },
            match region {
                Some(rg) => Some(rg@),
                None => None,
            },
        ),
{
    let mut out = String::from_str(now);
    out.append(" - [");
    out.append(path);
    out.append("], located at: (");
    match coordinates {
        Some(c) => out.append(c.0.as_str()),
        None => out.append("0.0"),
    }
    out.append(", ");
    match coordinates {
        Some(c) => out.append(c.1.as_str()),
        None => out.append("0.0"),
    }
    out.append("), within: ");
    match region {
        Some(rg) => out.append(rg.as_str()),
        None => out.append("unknown region"),
    }
    out
}

/// Whether a report can be rendered: current conditions present and at
/// least one forecast day.
pub open spec fn renderable(v: OneCallV) -> bool {
    v.current is Some && v.daily is Some && v.daily->0.len() > 0
}

/// Decides the handler's response once the outbound call has completed and
/// its body, if any, has been read.
///
/// A transport failure is the one recovered error: status 400 with a fixed
/// plain-text body.  A body that could not be read as a report, and a report
/// too incomplete to render, are each answered deliberately with status 502
/// and a fixed plain-text body of their own, rather than aborting: one
/// uniform policy for both provider-side faults.  A complete report is
/// answered with status 200 and the rendered page.
pub fn respond(geo: &GeographicData, known_location: bool, outcome: FetchOutcome) -> (r: HttpReply)
    ensures
        outcome is TransportFailure ==> r.status == 400 && !r.is_html && r.body@
            == "no weather data available"@,
        outcome is ParseFailure ==> r.status == 502 && !r.is_html && r.body@
            == "malformed weather payload"@,
        outcome matches FetchOutcome::Report(oc) ==> (if renderable(oc@) {
            r.status == 200 && r.is_html && r.body@ == spec_render(geo@, known_location, oc@)
        } else {
            r.status == 502 && !r.is_html && r.body@ == "incomplete weather data"@
        }),
{
    match outcome {
        FetchOutcome::TransportFailure => HttpReply {
            status: 400,
            body: String::from_str("no weather data available"),
            is_html: false,
        },
        FetchOutcome::ParseFailure => HttpReply {
            status: 502,
            body: String::from_str("malformed weather payload"),
            is_html: false,
        },
        FetchOutcome::Report(oc) => {
            match render_page(geo, known_location, &oc) {
                Ok(html) => HttpReply { status: 200, body: html, is_html: true },
                Err(_) => HttpReply {
                    status: 502,
                    body: String::from_str("incomplete weather data"),
                    is_html: false,
                },
            }
        },
    }
}

} // verus!
