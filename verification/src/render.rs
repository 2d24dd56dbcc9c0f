use vstd::prelude::*;
use crate::location::{GeographicData, GeographicDataV};
use crate::report::{OneCall, OneCallV};
use crate::text::{escape_html, escaped};

verus! {

/// Why a page could not be rendered from a report.
#[derive(Debug, Clone, Copy, PartialEq, Eq)]
pub enum RenderError {
    /// The report carries no current conditions.
    MissingCurrent,
    /// The report carries no forecast day.
    MissingDaily,
}

/// The page rendered for a location and a report, as text.  Location fields
/// come from request metadata, so every one of them is HTML-escaped; the
/// temperatures come from the provider's payload, where the parser admits
/// only digits, dots and minus signs.  Meaningful when the report holds
/// current conditions and at least one forecast day.
pub open spec fn spec_render(g: GeographicDataV, known_location: bool, v: OneCallV) -> Seq<char> {
    "<!DOCTYPE html><head><title>Geolocation: Weather</title><meta charset=\"UTF-8\"></head><body><style>body{padding:6em; font-family: sans-serif;} h1{color:#f6821f}</style><div id=\"container\">"@
        + "<h1>Weather: Rust + WASM + Cloudflare Workers</h1>"@
        + "<p>This demo uses weather data from <a href=\"https://openweathermap.org\" target=\"_blank\">openweathermap.org</a>.</p>"@
        + "<p>The provider's API documentation is available <a href=\"https://openweathermap.org/api\" target=\"_blank\">here</a>.</p>"@
        + (if known_location {
        "<p>Your location is estimated using Cloudflare edge servers.</p>"@
    } else {
        "<p><b>Unable to determine location, using Ames as default.</b></p>"@
    }) + "<p>Showing weather data for: Lat: "@ + escaped(g.lat) + ", Long: "@ + escaped(g.long)
        + ".</p>"@ + "<p>Weather data for city: "@ + escaped(g.city) + ", region: "@ + escaped(
        g.region,
    ) + ", country: "@ + escaped(g.country) + "</p>"@ + "<p>The current temperature is: "@
        + v.current->0 + "\u{b0}F.</p>"@ + "<p>Daily forecast: morning: "@ + v.daily->0[0].morn
        + ", day: "@ + v.daily->0[0].day + ", evening: "@ + v.daily->0[0].eve + ", night: "@
        + v.daily->0[0].night + "</p>"@ + "</div></body>"@
}

/// Renders the page for a location and a report.  Succeeds exactly when the
/// report holds current conditions and a nonempty forecast; an incomplete
/// report is a structured error, never an abort.
pub fn render_page(geo: &GeographicData, known_location: bool, weather: &OneCall) -> (r: Result<
    String,
    RenderError,
>)
    ensures
        r is Ok <==> (weather@.current is Some && weather@.daily is Some && weather@.daily->0.len()
            > 0),
        r matches Ok(h) ==> h@ == spec_render(geo@, known_location, weather@),
        r matches Err(e) ==> (e == RenderError::MissingCurrent <==> weather@.current is None),
{
    let current = match &weather.current {
        Some(c) => c,
        None => {
            return Err(RenderError::MissingCurrent);
        },
    };
    let first_day = match &weather.daily {
        Some(ds) => {
            if ds.len() == 0 {
                return Err(RenderError::MissingDaily);
            }
            &ds[0]
        },
        None => {
            return Err(RenderError::MissingDaily);
        },
    };
    let mut out = String::from_str(
        "<!DOCTYPE html><head><title>Geolocation: Weather</title><meta charset=\"UTF-8\"></head><body><style>body{padding:6em; font-family: sans-serif;} h1{color:#f6821f}</style><div id=\"container\">",
    );
    out.append("<h1>Weather: Rust + WASM + Cloudflare Workers</h1>");
    out.append(
        "<p>This demo uses weather data from <a href=\"https://openweathermap.org\" target=\"_blank\">openweathermap.org</a>.</p>",
    );
    out.append(
        "<p>The provider's API documentation is available <a href=\"https://openweathermap.org/api\" target=\"_blank\">here</a>.</p>",
    );
    if known_location {
        out.append("<p>Your location is estimated using Cloudflare edge servers.</p>");
    } else {
        out.append("<p><b>Unable to determine location, using Ames as default.</b></p>");
    }
    out.append("<p>Showing weather data for: Lat: ");
    let piece = escape_html(geo.lat.as_str());
    out.append(piece.as_str());
    out.append(", Long: ");
    let piece = escape_html(geo.long.as_str());
    out.append(piece.as_str());
    out.append(".</p>");
    out.append("<p>Weather data for city: ");
    let piece = escape_html(geo.city.as_str());
    out.append(piece.as_str());
    out.append(", region: ");
    let piece = escape_html(geo.region.as_str());
    out.append(piece.as_str());
    out.append(", country: ");
    let piece = escape_html(geo.country.as_str());
    out.append(piece.as_str());
    out.append("</p>");
    out.append("<p>The current temperature is: ");
    out.append(current.temp.as_str());
    out.append("\u{b0}F.</p>");
    out.append("<p>Daily forecast: morning: ");
    out.append(first_day.temp.morn.as_str());
    out.append(", day: ");
    out.append(first_day.temp.day.as_str());
    out.append(", evening: ");
    out.append(first_day.temp.eve.as_str());
    out.append(", night: ");
    out.append(first_day.temp.night.as_str());
    out.append("</p>");
    out.append("</div></body>");
    Ok(out)
}

} // verus!
