use vstd::prelude::*;

verus! {

/// A visitor's approximate location.  Coordinates are carried as the decimal
/// text in which they were received and in which they are sent onward.
#[derive(Debug, Clone, PartialEq, Eq)]
pub struct GeographicData {
    pub lat: String,
    pub long: String,
    pub city: String,
    pub country: String,
    pub region: String,
}

/// Mathematical value of a location.
pub struct GeographicDataV {
    pub lat: Seq<char>,
    pub long: Seq<char>,
    pub city: Seq<char>,
    pub country: Seq<char>,
    pub region: Seq<char>,
}

impl View for GeographicData {
    type V = GeographicDataV;

    open spec fn view(&self) -> GeographicDataV {
        GeographicDataV {
            lat: self.lat@,
            long: self.long@,
            city: self.city@,
            country: self.country@,
            region: self.region@,
        }
    }
}

/// The fixed fallback location, used whenever the request metadata is
/// incomplete.
pub fn default_location() -> (r: GeographicData)
    ensures
        r@.city == "Ames"@,
        r@.country == "US"@,
        r@.region == "Iowa"@,
        r@.lat == "42.03"@,
        r@.long == "-93.62"@,
{
    GeographicData {
        lat: String::from_str("42.03"),
        long: String::from_str("-93.62"),
        city: String::from_str("Ames"),
        country: String::from_str("US"),
        region: String::from_str("Iowa"),
    }
}

/// Builds a location from the metadata fields of a request.  All four fields
/// must be present; if any one is missing the whole derivation fails and no
/// partial result is produced.
pub fn parse_geographic_cf_data(
    city: Option<String>,
    country: Option<String>,
    region: Option<String>,
    coordinates: Option<(String, String)>,
) -> (r: Option<GeographicData>)
    ensures
        r is Some <==> (city is Some && country is Some && region is Some
            && coordinates is Some),
        r matches Some(g) ==> {
            &&& g@.city == city->0@
            &&& g@.country == country->0@
            &&& g@.region == region->0@
            &&& g@.lat == (coordinates->0).0@
            &&& g@.long == (coordinates->0).1@
        },
{
    match (city, country, region, coordinates) {
        (Some(city), Some(country), Some(region), Some((lat, long))) => Some(
            GeographicData { lat, long, city, country, region },
        ),
        _ => None,
    }
}

/// Derives the location to use for a request: the metadata-derived one when
/// all four fields are present, otherwise the fixed fallback.  The second
/// component says whether the location was derived from the metadata.
pub fn resolve_location(
    city: Option<String>,
    country: Option<String>,
    region: Option<String>,
    coordinates: Option<(String, String)>,
) -> (r: (GeographicData, bool))
    ensures
        r.1 <==> (city is Some && country is Some && region is Some && coordinates is Some),
        r.1 ==> {
            &&& r.0@.city == city->0@
            &&& r.0@.country == country->0@
            &&& r.0@.region == region->0@
            &&& r.0@.lat == (coordinates->0).0@
            &&& r.0@.long == (coordinates->0).1@
        },
        !r.1 ==> {
            &&& r.0@.city == "Ames"@
            &&& r.0@.country == "US"@
            &&& r.0@.region == "Iowa"@
            &&& r.0@.lat == "42.03"@
            &&& r.0@.long == "-93.62"@
        },
{
    match parse_geographic_cf_data(city, country, region, coordinates) {
        Some(g) => (g, true),
        None => (default_location(), false),
    }
}

} // verus!
