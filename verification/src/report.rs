use vstd::prelude::*;
use crate::text::num_str;

verus! {

/// Current conditions: the temperature, as the decimal text the provider sent.
#[derive(Debug, Clone, PartialEq, Eq)]
pub struct Current {
    pub temp: String,
}

/// The temperatures of one forecast day, each as decimal text.
#[derive(Debug, Clone, PartialEq, Eq)]
pub struct DailyTemp {
    pub morn: String,
    pub day: String,
    pub eve: String,
    pub night: String,
    pub min: String,
    pub max: String,
}

/// One forecast day.
#[derive(Debug, Clone, PartialEq, Eq)]
pub struct Daily {
    pub temp: DailyTemp,
}

/// A weather report: coordinates, UTC offset, and the two independently
/// optional parts of the provider's payload, current conditions and the
/// daily forecast.
#[derive(Debug, Clone, PartialEq, Eq)]
pub struct OneCall {
    pub lat: String,
    pub lon: String,
    pub timezone_offset: String,
    pub current: Option<Current>,
    pub daily: Option<Vec<Daily>>,
}

/// Mathematical value of one forecast day: the six temperature texts.
#[verifier::ext_equal]
pub struct DailyTempV {
    pub morn: Seq<char>,
    pub day: Seq<char>,
    pub eve: Seq<char>,
    pub night: Seq<char>,
    pub min: Seq<char>,
    pub max: Seq<char>,
}

/// Mathematical value of a weather report.
#[verifier::ext_equal]
pub struct OneCallV {
    pub lat: Seq<char>,
    pub lon: Seq<char>,
    pub timezone_offset: Seq<char>,
    pub current: Option<Seq<char>>,
    pub daily: Option<Seq<DailyTempV>>,
}

impl View for DailyTemp {
    type V = DailyTempV;

    open spec fn view(&self) -> DailyTempV {
        DailyTempV {
            morn: self.morn@,
            day: self.day@,
            eve: self.eve@,
            night: self.night@,
            min: self.min@,
            max: self.max@,
        }
    }
}

impl View for Daily {
    type V = DailyTempV;

    open spec fn view(&self) -> DailyTempV {
        self.temp@
    }
}

impl View for Current {
    type V = Seq<char>;

    open spec fn view(&self) -> Seq<char> {
        self.temp@
    }
}

/// The value carried by an optional `current` part.
pub open spec fn current_view(c: Option<Current>) -> Option<Seq<char>> {
    match c {
        Some(x) => Some(x@),
        None => None,
    }
}

/// The values carried by a sequence of forecast days.
pub open spec fn days_view(ds: Seq<Daily>) -> Seq<DailyTempV> {
    ds.map_values(|x: Daily| x@)
}

impl View for OneCall {
    type V = OneCallV;

    open spec fn view(&self) -> OneCallV {
        OneCallV {
            lat: self.lat@,
            lon: self.lon@,
            timezone_offset: self.timezone_offset@,
            current: current_view(self.current),
            daily: match self.daily {
                Some(d) => Some(days_view(d@)),
                None => None,
            },
        }
    }
}

/// Well-formedness of one day's value: every temperature is decimal text.
pub open spec fn daily_wf(d: DailyTempV) -> bool {
    num_str(d.morn) && num_str(d.day) && num_str(d.eve) && num_str(d.night) && num_str(d.min)
        && num_str(d.max)
}

/// Well-formedness of a sequence of forecast days.
pub open spec fn days_wf(ds: Seq<DailyTempV>) -> bool {
    forall|i: int| 0 <= i < ds.len() ==> daily_wf(#[trigger] ds[i])
}

/// Well-formedness of a report's value: every numeric field, present or
/// optional, is decimal text.
pub open spec fn one_call_wf(v: OneCallV) -> bool {
    &&& num_str(v.lat)
    &&& num_str(v.lon)
    &&& num_str(v.timezone_offset)
    &&& match v.current {
        Some(t) => num_str(t),
        None => true,
    }
    &&& match v.daily {
        Some(ds) => days_wf(ds),
        None => true,
    }
}

} // verus!
