//! Widths, sizes and coordinates, as they stand in a page.

use vstd::prelude::*;

use crate::couple::CoupleReport;
use crate::trend::TrendSeries;

verus! {

/// Where the points of a series stand in its chart.
pub struct TrendMarks {
    pub x: Vec<String>,
    pub y: Vec<String>,
    /// The height of the label above the highest point.
    pub label_y: String,
}

/// Where the hours of both sides stand in their chart.
pub struct RhythmMarks {
    pub x: Vec<String>,
    pub me: Vec<String>,
    pub them: Vec<String>,
}

/// All that is measured for a page.
pub struct Figures {
    /// Shares of all messages, in percent.
    pub my_share: String,
    pub other_share: String,
    /// Days with a message, in percent.
    pub active: String,
    /// Quick and fast replies of either side, in percent.
    pub my_quick: String,
    pub other_quick: String,
    pub my_fast: String,
    pub other_fast: String,
    /// Days that either side opens, in percent.
    pub my_open: String,
    pub other_open: String,
    /// Size and opacity of each word of the cloud.
    pub cloud: Vec<(String, String)>,
    pub weekly: TrendMarks,
    pub monthly: TrendMarks,
    pub rhythm: RhythmMarks,
}

/// The marks are those of as many points as the series has.
pub open spec fn marks_fit(t: TrendSeries, m: TrendMarks) -> bool {
    t.points@.len() == m.x@.len() && t.points@.len() == m.y@.len()
}

/// The marks are those of the series, where there is one.
pub open spec fn trend_fits(t: Option<TrendSeries>, m: TrendMarks) -> bool {
    match t {
        Some(t) => marks_fit(t, m),
        None => true,
    }
}

/// The marks are those of a day of twenty-four hours.
pub open spec fn rhythm_fits(m: RhythmMarks) -> bool {
    m.x@.len() == 24 && m.me@.len() == 24 && m.them@.len() == 24
}

/// Each word of the cloud has a size.
pub open spec fn cloud_fits(r: CoupleReport, f: Figures) -> bool {
    match r.words {
        Some(w) => w.overall@.len() == f.cloud@.len(),
        None => true,
    }
}

/// There is a figure for each thing that is shown.
pub open spec fn figures_fit(r: CoupleReport, f: Figures) -> bool {
    cloud_fits(r, f) && trend_fits(r.trend, f.weekly) && trend_fits(r.trend_monthly, f.monthly) && rhythm_fits(f.rhythm)
}

}
