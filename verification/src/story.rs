//! The whole story of a conversation: days, replies, texts, words, depth and course.

use vstd::prelude::*;

use crate::calendar;
use crate::calendar::LocalTime;
use crate::couple;
use crate::couple::CoupleReport;
use crate::curios::{ScoreInputs, Share};
use crate::dig;
use crate::lexical;
use crate::loader;
use crate::model::{MessageFact, TextMessage};
use crate::timeline;
use crate::trend;

verus! {

/// The story without what is added to it.
pub open spec fn bare(r: CoupleReport) -> CoupleReport {
    CoupleReport { words: None, dig: None, trend: None, trend_monthly: None, ..r }
}

/// `r` is the whole story of the messages as of `today`, given the local time of each. Words are
/// counted where any are asked for.
pub open spec fn tells_all(
    r: CoupleReport,
    facts: Seq<MessageFact>,
    times: Seq<Option<LocalTime>>,
    today: int,
    texts: Seq<TextMessage>,
    words: int,
    is_group: bool,
) -> bool {
    let me = loader::SELF_SENDER;
    &&& couple::tells(bare(r), facts, times, today, Some(me), Some(texts))
    &&& match r.words {
        Some(w) => words > 0 && lexical::is_word_freq(w, texts, lexical::segmented(texts), Some(me), words),
        None => words <= 0,
    }
    &&& match r.dig {
        Some(d) => dig::details(d, facts, times, me, is_group),
        None => false,
    }
    &&& match r.trend {
        Some(t) => trend::is_series(t, facts, times, trend::Bucket::Week),
        None => false,
    }
    &&& match r.trend_monthly {
        Some(t) => trend::is_series(t, facts, times, trend::Bucket::Month),
        None => false,
    }
}

/// The whole story of the messages as of `today`, given the local time of each.
pub fn whole_story_at(
    facts: &[MessageFact],
    times: &Vec<Option<LocalTime>>,
    today: i64,
    texts: &[TextMessage],
    words: usize,
    is_group: bool,
) -> (r: CoupleReport)
    requires
        facts@.len() <= i64::MAX,
        times@.len() == facts@.len(),
        texts@.len() <= i64::MAX,
        couple::all_chars(texts@) <= i64::MAX,
        calendar::first_day() <= today <= calendar::last_day(),
    ensures
        tells_all(r, facts@, times@, today as int, texts@, words as int, is_group),
{
    let me = loader::SELF_SENDER;
    let mut r = couple::compute_at(facts, times, today, Some(me), Some(texts));
    let ghost base = r;
    if words > 0 {
        r.words = Some(lexical::word_freq(texts, Some(me), words));
    }
    r.dig = Some(dig::compute_at(facts, times, me, is_group));
    r.trend = Some(trend::series_at(facts, times, trend::Bucket::Week));
    r.trend_monthly = Some(trend::series_at(facts, times, trend::Bucket::Month));
    assert(bare(r) == base);
    r
}

/// `today` is the number of a day that a clock may show.
pub open spec fn may_be_today(today: int) -> bool {
    calendar::first_day() <= today <= calendar::last_day()
}

/// The whole story of the messages: by the local clock and as of today.
pub fn whole_story(facts: &[MessageFact], texts: &[TextMessage], words: usize, is_group: bool) -> (r: CoupleReport)
    requires
        facts@.len() <= i64::MAX,
        texts@.len() <= i64::MAX,
        couple::all_chars(texts@) <= i64::MAX,
    ensures
        exists|times: Seq<Option<LocalTime>>, today: int|
            #![trigger timeline::clock_readings(facts@, times), may_be_today(today)]
            timeline::clock_readings(facts@, times) && may_be_today(today) && tells_all(
                r,
                facts@,
                times,
                today,
                texts@,
                words as int,
                is_group,
            ),
{
    let times = timeline::read_clock(facts);
    let today = calendar::today_ordinal();
    assert(may_be_today(today as int));
    whole_story_at(facts, &times, today, texts, words, is_group)
}

/// What the warmth of a story is measured by.
pub open spec fn measured(r: CoupleReport) -> ScoreInputs {
    ScoreInputs {
        total: r.total,
        my_count: r.my_count,
        other_count: r.other_count,
        longest_streak: r.longest_streak,
        active_ratio: Share { part: r.active_days, whole: r.nth_day_today },
        my_quick: Share { part: r.my_quick_replies, whole: r.my_reply_count },
        other_quick: Share { part: r.other_quick_replies, whole: r.other_reply_count },
    }
}

/// What the warmth of a story is measured by.
pub fn score_inputs(r: &CoupleReport) -> (sc: ScoreInputs)
    ensures
        sc == measured(*r),
{
    ScoreInputs {
        total: r.total,
        my_count: r.my_count,
        other_count: r.other_count,
        longest_streak: r.longest_streak,
        active_ratio: Share { part: r.active_days, whole: r.nth_day_today },
        my_quick: Share { part: r.my_quick_replies, whole: r.my_reply_count },
        other_quick: Share { part: r.other_quick_replies, whole: r.other_reply_count },
    }
}

/// The parts of a whole story agree: on the replies of either side, on the days with a message, and on
/// the messages by week and by month.
pub proof fn parts_agree(
    r: CoupleReport,
    facts: Seq<MessageFact>,
    times: Seq<Option<LocalTime>>,
    today: int,
    texts: Seq<TextMessage>,
    words: int,
    is_group: bool,
)
    requires
        tells_all(r, facts, times, today, texts, words, is_group),
    ensures
        r.total == r.dig->0.total,
        r.my_reply_count == r.dig->0.my_reply.samples,
        r.other_reply_count == r.dig->0.other_reply.samples,
        r.active_days == r.dig->0.days_self_open + r.dig->0.days_other_open,
        r.trend->0.total == r.trend_monthly->0.total,
{
    let me = loader::SELF_SENDER;
    let b = bare(r);
    couple::reports_agree_on_replies(b, r.dig->0, facts, times, today, me, Some(texts), is_group);
    couple::reports_agree_on_days(b, r.dig->0, facts, times, today, me, Some(texts), is_group);
    trend::weeks_and_months_agree(r.trend->0, r.trend_monthly->0, facts, times);
}

}
