//! The story of two people: days together, streaks and silences, quick replies and what the
//! texts say.

use vstd::prelude::*;
use vstd::string::*;

use crate::calendar;
use crate::calendar::LocalTime;
use crate::dig::ConversationDetail;
use crate::lexical::WordFreq;
use crate::model;
use crate::model::{MessageFact, TextMessage};
use crate::ordered;
use crate::ordered::SortedMap;
use crate::seqs;
use crate::text;
use crate::timeline;
use crate::trend;
use crate::trend::TrendSeries;

verus! {

/// The last hour of the day that counts as late night.
pub const LATE_NIGHT_MAX_HOUR: u32 = 4;

/// Replies within this many seconds are quick.
pub const QUICK_REPLY_SEC: i64 = 30;

/// Replies within this many seconds are fast.
pub const FAST_REPLY_SEC: i64 = 60;

/// The type code of a call.
pub const CALL_TYPE: i64 = 50;

/// The story of a conversation.
pub struct CoupleReport {
    pub total: i64,
    pub my_count: i64,
    pub other_count: i64,
    /// The first day with a message.
    pub first_day: Option<String>,
    /// Days from the first to the last day with a message, both included.
    pub span_days: i64,
    /// The number of today, counted from the first day.
    pub nth_day_today: i64,
    /// Days with a message.
    pub active_days: i64,
    pub longest_streak: i64,
    pub current_streak: i64,
    pub longest_silence_days: i64,
    /// The last day before the longest silence and the first day after it.
    pub longest_silence_range: Option<(String, String)>,
    /// The day with the most messages.
    pub peak_day: Option<(String, i64)>,
    pub late_night_count: i64,
    pub call_count: i64,
    pub last_day: Option<String>,
    /// Replies within half a minute.
    pub my_quick_replies: i64,
    pub other_quick_replies: i64,
    /// Replies within a minute.
    pub my_fast_replies: i64,
    pub other_fast_replies: i64,
    pub my_reply_count: i64,
    pub other_reply_count: i64,
    pub text: Option<TextMetrics>,
    pub words: Option<WordFreq>,
    pub dig: Option<ConversationDetail>,
    pub trend: Option<TrendSeries>,
    pub trend_monthly: Option<TrendSeries>,
}

/// What the texts say.
pub struct TextMetrics {
    pub my_chars: i64,
    pub other_chars: i64,
    /// The longest text: its length, whether it is one's own, and when.
    pub longest: Option<(i64, bool, i64)>,
    /// Keywords with the messages of one's own and of the others that hold them, the most
    /// frequent first.
    pub keywords: Vec<(String, i64, i64)>,
}

/// The keywords that are looked for.
pub open spec fn keyword_list() -> Seq<Seq<char>> {
    seq![
        "早安"@,
        "晚安"@,
        "想你"@,
        "爱你"@,
        "喜欢你"@,
        "老婆"@,
        "老公"@,
        "宝宝"@,
        "宝贝"@,
        "亲爱的"@,
        "么么"@,
        "抱抱"@,
        "亲亲"@,
        "哈哈"@,
        "嗯嗯"@,
        "在吗"@,
        "到家"@,
        "加油"@,
        "生日快乐"@,
    ]
}

/// The keywords that are looked for.
pub fn keywords() -> (r: Vec<&'static str>)
    ensures
        text::literals(r@) == keyword_list(),
{
    let r: Vec<&'static str> = vec![
        "早安",
        "晚安",
        "想你",
        "爱你",
        "喜欢你",
        "老婆",
        "老公",
        "宝宝",
        "宝贝",
        "亲爱的",
        "么么",
        "抱抱",
        "亲亲",
        "哈哈",
        "嗯嗯",
        "在吗",
        "到家",
        "加油",
        "生日快乐",
    ];
    assert(text::literals(r@) =~= keyword_list());
    r
}

/// The length of a message's text; a message without text has none.
pub open spec fn text_len(m: TextMessage) -> nat {
    match m.text {
        Some(t) => t@.len(),
        None => 0,
    }
}

/// The characters written by oneself, or by the others.
pub open spec fn side_chars(texts: Seq<TextMessage>, self_id: Option<i64>, mine: bool) -> nat
    decreases texts.len(),
{
    if texts.len() == 0 {
        0
    } else {
        side_chars(texts.drop_last(), self_id, mine) + if model::from_self(self_id, texts.last().sender_id) == mine {
            text_len(texts.last())
        } else {
            0
        }
    }
}

/// All characters.
pub open spec fn all_chars(texts: Seq<TextMessage>) -> nat
    decreases texts.len(),
{
    if texts.len() == 0 {
        0
    } else {
        all_chars(texts.drop_last()) + text_len(texts.last())
    }
}

/// Every character is one's own or not.
pub proof fn chars_split(texts: Seq<TextMessage>, self_id: Option<i64>)
    ensures
        side_chars(texts, self_id, true) + side_chars(texts, self_id, false) == all_chars(texts),
    decreases texts.len(),
{
    if texts.len() > 0 {
        chars_split(texts.drop_last(), self_id);
    }
}

/// The first texts hold no more characters than all.
pub proof fn chars_grow(texts: Seq<TextMessage>, i: int)
    requires
        0 <= i <= texts.len(),
    ensures
        all_chars(texts.take(i)) <= all_chars(texts),
    decreases texts.len(),
{
    if i < texts.len() {
        chars_grow(texts.drop_last(), i);
        assert(texts.drop_last().take(i) =~= texts.take(i));
    } else {
        assert(texts.take(i) =~= texts);
    }
}

/// No text is longer than all texts together.
pub proof fn text_within_all(texts: Seq<TextMessage>, i: int)
    requires
        0 <= i < texts.len(),
    ensures
        text_len(texts[i]) <= all_chars(texts),
    decreases texts.len(),
{
    if i < texts.len() - 1 {
        text_within_all(texts.drop_last(), i);
    }
}

/// The message at `i` is the first of the longest texts.
pub open spec fn longest_at(texts: Seq<TextMessage>, i: int) -> bool {
    &&& 0 <= i < texts.len()
    &&& texts[i].text is Some
    &&& forall|j: int|
        0 <= j < texts.len() && (#[trigger] texts[j]).text is Some ==> text_len(texts[j]) <= text_len(texts[i])
    &&& forall|j: int| 0 <= j < i && (#[trigger] texts[j]).text is Some ==> text_len(texts[j]) < text_len(texts[i])
}

/// `longest` describes the first of the longest texts, where there is a text.
pub open spec fn is_longest(
    texts: Seq<TextMessage>,
    self_id: Option<i64>,
    longest: Option<(i64, bool, i64)>,
) -> bool {
    match longest {
        Some((chars, mine, time)) => exists|i: int| #[trigger]
            longest_at(texts, i) && chars == text_len(texts[i]) && mine == model::from_self(
                self_id,
                texts[i].sender_id,
            ) && time == texts[i].create_time,
        None => forall|j: int| 0 <= j < texts.len() ==> (#[trigger] texts[j]).text is None,
    }
}

/// The message holds the word.
pub open spec fn says(m: TextMessage, word: Seq<char>) -> bool {
    m.text is Some && text::has_text(m.text->0@, word)
}

/// How many messages of oneself, or of the others, hold the word.
pub open spec fn says_count(texts: Seq<TextMessage>, self_id: Option<i64>, mine: bool, word: Seq<char>) -> nat {
    seqs::count_if(
        texts,
        |m: TextMessage| says(m, word) && model::from_self(self_id, m.sender_id) == mine,
    )
}

/// The first `n` keywords that occur at all, each with the messages of either side that hold it.
pub open spec fn keyword_rows(texts: Seq<TextMessage>, self_id: Option<i64>, n: nat) -> Seq<(Seq<char>, i64, i64)>
    decreases n,
{
    if n == 0 {
        Seq::empty()
    } else {
        let word = keyword_list()[n - 1];
        let mine = says_count(texts, self_id, true, word);
        let theirs = says_count(texts, self_id, false, word);
        let before = keyword_rows(texts, self_id, (n - 1) as nat);
        if mine + theirs > 0 {
            before.push((word, mine as i64, theirs as i64))
        } else {
            before
        }
    }
}

/// The rows with their words as text.
pub open spec fn word_rows(rows: Seq<(String, i64, i64)>) -> Seq<(Seq<char>, i64, i64)> {
    rows.map_values(|r: (String, i64, i64)| (r.0@, r.1, r.2))
}

/// The messages of both sides together.
pub open spec fn row_totals(rows: Seq<(Seq<char>, i64, i64)>) -> Seq<i64> {
    rows.map_values(|r: (Seq<char>, i64, i64)| (r.1 + r.2) as i64)
}

/// `out` holds the rows with the largest totals first, equal totals in their own order.
pub open spec fn by_total(out: Seq<(Seq<char>, i64, i64)>, rows: Seq<(Seq<char>, i64, i64)>) -> bool {
    exists|order: Seq<usize>| #[trigger]
        ordered::falling_order(order, row_totals(rows)) && out == order.map_values(|p: usize| rows[p as int])
}

/// `m` says what the texts hold.
pub open spec fn measures(m: TextMetrics, texts: Seq<TextMessage>, self_id: Option<i64>) -> bool {
    &&& m.my_chars == side_chars(texts, self_id, true)
    &&& m.other_chars == side_chars(texts, self_id, false)
    &&& is_longest(texts, self_id, m.longest)
    &&& by_total(word_rows(m.keywords@), keyword_rows(texts, self_id, keyword_list().len()))
}

/// Counts the messages of both sides that hold the word.
fn count_saying(texts: &[TextMessage], self_id: Option<i64>, word: &str) -> (r: (i64, i64))
    requires
        texts@.len() <= i64::MAX,
    ensures
        r.0 == says_count(texts@, self_id, true, word@),
        r.1 == says_count(texts@, self_id, false, word@),
        0 <= r.0,
        0 <= r.1,
        r.0 + r.1 <= texts@.len(),
{
    let mut mine: i64 = 0;
    let mut theirs: i64 = 0;
    let mut i: usize = 0;
    while i < texts.len()
        invariant
            i <= texts@.len() <= i64::MAX,
            mine == says_count(texts@.take(i as int), self_id, true, word@),
            theirs == says_count(texts@.take(i as int), self_id, false, word@),
            0 <= mine,
            0 <= theirs,
            mine + theirs <= i,
        decreases texts@.len() - i,
    {
        proof {
            seqs::count_step(
                texts@,
                i as int,
                |m: TextMessage| says(m, word@) && model::from_self(self_id, m.sender_id) == true,
            );
            seqs::count_step(
                texts@,
                i as int,
                |m: TextMessage| says(m, word@) && model::from_self(self_id, m.sender_id) == false,
            );
        }
        if let Some(t) = &texts[i].text {
            if text::contains(t.as_str(), word) {
                if model::is_self(self_id, texts[i].sender_id) {
                    mine = mine + 1;
                } else {
                    theirs = theirs + 1;
                }
            }
        }
        i = i + 1;
    }
    assert(texts@.take(i as int) =~= texts@);
    (mine, theirs)
}

/// The keywords that occur, the most frequent first.
fn keyword_hits(texts: &[TextMessage], self_id: Option<i64>) -> (out: Vec<(String, i64, i64)>)
    requires
        texts@.len() <= i64::MAX,
    ensures
        by_total(word_rows(out@), keyword_rows(texts@, self_id, keyword_list().len())),
{
    let words = keywords();
    let mut rows: Vec<(String, i64, i64)> = Vec::new();
    let mut totals: Vec<i64> = Vec::new();
    let mut i: usize = 0;
    while i < words.len()
        invariant
            i <= words@.len(),
            text::literals(words@) == keyword_list(),
            texts@.len() <= i64::MAX,
            word_rows(rows@) == keyword_rows(texts@, self_id, i as nat),
            totals@ == row_totals(word_rows(rows@)),
        decreases words@.len() - i,
    {
        let word = words[i];
        assert(keyword_list()[i as int] == word@);
        let (mine, theirs) = count_saying(texts, self_id, word);
        if mine + theirs > 0 {
            let ghost before = rows@;
            rows.push((word.to_string(), mine, theirs));
            totals.push(mine + theirs);
            proof {
                assert(word_rows(rows@) =~= word_rows(before).push((word@, mine, theirs)));
                assert(totals@ =~= row_totals(word_rows(rows@)));
            }
        }
        i = i + 1;
    }
    let order = ordered::falling(&totals);
    let ghost all = word_rows(rows@);
    assert(words@.len() == keyword_list().len());
    let mut out: Vec<(String, i64, i64)> = Vec::new();
    let mut k: usize = 0;
    while k < order.len()
        invariant
            k <= order@.len(),
            all == word_rows(rows@),
            ordered::falling_order(order@, row_totals(all)),
            word_rows(out@) == order@.take(k as int).map_values(|p: usize| all[p as int]),
        decreases order@.len() - k,
    {
        let p: usize = order[k];
        let ghost before = out@;
        assert(0 <= order@[k as int] < row_totals(all).len());
        out.push((rows[p].0.clone(), rows[p].1, rows[p].2));
        proof {
            assert(all[p as int] == (rows@[p as int].0@, rows@[p as int].1, rows@[p as int].2));
            assert(word_rows(out@) =~= word_rows(before).push(all[p as int]));
            assert(order@.take(k + 1).map_values(|p: usize| all[p as int]) =~= order@.take(k as int).map_values(
                |p: usize| all[p as int],
            ).push(all[p as int]));
        }
        k = k + 1;
    }
    assert(order@.take(k as int) =~= order@);
    out
}

/// Measures the texts of a conversation.
pub fn compute_text(texts: &[TextMessage], self_id: Option<i64>) -> (m: TextMetrics)
    requires
        texts@.len() <= i64::MAX,
        all_chars(texts@) <= i64::MAX,
    ensures
        measures(m, texts@, self_id),
{
    let mut my_chars: i64 = 0;
    let mut other_chars: i64 = 0;
    let mut longest: Option<(i64, bool, i64)> = None;
    let mut i: usize = 0;
    while i < texts.len()
        invariant
            i <= texts@.len() <= i64::MAX,
            all_chars(texts@) <= i64::MAX,
            my_chars == side_chars(texts@.take(i as int), self_id, true),
            other_chars == side_chars(texts@.take(i as int), self_id, false),
            is_longest(texts@.take(i as int), self_id, longest),
        decreases texts@.len() - i,
    {
        let ghost before = texts@.take(i as int);
        let ghost now = texts@.take(i + 1);
        proof {
            assert(now.drop_last() =~= before);
            chars_split(now, self_id);
            chars_grow(texts@, i + 1);
        }
        if let Some(t) = &texts[i].text {
            let cs = text::chars_of(t.as_str());
            assert(cs@.len() <= all_chars(now));
            let chars: i64 = cs.len() as i64;
            let mine = model::is_self(self_id, texts[i].sender_id);
            if mine {
                my_chars = my_chars + chars;
            } else {
                other_chars = other_chars + chars;
            }
            let longer = match longest {
                Some((c, _, _)) => chars > c,
                None => true,
            };
            if longer {
                longest = Some((chars, mine, texts[i].create_time));
                proof {
                    assert(now[i as int] == texts@[i as int]);
                    assert forall|j: int| 0 <= j < i && (#[trigger] now[j]).text is Some implies text_len(now[j])
                        < text_len(now[i as int]) by {
                        assert(now[j] == before[j]);
                    }
                    assert(longest_at(now, i as int));
                }
            } else {
                proof {
                    let best = longest->0;
                    let k = choose|k: int| #[trigger]
                        longest_at(before, k) && best.0 == text_len(before[k]) && best.1 == model::from_self(
                            self_id,
                            before[k].sender_id,
                        ) && best.2 == before[k].create_time;
                    assert(now[k] == before[k]);
                    assert forall|j: int| 0 <= j < now.len() && (#[trigger] now[j]).text is Some implies text_len(
                        now[j],
                    ) <= text_len(now[k]) by {
                        if j < i {
                            assert(now[j] == before[j]);
                        }
                    }
                    assert forall|j: int| 0 <= j < k && (#[trigger] now[j]).text is Some implies text_len(now[j])
                        < text_len(now[k]) by {
                        assert(now[j] == before[j]);
                    }
                    assert(longest_at(now, k));
                }
            }
        } else {
            proof {
                match longest {
                    Some(best) => {
                        let k = choose|k: int| #[trigger]
                            longest_at(before, k) && best.0 == text_len(before[k]) && best.1 == model::from_self(
                                self_id,
                                before[k].sender_id,
                            ) && best.2 == before[k].create_time;
                        assert(now[k] == before[k]);
                        assert forall|j: int| 0 <= j < now.len() && (#[trigger] now[j]).text is Some implies text_len(
                            now[j],
                        ) <= text_len(now[k]) by {
                            assert(now[j] == before[j]);
                        }
                        assert forall|j: int| 0 <= j < k && (#[trigger] now[j]).text is Some implies text_len(now[j])
                            < text_len(now[k]) by {
                            assert(now[j] == before[j]);
                        }
                        assert(longest_at(now, k));
                    },
                    None => {
                        assert forall|j: int| 0 <= j < now.len() implies (#[trigger] now[j]).text is None by {
                            if j < i {
                                assert(now[j] == before[j]);
                            }
                        }
                    },
                }
            }
        }
        i = i + 1;
    }
    assert(texts@.take(i as int) =~= texts@);
    TextMetrics { my_chars, other_chars, longest, keywords: keyword_hits(texts, self_id) }
}

/// How the days follow each other.
pub struct StreakInfo {
    pub longest_streak: i64,
    pub current_streak: i64,
    pub longest_silence_days: i64,
    /// The last day before the longest silence and the first day after it.
    pub longest_silence_range: Option<(String, String)>,
}

/// The days whose key reads as a date, with the number of the day.
pub open spec fn numbered(days: Seq<(Seq<char>, i64)>) -> Seq<(Seq<char>, int)>
    decreases days.len(),
{
    if days.len() == 0 {
        Seq::empty()
    } else {
        let before = numbered(days.drop_last());
        match calendar::parsed_date(days.last().0) {
            Some(n) => before.push((days.last().0, n)),
            None => before,
        }
    }
}

/// How many days in a row end with the day at `i`.
pub open spec fn run_to(p: Seq<(Seq<char>, int)>, i: int) -> int
    decreases i,
{
    if i > 0 && p[i].1 - p[i - 1].1 == 1 {
        run_to(p, i - 1) + 1
    } else {
        1
    }
}

/// The days without a message between the day at `i` and the next.
pub open spec fn silence(p: Seq<(Seq<char>, int)>, i: int) -> int {
    p[i + 1].1 - p[i].1 - 1
}

/// `n` is the length of the longest row of days.
pub open spec fn is_longest_run(p: Seq<(Seq<char>, int)>, n: int) -> bool {
    if p.len() == 0 {
        n == 0
    } else {
        &&& exists|i: int| 0 <= i < p.len() && #[trigger] run_to(p, i) == n
        &&& forall|i: int| 0 <= i < p.len() ==> #[trigger] run_to(p, i) <= n
    }
}

/// The row of days that lasts until yesterday or today.
pub open spec fn current_run(p: Seq<(Seq<char>, int)>, today: int) -> int {
    if p.len() == 0 || today - p.last().1 > 1 {
        0
    } else {
        run_to(p, p.len() - 1)
    }
}

/// The silence after the day at `i` is the first of the longest.
pub open spec fn silent_at(p: Seq<(Seq<char>, int)>, i: int) -> bool {
    &&& 0 <= i < p.len() - 1
    &&& forall|j: int| 0 <= j < p.len() - 1 ==> #[trigger] silence(p, j) <= silence(p, i)
    &&& forall|j: int| 0 <= j < i ==> #[trigger] silence(p, j) < silence(p, i)
}

/// `days` is the length of the longest silence and `range` the days around it.
pub open spec fn is_longest_silence(p: Seq<(Seq<char>, int)>, days: int, range: Option<(Seq<char>, Seq<char>)>) -> bool {
    match range {
        Some((a, b)) => exists|i: int| #[trigger]
            silent_at(p, i) && days == silence(p, i) && days > 0 && a == p[i].0 && b == p[i + 1].0,
        None => days == 0 && forall|j: int| 0 <= j < p.len() - 1 ==> #[trigger] silence(p, j) <= 0,
    }
}

/// The two days as text.
pub open spec fn range_view(range: Option<(String, String)>) -> Option<(Seq<char>, Seq<char>)> {
    match range {
        Some((a, b)) => Some((a@, b@)),
        None => None,
    }
}

/// `s` says how the days follow each other, as of `today`.
pub open spec fn is_streaks(s: StreakInfo, p: Seq<(Seq<char>, int)>, today: int) -> bool {
    &&& is_longest_run(p, s.longest_streak as int)
    &&& s.current_streak == current_run(p, today)
    &&& is_longest_silence(p, s.longest_silence_days as int, range_view(s.longest_silence_range))
}

/// The numbers stand for the days.
spec fn numbers_days(names: Seq<String>, numbers: Seq<i64>, p: Seq<(Seq<char>, int)>) -> bool {
    &&& names.len() == p.len()
    &&& numbers.len() == p.len()
    &&& forall|i: int| 0 <= i < p.len() ==> #[trigger] p[i] == (names[i]@, numbers[i] as int)
    &&& forall|i: int|
        0 <= i < p.len() ==> calendar::first_day() <= #[trigger] numbers[i] <= calendar::last_day()
}

/// The days whose key reads as a date, and their numbers.
fn number_days(days: &Vec<(String, i64)>) -> (r: (Vec<String>, Vec<i64>))
    ensures
        numbers_days(r.0@, r.1@, numbered(ordered::keyed(days@))),
        r.0@.len() <= days@.len(),
{
    let mut names: Vec<String> = Vec::new();
    let mut numbers: Vec<i64> = Vec::new();
    let mut i: usize = 0;
    let ghost keys = ordered::keyed(days@);
    while i < days.len()
        invariant
            i <= days@.len(),
            keys == ordered::keyed(days@),
            names@.len() <= i,
            numbers_days(names@, numbers@, numbered(keys.take(i as int))),
        decreases days@.len() - i,
    {
        proof {
            assert(keys.take(i + 1).drop_last() =~= keys.take(i as int));
            assert(keys[i as int].0 == days@[i as int].0@);
        }
        if let Some(n) = calendar::parse_date(days[i].0.as_str()) {
            names.push(days[i].0.clone());
            numbers.push(n);
        }
        i = i + 1;
    }
    assert(keys.take(i as int) =~= keys);
    (names, numbers)
}

/// The longest row of days, the current one and the longest silence, of days in the order of
/// their keys.
pub fn streaks(days: &Vec<(String, i64)>, today: i64) -> (s: StreakInfo)
    requires
        days@.len() <= i64::MAX,
        calendar::first_day() <= today <= calendar::last_day(),
    ensures
        is_streaks(s, numbered(ordered::keyed(days@)), today as int),
{
    let (names, numbers) = number_days(days);
    let n = numbers.len();
    let ghost p = numbered(ordered::keyed(days@));
    proof {
        calendar::kept_days_fit();
    }
    if n == 0 {
        return StreakInfo {
            longest_streak: 0,
            current_streak: 0,
            longest_silence_days: 0,
            longest_silence_range: None,
        };
    }
    let mut longest: i64 = 1;
    let mut run: i64 = 1;
    let mut quiet: i64 = 0;
    let mut quiet_at: Option<usize> = None;
    let mut i: usize = 1;
    assert(run_to(p, 0) == 1);
    while i < n
        invariant
            1 <= i <= n,
            n == p.len(),
            n <= i64::MAX,
            numbers_days(names@, numbers@, p),
            i32::MIN <= calendar::first_day(),
            calendar::last_day() <= i32::MAX,
            run == run_to(p, i - 1),
            1 <= run <= longest <= i,
            exists|k: int| 0 <= k < i && #[trigger] run_to(p, k) == longest,
            forall|k: int| 0 <= k < i ==> #[trigger] run_to(p, k) <= longest,
            quiet >= 0,
            match quiet_at {
                Some(q) => {
                    &&& q < i - 1
                    &&& quiet == silence(p, q as int)
                    &&& quiet > 0
                    &&& forall|j: int| 0 <= j < i - 1 ==> #[trigger] silence(p, j) <= quiet
                    &&& forall|j: int| 0 <= j < q ==> #[trigger] silence(p, j) < quiet
                },
                None => quiet == 0 && forall|j: int| 0 <= j < i - 1 ==> #[trigger] silence(p, j) <= 0,
            },
        decreases n - i,
    {
        let ghost w = choose|k: int| 0 <= k < i && #[trigger] run_to(p, k) == longest;
        proof {
            assert(p[i as int] == (names@[i as int]@, numbers@[i as int] as int));
            assert(p[i - 1] == (names@[i - 1]@, numbers@[i - 1] as int));
            assert(calendar::first_day() <= numbers@[i as int] <= calendar::last_day());
            assert(calendar::first_day() <= numbers@[i - 1] <= calendar::last_day());
        }
        let gap: i64 = numbers[i] - numbers[i - 1];
        assert(silence(p, i - 1) == gap - 1);
        if gap == 1 {
            run = run + 1;
            if run > longest {
                longest = run;
            }
        } else {
            let between: i64 = gap - 1;
            if between > quiet {
                quiet = between;
                quiet_at = Some(i - 1);
            }
            run = 1;
        }
        proof {
            assert(run_to(p, i as int) == run);
            assert(run_to(p, w) <= longest);
            assert(longest == run_to(p, w) || longest == run_to(p, i as int));
        }
        i = i + 1;
    }
    proof {
        assert(p[n - 1] == (names@[n - 1]@, numbers@[n - 1] as int));
        assert(calendar::first_day() <= numbers@[n - 1] <= calendar::last_day());
    }
    let current: i64 = if today - numbers[n - 1] > 1 {
        0
    } else {
        run
    };
    let range = match quiet_at {
        Some(q) => {
            proof {
                assert(p[q as int] == (names@[q as int]@, numbers@[q as int] as int));
                assert(p[q + 1] == (names@[q + 1]@, numbers@[q + 1] as int));
                assert(silent_at(p, q as int));
            }
            Some((names[q].clone(), names[q + 1].clone()))
        },
        None => None,
    };
    StreakInfo {
        longest_streak: longest,
        current_streak: current,
        longest_silence_days: quiet,
        longest_silence_range: range,
    }
}

/// The local hours of the messages that have one.
pub open spec fn hours(facts: Seq<MessageFact>, times: Seq<Option<LocalTime>>) -> Seq<u32>
    decreases facts.len(),
{
    if facts.len() == 0 {
        Seq::empty()
    } else {
        let before = hours(facts.drop_last(), times);
        let t = times[facts.len() - 1];
        if timeline::is_dated(facts.last()) && t is Some {
            before.push(t->0.hour)
        } else {
            before
        }
    }
}

/// How many of the hours are late at night.
pub open spec fn late_hours(hours: Seq<u32>) -> nat {
    seqs::count_if(hours, |h: u32| h <= LATE_NIGHT_MAX_HOUR)
}

/// How many of the messages are one's own.
pub open spec fn own_count(d: Seq<MessageFact>, self_id: Option<i64>) -> nat {
    seqs::count_if(d, |f: MessageFact| model::from_self(self_id, f.sender_id))
}

/// How many of the messages are calls.
pub open spec fn calls(d: Seq<MessageFact>) -> nat {
    seqs::count_if(d, |f: MessageFact| f.base_type == CALL_TYPE)
}

/// The days with their messages, in the order of their keys.
pub open spec fn day_list(facts: Seq<MessageFact>, times: Seq<Option<LocalTime>>) -> Seq<(Seq<char>, i64)> {
    ordered::listing::<String, i64>(ordered::tally(timeline::day_keys(facts, times)))
}

/// Counts one's own messages, the others' and the calls, among the messages that carry a time.
fn count_dated(facts: &[MessageFact], self_id: Option<i64>) -> (r: (i64, i64, i64))
    requires
        facts@.len() <= i64::MAX,
    ensures
        r.0 == own_count(timeline::dated(facts@), self_id),
        r.1 == timeline::dated(facts@).len() - r.0,
        r.2 == calls(timeline::dated(facts@)),
{
    let mut mine: i64 = 0;
    let mut theirs: i64 = 0;
    let mut call_count: i64 = 0;
    let mut i: usize = 0;
    while i < facts.len()
        invariant
            i <= facts@.len() <= i64::MAX,
            mine == own_count(timeline::dated(facts@.take(i as int)), self_id),
            theirs == timeline::dated(facts@.take(i as int)).len() - mine,
            call_count == calls(timeline::dated(facts@.take(i as int))),
            0 <= mine <= i,
            0 <= theirs <= i,
            mine + theirs <= i,
            0 <= call_count <= i,
        decreases facts@.len() - i,
    {
        let f = facts[i];
        let ghost before = timeline::dated(facts@.take(i as int));
        assert(facts@.take(i + 1).drop_last() =~= facts@.take(i as int));
        if f.create_time > 0 {
            assert(before.push(f).drop_last() =~= before);
            if model::is_self(self_id, f.sender_id) {
                mine = mine + 1;
            } else {
                theirs = theirs + 1;
            }
            if f.base_type == CALL_TYPE {
                call_count = call_count + 1;
            }
        }
        i = i + 1;
    }
    assert(facts@.take(i as int) =~= facts@);
    (mine, theirs, call_count)
}

/// Counts the messages of every local day, and those late at night.
fn count_days(facts: &[MessageFact], times: &Vec<Option<LocalTime>>) -> (r: (SortedMap<String, i64>, i64))
    requires
        facts@.len() <= i64::MAX,
        times@.len() == facts@.len(),
    ensures
        r.0.wf(),
        r.0.map() == ordered::tally(timeline::day_keys(facts@, times@)),
        r.1 == late_hours(hours(facts@, times@)),
{
    let mut by_day: SortedMap<String, i64> = SortedMap::new();
    let mut late: i64 = 0;
    let mut i: usize = 0;
    assert(by_day.map() =~= ordered::tally(timeline::day_keys(facts@.take(0), times@)));
    while i < facts.len()
        invariant
            i <= facts@.len() <= i64::MAX,
            times@.len() == facts@.len(),
            by_day.wf(),
            by_day.map() == ordered::tally(timeline::day_keys(facts@.take(i as int), times@)),
            late == late_hours(hours(facts@.take(i as int), times@)),
            0 <= late <= i,
        decreases facts@.len() - i,
    {
        let ghost before = timeline::day_keys(facts@.take(i as int), times@);
        let ghost hours_before = hours(facts@.take(i as int), times@);
        assert(facts@.take(i + 1).drop_last() =~= facts@.take(i as int));
        if facts[i].create_time > 0 {
            if let Some(t) = times[i] {
                assert(hours_before.push(t.hour).drop_last() =~= hours_before);
                if t.hour <= LATE_NIGHT_MAX_HOUR {
                    late = late + 1;
                }
                by_day.count(calendar::date_key_of(&t.date), Ghost(before));
            }
        }
        i = i + 1;
    }
    assert(facts@.take(i as int) =~= facts@);
    (by_day, late)
}

/// How many of the gaps are at most `limit`.
pub open spec fn within(gaps: Seq<i64>, limit: i64) -> nat {
    seqs::count_if(gaps, |g: i64| g <= limit)
}

/// Counts the gaps that are at most `limit`.
fn count_within(gaps: &Vec<i64>, limit: i64) -> (n: i64)
    requires
        gaps@.len() <= i64::MAX,
    ensures
        n == within(gaps@, limit),
{
    let mut n: i64 = 0;
    let mut i: usize = 0;
    while i < gaps.len()
        invariant
            i <= gaps@.len() <= i64::MAX,
            n == within(gaps@.take(i as int), limit),
            0 <= n <= i,
        decreases gaps@.len() - i,
    {
        proof {
            seqs::count_step(gaps@, i as int, |g: i64| g <= limit);
        }
        if gaps[i] <= limit {
            n = n + 1;
        }
        i = i + 1;
    }
    assert(gaps@.take(i as int) =~= gaps@);
    n
}

/// How many replies of either side there are, and how many of them are quick and fast.
pub struct QuickReplies {
    pub my_quick: i64,
    pub other_quick: i64,
    pub my_fast: i64,
    pub other_fast: i64,
    pub my_total: i64,
    pub other_total: i64,
}

/// `q` counts the quick replies among all replies within the cap.
pub open spec fn counts_quick(q: QuickReplies, facts: Seq<MessageFact>, self_id: Option<i64>) -> bool {
    let replies = timeline::replies(timeline::dated(facts));
    let mine = timeline::latencies(replies, self_id, true);
    let theirs = timeline::latencies(replies, self_id, false);
    &&& q.my_quick == within(mine, QUICK_REPLY_SEC)
    &&& q.other_quick == within(theirs, QUICK_REPLY_SEC)
    &&& q.my_fast == within(mine, FAST_REPLY_SEC)
    &&& q.other_fast == within(theirs, FAST_REPLY_SEC)
    &&& q.my_total == mine.len()
    &&& q.other_total == theirs.len()
}

/// Counts the quick replies of either side.
pub fn quick_reply(facts: &[MessageFact], self_id: Option<i64>) -> (q: QuickReplies)
    requires
        facts@.len() <= i64::MAX,
    ensures
        counts_quick(q, facts@, self_id),
{
    let (mine, theirs, _late) = timeline::reply_gaps(facts, self_id);
    proof {
        let d = timeline::dated(facts@);
        timeline::dated_messages(facts@);
        timeline::replies_are_fewer(d);
        timeline::replies_split(timeline::replies(d), self_id);
    }
    QuickReplies {
        my_quick: count_within(&mine, QUICK_REPLY_SEC),
        other_quick: count_within(&theirs, QUICK_REPLY_SEC),
        my_fast: count_within(&mine, FAST_REPLY_SEC),
        other_fast: count_within(&theirs, FAST_REPLY_SEC),
        my_total: mine.len() as i64,
        other_total: theirs.len() as i64,
    }
}

/// The number of days from `a` to `b`, both included, and at least one.
pub open spec fn days_from(a: int, b: int) -> int {
    if b >= a {
        b - a + 1
    } else {
        1
    }
}

/// The number of the first day; a key that is no date counts as day zero.
pub open spec fn first_number(days: Seq<(Seq<char>, i64)>) -> int {
    match calendar::parsed_date(days[0].0) {
        Some(n) => n,
        None => 0,
    }
}

/// The number of the last day, or of the first where the key of the last is no date.
pub open spec fn last_number(days: Seq<(Seq<char>, i64)>) -> int {
    match calendar::parsed_date(days.last().0) {
        Some(n) => n,
        None => first_number(days),
    }
}

/// `r` tells how the days go on, as of `today`.
pub open spec fn tells_days(r: CoupleReport, days: Seq<(Seq<char>, i64)>, today: int) -> bool {
    let p = numbered(days);
    &&& r.active_days == days.len()
    &&& is_longest_run(p, r.longest_streak as int)
    &&& r.current_streak == current_run(p, today)
    &&& is_longest_silence(p, r.longest_silence_days as int, range_view(r.longest_silence_range))
    &&& if days.len() == 0 {
        r.first_day is None && r.last_day is None && r.peak_day is None && r.span_days == 0 && r.nth_day_today == 0
    } else {
        &&& text::text_view(r.first_day) == Some(days[0].0)
        &&& text::text_view(r.last_day) == Some(days.last().0)
        &&& r.span_days == days_from(first_number(days), last_number(days))
        &&& r.nth_day_today == days_from(first_number(days), today)
        &&& match r.peak_day {
            Some((day, count)) => exists|i: int| #[trigger] trend::peaks_at(days, i) && days[i] == (day@, count),
            None => false,
        }
    }
}

/// `r` is the story of the messages as of `today`, given the local time of each.
pub open spec fn tells(
    r: CoupleReport,
    facts: Seq<MessageFact>,
    times: Seq<Option<LocalTime>>,
    today: int,
    self_id: Option<i64>,
    texts: Option<Seq<TextMessage>>,
) -> bool {
    let d = timeline::dated(facts);
    &&& r.total == facts.len()
    &&& r.my_count == own_count(d, self_id)
    &&& r.other_count == d.len() - own_count(d, self_id)
    &&& r.call_count == calls(d)
    &&& r.late_night_count == late_hours(hours(facts, times))
    &&& tells_days(r, day_list(facts, times), today)
    &&& counts_quick(
        QuickReplies {
            my_quick: r.my_quick_replies,
            other_quick: r.other_quick_replies,
            my_fast: r.my_fast_replies,
            other_fast: r.other_fast_replies,
            my_total: r.my_reply_count,
            other_total: r.other_reply_count,
        },
        facts,
        self_id,
    )
    &&& match texts {
        Some(t) => r.text is Some && measures(r.text->0, t, self_id),
        None => r.text is None,
    }
    &&& r.words is None
    &&& r.dig is None
    &&& r.trend is None
    &&& r.trend_monthly is None
}

/// The last of the days with the most messages.
fn busiest(days: &Vec<(String, i64)>) -> (at: usize)
    requires
        days@.len() > 0,
    ensures
        trend::peaks_at(ordered::keyed(days@), at as int),
{
    let ghost views = ordered::keyed(days@);
    let mut at: usize = 0;
    let mut i: usize = 1;
    while i < days.len()
        invariant
            1 <= i <= days@.len(),
            at < i,
            views == ordered::keyed(days@),
            forall|j: int| 0 <= j < i ==> (#[trigger] views[j]).1 <= views[at as int].1,
            forall|j: int| at < j < i ==> (#[trigger] views[j]).1 < views[at as int].1,
        decreases days@.len() - i,
    {
        assert(views[i as int].1 == days@[i as int].1);
        assert(views[at as int].1 == days@[at as int].1);
        if days[i].1 >= days[at].1 {
            at = i;
        }
        i = i + 1;
    }
    at
}

/// The days from `a` to `b`, both included, and at least one.
fn count_days_from(a: i64, b: i64) -> (n: i64)
    requires
        i32::MIN <= a <= i32::MAX,
        i32::MIN <= b <= i32::MAX,
    ensures
        n == days_from(a as int, b as int),
{
    if b >= a {
        b - a + 1
    } else {
        1
    }
}

/// The story of the messages as of `today`, given the local time of each.
pub fn compute_at(
    facts: &[MessageFact],
    times: &Vec<Option<LocalTime>>,
    today: i64,
    self_id: Option<i64>,
    texts: Option<&[TextMessage]>,
) -> (r: CoupleReport)
    requires
        facts@.len() <= i64::MAX,
        times@.len() == facts@.len(),
        calendar::first_day() <= today <= calendar::last_day(),
        texts matches Some(t) ==> t@.len() <= i64::MAX && all_chars(t@) <= i64::MAX,
    ensures
        tells(
            r,
            facts@,
            times@,
            today as int,
            self_id,
            match texts {
                Some(t) => Some(t@),
                None => None,
            },
        ),
{
    let (my_count, other_count, call_count) = count_dated(facts, self_id);
    let (by_day, late_night_count) = count_days(facts, times);
    let days = by_day.into_pairs();
    let n = days.len();
    let ghost list = day_list(facts@, times@);
    proof {
        assert(ordered::keyed(days@) == list);
        ordered::listing_size::<String, i64>(list, ordered::tally(timeline::day_keys(facts@, times@)));
        ordered::tally_size(timeline::day_keys(facts@, times@));
        timeline::day_keys_at_most(facts@, times@);
        calendar::kept_days_fit();
    }
    let mut first_day: Option<String> = None;
    let mut last_day: Option<String> = None;
    let mut peak_day: Option<(String, i64)> = None;
    let mut span_days: i64 = 0;
    let mut nth_day_today: i64 = 0;
    if n > 0 {
        assert(list[0] == (days@[0].0@, days@[0].1));
        assert(list.last() == (days@[n - 1].0@, days@[n - 1].1));
        let a: i64 = match calendar::parse_date(days[0].0.as_str()) {
            Some(k) => k,
            None => 0,
        };
        let b: i64 = match calendar::parse_date(days[n - 1].0.as_str()) {
            Some(k) => k,
            None => a,
        };
        span_days = count_days_from(a, b);
        nth_day_today = count_days_from(a, today);
        first_day = Some(days[0].0.clone());
        last_day = Some(days[n - 1].0.clone());
        let at = busiest(&days);
        assert(list[at as int] == (days@[at as int].0@, days@[at as int].1));
        peak_day = Some((days[at].0.clone(), days[at].1));
    }
    let s = streaks(&days, today);
    let q = quick_reply(facts, self_id);
    let text = match texts {
        Some(t) => Some(compute_text(t, self_id)),
        None => None,
    };
    CoupleReport {
        total: facts.len() as i64,
        my_count,
        other_count,
        first_day,
        span_days,
        nth_day_today,
        active_days: n as i64,
        longest_streak: s.longest_streak,
        current_streak: s.current_streak,
        longest_silence_days: s.longest_silence_days,
        longest_silence_range: s.longest_silence_range,
        peak_day,
        late_night_count,
        call_count,
        last_day,
        my_quick_replies: q.my_quick,
        other_quick_replies: q.other_quick,
        my_fast_replies: q.my_fast,
        other_fast_replies: q.other_fast,
        my_reply_count: q.my_total,
        other_reply_count: q.other_total,
        text,
        words: None,
        dig: None,
        trend: None,
        trend_monthly: None,
    }
}

/// The story of the messages: by the local clock and as of today. With `self_id` the two sides
/// are told apart; with `texts` the texts are measured.
pub fn compute(facts: &[MessageFact], self_id: Option<i64>, texts: Option<&[TextMessage]>) -> (r: CoupleReport)
    requires
        facts@.len() <= i64::MAX,
        texts matches Some(t) ==> t@.len() <= i64::MAX && all_chars(t@) <= i64::MAX,
    ensures
        exists|times: Seq<Option<LocalTime>>, today: int|
            #![trigger timeline::clock_readings(facts@, times), current_run(numbered(day_list(facts@, times)), today)]
            timeline::clock_readings(facts@, times) && calendar::first_day() <= today <= calendar::last_day() && tells(
                r,
                facts@,
                times,
                today,
                self_id,
                match texts {
                    Some(t) => Some(t@),
                    None => None,
                },
            ),
{
    let times = timeline::read_clock(facts);
    let today = calendar::today_ordinal();
    let r = compute_at(facts, &times, today, self_id, texts);
    assert(current_run(numbered(day_list(facts@, times@)), today as int) == r.current_streak);
    r
}

impl CoupleReport {
    /// The story when it is not known which messages are one's own.
    pub fn without_self(facts: &[MessageFact]) -> (r: Self)
        requires
            facts@.len() <= i64::MAX,
        ensures
            exists|times: Seq<Option<LocalTime>>, today: int|
                #![trigger timeline::clock_readings(facts@, times), current_run(numbered(day_list(facts@, times)), today)]
                timeline::clock_readings(facts@, times) && calendar::first_day() <= today <= calendar::last_day()
                    && tells(r, facts@, times, today, None, None),
    {
        compute(facts, None, None)
    }
}

proof fn runs_are_short(p: Seq<(Seq<char>, int)>, i: int)
    requires
        0 <= i,
    ensures
        1 <= run_to(p, i) <= i + 1,
    decreases i,
{
    if i > 0 {
        runs_are_short(p, i - 1);
    }
}

proof fn numbered_at_most(days: Seq<(Seq<char>, i64)>)
    ensures
        numbered(days).len() <= days.len(),
    decreases days.len(),
{
    if days.len() > 0 {
        numbered_at_most(days.drop_last());
    }
}

/// The row of days that lasts is no longer than the longest one, and that has no more days than there
/// are days with a message.
pub proof fn rows_hold_active_days(
    r: CoupleReport,
    facts: Seq<MessageFact>,
    times: Seq<Option<LocalTime>>,
    today: int,
    self_id: Option<i64>,
    texts: Option<Seq<TextMessage>>,
)
    requires
        tells(r, facts, times, today, self_id, texts),
    ensures
        0 <= r.current_streak <= r.longest_streak <= r.active_days,
        r.longest_streak > 0 ==> r.first_day is Some,
{
    let days = day_list(facts, times);
    let p = numbered(days);
    numbered_at_most(days);
    if p.len() > 0 {
        let i = choose|i: int| 0 <= i < p.len() && #[trigger] run_to(p, i) == r.longest_streak;
        runs_are_short(p, i);
        runs_are_short(p, p.len() - 1);
        assert(run_to(p, p.len() - 1) <= r.longest_streak);
    }
}

/// Every reading shows a year of up to four digits.
pub open spec fn years_are_short(times: Seq<Option<LocalTime>>) -> bool {
    forall|i: int|
        0 <= i < times.len() ==> ((#[trigger] times[i]) matches Some(t) ==> 0 <= t.date.year <= 9999)
}

proof fn day_key_is_of_a_reading(facts: Seq<MessageFact>, times: Seq<Option<LocalTime>>, key: Seq<char>) -> (i: int)
    requires
        timeline::day_keys(facts, times).contains(key),
    ensures
        0 <= i < facts.len(),
        times[i] is Some,
        key == calendar::date_key(times[i]->0.date),
    decreases facts.len(),
{
    let keys = timeline::day_keys(facts, times);
    let before = timeline::day_keys(facts.drop_last(), times);
    if before.contains(key) {
        day_key_is_of_a_reading(facts.drop_last(), times, key)
    } else {
        let k = keys.index_of(key);
        if k < before.len() {
            assert(before[k] == key);
        }
        facts.len() - 1
    }
}

/// Days whose keys all read as dates are all numbered, in their order.
pub proof fn numbered_in_full(days: Seq<(Seq<char>, i64)>)
    requires
        forall|i: int| 0 <= i < days.len() ==> calendar::parsed_date((#[trigger] days[i]).0) is Some,
    ensures
        numbered(days).len() == days.len(),
        forall|i: int|
            0 <= i < days.len() ==> #[trigger] numbered(days)[i] == (days[i].0, calendar::parsed_date(days[i].0)->0),
    decreases days.len(),
{
    if days.len() > 0 {
        let less = days.drop_last();
        assert forall|i: int| 0 <= i < less.len() implies calendar::parsed_date((#[trigger] less[i]).0) is Some by {
            assert(less[i] == days[i]);
        }
        numbered_in_full(less);
        assert(days[days.len() - 1] == days.last());
        assert forall|i: int| 0 <= i < days.len() implies #[trigger] numbered(days)[i] == (
            days[i].0,
            calendar::parsed_date(days[i].0)->0,
        ) by {
            if i < less.len() {
                assert(numbered(less)[i] == (less[i].0, calendar::parsed_date(less[i].0)->0));
            }
        }
    }
}

/// The days with a message are listed in the order of the calendar, for years of up to four digits.
pub proof fn days_come_in_order(facts: Seq<MessageFact>, times: Seq<Option<LocalTime>>)
    requires
        timeline::clock_readings(facts, times),
        years_are_short(times),
    ensures
        numbered(day_list(facts, times)).len() == day_list(facts, times).len(),
        forall|i: int, j: int|
            0 <= i < j < day_list(facts, times).len() ==> (#[trigger] numbered(day_list(facts, times))[i]).1 < (
            #[trigger] numbered(day_list(facts, times))[j]).1,
        forall|i: int|
            0 <= i < day_list(facts, times).len() ==> calendar::parsed_date((#[trigger] day_list(facts, times)[i]).0)
                == Some(numbered(day_list(facts, times))[i].1),
{
    let keys = timeline::day_keys(facts, times);
    let days = day_list(facts, times);
    ordered::tally_size(keys);
    ordered::listing_lists::<String, i64>(ordered::tally(keys));
    assert forall|i: int| 0 <= i < days.len() implies exists|d: calendar::Date|
        calendar::is_kept(d) && 0 <= d.year <= 9999 && #[trigger] calendar::date_key(d) == days[i].0
            && calendar::parsed_date((#[trigger] days[i]).0) == Some(calendar::day_number(d)) by {
        assert(ordered::tally(keys).contains_pair(days[i].0, days[i].1));
        let k = day_key_is_of_a_reading(facts, times, days[i].0);
        let d = times[k]->0.date;
        assert(calendar::clock_gives(facts[k].create_time as int, times[k]));
        calendar::date_key_reads_back(d);
        assert(calendar::date_key(d) == days[i].0);
    }
    numbered_in_full(days);
    let p = numbered(days);
    assert forall|i: int, j: int| 0 <= i < j < days.len() implies (#[trigger] p[i]).1 < (#[trigger] p[j]).1 by {
        assert(calendar::parsed_date(days[i].0) is Some && calendar::parsed_date(days[j].0) is Some);
        let a = choose|d: calendar::Date|
            calendar::is_kept(d) && 0 <= d.year <= 9999 && #[trigger] calendar::date_key(d) == days[i].0
                && calendar::parsed_date(days[i].0) == Some(calendar::day_number(d));
        let b = choose|d: calendar::Date|
            calendar::is_kept(d) && 0 <= d.year <= 9999 && #[trigger] calendar::date_key(d) == days[j].0
                && calendar::parsed_date(days[j].0) == Some(calendar::day_number(d));
        assert(ordered::text_before(days[i].0, days[j].0));
        calendar::date_keys_order_dates(a, b);
        calendar::day_numbers_order_dates(a, b);
    }
}

proof fn rising_numbers_spread(p: Seq<(Seq<char>, int)>, i: int, j: int)
    requires
        0 <= i <= j < p.len(),
        forall|i: int, j: int| 0 <= i < j < p.len() ==> (#[trigger] p[i]).1 < (#[trigger] p[j]).1,
    ensures
        p[j].1 - p[i].1 >= j - i,
    decreases j - i,
{
    if i < j {
        rising_numbers_spread(p, i, j - 1);
        assert(p[j - 1].1 < p[j].1);
    }
}

/// From the first to the last day there is room for the days with a message and for the longest
/// silence, and from the first day to today, which is no earlier than the last, for all of these; for
/// years of up to four digits.
pub proof fn days_fit_the_span(
    r: CoupleReport,
    facts: Seq<MessageFact>,
    times: Seq<Option<LocalTime>>,
    today: int,
    self_id: Option<i64>,
    texts: Option<Seq<TextMessage>>,
)
    requires
        tells(r, facts, times, today, self_id, texts),
        timeline::clock_readings(facts, times),
        years_are_short(times),
    ensures
        r.active_days + r.longest_silence_days <= r.span_days,
        r.active_days > 0 && today >= last_number(day_list(facts, times)) ==> r.span_days <= r.nth_day_today,
{
    let days = day_list(facts, times);
    let p = numbered(days);
    days_come_in_order(facts, times);
    if days.len() > 0 {
        let n = days.len() as int;
        assert(calendar::parsed_date(days[0].0) == Some(p[0].1));
        assert(calendar::parsed_date(days[n - 1].0) == Some(p[n - 1].1));
        rising_numbers_spread(p, 0, n - 1);
        if let Some((a, b)) = range_view(r.longest_silence_range) {
            let i = choose|i: int| #[trigger]
                silent_at(p, i) && r.longest_silence_days == silence(p, i) && r.longest_silence_days > 0 && a == p[i].0
                    && b == p[i + 1].0;
            rising_numbers_spread(p, 0, i);
            rising_numbers_spread(p, i + 1, n - 1);
        }
    }
}

/// Both reports on a conversation count the same replies.
pub proof fn reports_agree_on_replies(
    r: CoupleReport,
    d: ConversationDetail,
    facts: Seq<MessageFact>,
    times: Seq<Option<LocalTime>>,
    today: int,
    self_id: i64,
    texts: Option<Seq<TextMessage>>,
    is_group: bool,
)
    requires
        tells(r, facts, times, today, Some(self_id), texts),
        crate::dig::details(d, facts, times, self_id, is_group),
    ensures
        r.my_reply_count == d.my_reply.samples,
        r.other_reply_count == d.other_reply.samples,
        r.total == d.total,
{
}

/// No more replies are quick than fast, and none are fast that are no replies.
pub proof fn quick_replies_are_fast(q: QuickReplies, facts: Seq<MessageFact>, self_id: Option<i64>)
    requires
        counts_quick(q, facts, self_id),
    ensures
        0 <= q.my_quick <= q.my_fast <= q.my_total,
        0 <= q.other_quick <= q.other_fast <= q.other_total,
{
    let replies = timeline::replies(timeline::dated(facts));
    within_grows(timeline::latencies(replies, self_id, true), QUICK_REPLY_SEC, FAST_REPLY_SEC);
    within_grows(timeline::latencies(replies, self_id, false), QUICK_REPLY_SEC, FAST_REPLY_SEC);
    seqs::count_at_most(timeline::latencies(replies, self_id, true), |g: i64| g <= FAST_REPLY_SEC);
    seqs::count_at_most(timeline::latencies(replies, self_id, false), |g: i64| g <= FAST_REPLY_SEC);
}

proof fn within_grows(gaps: Seq<i64>, a: i64, b: i64)
    requires
        a <= b,
    ensures
        within(gaps, a) <= within(gaps, b),
    decreases gaps.len(),
{
    if gaps.len() > 0 {
        within_grows(gaps.drop_last(), a, b);
    }
}

/// Both reports on a conversation see the same days: each day with a message has one opener.
pub proof fn reports_agree_on_days(
    r: CoupleReport,
    d: ConversationDetail,
    facts: Seq<MessageFact>,
    times: Seq<Option<LocalTime>>,
    today: int,
    self_id: i64,
    texts: Option<Seq<TextMessage>>,
    is_group: bool,
)
    requires
        tells(r, facts, times, today, Some(self_id), texts),
        crate::dig::details(d, facts, times, self_id, is_group),
    ensures
        d.days_self_open + d.days_other_open == r.active_days,
{
    let by_day = ordered::tally(timeline::day_keys(facts, times));
    let openers = crate::dig::openers(facts, times, Some(self_id));
    crate::dig::opened_days_are_active_days(facts, times, Some(self_id));
    ordered::tally_size(timeline::day_keys(facts, times));
    ordered::listing_lists::<String, i64>(by_day);
    ordered::listing_size::<String, i64>(day_list(facts, times), by_day);
    ordered::listing_lists::<String, (bool, i64)>(openers);
    ordered::listing_size::<String, (bool, i64)>(
        crate::dig::opener_list(facts, times, Some(self_id)),
        openers,
    );
}

proof fn reading_has_a_bucket(facts: Seq<MessageFact>, times: Seq<Option<LocalTime>>, key: Seq<char>) -> (i: int)
    requires
        timeline::day_keys(facts, times).contains(key),
        timeline::clock_readings(facts, times),
        years_are_short(times),
    ensures
        0 <= i < facts.len(),
        times[i] is Some,
        key == calendar::date_key(times[i]->0.date),
        trend::buckets(facts, times, trend::Bucket::Day).contains(calendar::day_number(times[i]->0.date) as i64),
    decreases facts.len(),
{
    let n = facts.len() - 1;
    let less = facts.drop_last();
    let before = timeline::day_keys(less, times);
    let now = trend::buckets(facts, times, trend::Bucket::Day);
    let earlier = trend::buckets(less, times, trend::Bucket::Day);
    if before.contains(key) {
        let shorter = times.drop_last();
        same_days(less, times, shorter);
        assert(timeline::clock_readings(less, shorter)) by {
            assert forall|i: int| 0 <= i < less.len() implies calendar::clock_gives(
                less[i].create_time as int,
                #[trigger] shorter[i],
            ) by {
                assert(calendar::clock_gives(facts[i].create_time as int, times[i]));
            }
        }
        assert(years_are_short(shorter)) by {
            assert forall|i: int| 0 <= i < shorter.len() implies ((#[trigger] shorter[i]) matches Some(t) ==> 0
                <= t.date.year <= 9999) by {
                assert(shorter[i] == times[i]);
            }
        }
        let i = reading_has_a_bucket(less, shorter, key);
        let k = calendar::day_number(times[i]->0.date) as i64;
        assert(earlier.contains(k));
        assert(now[earlier.index_of(k)] == k);
        i
    } else {
        let keys = timeline::day_keys(facts, times);
        let k = keys.index_of(key);
        if k < before.len() {
            assert(before[k] == key);
        }
        assert(calendar::clock_gives(facts[n].create_time as int, times[n]));
        assert(now[earlier.len() as int] == calendar::day_number(times[n]->0.date) as i64);
        n
    }
}

/// Only the readings of the messages themselves count.
proof fn same_days(facts: Seq<MessageFact>, a: Seq<Option<LocalTime>>, b: Seq<Option<LocalTime>>)
    requires
        facts.len() <= a.len(),
        facts.len() <= b.len(),
        forall|i: int| 0 <= i < facts.len() ==> #[trigger] a[i] == b[i],
    ensures
        timeline::day_keys(facts, a) == timeline::day_keys(facts, b),
        trend::buckets(facts, a, trend::Bucket::Day) == trend::buckets(facts, b, trend::Bucket::Day),
    decreases facts.len(),
{
    if facts.len() > 0 {
        same_days(facts.drop_last(), a, b);
        assert(a[facts.len() - 1] == b[facts.len() - 1]);
    }
}

proof fn bucket_is_of_a_reading(facts: Seq<MessageFact>, times: Seq<Option<LocalTime>>, k: i64) -> (i: int)
    requires
        trend::buckets(facts, times, trend::Bucket::Day).contains(k),
    ensures
        0 <= i < facts.len(),
        times[i] is Some,
        calendar::is_kept(times[i]->0.date),
        k == calendar::day_number(times[i]->0.date) as i64,
        timeline::day_keys(facts, times).contains(calendar::date_key(times[i]->0.date)),
    decreases facts.len(),
{
    let less = facts.drop_last();
    let now = trend::buckets(facts, times, trend::Bucket::Day);
    let earlier = trend::buckets(less, times, trend::Bucket::Day);
    let keys = timeline::day_keys(facts, times);
    let before = timeline::day_keys(less, times);
    if earlier.contains(k) {
        let i = bucket_is_of_a_reading(less, times, k);
        let key = calendar::date_key(times[i]->0.date);
        assert(keys[before.index_of(key)] == key);
        i
    } else {
        let p = now.index_of(k);
        if p < earlier.len() {
            assert(earlier[p] == k);
        }
        let i = facts.len() - 1;
        assert(keys[before.len() as int] == calendar::date_key(times[i]->0.date));
        i
    }
}

/// The story and the grid of days count the same days, for years of up to four digits.
pub proof fn story_and_grid_agree(
    r: CoupleReport,
    h: trend::Heatmap,
    facts: Seq<MessageFact>,
    times: Seq<Option<LocalTime>>,
    today: int,
    self_id: Option<i64>,
    texts: Option<Seq<TextMessage>>,
)
    requires
        tells(r, facts, times, today, self_id, texts),
        trend::is_heatmap(h, facts, times),
        timeline::clock_readings(facts, times),
        years_are_short(times),
    ensures
        h.active_days == r.active_days,
        h.span_days == r.span_days,
{
    let keys = timeline::day_keys(facts, times);
    let ks = trend::buckets(facts, times, trend::Bucket::Day);
    let days = day_list(facts, times);
    let p = numbered(days);
    days_come_in_order(facts, times);
    ordered::tally_size(keys);
    ordered::listing_lists::<String, i64>(ordered::tally(keys));
    calendar::kept_days_fit();
    let q = Seq::new(days.len(), |i: int| p[i].1 as i64);
    assert forall|i: int| 0 <= i < days.len() implies ks.contains(#[trigger] q[i]) && q[i] == p[i].1 by {
        assert(ordered::tally(keys).contains_pair(days[i].0, days[i].1));
        let k = reading_has_a_bucket(facts, times, days[i].0);
        assert(calendar::clock_gives(facts[k].create_time as int, times[k]));
        calendar::date_key_reads_back(times[k]->0.date);
        calendar::kept_in_range(times[k]->0.date);
        assert(calendar::parsed_date(days[i].0) == Some(p[i].1));
    }
    assert forall|k: i64| ks.contains(k) implies q.contains(k) by {
        let j = bucket_is_of_a_reading(facts, times, k);
        let d = times[j]->0.date;
        let key = calendar::date_key(d);
        assert(calendar::clock_gives(facts[j].create_time as int, times[j]));
        calendar::date_key_reads_back(d);
        calendar::kept_in_range(d);
        assert(ordered::tally(keys).contains_key(key));
        let i = choose|i: int| 0 <= i < days.len() && days[i].0 == key;
        assert(calendar::parsed_date(days[i].0) == Some(p[i].1));
        assert(q[i] == k);
    }
    assert(q.no_duplicates()) by {
        assert forall|i: int, j: int| 0 <= i < q.len() && 0 <= j < q.len() && i != j implies q[i] != q[j] by {
            assert(ks.contains(q[i]) && ks.contains(q[j]));
            if i < j {
                assert(p[i].1 < p[j].1);
            } else {
                assert(p[j].1 < p[i].1);
            }
        }
    }
    q.unique_seq_to_set();
    assert(q.to_set() =~= ordered::tally(ks).dom());
    if ks.len() > 0 {
        assert(ks.contains(ks[0]));
        let (lo, hi) = choose|lo: i64, hi: i64| trend::grids(h, ks, lo, hi);
        let n = days.len() as int;
        let a = q.index_of(lo);
        let b = q.index_of(hi);
        assert(ks.contains(q[0]) && ks.contains(q[n - 1]));
        if a > 0 {
            assert(p[0].1 < p[a].1);
            let c = ks.index_of(q[0]);
            assert(lo <= ks[c]);
        }
        if b < n - 1 {
            assert(p[b].1 < p[n - 1].1);
            let c = ks.index_of(q[n - 1]);
            assert(ks[c] <= hi);
        }
        assert(calendar::parsed_date(days[0].0) == Some(p[0].1));
        assert(calendar::parsed_date(days[n - 1].0) == Some(p[n - 1].1));
    } else if days.len() > 0 {
        assert(ks.contains(q[0]));
    }
}

}
