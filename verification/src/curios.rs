//! Curious facts: first times, how warm it is, late nights, rhythms, endings, rallies, laughter and
//! short answers.

use vstd::prelude::*;
use vstd::string::*;

use crate::calendar::LocalTime;
use crate::couple;
use crate::dig;
use crate::double;
use crate::double::{Double, SignedDouble};
use crate::fmt;
use crate::lexical;
use crate::model;
use crate::model::{MessageFact, TextMessage};
use crate::ordered;
use crate::seqs;
use crate::text;
use crate::timeline;
use crate::trend;
use crate::trend::Heatmap;
use crate::unicode;

verus! {

/// A longer pause ends a conversation: twelve hours.
pub const LAST_WORD_GAP: i64 = 43200;

/// A longer pause leaves the last sender without an answer: six hours.
pub const LEFT_ON_READ_GAP: i64 = 21600;

/// Messages of a rally follow each other within ten minutes.
pub const RALLY_GAP: i64 = 600;

/// A late text counts from this many characters on.
pub const EMO_MIN_CHARS: usize = 50;

/// The last hour of the night.
pub const EMO_MAX_HOUR: u32 = 4;

/// The characters that are shown of a first word of love.
pub const LOVE_SNIPPET: usize = 24;

/// The characters that are shown of a late text.
pub const EMO_SNIPPET: usize = 40;

/// How many typical words are listed.
pub const SIGNATURE_WORDS: usize = 8;

/// A part of a whole.
pub struct Share {
    pub part: i64,
    pub whole: i64,
}

/// What the warmth is measured by.
pub struct ScoreInputs {
    /// All messages.
    pub total: i64,
    /// One's own messages.
    pub my_count: i64,
    /// The messages of the other side.
    pub other_count: i64,
    /// The longest row of days.
    pub longest_streak: i64,
    /// Days with a message, of all days.
    pub active_ratio: Share,
    /// One's own quick replies, of all one's replies.
    pub my_quick: Share,
    /// The quick replies of the other side, of all its replies.
    pub other_quick: Share,
}

/// All curious facts.
pub struct Curios {
    pub firsts: Vec<First>,
    pub score: RelationScore,
    pub emo: LateEmo,
    pub biorhythm: Biorhythm,
    pub ending: Ending,
    pub rally: Rally,
    pub signature: SignatureWords,
    pub haha: Haha,
    pub perfunctory: Perfunctory,
    pub heatmap: Heatmap,
}

/// A first time.
pub struct First {
    pub label: String,
    pub when: Option<String>,
    pub who: Option<&'static str>,
    pub snippet: Option<String>,
}

/// How warm it is.
pub struct RelationScore {
    pub score: i64,
    pub label: &'static str,
    /// Each part with its points and the most that it can give.
    pub breakdown: Vec<(String, i64, i64)>,
}

/// Long texts late at night.
pub struct LateEmo {
    pub my_count: i64,
    pub other_count: i64,
    pub longest: Option<EmoMsg>,
}

/// A long text late at night.
pub struct EmoMsg {
    pub chars: i64,
    pub is_self: bool,
    pub when: String,
    pub snippet: String,
}

/// Messages by the hour of the day.
pub struct Biorhythm {
    pub me: [i64; 24],
    pub them: [i64; 24],
}

/// Who has the last word, and who is left waiting.
pub struct Ending {
    pub my_last_word: i64,
    pub other_last_word: i64,
    pub my_left_on_read: i64,
    pub other_left_on_read: i64,
}

/// The longest exchange without a pause.
pub struct Rally {
    pub max_len: i64,
    pub when: Option<String>,
    pub duration_min: i64,
}

/// Words that are typical of one side.
pub struct SignatureWords {
    pub mine: Vec<(String, i64)>,
    pub theirs: Vec<(String, i64)>,
}

/// Laughter by its length: two, three, four, five, and six or more characters.
pub struct Haha {
    pub me: [i64; 5],
    pub them: [i64; 5],
    pub me_total: i64,
    pub them_total: i64,
}

/// Short answers.
pub struct Perfunctory {
    pub my_count: i64,
    pub other_count: i64,
}

/// The words of love.
pub open spec fn love_words() -> Seq<Seq<char>> {
    seq!["爱你"@, "喜欢你"@, "想你"@, "想你啦"@, "我爱你"@]
}

/// The text holds a word of love.
pub open spec fn says_love(t: Seq<char>) -> bool {
    exists|i: int| 0 <= i < love_words().len() && text::has_text(t, #[trigger] love_words()[i])
}

/// Whether a text holds a word of love.
fn has_love(t: &str) -> (r: bool)
    ensures
        r == says_love(t@),
{
    let words: Vec<&'static str> = vec!["爱你", "喜欢你", "想你", "想你啦", "我爱你"];
    assert(text::literals(words@) =~= love_words());
    let mut i: usize = 0;
    while i < words.len()
        invariant
            i <= words@.len(),
            text::literals(words@) == love_words(),
            forall|k: int| 0 <= k < i ==> !text::has_text(t@, #[trigger] love_words()[k]),
        decreases words@.len() - i,
    {
        assert(love_words()[i as int] == words@[i as int]@);
        if text::contains(t, words[i]) {
            return true;
        }
        i = i + 1;
    }
    assert(words@.len() == love_words().len());
    false
}

/// The message is of the kind that is looked for.
pub open spec fn is_kind(f: MessageFact, kind: Option<i64>) -> bool {
    kind is None || kind == Some(f.base_type)
}

/// The first of the messages that is of the kind.
pub open spec fn first_kind(d: Seq<MessageFact>, kind: Option<i64>, i: int) -> bool {
    &&& 0 <= i < d.len()
    &&& is_kind(d[i], kind)
    &&& forall|j: int| 0 <= j < i ==> !is_kind(#[trigger] d[j], kind)
}

/// None of the messages is of the kind.
pub open spec fn no_kind(d: Seq<MessageFact>, kind: Option<i64>) -> bool {
    forall|j: int| 0 <= j < d.len() ==> !is_kind(#[trigger] d[j], kind)
}

/// The position of the first message of a kind.
fn find_kind(d: &Vec<MessageFact>, kind: Option<i64>) -> (r: Option<usize>)
    ensures
        match r {
            Some(i) => first_kind(d@, kind, i as int),
            None => no_kind(d@, kind),
        },
{
    let mut i: usize = 0;
    while i < d.len()
        invariant
            i <= d@.len(),
            forall|j: int| 0 <= j < i ==> !is_kind(#[trigger] d@[j], kind),
        decreases d@.len() - i,
    {
        let hit = match kind {
            Some(k) => k == d[i].base_type,
            None => true,
        };
        if hit {
            return Some(i);
        }
        i = i + 1;
    }
    None
}

/// Who sent a message, where it is known which are one's own.
pub open spec fn who_text(self_id: Option<i64>, sender: i64) -> Option<Seq<char>> {
    match self_id {
        Some(me) => Some(
            if sender == me {
                "我"@
            } else {
                "ta"@
            },
        ),
        None => None,
    }
}

/// Who sent a message.
fn who_of(self_id: Option<i64>, sender: i64) -> (r: Option<&'static str>)
    ensures
        literal_view(r) == who_text(self_id, sender),
{
    match self_id {
        Some(me) => if sender == me {
            Some("我")
        } else {
            Some("ta")
        },
        None => None,
    }
}

/// What an optional literal holds.
pub open spec fn literal_view(t: Option<&'static str>) -> Option<Seq<char>> {
    match t {
        Some(t) => Some(t@),
        None => None,
    }
}

/// `f` tells of the first message of a kind; `t` holds the local time of each message.
pub open spec fn is_milestone(
    f: First,
    label: Seq<char>,
    d: Seq<MessageFact>,
    t: Seq<Option<LocalTime>>,
    self_id: Option<i64>,
    kind: Option<i64>,
) -> bool {
    &&& f.label@ == label
    &&& f.snippet is None
    &&& if no_kind(d, kind) {
        f.when is None && f.who is None
    } else {
        exists|i: int| #[trigger]
            first_kind(d, kind, i) && text::text_view(f.when) == Some(fmt::day_text(t[i])) && literal_view(f.who)
                == who_text(self_id, d[i].sender_id)
    }
}

/// The first message of a kind.
fn milestone(
    label: &str,
    d: &Vec<MessageFact>,
    t: &Vec<Option<LocalTime>>,
    self_id: Option<i64>,
    kind: Option<i64>,
) -> (f: First)
    requires
        t@.len() == d@.len(),
    ensures
        is_milestone(f, label@, d@, t@, self_id, kind),
{
    match find_kind(d, kind) {
        Some(i) => {
            let when = fmt::fmt_date_at(&t[i]);
            assert(is_kind(d@[i as int], kind));
            First {
                label: label.to_string(),
                when: Some(when),
                who: who_of(self_id, d[i].sender_id),
                snippet: None,
            }
        },
        None => First { label: label.to_string(), when: None, who: None, snippet: None },
    }
}

/// The message holds a word of love.
pub open spec fn is_love(m: TextMessage) -> bool {
    m.text is Some && says_love(m.text->0@)
}

/// The first message with a word of love.
pub open spec fn first_love(texts: Seq<TextMessage>, i: int) -> bool {
    &&& 0 <= i < texts.len()
    &&& is_love(texts[i])
    &&& forall|j: int| 0 <= j < i ==> !is_love(#[trigger] texts[j])
}

/// `f` tells of the first word of love.
pub open spec fn is_love_milestone(
    f: First,
    texts: Seq<TextMessage>,
    t: Seq<Option<LocalTime>>,
    self_id: Option<i64>,
) -> bool {
    &&& f.label@ == "💜 第一句「爱你/想你」"@
    &&& if forall|j: int| 0 <= j < texts.len() ==> !is_love(#[trigger] texts[j]) {
        f.when is None && f.who is None && f.snippet is None
    } else {
        exists|i: int| #[trigger]
            first_love(texts, i) && text::text_view(f.when) == Some(fmt::day_text(t[i])) && literal_view(f.who)
                == who_text(self_id, texts[i].sender_id) && text::text_view(f.snippet) == Some(
                fmt::shortened(texts[i].text->0@, LOVE_SNIPPET as int),
            )
    }
}

/// The first word of love.
fn love_milestone(texts: &[TextMessage], t: &Vec<Option<LocalTime>>, self_id: Option<i64>) -> (f: First)
    requires
        t@.len() == texts@.len(),
    ensures
        is_love_milestone(f, texts@, t@, self_id),
{
    let label = "💜 第一句「爱你/想你」".to_string();
    let mut i: usize = 0;
    while i < texts.len()
        invariant
            i <= texts@.len(),
            t@.len() == texts@.len(),
            label@ == "💜 第一句「爱你/想你」"@,
            forall|j: int| 0 <= j < i ==> !is_love(#[trigger] texts@[j]),
        decreases texts@.len() - i,
    {
        if let Some(words) = &texts[i].text {
            if has_love(words.as_str()) {
                assert(first_love(texts@, i as int));
                return First {
                    label,
                    when: Some(fmt::fmt_date_at(&t[i])),
                    who: who_of(self_id, texts[i].sender_id),
                    snippet: Some(fmt::truncate(words.as_str(), LOVE_SNIPPET)),
                };
            }
        }
        i = i + 1;
    }
    First { label, when: None, who: None, snippet: None }
}

/// `v` holds the first times, given the local times of all messages.
pub open spec fn are_firsts(
    v: Seq<First>,
    facts: Seq<MessageFact>,
    times: Seq<Option<LocalTime>>,
    texts: Seq<TextMessage>,
    text_times: Seq<Option<LocalTime>>,
    self_id: Option<i64>,
) -> bool {
    let d = timeline::dated(facts);
    let t = timeline::dated_times(facts, times);
    &&& v.len() == 6
    &&& is_milestone(v[0], "💬 第一条消息"@, d, t, self_id, None)
    &&& is_milestone(v[1], "🖼️ 第一张图片"@, d, t, self_id, Some(3i64))
    &&& is_milestone(v[2], "🎙️ 第一段语音"@, d, t, self_id, Some(34i64))
    &&& is_milestone(v[3], "🎴 第一个表情"@, d, t, self_id, Some(47i64))
    &&& is_milestone(v[4], "📞 第一通通话"@, d, t, self_id, Some(50i64))
    &&& is_love_milestone(v[5], texts, text_times, self_id)
}

/// The first times, given the local times of all messages.
pub fn firsts_at(
    facts: &[MessageFact],
    times: &Vec<Option<LocalTime>>,
    texts: &[TextMessage],
    text_times: &Vec<Option<LocalTime>>,
    self_id: Option<i64>,
) -> (v: Vec<First>)
    requires
        times@.len() == facts@.len(),
        text_times@.len() == texts@.len(),
    ensures
        are_firsts(v@, facts@, times@, texts@, text_times@, self_id),
{
    let (d, t) = timeline::dated_of(facts, times);
    let mut v: Vec<First> = Vec::new();
    v.push(milestone("💬 第一条消息", &d, &t, self_id, None));
    v.push(milestone("🖼️ 第一张图片", &d, &t, self_id, Some(3)));
    v.push(milestone("🎙️ 第一段语音", &d, &t, self_id, Some(34)));
    v.push(milestone("🎴 第一个表情", &d, &t, self_id, Some(47)));
    v.push(milestone("📞 第一通通话", &d, &t, self_id, Some(50)));
    v.push(love_milestone(texts, text_times, self_id));
    v
}

/// The first message, picture, voice message, sticker, call and word of love.
pub fn firsts(facts: &[MessageFact], texts: &[TextMessage], self_id: Option<i64>) -> (v: Vec<First>)
    ensures
        exists|times: Seq<Option<LocalTime>>, text_times: Seq<Option<LocalTime>>|
            #![trigger timeline::clock_readings(facts@, times), timeline::text_readings(texts@, text_times)]
            timeline::clock_readings(facts@, times) && timeline::text_readings(texts@, text_times) && are_firsts(
                v@,
                facts@,
                times,
                texts@,
                text_times,
                self_id,
            ),
{
    let times = timeline::read_clock(facts);
    let text_times = timeline::read_text_clock(texts);
    firsts_at(facts, &times, texts, &text_times, self_id)
}

/// Points for the number of messages: one for every two hundred, at most 25. The quotient is one in
/// double precision, without its fraction.
pub open spec fn activity_points(total: int) -> int {
    double::up_to(
        double::saturated(
            total < 0,
            double::whole(double::quotient(double::of(double::magnitude(total)), double::of(200))),
        ),
        25,
    )
}

/// Points for the number of messages.
fn activity_of(total: i64) -> (n: i64)
    ensures
        n == activity_points(total as int),
{
    let share = SignedDouble::share(total, 200).size;
    let n: i64 = if total < 0 {
        let n: u64 = share.whole_up_to(0x8000_0000_0000_0000);
        (-(n as i128)) as i64
    } else {
        share.whole_up_to(i64::MAX as u64) as i64
    };
    if n <= 25 {
        n
    } else {
        25
    }
}

/// A share in double precision; of nothing it is zero.
pub open spec fn share_number(s: Share) -> double::Signed {
    if s.whole > 0 {
        (s.part < 0, double::quotient(double::of(double::magnitude(s.part as int)), double::of(s.whole as int)))
    } else {
        (false, (0, 0))
    }
}

/// A share in double precision.
fn share_of(s: &Share) -> (r: SignedDouble)
    ensures
        r.number() == share_number(*s),
        r.within(1000),
{
    if s.whole > 0 {
        SignedDouble::share(s.part, s.whole)
    } else {
        SignedDouble { below: false, size: Double::count(0) }
    }
}

/// A signed number times a whole number.
pub open spec fn times(a: double::Signed, n: int) -> double::Signed {
    (a.0, double::product(a.1, double::of(n)))
}

/// Points for how even the two sides are: 20 for one half each, fewer the further one's own share of
/// the messages is from it.
pub open spec fn balance_points(my_count: int, other_count: int) -> int {
    let both = if my_count + other_count < 1 {
        1
    } else {
        my_count + other_count
    };
    let percent = (
        my_count < 0,
        double::product(
            double::quotient(double::of(double::magnitude(my_count)), double::of(both)),
            double::of(100),
        ),
    );
    let off = double::signed_sum(percent, (true, double::of(50))).1;
    let even = double::signed_sum((false, double::of(1)), (true, double::quotient(off, double::of(50))));
    double::signed_rounded(times(even, 20))
}

/// Points for how even the two sides are.
fn balance_of(my_count: i64, other_count: i64) -> (n: i64)
    requires
        i64::MIN <= my_count + other_count <= i64::MAX,
    ensures
        n == balance_points(my_count as int, other_count as int),
{
    let sum: i64 = my_count + other_count;
    let both: i64 = if sum < 1 {
        1
    } else {
        sum
    };
    proof {
        double::nearest_is_number(50, 1);
    }
    let share = SignedDouble::share(my_count, both);
    let percent = SignedDouble { below: share.below, size: share.size.times(Double::count(100)) };
    let off = percent.plus(SignedDouble { below: true, size: Double::count(50) }).size;
    let even = SignedDouble { below: false, size: Double::count(1) }.plus(
        SignedDouble { below: true, size: off.over(Double::count(50)) },
    );
    SignedDouble { below: even.below, size: even.size.times(Double::count(20)) }.nearest_whole()
}

/// Points for quick replies: 25 times the mean of both shares.
pub open spec fn quick_points(mine: Share, theirs: Share) -> int {
    let both = double::signed_sum(share_number(mine), share_number(theirs));
    double::signed_rounded(times((both.0, double::quotient(both.1, double::of(2))), 25))
}

/// Points for quick replies.
fn quick_of(mine: &Share, theirs: &Share) -> (n: i64)
    ensures
        n == quick_points(*mine, *theirs),
{
    proof {
        double::nearest_is_number(2, 1);
    }
    let both = share_of(mine).plus(share_of(theirs));
    let mean = both.size.over(Double::count(2));
    SignedDouble { below: both.below, size: mean.times(Double::count(25)) }.nearest_whole()
}

/// Points for days with a message: 15 times their share.
pub open spec fn cover_points(active: Share) -> int {
    double::signed_rounded(times(share_number(active), 15))
}

/// Points for days with a message.
fn cover_of(active: &Share) -> (n: i64)
    ensures
        n == cover_points(*active),
{
    let share = share_of(active);
    SignedDouble { below: share.below, size: share.size.times(Double::count(15)) }.nearest_whole()
}

/// Two sides with as many messages each score all points for being even.
pub proof fn even_sides_score_full(n: int)
    requires
        n > 0,
    ensures
        balance_points(n, n) == 20,
{
    let one = (double::LOW as int, -52int);
    double::nearest_is_number(n, 1);
    double::nearest_doubles(n, 1);
    double::quotient_of_equals(double::of(n));
    let half = double::quotient(double::of(n), double::of(2 * n));
    assert(half == double::shifted(one, -1));
    double::nearest_is_number(100, 1);
    double::nearest_doubles(50, 1);
    double::one_times(double::of(100));
    let percent = double::product(half, double::of(100));
    assert(percent == double::of(50));
    double::nearest_is_number(50, 1);
    double::one_is_one();
    double::counts_are_exact(20);
    double::one_times(double::of(20));
}

/// A part of a whole is between none and all of it.
pub open spec fn is_part(s: Share) -> bool {
    0 <= s.part <= s.whole
}

proof fn share_is_at_most_one(s: Share)
    requires
        is_part(s),
    ensures
        !share_number(s).0,
        double::is_number(share_number(s).1),
        double::no_larger(share_number(s).1, (double::LOW as int, -52int)),
{
    if s.whole > 0 {
        let (a, b) = (double::of(s.part as int), double::of(s.whole as int));
        double::nearest_is_number(s.whole as int, 1);
        if s.part > 0 {
            double::nearest_is_number(s.part as int, 1);
        }
        double::nearest_grows(s.part as int, s.whole as int, 1);
        double::quotients_grow(a, b, b);
        double::quotient_of_equals(b);
    }
}

/// A share of at most one scores at most `n` points out of `n`.
proof fn points_of_a_share(a: double::Number, n: int)
    requires
        double::is_number(a),
        double::no_larger(a, (double::LOW as int, -52int)),
        0 < n <= 100,
    ensures
        0 <= double::signed_rounded(times((false, a), n)) <= n,
{
    let one = (double::LOW as int, -52int);
    double::counts_are_exact(n);
    double::products_grow(a, one, double::of(n));
    double::one_times(double::of(n));
    double::rounding_keeps_order(double::product(a, double::of(n)), double::of(n));
}

/// No part of the score is below zero or above its limit, where no count is negative and the shares
/// are parts of a whole.
pub proof fn points_stay_within_limits(sc: ScoreInputs)
    requires
        sc.total >= 0,
        sc.my_count >= 0,
        sc.other_count >= 0,
        is_part(sc.active_ratio),
        is_part(sc.my_quick),
        is_part(sc.other_quick),
    ensures
        0 <= activity_points(sc.total as int) <= 25,
        0 <= balance_points(sc.my_count as int, sc.other_count as int) <= 20,
        0 <= quick_points(sc.my_quick, sc.other_quick) <= 25,
        0 <= cover_points(sc.active_ratio) <= 15,
{
    let one = (double::LOW as int, -52int);
    let two = (double::LOW as int, -51int);
    if sc.total > 0 {
        double::nearest_is_number(sc.total as int, 1);
        double::nearest_is_number(200, 1);
        double::nearest_is_number(double::of(sc.total as int).0, double::of(200).0);
    }
    double::whole_is_not_negative(double::quotient(double::of(sc.total as int), double::of(200)));
    share_is_at_most_one(sc.active_ratio);
    points_of_a_share(share_number(sc.active_ratio).1, 15);
    share_is_at_most_one(sc.my_quick);
    share_is_at_most_one(sc.other_quick);
    let (a, b) = (share_number(sc.my_quick).1, share_number(sc.other_quick).1);
    double::sum_of_shares(a, b);
    double::one_is_one();
    double::nearest_doubles(1, 1);
    double::quotients_grow(double::sum(a, b), two, double::of(2));
    double::quotient_of_equals(two);
    points_of_a_share(double::quotient(double::sum(a, b), double::of(2)), 25);
    balance_stays_within_limits(sc.my_count as int, sc.other_count as int);
}

proof fn balance_stays_within_limits(mine: int, theirs: int)
    requires
        mine >= 0,
        theirs >= 0,
    ensures
        0 <= balance_points(mine, theirs) <= 20,
{
    let one = (double::LOW as int, -52int);
    let both = if mine + theirs < 1 {
        1
    } else {
        mine + theirs
    };
    let share = double::quotient(double::of(mine), double::of(both));
    let (fifty, hundred) = (double::of(50), double::of(100));
    double::nearest_is_number(both, 1);
    double::nearest_is_number(50, 1);
    double::nearest_is_number(100, 1);
    if mine > 0 {
        double::nearest_is_number(mine, 1);
    }
    double::nearest_grows(mine, both, 1);
    double::quotients_grow(double::of(mine), double::of(both), double::of(both));
    double::quotient_of_equals(double::of(both));
    double::products_grow(share, one, hundred);
    double::one_times(hundred);
    let percent = double::product(share, hundred);
    double::nearest_doubles(50, 1);
    double::gap_to_half(percent, fifty);
    let off = double::gap(percent, fifty);
    double::quotients_grow(off, fifty, fifty);
    double::quotient_of_equals(fifty);
    let part = double::quotient(off, fifty);
    double::one_is_one();
    double::gap_at_most(one, part);
    points_of_a_share(double::gap(one, part), 20);
}

/// Points for the longest row of days: one a day, at most 15.
pub open spec fn streak_points(days: int) -> int {
    if days <= 15 {
        days
    } else {
        15
    }
}

/// The messages of both sides can be counted together.
pub open spec fn can_score(sc: ScoreInputs) -> bool {
    i64::MIN <= sc.my_count + sc.other_count <= i64::MAX
}

/// All points together, between 0 and 100.
pub open spec fn score_points(sc: ScoreInputs) -> int {
    let sum = activity_points(sc.total as int) + balance_points(sc.my_count as int, sc.other_count as int)
        + quick_points(sc.my_quick, sc.other_quick) + streak_points(sc.longest_streak as int)
        + cover_points(sc.active_ratio);
    if sum < 0 {
        0
    } else if sum > 100 {
        100
    } else {
        sum
    }
}

/// What a score is called.
pub open spec fn score_label(score: int) -> Seq<char> {
    if score >= 90 {
        "如胶似漆"@
    } else if score >= 75 {
        "甜度爆表"@
    } else if score >= 60 {
        "稳中有甜"@
    } else if score >= 45 {
        "不温不火"@
    } else if score >= 30 {
        "有点冷淡"@
    } else {
        "需要加温"@
    }
}

/// The parts of a score: name, points and the most that can be had.
pub open spec fn score_parts(sc: ScoreInputs) -> Seq<(Seq<char>, i64, i64)> {
    seq![
        ("活跃度"@, activity_points(sc.total as int) as i64, 25i64),
        ("互动均衡"@, balance_points(sc.my_count as int, sc.other_count as int) as i64, 20i64),
        ("秒回率"@, quick_points(sc.my_quick, sc.other_quick) as i64, 25i64),
        ("最长连续"@, streak_points(sc.longest_streak as int) as i64, 15i64),
        ("活跃覆盖"@, cover_points(sc.active_ratio) as i64, 15i64),
    ]
}

/// `r` is the score for `sc`.
pub open spec fn is_score(r: RelationScore, sc: ScoreInputs) -> bool {
    &&& r.score == score_points(sc)
    &&& r.label@ == score_label(score_points(sc))
    &&& couple::word_rows(r.breakdown@) == score_parts(sc)
}

/// Scores how warm it is.
pub fn relation_score(sc: &ScoreInputs) -> (r: RelationScore)
    requires
        can_score(*sc),
    ensures
        is_score(r, *sc),
        0 <= r.score <= 100,
{
    let activity = activity_of(sc.total);
    let balance = balance_of(sc.my_count, sc.other_count);
    let quick = quick_of(&sc.my_quick, &sc.other_quick);
    let cover = cover_of(&sc.active_ratio);
    let streak: i64 = if sc.longest_streak <= 15 {
        sc.longest_streak
    } else {
        15
    };
    let sum: i128 = activity as i128 + balance as i128 + quick as i128 + streak as i128 + cover as i128;
    let score: i64 = if sum < 0 {
        0
    } else if sum > 100 {
        100
    } else {
        sum as i64
    };
    let label = if score >= 90 {
        "如胶似漆"
    } else if score >= 75 {
        "甜度爆表"
    } else if score >= 60 {
        "稳中有甜"
    } else if score >= 45 {
        "不温不火"
    } else if score >= 30 {
        "有点冷淡"
    } else {
        "需要加温"
    };
    let mut breakdown: Vec<(String, i64, i64)> = Vec::new();
    breakdown.push(("活跃度".to_string(), activity, 25));
    breakdown.push(("互动均衡".to_string(), balance, 20));
    breakdown.push(("秒回率".to_string(), quick, 25));
    breakdown.push(("最长连续".to_string(), streak, 15));
    breakdown.push(("活跃覆盖".to_string(), cover, 15));
    assert(couple::word_rows(breakdown@) =~= score_parts(*sc));
    RelationScore { score, label, breakdown }
}

/// The message is a long text late at night.
pub open spec fn is_emo(m: TextMessage, t: Option<LocalTime>) -> bool {
    m.text is Some && t is Some && t->0.hour <= EMO_MAX_HOUR && m.text->0@.len() >= EMO_MIN_CHARS
}

/// How many long late texts are by oneself, or by the others.
pub open spec fn emo_count(
    texts: Seq<TextMessage>,
    times: Seq<Option<LocalTime>>,
    self_id: Option<i64>,
    mine: bool,
) -> nat
    decreases texts.len(),
{
    if texts.len() == 0 {
        0
    } else {
        emo_count(texts.drop_last(), times, self_id, mine) + if is_emo(texts.last(), times[texts.len() - 1])
            && model::from_self(self_id, texts.last().sender_id) == mine {
            1nat
        } else {
            0nat
        }
    }
}

/// The message at `i` is the first of the longest late texts.
pub open spec fn longest_emo_at(texts: Seq<TextMessage>, times: Seq<Option<LocalTime>>, i: int) -> bool {
    &&& 0 <= i < texts.len()
    &&& is_emo(texts[i], times[i])
    &&& forall|j: int|
        0 <= j < texts.len() && is_emo(#[trigger] texts[j], times[j]) ==> couple::text_len(texts[j])
            <= couple::text_len(texts[i])
    &&& forall|j: int|
        0 <= j < i && is_emo(#[trigger] texts[j], times[j]) ==> couple::text_len(texts[j]) < couple::text_len(texts[i])
}

/// `e` describes the late text at `i`.
pub open spec fn describes_emo(
    e: EmoMsg,
    texts: Seq<TextMessage>,
    times: Seq<Option<LocalTime>>,
    self_id: Option<i64>,
    i: int,
) -> bool {
    &&& e.chars == couple::text_len(texts[i])
    &&& e.is_self == model::from_self(self_id, texts[i].sender_id)
    &&& e.when@ == fmt::day_text(times[i])
    &&& e.snippet@ == fmt::shortened(texts[i].text->0@, EMO_SNIPPET as int)
}

/// `e` counts the long late texts and describes the first of the longest.
pub open spec fn is_late_emo(
    e: LateEmo,
    texts: Seq<TextMessage>,
    times: Seq<Option<LocalTime>>,
    self_id: Option<i64>,
) -> bool {
    &&& e.my_count == emo_count(texts, times, self_id, true)
    &&& e.other_count == emo_count(texts, times, self_id, false)
    &&& match e.longest {
        Some(m) => exists|i: int| #[trigger]
            longest_emo_at(texts, times, i) && describes_emo(m, texts, times, self_id, i),
        None => forall|j: int| 0 <= j < texts.len() ==> !is_emo(#[trigger] texts[j], times[j]),
    }
}

/// The longest so far is found among the first texts.
spec fn best_so_far(texts: Seq<TextMessage>, times: Seq<Option<LocalTime>>, n: int, best: Option<usize>) -> bool {
    match best {
        Some(b) => {
            &&& b < n
            &&& is_emo(texts[b as int], times[b as int])
            &&& forall|j: int|
                0 <= j < n && is_emo(#[trigger] texts[j], times[j]) ==> couple::text_len(texts[j])
                    <= couple::text_len(texts[b as int])
            &&& forall|j: int|
                0 <= j < b && is_emo(#[trigger] texts[j], times[j]) ==> couple::text_len(texts[j])
                    < couple::text_len(texts[b as int])
        },
        None => forall|j: int| 0 <= j < n ==> !is_emo(#[trigger] texts[j], times[j]),
    }
}

/// The long texts late at night, given the local times of the texts.
pub fn late_emo_at(texts: &[TextMessage], times: &Vec<Option<LocalTime>>, self_id: Option<i64>) -> (e: LateEmo)
    requires
        texts@.len() <= i64::MAX,
        times@.len() == texts@.len(),
        couple::all_chars(texts@) <= i64::MAX,
    ensures
        is_late_emo(e, texts@, times@, self_id),
{
    let mut my_count: i64 = 0;
    let mut other_count: i64 = 0;
    let mut best: Option<usize> = None;
    let mut best_len: usize = 0;
    let mut i: usize = 0;
    while i < texts.len()
        invariant
            i <= texts@.len() <= i64::MAX,
            times@.len() == texts@.len(),
            my_count == emo_count(texts@.take(i as int), times@, self_id, true),
            other_count == emo_count(texts@.take(i as int), times@, self_id, false),
            0 <= my_count <= i,
            0 <= other_count <= i,
            best_so_far(texts@, times@, i as int, best),
            best matches Some(b) ==> best_len == couple::text_len(texts@[b as int]),
        decreases texts@.len() - i,
    {
        assert(texts@.take(i + 1).drop_last() =~= texts@.take(i as int));
        if let Some(words) = &texts[i].text {
            if let Some(t) = times[i] {
                let chars = text::chars_of(words.as_str());
                if t.hour <= EMO_MAX_HOUR && chars.len() >= EMO_MIN_CHARS {
                    assert(is_emo(texts@[i as int], times@[i as int]));
                    if model::is_self(self_id, texts[i].sender_id) {
                        my_count = my_count + 1;
                    } else {
                        other_count = other_count + 1;
                    }
                    if best.is_none() || chars.len() > best_len {
                        best = Some(i);
                        best_len = chars.len();
                    }
                }
            }
        }
        i = i + 1;
    }
    assert(texts@.take(i as int) =~= texts@);
    let longest = match best {
        Some(b) => {
            proof {
                assert(longest_emo_at(texts@, times@, b as int));
                couple::text_within_all(texts@, b as int);
            }
            match &texts[b].text {
                Some(words) => Some(
                    EmoMsg {
                        chars: best_len as i64,
                        is_self: model::is_self(self_id, texts[b].sender_id),
                        when: fmt::fmt_date_at(&times[b]),
                        snippet: fmt::truncate(words.as_str(), EMO_SNIPPET),
                    },
                ),
                None => None,
            }
        },
        None => None,
    };
    LateEmo { my_count, other_count, longest }
}

/// The long texts late at night.
pub fn late_emo(texts: &[TextMessage], self_id: Option<i64>) -> (e: LateEmo)
    requires
        texts@.len() <= i64::MAX,
        couple::all_chars(texts@) <= i64::MAX,
    ensures
        exists|times: Seq<Option<LocalTime>>| #[trigger]
            timeline::text_readings(texts@, times) && is_late_emo(e, texts@, times, self_id),
{
    let times = timeline::read_text_clock(texts);
    late_emo_at(texts, &times, self_id)
}

/// How many messages of oneself, or of the others, fall in the hour `h`.
pub open spec fn hour_count(
    facts: Seq<MessageFact>,
    times: Seq<Option<LocalTime>>,
    self_id: Option<i64>,
    mine: bool,
    h: int,
) -> nat
    decreases facts.len(),
{
    if facts.len() == 0 {
        0
    } else {
        let t = times[facts.len() - 1];
        hour_count(facts.drop_last(), times, self_id, mine, h) + if t is Some && t->0.hour == h && model::from_self(
            self_id,
            facts.last().sender_id,
        ) == mine {
            1nat
        } else {
            0nat
        }
    }
}

/// `b` counts the messages by the hour.
pub open spec fn is_biorhythm(
    b: Biorhythm,
    facts: Seq<MessageFact>,
    times: Seq<Option<LocalTime>>,
    self_id: Option<i64>,
) -> bool {
    forall|h: int|
        #![trigger b.me@[h]]
        #![trigger b.them@[h]]
        0 <= h < 24 ==> b.me@[h] == hour_count(facts, times, self_id, true, h) && b.them@[h] == hour_count(
            facts,
            times,
            self_id,
            false,
            h,
        )
}

proof fn hour_count_at_most(
    facts: Seq<MessageFact>,
    times: Seq<Option<LocalTime>>,
    self_id: Option<i64>,
    mine: bool,
    h: int,
)
    ensures
        hour_count(facts, times, self_id, mine, h) <= facts.len(),
    decreases facts.len(),
{
    if facts.len() > 0 {
        hour_count_at_most(facts.drop_last(), times, self_id, mine, h);
    }
}

/// Messages by the hour of the day, given the local time of each.
pub fn biorhythm_at(facts: &[MessageFact], times: &Vec<Option<LocalTime>>, self_id: Option<i64>) -> (b: Biorhythm)
    requires
        facts@.len() <= i64::MAX,
        times@.len() == facts@.len(),
    ensures
        is_biorhythm(b, facts@, times@, self_id),
{
    let mut me: [i64; 24] = [0; 24];
    let mut them: [i64; 24] = [0; 24];
    let mut i: usize = 0;
    while i < facts.len()
        invariant
            i <= facts@.len() <= i64::MAX,
            times@.len() == facts@.len(),
            forall|h: int|
                0 <= h < 24 ==> #[trigger] me@[h] == hour_count(facts@.take(i as int), times@, self_id, true, h),
            forall|h: int|
                0 <= h < 24 ==> #[trigger] them@[h] == hour_count(facts@.take(i as int), times@, self_id, false, h),
        decreases facts@.len() - i,
    {
        assert(facts@.take(i + 1).drop_last() =~= facts@.take(i as int));
        if let Some(t) = times[i] {
            let h: usize = t.hour as usize;
            if h < 24 {
                proof {
                    hour_count_at_most(facts@.take(i as int), times@, self_id, true, h as int);
                    hour_count_at_most(facts@.take(i as int), times@, self_id, false, h as int);
                    assert(me@[h as int] <= i && them@[h as int] <= i);
                }
                if model::is_self(self_id, facts[i].sender_id) {
                    me[h] = me[h] + 1;
                } else {
                    them[h] = them[h] + 1;
                }
            }
        }
        i = i + 1;
    }
    assert(facts@.take(i as int) =~= facts@);
    Biorhythm { me, them }
}

/// Messages by the hour of the day.
pub fn biorhythm(facts: &[MessageFact], self_id: Option<i64>) -> (b: Biorhythm)
    requires
        facts@.len() <= i64::MAX,
    ensures
        exists|times: Seq<Option<LocalTime>>| #[trigger]
            timeline::clock_readings(facts@, times) && is_biorhythm(b, facts@, times, self_id),
{
    let times = timeline::read_clock(facts);
    biorhythm_at(facts, &times, self_id)
}

/// The pauses between dated messages: the sender before the pause and its length in seconds.
pub open spec fn pauses(d: Seq<MessageFact>) -> Seq<(i64, i64)>
    decreases d.len(),
{
    if d.len() < 2 {
        Seq::empty()
    } else {
        let a = d[d.len() - 2];
        pauses(d.drop_last()).push((a.sender_id, (d.last().create_time - a.create_time) as i64))
    }
}

/// How many pauses longer than `limit` come after a message of oneself, or of the others.
pub open spec fn long_pauses(p: Seq<(i64, i64)>, limit: i64, self_id: Option<i64>, mine: bool) -> nat {
    seqs::count_if(p, |x: (i64, i64)| x.1 > limit && model::from_self(self_id, x.0) == mine)
}

/// Whether the last message is by oneself, or by the others, as a number.
pub open spec fn has_end(d: Seq<MessageFact>, self_id: Option<i64>, mine: bool) -> nat {
    if d.len() > 0 && model::from_self(self_id, d.last().sender_id) == mine {
        1
    } else {
        0
    }
}

/// `e` counts last words, before a long pause and at the very end, and messages left unanswered.
pub open spec fn is_ending(e: Ending, facts: Seq<MessageFact>, self_id: Option<i64>) -> bool {
    let d = timeline::dated(facts);
    let p = pauses(d);
    &&& e.my_last_word == long_pauses(p, LAST_WORD_GAP, self_id, true) + has_end(d, self_id, true)
    &&& e.other_last_word == long_pauses(p, LAST_WORD_GAP, self_id, false) + has_end(d, self_id, false)
    &&& e.my_left_on_read == long_pauses(p, LEFT_ON_READ_GAP, self_id, true)
    &&& e.other_left_on_read == long_pauses(p, LEFT_ON_READ_GAP, self_id, false)
}

/// Keeps the messages that carry a time.
fn keep_dated(facts: &[MessageFact]) -> (d: Vec<MessageFact>)
    ensures
        d@ == timeline::dated(facts@),
        d@.len() <= facts@.len(),
{
    let mut d: Vec<MessageFact> = Vec::new();
    let mut i: usize = 0;
    while i < facts.len()
        invariant
            i <= facts@.len(),
            d@ == timeline::dated(facts@.take(i as int)),
            d@.len() <= i,
        decreases facts@.len() - i,
    {
        assert(facts@.take(i + 1).drop_last() =~= facts@.take(i as int));
        if facts[i].create_time > 0 {
            d.push(facts[i]);
        }
        i = i + 1;
    }
    assert(facts@.take(i as int) =~= facts@);
    d
}

/// Counts last words and messages left unanswered.
pub fn ending(facts: &[MessageFact], self_id: Option<i64>) -> (e: Ending)
    requires
        facts@.len() < i64::MAX,
    ensures
        is_ending(e, facts@, self_id),
{
    let d = keep_dated(facts);
    proof {
        timeline::dated_messages(facts@);
    }
    let n = d.len();
    let mut my_last_word: i64 = 0;
    let mut other_last_word: i64 = 0;
    let mut my_left: i64 = 0;
    let mut other_left: i64 = 0;
    let mut i: usize = 1;
    while i < n
        invariant
            1 <= i,
            i <= n || n == 0,
            n == d@.len(),
            n < i64::MAX,
            forall|k: int| 0 <= k < d@.len() ==> timeline::is_dated(#[trigger] d@[k]),
            n > 0 ==> my_last_word == long_pauses(pauses(d@.take(i as int)), LAST_WORD_GAP, self_id, true),
            n > 0 ==> other_last_word == long_pauses(pauses(d@.take(i as int)), LAST_WORD_GAP, self_id, false),
            n > 0 ==> my_left == long_pauses(pauses(d@.take(i as int)), LEFT_ON_READ_GAP, self_id, true),
            n > 0 ==> other_left == long_pauses(pauses(d@.take(i as int)), LEFT_ON_READ_GAP, self_id, false),
            n == 0 ==> my_last_word == 0 && other_last_word == 0 && my_left == 0 && other_left == 0,
            0 <= my_last_word < i,
            0 <= other_last_word < i,
            0 <= my_left < i,
            0 <= other_left < i,
        decreases n - i,
    {
        let ghost before = d@.take(i as int);
        let ghost now = d@.take(i + 1);
        proof {
            assert(now.drop_last() =~= before);
            assert(timeline::is_dated(d@[i as int]));
            assert(timeline::is_dated(d@[i - 1]));
        }
        let gap: i64 = d[i].create_time - d[i - 1].create_time;
        let mine = model::is_self(self_id, d[i - 1].sender_id);
        proof {
            let x = (d@[i - 1].sender_id, gap);
            assert(pauses(now) == pauses(before).push(x));
            assert(pauses(now).drop_last() =~= pauses(before));
        }
        if gap > LEFT_ON_READ_GAP {
            if mine {
                my_left = my_left + 1;
            } else {
                other_left = other_left + 1;
            }
        }
        if gap > LAST_WORD_GAP {
            if mine {
                my_last_word = my_last_word + 1;
            } else {
                other_last_word = other_last_word + 1;
            }
        }
        i = i + 1;
    }
    if n > 0 {
        assert(d@.take(i as int) =~= d@);
        if model::is_self(self_id, d[n - 1].sender_id) {
            my_last_word = my_last_word + 1;
        } else {
            other_last_word = other_last_word + 1;
        }
    }
    Ending { my_last_word, other_last_word, my_left_on_read: my_left, other_left_on_read: other_left }
}

/// Every long pause and the end have a last word.
pub proof fn last_words_add_up(e: Ending, facts: Seq<MessageFact>, self_id: Option<i64>)
    requires
        is_ending(e, facts, self_id),
    ensures
        e.my_last_word + e.other_last_word == seqs::count_if(
            pauses(timeline::dated(facts)),
            |x: (i64, i64)| x.1 > LAST_WORD_GAP,
        ) + if timeline::dated(facts).len() > 0 {
            1nat
        } else {
            0nat
        },
{
    long_pauses_split(pauses(timeline::dated(facts)), LAST_WORD_GAP, self_id);
}

proof fn long_pauses_split(p: Seq<(i64, i64)>, limit: i64, self_id: Option<i64>)
    ensures
        long_pauses(p, limit, self_id, true) + long_pauses(p, limit, self_id, false) == seqs::count_if(
            p,
            |x: (i64, i64)| x.1 > limit,
        ),
    decreases p.len(),
{
    if p.len() > 0 {
        long_pauses_split(p.drop_last(), limit, self_id);
    }
}

/// How many messages of the rally that reaches the message at `i` there are up to it.
pub open spec fn rally_len(d: Seq<MessageFact>, i: int) -> int
    decreases i,
{
    if i > 0 && d[i].create_time - d[i - 1].create_time <= RALLY_GAP {
        rally_len(d, i - 1) + 1
    } else {
        1
    }
}

/// The longest rally ends with the message at `i`; it is the first of its length.
pub open spec fn best_rally(d: Seq<MessageFact>, i: int) -> bool {
    &&& 0 <= i < d.len()
    &&& forall|j: int| 0 <= j < d.len() ==> #[trigger] rally_len(d, j) <= rally_len(d, i)
    &&& forall|j: int| 0 <= j < i ==> #[trigger] rally_len(d, j) < rally_len(d, i)
}

/// `r` describes the rally that ends with the message at `i`.
pub open spec fn describes_rally(r: Rally, d: Seq<MessageFact>, t: Seq<Option<LocalTime>>, i: int) -> bool {
    let start = i - rally_len(d, i) + 1;
    let minutes = dig::quotient(d[i].create_time - d[start].create_time, 60);
    &&& r.max_len == rally_len(d, i)
    &&& text::text_view(r.when) == Some(fmt::day_text(t[start]))
    &&& r.duration_min == if minutes > 0 {
        minutes
    } else {
        0
    }
}

/// `r` describes the longest rally, given the local time of each message.
pub open spec fn is_rally(r: Rally, facts: Seq<MessageFact>, times: Seq<Option<LocalTime>>) -> bool {
    let d = timeline::dated(facts);
    let t = timeline::dated_times(facts, times);
    if d.len() == 0 {
        r.max_len == 0 && r.when is None && r.duration_min == 0
    } else {
        exists|i: int| #[trigger] best_rally(d, i) && describes_rally(r, d, t, i)
    }
}

/// The longest rally, given the local time of each message.
pub fn rally_at(facts: &[MessageFact], times: &Vec<Option<LocalTime>>) -> (r: Rally)
    requires
        facts@.len() <= i64::MAX,
        times@.len() == facts@.len(),
    ensures
        is_rally(r, facts@, times@),
{
    let (d, t) = timeline::dated_of(facts, times);
    proof {
        timeline::dated_messages(facts@);
    }
    let n = d.len();
    if n == 0 {
        return Rally { max_len: 0, when: None, duration_min: 0 };
    }
    let mut run: usize = 1;
    let mut best: usize = 1;
    let mut best_end: usize = 0;
    let mut i: usize = 1;
    while i < n
        invariant
            1 <= i <= n,
            n == d@.len(),
            forall|k: int| 0 <= k < d@.len() ==> timeline::is_dated(#[trigger] d@[k]),
            run == rally_len(d@, i - 1),
            1 <= run <= i,
            best == rally_len(d@, best_end as int),
            best_end < i,
            1 <= best <= best_end + 1,
            forall|j: int| 0 <= j < i ==> #[trigger] rally_len(d@, j) <= best,
            forall|j: int| 0 <= j < best_end ==> #[trigger] rally_len(d@, j) < best,
        decreases n - i,
    {
        proof {
            assert(timeline::is_dated(d@[i as int]));
            assert(timeline::is_dated(d@[i - 1]));
        }
        if d[i].create_time - d[i - 1].create_time > RALLY_GAP {
            run = 1;
        } else {
            run = run + 1;
        }
        assert(run == rally_len(d@, i as int));
        if run > best {
            best = run;
            best_end = i;
        }
        i = i + 1;
    }
    assert(best_rally(d@, best_end as int));
    let start: usize = best_end + 1 - best;
    proof {
        assert(timeline::is_dated(d@[best_end as int]));
        assert(timeline::is_dated(d@[start as int]));
    }
    let minutes: i64 = (d[best_end].create_time - d[start].create_time) / 60;
    assert(minutes == dig::quotient(d@[best_end as int].create_time - d@[start as int].create_time, 60));
    let r = Rally {
        max_len: best as i64,
        when: Some(fmt::fmt_date_at(&t[start])),
        duration_min: if minutes > 0 {
            minutes
        } else {
            0
        },
    };
    assert(describes_rally(r, d@, t@, best_end as int));
    r
}

/// The longest exchange in which no message is more than ten minutes after the one before.
pub fn rally(facts: &[MessageFact]) -> (r: Rally)
    requires
        facts@.len() <= i64::MAX,
    ensures
        exists|times: Seq<Option<LocalTime>>| #[trigger]
            timeline::clock_readings(facts@, times) && is_rally(r, facts@, times),
{
    let times = timeline::read_clock(facts);
    rally_at(facts, &times)
}

/// How many laughing characters the text ends with.
pub open spec fn open_laugh(t: Seq<char>) -> nat
    decreases t.len(),
{
    if t.len() > 0 && t.last() == '哈' {
        open_laugh(t.drop_last()) + 1
    } else {
        0
    }
}

/// The lengths of the rows of laughing characters that something else follows.
pub open spec fn closed_laughs(t: Seq<char>) -> Seq<nat>
    decreases t.len(),
{
    if t.len() == 0 {
        Seq::empty()
    } else {
        let before = closed_laughs(t.drop_last());
        if t.last() != '哈' && open_laugh(t.drop_last()) > 0 {
            before.push(open_laugh(t.drop_last()))
        } else {
            before
        }
    }
}

/// The lengths of all rows of laughing characters.
pub open spec fn laughs(t: Seq<char>) -> Seq<nat> {
    if open_laugh(t) > 0 {
        closed_laughs(t).push(open_laugh(t))
    } else {
        closed_laughs(t)
    }
}

/// The rows of laughing characters in the texts of oneself, or of the others.
pub open spec fn side_laughs(texts: Seq<TextMessage>, self_id: Option<i64>, mine: bool) -> Seq<nat>
    decreases texts.len(),
{
    if texts.len() == 0 {
        Seq::empty()
    } else {
        let before = side_laughs(texts.drop_last(), self_id, mine);
        let m = texts.last();
        if m.text is Some && model::from_self(self_id, m.sender_id) == mine {
            before + laughs(m.text->0@)
        } else {
            before
        }
    }
}

/// The bucket of a laugh: two, three, four, five, and six or more characters.
pub open spec fn laugh_bucket(n: nat) -> int {
    if n <= 5 {
        n - 2
    } else {
        4
    }
}

/// How many of the rows count as a laugh of the bucket.
pub open spec fn bucket_laughs(rows: Seq<nat>, b: int) -> nat {
    seqs::count_if(rows, |n: nat| n >= 2 && laugh_bucket(n) == b)
}

/// How many of the rows count as a laugh.
pub open spec fn all_laughs(rows: Seq<nat>) -> nat {
    seqs::count_if(rows, |n: nat| n >= 2)
}

/// `h` counts the laughs of either side.
pub open spec fn is_haha(h: Haha, texts: Seq<TextMessage>, self_id: Option<i64>) -> bool {
    let mine = side_laughs(texts, self_id, true);
    let theirs = side_laughs(texts, self_id, false);
    &&& forall|b: int| 0 <= b < 5 ==> #[trigger] h.me@[b] == bucket_laughs(mine, b)
    &&& forall|b: int| 0 <= b < 5 ==> #[trigger] h.them@[b] == bucket_laughs(theirs, b)
    &&& h.me_total == all_laughs(mine)
    &&& h.them_total == all_laughs(theirs)
}

/// The bucket of a laugh.
pub fn bucket_idx(run: usize) -> (b: usize)
    requires
        run >= 2,
    ensures
        b == laugh_bucket(run as nat),
        b < 5,
{
    if run <= 5 {
        run - 2
    } else {
        4
    }
}

proof fn laughs_at_most(t: Seq<char>)
    ensures
        closed_laughs(t).len() + open_laugh(t) <= t.len(),
        laughs(t).len() <= t.len(),
    decreases t.len(),
{
    if t.len() > 0 {
        laughs_at_most(t.drop_last());
    }
}

proof fn side_laughs_at_most(texts: Seq<TextMessage>, self_id: Option<i64>, mine: bool)
    ensures
        side_laughs(texts, self_id, mine).len() <= couple::all_chars(texts),
    decreases texts.len(),
{
    if texts.len() > 0 {
        side_laughs_at_most(texts.drop_last(), self_id, mine);
        if texts.last().text is Some {
            laughs_at_most(texts.last().text->0@);
        }
    }
}

/// What the buckets and the total of a side count.
spec fn counts_rows(counts: [i64; 5], total: i64, rows: Seq<nat>) -> bool {
    &&& forall|b: int| 0 <= b < 5 ==> #[trigger] counts@[b] == bucket_laughs(rows, b)
    &&& total == all_laughs(rows)
}

proof fn one_more_row(rows: Seq<nat>, n: nat)
    ensures
        forall|b: int| #[trigger]
            bucket_laughs(rows.push(n), b) == bucket_laughs(rows, b) + if n >= 2 && laugh_bucket(n) == b {
                1nat
            } else {
                0nat
            },
        all_laughs(rows.push(n)) == all_laughs(rows) + if n >= 2 {
            1nat
        } else {
            0nat
        },
        all_laughs(rows) <= rows.len(),
        forall|b: int| #[trigger] bucket_laughs(rows, b) <= rows.len(),
{
    assert(rows.push(n).drop_last() =~= rows);
    seqs::count_at_most(rows, |n: nat| n >= 2);
    assert forall|b: int| #[trigger] bucket_laughs(rows, b) <= rows.len() by {
        seqs::count_at_most(rows, |n: nat| n >= 2 && laugh_bucket(n) == b);
    }
}

/// Counts one more row.
fn count_row(counts: &mut [i64; 5], total: &mut i64, run: usize, Ghost(rows): Ghost<Seq<nat>>)
    requires
        counts_rows(*old(counts), *old(total), rows),
        rows.len() < i64::MAX,
    ensures
        counts_rows(*final(counts), *final(total), rows.push(run as nat)),
{
    proof {
        one_more_row(rows, run as nat);
    }
    if run >= 2 {
        let b = bucket_idx(run);
        assert(counts@[b as int] == bucket_laughs(rows, b as int));
        counts[b] = counts[b] + 1;
        *total = *total + 1;
    }
}

/// Counts the laughs of one text.
fn count_laughs(counts: &mut [i64; 5], total: &mut i64, t: &str, Ghost(rows): Ghost<Seq<nat>>)
    requires
        counts_rows(*old(counts), *old(total), rows),
        rows.len() + t@.len() <= i64::MAX,
    ensures
        counts_rows(*final(counts), *final(total), rows + laughs(t@)),
{
    let chars = text::chars_of(t);
    let mut run: usize = 0;
    let mut i: usize = 0;
    assert(rows + closed_laughs(chars@.take(0)) =~= rows);
    while i < chars.len()
        invariant
            i <= chars@.len(),
            rows.len() + chars@.len() <= i64::MAX,
            run == open_laugh(chars@.take(i as int)),
            run <= i,
            counts_rows(*counts, *total, rows + closed_laughs(chars@.take(i as int))),
        decreases chars@.len() - i,
    {
        let ghost before = chars@.take(i as int);
        let ghost now = chars@.take(i + 1);
        proof {
            assert(now.drop_last() =~= before);
            laughs_at_most(before);
        }
        if chars[i] == '哈' {
            run = run + 1;
        } else {
            if run > 0 {
                count_row(counts, total, run, Ghost(rows + closed_laughs(before)));
                assert((rows + closed_laughs(before)).push(run as nat) =~= rows + closed_laughs(now));
            }
            run = 0;
        }
        i = i + 1;
    }
    proof {
        assert(chars@.take(i as int) =~= chars@);
        laughs_at_most(chars@);
    }
    if run > 0 {
        count_row(counts, total, run, Ghost(rows + closed_laughs(chars@)));
        assert((rows + closed_laughs(chars@)).push(run as nat) =~= rows + laughs(chars@));
    }
}

/// Counts laughter, each row of laughing characters once, by its length.
pub fn haha(texts: &[TextMessage], self_id: Option<i64>) -> (h: Haha)
    requires
        couple::all_chars(texts@) <= i64::MAX,
    ensures
        is_haha(h, texts@, self_id),
{
    let mut me: [i64; 5] = [0; 5];
    let mut them: [i64; 5] = [0; 5];
    let mut me_total: i64 = 0;
    let mut them_total: i64 = 0;
    let mut i: usize = 0;
    while i < texts.len()
        invariant
            i <= texts@.len(),
            couple::all_chars(texts@) <= i64::MAX,
            counts_rows(me, me_total, side_laughs(texts@.take(i as int), self_id, true)),
            counts_rows(them, them_total, side_laughs(texts@.take(i as int), self_id, false)),
        decreases texts@.len() - i,
    {
        let ghost before = texts@.take(i as int);
        let ghost now = texts@.take(i + 1);
        proof {
            assert(now.drop_last() =~= before);
            couple::chars_grow(texts@, i + 1);
            side_laughs_at_most(before, self_id, true);
            side_laughs_at_most(before, self_id, false);
        }
        if let Some(t) = &texts[i].text {
            if model::is_self(self_id, texts[i].sender_id) {
                count_laughs(&mut me, &mut me_total, t.as_str(), Ghost(side_laughs(before, self_id, true)));
            } else {
                count_laughs(&mut them, &mut them_total, t.as_str(), Ghost(side_laughs(before, self_id, false)));
            }
        }
        i = i + 1;
    }
    assert(texts@.take(i as int) =~= texts@);
    Haha { me, them, me_total, them_total }
}

/// The buckets hold every laugh once.
pub proof fn buckets_hold_all_laughs(rows: Seq<nat>)
    ensures
        bucket_laughs(rows, 0) + bucket_laughs(rows, 1) + bucket_laughs(rows, 2) + bucket_laughs(rows, 3)
            + bucket_laughs(rows, 4) == all_laughs(rows),
    decreases rows.len(),
{
    if rows.len() > 0 {
        buckets_hold_all_laughs(rows.drop_last());
        one_more_row(rows.drop_last(), rows.last());
        assert(rows.drop_last().push(rows.last()) =~= rows);
    }
}

/// Answers that say nothing.
pub open spec fn short_answers() -> Seq<Seq<char>> {
    seq![
        "嗯"@,
        "哦"@,
        "噢"@,
        "额"@,
        "呃"@,
        "嗯嗯"@,
        "哦哦"@,
        "好"@,
        "好的"@,
        "嗯好"@,
        "嗯."@,
        "哦."@,
    ]
}

/// The message is an answer that says nothing.
pub open spec fn is_short_answer(m: TextMessage) -> bool {
    m.text is Some && short_answers().contains(unicode::trim(m.text->0@))
}

/// How many such answers are by oneself, or by the others.
pub open spec fn short_count(texts: Seq<TextMessage>, self_id: Option<i64>, mine: bool) -> nat {
    seqs::count_if(texts, |m: TextMessage| is_short_answer(m) && model::from_self(self_id, m.sender_id) == mine)
}

/// Whether a text without white space around it is an answer that says nothing.
pub fn says_nothing(t: &str) -> (r: bool)
    ensures
        r == short_answers().contains(t@),
{
    let words: Vec<&'static str> = vec![
        "嗯",
        "哦",
        "噢",
        "额",
        "呃",
        "嗯嗯",
        "哦哦",
        "好",
        "好的",
        "嗯好",
        "嗯.",
        "哦.",
    ];
    assert(text::literals(words@) =~= short_answers());
    let mut i: usize = 0;
    while i < words.len()
        invariant
            i <= words@.len(),
            text::literals(words@) == short_answers(),
            forall|k: int| 0 <= k < i ==> #[trigger] short_answers()[k] != t@,
        decreases words@.len() - i,
    {
        assert(short_answers()[i as int] == words@[i as int]@);
        if text::same(words[i], t) {
            return true;
        }
        i = i + 1;
    }
    assert(words@.len() == short_answers().len());
    false
}

/// Counts the answers that say nothing.
pub fn perfunctory(texts: &[TextMessage], self_id: Option<i64>) -> (p: Perfunctory)
    requires
        texts@.len() <= i64::MAX,
    ensures
        p.my_count == short_count(texts@, self_id, true),
        p.other_count == short_count(texts@, self_id, false),
{
    let mut my_count: i64 = 0;
    let mut other_count: i64 = 0;
    let mut i: usize = 0;
    while i < texts.len()
        invariant
            i <= texts@.len() <= i64::MAX,
            my_count == short_count(texts@.take(i as int), self_id, true),
            other_count == short_count(texts@.take(i as int), self_id, false),
            0 <= my_count <= i,
            0 <= other_count <= i,
        decreases texts@.len() - i,
    {
        proof {
            seqs::count_step(
                texts@,
                i as int,
                |m: TextMessage| is_short_answer(m) && model::from_self(self_id, m.sender_id) == true,
            );
            seqs::count_step(
                texts@,
                i as int,
                |m: TextMessage| is_short_answer(m) && model::from_self(self_id, m.sender_id) == false,
            );
        }
        if let Some(t) = &texts[i].text {
            if says_nothing(unicode::trimmed(t.as_str()).as_str()) {
                if model::is_self(self_id, texts[i].sender_id) {
                    my_count = my_count + 1;
                } else {
                    other_count = other_count + 1;
                }
            }
        }
        i = i + 1;
    }
    assert(texts@.take(i as int) =~= texts@);
    Perfunctory { my_count, other_count }
}

/// `w` holds the typical words of either side, given the tokens of each text.
pub open spec fn is_signature(
    w: SignatureWords,
    texts: Seq<TextMessage>,
    cuts: Seq<Seq<Seq<char>>>,
    self_id: Option<i64>,
) -> bool {
    let mine = lexical::words_of(texts, cuts, self_id, Some(true));
    let theirs = lexical::words_of(texts, cuts, self_id, Some(false));
    &&& ordered::keyed(w.mine@) == lexical::first_rows(lexical::typical_words(mine, theirs), SIGNATURE_WORDS as int)
    &&& ordered::keyed(w.theirs@) == lexical::first_rows(lexical::typical_words(theirs, mine), SIGNATURE_WORDS as int)
}

/// `c` holds the curious facts, given the local times of all messages and the tokens of each text.
pub open spec fn are_curios(
    c: Curios,
    facts: Seq<MessageFact>,
    times: Seq<Option<LocalTime>>,
    texts: Seq<TextMessage>,
    text_times: Seq<Option<LocalTime>>,
    cuts: Seq<Seq<Seq<char>>>,
    self_id: Option<i64>,
    sc: ScoreInputs,
) -> bool {
    &&& are_firsts(c.firsts@, facts, times, texts, text_times, self_id)
    &&& is_score(c.score, sc)
    &&& is_late_emo(c.emo, texts, text_times, self_id)
    &&& is_biorhythm(c.biorhythm, facts, times, self_id)
    &&& is_ending(c.ending, facts, self_id)
    &&& is_rally(c.rally, facts, times)
    &&& is_signature(c.signature, texts, cuts, self_id)
    &&& is_haha(c.haha, texts, self_id)
    &&& c.perfunctory.my_count == short_count(texts, self_id, true)
    &&& c.perfunctory.other_count == short_count(texts, self_id, false)
    &&& trend::is_heatmap(c.heatmap, facts, times)
}

/// The curious facts, given the local times of all messages and the tokens of each text.
pub fn compute_at(
    facts: &[MessageFact],
    times: &Vec<Option<LocalTime>>,
    texts: &[TextMessage],
    text_times: &Vec<Option<LocalTime>>,
    cuts: &Vec<Vec<String>>,
    self_id: Option<i64>,
    sc: &ScoreInputs,
) -> (c: Curios)
    requires
        facts@.len() < i64::MAX,
        times@.len() == facts@.len(),
        texts@.len() <= i64::MAX,
        text_times@.len() == texts@.len(),
        cuts@.len() == texts@.len(),
        couple::all_chars(texts@) <= i64::MAX,
        can_score(*sc),
    ensures
        are_curios(c, facts@, times@, texts@, text_times@, lexical::token_views(cuts@), self_id, *sc),
{
    let (mine, theirs) = lexical::signature_words_of(texts, cuts, self_id, SIGNATURE_WORDS);
    Curios {
        firsts: firsts_at(facts, times, texts, text_times, self_id),
        score: relation_score(sc),
        emo: late_emo_at(texts, text_times, self_id),
        biorhythm: biorhythm_at(facts, times, self_id),
        ending: ending(facts, self_id),
        rally: rally_at(facts, times),
        signature: SignatureWords { mine, theirs },
        haha: haha(texts, self_id),
        perfunctory: perfunctory(texts, self_id),
        heatmap: trend::heatmap_at(facts, times),
    }
}

/// The curious facts of a conversation.
pub fn compute(facts: &[MessageFact], texts: &[TextMessage], self_id: Option<i64>, sc: &ScoreInputs) -> (c: Curios)
    requires
        facts@.len() < i64::MAX,
        texts@.len() <= i64::MAX,
        couple::all_chars(texts@) <= i64::MAX,
        can_score(*sc),
    ensures
        exists|times: Seq<Option<LocalTime>>, text_times: Seq<Option<LocalTime>>|
            #![trigger timeline::clock_readings(facts@, times), timeline::text_readings(texts@, text_times)]
            timeline::clock_readings(facts@, times) && timeline::text_readings(texts@, text_times) && are_curios(
                c,
                facts@,
                times,
                texts@,
                text_times,
                lexical::segmented(texts@),
                self_id,
                *sc,
            ),
{
    let times = timeline::read_clock(facts);
    let text_times = timeline::read_text_clock(texts);
    let cuts = lexical::cut_all(texts);
    compute_at(facts, &times, texts, &text_times, &cuts, self_id, sc)
}

}
