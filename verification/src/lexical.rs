//! Word frequencies: which words both sides use most, and which are typical of one side.

use vstd::prelude::*;
use vstd::string::*;

use crate::double;
use crate::double::Double;
use crate::model;
use crate::model::TextMessage;
use crate::ordered;
use crate::ordered::SortedMap;
use crate::segment;
use crate::segment::Segmenter;
use crate::seqs;
use crate::text;
use crate::unicode;

verus! {

/// The most frequent words, the most frequent first.
pub struct WordFreq {
    pub overall: Vec<(String, i64)>,
    /// One's own words.
    pub mine: Vec<(String, i64)>,
    /// The words of the others.
    pub theirs: Vec<(String, i64)>,
}

/// Words that carry no meaning of their own.
pub open spec fn stopword_list() -> Seq<Seq<char>> {
    seq![
        "的"@, "了"@, "是"@, "在"@, "我"@, "你"@, "他"@, "她"@, "它"@, "们"@, "这"@, "那"@,
        "也"@, "都"@, "就"@, "还"@, "又"@, "才"@, "只"@, "而"@, "与"@, "及"@, "或"@, "但"@,
        "可"@, "能"@, "会"@, "要"@, "把"@, "被"@, "让"@, "使"@, "给"@, "对"@, "和"@, "跟"@,
        "向"@, "从"@, "到"@, "为"@, "于"@, "以"@, "之"@, "其"@, "此"@, "个"@, "么"@, "吗"@,
        "呢"@, "啊"@, "呀"@, "哦"@, "哈"@, "嘛"@, "吧"@, "呗"@, "嗯"@, "呃"@, "哇"@, "哎"@,
        "不"@, "没"@, "无"@, "有"@, "一"@, "二"@, "三"@, "上"@, "下"@, "里"@, "中"@, "后"@,
        "前"@, "已"@, "再"@, "很"@, "太"@, "真"@, "好"@, "多"@, "少"@, "大"@, "小"@, "去"@,
        "来"@, "看"@, "说"@, "想"@, "做"@, "着"@, "过"@, "地"@, "得"@, "的话"@, "一个"@, "我们"@,
        "你们"@, "他们"@, "这个"@, "那个"@, "什么"@, "怎么"@, "为什么"@, "那么"@, "这么"@, "可以"@, "这样"@, "那样"@,
        "现在"@, "然后"@, "因为"@, "所以"@, "如果"@, "不过"@, "不要"@, "没有"@, "不是"@, "不能"@, "不会"@, "一下"@,
        "时候"@, "知道"@, "觉得"@, "可能"@, "其实"@, "应该"@, "还是"@, "或者"@, "已经"@, "一样"@, "一直"@, "一些"@,
        "这种"@, "东西"@, "地方"@, "自己"@, "这里"@, "那里"@, "the"@, "a"@, "an"@, "is"@, "are"@, "was"@,
        "were"@, "to"@, "of"@, "in"@, "on"@, "and"@, "or"@, "i"@, "you"@, "it"@, "that"@, "this"@,
        "for"@, "with"@, "be"@, "do"@, "have"@, "has"@,
    ]
}

/// Words that carry no meaning of their own.
pub fn stopwords() -> (r: Vec<&'static str>)
    ensures
        text::literals(r@) == stopword_list(),
{
    let r: Vec<&'static str> = vec![
        "的", "了", "是", "在", "我", "你", "他", "她", "它", "们", "这", "那",
        "也", "都", "就", "还", "又", "才", "只", "而", "与", "及", "或", "但",
        "可", "能", "会", "要", "把", "被", "让", "使", "给", "对", "和", "跟",
        "向", "从", "到", "为", "于", "以", "之", "其", "此", "个", "么", "吗",
        "呢", "啊", "呀", "哦", "哈", "嘛", "吧", "呗", "嗯", "呃", "哇", "哎",
        "不", "没", "无", "有", "一", "二", "三", "上", "下", "里", "中", "后",
        "前", "已", "再", "很", "太", "真", "好", "多", "少", "大", "小", "去",
        "来", "看", "说", "想", "做", "着", "过", "地", "得", "的话", "一个", "我们",
        "你们", "他们", "这个", "那个", "什么", "怎么", "为什么", "那么", "这么", "可以", "这样", "那样",
        "现在", "然后", "因为", "所以", "如果", "不过", "不要", "没有", "不是", "不能", "不会", "一下",
        "时候", "知道", "觉得", "可能", "其实", "应该", "还是", "或者", "已经", "一样", "一直", "一些",
        "这种", "东西", "地方", "自己", "这里", "那里", "the", "a", "an", "is", "are", "was",
        "were", "to", "of", "in", "on", "and", "or", "i", "you", "it", "that", "this",
        "for", "with", "be", "do", "have", "has",
    ];
    assert(text::literals(r@) =~= stopword_list());
    r
}

/// The token counts as a word: it is no stop word, it holds a letter or a number, it is not made of
/// decimal digits alone and it is not a single ASCII character.
pub open spec fn is_word(token: Seq<char>) -> bool {
    &&& token.len() > 0
    &&& !stopword_list().contains(token)
    &&& exists|i: int| 0 <= i < token.len() && unicode::alphanumeric(#[trigger] token[i])
    &&& !text::all_digits(token)
    &&& !(token.len() == 1 && (token[0] as int) < 128)
}

/// Whether a token counts as a word.
pub fn keep(token: &str, stop: &Vec<&'static str>) -> (r: bool)
    requires
        text::literals(stop@) == stopword_list(),
    ensures
        r == is_word(token@),
{
    let chars = text::chars_of(token);
    let n = chars.len();
    if n == 0 {
        return false;
    }
    let mut i: usize = 0;
    while i < stop.len()
        invariant
            i <= stop@.len(),
            text::literals(stop@) == stopword_list(),
            forall|k: int| 0 <= k < i ==> stopword_list()[k] != token@,
        decreases stop@.len() - i,
    {
        assert(stopword_list()[i as int] == stop@[i as int]@);
        if text::same(stop[i], token) {
            return false;
        }
        i = i + 1;
    }
    assert(stop@.len() == stopword_list().len());
    let mut letter = false;
    let mut other = false;
    let mut k: usize = 0;
    while k < n
        invariant
            k <= n,
            n == chars@.len(),
            letter == exists|j: int| 0 <= j < k && unicode::alphanumeric(#[trigger] chars@[j]),
            other == exists|j: int| 0 <= j < k && !text::is_digit(#[trigger] chars@[j]),
        decreases n - k,
    {
        let c: char = chars[k];
        if unicode::is_alphanumeric(c) {
            letter = true;
        }
        if c < '0' || c > '9' {
            assert(!text::is_digit(chars@[k as int]));
            other = true;
        }
        k = k + 1;
    }
    let first: char = chars[0];
    let single = n == 1 && first <= '\u{7f}';
    assert(other == !text::all_digits(token@));
    letter && other && !single
}

/// The form in which a token is counted: without white space around it and in lower case.
pub open spec fn word_key(token: Seq<char>) -> Seq<char> {
    unicode::lowercase(unicode::trim(token))
}

/// The tokens that count as words, in the form in which they are counted.
pub open spec fn kept_words(tokens: Seq<Seq<char>>) -> Seq<Seq<char>>
    decreases tokens.len(),
{
    if tokens.len() == 0 {
        Seq::empty()
    } else {
        let before = kept_words(tokens.drop_last());
        let key = word_key(tokens.last());
        if is_word(key) {
            before.push(key)
        } else {
            before
        }
    }
}

/// The tokens of each text.
pub open spec fn token_views(cuts: Seq<Vec<String>>) -> Seq<Seq<Seq<char>>> {
    cuts.map_values(|c: Vec<String>| text::texts(c@))
}

/// The message has a text, and it is of the wanted side where one is wanted.
pub open spec fn is_wanted(m: TextMessage, self_id: Option<i64>, side: Option<bool>) -> bool {
    m.text is Some && (side is None || side == Some(model::from_self(self_id, m.sender_id)))
}

/// The words of all texts, or of those of one side; `cuts` holds the tokens of each text.
pub open spec fn words_of(
    texts: Seq<TextMessage>,
    cuts: Seq<Seq<Seq<char>>>,
    self_id: Option<i64>,
    side: Option<bool>,
) -> Seq<Seq<char>>
    decreases texts.len(),
{
    if texts.len() == 0 {
        Seq::empty()
    } else {
        let before = words_of(texts.drop_last(), cuts, self_id, side);
        if is_wanted(texts.last(), self_id, side) {
            before + kept_words(cuts[texts.len() - 1])
        } else {
            before
        }
    }
}

/// Every word is of one side.
pub proof fn words_split(texts: Seq<TextMessage>, cuts: Seq<Seq<Seq<char>>>, self_id: Option<i64>, word: Seq<char>)
    ensures
        words_of(texts, cuts, self_id, None).to_multiset().count(word) == words_of(
            texts,
            cuts,
            self_id,
            Some(true),
        ).to_multiset().count(word) + words_of(texts, cuts, self_id, Some(false)).to_multiset().count(word),
    decreases texts.len(),
{
    broadcast use vstd::seq_lib::group_to_multiset_ensures;
    broadcast use vstd::multiset::group_multiset_axioms;

    if texts.len() > 0 {
        let less = texts.drop_last();
        words_split(less, cuts, self_id, word);
        let more = kept_words(cuts[texts.len() - 1]);
        vstd::seq_lib::lemma_multiset_commutative(words_of(less, cuts, self_id, None), more);
        vstd::seq_lib::lemma_multiset_commutative(words_of(less, cuts, self_id, Some(true)), more);
        vstd::seq_lib::lemma_multiset_commutative(words_of(less, cuts, self_id, Some(false)), more);
    }
}

/// Appends the words among the tokens.
fn push_words(words: &mut Vec<String>, tokens: &Vec<String>, stop: &Vec<&'static str>)
    requires
        text::literals(stop@) == stopword_list(),
    ensures
        text::texts(final(words)@) == text::texts(old(words)@) + kept_words(text::texts(tokens@)),
{
    let ghost start = text::texts(words@);
    let ghost views = text::texts(tokens@);
    let mut j: usize = 0;
    assert(start + kept_words(views.take(0)) =~= start);
    while j < tokens.len()
        invariant
            j <= tokens@.len(),
            text::literals(stop@) == stopword_list(),
            views == text::texts(tokens@),
            text::texts(words@) == start + kept_words(views.take(j as int)),
        decreases tokens@.len() - j,
    {
        assert(views[j as int] == tokens@[j as int]@);
        assert(views.take(j + 1).drop_last() =~= views.take(j as int));
        let key = unicode::to_lower(unicode::trimmed(tokens[j].as_str()).as_str());
        if keep(key.as_str(), stop) {
            let ghost before = words@;
            let ghost shown = key@;
            words.push(key);
            proof {
                assert(text::texts(words@) =~= text::texts(before).push(shown));
                assert(start + kept_words(views.take(j as int)).push(shown) =~= (start + kept_words(
                    views.take(j as int),
                )).push(shown));
            }
        }
        j = j + 1;
    }
    assert(views.take(j as int) =~= views);
}

/// The words of all texts, or of those of one side.
pub fn collect_words(
    texts: &[TextMessage],
    cuts: &Vec<Vec<String>>,
    self_id: Option<i64>,
    side: Option<bool>,
) -> (words: Vec<String>)
    requires
        cuts@.len() == texts@.len(),
    ensures
        text::texts(words@) == words_of(texts@, token_views(cuts@), self_id, side),
{
    let stop = stopwords();
    let mut words: Vec<String> = Vec::new();
    let ghost views = token_views(cuts@);
    let mut i: usize = 0;
    while i < texts.len()
        invariant
            i <= texts@.len(),
            cuts@.len() == texts@.len(),
            text::literals(stop@) == stopword_list(),
            views == token_views(cuts@),
            text::texts(words@) == words_of(texts@.take(i as int), views, self_id, side),
        decreases texts@.len() - i,
    {
        assert(texts@.take(i + 1).drop_last() =~= texts@.take(i as int));
        assert(views[i as int] == text::texts(cuts@[i as int]@));
        let mine = model::is_self(self_id, texts[i].sender_id);
        let wanted = texts[i].text.is_some() && match side {
            Some(own) => own == mine,
            None => true,
        };
        if wanted {
            push_words(&mut words, &cuts[i], &stop);
        }
        i = i + 1;
    }
    assert(texts@.take(i as int) =~= texts@);
    words
}

/// Counts words.
fn count_words(words: Vec<String>) -> (m: SortedMap<String, i64>)
    ensures
        m.wf(),
        m.map() == ordered::tally(text::texts(words@)),
{
    let ghost views = text::texts(words@);
    let mut m: SortedMap<String, i64> = SortedMap::new();
    let mut i: usize = 0;
    assert(m.map() =~= ordered::tally(views.take(0)));
    while i < words.len()
        invariant
            i <= words@.len(),
            views == text::texts(words@),
            m.wf(),
            m.map() == ordered::tally(views.take(i as int)),
        decreases words@.len() - i,
    {
        let word = words[i].clone();
        m.count(word, Ghost(views.take(i as int)));
        proof {
            assert(views.take(i + 1) =~= views.take(i as int).push(views[i as int]));
        }
        i = i + 1;
    }
    assert(views.take(i as int) =~= views);
    m
}

/// At most the first `n` of the rows.
pub open spec fn first_rows(rows: Seq<(Seq<char>, i64)>, n: int) -> Seq<(Seq<char>, i64)> {
    if rows.len() <= n {
        rows
    } else {
        rows.take(n)
    }
}

/// Keeps at most the first `n` of the rows.
fn cut_rows(rows: Vec<(String, i64)>, n: usize) -> (r: Vec<(String, i64)>)
    ensures
        ordered::keyed(r@) == first_rows(ordered::keyed(rows@), n as int),
{
    let ghost all = ordered::keyed(rows@);
    let mut r = rows;
    r.truncate(n);
    assert(ordered::keyed(r@) =~= first_rows(all, n as int));
    r
}

/// The words with their counts, the most frequent first, equal counts in the order of the words.
pub open spec fn ranked_words(words: Seq<Seq<char>>) -> Seq<(Seq<char>, i64)> {
    ordered::ranking::<String>(ordered::tally(words))
}

/// `w` holds the most frequent words, given the tokens of each text.
pub open spec fn is_word_freq(
    w: WordFreq,
    texts: Seq<TextMessage>,
    cuts: Seq<Seq<Seq<char>>>,
    self_id: Option<i64>,
    top_n: int,
) -> bool {
    &&& ordered::keyed(w.overall@) == first_rows(ranked_words(words_of(texts, cuts, self_id, None)), top_n)
    &&& ordered::keyed(w.mine@) == first_rows(ranked_words(words_of(texts, cuts, self_id, Some(true))), top_n)
    &&& ordered::keyed(w.theirs@) == first_rows(ranked_words(words_of(texts, cuts, self_id, Some(false))), top_n)
}

/// The most frequent words, given the tokens of each text.
pub fn word_freq_of(
    texts: &[TextMessage],
    cuts: &Vec<Vec<String>>,
    self_id: Option<i64>,
    top_n: usize,
) -> (w: WordFreq)
    requires
        cuts@.len() == texts@.len(),
    ensures
        is_word_freq(w, texts@, token_views(cuts@), self_id, top_n as int),
{
    let overall = ordered::ranked(count_words(collect_words(texts, cuts, self_id, None)));
    let mine = ordered::ranked(count_words(collect_words(texts, cuts, self_id, Some(true))));
    let theirs = ordered::ranked(count_words(collect_words(texts, cuts, self_id, Some(false))));
    WordFreq { overall: cut_rows(overall, top_n), mine: cut_rows(mine, top_n), theirs: cut_rows(theirs, top_n) }
}

/// The tokens that the segmenter finds in each text; a message without text has none.
pub open spec fn segmented(texts: Seq<TextMessage>) -> Seq<Seq<Seq<char>>> {
    texts.map_values(
        |m: TextMessage|
            match m.text {
                Some(t) => segment::segmentation(t@),
                None => Seq::empty(),
            },
    )
}

/// Cuts every text into tokens.
pub fn cut_all(texts: &[TextMessage]) -> (cuts: Vec<Vec<String>>)
    ensures
        cuts@.len() == texts@.len(),
        token_views(cuts@) == segmented(texts@),
{
    let segmenter = Segmenter::new();
    let mut cuts: Vec<Vec<String>> = Vec::new();
    let mut i: usize = 0;
    while i < texts.len()
        invariant
            i <= texts@.len(),
            cuts@.len() == i,
            token_views(cuts@) == segmented(texts@.take(i as int)),
        decreases texts@.len() - i,
    {
        let ghost before = cuts@;
        let tokens: Vec<String> = match &texts[i].text {
            Some(t) => segmenter.cut(t.as_str()),
            None => Vec::new(),
        };
        let ghost shown = text::texts(tokens@);
        cuts.push(tokens);
        proof {
            assert(texts@[i as int].text is None ==> shown =~= Seq::<Seq<char>>::empty());
            assert(token_views(cuts@) =~= token_views(before).push(shown));
            assert(segmented(texts@.take(i + 1)) =~= segmented(texts@.take(i as int)).push(shown));
        }
        i = i + 1;
    }
    assert(texts@.take(i as int) =~= texts@);
    cuts
}

/// The most frequent words of all, of oneself and of the others, at most `top_n` of each.
pub fn word_freq(texts: &[TextMessage], self_id: Option<i64>, top_n: usize) -> (w: WordFreq)
    ensures
        is_word_freq(w, texts@, segmented(texts@), self_id, top_n as int),
{
    let cuts = cut_all(texts);
    word_freq_of(texts, &cuts, self_id, top_n)
}

/// How often a word is counted.
pub open spec fn count_in(counts: Map<Seq<char>, i64>, word: Seq<char>) -> int {
    if counts.contains_key(word) {
        counts[word] as int
    } else {
        0
    }
}

/// A word is typical of a side that uses it at least three times, and the other side less than a
/// fifth as often, in double precision.
pub open spec fn is_typical(count: int, other: int) -> bool {
    count >= 3 && double::less(double::of(other), double::product(double::of(count), double::nearest(1, 5)))
}

/// Whether a word is typical of a side, by how often it and the other side use it.
fn typical_of(count: i64, other: i64) -> (r: bool)
    ensures
        r == is_typical(count as int, other as int),
{
    if count < 3 {
        return false;
    }
    let other: u64 = if other < 0 {
        0
    } else {
        other as u64
    };
    Double::count(other).is_less(Double::count(count as u64).times(Double::fraction(1, 5)))
}

/// The ranked words that are typical of one side.
pub open spec fn typical_words(own: Seq<Seq<char>>, others: Seq<Seq<char>>) -> Seq<(Seq<char>, i64)> {
    seqs::kept(
        ranked_words(own),
        |p: (Seq<char>, i64)| is_typical(p.1 as int, count_in(ordered::tally(others), p.0)),
    )
}

/// The words that are typical of one side.
fn typical(own: SortedMap<String, i64>, others: &SortedMap<String, i64>, Ghost(a): Ghost<Seq<Seq<char>>>, Ghost(b): Ghost<
    Seq<Seq<char>>,
>) -> (rows: Vec<(String, i64)>)
    requires
        own.wf(),
        others.wf(),
        own.map() == ordered::tally(a),
        others.map() == ordered::tally(b),
    ensures
        ordered::keyed(rows@) == typical_words(a, b),
{
    let all = ordered::ranked(own);
    let ghost views = ordered::keyed(all@);
    let ghost p = |p: (Seq<char>, i64)| is_typical(p.1 as int, count_in(ordered::tally(b), p.0));
    let mut rows: Vec<(String, i64)> = Vec::new();
    let mut i: usize = 0;
    while i < all.len()
        invariant
            i <= all@.len(),
            views == ordered::keyed(all@),
            others.wf(),
            others.map() == ordered::tally(b),
            p == (|p: (Seq<char>, i64)| is_typical(p.1 as int, count_in(ordered::tally(b), p.0))),
            ordered::keyed(rows@) == seqs::kept(views.take(i as int), p),
        decreases all@.len() - i,
    {
        proof {
            seqs::kept_step(views, i as int, p);
            assert(views[i as int] == (all@[i as int].0@, all@[i as int].1));
        }
        let count: i64 = all[i].1;
        let other: i64 = match others.get(&all[i].0) {
            Some(c) => *c,
            None => 0,
        };
        if typical_of(count, other) {
            let ghost before = rows@;
            rows.push((all[i].0.clone(), count));
            assert(ordered::keyed(rows@) =~= ordered::keyed(before).push(views[i as int]));
        }
        i = i + 1;
    }
    assert(views.take(i as int) =~= views);
    rows
}

/// The words that are typical of oneself and of the others, given the tokens of each text.
pub fn signature_words_of(
    texts: &[TextMessage],
    cuts: &Vec<Vec<String>>,
    self_id: Option<i64>,
    top_n: usize,
) -> (r: (Vec<(String, i64)>, Vec<(String, i64)>))
    requires
        cuts@.len() == texts@.len(),
    ensures
        ({
            let mine = words_of(texts@, token_views(cuts@), self_id, Some(true));
            let theirs = words_of(texts@, token_views(cuts@), self_id, Some(false));
            &&& ordered::keyed(r.0@) == first_rows(typical_words(mine, theirs), top_n as int)
            &&& ordered::keyed(r.1@) == first_rows(typical_words(theirs, mine), top_n as int)
        }),
{
    let ghost a = words_of(texts@, token_views(cuts@), self_id, Some(true));
    let ghost b = words_of(texts@, token_views(cuts@), self_id, Some(false));
    let mine = count_words(collect_words(texts, cuts, self_id, Some(true)));
    let theirs = count_words(collect_words(texts, cuts, self_id, Some(false)));
    let mine_again = count_words(collect_words(texts, cuts, self_id, Some(true)));
    let my_words = typical(mine, &theirs, Ghost(a), Ghost(b));
    let their_words = typical(theirs, &mine_again, Ghost(b), Ghost(a));
    (cut_rows(my_words, top_n), cut_rows(their_words, top_n))
}

/// The words that are typical of oneself and of the others: at most `top_n` of each, the most
/// frequent first.
pub fn signature_words(texts: &[TextMessage], self_id: Option<i64>, top_n: usize) -> (r: (
    Vec<(String, i64)>,
    Vec<(String, i64)>,
))
    ensures
        ({
            let mine = words_of(texts@, segmented(texts@), self_id, Some(true));
            let theirs = words_of(texts@, segmented(texts@), self_id, Some(false));
            &&& ordered::keyed(r.0@) == first_rows(typical_words(mine, theirs), top_n as int)
            &&& ordered::keyed(r.1@) == first_rows(typical_words(theirs, mine), top_n as int)
        }),
{
    let cuts = cut_all(texts);
    signature_words_of(texts, &cuts, self_id, top_n)
}

}
