//! What the words of a conversation say of its texts.

use vstd::prelude::*;

use crate::double;
use crate::laws::counting;
use crate::lexical;
use crate::model::TextMessage;
use crate::ordered;
use crate::seqs;
use crate::unicode;

verus! {

/// A token counts as a word where it is no stop word and holds a letter or a number, but neither one that
/// is made of decimal digits alone nor a single ASCII character does.
pub proof fn words_carry_meaning(token: Seq<char>)
    ensures
        lexical::is_word(token) <==> !lexical::stopword_list().contains(token) && (exists|i: int|
            0 <= i < token.len() && unicode::alphanumeric(#[trigger] token[i])) && (exists|i: int|
            0 <= i < token.len() && !('0' <= #[trigger] token[i] <= '9')) && (token.len() > 1 || token[0] as int >= 128),
{
    if forall|i: int| 0 <= i < token.len() ==> '0' <= #[trigger] token[i] <= '9' {
        if token.len() > 0 {
            assert(crate::text::all_digits(token));
        }
    } else {
        let i = choose|i: int| 0 <= i < token.len() && !('0' <= #[trigger] token[i] <= '9');
        assert(!crate::text::is_digit(token[i]));
    }
}

/// Tokens are taken one after the other: each that counts as a word, without white space around it and in
/// lower case, is one word more.
pub proof fn tokens_become_words(tokens: Seq<Seq<char>>, token: Seq<char>)
    ensures
        lexical::kept_words(Seq::empty()) == Seq::<Seq<char>>::empty(),
        lexical::kept_words(tokens.push(token)) == if lexical::is_word(unicode::lowercase(unicode::trim(token))) {
            lexical::kept_words(tokens).push(unicode::lowercase(unicode::trim(token)))
        } else {
            lexical::kept_words(tokens)
        },
{
    assert(tokens.push(token).drop_last() =~= tokens);
}

/// Texts are taken one after the other: the words of a text come behind those of the texts before, where
/// it is of the side that is asked for or no side is; a message without text adds none.
pub proof fn texts_give_words(
    texts: Seq<TextMessage>,
    m: TextMessage,
    cuts: Seq<Seq<Seq<char>>>,
    self_id: Option<i64>,
    side: Option<bool>,
)
    ensures
        lexical::words_of(Seq::empty(), cuts, self_id, side) == Seq::<Seq<char>>::empty(),
        lexical::words_of(texts.push(m), cuts, self_id, side) == if m.text is Some && (side is None || side->0 == (self_id
            == Some(m.sender_id))) {
            lexical::words_of(texts, cuts, self_id, side) + lexical::kept_words(cuts[texts.len() as int])
        } else {
            lexical::words_of(texts, cuts, self_id, side)
        },
{
    assert(texts.push(m).drop_last() =~= texts);
}

/// The word stands at `i` among the words.
pub open spec fn stands_at(words: Seq<Seq<char>>, i: int, word: Seq<char>) -> bool {
    words[i] == word
}

/// How often a word is among the words.
pub open spec fn uses(words: Seq<Seq<char>>, word: Seq<char>) -> int {
    counting::how_many(words.len() as int, |i: int| stands_at(words, i, word))
}

/// One word comes before another: it is used more often, or as often and stands before it in the order of
/// texts.
pub open spec fn comes_before(words: Seq<Seq<char>>, a: Seq<char>, b: Seq<char>) -> bool {
    uses(words, a) > uses(words, b) || (uses(words, a) == uses(words, b) && ordered::text_before(a, b))
}

proof fn words_ranked(words: Seq<Seq<char>>)
    requires
        words.len() <= i64::MAX,
    ensures
        forall|k: int|
            0 <= k < lexical::ranked_words(words).len() ==> (#[trigger] lexical::ranked_words(words)[k]).1 > 0
                && lexical::ranked_words(words)[k].1 == uses(words, lexical::ranked_words(words)[k].0),
        forall|k: int, l: int|
            0 <= k < l < lexical::ranked_words(words).len() ==> comes_before(
                words,
                (#[trigger] lexical::ranked_words(words)[k]).0,
                (#[trigger] lexical::ranked_words(words)[l]).0,
            ),
        forall|w: Seq<char>| #[trigger]
            words.contains(w) ==> exists|k: int|
                0 <= k < lexical::ranked_words(words).len() && (#[trigger] lexical::ranked_words(words)[k]).0 == w,
{
    let map = ordered::tally(words);
    let rows = lexical::ranked_words(words);
    ordered::tally_size(words);
    ordered::ranking_ranks::<String>(map);
    assert forall|k: int| 0 <= k < rows.len() implies (#[trigger] rows[k]).1 > 0 && rows[k].1 == uses(
        words,
        rows[k].0,
    ) by {
        let w = rows[k].0;
        assert(map.contains_pair(rows[k].0, rows[k].1));
        let at = |i: int| stands_at(words, i, w);
        counting::tally_counts(words, w, at);
        ordered::tally_holds(words, w);
    }
    assert forall|k: int, l: int| 0 <= k < l < rows.len() implies comes_before(
        words,
        (#[trigger] rows[k]).0,
        (#[trigger] rows[l]).0,
    ) by {
        assert(ordered::ranks::<String, i64>(rows[k], rows[l]) && rows[k].0 != rows[l].0);
    }
    assert forall|w: Seq<char>| #[trigger] words.contains(w) implies exists|k: int|
        0 <= k < rows.len() && (#[trigger] rows[k]).0 == w by {
        assert(map.contains_key(w));
        let k = choose|k: int| 0 <= k < rows.len() && rows[k].0 == w;
        assert(rows[k].0 == w);
    }
}

/// The most frequent words: each row tells how often its word is used, the rows come by falling use and
/// then in the order of texts, and a word that is left out comes behind all of the `n` that are listed.
pub proof fn frequent_words_are_listed(rows: Seq<(Seq<char>, i64)>, words: Seq<Seq<char>>, n: int)
    requires
        rows == lexical::first_rows(lexical::ranked_words(words), n),
        words.len() <= i64::MAX,
        n >= 0,
    ensures
        rows.len() <= n,
        forall|k: int| 0 <= k < rows.len() ==> (#[trigger] rows[k]).1 > 0 && rows[k].1 == uses(words, rows[k].0),
        forall|k: int, l: int|
            0 <= k < l < rows.len() ==> comes_before(words, (#[trigger] rows[k]).0, (#[trigger] rows[l]).0),
        forall|w: Seq<char>| #[trigger]
            words.contains(w) ==> (exists|k: int| 0 <= k < rows.len() && (#[trigger] rows[k]).0 == w) || (rows.len() == n
                && forall|k: int| 0 <= k < rows.len() ==> comes_before(words, (#[trigger] rows[k]).0, w)),
{
    words_ranked(words);
    let all = lexical::ranked_words(words);
    assert forall|k: int| 0 <= k < rows.len() implies #[trigger] rows[k] == all[k] by {}
    assert forall|w: Seq<char>| #[trigger] words.contains(w) implies (exists|k: int|
        0 <= k < rows.len() && (#[trigger] rows[k]).0 == w) || (rows.len() == n && forall|k: int|
        0 <= k < rows.len() ==> comes_before(words, (#[trigger] rows[k]).0, w)) by {
        let m = choose|m: int| 0 <= m < all.len() && (#[trigger] all[m]).0 == w;
        if m < rows.len() {
            assert(rows[m].0 == w);
        } else {
            assert forall|k: int| 0 <= k < rows.len() implies comes_before(words, (#[trigger] rows[k]).0, w) by {
                assert(all[k] == rows[k]);
            }
        }
    }
}

/// A word is typical of a side that uses it three times or more, and five times more often than the other
/// side; not where it uses it less than three times, or less than five times as often. In between, where
/// it is exactly five times as often, it is for double precision to say. For up to two to the 40th uses.
pub proof fn typical_words_are_frequent(count: int, other: int)
    requires
        0 <= count <= 0x100_0000_0000,
        0 <= other <= 0x100_0000_0000,
    ensures
        count >= 3 && count > 5 * other ==> lexical::is_typical(count, other),
        count < 3 || count < 5 * other ==> !lexical::is_typical(count, other),
{
    if count > 0 {
        double::count_against_a_fifth(other, count);
    }
}

/// The typical words of a side are those of its words that are typical, each with how often it is used, by
/// falling use and then in the order of texts.
pub proof fn typical_words_are_listed(own: Seq<Seq<char>>, others: Seq<Seq<char>>)
    requires
        own.len() <= i64::MAX,
        others.len() <= i64::MAX,
    ensures
        ({
            let rows = lexical::typical_words(own, others);
            &&& forall|k: int|
                0 <= k < rows.len() ==> (#[trigger] rows[k]).1 == uses(own, rows[k].0) && lexical::is_typical(
                    uses(own, rows[k].0),
                    uses(others, rows[k].0),
                )
            &&& forall|k: int, l: int|
                0 <= k < l < rows.len() ==> comes_before(own, (#[trigger] rows[k]).0, (#[trigger] rows[l]).0)
            &&& forall|w: Seq<char>| #[trigger]
                own.contains(w) && lexical::is_typical(uses(own, w), uses(others, w)) ==> exists|k: int|
                    0 <= k < rows.len() && (#[trigger] rows[k]).0 == w
        }),
{
    words_ranked(own);
    let all = lexical::ranked_words(own);
    let p = |x: (Seq<char>, i64)| lexical::is_typical(x.1 as int, lexical::count_in(ordered::tally(others), x.0));
    let rows = lexical::typical_words(own, others);
    assert(rows == seqs::kept(all, p));
    let at = kept_places(all, p);
    assert forall|k: int| 0 <= k < all.len() implies p(#[trigger] all[k]) == lexical::is_typical(
        uses(own, all[k].0),
        uses(others, all[k].0),
    ) by {
        let w = all[k].0;
        let at = |i: int| stands_at(others, i, w);
        counting::tally_counts(others, w, at);
    }
    assert forall|k: int| 0 <= k < rows.len() implies (#[trigger] rows[k]).1 == uses(own, rows[k].0)
        && lexical::is_typical(uses(own, rows[k].0), uses(others, rows[k].0)) by {
        assert(rows[k] == all[at[k]]);
    }
    assert forall|k: int, l: int| 0 <= k < l < rows.len() implies comes_before(
        own,
        (#[trigger] rows[k]).0,
        (#[trigger] rows[l]).0,
    ) by {
        assert(rows[k] == all[at[k]] && rows[l] == all[at[l]]);
    }
    assert forall|w: Seq<char>| #[trigger]
        own.contains(w) && lexical::is_typical(uses(own, w), uses(others, w)) implies exists|k: int|
        0 <= k < rows.len() && (#[trigger] rows[k]).0 == w by {
        let m = choose|m: int| 0 <= m < all.len() && (#[trigger] all[m]).0 == w;
        assert(p(all[m]));
        let k = choose|k: int| 0 <= k < at.len() && #[trigger] at[k] == m;
        assert(rows[k] == all[at[k]]);
    }
}

/// Where the kept items stand: in the same order, and none that has the property is left out.
pub proof fn kept_places<A>(s: Seq<A>, p: spec_fn(A) -> bool) -> (at: Seq<int>)
    ensures
        at.len() == seqs::kept(s, p).len(),
        forall|k: int|
            0 <= k < at.len() ==> 0 <= #[trigger] at[k] < s.len() && p(s[at[k]]) && seqs::kept(s, p)[k] == s[at[k]],
        forall|k: int, l: int| 0 <= k < l < at.len() ==> #[trigger] at[k] < #[trigger] at[l],
        forall|i: int| 0 <= i < s.len() && p(#[trigger] s[i]) ==> exists|k: int| 0 <= k < at.len() && #[trigger] at[k] == i,
    decreases s.len(),
{
    if s.len() == 0 {
        Seq::empty()
    } else {
        let n = s.len() - 1;
        let less = s.drop_last();
        let before = kept_places(less, p);
        assert forall|k: int| 0 <= k < before.len() implies s[#[trigger] before[k]] == less[before[k]] by {}
        let at = if p(s.last()) {
            before.push(n)
        } else {
            before
        };
        assert forall|i: int| 0 <= i < s.len() && p(#[trigger] s[i]) implies exists|k: int|
            0 <= k < at.len() && #[trigger] at[k] == i by {
            if i < n {
                assert(p(less[i]));
                let k = choose|k: int| 0 <= k < before.len() && #[trigger] before[k] == i;
                assert(at[k] == i);
            } else {
                assert(at[before.len() as int] == i);
            }
        }
        at
    }
}

}
