//! Cutting text into words.

use vstd::prelude::*;
use vstd::string::*;
use jieba_rs::Jieba;

use crate::text;

verus! {

/// The segmenter of jieba-rs, with its dictionary.
#[verifier::external_type_specification]
#[verifier::external_body]
pub struct ExJieba(Jieba);

/// The words that `Jieba::cut` finds in a text with the built-in dictionary and with new words
/// guessed.
pub uninterp spec fn segmentation(t: Seq<char>) -> Seq<Seq<char>>;

/// Loads the dictionary.
///
/// Trusted: `Jieba::new`, which loads the dictionary that the crate carries.
#[verifier::external_body]
fn load() -> Jieba {
    Jieba::new()
}

/// Cuts texts into words with the built-in dictionary.
pub struct Segmenter {
    jieba: Jieba,
}

/// Cuts a text.
///
/// Trusted: `Jieba::cut` with new words guessed. A segmenter holds the dictionary that the crate
/// carries, which nothing changes, so the words rest on the text alone.
#[verifier::external_body]
fn cut_with(s: &Segmenter, t: &str) -> (words: Vec<String>)
    ensures
        text::texts(words@) == segmentation(t@),
{
    s.jieba.cut(t, true).into_iter().map(|w| w.to_string()).collect()
}

impl Segmenter {
    /// A segmenter with the built-in dictionary.
    pub fn new() -> Self {
        Segmenter { jieba: load() }
    }

    /// The words of a text.
    pub fn cut(&self, t: &str) -> (words: Vec<String>)
        ensures
            text::texts(words@) == segmentation(t@),
    {
        cut_with(self, t)
    }
}

}
