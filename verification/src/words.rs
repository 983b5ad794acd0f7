//! Wordlists: a language's ordered words and the reverse lookup from a word
//! to its position, as the cipher uses them.
//!
//! A corpus is newline-delimited text, one canonical word per line; a word's
//! line index is its position.

use vstd::prelude::*;

use crate::error::OtpError;

verus! {

/// The languages a wordlist can name.
#[derive(Copy, Clone, PartialEq, Eq, Structural, PartialOrd, Ord, Debug, Hash)]
pub enum Language {
    ChineseSimplified,
    ChineseTraditional,
    English,
    French,
    Italian,
    Japanese,
    Korean,
    Spanish,
}

/// The language a name denotes, if any.
pub open spec fn language_named(name: Seq<char>) -> Option<Language> {
    if name == "chinese_simplified"@ {
        Some(Language::ChineseSimplified)
    } else if name == "chinese_traditional"@ {
        Some(Language::ChineseTraditional)
    } else if name == "english"@ {
        Some(Language::English)
    } else if name == "french"@ {
        Some(Language::French)
    } else if name == "italian"@ {
        Some(Language::Italian)
    } else if name == "japanese"@ {
        Some(Language::Japanese)
    } else if name == "korean"@ {
        Some(Language::Korean)
    } else if name == "spanish"@ {
        Some(Language::Spanish)
    } else {
        None
    }
}

impl Language {
    /// Resolves a language name, failing on one this build does not carry.
    pub fn from_name(name: &str) -> (r: Result<Language, OtpError>)
        ensures
            match language_named(name@) {
                Some(language) => r == Ok::<Language, OtpError>(language),
                None => r == Err::<Language, OtpError>(OtpError::UnsupportedLanguage),
            },
    {
        let owned = name.to_owned();
        if owned == "chinese_simplified".to_owned() {
            Ok(Language::ChineseSimplified)
        } else if owned == "chinese_traditional".to_owned() {
            Ok(Language::ChineseTraditional)
        } else if owned == "english".to_owned() {
            Ok(Language::English)
        } else if owned == "french".to_owned() {
            Ok(Language::French)
        } else if owned == "italian".to_owned() {
            Ok(Language::Italian)
        } else if owned == "japanese".to_owned() {
            Ok(Language::Japanese)
        } else if owned == "korean".to_owned() {
            Ok(Language::Korean)
        } else if owned == "spanish".to_owned() {
            Ok(Language::Spanish)
        } else {
            Err(OtpError::UnsupportedLanguage)
        }
    }
}

/// A line with a trailing carriage return stripped.
pub open spec fn strip_cr(line: Seq<char>) -> Seq<char> {
    if line.len() > 0 && line.last() == '\r' {
        line.drop_last()
    } else {
        line
    }
}

/// The lines still to be made out of a remaining text, with the characters
/// of the current, unterminated line collected so far.
pub open spec fn lines_from(rest: Seq<char>, current: Seq<char>) -> Seq<Seq<char>>
    decreases rest.len(),
{
    if rest.len() == 0 {
        if current.len() == 0 {
            Seq::<Seq<char>>::empty()
        } else {
            seq![current]
        }
    } else if rest[0] == '\n' {
        seq![strip_cr(current)] + lines_from(rest.drop_first(), Seq::<char>::empty())
    } else {
        lines_from(rest.drop_first(), current.push(rest[0]))
    }
}

/// A text split into lines: line feeds end a line, a carriage return before
/// a line feed is stripped, and a final line feed opens no further line.
pub open spec fn lines_of(text: Seq<char>) -> Seq<Seq<char>> {
    lines_from(text, Seq::<char>::empty())
}

/// The character sequences of a sequence of words.
pub open spec fn views_of(words: Seq<String>) -> Seq<Seq<char>> {
    words.map_values(|word: String| word@)
}

/// Relies on str::lines: the text split at line feeds, a carriage return
/// stripped off the end of each terminated line, with no empty line for a
/// final terminator.
#[verifier::external_body]
fn split_lines(corpus: &str) -> (r: Vec<String>)
    ensures
        views_of(r@) == lines_of(corpus@),
{
    corpus.lines().map(|line| line.to_owned()).collect()
}

/// The position a word resolves to in a wordlist: the last line carrying it,
/// as the reverse lookup built line by line leaves the last occurrence in
/// place.
pub open spec fn word_index(wordlist: Seq<Seq<char>>, word: Seq<char>) -> Option<int>
    decreases wordlist.len(),
{
    if wordlist.len() == 0 {
        None
    } else if wordlist.last() == word {
        Some(wordlist.len() - 1)
    } else {
        word_index(wordlist.drop_last(), word)
    }
}

/// A resolved position lies in the wordlist and carries the word.
pub proof fn lemma_word_index_some(wordlist: Seq<Seq<char>>, word: Seq<char>)
    requires
        word_index(wordlist, word) is Some,
    ensures
        0 <= word_index(wordlist, word)->0 < wordlist.len(),
        wordlist[word_index(wordlist, word)->0] == word,
    decreases wordlist.len(),
{
    if wordlist.len() > 0 && wordlist.last() != word {
        lemma_word_index_some(wordlist.drop_last(), word);
    }
}

/// Whether no word occurs twice in a wordlist.
pub open spec fn distinct_words(wordlist: Seq<Seq<char>>) -> bool {
    forall|i: int, j: int|
        0 <= i < j < wordlist.len() ==> wordlist[i] != wordlist[j]
}

/// In a wordlist without duplicates, every word resolves to its own line.
pub proof fn lemma_word_index_of_member(wordlist: Seq<Seq<char>>, i: int)
    requires
        distinct_words(wordlist),
        0 <= i < wordlist.len(),
    ensures
        word_index(wordlist, wordlist[i]) == Some(i),
    decreases wordlist.len(),
{
    if i < wordlist.len() - 1 {
        assert(wordlist.last() != wordlist[i]);
        lemma_word_index_of_member(wordlist.drop_last(), i);
    }
}

/// The reverse lookup from canonical word to its position.
pub struct WordIndex {
    words: Vec<String>,
}

impl View for WordIndex {
    type V = Seq<Seq<char>>;

    closed spec fn view(&self) -> Seq<Seq<char>> {
        views_of(self.words@)
    }
}

impl WordIndex {
    /// Builds the lookup over an ordered wordlist.
    pub fn new(words: Vec<String>) -> (r: WordIndex)
        ensures
            r@ == views_of(words@),
    {
        WordIndex { words }
    }

    /// The position of a word, or `None` for a word not in the wordlist.
    pub fn get(&self, word: &String) -> (r: Option<usize>)
        ensures
            match r {
                Some(i) => word_index(self@, word@) == Some(i as int),
                None => word_index(self@, word@) is None,
            },
    {
        let mut j: usize = self.words.len();
        proof {
            assert(self@.take(j as int) =~= self@);
        }
        while j > 0
            invariant
                j <= self.words@.len(),
                word_index(self@, word@) == word_index(self@.take(j as int), word@),
            decreases j,
        {
            if self.words[j - 1] == *word {
                return Some(j - 1);
            }
            proof {
                assert(self@.take(j as int).drop_last() =~= self@.take(j - 1));
            }
            j = j - 1;
        }
        None
    }
}

/// Splits a corpus into its ordered wordlist and the reverse lookup.
pub fn wordlist(corpus: &str) -> (r: (Vec<String>, WordIndex))
    ensures
        views_of(r.0@) == lines_of(corpus@),
        r.1@ == lines_of(corpus@),
{
    let words = split_lines(corpus);
    let index = WordIndex::new(split_lines(corpus));
    (words, index)
}

} // verus!
