//! The word record type and the storage trait for dictionary applications.
//!
//! The main language of the dictionary is English: every record carries a
//! native-language spelling together with its English translation, so any
//! two records can be related through the canonical language.

use vstd::prelude::*;

verus! {

/// The mathematical content of a [`Word`]: each field as a sequence of
/// characters. Contracts throughout the crate speak of this model.
pub ghost struct WordModel {
    pub native: Seq<char>,
    pub english: Seq<char>,
    pub categories: Seq<Seq<char>>,
    pub examples: Seq<Seq<char>>,
}

/// A dictionary record.
///
/// Consists of two main strings:
/// - `native` - UTF-8 string in the native language
/// - `english` - translation in the English language
///
/// Categories and examples can be used to further categorize
/// the word or to supply some additional metadata with it.
#[derive(Clone, Debug)]
pub struct Word {
    pub native: String,
    pub english: String,
    pub categories: Vec<String>,
    pub examples: Vec<String>,
}

impl DeepView for Word {
    type V = WordModel;

    open spec fn deep_view(&self) -> WordModel {
        WordModel {
            native: self.native.deep_view(),
            english: self.english.deep_view(),
            categories: self.categories.deep_view(),
            examples: self.examples.deep_view(),
        }
    }
}

/// The pieces of `a` joined by `"; "`, in their original order.
pub open spec fn join_listing(a: Seq<Seq<char>>) -> Seq<char> {
    if a.len() == 0 {
        Seq::empty()
    } else {
        a[0] + join_listing_tail(a.skip(1))
    }
}

/// The pieces of `a` after the first, each preceded by `"; "`.
pub open spec fn join_listing_tail(a: Seq<Seq<char>>) -> Seq<char>
    decreases a.len(),
{
    if a.len() == 0 {
        Seq::empty()
    } else {
        seq![';', ' '] + a[0] + join_listing_tail(a.skip(1))
    }
}

/// Appends the characters of `s` to `out`.
fn append_chars(out: &mut Vec<char>, s: &str)
    ensures
        final(out)@ == old(out)@ + s@,
{
    let n = s.unicode_len();
    let mut i: usize = 0;
    while i < n
        invariant
            i <= n,
            n == s@.len(),
            out@ == old(out)@ + s@.take(i as int),
        decreases n - i,
    {
        out.push(s.get_char(i));
        proof {
            assert(old(out)@ + s@.take(i as int + 1) =~= (old(out)@ + s@.take(i as int)).push(
                s@[i as int],
            ));
        }
        i += 1;
    }
    proof {
        assert(old(out)@ + s@.take(n as int) =~= old(out)@ + s@);
    }
}

/// Appends `"; "` and each piece of `a` from index `i` on.
fn join_tail(out: &mut Vec<char>, a: &Vec<String>, i: usize)
    requires
        i <= a.len(),
    ensures
        final(out)@ == old(out)@ + join_listing_tail(a.deep_view().skip(i as int)),
    decreases a.len() - i,
{
    if i < a.len() {
        let ghost o0 = out@;
        out.push(';');
        out.push(' ');
        append_chars(out, a[i].as_str());
        join_tail(out, a, i + 1);
        proof {
            let t = a.deep_view().skip(i as int);
            assert(t[0] == a.deep_view()[i as int]);
            assert(t.skip(1) =~= a.deep_view().skip(i as int + 1));
            assert(out@ =~= o0 + join_listing_tail(t));
        }
    } else {
        proof {
            assert(a.deep_view().skip(i as int) =~= Seq::<Seq<char>>::empty());
        }
    }
}

impl Word {
    pub fn new(native: String, english: String, categories: Vec<String>, examples: Vec<String>) -> (w: Word)
        ensures
            w.deep_view() == (WordModel {
                native: native.deep_view(),
                english: english.deep_view(),
                categories: categories.deep_view(),
                examples: examples.deep_view(),
            }),
    {
        Word { native, english, categories, examples }
    }

    /// The record's examples joined by `"; "`, in their original order,
    /// as a listing prints them.
    pub fn examples_joined(&self) -> (r: String)
        ensures
            r@ == join_listing(self.deep_view().examples),
    {
        let mut out: Vec<char> = Vec::new();
        if self.examples.len() > 0 {
            append_chars(&mut out, self.examples[0].as_str());
            join_tail(&mut out, &self.examples, 1);
            proof {
                assert(self.examples.deep_view()[0] == self.examples@[0]@);
                assert(out@ =~= join_listing(self.deep_view().examples));
            }
        } else {
            proof {
                assert(self.examples.deep_view().len() == 0);
            }
        }
        crate::json::chars_to_string(out)
    }
}

/// The store model after adding each record of `ws`, in order, to a
/// store holding `base`: every add appends exactly one record at the
/// end, as `Dictionary::add_word` ensures.
pub open spec fn after_adds(base: Seq<WordModel>, ws: Seq<WordModel>) -> Seq<WordModel>
    decreases ws.len(),
{
    if ws.len() == 0 {
        base
    } else {
        after_adds(base.push(ws[0]), ws.skip(1))
    }
}

pub proof fn lemma_after_adds(base: Seq<WordModel>, ws: Seq<WordModel>)
    ensures
        after_adds(base, ws) == base + ws,
    decreases ws.len(),
{
    if ws.len() == 0 {
        assert(base + ws =~= base);
    } else {
        lemma_after_adds(base.push(ws[0]), ws.skip(1));
        assert(base.push(ws[0]) + ws.skip(1) =~= base + ws);
    }
}

/// Adding any N valid records to an empty store leaves a count of N:
/// the store model after the adds is exactly the added records, so its
/// length is theirs.
pub proof fn lemma_count_after_adds(ws: Seq<WordModel>)
    ensures
        after_adds(Seq::<WordModel>::empty(), ws) == ws,
        after_adds(Seq::<WordModel>::empty(), ws).len() == ws.len(),
{
    lemma_after_adds(Seq::<WordModel>::empty(), ws);
    assert(Seq::<WordModel>::empty() + ws =~= ws);
}

/// The first record whose native spelling equals `q`, in insertion
/// order; `None` when no record matches.
pub open spec fn find_native(ws: Seq<WordModel>, q: Seq<char>) -> Option<WordModel>
    decreases ws.len(),
{
    if ws.len() == 0 {
        None
    } else if ws[0].native == q {
        Some(ws[0])
    } else {
        find_native(ws.skip(1), q)
    }
}

/// The first record whose English spelling equals `q`, in insertion
/// order; `None` when no record matches.
pub open spec fn find_english(ws: Seq<WordModel>, q: Seq<char>) -> Option<WordModel>
    decreases ws.len(),
{
    if ws.len() == 0 {
        None
    } else if ws[0].english == q {
        Some(ws[0])
    } else {
        find_english(ws.skip(1), q)
    }
}

/// Lookups return the first match in insertion order: when no record
/// before position `k` matches the queried native spelling and the
/// record at `k` does, the lookup yields the record at `k`, whatever
/// duplicates follow it.
pub proof fn lemma_find_native_first(ws: Seq<WordModel>, q: Seq<char>, k: int)
    requires
        0 <= k < ws.len(),
        ws[k].native == q,
        forall|m: int| 0 <= m < k ==> ws[m].native != q,
    ensures
        find_native(ws, q) == Some(ws[k]),
    decreases k,
{
    if k > 0 {
        let t = ws.skip(1);
        assert(t[k - 1] == ws[k]);
        assert(forall|m: int| 0 <= m < k - 1 ==> t[m] == ws[m + 1]);
        lemma_find_native_first(t, q, k - 1);
    }
}

/// When no record matches the queried native spelling, the lookup yields
/// nothing.
pub proof fn lemma_find_native_none(ws: Seq<WordModel>, q: Seq<char>)
    requires
        forall|m: int| 0 <= m < ws.len() ==> ws[m].native != q,
    ensures
        find_native(ws, q) is None,
    decreases ws.len(),
{
    if ws.len() > 0 {
        let t = ws.skip(1);
        assert(forall|m: int| 0 <= m < t.len() ==> t[m] == ws[m + 1]);
        lemma_find_native_none(t, q);
    }
}

/// Lookups by English spelling return the first match in insertion
/// order, as [`lemma_find_native_first`] states for native spellings.
pub proof fn lemma_find_english_first(ws: Seq<WordModel>, q: Seq<char>, k: int)
    requires
        0 <= k < ws.len(),
        ws[k].english == q,
        forall|m: int| 0 <= m < k ==> ws[m].english != q,
    ensures
        find_english(ws, q) == Some(ws[k]),
    decreases k,
{
    if k > 0 {
        let t = ws.skip(1);
        assert(t[k - 1] == ws[k]);
        assert(forall|m: int| 0 <= m < k - 1 ==> t[m] == ws[m + 1]);
        lemma_find_english_first(t, q, k - 1);
    }
}

/// When no record matches the queried English spelling, the lookup
/// yields nothing.
pub proof fn lemma_find_english_none(ws: Seq<WordModel>, q: Seq<char>)
    requires
        forall|m: int| 0 <= m < ws.len() ==> ws[m].english != q,
    ensures
        find_english(ws, q) is None,
    decreases ws.len(),
{
    if ws.len() > 0 {
        let t = ws.skip(1);
        assert(forall|m: int| 0 <= m < t.len() ==> t[m] == ws[m + 1]);
        lemma_find_english_none(t, q);
    }
}

/// The main data storage trait to be used in dictionary applications.
pub trait Dictionary {
    /// Defines the 2-char code of the language for which this dictionary
    /// is used. For example: "RU" - Russian, "EN" - English, "TR" - Turkish.
    const LANG: &'static str;

    /// The records held, in insertion order.
    spec fn words(&self) -> Seq<WordModel>;

    /// Get the number of words in the dictionary.
    fn count(&self) -> (n: usize)
        ensures
            n == self.words().len(),
    ;

    /// Adds a new word to the dictionary; always succeeds, appending the
    /// record at the end. Duplicates are permitted.
    fn add_word(
        &mut self,
        word: String,
        en_word: String,
        categories: Vec<String>,
        examples: Vec<String>,
    ) -> (r: Result<(), ()>)
        ensures
            r is Ok,
            final(self).words() == old(self).words().push(
                WordModel {
                    native: word@,
                    english: en_word@,
                    categories: categories.deep_view(),
                    examples: examples.deep_view(),
                },
            ),
    ;

    /// Get a word (and the word metadata - such as translation and
    /// categories) by its native spelling: the first match in insertion
    /// order, by exact, case-sensitive comparison.
    fn get_word(&self, word: &String) -> (r: Option<&Word>)
        ensures
            match r {
                Some(w) => find_native(self.words(), word@) == Some(w.deep_view()),
                None => find_native(self.words(), word@) is None,
            },
    ;

    /// Get a word by its English translation: the first match in
    /// insertion order, by exact, case-sensitive comparison.
    fn get_word_en(&self, en_word: &String) -> (r: Option<&Word>)
        ensures
            match r {
                Some(w) => find_english(self.words(), en_word@) == Some(w.deep_view()),
                None => find_english(self.words(), en_word@) is None,
            },
    ;

    /// Get all the words as a Vector, in insertion order.
    fn get_all(&self) -> (r: &Vec<Word>)
        ensures
            r.deep_view() == self.words(),
    ;
}

} // verus!
