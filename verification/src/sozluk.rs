//! The in-memory store: an ordered sequence of word records together
//! with the path of the file it is persisted to.
//!
//! The store has one lifecycle: it is built once from the persisted
//! text (or empty, when there is none or it is malformed — a deliberate
//! silent fallback), mutated in place, and written back in full by the
//! caller at the end of the session. No operation ever removes or
//! reorders records.

use vstd::prelude::*;
use crate::dictionary::Dictionary;
use crate::dictionary::Word;
use crate::dictionary::WordModel;
use crate::dictionary::find_english;
use crate::dictionary::find_native;
use crate::dictionary::lemma_find_english_first;
use crate::dictionary::lemma_find_english_none;
use crate::dictionary::lemma_find_native_first;
use crate::dictionary::lemma_find_native_none;
use crate::json;

verus! {

/// Relies on rand::random_range: a uniformly random value in the given
/// range, drawn from the thread-local generator. It panics only on an
/// empty range, which the precondition rules out; nothing else is
/// assumed of the value beyond its bounds.
#[verifier::external_body]
fn random_index(n: usize) -> (r: usize)
    requires
        n > 0,
    ensures
        r < n,
{
    rand::random_range(0..n)
}

/// A dictionary store: word records in insertion order, and the path of
/// the file the store is persisted to.
pub struct Sozluk {
    records: Vec<Word>,
    file_path: String,
}

impl Sozluk {
    /// The persistence path.
    pub closed spec fn path(&self) -> Seq<char> {
        self.file_path@
    }

    /// Create an empty Sozluk instance, with no records and no path.
    pub fn new() -> (s: Sozluk)
        ensures
            s.words() == Seq::<WordModel>::empty(),
            s.path() == Seq::<char>::empty(),
    {
        let s = Sozluk { records: Vec::new(), file_path: String::new() };
        proof {
            assert(s.words() =~= Seq::<WordModel>::empty());
        }
        s
    }

    /// The path the store was built for, for the caller that writes the
    /// store back.
    pub fn file_path(&self) -> (r: &String)
        ensures
            r@ == self.path(),
    {
        &self.file_path
    }

    /// A uniformly random record: one index in `[0, count)` is drawn
    /// when the store is nonempty; the empty store yields `None` rather
    /// than a draw from an empty range.
    pub fn get_rand_word(&self) -> (r: Option<&Word>)
        ensures
            match r {
                Some(w) => self.words().len() > 0 && (exists|k: int|
                    0 <= k < self.words().len() && w.deep_view() == self.words()[k]),
                None => self.words().len() == 0,
            },
    {
        if self.records.len() == 0 {
            None
        } else {
            let k = random_index(self.records.len());
            let w = &self.records[k];
            proof {
                assert(w.deep_view() == self.words()[k as int]);
            }
            Some(w)
        }
    }

    /// The written form of the whole store: the document that persists
    /// exactly the records held, in order.
    pub fn save(&self) -> (out: String)
        ensures
            out@ == json::ser_words(self.words()),
    {
        let chars = json::write_json(&self.records);
        json::chars_to_string(chars)
    }
}

/// How a store came to be: read back from a well-formed document, or
/// fresh because there was no document or it was malformed. The fallback
/// to a fresh store is a named policy, so a caller can log or report the
/// distinction without changing the default behaviour.
#[derive(Clone, Copy, Debug, PartialEq, Eq, Structural)]
pub enum LoadOutcome {
    Loaded,
    Fresh,
}

/// Builds the store for `file_path` from the persisted text, and says
/// whether the text was a well-formed document. `contents` is `None`
/// when the file could not be read at all (missing or unreadable), the
/// document text otherwise. A missing, unreadable or malformed document
/// falls back to the empty store — a deliberate policy, never surfaced
/// as an error.
pub fn load(file_path: &str, contents: Option<&str>) -> (r: (Sozluk, LoadOutcome))
    ensures
        r.0.path() == file_path@,
        match contents {
            Some(text) => match json::parse_doc(text@) {
                Some(ws) => r.0.words() == ws && r.1 == LoadOutcome::Loaded,
                None => r.0.words() == Seq::<WordModel>::empty() && r.1 == LoadOutcome::Fresh,
            },
            None => r.0.words() == Seq::<WordModel>::empty() && r.1 == LoadOutcome::Fresh,
        },
{
    let (records, outcome): (Vec<Word>, LoadOutcome) = match contents {
        None => (Vec::new(), LoadOutcome::Fresh),
        Some(text) => {
            let chars = json::str_to_chars(text);
            match json::parse_json(&chars) {
                None => (Vec::new(), LoadOutcome::Fresh),
                Some(ws) => (ws, LoadOutcome::Loaded),
            }
        },
    };
    let s = Sozluk { records, file_path: file_path.to_owned() };
    proof {
        if s.records@.len() == 0 {
            assert(s.words() =~= Seq::<WordModel>::empty());
        }
    }
    (s, outcome)
}

/// Try to create the sozluk for `file_path` from the persisted text, or
/// (if that cannot be done) create a new empty sozluk, under the same
/// silent-fallback policy as [`load`].
pub fn sozluk_init(file_path: &str, contents: Option<&str>) -> (s: Sozluk)
    ensures
        s.path() == file_path@,
        match contents {
            Some(text) => match json::parse_doc(text@) {
                Some(ws) => s.words() == ws,
                None => s.words() == Seq::<WordModel>::empty(),
            },
            None => s.words() == Seq::<WordModel>::empty(),
        },
{
    let (s, _outcome) = load(file_path, contents);
    s
}

impl Dictionary for Sozluk {
    const LANG: &'static str = "TR";

    closed spec fn words(&self) -> Seq<WordModel> {
        self.records.deep_view()
    }

    fn count(&self) -> (n: usize) {
        self.records.len()
    }

    fn add_word(
        &mut self,
        word: String,
        en_word: String,
        categories: Vec<String>,
        examples: Vec<String>,
    ) -> (r: Result<(), ()>) {
        let ghost w0 = self.records.deep_view();
        let ghost m = WordModel {
            native: word@,
            english: en_word@,
            categories: categories.deep_view(),
            examples: examples.deep_view(),
        };
        self.records.push(Word::new(word, en_word, categories, examples));
        proof {
            assert(self.records.deep_view() =~= w0.push(m));
        }
        Ok(())
    }

    fn get_word(&self, word: &String) -> (r: Option<&Word>) {
        let mut k: usize = 0;
        while k < self.records.len()
            invariant
                k <= self.records.len(),
                forall|m: int| 0 <= m < k ==> self.records.deep_view()[m].native != word@,
            decreases self.records.len() - k,
        {
            if self.records[k].native == *word {
                proof {
                    lemma_find_native_first(self.words(), word@, k as int);
                }
                return Some(&self.records[k]);
            }
            k += 1;
        }
        proof {
            lemma_find_native_none(self.words(), word@);
        }
        None
    }

    fn get_word_en(&self, en_word: &String) -> (r: Option<&Word>) {
        let mut k: usize = 0;
        while k < self.records.len()
            invariant
                k <= self.records.len(),
                forall|m: int| 0 <= m < k ==> self.records.deep_view()[m].english != en_word@,
            decreases self.records.len() - k,
        {
            if self.records[k].english == *en_word {
                proof {
                    lemma_find_english_first(self.words(), en_word@, k as int);
                }
                return Some(&self.records[k]);
            }
            k += 1;
        }
        proof {
            lemma_find_english_none(self.words(), en_word@);
        }
        None
    }

    fn get_all(&self) -> (r: &Vec<Word>) {
        &self.records
    }
}

} // verus!
