//! The word list and the phrase pool: loaded once, read-only afterwards.
use vstd::prelude::*;
use rand::seq::SliceRandom;

verus! {

#[verifier::external_type_specification]
#[verifier::external_body]
pub struct ExJsonError(serde_json::Error);

/// The list of strings that a JSON text holds when it is an array of strings.
pub uninterp spec fn json_string_list(text: Seq<char>) -> Option<Seq<Seq<char>>>;

/// The characters of each string of a list.
pub open spec fn texts(v: Seq<String>) -> Seq<Seq<char>> {
    v.map_values(|w: String| w@)
}

/// Relies on `serde_json::from_str::<Vec<String>>`: it accepts a JSON array
/// of strings and returns them in order; the outcome depends on the text alone.
#[verifier::external_body]
fn parse_string_list(text: &str) -> (r: Result<Vec<String>, serde_json::Error>)
    ensures
        r is Ok <==> json_string_list(text@) is Some,
        r is Ok ==> texts(r->Ok_0@) == json_string_list(text@)->Some_0,
{
    serde_json::from_str::<Vec<String>>(text)
}

/// Relies on `SliceRandom::choose` with `rand::thread_rng`: one element of a
/// non-empty slice, drawn at random.
#[verifier::external_body]
fn choose_text(items: &Vec<String>) -> (r: String)
    requires
        items@.len() > 0,
    ensures
        listed(items@, r@),
{
    items.choose(&mut rand::thread_rng()).unwrap().clone()
}

/// Why a word list could not be loaded.
#[derive(Debug, PartialEq, Eq, Structural)]
pub enum LoadError {
    /// The word list is not a JSON array of strings.
    Words,
    /// The phrase list is not a JSON array of strings.
    Phrases,
    /// The phrase list is empty, so no phrase can be drawn.
    NoPhrases,
}

/// The dictionary of accepted words and the pool of phrases.
pub struct Dictionary {
    pub words: Vec<String>,
    pub phrases: Vec<String>,
}

/// `w` is one of `list`.
pub open spec fn listed(list: Seq<String>, w: Seq<char>) -> bool {
    exists|i: int| 0 <= i < list.len() && #[trigger] list[i]@ == w
}

/// Whether `w` is one of `list`, compared character for character.
pub fn is_listed(list: &Vec<String>, w: &String) -> (r: bool)
    ensures
        r == listed(list@, w@),
{
    let mut i: usize = 0;
    while i < list.len()
        invariant
            i <= list@.len(),
            forall|j: int| 0 <= j < i ==> list@[j]@ != w@,
        decreases list@.len() - i,
    {
        if list[i] == *w {
            return true;
        }
        i += 1;
    }
    false
}

impl Dictionary {
    pub open spec fn wf(&self) -> bool {
        self.phrases@.len() > 0
    }

    /// A dictionary from two JSON arrays of strings: the words, then the phrases.
    pub fn from_json(words: &str, phrases: &str) -> (r: Result<Dictionary, LoadError>)
        ensures
            match (json_string_list(words@), json_string_list(phrases@)) {
                (None, _) => r == Err::<Dictionary, LoadError>(LoadError::Words),
                (Some(_), None) => r == Err::<Dictionary, LoadError>(LoadError::Phrases),
                (Some(w), Some(p)) => if p.len() == 0 {
                    r == Err::<Dictionary, LoadError>(LoadError::NoPhrases)
                } else {
                    r is Ok && texts(r->Ok_0.words@) == w && texts(r->Ok_0.phrases@) == p
                        && r->Ok_0.wf()
                },
            },
    {
        let words = parse_string_list(words).ok();
        let phrases = parse_string_list(phrases).ok();
        Dictionary::from_lists(words, phrases)
    }

    /// A dictionary from the word list and the phrase list as parsed, where
    /// `None` stands for a list that could not be read.
    pub fn from_lists(words: Option<Vec<String>>, phrases: Option<Vec<String>>) -> (r: Result<
        Dictionary,
        LoadError,
    >)
        ensures
            words is None ==> r == Err::<Dictionary, LoadError>(LoadError::Words),
            words is Some && phrases is None ==> r == Err::<Dictionary, LoadError>(
                LoadError::Phrases,
            ),
            words is Some && phrases is Some && phrases->Some_0@.len() == 0 ==> r == Err::<
                Dictionary,
                LoadError,
            >(LoadError::NoPhrases),
            words is Some && phrases is Some && phrases->Some_0@.len() > 0 ==> r == Ok::<
                Dictionary,
                LoadError,
            >(Dictionary { words: words->Some_0, phrases: phrases->Some_0 }),
            r is Ok ==> r->Ok_0.wf(),
    {
        match (words, phrases) {
            (None, _) => Err(LoadError::Words),
            (Some(_), None) => Err(LoadError::Phrases),
            (Some(words), Some(phrases)) => {
                if phrases.len() == 0 {
                    Err(LoadError::NoPhrases)
                } else {
                    Ok(Dictionary { words, phrases })
                }
            },
        }
    }

    /// Whether `w` is an accepted word. Case counts: no folding is done.
    pub fn contains(&self, w: &String) -> (r: bool)
        ensures
            r == listed(self.words@, w@),
    {
        is_listed(&self.words, w)
    }

    /// A phrase of the pool, drawn at random.
    pub fn random_phrase(&self) -> (r: String)
        requires
            self.wf(),
        ensures
            listed(self.phrases@, r@),
    {
        choose_text(&self.phrases)
    }
}

} // verus!
