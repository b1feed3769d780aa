use vstd::prelude::*;
use vstd::std_specs::iter::IteratorSpec;

use crate::letters::Letter;

verus! {

/// What `str::to_lowercase` makes of a string.
pub uninterp spec fn lower_of(s: Seq<char>) -> Seq<char>;

/// Relies on `str::to_lowercase`: the lower-case form of the string, which
/// depends on its characters alone.
#[verifier::external_body]
fn lowercase(s: &str) -> (r: String)
    ensures
        r@ == lower_of(s@),
{
    s.to_lowercase()
}

/// The characters of a string, in order.
fn chars_of(s: &str) -> (r: Vec<char>)
    ensures
        r@ == s@,
{
    let mut chars = s.chars();
    let mut out: Vec<char> = Vec::new();
    loop
        invariant
            chars.obeys_prophetic_iter_laws(),
            IteratorSpec::decrease(&chars) is Some,
            out@ + IteratorSpec::remaining(&chars) == s@,
        decreases IteratorSpec::decrease(&chars)->0,
    {
        match chars.next() {
            Some(c) => {
                out.push(c);
            },
            None => {
                assert(out@ + IteratorSpec::remaining(&chars) == out@ + Seq::<char>::empty());
                assert(out@ == s@);
                return out;
            },
        }
    }
}

/// `p` is a prefix of `w`.
pub open spec fn is_prefix(p: Seq<char>, w: Seq<char>) -> bool {
    p.len() <= w.len() && w.subrange(0, p.len() as int) == p
}

/// Some word of the list starts with `p`.
pub open spec fn starts_some(words: Seq<Seq<char>>, p: Seq<char>) -> bool {
    exists|i: int| 0 <= i < words.len() && is_prefix(p, #[trigger] words[i])
}

/// The lower-case spelling of a sequence of letters.
pub open spec fn lower_spelling(letters: Seq<Letter>) -> Seq<char> {
    letters.map_values(|l: Letter| l.lower())
}

/// The valid words, each in lower case, loaded once and never changed.
#[derive(Clone, Debug)]
pub struct WordList {
    words: Vec<Vec<char>>,
}

impl View for WordList {
    type V = Seq<Seq<char>>;

    closed spec fn view(&self) -> Seq<Seq<char>> {
        self.words@.map_values(|w: Vec<char>| w@)
    }
}

impl WordList {
    /// The list of the given lines, each turned to lower case.
    pub fn from_lines(lines: &Vec<String>) -> (r: WordList)
        ensures
            r@.len() == lines@.len(),
            forall|i: int| 0 <= i < lines@.len() ==> r@[i] == lower_of(#[trigger] lines@[i]@),
    {
        let mut words: Vec<Vec<char>> = Vec::new();
        let mut i: usize = 0;
        while i < lines.len()
            invariant
                i <= lines@.len(),
                words@.len() == i,
                forall|k: int| 0 <= k < i ==> (#[trigger] words@[k])@ == lower_of(lines@[k]@),
            decreases lines@.len() - i,
        {
            let lower = lowercase(lines[i].as_str());
            words.push(chars_of(lower.as_str()));
            i = i + 1;
        }
        WordList { words }
    }

    pub fn len(&self) -> (r: usize)
        ensures
            r == self@.len(),
    {
        self.words.len()
    }
}

/// Whether `w` starts with `p`.
fn chars_start_with(w: &Vec<char>, p: &Vec<char>) -> (r: bool)
    ensures
        r == is_prefix(p@, w@),
{
    if p.len() > w.len() {
        return false;
    }
    let mut i: usize = 0;
    while i < p.len()
        invariant
            p@.len() <= w@.len(),
            i <= p@.len(),
            forall|k: int| 0 <= k < i ==> w@[k] == p@[k],
        decreases p@.len() - i,
    {
        if w[i] != p[i] {
            assert(w@.subrange(0, p@.len() as int)[i as int] != p@[i as int]);
            return false;
        }
        i = i + 1;
    }
    assert(w@.subrange(0, p@.len() as int) =~= p@);
    true
}

/// Read-only access to the word list, answering prefix queries.
#[derive(Clone, Debug)]
pub struct Dictionary {
    words: WordList,
}

impl View for Dictionary {
    type V = Seq<Seq<char>>;

    closed spec fn view(&self) -> Seq<Seq<char>> {
        self.words@
    }
}

impl Dictionary {
    pub fn new(words: WordList) -> (r: Dictionary)
        ensures
            r@ == words@,
    {
        Dictionary { words }
    }

    /// Whether some word of the list starts with the given characters.
    pub fn starts_some_word(&self, prefix: &Vec<char>) -> (r: bool)
        ensures
            r == starts_some(self@, prefix@),
    {
        let words = &self.words.words;
        let mut i: usize = 0;
        while i < words.len()
            invariant
                i <= words@.len(),
                self@ == words@.map_values(|w: Vec<char>| w@),
                forall|k: int| 0 <= k < i ==> !is_prefix(prefix@, #[trigger] self@[k]),
            decreases words@.len() - i,
        {
            if chars_start_with(&words[i], prefix) {
                assert(is_prefix(prefix@, self@[i as int]));
                return true;
            }
            i = i + 1;
        }
        false
    }

    /// Whether the string, in lower case, begins some word of the list.
    pub fn is_word_substring(&self, test_string: &str) -> (r: bool)
        ensures
            r == starts_some(self@, lower_of(test_string@)),
    {
        let lower = lowercase(test_string);
        let chars = chars_of(lower.as_str());
        self.starts_some_word(&chars)
    }

    /// Whether the letters, spelled in lower case, begin some word of the list.
    pub fn accepts(&self, letters: &Vec<Letter>) -> (r: bool)
        ensures
            r == starts_some(self@, lower_spelling(letters@)),
    {
        let mut chars: Vec<char> = Vec::new();
        let mut i: usize = 0;
        while i < letters.len()
            invariant
                i <= letters@.len(),
                chars@ == lower_spelling(letters@.subrange(0, i as int)),
            decreases letters@.len() - i,
        {
            chars.push(letters[i].to_lower_char());
            i = i + 1;
            assert(letters@.subrange(0, i as int) == letters@.subrange(0, i - 1).push(
                letters@[i - 1],
            ));
        }
        assert(letters@.subrange(0, i as int) == letters@);
        self.starts_some_word(&chars)
    }
}

} // verus!
