use vstd::prelude::*;

use crate::letters::Letter;

verus! {

/// The letters one player has entered so far, in order.
#[derive(Clone, Debug)]
pub struct Word {
    letters: Vec<Letter>,
}

impl View for Word {
    type V = Seq<Letter>;

    closed spec fn view(&self) -> Seq<Letter> {
        self.letters@
    }
}

/// Relies on `String::push`: appends one character to the end of the string.
#[verifier::external_body]
fn push_char(s: &mut String, c: char)
    ensures
        final(s)@ == old(s)@.push(c),
{
    s.push(c)
}

/// The upper-case spelling of a sequence of letters.
pub open spec fn spelling(letters: Seq<Letter>) -> Seq<char> {
    letters.map_values(|l: Letter| l.upper())
}

impl Word {
    pub fn new() -> (r: Word)
        ensures
            r@ == Seq::<Letter>::empty(),
    {
        Word { letters: Vec::new() }
    }

    pub fn from_letters(letters: Vec<Letter>) -> (r: Word)
        ensures
            r@ == letters@,
    {
        Word { letters }
    }

    pub fn letters(&self) -> (r: &Vec<Letter>)
        ensures
            r@ == self@,
    {
        &self.letters
    }

    pub fn len(&self) -> (r: usize)
        ensures
            r == self@.len(),
    {
        self.letters.len()
    }

    pub fn is_empty(&self) -> (r: bool)
        ensures
            r == (self@.len() == 0),
    {
        self.letters.len() == 0
    }

    /// The last letter, if any.
    pub fn last(&self) -> (r: Option<Letter>)
        ensures
            r == (if self@.len() == 0 { None } else { Some(self@.last()) }),
    {
        let n = self.letters.len();
        if n == 0 {
            None
        } else {
            Some(self.letters[n - 1])
        }
    }

    pub fn push(&mut self, letter: Letter)
        ensures
            final(self)@ == old(self)@.push(letter),
    {
        self.letters.push(letter);
    }

    /// Removes and returns the last letter; an empty word stays empty.
    pub fn pop(&mut self) -> (r: Option<Letter>)
        ensures
            old(self)@.len() == 0 ==> r is None && final(self)@ == old(self)@,
            old(self)@.len() > 0 ==> r == Some(old(self)@.last()) && final(self)@ == old(
                self,
            )@.drop_last(),
    {
        self.letters.pop()
    }

    pub fn clear(&mut self)
        ensures
            final(self)@ == Seq::<Letter>::empty(),
    {
        self.letters.clear();
    }

    /// The word spelled in upper case, one character per letter.
    pub fn to_text(&self) -> (r: String)
        ensures
            r@ == spelling(self@),
    {
        let mut text = String::new();
        let mut i: usize = 0;
        while i < self.letters.len()
            invariant
                i <= self.letters@.len(),
                text@ == spelling(self.letters@.subrange(0, i as int)),
            decreases self.letters@.len() - i,
        {
            let c = self.letters[i].to_char();
            push_char(&mut text, c);
            i = i + 1;
            assert(self.letters@.subrange(0, i as int) == self.letters@.subrange(
                0,
                i - 1,
            ).push(self.letters@[i - 1]));
        }
        assert(self.letters@.subrange(0, i as int) == self.letters@);
        text
    }
}

} // verus!
