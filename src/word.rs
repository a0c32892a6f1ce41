//! `Word`: a string without spaces or newlines.
use vstd::prelude::*;

use crate::text::{chars_of, is_word, string_of};

verus! {

/// A string which does not contain spaces or newlines; used for user names,
/// room names, tags and keys.
#[derive(Debug, PartialEq, Eq, PartialOrd, Ord, Hash)]
pub struct Word {
    text: String,
}

impl View for Word {
    type V = Seq<char>;

    closed spec fn view(&self) -> Seq<char> {
        self.text@
    }
}

impl Clone for Word {
    fn clone(&self) -> (r: Self)
        ensures
            r@ == self@,
    {
        proof {
            use_type_invariant(self);
        }
        Word { text: self.text.clone() }
    }
}

/// Whether `v` holds a space or a newline.
fn has_space_or_newline(v: &Vec<char>) -> (r: bool)
    ensures
        r == !is_word(v@),
{
    let mut i: usize = 0;
    while i < v.len()
        invariant
            i <= v.len(),
            forall|j: int| 0 <= j < i ==> v@[j] != ' ' && v@[j] != '\n',
        decreases v.len() - i,
    {
        if v[i] == ' ' || v[i] == '\n' {
            return true;
        }
        i = i + 1;
    }
    false
}

impl Word {
    #[verifier::type_invariant]
    pub open spec fn inv(self) -> bool {
        is_word(self@)
    }

    /// Wraps `val`, which the caller knows to hold no space or newline.
    pub fn from_str_unchecked(val: &str) -> (r: Word)
        requires
            is_word(val@),
        ensures
            r@ == val@,
    {
        Word { text: val.to_owned() }
    }

    /// Wraps `val`, which the caller knows to hold no space or newline.
    pub fn from_string_unchecked(val: String) -> (r: Word)
        requires
            is_word(val@),
        ensures
            r@ == val@,
    {
        Word { text: val }
    }

    /// The word made of the characters `v`, which hold no space or newline.
    pub fn from_chars_unchecked(v: &Vec<char>) -> (r: Word)
        requires
            is_word(v@),
        ensures
            r@ == v@,
    {
        Word { text: string_of(v) }
    }

    /// The word made of the characters `v`, if they hold no space or newline.
    pub fn from_chars(v: &Vec<char>) -> (r: Option<Word>)
        ensures
            r is Some <==> is_word(v@),
            r matches Some(w) ==> w@ == v@,
    {
        if has_space_or_newline(v) {
            None
        } else {
            Some(Word::from_chars_unchecked(v))
        }
    }

    /// Checks `val` and wraps it; fails if it holds a space or a newline.
    pub fn try_from(val: String) -> (r: Result<Word, &'static str>)
        ensures
            r is Ok <==> is_word(val@),
            r matches Ok(w) ==> w@ == val@,
    {
        let v = chars_of(val.as_str());
        if has_space_or_newline(&v) {
            Err("string contains newlines or spaces")
        } else {
            Ok(Word { text: val })
        }
    }

    /// Checks `val` and copies it into a word; fails if it holds a space or a
    /// newline.
    pub fn try_from_str(val: &str) -> (r: Result<Word, &'static str>)
        ensures
            r is Ok <==> is_word(val@),
            r matches Ok(w) ==> w@ == val@,
    {
        let v = chars_of(val);
        if has_space_or_newline(&v) {
            Err("string contains newlines or spaces")
        } else {
            Ok(Word { text: val.to_owned() })
        }
    }

    /// The characters of the word.
    pub fn as_str(&self) -> (r: &str)
        ensures
            r@ == self@,
    {
        self.text.as_str()
    }

    /// The word as a `String`.
    pub fn into_string(self) -> (r: String)
        ensures
            r@ == self@,
    {
        self.text
    }
}

} // verus!
