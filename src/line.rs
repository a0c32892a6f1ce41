//! `Line`: a string without newlines.
use vstd::prelude::*;

use crate::text::{chars_of, is_line, string_of};

verus! {

/// A string which does not contain newlines; used for message bodies, error
/// texts and passwords.
#[derive(Debug, PartialEq, Eq, PartialOrd, Ord, Hash)]
pub struct Line {
    text: String,
}

impl View for Line {
    type V = Seq<char>;

    closed spec fn view(&self) -> Seq<char> {
        self.text@
    }
}

impl Clone for Line {
    fn clone(&self) -> (r: Self)
        ensures
            r@ == self@,
    {
        proof {
            use_type_invariant(self);
        }
        Line { text: self.text.clone() }
    }
}

/// Whether `v` holds a newline.
fn has_newline(v: &Vec<char>) -> (r: bool)
    ensures
        r == !is_line(v@),
{
    let mut i: usize = 0;
    while i < v.len()
        invariant
            i <= v.len(),
            forall|j: int| 0 <= j < i ==> v@[j] != '\n',
        decreases v.len() - i,
    {
        if v[i] == '\n' {
            return true;
        }
        i = i + 1;
    }
    false
}

impl Line {
    #[verifier::type_invariant]
    pub open spec fn inv(self) -> bool {
        is_line(self@)
    }

    /// Wraps `val`, which the caller knows to hold no newline.
    pub fn from_str_unchecked(val: &str) -> (r: Line)
        requires
            is_line(val@),
        ensures
            r@ == val@,
    {
        Line { text: val.to_owned() }
    }

    /// Wraps `val`, which the caller knows to hold no newline.
    pub fn from_string_unchecked(val: String) -> (r: Line)
        requires
            is_line(val@),
        ensures
            r@ == val@,
    {
        Line { text: val }
    }

    /// The line made of the characters `v`, which hold no newline.
    pub fn from_chars_unchecked(v: &Vec<char>) -> (r: Line)
        requires
            is_line(v@),
        ensures
            r@ == v@,
    {
        Line { text: string_of(v) }
    }

    /// The line made of the characters `v`, if they hold no newline.
    pub fn from_chars(v: &Vec<char>) -> (r: Option<Line>)
        ensures
            r is Some <==> is_line(v@),
            r matches Some(w) ==> w@ == v@,
    {
        if has_newline(v) {
            None
        } else {
            Some(Line::from_chars_unchecked(v))
        }
    }

    /// Checks `val` and wraps it; fails if it holds a newline.
    pub fn try_from(val: String) -> (r: Result<Line, &'static str>)
        ensures
            r is Ok <==> is_line(val@),
            r matches Ok(w) ==> w@ == val@,
    {
        let v = chars_of(val.as_str());
        if has_newline(&v) {
            Err("string contains newlines")
        } else {
            Ok(Line { text: val })
        }
    }

    /// Checks `val` and copies it into a line; fails if it holds a newline.
    pub fn try_from_str(val: &str) -> (r: Result<Line, &'static str>)
        ensures
            r is Ok <==> is_line(val@),
            r matches Ok(w) ==> w@ == val@,
    {
        let v = chars_of(val);
        if has_newline(&v) {
            Err("string contains newlines")
        } else {
            Ok(Line { text: val.to_owned() })
        }
    }

    /// The characters of the line.
    pub fn as_str(&self) -> (r: &str)
        ensures
            r@ == self@,
    {
        self.text.as_str()
    }

    /// The line as a `String`.
    pub fn into_string(self) -> (r: String)
        ensures
            r@ == self@,
    {
        self.text
    }
}

} // verus!
