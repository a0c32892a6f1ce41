//! Small conversions used when reading frames whose shape is already known.
use vstd::prelude::*;

use crate::text::{chars_of, i64_of, is_word, parse_i64};
use crate::word::Word;

verus! {

/// The value of `item`, which is a base-10 signed 64-bit integer.
pub fn parsei64(item: &str) -> (r: i64)
    requires
        i64_of(item@) is Some,
    ensures
        i64_of(item@) == Some(r),
{
    let v = chars_of(item);
    match parse_i64(&v) {
        Some(n) => n,
        None => 0,
    }
}

/// `s` as a word; it holds no space or newline.
pub fn expect_word(s: &str) -> (r: Word)
    requires
        is_word(s@),
    ensures
        r@ == s@,
{
    Word::from_str_unchecked(s)
}

} // verus!
