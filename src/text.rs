//! Character-level helpers for the line protocol: splitting on spaces,
//! joining, and base-10 integers.
use vstd::prelude::*;

verus! {

/// A word holds neither a space nor a newline.
pub open spec fn is_word(s: Seq<char>) -> bool {
    forall|i: int| 0 <= i < s.len() ==> s[i] != ' ' && s[i] != '\n'
}

/// A line holds no newline.
pub open spec fn is_line(s: Seq<char>) -> bool {
    forall|i: int| 0 <= i < s.len() ==> s[i] != '\n'
}

/// The pieces of `s` between single spaces, empty pieces included; there is
/// always at least one piece.
pub open spec fn split_spaces(s: Seq<char>) -> Seq<Seq<char>>
    decreases s.len(),
{
    if s.len() == 0 {
        seq![Seq::<char>::empty()]
    } else {
        let prev = split_spaces(s.drop_last());
        if s.last() == ' ' {
            prev.push(Seq::<char>::empty())
        } else {
            prev.update(prev.len() - 1, prev.last().push(s.last()))
        }
    }
}

/// The pieces joined with single spaces.
pub open spec fn join_spaces(ts: Seq<Seq<char>>) -> Seq<char>
    decreases ts.len(),
{
    if ts.len() == 0 {
        Seq::<char>::empty()
    } else if ts.len() == 1 {
        ts[0]
    } else {
        join_spaces(ts.drop_last()) + seq![' '] + ts.last()
    }
}

/// The character of a decimal digit.
pub open spec fn digit_char(d: nat) -> char {
    if d == 0 { '0' }
    else if d == 1 { '1' }
    else if d == 2 { '2' }
    else if d == 3 { '3' }
    else if d == 4 { '4' }
    else if d == 5 { '5' }
    else if d == 6 { '6' }
    else if d == 7 { '7' }
    else if d == 8 { '8' }
    else { '9' }
}

/// The shortest base-10 text of `n`.
pub open spec fn nat_text(n: nat) -> Seq<char>
    decreases n,
{
    if n < 10 {
        seq![digit_char(n)]
    } else {
        nat_text(n / 10).push(digit_char(n % 10))
    }
}

/// The base-10 text of `v`, with a leading `-` when it is negative.
pub open spec fn int_text(v: int) -> Seq<char> {
    if v < 0 {
        seq!['-'] + nat_text((-v) as nat)
    } else {
        nat_text(v as nat)
    }
}

/// A decimal digit.
pub open spec fn is_digit(c: char) -> bool {
    '0' <= c <= '9'
}

/// One or more decimal digits.
pub open spec fn is_digits(s: Seq<char>) -> bool {
    s.len() > 0 && forall|i: int| 0 <= i < s.len() ==> is_digit(#[trigger] s[i])
}

/// The value of a run of decimal digits.
pub open spec fn digits_value(s: Seq<char>) -> nat
    decreases s.len(),
{
    if s.len() == 0 {
        0
    } else {
        digits_value(s.drop_last()) * 10 + (s.last() as nat - '0' as nat) as nat
    }
}

/// The signed value of a token made of an optional `+` or `-` and one or more
/// digits, as base-10 integer parsing reads it.
pub open spec fn signed_value(s: Seq<char>) -> Option<int> {
    if s.len() > 0 && s[0] == '-' && is_digits(s.drop_first()) {
        Some(-(digits_value(s.drop_first()) as int))
    } else if s.len() > 0 && s[0] == '+' && is_digits(s.drop_first()) {
        Some(digits_value(s.drop_first()) as int)
    } else if is_digits(s) {
        Some(digits_value(s) as int)
    } else {
        None
    }
}

/// The value of a token read as a signed 64-bit integer, if it is one.
pub open spec fn i64_of(s: Seq<char>) -> Option<i64> {
    match signed_value(s) {
        Some(v) => if i64::MIN <= v <= i64::MAX { Some(v as i64) } else { None },
        None => None,
    }
}

/// The value of a token read as an unsigned 64-bit integer (an optional `+`,
/// then digits), if it is one.
pub open spec fn u64_of(s: Seq<char>) -> Option<u64> {
    let digits = if s.len() > 0 && s[0] == '+' { s.drop_first() } else { s };
    if is_digits(digits) && digits_value(digits) <= u64::MAX {
        Some(digits_value(digits) as u64)
    } else {
        None
    }
}

/// Relies on `String::push`: the character is appended at the end.
#[verifier::external_body]
fn push_char(s: &mut String, c: char)
    ensures
        final(s)@ == old(s)@.push(c),
{
    s.push(c)
}

/// The characters of `s`, in order.
pub fn chars_of(s: &str) -> (r: Vec<char>)
    ensures
        r@ == s@,
{
    let mut v: Vec<char> = Vec::new();
    for c in it: s.chars()
        invariant
            v@ == it.seq().take(it.index() as int),
    {
        v.push(c);
    }
    proof {
        broadcast use vstd::string::group_string_axioms;
    }
    assert(v@ =~= s@);
    v
}

/// A string of the characters of `v`, in order.
pub fn string_of(v: &Vec<char>) -> (r: String)
    ensures
        r@ == v@,
{
    let mut s = String::new();
    let mut i: usize = 0;
    while i < v.len()
        invariant
            i <= v.len(),
            s@ == v@.take(i as int),
        decreases v.len() - i,
    {
        push_char(&mut s, v[i]);
        i = i + 1;
        assert(s@ =~= v@.take(i as int));
    }
    assert(v@.take(v.len() as int) =~= v@);
    s
}

/// Whether `v` holds exactly the characters of `lit`.
pub fn same_chars(v: &Vec<char>, lit: &str) -> (r: bool)
    ensures
        r == (v@ == lit@),
{
    let w = chars_of(lit);
    if v.len() != w.len() {
        return false;
    }
    let mut i: usize = 0;
    while i < v.len()
        invariant
            i <= v.len(),
            v.len() == w.len(),
            w@ == lit@,
            forall|j: int| 0 <= j < i ==> v@[j] == w@[j],
        decreases v.len() - i,
    {
        if v[i] != w[i] {
            return false;
        }
        i = i + 1;
    }
    assert(v@ =~= w@);
    true
}

/// Appends the characters of `t` to `out`.
pub fn extend_chars(out: &mut Vec<char>, t: &Vec<char>)
    ensures
        final(out)@ == old(out)@ + t@,
{
    let mut i: usize = 0;
    while i < t.len()
        invariant
            i <= t.len(),
            out@ == old(out)@ + t@.take(i as int),
        decreases t.len() - i,
    {
        out.push(t[i]);
        i = i + 1;
        assert(out@ =~= old(out)@ + t@.take(i as int));
    }
    assert(t@.take(t.len() as int) =~= t@);
}

/// Appends the characters of `s` to `out`.
pub fn extend_str(out: &mut Vec<char>, s: &str)
    ensures
        final(out)@ == old(out)@ + s@,
{
    let t = chars_of(s);
    extend_chars(out, &t);
}

/// Splitting always gives at least one piece.
pub proof fn lemma_split_nonempty(s: Seq<char>)
    ensures
        split_spaces(s).len() >= 1,
    decreases s.len(),
{
    if s.len() > 0 {
        lemma_split_nonempty(s.drop_last());
    }
}

/// The character sequences of a list of tokens.
pub open spec fn token_views(v: Seq<Vec<char>>) -> Seq<Seq<char>> {
    v.map_values(|t: Vec<char>| t@)
}

/// Splits `s` at every single space, keeping empty pieces.
pub fn split_spaces_exec(s: &Vec<char>) -> (r: Vec<Vec<char>>)
    ensures
        token_views(r@) == split_spaces(s@),
        r.len() >= 1,
{
    let mut done: Vec<Vec<char>> = Vec::new();
    let mut cur: Vec<char> = Vec::new();
    let mut i: usize = 0;
    while i < s.len()
        invariant
            i <= s.len(),
            token_views(done@).push(cur@) == split_spaces(s@.take(i as int)),
        decreases s.len() - i,
    {
        let c = s[i];
        proof {
            lemma_split_nonempty(s@.take(i as int));
            assert(s@.take(i as int + 1).drop_last() =~= s@.take(i as int));
        }
        if c == ' ' {
            let ghost before = token_views(done@);
            let finished = cur;
            done.push(finished);
            cur = Vec::new();
            assert(token_views(done@) =~= before.push(finished@));
        } else {
            let ghost before = token_views(done@);
            cur.push(c);
            assert(token_views(done@) == before);
        }
        i = i + 1;
        assert(token_views(done@).push(cur@) =~= split_spaces(s@.take(i as int)));
    }
    assert(s@.take(s.len() as int) =~= s@);
    done.push(cur);
    done
}


proof fn lemma_digits_value_step(s: Seq<char>, k: int)
    requires
        0 <= k < s.len(),
    ensures
        digits_value(s.take(k + 1)) == digits_value(s.take(k)) * 10 + (s[k] as nat - '0' as nat) as nat,
{
    assert(s.take(k + 1).drop_last() =~= s.take(k));
}

proof fn lemma_digits_value_prefix(s: Seq<char>, k: int)
    requires
        0 <= k <= s.len(),
    ensures
        digits_value(s.take(k)) <= digits_value(s),
    decreases s.len(),
{
    if k < s.len() {
        assert(s.drop_last().take(k) =~= s.take(k));
        lemma_digits_value_prefix(s.drop_last(), k);
    } else {
        assert(s.take(k) =~= s);
    }
}

fn digit_value(c: char) -> (r: u64)
    requires
        is_digit(c),
    ensures
        r == c as nat - '0' as nat,
        r < 10,
{
    ((c as u32) - ('0' as u32)) as u64
}

/// Reads the digits of `s` from `start` on as an unsigned 64-bit value.
fn parse_digits(s: &Vec<char>, start: usize) -> (r: Option<u64>)
    requires
        start <= s.len(),
    ensures
        r == (if is_digits(s@.skip(start as int)) && digits_value(s@.skip(start as int)) <= u64::MAX {
            Some(digits_value(s@.skip(start as int)) as u64)
        } else {
            None::<u64>
        }),
{
    let ghost t = s@.skip(start as int);
    if start == s.len() {
        return None;
    }
    let mut v: u64 = 0;
    let mut i: usize = start;
    while i < s.len()
        invariant
            start <= i <= s.len(),
            t == s@.skip(start as int),
            v as nat == digits_value(t.take(i - start)),
            forall|j: int| 0 <= j < i - start ==> is_digit(#[trigger] t[j]),
        decreases s.len() - i,
    {
        let c = s[i];
        if !('0' <= c && c <= '9') {
            assert(!is_digit(t[i - start]));
            return None;
        }
        let d = digit_value(c);
        proof {
            lemma_digits_value_step(t, i - start);
        }
        if v > (u64::MAX - d) / 10 {
            proof {
                assert(v * 10 + d > u64::MAX) by (nonlinear_arith)
                    requires v > (u64::MAX - d) / 10, d < 10;
                lemma_digits_value_prefix(t, i - start + 1);
            }
            return None;
        }
        assert(v * 10 + d <= u64::MAX) by (nonlinear_arith)
            requires v <= (u64::MAX - d) / 10, d < 10;
        v = v * 10 + d;
        i = i + 1;
    }
    assert(t.take(i - start) =~= t);
    Some(v)
}

/// Reads `s` as a signed 64-bit integer: an optional sign, then digits.
pub fn parse_i64(s: &Vec<char>) -> (r: Option<i64>)
    ensures
        r == i64_of(s@),
{
    if s.len() == 0 {
        return None;
    }
    if s[0] == '-' {
        assert(!is_digits(s@));
        match parse_digits(s, 1) {
            None => None,
            Some(m) => {
                if m <= 9223372036854775808 {
                    if m == 9223372036854775808 {
                        Some(i64::MIN)
                    } else {
                        Some(-(m as i64))
                    }
                } else {
                    None
                }
            }
        }
    } else if s[0] == '+' {
        assert(!is_digits(s@));
        match parse_digits(s, 1) {
            None => None,
            Some(m) => {
                if m <= 9223372036854775807 {
                    Some(m as i64)
                } else {
                    None
                }
            }
        }
    } else {
        assert(s@.skip(0) =~= s@);
        match parse_digits(s, 0) {
            None => None,
            Some(m) => {
                if m <= 9223372036854775807 {
                    Some(m as i64)
                } else {
                    None
                }
            }
        }
    }
}

/// Reads `s` as an unsigned 64-bit integer: an optional `+`, then digits.
pub fn parse_u64(s: &Vec<char>) -> (r: Option<u64>)
    ensures
        r == u64_of(s@),
{
    if s.len() > 0 && s[0] == '+' {
        parse_digits(s, 1)
    } else {
        assert(s@.skip(0) =~= s@);
        parse_digits(s, 0)
    }
}

fn digit_char_exec(d: u64) -> (r: char)
    requires
        d < 10,
    ensures
        r == digit_char(d as nat),
{
    if d == 0 { '0' }
    else if d == 1 { '1' }
    else if d == 2 { '2' }
    else if d == 3 { '3' }
    else if d == 4 { '4' }
    else if d == 5 { '5' }
    else if d == 6 { '6' }
    else if d == 7 { '7' }
    else if d == 8 { '8' }
    else { '9' }
}

/// Appends the base-10 text of `n`.
pub fn push_u64_text(out: &mut Vec<char>, n: u64)
    ensures
        final(out)@ == old(out)@ + nat_text(n as nat),
    decreases n,
{
    if n >= 10 {
        push_u64_text(out, n / 10);
    }
    out.push(digit_char_exec(n % 10));
    assert(final(out)@ =~= old(out)@ + nat_text(n as nat));
}

/// Appends the base-10 text of `v`, with a leading `-` when it is negative.
pub fn push_i64_text(out: &mut Vec<char>, v: i64)
    ensures
        final(out)@ == old(out)@ + int_text(v as int),
{
    if v < 0 {
        out.push('-');
        let m: u64 = if v == i64::MIN {
            9223372036854775808
        } else {
            (-v) as u64
        };
        push_u64_text(out, m);
        assert(final(out)@ =~= old(out)@ + int_text(v as int));
    } else {
        push_u64_text(out, v as u64);
    }
}


/// The tokens of `words` from `from` on, joined with single spaces.
pub fn join_tokens(words: &Vec<Vec<char>>, from: usize) -> (r: Vec<char>)
    requires
        from <= words.len(),
    ensures
        r@ == join_spaces(token_views(words@).skip(from as int)),
{
    let ghost ts = token_views(words@);
    let mut out: Vec<char> = Vec::new();
    let mut i: usize = from;
    while i < words.len()
        invariant
            from <= i <= words.len(),
            ts == token_views(words@),
            out@ == join_spaces(ts.subrange(from as int, i as int)),
        decreases words.len() - i,
    {
        let ghost before = ts.subrange(from as int, i as int);
        if i > from {
            out.push(' ');
        }
        extend_chars(&mut out, &words[i]);
        i = i + 1;
        proof {
            let now = ts.subrange(from as int, i as int);
            assert(now.drop_last() =~= before);
            if before.len() == 0 {
                assert(now =~= seq![ts[i - 1]]);
            }
        }
    }
    assert(ts.subrange(from as int, words.len() as int) =~= ts.skip(from as int));
    out
}

/// Base-10 text is made of digits.
pub proof fn lemma_nat_text_digits(n: nat)
    ensures
        forall|i: int| 0 <= i < nat_text(n).len() ==> is_digit(#[trigger] nat_text(n)[i]),
    decreases n,
{
    let d = digit_char(n % 10);
    assert(is_digit(d));
    if n >= 10 {
        lemma_nat_text_digits(n / 10);
        let t = nat_text(n);
        assert(t == nat_text(n / 10).push(d));
        assert forall|i: int| 0 <= i < t.len() implies is_digit(#[trigger] t[i]) by {
            if i < t.len() - 1 {
                assert(t[i] == nat_text(n / 10)[i]);
            }
        }
    } else {
        assert(nat_text(n) == seq![digit_char(n)]);
    }
}

proof fn lemma_digits_word(s: Seq<char>)
    requires
        forall|i: int| 0 <= i < s.len() ==> is_digit(#[trigger] s[i]),
    ensures
        is_word(s),
{
    assert forall|i: int| 0 <= i < s.len() implies s[i] != ' ' && s[i] != '\n' by {
        assert(is_digit(s[i]));
    }
}

/// The base-10 text of a number is a word.
pub proof fn lemma_nat_text_word(n: nat)
    ensures
        is_word(nat_text(n)),
{
    lemma_nat_text_digits(n);
    lemma_digits_word(nat_text(n));
}


/// Splitting at a space splits each side on its own.
pub proof fn lemma_split_concat(a: Seq<char>, b: Seq<char>)
    ensures
        split_spaces(a + seq![' '] + b) == split_spaces(a) + split_spaces(b),
    decreases b.len(),
{
    let s = a + seq![' '] + b;
    if b.len() == 0 {
        assert(s.drop_last() =~= a);
        assert(split_spaces(b) == seq![Seq::<char>::empty()]);
        assert(split_spaces(s) =~= split_spaces(a) + split_spaces(b));
    } else {
        let b1 = b.drop_last();
        assert(s.drop_last() =~= a + seq![' '] + b1);
        lemma_split_concat(a, b1);
        lemma_split_nonempty(b1);
        lemma_split_nonempty(a);
        assert(b.drop_last() =~= b1);
        assert(s.last() == b.last());
        assert(split_spaces(s) =~= split_spaces(a) + split_spaces(b));
    }
}

/// A word is a single token.
pub proof fn lemma_split_word(w: Seq<char>)
    requires
        is_word(w),
    ensures
        split_spaces(w) == seq![w],
    decreases w.len(),
{
    if w.len() > 0 {
        let w1 = w.drop_last();
        assert(is_word(w1));
        lemma_split_word(w1);
        assert(w.last() != ' ');
        assert(w1.push(w.last()) =~= w);
        assert(split_spaces(w) =~= seq![w]);
    } else {
        assert(w =~= Seq::<char>::empty());
    }
}

/// Joining the tokens of `s` gives `s` back.
pub proof fn lemma_join_split(s: Seq<char>)
    ensures
        join_spaces(split_spaces(s)) == s,
    decreases s.len(),
{
    if s.len() > 0 {
        let s1 = s.drop_last();
        let p = split_spaces(s1);
        lemma_join_split(s1);
        lemma_split_nonempty(s1);
        if s.last() == ' ' {
            let q = p.push(Seq::<char>::empty());
            assert(q.drop_last() =~= p);
            assert(join_spaces(q) =~= s);
        } else {
            let q = p.update(p.len() - 1, p.last().push(s.last()));
            if p.len() == 1 {
                assert(join_spaces(q) =~= s);
            } else {
                assert(q.drop_last() =~= p.drop_last());
                assert(join_spaces(p) == join_spaces(p.drop_last()) + seq![' '] + p.last());
                assert(q.last() == p.last().push(s.last()));
                assert(join_spaces(q) == join_spaces(p.drop_last()) + seq![' '] + q.last());
                assert(s1.push(s.last()) =~= s);
                assert(join_spaces(q) =~= s);
            }
        }
    }
}

/// Splitting words joined with spaces gives the words back.
pub proof fn lemma_split_join_words(ws: Seq<Seq<char>>)
    requires
        ws.len() >= 1,
        forall|i: int| 0 <= i < ws.len() ==> is_word(#[trigger] ws[i]),
    ensures
        split_spaces(join_spaces(ws)) == ws,
    decreases ws.len(),
{
    if ws.len() == 1 {
        lemma_split_word(ws[0]);
        assert(seq![ws[0]] =~= ws);
    } else {
        let w1 = ws.drop_last();
        lemma_split_join_words(w1);
        lemma_split_concat(join_spaces(w1), ws.last());
        lemma_split_word(ws.last());
        assert(ws =~= w1 + seq![ws.last()]);
    }
}


/// The digits of a number's text read back as the number.
pub proof fn lemma_nat_text_value(n: nat)
    ensures
        digits_value(nat_text(n)) == n,
        is_digits(nat_text(n)),
    decreases n,
{
    lemma_nat_text_digits(n);
    let t = nat_text(n);
    let d = n % 10;
    assert(digit_char(d) as nat - '0' as nat == d);
    if n >= 10 {
        lemma_nat_text_value(n / 10);
        assert(t.drop_last() =~= nat_text(n / 10));
        assert(t.last() == digit_char(d));
        assert(digits_value(t) == digits_value(t.drop_last()) * 10 + (t.last() as nat - '0' as nat) as nat);
        assert(n == (n / 10) * 10 + d);
    } else {
        assert(t.drop_last() =~= Seq::<char>::empty());
        assert(t.last() == digit_char(d));
        assert(digits_value(t) == digits_value(t.drop_last()) * 10 + (t.last() as nat - '0' as nat) as nat);
    }
}

/// Reading the text of a 64-bit integer gives the integer back.
pub proof fn lemma_int_text_round_trip(v: i64)
    ensures
        i64_of(int_text(v as int)) == Some(v),
{
    if v < 0 {
        let m = (-(v as int)) as nat;
        lemma_nat_text_value(m);
        let s = int_text(v as int);
        assert(s.drop_first() =~= nat_text(m));
    } else {
        lemma_nat_text_value(v as nat);
        let s = nat_text(v as nat);
        assert(is_digit(s[0]));
    }
}


/// The text of an integer is a word.
pub proof fn lemma_int_text_word(v: int)
    ensures
        is_word(int_text(v)),
{
    lemma_nat_text_word((-v) as nat);
    lemma_nat_text_word(v as nat);
    let s = int_text(v);
    if v < 0 {
        assert forall|i: int| 0 <= i < s.len() implies s[i] != ' ' && s[i] != '\n' by {
            if i > 0 {
                assert(s[i] == nat_text((-v) as nat)[i - 1]);
            }
        }
    }
}

/// Reading the text of an unsigned 64-bit integer gives it back.
pub proof fn lemma_nat_text_round_trip(n: u64)
    ensures
        u64_of(nat_text(n as nat)) == Some(n),
{
    lemma_nat_text_value(n as nat);
    assert(is_digit(nat_text(n as nat)[0]));
}

} // verus!
