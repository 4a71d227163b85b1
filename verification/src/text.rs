//! Text helpers shared by the FEN and UCI codecs: characters of a string,
//! decimal numbers written and read, and the pieces of grammar the codecs
//! have in common (blanks, keywords, running to the end of a line).
use vstd::prelude::*;
use vstd::string::StringExecFns;

verus! {

/// The characters of `s`, in order.
pub fn chars_of(s: &str) -> (r: Vec<char>)
    ensures
        r@ == s@,
{
    let mut v: Vec<char> = Vec::new();
    for c in it: s.chars()
        invariant
            v@ == it.seq().take(it.index()),
    {
        v.push(c);
    }
    assert(v@ =~= s@);
    v
}

/// Appends one character to a string, by `String::push` from the standard
/// library, which vstd gives no specification. Trusted: the string afterwards
/// holds its old characters followed by `c`.
#[verifier::external_body]
pub(crate) fn push_char(s: &mut String, c: char)
    ensures
        final(s)@ == old(s)@.push(c),
{
    s.push(c);
}

/// Appends the characters of `t` to `s`.
pub fn push_str(s: &mut String, t: &str)
    ensures
        final(s)@ == old(s)@ + t@,
{
    s.append(t);
}

/// Appends the characters `cs[from..to]` to `s`.
pub fn push_chars(s: &mut String, cs: &Vec<char>, from: usize, to: usize)
    requires
        from <= to <= cs@.len(),
    ensures
        final(s)@ == old(s)@ + cs@.subrange(from as int, to as int),
{
    let mut i = from;
    while i < to
        invariant
            from <= i <= to <= cs@.len(),
            s@ == old(s)@ + cs@.subrange(from as int, i as int),
        decreases to - i,
    {
        push_char(s, cs[i]);
        assert(cs@.subrange(from as int, i + 1) =~= cs@.subrange(from as int, i as int).push(
            cs@[i as int],
        ));
        i = i + 1;
    }
}

/// A string holding the characters `cs[from..to]`.
pub fn string_of(cs: &Vec<char>, from: usize, to: usize) -> (s: String)
    requires
        from <= to <= cs@.len(),
    ensures
        s@ == cs@.subrange(from as int, to as int),
{
    let mut s = String::new();
    push_chars(&mut s, cs, from, to);
    s
}

/// The decimal digit for `d` (0 to 9).
pub open spec fn digit_char(d: int) -> char {
    if d == 0 {
        '0'
    } else if d == 1 {
        '1'
    } else if d == 2 {
        '2'
    } else if d == 3 {
        '3'
    } else if d == 4 {
        '4'
    } else if d == 5 {
        '5'
    } else if d == 6 {
        '6'
    } else if d == 7 {
        '7'
    } else if d == 8 {
        '8'
    } else {
        '9'
    }
}

/// `c` is one of the ASCII digits 0 to 9.
pub open spec fn is_digit(c: char) -> bool {
    '0' <= c <= '9'
}

/// The value of the ASCII digit `c`.
pub open spec fn digit_value(c: char) -> int {
    c as int - '0' as int
}

/// The decimal writing of `n`, with no leading zeros.
pub open spec fn dec(n: nat) -> Seq<char>
    decreases n,
{
    if n < 10 {
        seq![digit_char(n as int)]
    } else {
        dec(n / 10).push(digit_char((n % 10) as int))
    }
}

/// The decimal writing of a signed number: a minus sign, then the digits
/// of its magnitude.
pub open spec fn dec_signed(n: int) -> Seq<char> {
    if n < 0 {
        seq!['-'] + dec((-n) as nat)
    } else {
        dec(n as nat)
    }
}

fn digit_of(d: u64) -> (c: char)
    requires
        d < 10,
    ensures
        c == digit_char(d as int),
{
    if d == 0 {
        '0'
    } else if d == 1 {
        '1'
    } else if d == 2 {
        '2'
    } else if d == 3 {
        '3'
    } else if d == 4 {
        '4'
    } else if d == 5 {
        '5'
    } else if d == 6 {
        '6'
    } else if d == 7 {
        '7'
    } else if d == 8 {
        '8'
    } else {
        '9'
    }
}

/// Appends the decimal writing of `n` to `s`.
pub fn push_u64(s: &mut String, n: u64)
    ensures
        final(s)@ == old(s)@ + dec(n as nat),
    decreases n,
{
    if n < 10 {
        push_char(s, digit_of(n));
    } else {
        push_u64(s, n / 10);
        push_char(s, digit_of(n % 10));
        assert(s@ =~= old(s)@ + dec(n as nat));
    }
}

/// Appends the decimal writing of a signed number to `s`.
pub fn push_i64(s: &mut String, n: i64)
    ensures
        final(s)@ == old(s)@ + dec_signed(n as int),
{
    if n < 0 {
        push_char(s, '-');
        let m: u64 = if n == i64::MIN {
            9223372036854775808u64
        } else {
            (-n) as u64
        };
        push_u64(s, m);
        assert(s@ =~= old(s)@ + dec_signed(n as int));
    } else {
        push_u64(s, n as u64);
    }
}

/// The number of digits in a row from position `pos` on.
pub open spec fn digit_run(s: Seq<char>, pos: int) -> nat
    decreases s.len() - pos,
{
    if 0 <= pos < s.len() && is_digit(s[pos]) {
        1 + digit_run(s, pos + 1)
    } else {
        0
    }
}

/// The value of the digits `s[from..to]`, read in base ten.
pub open spec fn digits_value(s: Seq<char>, from: int, to: int) -> int
    decreases to - from,
{
    if to <= from {
        0
    } else {
        digits_value(s, from, to - 1) * 10 + digit_value(s[to - 1])
    }
}

/// Reading an unsigned number no larger than `max` at `pos`: the longest run
/// of digits, which must not be empty, and whose value must not pass `max`.
/// On success, the position after the digits and the value.
pub open spec fn read_uint(s: Seq<char>, pos: int, max: int) -> Option<(int, int)> {
    let k = digit_run(s, pos);
    let v = digits_value(s, pos, pos + k);
    if k == 0 || v > max {
        None
    } else {
        Some((pos + k, v))
    }
}

/// Reading a signed number between `min` and `max` at `pos`: an optional
/// `-` or `+`, then a non-empty run of digits whose value, signed, stays in range.
pub open spec fn read_int(s: Seq<char>, pos: int, min: int, max: int) -> Option<(int, int)> {
    let neg = 0 <= pos < s.len() && s[pos] == '-';
    let start = if 0 <= pos < s.len() && (s[pos] == '-' || s[pos] == '+') {
        pos + 1
    } else {
        pos
    };
    let k = digit_run(s, start);
    let v = digits_value(s, start, start + k);
    if k == 0 {
        None
    } else if neg {
        if -v < min {
            None
        } else {
            Some((start + k, -v))
        }
    } else {
        if v > max {
            None
        } else {
            Some((start + k, v))
        }
    }
}

pub proof fn lemma_digit_run_bound(s: Seq<char>, pos: int)
    requires
        0 <= pos,
    ensures
        pos + digit_run(s, pos) <= s.len() || digit_run(s, pos) == 0,
        forall|j: int| pos <= j < pos + digit_run(s, pos) ==> is_digit(#[trigger] s[j]),
        pos + digit_run(s, pos) < s.len() ==> !is_digit(s[pos + digit_run(s, pos)]),
    decreases s.len() - pos,
{
    if 0 <= pos < s.len() && is_digit(s[pos]) {
        lemma_digit_run_bound(s, pos + 1);
    }
}

proof fn lemma_digits_value_mono(s: Seq<char>, from: int, to: int, to2: int)
    requires
        from <= to <= to2,
        forall|j: int| from <= j < to2 ==> is_digit(#[trigger] s[j]),
    ensures
        0 <= digits_value(s, from, to) <= digits_value(s, from, to2),
    decreases to2 - from,
{
    if to2 > to {
        lemma_digits_value_mono(s, from, to, to2 - 1);
    } else if to > from {
        lemma_digits_value_mono(s, from, to - 1, to - 1);
    }
}

/// `c` as a digit value, if it is an ASCII digit.
fn digit_at(c: char) -> (r: Option<u64>)
    ensures
        is_digit(c) ==> r == Some(digit_value(c) as u64) && digit_value(c) < 10,
        !is_digit(c) ==> r is None,
{
    if '0' <= c && c <= '9' {
        Some((c as u32 - '0' as u32) as u64)
    } else {
        None
    }
}

/// Reads an unsigned number no larger than `max` at `pos` (see `read_uint`).
pub fn parse_uint(s: &Vec<char>, pos: usize, max: u64) -> (r: Option<(usize, u64)>)
    requires
        pos <= s@.len(),
    ensures
        match r {
            Some((p, v)) => read_uint(s@, pos as int, max as int) == Some((p as int, v as int))
                && p <= s@.len(),
            None => read_uint(s@, pos as int, max as int) is None,
        },
{
    proof {
        lemma_digit_run_bound(s@, pos as int);
    }
    let ghost k = digit_run(s@, pos as int);
    let mut i = pos;
    let mut value: u64 = 0;
    while i < s.len()
        invariant
            pos <= i <= s@.len(),
            i <= pos + k,
            k == digit_run(s@, pos as int),
            pos + k <= s@.len() || k == 0,
            forall|j: int| pos <= j < pos + k ==> is_digit(#[trigger] s@[j]),
            pos + k < s@.len() ==> !is_digit(s@[pos + k]),
            value == digits_value(s@, pos as int, i as int),
            value <= max,
        decreases s@.len() - i,
    {
        match digit_at(s[i]) {
            None => {
                assert(i == pos + k);
                if i == pos {
                    return None;
                }
                return Some((i, value));
            },
            Some(d) => {
                assert(i < pos + k);
                let next: u128 = value as u128 * 10 + d as u128;
                if next > max as u128 {
                    proof {
                        lemma_digits_value_mono(s@, pos as int, i + 1, pos + k);
                    }
                    return None;
                }
                value = next as u64;
                i = i + 1;
            },
        }
    }
    assert(i == pos + k);
    if i == pos {
        return None;
    }
    Some((i, value))
}

/// Reads a signed 64-bit number at `pos` (see `read_int`).
pub fn parse_i64(s: &Vec<char>, pos: usize) -> (r: Option<(usize, i64)>)
    requires
        pos <= s@.len(),
    ensures
        match r {
            Some((p, v)) => read_int(s@, pos as int, i64::MIN as int, i64::MAX as int) == Some(
                (p as int, v as int),
            ) && p <= s@.len(),
            None => read_int(s@, pos as int, i64::MIN as int, i64::MAX as int) is None,
        },
{
    let neg = pos < s.len() && s[pos] == '-';
    let start = if pos < s.len() && (s[pos] == '-' || s[pos] == '+') {
        pos + 1
    } else {
        pos
    };
    let max: u64 = if neg {
        9223372036854775808u64
    } else {
        9223372036854775807u64
    };
    match parse_uint(s, start, max) {
        None => None,
        Some((p, v)) => {
            if neg {
                if v == 9223372036854775808u64 {
                    Some((p, i64::MIN))
                } else {
                    Some((p, -(v as i64)))
                }
            } else {
                Some((p, v as i64))
            }
        },
    }
}

/// Blanks, as UCI and FEN separate words: spaces and tabs.
pub open spec fn is_blank(c: char) -> bool {
    c == ' ' || c == '\t'
}

/// The number of blanks in a row from `pos` on.
pub open spec fn blank_run(s: Seq<char>, pos: int) -> nat
    decreases s.len() - pos,
{
    if 0 <= pos < s.len() && is_blank(s[pos]) {
        1 + blank_run(s, pos + 1)
    } else {
        0
    }
}

/// One or more blanks at `pos`: the position after them.
pub open spec fn read_blanks(s: Seq<char>, pos: int) -> Option<int> {
    if blank_run(s, pos) == 0 {
        None
    } else {
        Some(pos + blank_run(s, pos))
    }
}

pub proof fn lemma_blank_run_bound(s: Seq<char>, pos: int)
    requires
        0 <= pos <= s.len(),
    ensures
        pos + blank_run(s, pos) <= s.len(),
        forall|j: int| pos <= j < pos + blank_run(s, pos) ==> is_blank(#[trigger] s[j]),
        pos + blank_run(s, pos) < s.len() ==> !is_blank(s[pos + blank_run(s, pos)]),
    decreases s.len() - pos,
{
    if 0 <= pos < s.len() && is_blank(s[pos]) {
        lemma_blank_run_bound(s, pos + 1);
    }
}

/// Skips one or more blanks at `pos` (see `read_blanks`).
pub fn parse_blanks(s: &Vec<char>, pos: usize) -> (r: Option<usize>)
    requires
        pos <= s@.len(),
    ensures
        match r {
            Some(p) => read_blanks(s@, pos as int) == Some(p as int) && p <= s@.len(),
            None => read_blanks(s@, pos as int) is None,
        },
{
    proof {
        lemma_blank_run_bound(s@, pos as int);
    }
    let ghost k = blank_run(s@, pos as int);
    let mut i = pos;
    while i < s.len() && (s[i] == ' ' || s[i] == '\t')
        invariant
            pos <= i <= pos + k <= s@.len(),
            k == blank_run(s@, pos as int),
            forall|j: int| pos <= j < pos + k ==> is_blank(#[trigger] s@[j]),
            pos + k < s@.len() ==> !is_blank(s@[pos + k]),
        decreases s@.len() - i,
    {
        i = i + 1;
    }
    if i == pos {
        None
    } else {
        Some(i)
    }
}

/// The characters `word` stand at `pos` of `s`.
pub open spec fn has_word(s: Seq<char>, pos: int, word: Seq<char>) -> bool {
    0 <= pos && pos + word.len() <= s.len() && s.subrange(pos, pos + word.len()) == word
}

/// Whether the characters of `word` stand at `pos` of `s`.
pub fn at_word(s: &Vec<char>, pos: usize, word: &str) -> (r: bool)
    requires
        pos <= s@.len(),
    ensures
        r == has_word(s@, pos as int, word@),
{
    let w = chars_of(word);
    let n = s.len();
    if w.len() > n - pos {
        return false;
    }
    let mut j: usize = 0;
    while j < w.len()
        invariant
            0 <= j <= w@.len(),
            pos + w@.len() <= s@.len(),
            w@ == word@,
            n == s@.len(),
            pos <= s@.len(),
            forall|i: int| 0 <= i < j ==> s@[pos + i] == w@[i],
        decreases w@.len() - j,
    {
        assert(pos + j < s@.len());
        if s[pos + j] != w[j] {
            assert(s@.subrange(pos as int, pos + w@.len())[j as int] != w@[j as int]);
            return false;
        }
        j = j + 1;
    }
    assert(s@.subrange(pos as int, pos + w@.len()) =~= w@);
    true
}

/// `word` at `pos`: the position after it.
pub open spec fn read_word(s: Seq<char>, pos: int, word: Seq<char>) -> Option<int> {
    if has_word(s, pos, word) {
        Some(pos + word.len())
    } else {
        None
    }
}

/// Reads `word` at `pos` (see `read_word`).
pub fn eat_word(s: &Vec<char>, pos: usize, word: &str) -> (r: Option<usize>)
    requires
        pos <= s@.len(),
    ensures
        match r {
            Some(p) => read_word(s@, pos as int, word@) == Some(p as int) && p <= s@.len(),
            None => read_word(s@, pos as int, word@) is None,
        },
{
    if at_word(s, pos, word) {
        let n = word.unicode_len();
        let total = s.len();
        assert(pos + n <= total);
        Some(pos + n)
    } else {
        None
    }
}

/// The first position at or after `pos` where the non-empty `pat` stands in `s`.
pub open spec fn find_from(s: Seq<char>, pos: int, pat: Seq<char>) -> Option<int>
    decreases s.len() - pos,
{
    if pos < 0 || pos >= s.len() || pos + pat.len() > s.len() {
        None
    } else if has_word(s, pos, pat) {
        Some(pos)
    } else {
        find_from(s, pos + 1, pat)
    }
}

/// Where `find_from` stops, `pat` stands, and it stands nowhere before.
pub proof fn lemma_find_from(s: Seq<char>, pos: int, pat: Seq<char>)
    requires
        0 <= pos,
    ensures
        match find_from(s, pos, pat) {
            Some(i) => pos <= i && i + pat.len() <= s.len() && has_word(s, i, pat) && forall|
                j: int,
            | pos <= j < i ==> !has_word(s, j, pat),
            None => forall|j: int| pos <= j < s.len() ==> !has_word(s, j, pat),
        },
    decreases s.len() - pos,
{
    if pos < 0 || pos >= s.len() || pos + pat.len() > s.len() {
    } else if has_word(s, pos, pat) {
    } else {
        lemma_find_from(s, pos + 1, pat);
    }
}

/// Finds the first `pat` at or after `pos` (see `find_from`).
pub fn find_word(s: &Vec<char>, pos: usize, pat: &str) -> (r: Option<usize>)
    requires
        pos <= s@.len(),
    ensures
        match r {
            Some(i) => find_from(s@, pos as int, pat@) == Some(i as int) && pos <= i <= s@.len(),
            None => find_from(s@, pos as int, pat@) is None,
        },
{
    let n = s.len();
    let k = pat.unicode_len();
    let mut i = pos;
    while i < n
        invariant
            pos <= i <= n,
            n == s@.len(),
            k == pat@.len(),
            find_from(s@, pos as int, pat@) == find_from(s@, i as int, pat@),
        decreases n - i,
    {
        if k > n - i {
            return None;
        }
        if at_word(s, i, pat) {
            return Some(i);
        }
        i = i + 1;
    }
    None
}

/// The end of `s[pos..]` as `take_until` with a fallback to the rest reads it:
/// the first `pat`, or the end of `s` if there is none.
pub open spec fn until_or_end(s: Seq<char>, pos: int, pat: Seq<char>) -> int {
    match find_from(s, pos, pat) {
        Some(i) => i,
        None => s.len() as int,
    }
}

/// White space as Unicode defines it (the `White_Space` property).
pub open spec fn is_white(c: char) -> bool {
    ('\t' <= c <= '\r') || c == ' ' || c == '\u{85}' || c == '\u{a0}' || c == '\u{1680}' || (
    '\u{2000}' <= c <= '\u{200a}') || c == '\u{2028}' || c == '\u{2029}' || c == '\u{202f}' || c
        == '\u{205f}' || c == '\u{3000}'
}

/// Whether `c` is white space (see `is_white`).
pub fn white(c: char) -> (r: bool)
    ensures
        r == is_white(c),
{
    ('\t' <= c && c <= '\r') || c == ' ' || c == '\u{85}' || c == '\u{a0}' || c == '\u{1680}' || (
    '\u{2000}' <= c && c <= '\u{200a}') || c == '\u{2028}' || c == '\u{2029}' || c == '\u{202f}'
        || c == '\u{205f}' || c == '\u{3000}'
}

/// The end of `s[from..to]` once trailing white space is dropped.
pub open spec fn trimmed_end(s: Seq<char>, from: int, to: int) -> int
    decreases to - from,
{
    if from < to && is_white(s[to - 1]) {
        trimmed_end(s, from, to - 1)
    } else {
        to
    }
}

/// The start of `s[from..to]` once leading white space is dropped.
pub open spec fn trimmed_start(s: Seq<char>, from: int, to: int) -> int
    decreases to - from,
{
    if from < to && is_white(s[from]) {
        trimmed_start(s, from + 1, to)
    } else {
        from
    }
}

pub proof fn lemma_trimmed_end(s: Seq<char>, from: int, to: int)
    requires
        from <= to,
    ensures
        from <= trimmed_end(s, from, to) <= to,
    decreases to - from,
{
    if from < to && is_white(s[to - 1]) {
        lemma_trimmed_end(s, from, to - 1);
    }
}

pub proof fn lemma_trimmed_start(s: Seq<char>, from: int, to: int)
    requires
        from <= to,
    ensures
        from <= trimmed_start(s, from, to) <= to,
    decreases to - from,
{
    if from < to && is_white(s[from]) {
        lemma_trimmed_start(s, from + 1, to);
    }
}

/// Drops trailing white space from `s[from..to]` (see `trimmed_end`).
pub fn trim_end_at(s: &Vec<char>, from: usize, to: usize) -> (r: usize)
    requires
        from <= to <= s@.len(),
    ensures
        r == trimmed_end(s@, from as int, to as int),
        from <= r <= to,
{
    proof {
        lemma_trimmed_end(s@, from as int, to as int);
    }
    let mut e = to;
    while from < e && white(s[e - 1])
        invariant
            from <= e <= to <= s@.len(),
            trimmed_end(s@, from as int, to as int) == trimmed_end(s@, from as int, e as int),
        decreases e,
    {
        e = e - 1;
    }
    e
}

/// Drops leading white space from `s[from..to]` (see `trimmed_start`).
pub fn trim_start_at(s: &Vec<char>, from: usize, to: usize) -> (r: usize)
    requires
        from <= to <= s@.len(),
    ensures
        r == trimmed_start(s@, from as int, to as int),
        from <= r <= to,
{
    proof {
        lemma_trimmed_start(s@, from as int, to as int);
    }
    let mut b = from;
    while b < to && white(s[b])
        invariant
            from <= b <= to <= s@.len(),
            trimmed_start(s@, from as int, to as int) == trimmed_start(s@, b as int, to as int),
        decreases to - b,
    {
        b = b + 1;
    }
    b
}

/// The characters `cs[from..to]` as a vector of their own.
pub fn chars_between(cs: &Vec<char>, from: usize, to: usize) -> (r: Vec<char>)
    requires
        from <= to <= cs@.len(),
    ensures
        r@ == cs@.subrange(from as int, to as int),
{
    let mut v: Vec<char> = Vec::new();
    let mut i = from;
    while i < to
        invariant
            from <= i <= to <= cs@.len(),
            v@ == cs@.subrange(from as int, i as int),
        decreases to - i,
    {
        v.push(cs[i]);
        assert(cs@.subrange(from as int, i + 1) =~= cs@.subrange(from as int, i as int).push(
            cs@[i as int],
        ));
        i = i + 1;
    }
    v
}

/// `s` with leading and trailing white space dropped.
pub open spec fn trimmed(s: Seq<char>) -> Seq<char> {
    let a = trimmed_start(s, 0, s.len() as int);
    s.subrange(a, trimmed_end(s, a, s.len() as int))
}

/// Dropping the white space around `s` leaves it as it is when it neither
/// starts nor ends with white space.
pub proof fn lemma_trimmed_clean(s: Seq<char>)
    requires
        s.len() > 0 ==> !is_white(s[0]) && !is_white(s[s.len() - 1]),
    ensures
        trimmed(s) == s,
{
    assert(trimmed_start(s, 0, s.len() as int) == 0);
    assert(trimmed_end(s, 0, s.len() as int) == s.len());
    assert(s.subrange(0, s.len() as int) =~= s);
}

/// The characters of `s` with leading and trailing white space dropped.
pub fn trimmed_chars(s: &str) -> (r: Vec<char>)
    ensures
        r@ == trimmed(s@),
{
    let cs = chars_of(s);
    let n = cs.len();
    let a = trim_start_at(&cs, 0, n);
    let b = trim_end_at(&cs, a, n);
    chars_between(&cs, a, b)
}

// ---------------------------------------------------------------------------
// Reading back what was written

/// What stands at `pos` holds each part of a concatenation in turn.
pub proof fn lemma_has_word_split(s: Seq<char>, pos: int, a: Seq<char>, b: Seq<char>)
    requires
        has_word(s, pos, a + b),
    ensures
        has_word(s, pos, a),
        has_word(s, pos + a.len(), b),
{
    assert(s.subrange(pos, pos + a.len()) =~= (a + b).subrange(0, a.len() as int));
    assert((a + b).subrange(0, a.len() as int) =~= a);
    assert(s.subrange(pos + a.len(), pos + a.len() + b.len()) =~= (a + b).subrange(
        a.len() as int,
        (a + b).len() as int,
    ));
    assert((a + b).subrange(a.len() as int, (a + b).len() as int) =~= b);
}

/// Two parts in a row make their concatenation.
pub proof fn lemma_has_word_join(s: Seq<char>, pos: int, a: Seq<char>, b: Seq<char>)
    requires
        has_word(s, pos, a),
        has_word(s, pos + a.len(), b),
    ensures
        has_word(s, pos, a + b),
{
    assert forall|i: int| 0 <= i < (a + b).len() implies s.subrange(pos, pos + (a + b).len())[i]
        == (a + b)[i] by {
        if i < a.len() {
            assert(s.subrange(pos, pos + a.len())[i] == a[i]);
        } else {
            assert(s.subrange(pos + a.len(), pos + a.len() + b.len())[i - a.len()] == b[i
                - a.len()]);
        }
    }
    assert(s.subrange(pos, pos + (a + b).len()) =~= a + b);
}

/// A character of what stands at `pos`.
pub proof fn lemma_has_word_index(s: Seq<char>, pos: int, w: Seq<char>, i: int)
    requires
        has_word(s, pos, w),
        0 <= i < w.len(),
    ensures
        s[pos + i] == w[i],
{
    assert(s.subrange(pos, pos + w.len())[i] == w[i]);
}

/// A word does not stand where another stands that differs from it at `i`.
pub proof fn lemma_words_clash(s: Seq<char>, pos: int, k: Seq<char>, w: Seq<char>, i: int)
    requires
        has_word(s, pos, k),
        0 <= i < k.len(),
        i < w.len(),
        k[i] != w[i],
    ensures
        read_word(s, pos, w) is None,
{
    lemma_has_word_index(s, pos, k, i);
    if has_word(s, pos, w) {
        lemma_has_word_index(s, pos, w, i);
    }
}

/// A single blank followed by something else reads as blanks up to it.
pub proof fn lemma_one_blank(s: Seq<char>, pos: int)
    requires
        0 <= pos < s.len(),
        is_blank(s[pos]),
        pos + 1 == s.len() || !is_blank(s[pos + 1]),
    ensures
        read_blanks(s, pos) == Some(pos + 1),
{
    assert(blank_run(s, pos + 1) == 0);
    assert(blank_run(s, pos) == 1);
}

/// No blanks stand at `pos` when something else, or nothing, does.
pub proof fn lemma_no_blank(s: Seq<char>, pos: int)
    requires
        0 <= pos,
        pos >= s.len() || !is_blank(s[pos]),
    ensures
        read_blanks(s, pos) is None,
{
}

/// `digit_char` writes a digit of the right value.
pub proof fn lemma_digit_char(d: int)
    requires
        0 <= d < 10,
    ensures
        is_digit(digit_char(d)),
        digit_value(digit_char(d)) == d,
{
}

/// The decimal writing of a number is a non-empty run of digits.
pub proof fn lemma_dec_digits(n: nat)
    ensures
        dec(n).len() >= 1,
        forall|i: int| 0 <= i < dec(n).len() ==> is_digit(#[trigger] dec(n)[i]),
    decreases n,
{
    if n >= 10 {
        lemma_dec_digits(n / 10);
        lemma_digit_char((n % 10) as int);
    } else {
        lemma_digit_char(n as int);
    }
}

/// Digits that write `n` read as `n`.
pub proof fn lemma_dec_value(s: Seq<char>, pos: int, n: nat)
    requires
        has_word(s, pos, dec(n)),
    ensures
        digits_value(s, pos, pos + dec(n).len()) == n,
    decreases n,
{
    if n < 10 {
        lemma_has_word_index(s, pos, dec(n), 0);
        lemma_digit_char(n as int);
        assert(digits_value(s, pos, pos) == 0);
    } else {
        let c = digit_char((n % 10) as int);
        assert(dec(n) =~= dec(n / 10) + seq![c]);
        lemma_has_word_split(s, pos, dec(n / 10), seq![c]);
        lemma_dec_value(s, pos, n / 10);
        lemma_has_word_index(s, pos + dec(n / 10).len(), seq![c], 0);
        lemma_digit_char((n % 10) as int);
        assert(pos + dec(n).len() - 1 == pos + dec(n / 10).len());
    }
}

/// A run of exactly `k` digits at `pos`.
pub proof fn lemma_digit_run_exact(s: Seq<char>, pos: int, k: int)
    requires
        0 <= pos,
        0 <= k,
        pos + k <= s.len(),
        forall|j: int| pos <= j < pos + k ==> is_digit(#[trigger] s[j]),
        pos + k == s.len() || !is_digit(s[pos + k]),
    ensures
        digit_run(s, pos) == k,
    decreases k,
{
    if k > 0 {
        lemma_digit_run_exact(s, pos + 1, k - 1);
    }
}

/// The decimal writing of `n`, ended by a non-digit or by the end of `s`,
/// reads back as `n`.
pub proof fn lemma_read_uint_dec(s: Seq<char>, pos: int, n: nat, max: int)
    requires
        has_word(s, pos, dec(n)),
        pos + dec(n).len() == s.len() || !is_digit(s[pos + dec(n).len()]),
        n <= max,
    ensures
        read_uint(s, pos, max) == Some((pos + dec(n).len(), n as int)),
{
    lemma_dec_digits(n);
    assert forall|j: int| pos <= j < pos + dec(n).len() implies is_digit(#[trigger] s[j]) by {
        lemma_has_word_index(s, pos, dec(n), j - pos);
    }
    lemma_digit_run_exact(s, pos, dec(n).len() as int);
    lemma_dec_value(s, pos, n);
}

/// The decimal writing of a signed `v`, ended by a non-digit or by the end
/// of `s`, reads back as `v`.
pub proof fn lemma_read_int_dec(s: Seq<char>, pos: int, v: int, min: int, max: int)
    requires
        has_word(s, pos, dec_signed(v)),
        pos + dec_signed(v).len() == s.len() || !is_digit(s[pos + dec_signed(v).len()]),
        min <= v <= max,
    ensures
        read_int(s, pos, min, max) == Some((pos + dec_signed(v).len(), v)),
{
    if v < 0 {
        lemma_has_word_split(s, pos, seq!['-'], dec((-v) as nat));
        lemma_has_word_index(s, pos, seq!['-'], 0);
        lemma_read_uint_dec(s, pos + 1, (-v) as nat, -min);
    } else {
        lemma_dec_digits(v as nat);
        lemma_has_word_index(s, pos, dec(v as nat), 0);
        lemma_read_uint_dec(s, pos, v as nat, max);
    }
}

/// `s` stands at its own start.
pub proof fn lemma_whole(s: Seq<char>)
    ensures
        has_word(s, 0, s),
{
    assert(s.subrange(0, s.len() as int) =~= s);
}

/// `t` does not start with a blank.
pub open spec fn no_lead_blank(t: Seq<char>) -> bool {
    t.len() == 0 || !is_blank(t[0])
}

/// `t` does not end with white space.
pub open spec fn no_trail_white(t: Seq<char>) -> bool {
    t.len() == 0 || !is_white(t[t.len() - 1])
}

/// `pat` stands nowhere in `t`.
pub open spec fn lacks(t: Seq<char>, pat: Seq<char>) -> bool {
    forall|j: int| 0 <= j <= t.len() ==> !has_word(t, j, pat)
}

/// `find_from` stops at the first place where `pat` stands.
pub proof fn lemma_find_first(s: Seq<char>, pos: int, pat: Seq<char>, e: int)
    requires
        0 <= pos <= e,
        pat.len() > 0,
        has_word(s, e, pat),
        forall|j: int| pos <= j < e ==> !has_word(s, j, pat),
    ensures
        find_from(s, pos, pat) == Some(e),
    decreases e - pos,
{
    if pos < e {
        lemma_find_first(s, pos + 1, pat, e);
    }
}

/// `find_from` finds nothing when `pat` stands nowhere from `pos` on.
pub proof fn lemma_find_nothing(s: Seq<char>, pos: int, pat: Seq<char>)
    requires
        0 <= pos,
        forall|j: int| pos <= j ==> !has_word(s, j, pat),
    ensures
        find_from(s, pos, pat) is None,
    decreases s.len() - pos,
{
    if pos < s.len() && pos + pat.len() <= s.len() {
        lemma_find_nothing(s, pos + 1, pat);
    }
}

/// Where `t` stands and lacks `pat`, an occurrence of `pat` starting inside
/// `t` would run past its end; none does when the character after `t` is
/// not one of the later characters of `pat`.
pub proof fn lemma_lacks_in(s: Seq<char>, pos: int, t: Seq<char>, pat: Seq<char>, j: int)
    requires
        has_word(s, pos, t),
        lacks(t, pat),
        pat.len() > 0,
        pos <= j < pos + t.len(),
        pos + t.len() < s.len(),
        forall|k: int| 1 <= k < pat.len() ==> #[trigger] pat[k] != s[pos + t.len()],
    ensures
        !has_word(s, j, pat),
{
    if has_word(s, j, pat) {
        let e = pos + t.len();
        if j + pat.len() <= e {
            assert(t.subrange(j - pos, j - pos + pat.len()) =~= s.subrange(j, j + pat.len()));
            assert(has_word(t, j - pos, pat));
        } else {
            lemma_has_word_index(s, j, pat, e - j);
        }
    }
}

/// `t` followed by `pat`, `t` lacking `pat`: the first `pat` is right after `t`.
pub proof fn lemma_find_after(s: Seq<char>, pos: int, t: Seq<char>, pat: Seq<char>)
    requires
        0 <= pos,
        has_word(s, pos, t),
        lacks(t, pat),
        pat.len() > 0,
        has_word(s, pos + t.len(), pat),
        forall|k: int| 1 <= k < pat.len() ==> #[trigger] pat[k] != pat[0],
    ensures
        find_from(s, pos, pat) == Some(pos + t.len()),
{
    lemma_has_word_index(s, pos + t.len(), pat, 0);
    assert forall|j: int| pos <= j < pos + t.len() implies !has_word(s, j, pat) by {
        lemma_lacks_in(s, pos, t, pat, j);
    }
    lemma_find_first(s, pos, pat, pos + t.len());
}

/// `t` runs to the end of `s` and lacks `pat`: no `pat` from its start on.
pub proof fn lemma_find_none_in(s: Seq<char>, pos: int, t: Seq<char>, pat: Seq<char>)
    requires
        0 <= pos,
        has_word(s, pos, t),
        pos + t.len() == s.len(),
        lacks(t, pat),
        pat.len() > 0,
    ensures
        find_from(s, pos, pat) is None,
{
    assert forall|j: int| pos <= j implies !has_word(s, j, pat) by {
        if has_word(s, j, pat) {
            assert(t.subrange(j - pos, j - pos + pat.len()) =~= s.subrange(j, j + pat.len()));
            assert(has_word(t, j - pos, pat));
        }
    }
    lemma_find_nothing(s, pos, pat);
}

/// Dropping trailing white space leaves `t` as it is when it ends with none.
pub proof fn lemma_trim_keeps(s: Seq<char>, pos: int, t: Seq<char>)
    requires
        has_word(s, pos, t),
        no_trail_white(t),
    ensures
        trimmed_end(s, pos, pos + t.len()) == pos + t.len(),
        s.subrange(pos, pos + t.len()) == t,
{
    if t.len() > 0 {
        lemma_has_word_index(s, pos, t, t.len() - 1);
    }
}

/// A single blank at `pos` followed by `t`, which does not start with a blank.
pub proof fn lemma_blank_before(s: Seq<char>, pos: int, t: Seq<char>)
    requires
        0 <= pos,
        has_word(s, pos, seq![' '] + t),
        no_lead_blank(t),
        t.len() > 0 || pos + 1 == s.len(),
    ensures
        read_blanks(s, pos) == Some(pos + 1),
{
    lemma_has_word_split(s, pos, seq![' '], t);
    lemma_has_word_index(s, pos, seq![' '], 0);
    if t.len() > 0 {
        lemma_has_word_index(s, pos + 1, t, 0);
    }
    lemma_one_blank(s, pos);
}

} // verus!
