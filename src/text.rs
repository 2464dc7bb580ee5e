//! Character classes, runs of characters, lines and hexadecimal numbers over
//! a text held as a sequence of `char`s.
use vstd::prelude::*;

verus! {

/// The classes of characters that the mapfile grammars are written with.
#[derive(Clone, Copy, PartialEq, Eq)]
pub enum CharClass {
    /// Unicode white space.
    Space,
    /// A space or a tab.
    Blank,
    /// An ASCII hexadecimal digit.
    Hex,
    /// An ASCII decimal digit.
    Digit,
    /// Anything but Unicode white space.
    NonSpace,
    /// Anything but `' '`.
    NonBlankChar,
    /// An ASCII letter or digit.
    Alnum,
    /// Anything but a line feed.
    NotNewline,
    /// Anything but a line feed or a carriage return.
    NotLineBreak,
    /// Anything but `':'`.
    NotColon,
    /// An ASCII letter or digit, or `'_'`.
    Word,
}

/// The characters that carry the Unicode `White_Space` property.
pub open spec fn is_space(c: char) -> bool {
    let u = c as u32;
    ||| 0x09 <= u && u <= 0x0D
    ||| u == 0x20
    ||| u == 0x85
    ||| u == 0xA0
    ||| u == 0x1680
    ||| 0x2000 <= u && u <= 0x200A
    ||| u == 0x2028
    ||| u == 0x2029
    ||| u == 0x202F
    ||| u == 0x205F
    ||| u == 0x3000
}

pub open spec fn is_blank(c: char) -> bool {
    c == ' ' || c == '\t'
}

pub open spec fn is_digit(c: char) -> bool {
    '0' <= c && c <= '9'
}

pub open spec fn is_hex(c: char) -> bool {
    is_digit(c) || ('a' <= c && c <= 'f') || ('A' <= c && c <= 'F')
}

pub open spec fn is_alnum(c: char) -> bool {
    is_digit(c) || ('a' <= c && c <= 'z') || ('A' <= c && c <= 'Z')
}

pub open spec fn in_class(k: CharClass, c: char) -> bool {
    match k {
        CharClass::Space => is_space(c),
        CharClass::Blank => is_blank(c),
        CharClass::Hex => is_hex(c),
        CharClass::Digit => is_digit(c),
        CharClass::NonSpace => !is_space(c),
        CharClass::NonBlankChar => c != ' ',
        CharClass::Alnum => is_alnum(c),
        CharClass::NotNewline => c != '\n',
        CharClass::NotLineBreak => c != '\n' && c != '\r',
        CharClass::NotColon => c != ':',
        CharClass::Word => is_alnum(c) || c == '_',
    }
}

pub fn char_in_class(k: CharClass, c: char) -> (r: bool)
    ensures
        r == in_class(k, c),
{
    let u = c as u32;
    match k {
        CharClass::Space => {
            (0x09 <= u && u <= 0x0D) || u == 0x20 || u == 0x85 || u == 0xA0 || u == 0x1680 || (
            0x2000 <= u && u <= 0x200A) || u == 0x2028 || u == 0x2029 || u == 0x202F || u == 0x205F
                || u == 0x3000
        },
        CharClass::Blank => c == ' ' || c == '\t',
        CharClass::Hex => ('0' <= c && c <= '9') || ('a' <= c && c <= 'f') || ('A' <= c && c
            <= 'F'),
        CharClass::Digit => '0' <= c && c <= '9',
        CharClass::NonSpace => !((0x09 <= u && u <= 0x0D) || u == 0x20 || u == 0x85 || u == 0xA0
            || u == 0x1680 || (0x2000 <= u && u <= 0x200A) || u == 0x2028 || u == 0x2029 || u
            == 0x202F || u == 0x205F || u == 0x3000),
        CharClass::NonBlankChar => c != ' ',
        CharClass::Alnum => ('0' <= c && c <= '9') || ('a' <= c && c <= 'z') || ('A' <= c && c
            <= 'Z'),
        CharClass::NotNewline => c != '\n',
        CharClass::NotLineBreak => c != '\n' && c != '\r',
        CharClass::NotColon => c != ':',
        CharClass::Word => ('0' <= c && c <= '9') || ('a' <= c && c <= 'z') || ('A' <= c && c
            <= 'Z') || c == '_',
    }
}

/// The end of the run of characters of class `k` that starts at `i`, stopping at `hi`.
pub open spec fn run_end(t: Seq<char>, i: int, hi: int, k: CharClass) -> int
    decreases hi - i,
{
    if i < hi && 0 <= i < t.len() && in_class(k, t[i]) {
        run_end(t, i + 1, hi, k)
    } else {
        i
    }
}

pub proof fn lemma_run_end_bounds(t: Seq<char>, i: int, hi: int, k: CharClass)
    requires
        0 <= i <= hi <= t.len(),
    ensures
        i <= run_end(t, i, hi, k) <= hi,
        forall|j: int| i <= j < run_end(t, i, hi, k) ==> in_class(k, #[trigger] t[j]),
        run_end(t, i, hi, k) < hi ==> !in_class(k, t[run_end(t, i, hi, k)]),
    decreases hi - i,
{
    if i < hi && in_class(k, t[i]) {
        lemma_run_end_bounds(t, i + 1, hi, k);
    }
}

/// A run of class `k` from `i` that stops at `e` ends at `e`.
pub proof fn lemma_run_end_exact(t: Seq<char>, i: int, hi: int, k: CharClass, e: int)
    requires
        0 <= i <= e <= hi <= t.len(),
        forall|j: int| i <= j < e ==> in_class(k, #[trigger] t[j]),
        e == hi || !in_class(k, t[e]),
    ensures
        run_end(t, i, hi, k) == e,
    decreases e - i,
{
    if i < e {
        lemma_run_end_exact(t, i + 1, hi, k, e);
    }
}

/// Returns the end of the run of class `k` that starts at `i`, stopping at `hi`.
pub fn skip_run(t: &Vec<char>, i: usize, hi: usize, k: CharClass) -> (r: usize)
    requires
        i <= hi <= t@.len(),
    ensures
        r == run_end(t@, i as int, hi as int, k),
        i <= r <= hi,
{
    proof {
        lemma_run_end_bounds(t@, i as int, hi as int, k);
    }
    let mut j = i;
    while j < hi && char_in_class(k, t[j])
        invariant
            i <= j <= hi <= t@.len(),
            run_end(t@, j as int, hi as int, k) == run_end(t@, i as int, hi as int, k),
        decreases hi - j,
    {
        j = j + 1;
    }
    j
}

/// The end of the line that holds position `p`: the next line feed, or the end of the text.
pub open spec fn line_end(t: Seq<char>, p: int) -> int {
    run_end(t, p, t.len() as int, CharClass::NotNewline)
}

/// Where the line after the one that holds `p` starts (the end of the text if there is none).
pub open spec fn next_line(t: Seq<char>, p: int) -> int {
    if line_end(t, p) < t.len() {
        line_end(t, p) + 1
    } else {
        t.len() as int
    }
}

/// The end of the content of the line that starts at `p`: a line feed and a carriage
/// return before it do not belong to it.
pub open spec fn content_end(t: Seq<char>, p: int) -> int {
    let e = line_end(t, p);
    if e < t.len() && e > p && t[e - 1] == '\r' {
        e - 1
    } else {
        e
    }
}

pub proof fn lemma_line_bounds(t: Seq<char>, p: int)
    requires
        0 <= p < t.len(),
    ensures
        p < next_line(t, p) <= t.len(),
        p <= content_end(t, p) <= line_end(t, p) <= t.len(),
{
    lemma_run_end_bounds(t, p, t.len() as int, CharClass::NotNewline);
}

/// Returns `(content_end, next_line)` of the line that starts at `p`.
pub fn line_bounds(t: &Vec<char>, p: usize) -> (r: (usize, usize))
    requires
        p < t@.len(),
    ensures
        r.0 == content_end(t@, p as int),
        r.1 == next_line(t@, p as int),
        p <= r.0 <= t@.len(),
        p < r.1 <= t@.len(),
{
    proof {
        lemma_line_bounds(t@, p as int);
    }
    let e = skip_run(t, p, t.len(), CharClass::NotNewline);
    let next = if e < t.len() {
        e + 1
    } else {
        e
    };
    let c = if e < t.len() && e > p && t[e - 1] == '\r' {
        e - 1
    } else {
        e
    };
    (c, next)
}

pub open spec fn hex_digit_value(c: char) -> nat {
    if '0' <= c && c <= '9' {
        (c as u32 - '0' as u32) as nat
    } else if 'a' <= c && c <= 'f' {
        (c as u32 - 'a' as u32 + 10) as nat
    } else {
        (c as u32 - 'A' as u32 + 10) as nat
    }
}

/// The number that a sequence of hexadecimal digits writes, most significant first.
pub open spec fn hex_value(s: Seq<char>) -> nat
    decreases s.len(),
{
    if s.len() == 0 {
        0
    } else {
        hex_value(s.drop_last()) * 16 + hex_digit_value(s.last())
    }
}

pub open spec fn all_hex(s: Seq<char>) -> bool {
    forall|i: int| 0 <= i < s.len() ==> is_hex(#[trigger] s[i])
}

/// The value of the hexadecimal digits `t[a..b]`, where they are all hexadecimal digits,
/// there is at least one and the value fits in 64 bits.
pub open spec fn hex_field(t: Seq<char>, a: int, b: int) -> Option<u64> {
    let s = t.subrange(a, b);
    if a < b && all_hex(s) && hex_value(s) <= u64::MAX {
        Some(hex_value(s) as u64)
    } else {
        None
    }
}

pub open spec fn pow16(n: nat) -> nat
    decreases n,
{
    if n == 0 {
        1
    } else {
        16 * pow16((n - 1) as nat)
    }
}

/// `n` hexadecimal digits write a number below `16^n`.
pub proof fn lemma_hex_value_bound(s: Seq<char>)
    requires
        all_hex(s),
    ensures
        hex_value(s) < pow16(s.len()),
    decreases s.len(),
{
    if s.len() > 0 {
        assert(all_hex(s.drop_last()));
        lemma_hex_value_bound(s.drop_last());
        assert(is_hex(s[s.len() - 1]));
    }
}

proof fn lemma_hex_value_grows(s: Seq<char>, j: int)
    requires
        0 <= j <= s.len(),
    ensures
        hex_value(s.subrange(0, j)) <= hex_value(s),
    decreases s.len() - j,
{
    if j < s.len() {
        lemma_hex_value_grows(s, j + 1);
        assert(s.subrange(0, j + 1).drop_last() =~= s.subrange(0, j));
    } else {
        assert(s.subrange(0, j) =~= s);
    }
}

fn hex_digit(c: char) -> (r: u64)
    requires
        is_hex(c),
    ensures
        r == hex_digit_value(c),
{
    if '0' <= c && c <= '9' {
        (c as u32 - '0' as u32) as u64
    } else if 'a' <= c && c <= 'f' {
        (c as u32 - 'a' as u32 + 10) as u64
    } else {
        (c as u32 - 'A' as u32 + 10) as u64
    }
}

/// Reads `t[a..b]` as a hexadecimal number.
pub fn parse_hex(t: &Vec<char>, a: usize, b: usize) -> (r: Option<u64>)
    requires
        a <= b <= t@.len(),
    ensures
        r == hex_field(t@, a as int, b as int),
{
    if a == b {
        return None;
    }
    let ghost s = t@.subrange(a as int, b as int);
    let mut acc: u64 = 0;
    let mut j = a;
    while j < b
        invariant
            a <= j <= b <= t@.len(),
            s == t@.subrange(a as int, b as int),
            acc == hex_value(s.subrange(0, j - a)),
            forall|i: int| 0 <= i < j - a ==> is_hex(#[trigger] s[i]),
        decreases b - j,
    {
        let c = t[j];
        assert(s[j - a] == c);
        if !char_in_class(CharClass::Hex, c) {
            assert(!all_hex(s));
            return None;
        }
        let d = hex_digit(c);
        assert(s.subrange(0, j + 1 - a).drop_last() =~= s.subrange(0, j - a));
        if acc > (u64::MAX - d) / 16 {
            proof {
                lemma_hex_value_grows(s, j + 1 - a);
            }
            return None;
        }
        acc = acc * 16 + d;
        j = j + 1;
    }
    assert(s.subrange(0, b - a) =~= s);
    Some(acc)
}

/// Whether `pat` stands at `k` and ends by `hi`.
pub open spec fn occurs_at(t: Seq<char>, k: int, hi: int, pat: Seq<char>) -> bool {
    0 <= k && k + pat.len() <= hi && hi <= t.len() && t.subrange(k, k + pat.len()) == pat
}

/// The first place in `[i, hi)` where `pat` stands and ends by `hi`.
pub open spec fn first_occurrence(t: Seq<char>, i: int, hi: int, pat: Seq<char>) -> Option<int>
    decreases hi - i,
{
    if i < hi {
        if occurs_at(t, i, hi, pat) {
            Some(i)
        } else {
            first_occurrence(t, i + 1, hi, pat)
        }
    } else {
        None
    }
}

/// The last place in `[lo, k)` where `pat` stands and ends by `hi`.
pub open spec fn last_occurrence(t: Seq<char>, lo: int, k: int, hi: int, pat: Seq<char>) -> Option<
    int,
>
    decreases k - lo,
{
    if lo < k {
        if occurs_at(t, k - 1, hi, pat) {
            Some(k - 1)
        } else {
            last_occurrence(t, lo, k - 1, hi, pat)
        }
    } else {
        None
    }
}

pub proof fn lemma_first_occurrence(t: Seq<char>, i: int, hi: int, pat: Seq<char>)
    ensures
        first_occurrence(t, i, hi, pat) matches Some(k) ==> i <= k < hi && occurs_at(t, k, hi, pat),
    decreases hi - i,
{
    if i < hi && !occurs_at(t, i, hi, pat) {
        lemma_first_occurrence(t, i + 1, hi, pat);
    }
}

pub proof fn lemma_last_occurrence(t: Seq<char>, lo: int, k: int, hi: int, pat: Seq<char>)
    ensures
        last_occurrence(t, lo, k, hi, pat) matches Some(m) ==> lo <= m < k && occurs_at(
            t,
            m,
            hi,
            pat,
        ),
    decreases k - lo,
{
    if lo < k && !occurs_at(t, k - 1, hi, pat) {
        lemma_last_occurrence(t, lo, k - 1, hi, pat);
    }
}

/// Whether `pat` stands at `k` and ends by `hi`.
pub fn pattern_at(t: &Vec<char>, k: usize, hi: usize, pat: &Vec<char>) -> (r: bool)
    requires
        hi <= t@.len(),
    ensures
        r == occurs_at(t@, k as int, hi as int, pat@),
{
    if k > hi || hi - k < pat.len() {
        return false;
    }
    let mut j: usize = 0;
    while j < pat.len()
        invariant
            k + pat@.len() <= hi <= t@.len(),
            j <= pat@.len(),
            forall|i: int| 0 <= i < j ==> t@[k + i] == pat@[i],
        decreases pat@.len() - j,
    {
        if t[k + j] != pat[j] {
            assert(t@.subrange(k as int, k + pat@.len())[j as int] != pat@[j as int]);
            return false;
        }
        j = j + 1;
    }
    assert(t@.subrange(k as int, k + pat@.len()) =~= pat@);
    true
}

/// Finds the first place in `[i, hi)` where `pat` stands and ends by `hi`.
pub fn find_first(t: &Vec<char>, i: usize, hi: usize, pat: &Vec<char>) -> (r: Option<usize>)
    requires
        i <= hi <= t@.len(),
    ensures
        match first_occurrence(t@, i as int, hi as int, pat@) {
            Some(k) => r == Some(k as usize) && i <= k < hi && occurs_at(
                t@,
                k,
                hi as int,
                pat@,
            ),
            None => r is None,
        },
{
    proof {
        lemma_first_occurrence(t@, i as int, hi as int, pat@);
    }
    let mut k = i;
    while k < hi
        invariant
            i <= k <= hi <= t@.len(),
            first_occurrence(t@, k as int, hi as int, pat@) == first_occurrence(
                t@,
                i as int,
                hi as int,
                pat@,
            ),
        decreases hi - k,
    {
        if pattern_at(t, k, hi, pat) {
            return Some(k);
        }
        k = k + 1;
    }
    None
}

/// Finds the last place in `[lo, hi)` where `pat` stands and ends by `hi`.
pub fn find_last(t: &Vec<char>, lo: usize, hi: usize, pat: &Vec<char>) -> (r: Option<usize>)
    requires
        lo <= hi <= t@.len(),
    ensures
        match last_occurrence(t@, lo as int, hi as int, hi as int, pat@) {
            Some(k) => r == Some(k as usize) && lo <= k < hi && occurs_at(
                t@,
                k,
                hi as int,
                pat@,
            ),
            None => r is None,
        },
{
    proof {
        lemma_last_occurrence(t@, lo as int, hi as int, hi as int, pat@);
    }
    let mut k = hi;
    while k > lo
        invariant
            lo <= k <= hi <= t@.len(),
            last_occurrence(t@, lo as int, k as int, hi as int, pat@) == last_occurrence(
                t@,
                lo as int,
                hi as int,
                hi as int,
                pat@,
            ),
        decreases k - lo,
    {
        if pattern_at(t, k - 1, hi, pat) {
            return Some(k - 1);
        }
        k = k - 1;
    }
    None
}

/// Whether `t[a..b]` and `t[c..d]` hold the same characters.
pub fn same_text(t: &Vec<char>, a: usize, b: usize, c: usize, d: usize) -> (r: bool)
    requires
        a <= b <= t@.len(),
        c <= d <= t@.len(),
    ensures
        r == (t@.subrange(a as int, b as int) == t@.subrange(c as int, d as int)),
{
    if b - a != d - c {
        assert(t@.subrange(a as int, b as int).len() != t@.subrange(c as int, d as int).len());
        return false;
    }
    let mut i: usize = 0;
    while i < b - a
        invariant
            a <= b <= t@.len(),
            c <= d <= t@.len(),
            b - a == d - c,
            i <= b - a,
            forall|j: int| 0 <= j < i ==> #[trigger] t@[a + j] == t@[c + j],
        decreases b - a - i,
    {
        if t[a + i] != t[c + i] {
            assert(t@.subrange(a as int, b as int)[i as int] != t@.subrange(c as int, d as int)[i as int]);
            return false;
        }
        i = i + 1;
    }
    assert forall|j: int| 0 <= j < b - a implies t@.subrange(a as int, b as int)[j]
        == t@.subrange(c as int, d as int)[j] by {
        assert(t@[a + j] == t@[c + j]);
    }
    assert(t@.subrange(a as int, b as int) =~= t@.subrange(c as int, d as int));
    true
}

/// Relies on `str::chars`: the characters of `s`, in order.
#[verifier::external_body]
pub(crate) fn chars_of(s: &str) -> (r: Vec<char>)
    ensures
        r@ == s@,
{
    s.chars().collect()
}

/// Relies on `String`'s `FromIterator<&char>`: a string of the characters `t[a..b]`.
#[verifier::external_body]
pub(crate) fn string_of(t: &Vec<char>, a: usize, b: usize) -> (r: String)
    requires
        a <= b <= t@.len(),
    ensures
        r@ == t@.subrange(a as int, b as int),
{
    t[a..b].iter().collect()
}

} // verus!
