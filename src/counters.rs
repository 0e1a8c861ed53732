use vstd::prelude::*;

use crate::text::{decimal, digit_value, digits_value, is_digit, lemma_decimal_reads_back};
use vstd::std_specs::iter::IteratorSpec;

verus! {

broadcast use vstd::string::group_string_axioms;

/// Why the two counters could not be taken from an accounting record.
#[derive(Clone, Copy, Debug, PartialEq, Eq)]
pub enum CounterError {
    /// One of `rchar:` and `wchar:` has no readable value in the record.
    NotFound,
}

/// Whether `c` is white space in the sense of Unicode's `White_Space` property.
pub open spec fn is_space(c: char) -> bool {
    c == '\t' || c == '\n' || c == '\u{0B}' || c == '\u{0C}' || c == '\r' || c == ' '
        || c == '\u{85}' || c == '\u{A0}' || c == '\u{1680}' || ('\u{2000}' <= c && c
        <= '\u{200A}') || c == '\u{2028}' || c == '\u{2029}' || c == '\u{202F}' || c
        == '\u{205F}' || c == '\u{3000}'
}

/// The key of a counter line: `first` followed by `char:`.
pub open spec fn counter_key(first: char) -> Seq<char> {
    seq![first, 'c', 'h', 'a', 'r', ':']
}

/// The index of the newline that ends the line starting at `i`, or the
/// length of `s` where no newline follows.
pub open spec fn line_end(s: Seq<char>, i: int) -> int
    decreases s.len() - i,
{
    if i >= s.len() {
        s.len() as int
    } else if s[i] == '\n' {
        i
    } else {
        line_end(s, i + 1)
    }
}

/// The first index in `[i, end)` that holds no white space, or `end`.
pub open spec fn skip_space(s: Seq<char>, i: int, end: int) -> int
    decreases end - i,
{
    if i >= end {
        end
    } else if !is_space(s[i]) {
        i
    } else {
        skip_space(s, i + 1, end)
    }
}

/// The first index in `[i, end)` that holds white space, or `end`.
pub open spec fn skip_word(s: Seq<char>, i: int, end: int) -> int
    decreases end - i,
{
    if i >= end {
        end
    } else if is_space(s[i]) {
        i
    } else {
        skip_word(s, i + 1, end)
    }
}

/// What `u64::from_str` yields for `t`: an optional `+`, then one or more
/// ASCII digits whose value fits in 64 bits.
/// `t` without the one `+` that may lead it.
pub open spec fn unsigned_digits(t: Seq<char>) -> Seq<char> {
    if t.len() > 0 && t[0] == '+' {
        t.drop_first()
    } else {
        t
    }
}

pub open spec fn parse_u64(t: Seq<char>) -> Option<u64> {
    let d = unsigned_digits(t);
    if d.len() > 0 && (forall|k: int| 0 <= k < d.len() ==> is_digit(#[trigger] d[k]))
        && digits_value(d) <= u64::MAX {
        Some(digits_value(d) as u64)
    } else {
        None
    }
}

/// The counters after reading the line `s[a..e]`: a line whose first word is
/// `rchar:` or `wchar:` sets that counter to its second word read as a number,
/// or to nothing where that word is absent or no number.
pub open spec fn apply_line(s: Seq<char>, a: int, e: int, r: Option<u64>, w: Option<u64>) -> (
    Option<u64>,
    Option<u64>,
) {
    let key_start = skip_space(s, a, e);
    let key_end = skip_word(s, key_start, e);
    let value_start = skip_space(s, key_end, e);
    let value_end = skip_word(s, value_start, e);
    let value = if value_start < e {
        parse_u64(s.subrange(value_start, value_end))
    } else {
        None
    };
    let key = s.subrange(key_start, key_end);
    if key == counter_key('r') {
        (value, w)
    } else if key == counter_key('w') {
        (r, value)
    } else {
        (r, w)
    }
}

/// The counters after reading the lines from index `i` on, stopping after
/// the first line at which both are known.
pub open spec fn scan(s: Seq<char>, i: int, r: Option<u64>, w: Option<u64>) -> (
    Option<u64>,
    Option<u64>,
)
    decreases s.len() + 1 - i,
{
    if i < 0 || i >= s.len() {
        (r, w)
    } else {
        let e = line_end(s, i);
        let next = apply_line(s, i, e, r, w);
        if next.0 is Some && next.1 is Some {
            next
        } else {
            proof {
                lemma_line_end_bounds(s, i);
            }
            scan(s, e + 1, next.0, next.1)
        }
    }
}

/// The bytes read and written that an accounting record states, in that order.
pub open spec fn parse_record(s: Seq<char>) -> Result<(u64, u64), CounterError> {
    let found = scan(s, 0, None, None);
    if found.0 is Some && found.1 is Some {
        Ok((found.0->0, found.1->0))
    } else {
        Err(CounterError::NotFound)
    }
}

pub proof fn lemma_line_end_bounds(s: Seq<char>, i: int)
    requires
        0 <= i <= s.len(),
    ensures
        i <= line_end(s, i) <= s.len(),
    decreases s.len() - i,
{
    if i < s.len() && s[i] != '\n' {
        lemma_line_end_bounds(s, i + 1);
    }
}

pub proof fn lemma_skip_bounds(s: Seq<char>, i: int, end: int)
    requires
        i <= end,
    ensures
        i <= skip_space(s, i, end) <= end,
        i <= skip_word(s, i, end) <= end,
    decreases end - i,
{
    if i < end {
        lemma_skip_bounds(s, i + 1, end);
    }
}

fn is_space_char(c: char) -> (r: bool)
    ensures
        r == is_space(c),
{
    c == '\t' || c == '\n' || c == '\u{0B}' || c == '\u{0C}' || c == '\r' || c == ' ' || c
        == '\u{85}' || c == '\u{A0}' || c == '\u{1680}' || ('\u{2000}' <= c && c <= '\u{200A}')
        || c == '\u{2028}' || c == '\u{2029}' || c == '\u{202F}' || c == '\u{205F}' || c
        == '\u{3000}'
}

/// The characters of `text`, in order.
fn chars_of(text: &str) -> (r: Vec<char>)
    ensures
        r@ == text@,
{
    let mut it = text.chars();
    let mut out: Vec<char> = Vec::new();
    loop
        invariant
            out@ + it.remaining() == text@,
            it.decrease() is Some,
        ensures
            out@ == text@,
        decreases it.decrease()->0,
    {
        match it.next() {
            Some(c) => {
                out.push(c);
            },
            None => {
                assert(out@ =~= text@);
                break ;
            },
        }
    }
    out
}

fn find_line_end(s: &Vec<char>, i: usize) -> (e: usize)
    requires
        i <= s@.len(),
    ensures
        e == line_end(s@, i as int),
        i <= e <= s@.len(),
{
    let mut j = i;
    while j < s.len() && s[j] != '\n'
        invariant
            i <= j <= s@.len(),
            line_end(s@, j as int) == line_end(s@, i as int),
        decreases s@.len() - j,
    {
        j = j + 1;
    }
    j
}

fn skip_space_in(s: &Vec<char>, i: usize, end: usize) -> (k: usize)
    requires
        i <= end <= s@.len(),
    ensures
        k == skip_space(s@, i as int, end as int),
        i <= k <= end,
{
    let mut j = i;
    while j < end && is_space_char(s[j])
        invariant
            i <= j <= end <= s@.len(),
            skip_space(s@, j as int, end as int) == skip_space(s@, i as int, end as int),
        decreases end - j,
    {
        j = j + 1;
    }
    j
}

fn skip_word_in(s: &Vec<char>, i: usize, end: usize) -> (k: usize)
    requires
        i <= end <= s@.len(),
    ensures
        k == skip_word(s@, i as int, end as int),
        i <= k <= end,
{
    let mut j = i;
    while j < end && !is_space_char(s[j])
        invariant
            i <= j <= end <= s@.len(),
            skip_word(s@, j as int, end as int) == skip_word(s@, i as int, end as int),
        decreases end - j,
    {
        j = j + 1;
    }
    j
}

/// A longer run of digits never denotes less than its beginning.
pub proof fn lemma_digits_value_grows(d: Seq<char>, k: int)
    requires
        0 <= k <= d.len(),
    ensures
        digits_value(d.subrange(0, k)) <= digits_value(d),
    decreases d.len() - k,
{
    if k < d.len() {
        lemma_digits_value_grows(d, k + 1);
        assert(d.subrange(0, k + 1).drop_last() =~= d.subrange(0, k));
    } else {
        assert(d.subrange(0, k) =~= d);
    }
}

/// Reads `s[a..b]` as `u64::from_str` does.
fn parse_u64_in(s: &Vec<char>, a: usize, b: usize) -> (r: Option<u64>)
    requires
        a <= b <= s@.len(),
    ensures
        r == parse_u64(s@.subrange(a as int, b as int)),
{
    let ghost t = s@.subrange(a as int, b as int);
    let start = if a < b && s[a] == '+' {
        a + 1
    } else {
        a
    };
    let ghost d = s@.subrange(start as int, b as int);
    assert(d =~= unsigned_digits(t));
    if start == b {
        assert(d.len() == 0);
        return None;
    }
    let mut acc: u64 = 0;
    let mut j = start;
    while j < b
        invariant
            start <= j <= b <= s@.len(),
            d == s@.subrange(start as int, b as int),
            d == unsigned_digits(t),
            t == s@.subrange(a as int, b as int),
            forall|k: int| 0 <= k < j - start ==> is_digit(#[trigger] d[k]),
            acc == digits_value(d.subrange(0, j - start)),
        decreases b - j,
    {
        let c = s[j];
        if !('0' <= c && c <= '9') {
            assert(d[j - start] == c);
            assert(!is_digit(d[j - start]));
            return None;
        }
        let dig = (c as u32 - '0' as u32) as u64;
        assert(d.subrange(0, j + 1 - start).drop_last() =~= d.subrange(0, j - start));
        assert(d[j - start] == c);
        if acc > (u64::MAX - dig) / 10 {
            assert(acc * 10 + dig > u64::MAX) by (nonlinear_arith)
                requires
                    acc > (u64::MAX - dig) / 10,
                    dig <= 9,
            ;
            proof {
                let x = d.subrange(0, j + 1 - start);
                assert(x.last() == c);
                assert(digit_value(c) == dig);
                assert(digits_value(x) == acc * 10 + dig);
                lemma_digits_value_grows(d, j + 1 - start);
            }
            return None;
        }
        assert(acc * 10 + dig <= u64::MAX) by (nonlinear_arith)
            requires
                acc <= (u64::MAX - dig) / 10,
                dig <= 9,
        ;
        acc = acc * 10 + dig;
        j = j + 1;
    }
    assert(d.subrange(0, b - start) =~= d);
    Some(acc)
}

/// Whether `s[a..b]` is the counter key that starts with `first`.
fn is_counter_key(s: &Vec<char>, a: usize, b: usize, first: char) -> (r: bool)
    requires
        a <= b <= s@.len(),
    ensures
        r == (s@.subrange(a as int, b as int) == counter_key(first)),
{
    let ghost t = s@.subrange(a as int, b as int);
    let ghost key = counter_key(first);
    if b - a != 6 {
        assert(t.len() != key.len());
        return false;
    }
    let mut k: usize = 0;
    while k < 6
        invariant
            b - a == 6,
            a + 6 <= s@.len(),
            k <= 6,
            t == s@.subrange(a as int, b as int),
            key == counter_key(first),
            forall|m: int| 0 <= m < k ==> t[m] == key[m],
        decreases 6 - k,
    {
        let expected = if k == 0 {
            first
        } else if k == 1 {
            'c'
        } else if k == 2 {
            'h'
        } else if k == 3 {
            'a'
        } else if k == 4 {
            'r'
        } else {
            ':'
        };
        assert(key[k as int] == expected);
        if s[a + k] != expected {
            assert(t[k as int] != key[k as int]);
            return false;
        }
        k = k + 1;
    }
    assert(t =~= key);
    true
}

fn apply_line_in(s: &Vec<char>, a: usize, e: usize, r: Option<u64>, w: Option<u64>) -> (res: (
    Option<u64>,
    Option<u64>,
))
    requires
        a <= e <= s@.len(),
    ensures
        res == apply_line(s@, a as int, e as int, r, w),
{
    let key_start = skip_space_in(s, a, e);
    let key_end = skip_word_in(s, key_start, e);
    let value_start = skip_space_in(s, key_end, e);
    let value_end = skip_word_in(s, value_start, e);
    let value = if value_start < e {
        parse_u64_in(s, value_start, value_end)
    } else {
        None
    };
    if is_counter_key(s, key_start, key_end, 'r') {
        (value, w)
    } else if is_counter_key(s, key_start, key_end, 'w') {
        (r, value)
    } else {
        (r, w)
    }
}

/// Takes the cumulative bytes read (`rchar:`) and written (`wchar:`) from
/// the text of a process's I/O accounting record.
///
/// Each line is split into words at white space. A line whose first word is
/// one of the two keys sets that counter from its second word; scanning
/// stops after the first line at which both are set.
pub fn parse_rchar_wchar(text: &str) -> (r: Result<(u64, u64), CounterError>)
    ensures
        r == parse_record(text@),
{
    let s = chars_of(text);
    let n = s.len();
    let ghost goal = scan(s@, 0, None, None);
    let mut i: usize = 0;
    let mut rchar: Option<u64> = None;
    let mut wchar: Option<u64> = None;
    let mut done = false;
    while i < n && !done
        invariant
            i <= n == s@.len(),
            done == (rchar is Some && wchar is Some),
            done ==> (rchar, wchar) == goal,
            !done ==> scan(s@, i as int, rchar, wchar) == goal,
        decreases n - i + (if done {
            0int
        } else {
            1int
        }),
    {
        let ghost (i0, r0, w0) = (i as int, rchar, wchar);
        let e = find_line_end(&s, i);
        let next = apply_line_in(&s, i, e, rchar, wchar);
        assert(scan(s@, i0, r0, w0) == (if next.0 is Some && next.1 is Some {
            next
        } else {
            scan(s@, e + 1, next.0, next.1)
        }));
        rchar = next.0;
        wchar = next.1;
        done = rchar.is_some() && wchar.is_some();
        if !done {
            if e < n {
                i = e + 1;
            } else {
                i = n;
            }
        }
    }
    match (rchar, wchar) {
        (Some(r), Some(w)) => Ok((r, w)),
        _ => Err(CounterError::NotFound),
    }
}

/// Two texts that agree on `[i, end)` are split into the same words there.
proof fn lemma_skip_agree(s1: Seq<char>, s2: Seq<char>, i: int, end: int)
    requires
        0 <= i <= end,
        end <= s1.len(),
        end <= s2.len(),
        forall|k: int| i <= k < end ==> s1[k] == s2[k],
    ensures
        skip_space(s1, i, end) == skip_space(s2, i, end),
        skip_word(s1, i, end) == skip_word(s2, i, end),
    decreases end - i,
{
    if i < end {
        lemma_skip_agree(s1, s2, i + 1, end);
    }
}

/// Two texts that agree on `[a, e)` read the line there the same way.
proof fn lemma_apply_line_agree(
    s1: Seq<char>,
    s2: Seq<char>,
    a: int,
    e: int,
    r: Option<u64>,
    w: Option<u64>,
)
    requires
        0 <= a <= e,
        e <= s1.len(),
        e <= s2.len(),
        forall|k: int| a <= k < e ==> s1[k] == s2[k],
    ensures
        apply_line(s1, a, e, r, w) == apply_line(s2, a, e, r, w),
{
    let key_start = skip_space(s1, a, e);
    lemma_skip_agree(s1, s2, a, e);
    lemma_skip_bounds(s1, a, e);
    let key_end = skip_word(s1, key_start, e);
    lemma_skip_agree(s1, s2, key_start, e);
    lemma_skip_bounds(s1, key_start, e);
    let value_start = skip_space(s1, key_end, e);
    lemma_skip_agree(s1, s2, key_end, e);
    lemma_skip_bounds(s1, key_end, e);
    let value_end = skip_word(s1, value_start, e);
    lemma_skip_agree(s1, s2, value_start, e);
    lemma_skip_bounds(s1, value_start, e);
    assert(s1.subrange(key_start, key_end) =~= s2.subrange(key_start, key_end));
    assert(s1.subrange(value_start, value_end) =~= s2.subrange(value_start, value_end));
}

/// Appending a newline and more text leaves the end of each line of `a`
/// where it was.
proof fn lemma_line_end_extended(a: Seq<char>, b: Seq<char>, i: int)
    requires
        0 <= i < a.len(),
    ensures
        line_end(a + seq!['\n'] + b, i) == line_end(a, i),
    decreases a.len() - i,
{
    let c = a + seq!['\n'] + b;
    assert(c[i] == a[i]);
    if a[i] != '\n' {
        if i + 1 < a.len() {
            lemma_line_end_extended(a, b, i + 1);
        } else {
            assert(c[i + 1] == '\n');
            assert(line_end(c, i + 1) == i + 1);
            assert(line_end(a, i + 1) == a.len());
        }
    }
}

proof fn lemma_scan_extended(a: Seq<char>, b: Seq<char>, i: int, r: Option<u64>, w: Option<u64>)
    requires
        0 <= i <= a.len(),
        !(r is Some && w is Some),
        scan(a, i, r, w).0 is Some,
        scan(a, i, r, w).1 is Some,
    ensures
        scan(a + seq!['\n'] + b, i, r, w) == scan(a, i, r, w),
    decreases a.len() - i,
{
    let c = a + seq!['\n'] + b;
    if i < a.len() {
        let e = line_end(a, i);
        lemma_line_end_bounds(a, i);
        lemma_line_end_extended(a, b, i);
        assert forall|k: int| i <= k < e implies a[k] == c[k] by {}
        lemma_apply_line_agree(a, c, i, e, r, w);
        let next = apply_line(a, i, e, r, w);
        if !(next.0 is Some && next.1 is Some) {
            if e < a.len() {
                lemma_scan_extended(a, b, e + 1, next.0, next.1);
            }
        }
    }
}

/// Once the lines of `a` have given both counters, whatever follows on
/// later lines, in whatever order, leaves the result as it was.
pub proof fn later_lines_ignored(a: Seq<char>, b: Seq<char>)
    requires
        parse_record(a) is Ok,
    ensures
        parse_record(a + seq!['\n'] + b) == parse_record(a),
{
    lemma_scan_extended(a, b, 0, None, None);
}

/// The line that states counter `first` as `value`: its key, one space and
/// the value in base ten.
pub open spec fn counter_line(first: char, value: u64) -> Seq<char> {
    counter_key(first) + seq![' '] + decimal(value as nat)
}

proof fn lemma_line_end_at(s: Seq<char>, i: int, e: int)
    requires
        0 <= i <= e <= s.len(),
        forall|k: int| i <= k < e ==> s[k] != '\n',
        e == s.len() || s[e] == '\n',
    ensures
        line_end(s, i) == e,
    decreases e - i,
{
    if i < e {
        lemma_line_end_at(s, i + 1, e);
    }
}

proof fn lemma_skip_word_at(s: Seq<char>, i: int, j: int, end: int)
    requires
        0 <= i <= j <= end <= s.len(),
        forall|k: int| i <= k < j ==> !is_space(s[k]),
        j == end || is_space(s[j]),
    ensures
        skip_word(s, i, end) == j,
    decreases j - i,
{
    if i < j {
        lemma_skip_word_at(s, i + 1, j, end);
    }
}

/// Where `s[i..e]` is the line stating counter `first` as `value`, that line
/// ends at `e` and sets that counter to `value`.
proof fn lemma_read_counter_line(
    s: Seq<char>,
    i: int,
    e: int,
    first: char,
    value: u64,
    r: Option<u64>,
    w: Option<u64>,
)
    requires
        first == 'r' || first == 'w',
        0 <= i <= e <= s.len(),
        s.subrange(i, e) == counter_line(first, value),
        e == s.len() || s[e] == '\n',
    ensures
        line_end(s, i) == e,
        apply_line(s, i, e, r, w) == (if first == 'r' {
            (Some(value), w)
        } else {
            (r, Some(value))
        }),
{
    let line = counter_line(first, value);
    let digits = decimal(value as nat);
    lemma_decimal_reads_back(value as nat);
    assert(line.len() == 7 + digits.len());
    assert(e - i == line.len());
    assert(line[6] == ' ');
    assert forall|k: int| 0 <= k < line.len() implies s[i + k] == #[trigger] line[k] by {
        assert(s.subrange(i, e)[k] == s[i + k]);
    }
    assert forall|k: int| 7 <= k < line.len() implies is_digit(#[trigger] line[k]) by {
        assert(line[k] == digits[k - 7]);
    }
    assert forall|k: int| i <= k < e implies s[k] != '\n' && (k != i + 6 ==> !is_space(s[k])) by {
        assert(s[i + (k - i)] == line[k - i]);
        if k >= i + 7 {
            assert(is_digit(line[k - i]));
        }
    }
    lemma_line_end_at(s, i, e);
    assert(s[i + 6] == line[6]);
    lemma_skip_word_at(s, i, i + 6, e);
    lemma_skip_word_at(s, i + 7, e, e);
    assert(skip_space(s, i, e) == i);
    assert(skip_space(s, i + 7, e) == i + 7);
    assert(skip_space(s, i + 6, e) == i + 7);
    assert forall|k: int| 0 <= k < digits.len() implies s.subrange(i + 7, e)[k] == digits[k] by {
        assert(s[i + (k + 7)] == line[k + 7]);
        assert(line[k + 7] == digits[k]);
    }
    assert(s.subrange(i + 7, e) =~= digits);
    assert(unsigned_digits(digits) == digits);
    assert(s.subrange(i, i + 6) =~= counter_key(first));
    if first == 'w' {
        assert(counter_key('w')[0] != counter_key('r')[0]);
    }
}

/// A record of the two counter lines gives both values, whichever comes first.
pub proof fn counters_in_either_order(r: u64, w: u64)
    ensures
        parse_record(counter_line('r', r) + seq!['\n'] + counter_line('w', w)) == Ok::<
            (u64, u64),
            CounterError,
        >((r, w)),
        parse_record(counter_line('w', w) + seq!['\n'] + counter_line('r', r)) == Ok::<
            (u64, u64),
            CounterError,
        >((r, w)),
{
    lemma_two_lines('r', r, 'w', w);
    lemma_two_lines('w', w, 'r', r);
}

proof fn lemma_two_lines(f1: char, v1: u64, f2: char, v2: u64)
    requires
        (f1 == 'r' && f2 == 'w') || (f1 == 'w' && f2 == 'r'),
    ensures
        ({
            let found = scan(counter_line(f1, v1) + seq!['\n'] + counter_line(f2, v2), 0, None, None);
            if f1 == 'r' {
                found == (Some(v1), Some(v2))
            } else {
                found == (Some(v2), Some(v1))
            }
        }),
{
    let a = counter_line(f1, v1);
    let b = counter_line(f2, v2);
    let s = a + seq!['\n'] + b;
    let n1 = a.len() as int;
    assert(s.subrange(0, n1) =~= a);
    assert(s.subrange(n1 + 1, s.len() as int) =~= b);
    assert(s[n1] == '\n');
    let none: Option<u64> = None;
    lemma_read_counter_line(s, 0, n1, f1, v1, none, none);
    let mid = apply_line(s, 0, n1, none, none);
    lemma_read_counter_line(s, n1 + 1, s.len() as int, f2, v2, mid.0, mid.1);
    assert(scan(s, 0, none, none) == scan(s, n1 + 1, mid.0, mid.1));
}

proof fn lemma_scan_keeps_no_write(s: Seq<char>, i: int, r: Option<u64>)
    requires
        0 <= i,
        forall|k: int| 0 <= k && k + 6 <= s.len() ==> #[trigger] s.subrange(k, k + 6) != counter_key('w'),
    ensures
        scan(s, i, r, None).1 is None,
    decreases s.len() + 1 - i,
{
    if i < s.len() {
        let e = line_end(s, i);
        lemma_line_end_bounds(s, i);
        let key_start = skip_space(s, i, e);
        lemma_skip_bounds(s, i, e);
        let key_end = skip_word(s, key_start, e);
        lemma_skip_bounds(s, key_start, e);
        if s.subrange(key_start, key_end) == counter_key('w') {
            assert(s.subrange(key_start, key_end).len() == 6);
            assert(s.subrange(key_start, key_start + 6) == counter_key('w'));
        }
        let next = apply_line(s, i, e, r, None);
        assert(next.1 is None);
        lemma_scan_keeps_no_write(s, e + 1, next.0);
    }
}

/// A record that nowhere holds the key `wchar:` gives no counters.
pub proof fn record_without_wchar_fails(s: Seq<char>)
    requires
        forall|k: int| 0 <= k && k + 6 <= s.len() ==> #[trigger] s.subrange(k, k + 6) != counter_key('w'),
    ensures
        parse_record(s) == Err::<(u64, u64), CounterError>(CounterError::NotFound),
{
    lemma_scan_keeps_no_write(s, 0, None);
}

} // verus!
