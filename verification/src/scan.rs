//! Scanning text: lines, words, substrings, numbers.
//!
//! Text under scan is a sequence of characters; `text::chars_of` gives those of
//! a string.

use vstd::prelude::*;

use crate::text::{digit_char, digits};

verus! {

/// Unicode's `White_Space` property.
pub open spec fn is_space(c: char) -> bool {
    let u = c as u32;
    ||| 0x09 <= u <= 0x0D
    ||| u == 0x20
    ||| u == 0x85
    ||| u == 0xA0
    ||| u == 0x1680
    ||| 0x2000 <= u <= 0x200A
    ||| u == 0x2028
    ||| u == 0x2029
    ||| u == 0x202F
    ||| u == 0x205F
    ||| u == 0x3000
}

/// Whether a character is white space.
pub fn space(c: char) -> (r: bool)
    ensures
        r == is_space(c),
{
    let u: u32 = c as u32;
    (0x09 <= u && u <= 0x0D) || u == 0x20 || u == 0x85 || u == 0xA0 || u == 0x1680 || (0x2000 <= u
        && u <= 0x200A) || u == 0x2028 || u == 0x2029 || u == 0x202F || u == 0x205F || u == 0x3000
}

/// Model of a list of character lists.
pub open spec fn char_lists(v: Seq<Vec<char>>) -> Seq<Seq<char>> {
    Seq::new(v.len(), |i: int| v[i]@)
}

/// The number of white-space characters at the front.
pub open spec fn leading_spaces(s: Seq<char>) -> nat
    decreases s.len(),
{
    if s.len() == 0 || !is_space(s[0]) {
        0
    } else {
        1 + leading_spaces(s.skip(1))
    }
}

/// The number of characters in front of the first white space.
pub open spec fn leading_word(s: Seq<char>) -> nat
    decreases s.len(),
{
    if s.len() == 0 || is_space(s[0]) {
        0
    } else {
        1 + leading_word(s.skip(1))
    }
}

proof fn lemma_leading_bounds(s: Seq<char>)
    ensures
        leading_spaces(s) <= s.len(),
        leading_word(s) <= s.len(),
        s.len() > 0 && !is_space(s[0]) ==> leading_word(s) > 0,
    decreases s.len(),
{
    if s.len() > 0 {
        lemma_leading_bounds(s.skip(1));
    }
}

/// The words of a text: what stands between white space.
pub open spec fn words(s: Seq<char>) -> Seq<Seq<char>>
    decreases s.len(),
    via words_decreases
{
    let t = s.skip(leading_spaces(s) as int);
    if t.len() == 0 {
        Seq::empty()
    } else {
        seq![t.take(leading_word(t) as int)] + words(t.skip(leading_word(t) as int))
    }
}

#[via_fn]
proof fn words_decreases(s: Seq<char>) {
    let t = s.skip(leading_spaces(s) as int);
    lemma_leading_bounds(s);
    lemma_leading_bounds(t);
    lemma_after_spaces(s);
}

/// Behind the leading white space stands none, or nothing.
proof fn lemma_after_spaces(s: Seq<char>)
    ensures
        leading_spaces(s) <= s.len(),
        leading_spaces(s) < s.len() ==> !is_space(s[leading_spaces(s) as int]),
    decreases s.len(),
{
    if s.len() > 0 && is_space(s[0]) {
        lemma_after_spaces(s.skip(1));
    }
}

/// The index behind the white space that starts at `from`.
fn skip_spaces(s: &[char], from: usize) -> (r: usize)
    requires
        from <= s@.len(),
    ensures
        r == from + leading_spaces(s@.skip(from as int)),
        from <= r <= s@.len(),
{
    let mut i: usize = from;
    assert(s@.skip(from as int) =~= s@.skip(i as int));
    while i < s.len() && space(s[i])
        invariant
            from <= i <= s@.len(),
            leading_spaces(s@.skip(from as int)) == (i - from) + leading_spaces(s@.skip(i as int)),
        decreases s@.len() - i,
    {
        assert(s@.skip(i as int).skip(1) =~= s@.skip(i + 1));
        i += 1;
    }
    i
}

/// The index behind the word that starts at `from`.
fn skip_word(s: &[char], from: usize) -> (r: usize)
    requires
        from <= s@.len(),
    ensures
        r == from + leading_word(s@.skip(from as int)),
        from <= r <= s@.len(),
{
    let mut i: usize = from;
    while i < s.len() && !space(s[i])
        invariant
            from <= i <= s@.len(),
            leading_word(s@.skip(from as int)) == (i - from) + leading_word(s@.skip(i as int)),
        decreases s@.len() - i,
    {
        assert(s@.skip(i as int).skip(1) =~= s@.skip(i + 1));
        i += 1;
    }
    i
}

/// Splits a text into its words.
pub fn split_words(s: &[char]) -> (v: Vec<Vec<char>>)
    ensures
        char_lists(v@) == words(s@),
{
    let mut v: Vec<Vec<char>> = Vec::new();
    let mut at: usize = 0;
    assert(s@.skip(0) =~= s@);
    assert(char_lists(v@) + words(s@) =~= words(s@));
    loop
        invariant
            at <= s@.len(),
            char_lists(v@) + words(s@.skip(at as int)) == words(s@),
        decreases s@.len() - at,
    {
        let ghost here = s@.skip(at as int);
        let start: usize = skip_spaces(s, at);
        let ghost t = s@.skip(start as int);
        assert(here.skip(leading_spaces(here) as int) =~= t);
        if start == s.len() {
            assert(words(here) =~= Seq::<Seq<char>>::empty());
            assert(char_lists(v@) =~= words(s@));
            return v;
        }
        let end: usize = skip_word(s, start);
        proof {
            lemma_after_spaces(here);
            lemma_leading_bounds(t);
        }
        let ghost before = v@;
        let word = vstd::slice::slice_to_vec(vstd::slice::slice_subrange(s, start, end));
        assert(word@ =~= t.take(leading_word(t) as int));
        v.push(word);
        assert(t.skip(leading_word(t) as int) =~= s@.skip(end as int));
        assert(char_lists(v@) =~= char_lists(before).push(word@));
        assert(words(here) =~= seq![word@] + words(s@.skip(end as int)));
        assert(char_lists(v@) + words(s@.skip(end as int)) =~= char_lists(before) + words(here));
        at = end;
    }
}

/// The index of the first `c`, or the length where there is none.
pub open spec fn index_of(s: Seq<char>, c: char) -> nat
    decreases s.len(),
{
    if s.len() == 0 || s[0] == c {
        0
    } else {
        1 + index_of(s.skip(1), c)
    }
}

/// The index of the first `c` is that of a `c`, and no `c` stands before it.
pub proof fn lemma_index_of(s: Seq<char>, c: char)
    ensures
        index_of(s, c) <= s.len(),
        index_of(s, c) < s.len() ==> s[index_of(s, c) as int] == c,
        forall|i: int| 0 <= i < index_of(s, c) ==> s[i] != c,
    decreases s.len(),
{
    if s.len() > 0 && s[0] != c {
        let rest = s.skip(1);
        lemma_index_of(rest, c);
        assert forall|i: int| 0 <= i < index_of(s, c) implies s[i] != c by {
            if i > 0 {
                assert(rest[i - 1] == s[i]);
            }
        }
    }
}

/// Finds the first `c` from `from` on: its index, or the length.
pub fn find_char(s: &[char], from: usize, c: char) -> (r: usize)
    requires
        from <= s@.len(),
    ensures
        r == from + index_of(s@.skip(from as int), c),
        from <= r <= s@.len(),
{
    let mut i: usize = from;
    while i < s.len() && s[i] != c
        invariant
            from <= i <= s@.len(),
            index_of(s@.skip(from as int), c) == (i - from) + index_of(s@.skip(i as int), c),
        decreases s@.len() - i,
    {
        assert(s@.skip(i as int).skip(1) =~= s@.skip(i + 1));
        i += 1;
    }
    i
}

/// A line without the carriage return that belongs to its line ending.
pub open spec fn strip_cr(s: Seq<char>) -> Seq<char> {
    if s.len() > 0 && s.last() == '\r' {
        s.drop_last()
    } else {
        s
    }
}

/// The lines of a text. A line ends with a line feed, or with a carriage
/// return and a line feed; the last line ending is optional.
pub open spec fn lines(s: Seq<char>) -> Seq<Seq<char>>
    decreases s.len(),
{
    let n = index_of(s, '\n');
    if s.len() == 0 {
        Seq::empty()
    } else if n >= s.len() {
        seq![s]
    } else {
        seq![strip_cr(s.take(n as int))] + lines(s.skip(n as int + 1))
    }
}

/// Splits a text into its lines.
pub fn split_lines(s: &[char]) -> (v: Vec<Vec<char>>)
    ensures
        char_lists(v@) == lines(s@),
{
    let mut v: Vec<Vec<char>> = Vec::new();
    let mut at: usize = 0;
    assert(s@.skip(0) =~= s@);
    assert(char_lists(v@) + lines(s@) =~= lines(s@));
    while at < s.len()
        invariant
            at <= s@.len(),
            char_lists(v@) + lines(s@.skip(at as int)) == lines(s@),
        decreases s@.len() - at,
    {
        let ghost here = s@.skip(at as int);
        let ghost before = v@;
        let n: usize = find_char(s, at, '\n');
        proof {
            lemma_index_of(here, '\n');
        }
        if n == s.len() {
            let line = vstd::slice::slice_to_vec(vstd::slice::slice_subrange(s, at, n));
            assert(line@ =~= here);
            v.push(line);
            assert(char_lists(v@) =~= char_lists(before).push(line@));
            assert(char_lists(v@) =~= lines(s@));
            return v;
        }
        let end: usize = if n > at && s[n - 1] == '\r' {
            n - 1
        } else {
            n
        };
        let line = vstd::slice::slice_to_vec(vstd::slice::slice_subrange(s, at, end));
        assert(here.take(n - at).len() == n - at);
        assert(n > at ==> here.take(n - at).last() == s@[n - 1]);
        assert(line@ =~= strip_cr(here.take(n - at)));
        v.push(line);
        assert(here.skip(n - at + 1) =~= s@.skip(n + 1));
        assert(char_lists(v@) =~= char_lists(before).push(line@));
        assert(char_lists(v@) + lines(s@.skip(n + 1)) =~= char_lists(before) + lines(here));
        at = n + 1;
    }
    assert(lines(s@.skip(at as int)) =~= Seq::<Seq<char>>::empty());
    assert(char_lists(v@) =~= lines(s@));
    v
}

/// A text without the white space at its end.
pub open spec fn trim_end(s: Seq<char>) -> Seq<char>
    decreases s.len(),
{
    if s.len() > 0 && is_space(s.last()) {
        trim_end(s.drop_last())
    } else {
        s
    }
}

/// A text without the white space at its start and end.
pub open spec fn trim(s: Seq<char>) -> Seq<char> {
    trim_end(s.skip(leading_spaces(s) as int))
}

/// A trimmed copy of a text.
pub fn trimmed(s: &[char]) -> (v: Vec<char>)
    ensures
        v@ == trim(s@),
{
    assert(s@.skip(0) =~= s@);
    let start: usize = skip_spaces(s, 0);
    let mut end: usize = s.len();
    let ghost t = s@.skip(start as int);
    assert(s@.subrange(start as int, end as int) =~= t);
    while end > start && space(s[end - 1])
        invariant
            start <= end <= s@.len(),
            trim_end(t) == trim_end(s@.subrange(start as int, end as int)),
        decreases end,
    {
        let ghost u = s@.subrange(start as int, end as int);
        assert(u.last() == s@[end - 1]);
        assert(u.drop_last() =~= s@.subrange(start as int, end - 1));
        end -= 1;
    }
    let ghost u = s@.subrange(start as int, end as int);
    assert(u.len() > 0 ==> u.last() == s@[end - 1]);
    vstd::slice::slice_to_vec(vstd::slice::slice_subrange(s, start, end))
}

/// The value of a digit in the given base, at most 16.
pub open spec fn digit_value(c: char, base: nat) -> Option<nat> {
    let u = c as u32;
    let d: int = if 0x30 <= u <= 0x39 {
        u - 0x30
    } else if 0x61 <= u <= 0x66 {
        u - 0x61 + 10
    } else if 0x41 <= u <= 0x46 {
        u - 0x41 + 10
    } else {
        16
    };
    if d < base && d < 16 {
        Some(d as nat)
    } else {
        None
    }
}

/// The number that digits stand for, if they all are digits; 0 for none.
pub open spec fn digits_number(s: Seq<char>, base: nat) -> Option<nat>
    decreases s.len(),
{
    if s.len() == 0 {
        Some(0)
    } else {
        match (digits_number(s.drop_last(), base), digit_value(s.last(), base)) {
            (Some(n), Some(d)) => Some(n * base + d),
            _ => None,
        }
    }
}

/// Digits without a leading plus sign.
pub open spec fn strip_plus(s: Seq<char>) -> Seq<char> {
    if s.len() > 0 && s[0] == '+' {
        s.skip(1)
    } else {
        s
    }
}

/// The number that a text stands for: an optional plus sign and at least one
/// digit, and no more than `max`.
pub open spec fn number(s: Seq<char>, base: nat, max: nat) -> Option<nat> {
    let t = strip_plus(s);
    if t.len() == 0 {
        None
    } else {
        match digits_number(t, base) {
            Some(n) => if n <= max {
                Some(n)
            } else {
                None
            },
            None => None,
        }
    }
}

fn digit(c: char, base: u64) -> (r: Option<u64>)
    requires
        base <= 16,
    ensures
        match r {
            Some(d) => d < 16 && digit_value(c, base as nat) == Some(d as nat),
            None => digit_value(c, base as nat) is None,
        },
{
    let u: u32 = c as u32;
    let d: u64 = if 0x30 <= u && u <= 0x39 {
        (u - 0x30) as u64
    } else if 0x61 <= u && u <= 0x66 {
        (u - 0x61 + 10) as u64
    } else if 0x41 <= u && u <= 0x46 {
        (u - 0x41 + 10) as u64
    } else {
        16
    };
    if d < base && d < 16 {
        Some(d)
    } else {
        None
    }
}

/// A number never gets smaller, nor a non-number a number, by more digits.
proof fn lemma_digits_grow(s: Seq<char>, base: nat, k: int)
    requires
        base >= 1,
        0 <= k <= s.len(),
    ensures
        digits_number(s.take(k), base) is None ==> digits_number(s, base) is None,
        digits_number(s, base) is Some && digits_number(s.take(k), base) is Some
            ==> digits_number(s.take(k), base)->Some_0 <= digits_number(s, base)->Some_0,
    decreases s.len(),
{
    if k == s.len() {
        assert(s.take(k) =~= s);
    } else {
        let t = s.drop_last();
        lemma_digits_grow(t, base, k);
        assert(t.take(k) =~= s.take(k));
        if let (Some(n), Some(d)) = (digits_number(t, base), digit_value(s.last(), base)) {
            assert(n <= n * base + d) by (nonlinear_arith)
                requires
                    base >= 1,
                    d >= 0,
            ;
        }
    }
}

/// Reads a number in base 10 or 16.
pub fn parse_number(s: &[char], base: u64, max: u64) -> (r: Option<u64>)
    requires
        base == 10 || base == 16,
        max <= 0xFFFF_FFFF,
    ensures
        match r {
            Some(n) => number(s@, base as nat, max as nat) == Some(n as nat) && n <= max,
            None => number(s@, base as nat, max as nat) is None,
        },
{
    let start: usize = if s.len() > 0 && s[0] == '+' {
        1
    } else {
        0
    };
    let ghost t = strip_plus(s@);
    assert(t =~= s@.skip(start as int));
    if start == s.len() {
        return None;
    }
    let mut n: u64 = 0;
    let mut i: usize = start;
    assert(t.take(0).len() == 0);
    while i < s.len()
        invariant
            base == 10 || base == 16,
            max <= 0xFFFF_FFFF,
            start <= i <= s@.len(),
            t == s@.skip(start as int),
            t == strip_plus(s@),
            start < s@.len(),
            n <= max,
            digits_number(t.take(i - start), base as nat) == Some(n as nat),
        decreases s@.len() - i,
    {
        let ghost k = i - start;
        assert(t.take(k + 1).drop_last() =~= t.take(k));
        assert(t.take(k + 1).last() == s@[i as int]);
        match digit(s[i], base) {
            None => {
                proof {
                    lemma_digits_grow(t, base as nat, k + 1);
                }
                return None;
            },
            Some(d) => {
                assert(n * base <= 0xFFFF_FFFF * 16) by (nonlinear_arith)
                    requires
                        n <= 0xFFFF_FFFF,
                        base <= 16,
                ;
                let m: u64 = n * base + d;
                if m > max {
                    proof {
                        lemma_digits_grow(t, base as nat, k + 1);
                    }
                    return None;
                }
                n = m;
            },
        }
        i += 1;
    }
    assert(t.take(i - start) =~= t);
    Some(n)
}

/// Whether `pat` stands in `s` at index `i`.
pub open spec fn stands_at(s: Seq<char>, pat: Seq<char>, i: int) -> bool {
    0 <= i && i + pat.len() <= s.len() && s.subrange(i, i + pat.len()) == pat
}

/// Whether `pat` stands anywhere in `s`.
pub open spec fn contains_text(s: Seq<char>, pat: Seq<char>) -> bool {
    exists|i: int| stands_at(s, pat, i)
}

/// The first index at which `pat` stands in `s`.
pub open spec fn first_at(s: Seq<char>, pat: Seq<char>, i: int) -> bool {
    stands_at(s, pat, i) && forall|j: int| 0 <= j < i ==> !stands_at(s, pat, j)
}

fn matches_at(s: &[char], pat: &[char], at: usize) -> (r: bool)
    requires
        at <= s@.len(),
    ensures
        r == stands_at(s@, pat@, at as int),
{
    let len: usize = s.len();
    if pat.len() > len - at {
        return false;
    }
    let mut k: usize = 0;
    while k < pat.len()
        invariant
            k <= pat@.len(),
            len == s@.len(),
            at + pat@.len() <= len,
            forall|j: int| 0 <= j < k ==> s@[at + j] == pat@[j],
        decreases pat@.len() - k,
    {
        if s[at + k] != pat[k] {
            assert(s@.subrange(at as int, at + pat@.len())[k as int] != pat@[k as int]);
            return false;
        }
        k += 1;
    }
    assert(s@.subrange(at as int, at + pat@.len()) =~= pat@);
    true
}

/// Finds the first place of `pat` in `s`.
pub fn find_text(s: &[char], pat: &[char]) -> (r: Option<usize>)
    ensures
        match r {
            Some(i) => first_at(s@, pat@, i as int) && i + pat@.len() <= s@.len(),
            None => !contains_text(s@, pat@),
        },
{
    let mut i: usize = 0;
    while i <= s.len()
        invariant
            i <= s@.len() + 1,
            forall|j: int| 0 <= j < i ==> !stands_at(s@, pat@, j),
        decreases s@.len() + 1 - i,
    {
        if matches_at(s, pat, i) {
            return Some(i);
        }
        if i == s.len() {
            return None;
        }
        i += 1;
    }
    None
}

/// What stands behind the first `pat`, if there is one.
pub open spec fn behind(s: Seq<char>, pat: Seq<char>) -> Option<Seq<char>> {
    if contains_text(s, pat) {
        let i = choose|i: int| first_at(s, pat, i);
        Some(s.skip(i + pat.len()))
    } else {
        None
    }
}

/// The first place is unique.
pub proof fn lemma_first_at_unique(s: Seq<char>, pat: Seq<char>, i: int, j: int)
    requires
        first_at(s, pat, i),
        first_at(s, pat, j),
    ensures
        i == j,
{
    if i < j {
        assert(!stands_at(s, pat, i));
    }
    if j < i {
        assert(!stands_at(s, pat, j));
    }
}

/// What stands behind the first `pat` of `s`.
pub fn after_text(s: &[char], pat: &[char]) -> (r: Option<Vec<char>>)
    ensures
        match r {
            Some(v) => behind(s@, pat@) == Some(v@),
            None => behind(s@, pat@) is None,
        },
{
    match find_text(s, pat) {
        None => None,
        Some(i) => {
            let len: usize = s.len();
            assert(i + pat@.len() <= len);
            let v = vstd::slice::slice_to_vec(
                vstd::slice::slice_subrange(s, i + pat.len(), len),
            );
            proof {
                assert(stands_at(s@, pat@, i as int));
                let j = choose|j: int| first_at(s@, pat@, j);
                lemma_first_at_unique(s@, pat@, i as int, j);
                assert(v@ =~= s@.skip(i + pat@.len()));
            }
            Some(v)
        },
    }
}

/// The digits of a number read back as that number.
proof fn lemma_digits_read_back(n: nat, base: nat)
    requires
        base == 10 || base == 16,
    ensures
        digits(n, base).len() > 0,
        digits_number(digits(n, base), base) == Some(n),
        digits(n, base)[0] != '+',
    decreases n,
{
    let s = digits(n, base);
    if n < base {
        assert(s.drop_last() =~= Seq::<char>::empty());
        assert(digit_value(digit_char(n), base) == Some(n));
        assert(s.last() == digit_char(n));
        assert(digits_number(s.drop_last(), base) == Some(0nat));
        assert(0nat * base + n == n) by (nonlinear_arith);
    } else {
        assert(n / base < n) by (nonlinear_arith)
            requires
                base >= 2,
                n >= base,
        ;
        lemma_digits_read_back(n / base, base);
        assert(s.drop_last() =~= digits(n / base, base));
        let d = n % base;
        assert(d < base) by (nonlinear_arith)
            requires
                d == n % base,
                base >= 2,
        ;
        assert(digit_value(digit_char(d), base) == Some(d));
        assert(s.last() == digit_char(d));
        assert((n / base) * base + n % base == n) by (nonlinear_arith)
            requires
                base >= 2,
        ;
    }
}

/// A number that was written in base 10 or 16 reads back as itself.
pub proof fn lemma_number_round_trip(n: nat, base: nat, max: nat)
    requires
        base == 10 || base == 16,
        n <= max,
    ensures
        number(digits(n, base), base, max) == Some(n),
{
    lemma_digits_read_back(n, base);
}

/// Whether one text stands before another: by the first character in which
/// they differ, a text before its own continuations.
pub open spec fn text_less(a: Seq<char>, b: Seq<char>) -> bool
    decreases a.len(),
{
    if b.len() == 0 {
        false
    } else if a.len() == 0 {
        true
    } else {
        a[0] < b[0] || (a[0] == b[0] && text_less(a.skip(1), b.skip(1)))
    }
}

/// Whether one text stands before another.
pub fn text_before(a: &[char], b: &[char]) -> (r: bool)
    ensures
        r == text_less(a@, b@),
{
    let mut i: usize = 0;
    assert(a@.skip(0) =~= a@);
    assert(b@.skip(0) =~= b@);
    while i < a.len() && i < b.len()
        invariant
            i <= a@.len(),
            i <= b@.len(),
            text_less(a@, b@) == text_less(a@.skip(i as int), b@.skip(i as int)),
        decreases a@.len() - i,
    {
        assert(a@.skip(i as int)[0] == a@[i as int]);
        assert(b@.skip(i as int)[0] == b@[i as int]);
        assert(a@.skip(i as int).skip(1) =~= a@.skip(i + 1));
        assert(b@.skip(i as int).skip(1) =~= b@.skip(i + 1));
        if a[i] < b[i] {
            return true;
        }
        if a[i] != b[i] {
            return false;
        }
        i += 1;
    }
    i < b.len()
}

/// Of two different texts just one stands before the other, and none stands
/// before itself.
pub proof fn lemma_text_order_total(a: Seq<char>, b: Seq<char>)
    ensures
        a == b ==> !text_less(a, b),
        a != b ==> (text_less(a, b) <==> !text_less(b, a)),
    decreases a.len(),
{
    if a.len() == 0 || b.len() == 0 {
        if a.len() == b.len() {
            assert(a =~= b);
        }
    } else {
        lemma_text_order_total(a.skip(1), b.skip(1));
        if a[0] == b[0] && a.skip(1) == b.skip(1) {
            assert(a =~= b) by {
                assert forall|i: int| 0 <= i < a.len() implies a[i] == b[i] by {
                    if i > 0 {
                        assert(a.skip(1)[i - 1] == b.skip(1)[i - 1]);
                    }
                }
                assert(a.skip(1).len() == b.skip(1).len());
            }
        }
    }
}

/// A text that stands before one that stands before a third stands before that.
pub proof fn lemma_text_order_transitive(a: Seq<char>, b: Seq<char>, c: Seq<char>)
    requires
        text_less(a, b),
        text_less(b, c),
    ensures
        text_less(a, c),
    decreases a.len(),
{
    if a.len() > 0 && a[0] == b[0] && b[0] == c[0] {
        lemma_text_order_transitive(a.skip(1), b.skip(1), c.skip(1));
    }
}

/// White space is skipped and never part of a word; a word goes on up to the
/// next white space or the end, and the words behind it follow.
pub proof fn lemma_words_by_parts(c: char, word: Seq<char>, rest: Seq<char>)
    ensures
        words(Seq::<char>::empty()) == Seq::<Seq<char>>::empty(),
        is_space(c) ==> words(seq![c] + rest) == words(rest),
        word.len() > 0 && (forall|i: int| 0 <= i < word.len() ==> !is_space(#[trigger] word[i])) && (
        rest.len() == 0 || is_space(rest[0])) ==> words(word + rest) == seq![word] + words(rest),
{
    assert(words(Seq::<char>::empty()) =~= Seq::<Seq<char>>::empty());
    if is_space(c) {
        let s = seq![c] + rest;
        assert(s.skip(1) =~= rest);
        lemma_leading_bounds(rest);
        assert(leading_spaces(s) == 1 + leading_spaces(rest));
        assert(s.skip(leading_spaces(s) as int) =~= rest.skip(leading_spaces(rest) as int));
    }
    if word.len() > 0 && (forall|i: int| 0 <= i < word.len() ==> !is_space(#[trigger] word[i])) && (
    rest.len() == 0 || is_space(rest[0])) {
        let s = word + rest;
        assert(!is_space(word[0]));
        assert(s[0] == word[0]);
        assert(leading_spaces(s) == 0);
        assert(s.skip(0) =~= s);
        lemma_leading_word_is(word, rest);
        assert(s.take(word.len() as int) =~= word);
        assert(s.skip(word.len() as int) =~= rest);
    }
}

proof fn lemma_leading_word_is(word: Seq<char>, rest: Seq<char>)
    requires
        forall|i: int| 0 <= i < word.len() ==> !is_space(#[trigger] word[i]),
        rest.len() == 0 || is_space(rest[0]),
    ensures
        leading_word(word + rest) == word.len(),
    decreases word.len(),
{
    let s = word + rest;
    if word.len() == 0 {
        assert(s =~= rest);
    } else {
        let tail = word.skip(1);
        assert forall|i: int| 0 <= i < tail.len() implies !is_space(#[trigger] tail[i]) by {
            assert(tail[i] == word[i + 1]);
        }
        assert(!is_space(word[0]));
        assert(s[0] == word[0]);
        assert(s.skip(1) =~= tail + rest);
        lemma_leading_word_is(tail, rest);
    }
}

/// White space is what Unicode says it is: of the ASCII characters the space and
/// those from tab to carriage return, and a few beyond.
pub proof fn lemma_white_space(c: char)
    ensures
        (c as u32) < 0x80 ==> (is_space(c) <==> c == ' ' || 9 <= c as u32 <= 13),
        (c as u32) >= 0x80 ==> (is_space(c) <==> c as u32 == 0x85 || c as u32 == 0xA0 || c as u32
            == 0x1680 || 0x2000 <= c as u32 <= 0x200A || 0x2028 <= c as u32 <= 0x2029 || c as u32
            == 0x202F || c as u32 == 0x205F || c as u32 == 0x3000),
{
}

/// A line goes on up to the line feed; a carriage return in front of that
/// belongs to the line ending. What the last line feed leaves is a line of its
/// own, unless it is empty.
pub proof fn lemma_lines_by_parts(line: Seq<char>, rest: Seq<char>)
    requires
        !line.contains('\n'),
    ensures
        lines(Seq::<char>::empty()) == Seq::<Seq<char>>::empty(),
        line.len() > 0 ==> lines(line) == seq![line],
        line.len() == 0 || line.last() != '\r' ==> lines(line + seq!['\n'] + rest) == seq![line]
            + lines(rest),
        lines(line + seq!['\r', '\n'] + rest) == seq![line] + lines(rest),
{
    assert(lines(Seq::<char>::empty()) =~= Seq::<Seq<char>>::empty());
    lemma_index_of(line, '\n');
    if index_of(line, '\n') < line.len() {
        assert(line.contains(line[index_of(line, '\n') as int]));
    }
    let a = line + seq!['\n'] + rest;
    assert(a.take(line.len() as int) =~= line);
    lemma_index_is(a, '\n', line.len() as int, line);
    assert(a.skip(line.len() as int + 1) =~= rest);
    let with_cr = line.push('\r');
    let c = line + seq!['\r', '\n'] + rest;
    assert(!with_cr.contains('\n')) by {
        if with_cr.contains('\n') {
            let i = choose|i: int| 0 <= i < with_cr.len() && with_cr[i] == '\n';
            if i < line.len() {
                assert(line[i] == '\n');
            }
        }
    }
    assert(c.take(with_cr.len() as int) =~= with_cr);
    lemma_index_is(c, '\n', with_cr.len() as int, with_cr);
    assert(with_cr.drop_last() =~= line);
    assert(c.skip(with_cr.len() as int + 1) =~= rest);
}

/// The first place of a character behind a text that does not hold it.
proof fn lemma_index_is(s: Seq<char>, c: char, n: int, front: Seq<char>)
    requires
        0 <= n < s.len(),
        s[n] == c,
        front.len() == n,
        s.take(n) == front,
        !front.contains(c),
    ensures
        index_of(s, c) == n,
{
    lemma_index_of(s, c);
    let k = index_of(s, c);
    if k < n {
        assert(s.take(n)[k as int] == c);
        assert(front.contains(c));
    }
}

/// Trimming takes white space off both ends and nothing else: what is left
/// neither starts nor ends with any, and stands in the text as it is.
pub proof fn lemma_trim(s: Seq<char>)
    ensures
        trim(s).len() > 0 ==> !is_space(trim(s)[0]) && !is_space(trim(s).last()),
        exists|a: int, b: int|
            0 <= a <= b <= s.len() && trim(s) == #[trigger] s.subrange(a, b) && (forall|i: int|
                0 <= i < a || b <= i < s.len() ==> is_space(#[trigger] s[i])),
{
    let a = leading_spaces(s) as int;
    lemma_after_spaces(s);
    lemma_leading_all_spaces(s);
    let t = s.skip(a);
    lemma_trim_end(t);
    let u = trim_end(t);
    let b = a + u.len();
    assert(u =~= s.subrange(a, b)) by {
        assert(u =~= t.take(u.len() as int));
    }
    assert forall|i: int| 0 <= i < a || b <= i < s.len() implies is_space(#[trigger] s[i]) by {
        if i >= b {
            assert(t[i - a] == s[i]);
        }
    }
    if u.len() > 0 {
        assert(u[0] == s[a]);
    }
    assert(trim(s) == s.subrange(a, b));
}

proof fn lemma_leading_all_spaces(s: Seq<char>)
    ensures
        leading_spaces(s) <= s.len(),
        forall|i: int| 0 <= i < leading_spaces(s) ==> is_space(#[trigger] s[i]),
    decreases s.len(),
{
    if s.len() > 0 && is_space(s[0]) {
        let rest = s.skip(1);
        lemma_leading_all_spaces(rest);
        assert forall|i: int| 0 <= i < leading_spaces(s) implies is_space(#[trigger] s[i]) by {
            if i > 0 {
                assert(rest[i - 1] == s[i]);
            }
        }
    }
}

proof fn lemma_trim_end(s: Seq<char>)
    ensures
        trim_end(s).len() <= s.len(),
        trim_end(s) == s.take(trim_end(s).len() as int),
        trim_end(s).len() > 0 ==> !is_space(trim_end(s).last()),
        forall|i: int| trim_end(s).len() <= i < s.len() ==> is_space(#[trigger] s[i]),
    decreases s.len(),
{
    if s.len() > 0 && is_space(s.last()) {
        let head = s.drop_last();
        lemma_trim_end(head);
        assert(head.take(trim_end(s).len() as int) =~= s.take(trim_end(s).len() as int));
        assert forall|i: int| trim_end(s).len() <= i < s.len() implies is_space(
            #[trigger] s[i],
        ) by {
            if i < head.len() {
                assert(head[i] == s[i]);
            }
        }
    } else {
        assert(s.take(s.len() as int) =~= s);
    }
}

/// How numbers are read: a digit behind a number makes it that many times the
/// base and the digit more; a number that is over the limit is none, and so is
/// what holds anything but digits, or no digit at all. One plus sign may lead.
pub proof fn lemma_numbers_by_digits(s: Seq<char>, c: char, base: nat, max: nat)
    requires
        base == 10 || base == 16,
    ensures
        number(Seq::<char>::empty(), base, max) is None,
        number(seq!['+'], base, max) is None,
        c != '+' ==> number(seq![c], base, max) == match digit_value(c, base) {
            Some(d) => if d <= max {
                Some(d)
            } else {
                None
            },
            None => None,
        },
        s.len() > 0 && s[0] != '+' ==> number(s.push(c), base, max) == match (
            digits_number(s, base),
            digit_value(c, base),
        ) {
            (Some(n), Some(d)) => if n * base + d <= max {
                Some(n * base + d)
            } else {
                None
            },
            _ => None,
        },
        s.len() > 0 && s[0] != '+' ==> number(seq!['+'] + s, base, max) == number(s, base, max),
        s.len() > 0 && s[0] != '+' ==> number(s, base, max) == match digits_number(s, base) {
            Some(n) => if n <= max {
                Some(n)
            } else {
                None
            },
            None => None,
        },
        number(seq!['+', '+'] + s, base, max) is None,
{
    assert(strip_plus(seq!['+']).len() == 0);
    if c != '+' {
        let one = seq![c];
        assert(strip_plus(one) == one);
        assert(one.drop_last() =~= Seq::<char>::empty());
        assert(digits_number(one.drop_last(), base) == Some(0nat));
        assert(0nat * base == 0) by (nonlinear_arith);
    }
    if s.len() > 0 && s[0] != '+' {
        let t = s.push(c);
        assert(t[0] == s[0]);
        assert(t.drop_last() =~= s);
        assert(t.last() == c);
        assert(strip_plus(seq!['+'] + s) =~= s);
    }
    let two = seq!['+', '+'] + s;
    let one = strip_plus(two);
    assert(one =~= seq!['+'] + s);
    lemma_digits_grow(one, base, 1);
    assert(one.take(1) =~= seq!['+']);
    assert(seq!['+'].drop_last() =~= Seq::<char>::empty());
    assert(digits_number(seq!['+'], base) is None);
}

/// The digits: 0 to 9, and in base 16 the letters A to F in either case.
pub proof fn lemma_digit_values(c: char)
    ensures
        digit_value(c, 10) is Some <==> '0' as int <= c as int <= '9' as int,
        digit_value(c, 10) is Some ==> digit_value(c, 10)->Some_0 == c as int - '0' as int,
        digit_value(c, 16) is Some <==> '0' as int <= c as int <= '9' as int || 'a' as int
            <= c as int <= 'f' as int || 'A' as int <= c as int <= 'F' as int,
        '0' as int <= c as int <= '9' as int ==> digit_value(c, 16)->Some_0 == c as int
            - '0' as int,
        'a' as int <= c as int <= 'f' as int ==> digit_value(c, 16)->Some_0 == 10 + (c as int
            - 'a' as int),
        'A' as int <= c as int <= 'F' as int ==> digit_value(c, 16)->Some_0 == 10 + (c as int
            - 'A' as int),
{
}

/// A text stands in another where it agrees with it, character by character.
pub proof fn lemma_stands_at(s: Seq<char>, pat: Seq<char>, i: int)
    ensures
        stands_at(s, pat, i) <==> 0 <= i && i + pat.len() <= s.len() && forall|k: int|
            0 <= k < pat.len() ==> #[trigger] pat[k] == s[i + k],
{
    if 0 <= i && i + pat.len() <= s.len() {
        let part = s.subrange(i, i + pat.len());
        if part == pat {
            assert forall|k: int| 0 <= k < pat.len() implies #[trigger] pat[k] == s[i + k] by {
                assert(part[k] == s[i + k]);
            }
        }
        if forall|k: int| 0 <= k < pat.len() ==> #[trigger] pat[k] == s[i + k] {
            assert(part =~= pat);
        }
    }
}

/// What stands behind a text is what follows its first place.
pub proof fn lemma_behind(s: Seq<char>, pat: Seq<char>, i: int)
    requires
        stands_at(s, pat, i),
        forall|j: int| 0 <= j < i ==> !#[trigger] stands_at(s, pat, j),
    ensures
        behind(s, pat) == Some(s.skip(i + pat.len())),
{
    assert(first_at(s, pat, i));
    let j = choose|j: int| first_at(s, pat, j);
    lemma_first_at_unique(s, pat, i, j);
}

/// Where two texts agree up to some place, the one that ends there, or has the
/// smaller character there, stands before the other.
pub proof fn lemma_text_less_by_first_difference(a: Seq<char>, b: Seq<char>, k: int)
    requires
        0 <= k <= a.len(),
        k <= b.len(),
        forall|i: int| 0 <= i < k ==> #[trigger] a[i] == b[i],
    ensures
        k == b.len() ==> !text_less(a, b),
        k == a.len() && k < b.len() ==> text_less(a, b),
        k < a.len() && k < b.len() && a[k] < b[k] ==> text_less(a, b),
        k < a.len() && k < b.len() && a[k] > b[k] ==> !text_less(a, b),
    decreases k,
{
    if k > 0 {
        assert(a[0] == b[0]);
        assert forall|i: int| 0 <= i < k - 1 implies #[trigger] a.skip(1)[i] == b.skip(1)[i] by {
            assert(a[i + 1] == b[i + 1]);
        }
        lemma_text_less_by_first_difference(a.skip(1), b.skip(1), k - 1);
    }
}

/// A text is held by another just where it stands somewhere in it.
pub proof fn lemma_contains_text(s: Seq<char>, pat: Seq<char>, i: int)
    ensures
        stands_at(s, pat, i) ==> contains_text(s, pat),
        contains_text(s, pat) ==> exists|j: int| 0 <= j && #[trigger] stands_at(s, pat, j),
        !contains_text(s, pat) ==> behind(s, pat) is None,
{
}

} // verus!
