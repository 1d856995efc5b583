//! Text as sequences of characters: building, scanning, numbers.

use vstd::prelude::*;

verus! {

/// `String::push` appends one character.
pub assume_specification[ String::push ](s: &mut String, c: char)
    ensures
        final(s)@ == old(s)@.push(c),
;

/// The character of a digit below 16, letters in lower case.
pub open spec fn digit_char(d: nat) -> char {
    if d < 10 {
        (48 + d) as u8 as char
    } else {
        (87 + d) as u8 as char
    }
}

/// `n` in base `base` without leading zeros.
pub open spec fn digits(n: nat, base: nat) -> Seq<char>
    decreases n,
{
    if base < 2 || n < base {
        seq![digit_char(n)]
    } else {
        proof {
            assert(n / base < n) by (nonlinear_arith)
                requires
                    base >= 2,
                    n >= base,
            ;
        }
        digits(n / base, base).push(digit_char(n % base))
    }
}

/// `n` in decimal.
pub open spec fn dec(n: nat) -> Seq<char> {
    digits(n, 10)
}

/// A signed number in decimal.
pub open spec fn signed_dec(n: int) -> Seq<char> {
    if n < 0 {
        seq!['-'] + dec((-n) as nat)
    } else {
        dec(n as nat)
    }
}

/// `n` in lower-case hexadecimal.
pub open spec fn hex(n: nat) -> Seq<char> {
    digits(n, 16)
}

/// `count` copies of `c`.
pub open spec fn repeated(c: char, count: nat) -> Seq<char> {
    Seq::new(count, |i: int| c)
}

/// `s` with `c` in front until it holds at least `width` characters.
pub open spec fn pad_front(s: Seq<char>, width: nat, c: char) -> Seq<char> {
    repeated(c, (if s.len() < width { width - s.len() } else { 0 }) as nat) + s
}

/// `s` with `c` behind until it holds at least `width` characters.
pub open spec fn pad_back(s: Seq<char>, width: nat, c: char) -> Seq<char> {
    s + repeated(c, (if s.len() < width { width - s.len() } else { 0 }) as nat)
}

/// Appends `s`.
pub fn push_str(out: &mut String, s: &str)
    ensures
        final(out)@ == old(out)@ + s@,
{
    out.append(s);
}

/// Appends `n` in the given base.
fn push_digits(out: &mut String, n: u64, base: u64)
    requires
        2 <= base <= 16,
    ensures
        final(out)@ == old(out)@ + digits(n as nat, base as nat),
    decreases n,
{
    let d: u64 = n % base;
    if n >= base {
        let q: u64 = n / base;
        assert(q < n) by (nonlinear_arith)
            requires
                q == n / base,
                base >= 2,
                n >= base,
        ;
        push_digits(out, q, base);
    }
    assert(d < base) by (nonlinear_arith)
        requires
            d == n % base,
            base >= 2,
    ;
    assert(n < base ==> d == n) by (nonlinear_arith)
        requires
            d == n % base,
            base >= 2,
    ;
    let c: char = if d < 10 {
        (48 + d) as u8 as char
    } else {
        (87 + d) as u8 as char
    };
    out.push(c);
    assert(out@ =~= old(out)@ + digits(n as nat, base as nat));
}

/// Appends `n` in decimal.
pub fn push_dec(out: &mut String, n: u64)
    ensures
        final(out)@ == old(out)@ + dec(n as nat),
{
    push_digits(out, n, 10);
}

/// Appends a signed number in decimal.
pub fn push_signed(out: &mut String, n: i32)
    ensures
        final(out)@ == old(out)@ + signed_dec(n as int),
{
    if n < 0 {
        out.push('-');
        push_digits(out, (-(n as i64)) as u64, 10);
        assert(out@ =~= old(out)@ + signed_dec(n as int));
    } else {
        push_digits(out, n as u64, 10);
    }
}

/// Appends `count` copies of `c`.
pub fn push_repeated(out: &mut String, c: char, count: usize)
    ensures
        final(out)@ == old(out)@ + repeated(c, count as nat),
{
    let mut i: usize = 0;
    while i < count
        invariant
            i <= count,
            out@ == old(out)@ + repeated(c, i as nat),
        decreases count - i,
    {
        out.push(c);
        i += 1;
        assert(out@ =~= old(out)@ + repeated(c, i as nat));
    }
}

/// Appends `n` in hexadecimal, with zeros in front up to `width` characters.
pub fn push_hex(out: &mut String, n: u64, width: usize)
    ensures
        final(out)@ == old(out)@ + pad_front(hex(n as nat), width as nat, '0'),
{
    let mut s = String::new();
    push_digits(&mut s, n, 16);
    assert(s@ =~= hex(n as nat));
    let len: usize = s.as_str().unicode_len();
    if len < width {
        push_repeated(out, '0', width - len);
    }
    push_str(out, s.as_str());
    assert(out@ =~= old(out)@ + pad_front(hex(n as nat), width as nat, '0'));
}

/// Appends `n` in decimal, with zeros in front up to `width` characters.
pub fn push_dec_padded(out: &mut String, n: u64, width: usize)
    ensures
        final(out)@ == old(out)@ + pad_front(dec(n as nat), width as nat, '0'),
{
    let mut s = String::new();
    push_digits(&mut s, n, 10);
    assert(s@ =~= dec(n as nat));
    let len: usize = s.as_str().unicode_len();
    if len < width {
        push_repeated(out, '0', width - len);
    }
    push_str(out, s.as_str());
    assert(out@ =~= old(out)@ + pad_front(dec(n as nat), width as nat, '0'));
}

/// Appends `s`, with spaces behind up to `width` characters.
pub fn push_left(out: &mut String, s: &str, width: usize)
    ensures
        final(out)@ == old(out)@ + pad_back(s@, width as nat, ' '),
{
    let len: usize = s.unicode_len();
    push_str(out, s);
    if len < width {
        push_repeated(out, ' ', width - len);
    }
    assert(out@ =~= old(out)@ + pad_back(s@, width as nat, ' '));
}

/// Bytes in decimal with a comma and a space between them.
pub open spec fn byte_items(b: Seq<u8>) -> Seq<char>
    decreases b.len(),
{
    if b.len() == 0 {
        Seq::empty()
    } else if b.len() == 1 {
        dec(b[0] as nat)
    } else {
        byte_items(b.drop_last()) + ", "@ + dec(b.last() as nat)
    }
}

/// Bytes as a list in square brackets.
pub open spec fn byte_list(b: Seq<u8>) -> Seq<char> {
    "["@ + byte_items(b) + "]"@
}

/// Appends bytes as a list in square brackets.
pub fn push_byte_list(out: &mut String, b: &[u8])
    ensures
        final(out)@ == old(out)@ + byte_list(b@),
{
    push_str(out, "[");
    let ghost start = out@;
    let mut i: usize = 0;
    assert(out@ =~= start + byte_items(b@.take(0)));
    while i < b.len()
        invariant
            i <= b@.len(),
            out@ == start + byte_items(b@.take(i as int)),
        decreases b@.len() - i,
    {
        if i > 0 {
            push_str(out, ", ");
        }
        push_dec(out, b[i] as u64);
        assert(b@.take(i + 1).drop_last() =~= b@.take(i as int));
        i += 1;
        assert(out@ =~= start + byte_items(b@.take(i as int)));
    }
    assert(b@.take(i as int) =~= b@);
    push_str(out, "]");
    assert(out@ =~= old(out)@ + byte_list(b@));
}

/// Bytes as two hexadecimal digits each, in lower case.
pub open spec fn hex_bytes(b: Seq<u8>) -> Seq<char>
    decreases b.len(),
{
    if b.len() == 0 {
        Seq::empty()
    } else {
        hex_bytes(b.drop_last()) + pad_front(hex(b.last() as nat), 2, '0')
    }
}

/// Encodes bytes as two hexadecimal digits each.
pub fn hex_encode(b: &[u8]) -> (s: String)
    ensures
        s@ == hex_bytes(b@),
{
    let mut s = String::new();
    let mut i: usize = 0;
    assert(s@ =~= hex_bytes(b@.take(0)));
    while i < b.len()
        invariant
            i <= b@.len(),
            s@ == hex_bytes(b@.take(i as int)),
        decreases b@.len() - i,
    {
        push_hex(&mut s, b[i] as u64, 2);
        assert(b@.take(i + 1).drop_last() =~= b@.take(i as int));
        i += 1;
    }
    assert(b@.take(i as int) =~= b@);
    s
}

/// `true` or `false`.
pub open spec fn bool_text(b: bool) -> Seq<char> {
    if b {
        "true"@
    } else {
        "false"@
    }
}

/// Appends `true` or `false`.
pub fn push_bool(out: &mut String, b: bool)
    ensures
        final(out)@ == old(out)@ + bool_text(b),
{
    if b {
        push_str(out, "true");
    } else {
        push_str(out, "false");
    }
}

/// The text that std's `{:?}` gives for a string: quotes around it, escapes
/// where it needs them.
pub uninterp spec fn quoted(s: Seq<char>) -> Seq<char>;

/// `format!("{:?}", s)` on a string. The contract only names its result.
#[verifier::external_body]
pub(crate) fn quote(s: &str) -> (r: String)
    ensures
        r@ == quoted(s@),
{
    format!("{:?}", s)
}

/// The characters of a string.
pub fn chars_of(s: &str) -> (v: Vec<char>)
    ensures
        v@ == s@,
{
    let mut v: Vec<char> = Vec::new();
    for c in it: s.chars()
        invariant
            v@ == it.seq().take(it.index() as int),
            it.seq() == s@,
    {
        v.push(c);
    }
    assert(v@ =~= s@);
    v
}

/// The string of the given characters.
pub fn string_of(v: &[char]) -> (s: String)
    ensures
        s@ == v@,
{
    let mut s = String::new();
    let mut i: usize = 0;
    while i < v.len()
        invariant
            i <= v@.len(),
            s@ == v@.take(i as int),
        decreases v@.len() - i,
    {
        s.push(v[i]);
        i += 1;
        assert(s@ =~= v@.take(i as int));
    }
    assert(s@ =~= v@);
    s
}

/// Model of an optional string.
pub open spec fn opt_text(o: Option<String>) -> Option<Seq<char>> {
    match o {
        Some(s) => Some(s@),
        None => None,
    }
}

/// Model of a list of strings.
pub open spec fn texts(v: Seq<String>) -> Seq<Seq<char>> {
    Seq::new(v.len(), |i: int| v[i]@)
}

/// A copy of an optional string.
pub fn clone_opt(o: &Option<String>) -> (r: Option<String>)
    ensures
        opt_text(r) == opt_text(*o),
{
    match o {
        Some(s) => Some(s.clone()),
        None => None,
    }
}

/// A copy of a list of strings.
pub fn clone_texts(v: &Vec<String>) -> (r: Vec<String>)
    ensures
        texts(r@) == texts(v@),
{
    let mut r: Vec<String> = Vec::new();
    let mut i: usize = 0;
    while i < v.len()
        invariant
            i <= v@.len(),
            r@.len() == i,
            forall|j: int| 0 <= j < i ==> (#[trigger] r@[j])@ == v@[j]@,
        decreases v@.len() - i,
    {
        r.push(v[i].clone());
        i += 1;
    }
    assert(texts(r@) =~= texts(v@));
    r
}

/// Whether two texts are the same.
pub fn same_text(a: &str, b: &str) -> (r: bool)
    ensures
        r == (a@ == b@),
{
    let x = chars_of(a);
    let y = chars_of(b);
    if x.len() != y.len() {
        return false;
    }
    let mut i: usize = 0;
    while i < x.len()
        invariant
            i <= x@.len(),
            x@.len() == y@.len(),
            x@ == a@,
            y@ == b@,
            forall|j: int| 0 <= j < i ==> x@[j] == y@[j],
        decreases x@.len() - i,
    {
        if x[i] != y[i] {
            return false;
        }
        i += 1;
    }
    assert(a@ =~= b@);
    true
}

/// Decimal and hexadecimal numbers have their digits in order, the last being
/// that of the ones, and no leading zero: ten times a number and a digit more is
/// written as the number and that digit behind it.
pub proof fn lemma_numerals(n: nat, d: nat)
    ensures
        d < 10 ==> dec(d).len() == 1 && dec(d)[0] as int == '0' as int + d,
        n > 0 && d < 10 ==> dec(10 * n + d) == dec(n) + dec(d),
        d < 10 ==> hex(d) == dec(d),
        10 <= d < 16 ==> hex(d).len() == 1 && hex(d)[0] as int == 'a' as int + (d - 10),
        n > 0 && d < 16 ==> hex(16 * n + d) == hex(n) + hex(d),
{
    if n > 0 && d < 10 {
        assert((10 * n + d) / 10 == n && (10 * n + d) % 10 == d);
        assert(dec(10 * n + d) =~= dec(n) + dec(d));
    }
    if n > 0 && d < 16 {
        assert((16 * n + d) / 16 == n && (16 * n + d) % 16 == d);
        assert(hex(16 * n + d) =~= hex(n) + hex(d));
    }
}

/// A negative number is the one without its sign behind a minus.
pub proof fn lemma_signed_numerals(n: nat)
    ensures
        signed_dec(n as int) == dec(n),
        n > 0 ==> signed_dec(-(n as int)).len() == 1 + dec(n).len() && signed_dec(-(n as int))[0]
            == '-' && signed_dec(-(n as int)).skip(1) == dec(n),
{
    if n > 0 {
        assert(signed_dec(-(n as int)).skip(1) =~= dec(n));
    }
}

/// Padding fills up to the width and no further; the text itself stays whole, at
/// the end or at the front.
pub proof fn lemma_padding(s: Seq<char>, width: nat, c: char)
    ensures
        ({
            let p = pad_front(s, width, c);
            let n = p.len() - s.len();
            &&& p.len() == if s.len() < width {
                width
            } else {
                s.len()
            }
            &&& forall|i: int| 0 <= i < n ==> #[trigger] p[i] == c
            &&& forall|i: int| 0 <= i < s.len() ==> #[trigger] s[i] == p[n + i]
        }),
        ({
            let p = pad_back(s, width, c);
            &&& p.len() == if s.len() < width {
                width
            } else {
                s.len()
            }
            &&& forall|i: int| s.len() <= i < p.len() ==> #[trigger] p[i] == c
            &&& forall|i: int| 0 <= i < s.len() ==> #[trigger] s[i] == p[i]
        }),
{
}

/// Each byte is two digits, the high one first: the digits of byte `i` stand at
/// `2 * i`.
pub proof fn lemma_hex_bytes(b: Seq<u8>, i: int)
    requires
        0 <= i < b.len(),
    ensures
        hex_bytes(b).len() == 2 * b.len(),
        hex_bytes(b)[2 * i] == hex((b[i] / 16) as nat)[0],
        hex_bytes(b)[2 * i + 1] == hex((b[i] % 16) as nat)[0],
    decreases b.len(),
{
    let head = b.drop_last();
    let last = b.last();
    let two = pad_front(hex(last as nat), 2, '0');
    lemma_numerals((last / 16) as nat, (last % 16) as nat);
    lemma_numerals(0, (last % 16) as nat);
    lemma_numerals(0, (last / 16) as nat);
    lemma_padding(hex(last as nat), 2, '0');
    assert(16 * (last / 16) + last % 16 == last);
    assert(two.len() == 2);
    assert(two[0] == hex((last / 16) as nat)[0]);
    assert(two[1] == hex((last % 16) as nat)[0]);
    lemma_hex_bytes_len(head);
    if i < head.len() {
        lemma_hex_bytes(head, i);
        assert(head[i] == b[i]);
    }
}

proof fn lemma_hex_bytes_len(b: Seq<u8>)
    ensures
        hex_bytes(b).len() == 2 * b.len(),
    decreases b.len(),
{
    if b.len() > 0 {
        lemma_hex_bytes_len(b.drop_last());
        let last = b.last();
        lemma_numerals((last / 16) as nat, (last % 16) as nat);
        lemma_numerals(0, (last % 16) as nat);
        lemma_numerals(0, (last / 16) as nat);
        assert(16 * (last / 16) + last % 16 == last);
    }
}

/// A list of bytes is written in brackets, with a comma and a space between each
/// two.
pub proof fn lemma_byte_list(b: Seq<u8>, next: u8)
    ensures
        byte_list(Seq::<u8>::empty()) == "["@ + "]"@,
        byte_list(seq![next]) == "["@ + dec(next as nat) + "]"@,
        b.len() > 0 ==> byte_list(b.push(next)) == "["@ + byte_items(b) + ", "@ + dec(next as nat)
            + "]"@,
{
    assert(byte_list(Seq::<u8>::empty()) =~= "["@ + "]"@);
    assert(seq![next].len() == 1);
    if b.len() > 0 {
        assert(b.push(next).drop_last() =~= b);
        assert(byte_list(b.push(next)) =~= "["@ + byte_items(b) + ", "@ + dec(next as nat) + "]"@);
    }
}

/// Repeating a character gives as many of it as asked for.
pub proof fn lemma_repeated(c: char, count: nat)
    ensures
        repeated(c, count).len() == count,
        forall|i: int| 0 <= i < count ==> #[trigger] repeated(c, count)[i] == c,
{
}

} // verus!
