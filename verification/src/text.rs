//! Text as sequences of characters: searching, trimming, ordering and number formatting.
use vstd::prelude::*;

verus! {

/// `String::push` appends one character to the end of a string.
pub assume_specification[ String::push ](s: &mut String, c: char)
    ensures
        final(s)@ == old(s)@.push(c),
;

/// What `str::to_lowercase` makes of a text: full Unicode lowercasing, context rules included.
pub uninterp spec fn unicode_lowercase(s: Seq<char>) -> Seq<char>;

/// `str::to_lowercase`: the Unicode lowercase of a text, which depends on the text alone.
#[verifier::external_body]
pub(crate) fn to_lowercase(s: &str) -> (r: String)
    ensures
        r@ == unicode_lowercase(s@),
{
    s.to_lowercase()
}

/// What `String::from_utf8_lossy` makes of bytes: UTF-8, with the replacement character in the
/// place of each invalid sequence.
pub uninterp spec fn utf8_lossy(bytes: Seq<u8>) -> Seq<char>;

/// `String::from_utf8_lossy`: the text of some bytes, which depends on the bytes alone.
#[verifier::external_body]
pub(crate) fn from_utf8_lossy(bytes: &[u8]) -> (r: String)
    ensures
        r@ == utf8_lossy(bytes@),
{
    String::from_utf8_lossy(bytes).into_owned()
}

/// The characters of a text, in order.
pub fn chars_of(s: &str) -> (r: Vec<char>)
    ensures
        r@ == s@,
{
    let mut out: Vec<char> = Vec::new();
    for c in it: s.chars()
        invariant
            out@ == s@.take(it.index()),
            it.seq() == s@,
    {
        out.push(c);
        assert(out@ =~= s@.take(it.index() + 1));
    }
    assert(out@ =~= s@);
    out
}

/// Appends `chars[from..to]` to a string.
pub fn push_chars(out: &mut String, chars: &Vec<char>, from: usize, to: usize)
    requires
        from <= to <= chars@.len(),
    ensures
        final(out)@ == old(out)@ + chars@.subrange(from as int, to as int),
{
    let mut i: usize = from;
    assert(out@ =~= old(out)@ + chars@.subrange(from as int, i as int));
    while i < to
        invariant
            from <= i <= to <= chars@.len(),
            out@ == old(out)@ + chars@.subrange(from as int, i as int),
        decreases to - i,
    {
        out.push(chars[i]);
        i = i + 1;
        assert(out@ =~= old(out)@ + chars@.subrange(from as int, i as int));
    }
}

/// The text `chars[from..to]`.
pub fn text_of(chars: &Vec<char>, from: usize, to: usize) -> (r: String)
    requires
        from <= to <= chars@.len(),
    ensures
        r@ == chars@.subrange(from as int, to as int),
{
    let mut out = String::new();
    push_chars(&mut out, chars, from, to);
    assert(out@ =~= chars@.subrange(from as int, to as int));
    out
}

/// Whether two texts are the same.
pub fn same(a: &str, b: &str) -> (r: bool)
    ensures
        r == (a@ == b@),
{
    a.to_owned() == b.to_owned()
}

/// Whether `p` stands in `s` at position `i`.
pub open spec fn occurs_at(s: Seq<char>, p: Seq<char>, i: int) -> bool {
    0 <= i && i + p.len() <= s.len() && s.subrange(i, i + p.len()) == p
}

/// Whether `p` stands somewhere in `s`.
pub open spec fn occurs(s: Seq<char>, p: Seq<char>) -> bool {
    exists|i: int| occurs_at(s, p, i)
}

/// Whether `s` begins with `p`.
pub open spec fn begins_with(s: Seq<char>, p: Seq<char>) -> bool {
    occurs_at(s, p, 0)
}

/// Whether the characters `p` stand in `s` at position `i`.
pub fn chars_at(s: &Vec<char>, p: &Vec<char>, i: usize) -> (r: bool)
    ensures
        r == occurs_at(s@, p@, i as int),
{
    if i > s.len() || p.len() > s.len() - i {
        return false;
    }
    let len: usize = s.len();
    let mut k: usize = 0;
    while k < p.len()
        invariant
            k <= p@.len(),
            i + p@.len() <= len == s@.len(),
            forall|j: int| 0 <= j < k ==> s@[i + j] == p@[j],
        decreases p@.len() - k,
    {
        if s[i + k] != p[k] {
            assert(s@.subrange(i as int, i + p@.len())[k as int] == s@[i + k]);
            return false;
        }
        k = k + 1;
    }
    assert(s@.subrange(i as int, i + p@.len()) =~= p@);
    true
}

/// Whether `s` begins with `p`.
pub fn starts_with(s: &str, p: &str) -> (r: bool)
    ensures
        r == begins_with(s@, p@),
{
    chars_at(&chars_of(s), &chars_of(p), 0)
}

/// The first position at which `p` stands in `s`.
pub fn find(s: &Vec<char>, p: &Vec<char>) -> (r: Option<usize>)
    ensures
        match r {
            Some(i) => occurs_at(s@, p@, i as int) && forall|j: int|
                0 <= j < i ==> !occurs_at(s@, p@, j),
            None => !occurs(s@, p@),
        },
{
    let mut i: usize = 0;
    while i < s.len()
        invariant
            i <= s@.len(),
            forall|j: int| 0 <= j < i ==> !occurs_at(s@, p@, j),
        decreases s@.len() - i,
    {
        if chars_at(s, p, i) {
            return Some(i);
        }
        i = i + 1;
    }
    if chars_at(s, p, i) {
        return Some(i);
    }
    None
}

/// Whether `p` stands somewhere in `s`.
pub fn contains(s: &str, p: &str) -> (r: bool)
    ensures
        r == occurs(s@, p@),
{
    match find(&chars_of(s), &chars_of(p)) {
        Some(i) => {
            assert(occurs_at(s@, p@, i as int));
            true
        },
        None => false,
    }
}

/// The position of the first `c` in `s`, or the length of `s` where there is none.
pub open spec fn index_of_char(s: Seq<char>, c: char) -> int
    decreases s.len(),
{
    if s.len() == 0 || s[0] == c {
        0
    } else {
        1 + index_of_char(s.drop_first(), c)
    }
}

/// What `index_of_char` finds is the first `c`.
pub proof fn lemma_index_of_char(s: Seq<char>, c: char)
    ensures
        0 <= index_of_char(s, c) <= s.len(),
        index_of_char(s, c) < s.len() ==> s[index_of_char(s, c)] == c,
        forall|j: int| 0 <= j < index_of_char(s, c) ==> s[j] != c,
    decreases s.len(),
{
    if s.len() > 0 && s[0] != c {
        let t = s.drop_first();
        lemma_index_of_char(t, c);
        assert forall|j: int| 0 <= j < index_of_char(s, c) implies s[j] != c by {
            if j > 0 {
                assert(t[j - 1] == s[j]);
            }
        }
    }
}

/// The position of the first `c` among `s[from..]`, or the length of `s` where there is none.
pub fn find_char(s: &Vec<char>, c: char, from: usize) -> (r: usize)
    requires
        from <= s@.len(),
    ensures
        from <= r <= s@.len(),
        r == from + index_of_char(s@.skip(from as int), c),
{
    let mut i: usize = from;
    while i < s.len()
        invariant
            from <= i <= s@.len(),
            from + index_of_char(s@.skip(from as int), c) == i + index_of_char(
                s@.skip(i as int),
                c,
            ),
        decreases s@.len() - i,
    {
        if s[i] == c {
            return i;
        }
        assert(s@.skip(i as int).drop_first() =~= s@.skip(i + 1));
        i = i + 1;
    }
    i
}

/// Unicode's `White_Space` property.
pub open spec fn white_space(c: char) -> bool {
    let u = c as u32;
    ||| 0x09 <= u <= 0x0d
    ||| u == 0x20
    ||| u == 0x85
    ||| u == 0xa0
    ||| u == 0x1680
    ||| 0x2000 <= u <= 0x200a
    ||| u == 0x2028
    ||| u == 0x2029
    ||| u == 0x202f
    ||| u == 0x205f
    ||| u == 0x3000
}

/// Whether a character is white space to Unicode.
pub fn is_white_space(c: char) -> (r: bool)
    ensures
        r == white_space(c),
{
    let u: u32 = c as u32;
    (0x09 <= u && u <= 0x0d) || u == 0x20 || u == 0x85 || u == 0xa0 || u == 0x1680 || (0x2000 <= u
        && u <= 0x200a) || u == 0x2028 || u == 0x2029 || u == 0x202f || u == 0x205f || u == 0x3000
}

/// A text without the white space that it begins with.
pub open spec fn trimmed_start(s: Seq<char>) -> Seq<char>
    decreases s.len(),
{
    if s.len() > 0 && white_space(s[0]) {
        trimmed_start(s.drop_first())
    } else {
        s
    }
}

/// A text without the white space that it ends in.
pub open spec fn trimmed_end(s: Seq<char>) -> Seq<char>
    decreases s.len(),
{
    if s.len() > 0 && white_space(s.last()) {
        trimmed_end(s.drop_last())
    } else {
        s
    }
}

/// A text without the white space around it.
pub open spec fn trimmed(s: Seq<char>) -> Seq<char> {
    trimmed_end(trimmed_start(s))
}

/// A text without the white space around it.
pub fn trim(s: &str) -> (r: String)
    ensures
        r@ == trimmed(s@),
{
    let v = chars_of(s);
    let mut from: usize = 0;
    assert(v@.skip(0) =~= v@);
    while from < v.len() && is_white_space(v[from])
        invariant
            from <= v@.len(),
            trimmed_start(v@) == trimmed_start(v@.skip(from as int)),
        decreases v@.len() - from,
    {
        assert(v@.skip(from as int).drop_first() =~= v@.skip(from + 1));
        from = from + 1;
    }
    let mut to: usize = v.len();
    assert(v@.subrange(from as int, to as int) =~= v@.skip(from as int));
    while to > from && is_white_space(v[to - 1])
        invariant
            from <= to <= v@.len(),
            trimmed(v@) == trimmed_end(v@.subrange(from as int, to as int)),
        decreases to,
    {
        assert(v@.subrange(from as int, to as int).drop_last() =~= v@.subrange(
            from as int,
            to - 1,
        ));
        to = to - 1;
    }
    text_of(&v, from, to)
}

/// A text without the characters of `set` that it ends in.
pub open spec fn without_trailing(s: Seq<char>, set: Seq<char>) -> Seq<char>
    decreases s.len(),
{
    if s.len() > 0 && set.contains(s.last()) {
        without_trailing(s.drop_last(), set)
    } else {
        s
    }
}

/// Whether `c` is among `set`.
pub fn among(set: &[char], c: char) -> (r: bool)
    ensures
        r == set@.contains(c),
{
    let mut i: usize = 0;
    while i < set.len()
        invariant
            i <= set@.len(),
            forall|j: int| 0 <= j < i ==> set@[j] != c,
        decreases set@.len() - i,
    {
        if set[i] == c {
            return true;
        }
        i = i + 1;
    }
    false
}

/// A text without the characters of `set` that it ends in.
pub fn trim_trailing(s: &str, set: &[char]) -> (r: String)
    ensures
        r@ == without_trailing(s@, set@),
{
    let v = chars_of(s);
    let mut to: usize = v.len();
    assert(v@.take(to as int) =~= v@);
    while to > 0 && among(set, v[to - 1])
        invariant
            to <= v@.len(),
            without_trailing(v@, set@) == without_trailing(v@.take(to as int), set@),
        decreases to,
    {
        assert(v@.take(to as int).drop_last() =~= v@.take(to - 1));
        to = to - 1;
    }
    assert(v@.subrange(0, to as int) =~= v@.take(to as int));
    text_of(&v, 0, to)
}

/// An ASCII letter in lower case; any other character as it is.
pub open spec fn ascii_lower(c: char) -> char {
    if 65 <= c as u32 <= 90 {
        ((c as u32 + 32) as u8) as char
    } else {
        c
    }
}

/// A text with its ASCII letters in lower case.
pub open spec fn ascii_lowercase(s: Seq<char>) -> Seq<char> {
    s.map_values(|c: char| ascii_lower(c))
}

/// A text with its ASCII letters in lower case.
pub fn to_ascii_lowercase(s: &str) -> (r: String)
    ensures
        r@ == ascii_lowercase(s@),
{
    let v = chars_of(s);
    let mut out = String::new();
    let mut i: usize = 0;
    assert(out@ =~= ascii_lowercase(v@.take(0)));
    while i < v.len()
        invariant
            i <= v@.len(),
            out@ == ascii_lowercase(v@.take(i as int)),
        decreases v@.len() - i,
    {
        let c = v[i];
        let u: u32 = c as u32;
        let d = if 65 <= u && u <= 90 {
            (u as u8 + 32) as char
        } else {
            c
        };
        out.push(d);
        i = i + 1;
        assert(out@ =~= ascii_lowercase(v@.take(i as int)));
    }
    assert(v@.take(i as int) =~= v@);
    out
}

/// The decimal digit of a number below ten.
pub open spec fn digit(d: nat) -> char {
    ((48 + d) as u8) as char
}

/// A number in decimal.
pub open spec fn decimal(n: nat) -> Seq<char>
    decreases n,
{
    if n < 10 {
        seq![digit(n)]
    } else {
        decimal(n / 10).push(digit(n % 10))
    }
}

/// Appends a number in decimal.
pub fn push_decimal(out: &mut String, n: u64)
    ensures
        final(out)@ == old(out)@ + decimal(n as nat),
    decreases n,
{
    if n >= 10 {
        push_decimal(out, n / 10);
    }
    let d: u8 = (n % 10) as u8;
    out.push((48 + d) as char);
    assert(out@ =~= old(out)@ + decimal(n as nat));
}

/// A number in decimal.
pub fn to_decimal(n: u64) -> (r: String)
    ensures
        r@ == decimal(n as nat),
{
    let mut out = String::new();
    push_decimal(&mut out, n);
    assert(out@ =~= decimal(n as nat));
    out
}

/// Whether a character is an ASCII digit.
pub open spec fn is_digit(c: char) -> bool {
    48 <= c as u32 <= 57
}

/// What an ASCII digit stands for.
pub open spec fn digit_value(c: char) -> nat {
    if is_digit(c) {
        (c as u32 - 48) as nat
    } else {
        0
    }
}

/// The number that decimal digits stand for.
pub open spec fn digits_value(s: Seq<char>) -> nat
    decreases s.len(),
{
    if s.len() == 0 {
        0
    } else {
        digits_value(s.drop_last()) * 10 + digit_value(s.last())
    }
}

/// The digits of a number as it is read: an optional `+` may come before them.
pub open spec fn unsigned_digits(s: Seq<char>) -> Seq<char> {
    if s.len() > 0 && s[0] == '+' {
        s.drop_first()
    } else {
        s
    }
}

/// A text read as an unsigned 64-bit number: an optional `+`, then decimal digits.
pub open spec fn parsed_u64(s: Seq<char>) -> Option<u64> {
    let digits = unsigned_digits(s);
    if digits.len() > 0 && (forall|i: int| 0 <= i < digits.len() ==> is_digit(#[trigger] digits[i]))
        && digits_value(digits) <= u64::MAX {
        Some(digits_value(digits) as u64)
    } else {
        None
    }
}

proof fn lemma_digits_value_grows(s: Seq<char>, k: int)
    requires
        0 <= k <= s.len(),
    ensures
        digits_value(s.take(k)) <= digits_value(s),
    decreases s.len() - k,
{
    if k == s.len() {
        assert(s.take(k) =~= s);
    } else {
        assert(s.take(k + 1).drop_last() =~= s.take(k));
        lemma_digits_value_grows(s, k + 1);
    }
}

/// Reads an unsigned 64-bit number.
pub fn parse_u64(s: &str) -> (r: Option<u64>)
    ensures
        r == parsed_u64(s@),
{
    let v = chars_of(s);
    let start: usize = if v.len() > 0 && v[0] == '+' {
        1
    } else {
        0
    };
    let ghost digits = unsigned_digits(s@);
    assert(digits =~= v@.skip(start as int));
    if start == v.len() {
        return None;
    }
    let mut value: u64 = 0;
    let mut i: usize = start;
    while i < v.len()
        invariant
            start <= i <= v@.len(),
            digits == v@.skip(start as int),
            digits == unsigned_digits(s@),
            value == digits_value(digits.take(i - start)),
            forall|j: int| 0 <= j < i - start ==> is_digit(#[trigger] digits[j]),
        decreases v@.len() - i,
    {
        let u: u32 = v[i] as u32;
        assert(v@[i as int] == digits[i - start]);
        if u < 48 || u > 57 {
            assert(!is_digit(digits[i - start]));
            return None;
        }
        let d: u64 = (u - 48) as u64;
        proof {
            assert(digits.take(i + 1 - start).drop_last() =~= digits.take(i - start));
            lemma_digits_value_grows(digits, i + 1 - start);
        }
        if value > (u64::MAX - d) / 10 {
            assert(value * 10 + d > u64::MAX);
            return None;
        }
        value = value * 10 + d;
        i = i + 1;
    }
    assert(digits.take(i - start) =~= digits);
    Some(value)
}

/// Reading a number back from its decimal form gives the number.
pub proof fn law_decimal_round_trip(n: u64)
    ensures
        parsed_u64(decimal(n as nat)) == Some(n),
{
    lemma_decimal(n as nat);
    let s = decimal(n as nat);
    assert(is_digit(s[0]));
    assert(unsigned_digits(s) == s);
}

proof fn lemma_decimal(n: nat)
    ensures
        decimal(n).len() > 0,
        forall|i: int| 0 <= i < decimal(n).len() ==> is_digit(#[trigger] decimal(n)[i]),
        digits_value(decimal(n)) == n,
    decreases n,
{
    reveal_with_fuel(digits_value, 2);
    if n >= 10 {
        lemma_decimal(n / 10);
        assert(decimal(n).drop_last() =~= decimal(n / 10));
    } else {
        assert(decimal(n).drop_last() =~= Seq::<char>::empty());
    }
}

/// The order of texts: by the first character in which they differ, a prefix first.
pub open spec fn text_le(a: Seq<char>, b: Seq<char>) -> bool
    decreases a.len(),
{
    if a.len() == 0 {
        true
    } else if b.len() == 0 {
        false
    } else if a[0] != b[0] {
        (a[0] as u32) < (b[0] as u32)
    } else {
        text_le(a.drop_first(), b.drop_first())
    }
}

/// Whether `a` comes before `b` or is `b`.
pub fn not_after(a: &str, b: &str) -> (r: bool)
    ensures
        r == text_le(a@, b@),
{
    let x = chars_of(a);
    let y = chars_of(b);
    let mut i: usize = 0;
    assert(x@.skip(0) =~= x@ && y@.skip(0) =~= y@);
    while i < x.len()
        invariant
            i <= x@.len(),
            i <= y@.len(),
            x@ == a@,
            y@ == b@,
            text_le(x@, y@) == text_le(x@.skip(i as int), y@.skip(i as int)),
        decreases x@.len() - i,
    {
        if i == y.len() {
            return false;
        }
        if x[i] != y[i] {
            return (x[i] as u32) < (y[i] as u32);
        }
        assert(x@.skip(i as int).drop_first() =~= x@.skip(i + 1));
        assert(y@.skip(i as int).drop_first() =~= y@.skip(i + 1));
        i = i + 1;
    }
    true
}

/// The order of texts is total, and two texts in order both ways are the same.
pub proof fn lemma_text_le_total(a: Seq<char>, b: Seq<char>)
    ensures
        text_le(a, a),
        text_le(a, b) || text_le(b, a),
        text_le(a, b) && text_le(b, a) ==> a == b,
    decreases a.len(),
{
    if a.len() > 0 {
        lemma_text_le_total(a.drop_first(), a.drop_first());
        if b.len() > 0 {
            lemma_text_le_total(a.drop_first(), b.drop_first());
            vstd::utf8::char_u32_cast(a[0], a[0] as u32);
            vstd::utf8::char_u32_cast(b[0], b[0] as u32);
            if a[0] == b[0] && a.drop_first() == b.drop_first() {
                assert(a =~= seq![a[0]] + a.drop_first());
                assert(b =~= seq![b[0]] + b.drop_first());
            }
        }
    } else if b.len() == 0 {
        assert(a =~= b);
    }
}

/// The order of texts is transitive.
pub proof fn lemma_text_le_transitive(a: Seq<char>, b: Seq<char>, c: Seq<char>)
    requires
        text_le(a, b),
        text_le(b, c),
    ensures
        text_le(a, c),
    decreases a.len(),
{
    if a.len() > 0 && b.len() > 0 && c.len() > 0 && a[0] == b[0] && b[0] == c[0] {
        lemma_text_le_transitive(a.drop_first(), b.drop_first(), c.drop_first());
    }
}

/// Whether a text is made of decimal digits.
pub open spec fn all_digits(s: Seq<char>) -> bool {
    forall|i: int| 0 <= i < s.len() ==> is_digit(#[trigger] s[i])
}

/// A text without the sign before it.
pub open spec fn without_sign(s: Seq<char>) -> Seq<char> {
    if s.len() > 0 && (s[0] == '+' || s[0] == '-') {
        s.skip(1)
    } else {
        s
    }
}

/// Whether a text is a decimal fraction: digits with at most one point among them.
pub open spec fn is_fraction(s: Seq<char>) -> bool {
    let point = index_of_char(s, '.');
    &&& all_digits(s.take(point))
    &&& point < s.len() ==> all_digits(s.skip(point + 1))
    &&& point > 0 || point + 1 < s.len()
}

/// Whether a text is an exponent: digits, with an optional sign before them.
pub open spec fn is_exponent(s: Seq<char>) -> bool {
    without_sign(s).len() > 0 && all_digits(without_sign(s))
}

/// Whether a text reads as a floating-point number, in any case: an optional sign, then a word for
/// an infinity or for no number, or a decimal fraction with an optional exponent.
pub open spec fn is_float_text(s: Seq<char>) -> bool {
    let t = ascii_lowercase(without_sign(s));
    let e = index_of_char(t, 'e');
    ||| t == "inf"@
    ||| t == "infinity"@
    ||| t == "nan"@
    ||| is_fraction(t.take(e)) && (e < t.len() ==> is_exponent(t.skip(e + 1)))
}

fn digits_between(v: &Vec<char>, from: usize, to: usize) -> (r: bool)
    requires
        from <= to <= v@.len(),
    ensures
        r == all_digits(v@.subrange(from as int, to as int)),
{
    let ghost part = v@.subrange(from as int, to as int);
    let mut i: usize = from;
    while i < to
        invariant
            from <= i <= to <= v@.len(),
            part == v@.subrange(from as int, to as int),
            forall|j: int| 0 <= j < i - from ==> is_digit(#[trigger] part[j]),
        decreases to - i,
    {
        let u: u32 = v[i] as u32;
        assert(part[i - from] == v@[i as int]);
        if u < 48 || 57 < u {
            return false;
        }
        i = i + 1;
    }
    true
}

fn fraction_until(v: &Vec<char>, end: usize) -> (r: bool)
    requires
        end <= v@.len(),
    ensures
        r == is_fraction(v@.take(end as int)),
{
    let ghost s = v@.take(end as int);
    let all: usize = find_char(v, '.', 0);
    let point: usize = if all < end {
        all
    } else {
        end
    };
    proof {
        assert(v@.skip(0) =~= v@);
        lemma_index_of_char(v@, '.');
        lemma_index_of_char(s, '.');
        let k = index_of_char(s, '.');
        if k < point {
            assert(v@[k] == s[k]);
        }
        if point < k {
            assert(s[point as int] == v@[point as int]);
        }
        assert(s.take(point as int) =~= v@.subrange(0, point as int));
        if point < end {
            assert(s.skip(point + 1) =~= v@.subrange(point + 1, end as int));
        }
    }
    digits_between(v, 0, point) && (point == end || digits_between(v, point + 1, end)) && (point > 0
        || end - point > 1)
}

/// Whether a text reads as a floating-point number.
pub fn looks_like_float(s: &str) -> (r: bool)
    ensures
        r == is_float_text(s@),
{
    let all = chars_of(s);
    let from: usize = if all.len() > 0 && (all[0] == '+' || all[0] == '-') {
        1
    } else {
        0
    };
    let bare = to_ascii_lowercase(text_of(&all, from, all.len()).as_str());
    assert(all@.subrange(from as int, all@.len() as int) =~= without_sign(s@));
    if same(bare.as_str(), "inf") || same(bare.as_str(), "infinity") || same(
        bare.as_str(),
        "nan",
    ) {
        return true;
    }
    let v = chars_of(bare.as_str());
    assert(v@.skip(0) =~= v@);
    let e: usize = find_char(&v, 'e', 0);
    if !fraction_until(&v, e) {
        return false;
    }
    if e == v.len() {
        return true;
    }
    let ghost exponent = v@.skip(e + 1);
    let digits: usize = if e + 1 < v.len() && (v[e + 1] == '+' || v[e + 1] == '-') {
        e + 2
    } else {
        e + 1
    };
    assert(v@.subrange(digits as int, v@.len() as int) =~= without_sign(exponent));
    digits < v.len() && digits_between(&v, digits, v.len())
}

/// Decimal digits alone read as a floating-point number.
pub proof fn law_digits_are_a_float(s: Seq<char>)
    requires
        s.len() > 0,
        forall|i: int| 0 <= i < s.len() ==> 48 <= (#[trigger] s[i]) as u32 <= 57,
    ensures
        is_float_text(s),
{
    assert(without_sign(s) == s);
    assert(ascii_lowercase(s) =~= s);
    lemma_index_of_char(s, 'e');
    let e = index_of_char(s, 'e');
    assert(e == s.len());
    assert(s.take(e) =~= s);
    lemma_index_of_char(s, '.');
    let point = index_of_char(s, '.');
    assert(point == s.len());
    assert(s.take(point) =~= s);
}

/// What counts as white space, by code point.
pub proof fn law_which_space(c: char)
    ensures
        (c as u32) < 0x80 ==> (white_space(c) <==> c == ' ' || c == '\t' || c == '\n' || c == '\r'
            || c as u32 == 11 || c as u32 == 12),
        0x80 <= c as u32 && (c as u32) < 0x2000 ==> (white_space(c) <==> c as u32 == 0x85 || c as u32 == 0xa0
            || c as u32 == 0x1680),
        c as u32 >= 0x2000 ==> (white_space(c) <==> c as u32 <= 0x200a || c as u32 == 0x2028
            || c as u32 == 0x2029 || c as u32 == 0x202f || c as u32 == 0x205f || c as u32
            == 0x3000),
{
}

proof fn lemma_trim_before(a: Seq<char>, s: Seq<char>)
    requires
        forall|i: int| 0 <= i < a.len() ==> white_space(#[trigger] a[i]),
        s.len() > 0 ==> !white_space(s[0]),
    ensures
        trimmed_start(a + s) == s,
    decreases a.len(),
{
    if a.len() > 0 {
        assert((a + s)[0] == a[0]);
        assert((a + s).drop_first() =~= a.drop_first() + s);
        lemma_trim_before(a.drop_first(), s);
    } else {
        assert(a + s =~= s);
    }
}

proof fn lemma_trim_after(s: Seq<char>, b: Seq<char>)
    requires
        forall|i: int| 0 <= i < b.len() ==> white_space(#[trigger] b[i]),
        s.len() > 0 ==> !white_space(s.last()),
    ensures
        trimmed_end(s + b) == s,
    decreases b.len(),
{
    if b.len() > 0 {
        assert((s + b).last() == b.last());
        assert((s + b).drop_last() =~= s + b.drop_last());
        lemma_trim_after(s, b.drop_last());
    } else {
        assert(s + b =~= s);
    }
}

/// Trimming takes the white space before and after a text away, and nothing else; white space alone
/// is taken away whole.
pub proof fn law_what_is_trimmed(before: Seq<char>, text: Seq<char>, after: Seq<char>)
    requires
        forall|i: int| 0 <= i < before.len() ==> white_space(#[trigger] before[i]),
        forall|i: int| 0 <= i < after.len() ==> white_space(#[trigger] after[i]),
        text.len() > 0 ==> !white_space(text[0]) && !white_space(text.last()),
    ensures
        trimmed(before + text + after) == text,
{
    if text.len() > 0 {
        assert(before + text + after =~= before + (text + after));
        assert((text + after)[0] == text[0]);
        lemma_trim_before(before, text + after);
        lemma_trim_after(text, after);
    } else {
        let all = before + after;
        assert(before + text + after =~= all);
        assert(all + Seq::<char>::empty() =~= all);
        lemma_trim_before(all, Seq::empty());
        assert(text =~= Seq::<char>::empty());
    }
}

/// Taking away what a text ends in takes away all of it, and nothing before.
pub proof fn law_what_is_cut_off(text: Seq<char>, set: Seq<char>, end: Seq<char>)
    requires
        forall|i: int| 0 <= i < end.len() ==> set.contains(#[trigger] end[i]),
        text.len() > 0 ==> !set.contains(text.last()),
    ensures
        without_trailing(text + end, set) == text,
    decreases end.len(),
{
    if end.len() > 0 {
        assert((text + end).last() == end.last());
        assert((text + end).drop_last() =~= text + end.drop_last());
        law_what_is_cut_off(text, set, end.drop_last());
    } else {
        assert(text + end =~= text);
    }
}

/// A text begins with another exactly if it is that text with something after it, and holds another
/// exactly if it is that text with something around it.
pub proof fn law_parts_of_texts(s: Seq<char>, p: Seq<char>, before: Seq<char>, after: Seq<char>)
    ensures
        begins_with(p + after, p),
        begins_with(s, p) ==> s == p + s.skip(p.len() as int),
        occurs(before + p + after, p),
        occurs(s, p) ==> exists|x: Seq<char>, y: Seq<char>| s == #[trigger] (x + p + y),
{
    assert((p + after).subrange(0, p.len() as int) =~= p);
    if begins_with(s, p) {
        assert(s.subrange(0, p.len() as int) + s.skip(p.len() as int) =~= s);
    }
    let n = before.len() as int;
    assert((before + p + after).subrange(n, n + p.len()) =~= p);
    assert(occurs_at(before + p + after, p, n));
    if occurs(s, p) {
        let i = choose|i: int| occurs_at(s, p, i);
        assert(s =~= s.take(i) + p + s.skip(i + p.len()));
    }
}

/// The first of a character stands after the part of a text in which there is none.
pub proof fn law_first_of_character(before: Seq<char>, c: char, after: Seq<char>)
    requires
        !before.contains(c),
    ensures
        index_of_char(before, c) == before.len(),
        index_of_char(before + seq![c] + after, c) == before.len(),
{
    lemma_index_of_char(before, c);
    if index_of_char(before, c) < before.len() {
        assert(before.contains(before[index_of_char(before, c)]));
    }
    let all = before + seq![c] + after;
    lemma_index_of_char(all, c);
    let i = index_of_char(all, c);
    assert(all[before.len() as int] == c);
    if i < before.len() {
        assert(all[i] == before[i]);
        assert(before.contains(before[i]));
    }
}

/// Lower case changes the letters from `A` to `Z`, each to the letter 32 places on, and no other
/// character.
pub proof fn law_lower_case(s: Seq<char>, i: int)
    requires
        0 <= i < s.len(),
    ensures
        ascii_lowercase(s).len() == s.len(),
        65 <= s[i] as u32 <= 90 ==> ascii_lowercase(s)[i] as u32 == s[i] as u32 + 32,
        !(65 <= s[i] as u32 <= 90) ==> ascii_lowercase(s)[i] == s[i],
{
}

/// Texts are in the order of the first characters in which they differ; one that goes on where the
/// other ends comes later.
pub proof fn law_order_of_texts(
    shared: Seq<char>,
    x: char,
    y: char,
    a: Seq<char>,
    b: Seq<char>,
)
    requires
        x != y,
    ensures
        text_le(shared + seq![x] + a, shared + seq![y] + b) <==> (x as u32) < (y as u32),
        text_le(shared, shared + a),
        a.len() > 0 ==> !text_le(shared + a, shared),
    decreases shared.len(),
{
    let s = shared + seq![x] + a;
    let t = shared + seq![y] + b;
    if shared.len() == 0 {
        assert(s[0] == x && t[0] == y);
    } else {
        let rest = shared.drop_first();
        law_order_of_texts(rest, x, y, a, b);
        assert(s[0] == t[0]);
        assert(s.drop_first() =~= rest + seq![x] + a);
        assert(t.drop_first() =~= rest + seq![y] + b);
        assert((shared + a)[0] == shared[0]);
        assert((shared + a).drop_first() =~= rest + a);
    }
}

/// How a number is read: one digit is the digit; another digit after a number makes it ten times as
/// much and adds the digit, as long as that fits; a `+` before it changes nothing; nothing else is
/// a number.
pub proof fn law_how_numbers_are_read(s: Seq<char>, c: char)
    ensures
        parsed_u64(Seq::empty()) is None,
        48 <= c as u32 <= 57 ==> parsed_u64(seq![c]) == Some((c as u32 - 48) as u64),
        parsed_u64(s) is Some && 48 <= c as u32 <= 57 ==> parsed_u64(s.push(c)) == if parsed_u64(
            s,
        )->0 * 10 + (c as u32 - 48) <= u64::MAX {
            Some((parsed_u64(s)->0 * 10 + (c as u32 - 48)) as u64)
        } else {
            None
        },
        !(48 <= c as u32 <= 57) ==> parsed_u64(s.push(c)) is None,
        s.len() > 0 && s[0] != '+' ==> parsed_u64(seq!['+'] + s) == parsed_u64(s),
        parsed_u64(s) is Some ==> forall|i: int|
            0 <= i < s.len() ==> 48 <= (#[trigger] s[i]) as u32 <= 57 || i == 0 && s[0] == '+',
{
    reveal_with_fuel(digits_value, 2);
    if 48 <= c as u32 <= 57 {
        let one = seq![c];
        assert(one.drop_last() =~= Seq::<char>::empty());
        assert(unsigned_digits(one) == one);
        assert(digits_value(one) == digit_value(c));
        assert forall|i: int| 0 <= i < one.len() implies is_digit(#[trigger] one[i]) by {}
    }
    let more = s.push(c);
    let d = unsigned_digits(s);
    if parsed_u64(s) is Some && 48 <= c as u32 <= 57 {
        assert(s.len() > 0);
        assert(unsigned_digits(more) =~= d.push(c));
        assert(d.push(c).drop_last() =~= d);
        assert forall|i: int| 0 <= i < d.push(c).len() implies is_digit(
            #[trigger] d.push(c)[i],
        ) by {
            if i < d.len() {
                assert(is_digit(d[i]));
            }
        }
    }
    if !(48 <= c as u32 <= 57) {
        let e = unsigned_digits(more);
        if e.len() > 0 {
            assert(e[e.len() - 1] == c);
            assert(!is_digit(e[e.len() - 1]));
        }
    }
    if s.len() > 0 && s[0] != '+' {
        assert((seq!['+'] + s).drop_first() =~= s);
    }
    if parsed_u64(s) is Some {
        assert forall|i: int| 0 <= i < s.len() implies 48 <= (#[trigger] s[i]) as u32 <= 57 || i
            == 0 && s[0] == '+' by {
            if s[0] == '+' {
                if i > 0 {
                    assert(is_digit(d[i - 1]));
                }
            } else {
                assert(is_digit(d[i]));
            }
        }
    }
}

/// A number in decimal is made of digits, and does not begin with a zero unless it is zero.
pub proof fn law_decimal_form(n: nat)
    ensures
        decimal(n).len() > 0,
        forall|i: int|
            0 <= i < decimal(n).len() ==> 48 <= (#[trigger] decimal(n)[i]) as u32 <= 57,
        n > 0 ==> decimal(n)[0] as u32 != 48,
        n == 0 ==> decimal(n) == seq!['0'],
    decreases n,
{
    if n >= 10 {
        law_decimal_form(n / 10);
    }
    assert forall|i: int| 0 <= i < decimal(n).len() implies 48 <= (#[trigger] decimal(n)[i]) as u32
        <= 57 by {
        lemma_decimal(n);
        assert(is_digit(decimal(n)[i]));
    }
}

/// Digits with a point among them or after them, and with an exponent after those, read as a
/// floating-point number.
pub proof fn law_fractions_are_floats(a: Seq<char>, b: Seq<char>, x: Seq<char>)
    requires
        a.len() > 0,
        x.len() > 0,
        forall|i: int| 0 <= i < a.len() ==> 48 <= (#[trigger] a[i]) as u32 <= 57,
        forall|i: int| 0 <= i < b.len() ==> 48 <= (#[trigger] b[i]) as u32 <= 57,
        forall|i: int| 0 <= i < x.len() ==> 48 <= (#[trigger] x[i]) as u32 <= 57,
    ensures
        is_float_text(a + seq!['.'] + b),
        is_float_text(a + seq!['.'] + b + seq!['e'] + x),
        is_float_text(a + seq!['.'] + b + seq!['E'] + x),
        is_float_text(seq!['-'] + (a + seq!['.'] + b + seq!['e'] + x)),
{
    let f = a + seq!['.'] + b;
    assert(!a.contains('.'));
    law_first_of_character(a, '.', b);
    assert(f.take(a.len() as int) =~= a);
    assert(f.skip(a.len() as int + 1) =~= b);
    assert(is_fraction(f));
    assert(!f.contains('e')) by {
        assert forall|i: int| 0 <= i < f.len() implies f[i] != 'e' by {
            if i > a.len() {
                assert(f[i] == b[i - a.len() - 1]);
            }
        }
    }
    law_first_of_character(f, 'e', x);
    let t = f + seq!['e'] + x;
    assert(t.take(f.len() as int) =~= f);
    assert(t.skip(f.len() as int + 1) =~= x);
    assert(is_exponent(x));
    assert forall|i: int| 0 <= i < f.len() implies ascii_lower(#[trigger] f[i]) == f[i] by {
        if i > a.len() {
            assert(f[i] == b[i - a.len() - 1]);
        }
    }
    assert(ascii_lowercase(f) =~= f);
    assert(f[0] == a[0]);
    assert(without_sign(f) == f);
    assert(f.take(f.len() as int) =~= f);
    assert(ascii_lowercase(x) =~= x);
    assert(ascii_lower('E') == 'e');
    assert(ascii_lowercase(t) =~= t) by {
        assert(ascii_lower('e') == 'e');
    }
    let u = f + seq!['E'] + x;
    assert(ascii_lowercase(u) =~= t);
    assert(t[0] == a[0] && u[0] == a[0]);
    assert(without_sign(t) == t && without_sign(u) == u);
    let m = seq!['-'] + t;
    assert(m.skip(1) =~= t);
}

/// A text without a digit reads as no floating-point number, unless it is one of the words for
/// infinity and for no number.
pub proof fn law_floats_have_digits(s: Seq<char>)
    requires
        is_float_text(s),
        forall|i: int| 0 <= i < s.len() ==> !(48 <= (#[trigger] s[i]) as u32 <= 57),
    ensures
        ascii_lowercase(without_sign(s)) == "inf"@ || ascii_lowercase(without_sign(s))
            == "infinity"@ || ascii_lowercase(without_sign(s)) == "nan"@,
{
    let w = without_sign(s);
    let t = ascii_lowercase(w);
    assert forall|i: int| 0 <= i < t.len() implies !is_digit(#[trigger] t[i]) by {
        let j = if s.len() > 0 && (s[0] == '+' || s[0] == '-') {
            i + 1
        } else {
            i
        };
        assert(w[i] == s[j]);
    }
    let e = index_of_char(t, 'e');
    lemma_index_of_char(t, 'e');
    let f = t.take(e);
    if is_fraction(f) {
        let point = index_of_char(f, '.');
        lemma_index_of_char(f, '.');
        if point > 0 {
            assert(is_digit(f.take(point)[0]));
            assert(f.take(point)[0] == t[0]);
        } else {
            assert(is_digit(f.skip(point + 1)[0]));
            assert(f.skip(point + 1)[0] == t[point + 1]);
        }
    }
}

} // verus!
