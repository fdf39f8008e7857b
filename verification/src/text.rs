//! Text as a sequence of characters: the few string operations that the rest
//! of the library is built from, each with its meaning stated over `Seq<char>`.

#![verifier::loop_isolation(false)]

use vstd::prelude::*;
use vstd::string::*;
use vstd::utf8::encode_utf8;

verus! {

broadcast use vstd::string::group_string_axioms;

/// `String::push` appends one character at the end.
pub assume_specification[ String::push ](s: &mut String, c: char)
    ensures
        final(s)@ == old(s)@.push(c),
;

// ---------------------------------------------------------------------------
// Characters
// ---------------------------------------------------------------------------

/// The characters with the Unicode property `White_Space`.
pub open spec fn is_white(c: char) -> bool {
    let code = c as u32;
    ||| 0x09 <= code <= 0x0d
    ||| code == 0x20
    ||| code == 0x85
    ||| code == 0xa0
    ||| code == 0x1680
    ||| 0x2000 <= code <= 0x200a
    ||| code == 0x2028
    ||| code == 0x2029
    ||| code == 0x202f
    ||| code == 0x205f
    ||| code == 0x3000
}

/// Whether `c` is white space.
pub fn char_is_white(c: char) -> (r: bool)
    ensures
        r == is_white(c),
{
    let code: u32 = c as u32;
    (0x09 <= code && code <= 0x0d) || code == 0x20 || code == 0x85 || code == 0xa0 || code == 0x1680
        || (0x2000 <= code && code <= 0x200a) || code == 0x2028 || code == 0x2029 || code == 0x202f
        || code == 0x205f || code == 0x3000
}

/// The white space that ASCII text knows: tab, line feed, form feed, carriage
/// return and space.
pub open spec fn is_ascii_white(c: char) -> bool {
    c == '\t' || c == '\n' || c == '\u{c}' || c == '\r' || c == ' '
}

/// The lower-case form of an ASCII letter; any other character stays as it is.
pub open spec fn ascii_lower(c: char) -> char {
    if 'A' <= c <= 'Z' {
        ((c as u8 + 32) as u8) as char
    } else {
        c
    }
}

/// Lower-cases one ASCII letter.
pub fn char_ascii_lower(c: char) -> (r: char)
    ensures
        r == ascii_lower(c),
{
    if 'A' <= c && c <= 'Z' {
        let code: u8 = c as u8;
        (code + 32) as char
    } else {
        c
    }
}

// ---------------------------------------------------------------------------
// Conversion between text and characters
// ---------------------------------------------------------------------------

/// The characters of `text`, in order.
pub fn chars_of(text: &str) -> (r: Vec<char>)
    ensures
        r@ == text@,
{
    let mut out: Vec<char> = Vec::new();
    for c in it: text.chars()
        invariant
            out@ == it.seq().take(it.index() as int),
            it.seq() == text@,
    {
        out.push(c);
    }
    out
}

/// The text made of the characters `chars[from..to]`.
pub fn text_between(chars: &Vec<char>, from: usize, to: usize) -> (r: String)
    requires
        from <= to <= chars@.len(),
    ensures
        r@ == chars@.subrange(from as int, to as int),
{
    let mut out = String::new();
    let mut i: usize = from;
    while i < to
        invariant
            from <= i <= to <= chars@.len(),
            out@ == chars@.subrange(from as int, i as int),
        decreases to - i,
    {
        out.push(chars[i]);
        i = i + 1;
        assert(chars@.subrange(from as int, i as int) =~= chars@.subrange(
            from as int,
            i - 1,
        ).push(chars@[i - 1]));
    }
    out
}

/// The text made of `chars`.
pub fn text_of(chars: &Vec<char>) -> (r: String)
    ensures
        r@ == chars@,
{
    let r = text_between(chars, 0, chars.len());
    assert(chars@.subrange(0, chars@.len() as int) =~= chars@);
    r
}

/// Whether two texts hold the same characters.
pub fn same(a: &str, b: &str) -> (r: bool)
    ensures
        r == (a@ == b@),
{
    let x = chars_of(a);
    let y = chars_of(b);
    same_chars(&x, &y)
}

/// Whether two vectors hold the same characters.
pub fn same_chars(x: &Vec<char>, y: &Vec<char>) -> (r: bool)
    ensures
        r == (x@ == y@),
{
    if x.len() != y.len() {
        return false;
    }
    let mut i: usize = 0;
    while i < x.len()
        invariant
            i <= x@.len(),
            x@.len() == y@.len(),
            x@.take(i as int) == y@.take(i as int),
        decreases x@.len() - i,
    {
        if x[i] != y[i] {
            assert(x@[i as int] != y@[i as int]);
            return false;
        }
        assert(x@.take(i + 1) =~= x@.take(i as int).push(x@[i as int]));
        assert(y@.take(i + 1) =~= y@.take(i as int).push(y@[i as int]));
        i = i + 1;
    }
    assert(x@.take(i as int) =~= x@);
    assert(y@.take(i as int) =~= y@);
    true
}

// ---------------------------------------------------------------------------
// Length
// ---------------------------------------------------------------------------

/// The number of bytes that `s` takes in UTF-8.
pub open spec fn utf8_len(s: Seq<char>) -> nat {
    encode_utf8(s).len()
}

/// The number of bytes of `text` in UTF-8.
pub fn byte_len(text: &str) -> (r: usize)
    ensures
        r == utf8_len(text@),
{
    text.as_bytes().len()
}

/// The number of characters of `text`.
pub fn char_len(text: &str) -> (r: usize)
    ensures
        r == text@.len(),
{
    text.unicode_len()
}

/// The first `count` characters of `s`, or all of it where it has fewer.
pub open spec fn first_chars(s: Seq<char>, count: nat) -> Seq<char> {
    if s.len() <= count {
        s
    } else {
        s.take(count as int)
    }
}

/// The first `count` characters of `text`.
pub fn take_chars(text: &str, count: usize) -> (r: String)
    ensures
        r@ == first_chars(text@, count as nat),
{
    let chars = chars_of(text);
    if chars.len() <= count {
        text_of(&chars)
    } else {
        text_between(&chars, 0, count)
    }
}

// ---------------------------------------------------------------------------
// Trimming
// ---------------------------------------------------------------------------

/// `s` without the white space at its start.
pub open spec fn trim_start(s: Seq<char>) -> Seq<char>
    decreases s.len(),
{
    if s.len() > 0 && is_white(s[0]) {
        trim_start(s.skip(1))
    } else {
        s
    }
}

/// `s` without the white space at its end.
pub open spec fn trim_end(s: Seq<char>) -> Seq<char>
    decreases s.len(),
{
    if s.len() > 0 && is_white(s.last()) {
        trim_end(s.drop_last())
    } else {
        s
    }
}

/// `s` without the white space around it.
pub open spec fn trim(s: Seq<char>) -> Seq<char> {
    trim_end(trim_start(s))
}

/// Removes the white space around `text`.
pub fn trimmed(text: &str) -> (r: String)
    ensures
        r@ == trim(text@),
{
    let chars = chars_of(text);
    let mut from: usize = 0;
    assert(chars@.skip(0) =~= chars@);
    while from < chars.len() && char_is_white(chars[from])
        invariant
            from <= chars@.len(),
            trim_start(chars@) == trim_start(chars@.skip(from as int)),
        decreases chars@.len() - from,
    {
        assert(chars@.skip(from as int).skip(1) =~= chars@.skip(from + 1));
        assert(chars@.skip(from as int)[0] == chars@[from as int]);
        from = from + 1;
    }
    let ghost rest = chars@.skip(from as int);
    assert(trim_start(chars@) == rest) by {
        if rest.len() > 0 {
            assert(rest[0] == chars@[from as int]);
        }
    }
    let mut to: usize = chars.len();
    assert(chars@.subrange(from as int, to as int) =~= rest);
    while to > from && char_is_white(chars[to - 1])
        invariant
            from <= to <= chars@.len(),
            trim_end(rest) == trim_end(chars@.subrange(from as int, to as int)),
        decreases to,
    {
        assert(chars@.subrange(from as int, to as int).drop_last() =~= chars@.subrange(
            from as int,
            to - 1,
        ));
        to = to - 1;
    }
    text_between(&chars, from, to)
}

/// `s` without the occurrences of `c` at its end.
pub open spec fn trim_end_of(s: Seq<char>, c: char) -> Seq<char>
    decreases s.len(),
{
    if s.len() > 0 && s.last() == c {
        trim_end_of(s.drop_last(), c)
    } else {
        s
    }
}

/// Removes the occurrences of `c` at the end of `text`.
pub fn without_trailing(text: &str, c: char) -> (r: String)
    ensures
        r@ == trim_end_of(text@, c),
{
    let chars = chars_of(text);
    let mut to: usize = chars.len();
    assert(chars@.take(to as int) =~= chars@);
    while to > 0 && chars[to - 1] == c
        invariant
            to <= chars@.len(),
            trim_end_of(chars@, c) == trim_end_of(chars@.take(to as int), c),
        decreases to,
    {
        assert(chars@.take(to as int).drop_last() =~= chars@.take(to - 1));
        to = to - 1;
    }
    assert(chars@.take(to as int) =~= chars@.subrange(0, to as int));
    text_between(&chars, 0, to)
}

// ---------------------------------------------------------------------------
// Searching
// ---------------------------------------------------------------------------

/// Whether `c` occurs in `text`.
pub fn contains_char(text: &str, c: char) -> (r: bool)
    ensures
        r == text@.contains(c),
{
    let chars = chars_of(text);
    let mut i: usize = 0;
    while i < chars.len()
        invariant
            i <= chars@.len(),
            forall|j: int| 0 <= j < i ==> chars@[j] != c,
        decreases chars@.len() - i,
    {
        if chars[i] == c {
            assert(chars@[i as int] == c);
            return true;
        }
        i = i + 1;
    }
    false
}

/// Whether a line break or a zero character occurs in `s`.
pub open spec fn breaks_line(s: Seq<char>) -> bool {
    s.contains('\r') || s.contains('\n') || s.contains('\0')
}

/// Whether a line break or a zero character occurs in `text`.
pub fn has_break(text: &str) -> (r: bool)
    ensures
        r == breaks_line(text@),
{
    contains_char(text, '\r') || contains_char(text, '\n') || contains_char(text, '\0')
}

/// Whether `needle` stands in `s` at position `at`.
pub open spec fn occurs_at(s: Seq<char>, needle: Seq<char>, at: int) -> bool {
    0 <= at && at + needle.len() <= s.len() && s.subrange(at, at + needle.len()) == needle
}

/// Whether `needle` stands somewhere in `s`.
pub open spec fn contains_text(s: Seq<char>, needle: Seq<char>) -> bool {
    exists|at: int| occurs_at(s, needle, at)
}

/// Whether `needle` stands in `chars` at position `at`.
fn stands_at(chars: &Vec<char>, needle: &Vec<char>, at: usize) -> (r: bool)
    requires
        at + needle@.len() <= chars@.len(),
    ensures
        r == occurs_at(chars@, needle@, at as int),
{
    let total: usize = chars.len();
    let mut k: usize = 0;
    while k < needle.len()
        invariant
            k <= needle@.len(),
            at + needle@.len() <= total == chars@.len(),
            forall|j: int| 0 <= j < k ==> chars@[at + j] == needle@[j],
        decreases needle@.len() - k,
    {
        if chars[at + k] != needle[k] {
            assert(chars@.subrange(at as int, at + needle@.len())[k as int] != needle@[k as int]);
            return false;
        }
        k = k + 1;
    }
    assert(chars@.subrange(at as int, at + needle@.len()) =~= needle@);
    true
}

/// Whether `needle` stands somewhere in `text`.
pub fn contains(text: &str, needle: &str) -> (r: bool)
    ensures
        r == contains_text(text@, needle@),
{
    let chars = chars_of(text);
    let wanted = chars_of(needle);
    if wanted.len() > chars.len() {
        return false;
    }
    let last: usize = chars.len() - wanted.len();
    let mut at: usize = 0;
    while at <= last
        invariant
            last == chars@.len() - wanted@.len(),
            at <= last + 1,
            forall|k: int| 0 <= k < at ==> !occurs_at(chars@, wanted@, k),
        decreases last + 1 - at,
    {
        if stands_at(&chars, &wanted, at) {
            return true;
        }
        if at == last {
            assert forall|k: int| !occurs_at(chars@, wanted@, k) by {}
            return false;
        }
        at = at + 1;
    }
    false
}

/// Whether `text` begins with `prefix`.
pub fn starts_with(text: &str, prefix: &str) -> (r: bool)
    ensures
        r == prefix@.is_prefix_of(text@),
{
    let chars = chars_of(text);
    let wanted = chars_of(prefix);
    if wanted.len() > chars.len() {
        return false;
    }
    stands_at(&chars, &wanted, 0)
}

/// The position of the first `c` in `s`.
pub open spec fn first_position(s: Seq<char>, c: char) -> Option<int>
    decreases s.len(),
{
    if s.len() == 0 {
        None
    } else {
        match first_position(s.drop_last(), c) {
            Some(i) => Some(i),
            None => if s.last() == c {
                Some(s.len() - 1)
            } else {
                None
            },
        }
    }
}

/// Finds the first `c` among `chars`.
pub fn find_first(chars: &Vec<char>, c: char) -> (r: Option<usize>)
    ensures
        match r {
            Some(i) => first_position(chars@, c) == Some(i as int) && i < chars@.len()
                && chars@[i as int] == c,
            None => first_position(chars@, c) is None && !chars@.contains(c),
        },
{
    let mut i: usize = 0;
    while i < chars.len()
        invariant
            i <= chars@.len(),
            first_position(chars@.take(i as int), c) is None,
            forall|j: int| 0 <= j < i ==> chars@[j] != c,
        decreases chars@.len() - i,
    {
        assert(chars@.take(i + 1).drop_last() =~= chars@.take(i as int));
        if chars[i] == c {
            proof {
                lemma_first_position(chars@, c, i as int);
            }
            return Some(i);
        }
        i = i + 1;
    }
    assert(chars@.take(i as int) =~= chars@);
    None
}

/// What stands before decides where the first `c` is.
proof fn lemma_first_position(s: Seq<char>, c: char, i: int)
    requires
        0 <= i < s.len(),
        first_position(s.take(i), c) is None,
        s[i] == c,
    ensures
        first_position(s, c) == Some(i),
    decreases s.len(),
{
    if s.len() - 1 == i {
        assert(s.drop_last() =~= s.take(i));
    } else {
        assert(s.drop_last().take(i) =~= s.take(i));
        lemma_first_position(s.drop_last(), c, i);
    }
}

/// The position of the last `c` in `s`.
pub open spec fn last_position(s: Seq<char>, c: char) -> Option<int>
    decreases s.len(),
{
    if s.len() == 0 {
        None
    } else if s.last() == c {
        Some(s.len() - 1)
    } else {
        last_position(s.drop_last(), c)
    }
}

/// Finds the last `c` among `chars`.
pub fn find_last(chars: &Vec<char>, c: char) -> (r: Option<usize>)
    ensures
        match r {
            Some(i) => last_position(chars@, c) == Some(i as int) && i < chars@.len() && chars@[i as int]
                == c,
            None => last_position(chars@, c) is None && !chars@.contains(c),
        },
{
    let mut to: usize = chars.len();
    assert(chars@.take(to as int) =~= chars@);
    while to > 0
        invariant
            to <= chars@.len(),
            last_position(chars@, c) == last_position(chars@.take(to as int), c),
            forall|j: int| to <= j < chars@.len() ==> chars@[j] != c,
        decreases to,
    {
        assert(chars@.take(to as int).drop_last() =~= chars@.take(to - 1));
        if chars[to - 1] == c {
            return Some(to - 1);
        }
        to = to - 1;
    }
    None
}

// ---------------------------------------------------------------------------
// Case
// ---------------------------------------------------------------------------

/// `s` with its ASCII letters in lower case.
pub open spec fn lower(s: Seq<char>) -> Seq<char> {
    Seq::new(s.len(), |i: int| ascii_lower(s[i]))
}

/// `text` with its ASCII letters in lower case.
pub fn ascii_lowercase(text: &str) -> (r: String)
    ensures
        r@ == lower(text@),
{
    let chars = chars_of(text);
    let mut out = String::new();
    let mut i: usize = 0;
    while i < chars.len()
        invariant
            i <= chars@.len(),
            out@ == lower(chars@).take(i as int),
        decreases chars@.len() - i,
    {
        out.push(char_ascii_lower(chars[i]));
        assert(lower(chars@).take(i + 1) =~= lower(chars@).take(i as int).push(
            ascii_lower(chars@[i as int]),
        ));
        i = i + 1;
    }
    assert(lower(chars@).take(i as int) =~= lower(chars@));
    out
}

/// Whether two texts are equal but for the case of ASCII letters.
pub fn same_ignoring_case(a: &str, b: &str) -> (r: bool)
    ensures
        r == (lower(a@) == lower(b@)),
{
    let x = ascii_lowercase(a);
    let y = ascii_lowercase(b);
    x == y
}

// ---------------------------------------------------------------------------
// Order
// ---------------------------------------------------------------------------

/// Whether `a` comes before `b` in the order of code points, character by
/// character: the order of `str`.
pub open spec fn text_before(a: Seq<char>, b: Seq<char>) -> bool
    decreases a.len(),
{
    if b.len() == 0 {
        false
    } else if a.len() == 0 {
        true
    } else if a[0] != b[0] {
        a[0] < b[0]
    } else {
        text_before(a.skip(1), b.skip(1))
    }
}

/// Whether `a` comes before `b`.
pub fn comes_before(a: &str, b: &str) -> (r: bool)
    ensures
        r == text_before(a@, b@),
{
    let x = chars_of(a);
    let y = chars_of(b);
    let mut i: usize = 0;
    assert(x@.skip(0) =~= x@);
    assert(y@.skip(0) =~= y@);
    while i < x.len() && i < y.len() && x[i] == y[i]
        invariant
            i <= x@.len(),
            i <= y@.len(),
            text_before(x@, y@) == text_before(x@.skip(i as int), y@.skip(i as int)),
        decreases x@.len() - i,
    {
        assert(x@.skip(i as int).skip(1) =~= x@.skip(i + 1));
        assert(y@.skip(i as int).skip(1) =~= y@.skip(i + 1));
        i = i + 1;
    }
    if i >= y.len() {
        return false;
    }
    if i >= x.len() {
        return true;
    }
    x[i] < y[i]
}

/// Of two texts at most one comes before the other.
pub proof fn text_order_asymmetric(a: Seq<char>, b: Seq<char>)
    requires
        text_before(a, b),
    ensures
        !text_before(b, a),
    decreases a.len(),
{
    if a.len() > 0 && a[0] == b[0] {
        text_order_asymmetric(a.skip(1), b.skip(1));
    }
}

/// Where `a` comes before `b`, any third text comes after `a` or before `b`.
pub proof fn text_order_splits(a: Seq<char>, b: Seq<char>, c: Seq<char>)
    requires
        text_before(a, b),
    ensures
        text_before(a, c) || text_before(c, b),
    decreases a.len(),
{
    if a.len() > 0 && c.len() > 0 && a[0] == b[0] && a[0] == c[0] {
        text_order_splits(a.skip(1), b.skip(1), c.skip(1));
    }
}

/// Two texts of which neither comes before the other are the same text.
pub proof fn text_order_total(a: Seq<char>, b: Seq<char>)
    requires
        !text_before(a, b),
        !text_before(b, a),
    ensures
        a == b,
    decreases a.len(),
{
    if a.len() == 0 || b.len() == 0 {
        assert(a =~= b);
    } else {
        text_order_total(a.skip(1), b.skip(1));
        assert(a =~= seq![a[0]] + a.skip(1));
        assert(b =~= seq![b[0]] + b.skip(1));
    }
}

// ---------------------------------------------------------------------------
// Numbers
// ---------------------------------------------------------------------------

/// The decimal digit of `n`.
pub open spec fn digit(n: nat) -> char {
    (48 + n % 10) as char
}

/// `n` in decimal digits, without leading zeros.
pub open spec fn decimal(n: nat) -> Seq<char>
    decreases n,
{
    if n < 10 {
        seq![digit(n)]
    } else {
        decimal(n / 10).push(digit(n))
    }
}

/// Appends `n` in decimal digits.
pub fn push_decimal(out: &mut String, n: u64)
    ensures
        final(out)@ == old(out)@ + decimal(n as nat),
    decreases n,
{
    let code: u8 = 48 + (n % 10) as u8;
    if n >= 10 {
        push_decimal(out, n / 10);
    }
    let ghost before = out@;
    out.push(code as char);
    assert(before.push(digit(n as nat)) =~= old(out)@ + decimal(n as nat));
}

/// `n` in decimal digits.
pub fn decimal_text(n: u64) -> (r: String)
    ensures
        r@ == decimal(n as nat),
{
    let mut out = String::new();
    push_decimal(&mut out, n);
    assert(Seq::<char>::empty() + decimal(n as nat) =~= decimal(n as nat));
    out
}

/// Whether `s` holds decimal digits only.
pub open spec fn all_digits(s: Seq<char>) -> bool {
    forall|i: int| 0 <= i < s.len() ==> '0' <= #[trigger] s[i] <= '9'
}

/// The number that the decimal digits `s` stand for.
pub open spec fn digits_value(s: Seq<char>) -> nat
    decreases s.len(),
{
    if s.len() == 0 {
        0
    } else {
        (digits_value(s.drop_last()) * 10 + (s.last() as nat - 48)) as nat
    }
}

/// The digits of a number that may be written with a plus sign in front.
pub open spec fn number_body(s: Seq<char>) -> Seq<char> {
    if s.len() > 1 && s[0] == '+' {
        s.skip(1)
    } else {
        s
    }
}

/// The number that `s` is written for, where it is one of at most `max`: an
/// optional plus sign and one or more decimal digits.
pub open spec fn number(s: Seq<char>, max: nat) -> Option<nat> {
    let body = number_body(s);
    if body.len() > 0 && all_digits(body) && digits_value(body) <= max {
        Some(digits_value(body))
    } else {
        None
    }
}

/// More digits never make a smaller number.
proof fn lemma_digits_grow(s: Seq<char>, n: int)
    requires
        0 <= n <= s.len(),
        all_digits(s),
    ensures
        digits_value(s.take(n)) <= digits_value(s),
    decreases s.len() - n,
{
    if n == s.len() {
        assert(s.take(n) =~= s);
    } else {
        assert(s.take(n + 1).drop_last() =~= s.take(n));
        assert('0' <= s[n] <= '9');
        lemma_digits_grow(s, n + 1);
    }
}

/// Reads a number of at most `max` from `text`.
pub fn parse_number(text: &str, max: u64) -> (r: Option<u64>)
    ensures
        match r {
            Some(n) => number(text@, max as nat) == Some(n as nat),
            None => number(text@, max as nat) is None,
        },
{
    let chars = chars_of(text);
    let from: usize = if chars.len() > 1 && chars[0] == '+' {
        1
    } else {
        0
    };
    let ghost body = number_body(text@);
    assert(body =~= chars@.skip(from as int));
    if from >= chars.len() {
        return None;
    }
    let mut value: u64 = 0;
    let mut i: usize = from;
    assert(body.take(0) =~= Seq::<char>::empty());
    while i < chars.len()
        invariant
            from <= i <= chars@.len(),
            body == chars@.skip(from as int),
            all_digits(body.take(i - from)),
            value == digits_value(body.take(i - from)),
            value <= max,
        decreases chars@.len() - i,
    {
        let c = chars[i];
        assert(body[i - from] == c);
        if c < '0' || c > '9' {
            return None;
        }
        let wide: u128 = value as u128 * 10 + (c as u32 - 48) as u128;
        assert(body.take(i - from + 1).drop_last() =~= body.take(i - from));
        assert(wide == digits_value(body.take(i - from + 1)));
        assert(all_digits(body.take(i - from + 1))) by {
            assert forall|k: int| 0 <= k < i - from + 1 implies '0' <= #[trigger] body.take(
                i - from + 1,
            )[k] <= '9' by {
                if k < i - from {
                    assert(body.take(i - from)[k] == body[k]);
                }
            }
        }
        if wide > max as u128 {
            proof {
                if all_digits(body) {
                    lemma_digits_grow(body, i - from + 1);
                }
            }
            return None;
        }
        value = wide as u64;
        i = i + 1;
    }
    assert(body.take(i - from) =~= body);
    Some(value)
}

/// What `decimal` writes, `digits_value` reads.
pub(crate) proof fn lemma_decimal_digits(n: nat)
    ensures
        decimal(n).len() > 0,
        all_digits(decimal(n)),
        digits_value(decimal(n)) == n,
    decreases n,
{
    assert('0' <= digit(n) <= '9');
    if n < 10 {
        assert(decimal(n).drop_last() =~= Seq::<char>::empty());
        assert(digits_value(Seq::<char>::empty()) == 0);
    } else {
        lemma_decimal_digits(n / 10);
        assert(decimal(n).drop_last() =~= decimal(n / 10));
    }
}

/// Reading back a number that was written in decimal digits gives the number.
pub proof fn decimal_reads_back(n: nat, max: nat)
    requires
        n <= max,
    ensures
        number(decimal(n), max) == Some(n),
{
    lemma_decimal_digits(n);
    if decimal(n)[0] == '+' {
        assert('0' <= decimal(n)[0]);
    }
}

/// Two numbers are written differently.
pub proof fn decimal_tells_apart(a: nat, b: nat)
    requires
        a != b,
    ensures
        decimal(a) != decimal(b),
{
    lemma_decimal_digits(a);
    lemma_decimal_digits(b);
}

// ---------------------------------------------------------------------------
// Quotes
// ---------------------------------------------------------------------------

/// Whether a character gets a backslash in front of it between quotes.
pub open spec fn is_escaped(c: char) -> bool {
    c == '"' || c == '\\'
}

/// `s` with a backslash in front of each quote and each backslash.
pub open spec fn escaped(s: Seq<char>) -> Seq<char>
    decreases s.len(),
{
    if s.len() == 0 {
        Seq::empty()
    } else if is_escaped(s.last()) {
        escaped(s.drop_last()).push('\\').push(s.last())
    } else {
        escaped(s.drop_last()).push(s.last())
    }
}

/// `s` between quotes.
pub open spec fn quoted_text(s: Seq<char>) -> Seq<char> {
    "\""@ + escaped(s) + "\""@
}

/// A text between quotes, with a backslash in front of each quote and each
/// backslash in it.
pub fn quoted(text: &str) -> (r: String)
    ensures
        r@ == quoted_text(text@),
{
    let chars = chars_of(text);
    let mut r = "\"".to_owned();
    let mut i: usize = 0;
    assert(chars@.take(0) =~= Seq::empty());
    while i < chars.len()
        invariant
            i <= chars@.len(),
            r@ == "\""@ + escaped(chars@.take(i as int)),
        decreases chars@.len() - i,
    {
        let ghost before = r@;
        proof {
            assert(chars@.take(i + 1).drop_last() =~= chars@.take(i as int));
        }
        let c = chars[i];
        if c == '"' || c == '\\' {
            r.push('\\');
        }
        r.push(c);
        assert(r@ =~= "\""@ + escaped(chars@.take(i + 1)));
        i = i + 1;
    }
    assert(chars@.take(i as int) =~= chars@);
    r.append("\"");
    r
}

/// An escaped text behind a quote can be told from what stands in front of it, as
/// long as no backslash stands there.
proof fn lemma_escaped_end(a: Seq<char>, x: Seq<char>, b: Seq<char>, y: Seq<char>)
    requires
        a.len() > 0 ==> a.last() != '\\',
        b.len() > 0 ==> b.last() != '\\',
        a.push('"') + escaped(x) == b.push('"') + escaped(y),
    ensures
        x == y,
        a == b,
    decreases x.len() + y.len(),
{
    let left = a.push('"') + escaped(x);
    let right = b.push('"') + escaped(y);
    if x.len() == 0 && y.len() == 0 {
        assert(x =~= y);
        assert(left =~= a.push('"') && right =~= b.push('"'));
        assert(left.drop_last() =~= a && right.drop_last() =~= b);
    } else if x.len() == 0 {
        lemma_escaped_quote(a, b, y);
    } else if y.len() == 0 {
        lemma_escaped_quote(b, a, x);
    } else {
        let (p, q) = (escaped(x.drop_last()), escaped(y.drop_last()));
        assert(left.last() == x.last() && right.last() == y.last());
        if is_escaped(x.last()) {
            assert(left =~= (a.push('"') + p).push('\\').push(x.last()));
            assert(right =~= (b.push('"') + q).push('\\').push(x.last()));
            assert(left.drop_last().drop_last() =~= a.push('"') + p);
            assert(right.drop_last().drop_last() =~= b.push('"') + q);
        } else {
            assert(left =~= (a.push('"') + p).push(x.last()));
            assert(right =~= (b.push('"') + q).push(x.last()));
            assert(left.drop_last() =~= a.push('"') + p);
            assert(right.drop_last() =~= b.push('"') + q);
        }
        lemma_escaped_end(a, x.drop_last(), b, y.drop_last());
        assert(x =~= x.drop_last().push(x.last()));
        assert(y =~= y.drop_last().push(y.last()));
    }
}

/// An escaped text that is not empty does not end in a quote without a backslash.
proof fn lemma_escaped_quote(a: Seq<char>, b: Seq<char>, y: Seq<char>)
    requires
        a.len() > 0 ==> a.last() != '\\',
        y.len() > 0,
    ensures
        a.push('"') + escaped(Seq::empty()) != b.push('"') + escaped(y),
{
    let left = a.push('"') + escaped(Seq::empty());
    let right = b.push('"') + escaped(y);
    assert(left =~= a.push('"'));
    assert(right.last() == y.last());
    if left == right {
        assert(y.last() == '"');
        assert(escaped(y) =~= escaped(y.drop_last()).push('\\').push('"'));
        assert(right[right.len() - 2] == '\\');
        assert(left[left.len() - 2] == a.last());
    }
}

/// A text between quotes at the end can be told from what stands in front of it, as
/// long as no backslash stands there.
pub proof fn quoted_end_tells_apart(a: Seq<char>, x: Seq<char>, b: Seq<char>, y: Seq<char>)
    requires
        a.len() > 0 ==> a.last() != '\\',
        b.len() > 0 ==> b.last() != '\\',
        a + quoted_text(x) == b + quoted_text(y),
    ensures
        x == y,
        a == b,
{
    reveal_strlit("\"");
    let (left, right) = (a + quoted_text(x), b + quoted_text(y));
    assert("\""@ =~= seq!['"']);
    assert(left =~= (a.push('"') + escaped(x)).push('"'));
    assert(right =~= (b.push('"') + escaped(y)).push('"'));
    assert(left.drop_last() =~= a.push('"') + escaped(x));
    assert(right.drop_last() =~= b.push('"') + escaped(y));
    lemma_escaped_end(a, x, b, y);
}

// ---------------------------------------------------------------------------
// Words and joining
// ---------------------------------------------------------------------------

/// Whether `c` parts words: white space, or where `ascii` is set the white
/// space of ASCII alone.
pub open spec fn is_gap(c: char, ascii: bool) -> bool {
    if ascii {
        is_ascii_white(c)
    } else {
        is_white(c)
    }
}

/// The number of characters in front of the first gap of `s`.
pub open spec fn word_len(s: Seq<char>, ascii: bool) -> nat
    decreases s.len(),
{
    if s.len() == 0 || is_gap(s[0], ascii) {
        0
    } else {
        1 + word_len(s.skip(1), ascii)
    }
}

/// A word is part of the text and holds no gap.
pub proof fn lemma_word_len(s: Seq<char>, ascii: bool)
    ensures
        word_len(s, ascii) <= s.len(),
        forall|i: int| 0 <= i < word_len(s, ascii) ==> !is_gap(#[trigger] s[i], ascii),
    decreases s.len(),
{
    if s.len() > 0 && !is_gap(s[0], ascii) {
        lemma_word_len(s.skip(1), ascii);
        assert forall|i: int| 0 <= i < word_len(s, ascii) implies !is_gap(#[trigger] s[i], ascii) by {
            if i > 0 {
                assert(s.skip(1)[i - 1] == s[i]);
            }
        }
    }
}

/// The words of `s`: its longest runs without a gap.
pub open spec fn words(s: Seq<char>, ascii: bool) -> Seq<Seq<char>>
    decreases s.len(),
{
    if s.len() == 0 {
        Seq::empty()
    } else if is_gap(s[0], ascii) {
        words(s.skip(1), ascii)
    } else {
        let n = word_len(s, ascii) as int;
        proof {
            lemma_word_len(s, ascii);
        }
        seq![s.take(n)] + words(s.skip(n), ascii)
    }
}

/// No word is empty, and none holds a gap.
pub proof fn lemma_word_at(s: Seq<char>, ascii: bool, i: int)
    requires
        0 <= i < words(s, ascii).len(),
    ensures
        words(s, ascii)[i].len() > 0,
        forall|j: int|
            0 <= j < words(s, ascii)[i].len() ==> !is_gap(#[trigger] words(s, ascii)[i][j], ascii),
    decreases s.len(),
{
    if is_gap(s[0], ascii) {
        lemma_word_at(s.skip(1), ascii, i);
    } else {
        let n = word_len(s, ascii) as int;
        lemma_word_len(s, ascii);
        if i > 0 {
            lemma_word_at(s.skip(n), ascii, i - 1);
        }
    }
}

/// The words of `text`.
pub fn words_of(text: &str, ascii: bool) -> (r: Vec<String>)
    ensures
        r.deep_view() == words(text@, ascii),
{
    let chars = chars_of(text);
    let mut out: Vec<String> = Vec::new();
    let mut i: usize = 0;
    assert(chars@.skip(0) =~= chars@);
    assert(out.deep_view() + words(chars@, ascii) =~= words(chars@, ascii));
    while i < chars.len()
        invariant
            i <= chars@.len(),
            words(chars@, ascii) == out.deep_view() + words(chars@.skip(i as int), ascii),
        decreases chars@.len() - i,
    {
        let ghost rest = chars@.skip(i as int);
        assert(rest[0] == chars@[i as int]);
        if is_gap_char(chars[i], ascii) {
            assert(rest.skip(1) =~= chars@.skip(i + 1));
            i = i + 1;
        } else {
            let start: usize = i;
            proof {
                lemma_word_len(rest, ascii);
                assert(chars@.skip(start as int) =~= rest);
            }
            while i < chars.len() && !is_gap_char(chars[i], ascii)
                invariant
                    start <= i <= chars@.len(),
                    word_len(rest, ascii) == (i - start) + word_len(chars@.skip(i as int), ascii),
                decreases chars@.len() - i,
            {
                assert(chars@.skip(i as int)[0] == chars@[i as int]);
                assert(chars@.skip(i as int).skip(1) =~= chars@.skip(i + 1));
                i = i + 1;
            }
            assert(word_len(chars@.skip(i as int), ascii) == 0) by {
                if i < chars@.len() {
                    assert(chars@.skip(i as int)[0] == chars@[i as int]);
                }
            }
            let ghost before = out.deep_view();
            let word = text_between(&chars, start, i);
            out.push(word);
            assert(out.deep_view() =~= before.push(word@));
            assert(word@ =~= rest.take(i - start));
            assert(rest.skip(i - start) =~= chars@.skip(i as int));
            assert(before + (seq![word@] + words(chars@.skip(i as int), ascii)) =~= before.push(word@)
                + words(chars@.skip(i as int), ascii));
            assert(i > start);
        }
    }
    assert(words(chars@.skip(i as int), ascii) =~= Seq::empty());
    assert(out.deep_view() + Seq::<Seq<char>>::empty() =~= out.deep_view());
    out
}

/// Whether `c` parts words.
fn is_gap_char(c: char, ascii: bool) -> (r: bool)
    ensures
        r == is_gap(c, ascii),
{
    if ascii {
        c == '\t' || c == '\n' || c == '\u{c}' || c == '\r' || c == ' '
    } else {
        char_is_white(c)
    }
}

/// `parts` one after the other, with `separator` between them.
pub open spec fn joined(parts: Seq<Seq<char>>, separator: Seq<char>) -> Seq<char>
    decreases parts.len(),
{
    if parts.len() == 0 {
        Seq::empty()
    } else if parts.len() == 1 {
        parts[0]
    } else {
        joined(parts.drop_last(), separator) + separator + parts.last()
    }
}

/// Every character of a joined text is one of the separator or of a part.
pub proof fn lemma_joined_char(parts: Seq<Seq<char>>, separator: Seq<char>, c: char)
    requires
        joined(parts, separator).contains(c),
    ensures
        separator.contains(c) || exists|i: int|
            0 <= i < parts.len() && (#[trigger] parts[i]).contains(c),
    decreases parts.len(),
{
    let whole = joined(parts, separator);
    let k = choose|k: int| 0 <= k < whole.len() && whole[k] == c;
    if parts.len() == 1 {
        assert(parts[0].contains(c));
    } else if parts.len() > 1 {
        let front = joined(parts.drop_last(), separator);
        if k < front.len() {
            assert(front[k] == c);
            assert(front.contains(c));
            lemma_joined_char(parts.drop_last(), separator, c);
            if !separator.contains(c) {
                let i = choose|i: int|
                    0 <= i < parts.drop_last().len() && (#[trigger] parts.drop_last()[i]).contains(
                        c,
                    );
                assert(parts[i].contains(c));
            }
        } else if k < front.len() + separator.len() {
            assert(separator[k - front.len()] == c);
        } else {
            assert(parts.last()[k - front.len() - separator.len()] == c);
            assert(parts[parts.len() - 1].contains(c));
        }
    }
}

/// A gap ends a word, whatever stands behind it.
proof fn lemma_word_ends(a: Seq<char>, rest: Seq<char>, ascii: bool)
    requires
        rest.len() > 0,
        is_gap(rest[0], ascii),
    ensures
        word_len(a + rest, ascii) == word_len(a, ascii),
    decreases a.len(),
{
    if a.len() == 0 {
        assert(a + rest =~= rest);
    } else if !is_gap(a[0], ascii) {
        assert((a + rest).skip(1) =~= a.skip(1) + rest);
        lemma_word_ends(a.skip(1), rest, ascii);
    }
}

/// Whether a text is a word: it is not empty and holds no gap.
pub open spec fn is_word(s: Seq<char>, ascii: bool) -> bool {
    s.len() > 0 && forall|i: int| 0 <= i < s.len() ==> !is_gap(#[trigger] s[i], ascii)
}

/// A word is as long as itself.
proof fn lemma_whole_word(s: Seq<char>, ascii: bool)
    requires
        forall|i: int| 0 <= i < s.len() ==> !is_gap(#[trigger] s[i], ascii),
    ensures
        word_len(s, ascii) == s.len(),
    decreases s.len(),
{
    if s.len() > 0 {
        assert forall|i: int| 0 <= i < s.skip(1).len() implies !is_gap(
            #[trigger] s.skip(1)[i],
            ascii,
        ) by {
            assert(s.skip(1)[i] == s[i + 1]);
        }
        lemma_whole_word(s.skip(1), ascii);
    }
}

/// A word has one word: itself.
proof fn lemma_one_word(s: Seq<char>, ascii: bool)
    requires
        is_word(s, ascii),
    ensures
        words(s, ascii) == seq![s],
{
    lemma_whole_word(s, ascii);
    assert(s.take(s.len() as int) =~= s);
    assert(s.skip(s.len() as int) =~= Seq::empty());
    assert(words(s.skip(s.len() as int), ascii) =~= Seq::empty());
    assert(words(s, ascii) =~= seq![s]);
}

/// A word behind a gap is one more word.
proof fn lemma_word_added(a: Seq<char>, gap: char, word: Seq<char>, ascii: bool)
    requires
        is_gap(gap, ascii),
        is_word(word, ascii),
    ensures
        words(a + seq![gap] + word, ascii) == words(a, ascii).push(word),
    decreases a.len(),
{
    let rest = seq![gap] + word;
    let whole = a + seq![gap] + word;
    assert(whole =~= a + rest);
    if a.len() == 0 {
        assert(whole =~= rest);
        assert(rest.skip(1) =~= word);
        lemma_one_word(word, ascii);
        assert(words(a, ascii).push(word) =~= seq![word]);
    } else if is_gap(a[0], ascii) {
        assert(whole.skip(1) =~= a.skip(1) + seq![gap] + word);
        lemma_word_added(a.skip(1), gap, word, ascii);
    } else {
        let n = word_len(a, ascii) as int;
        lemma_word_len(a, ascii);
        lemma_word_ends(a, rest, ascii);
        assert(whole.take(n) =~= a.take(n));
        assert(whole.skip(n) =~= a.skip(n) + seq![gap] + word);
        lemma_word_added(a.skip(n), gap, word, ascii);
        assert(words(whole, ascii) =~= words(a, ascii).push(word));
    }
}

/// Words that are joined by a gap are the words of the text that they make.
pub proof fn joined_words_come_back(parts: Seq<Seq<char>>, gap: char, ascii: bool)
    requires
        is_gap(gap, ascii),
        forall|i: int| 0 <= i < parts.len() ==> is_word(#[trigger] parts[i], ascii),
    ensures
        words(joined(parts, seq![gap]), ascii) == parts,
    decreases parts.len(),
{
    if parts.len() == 0 {
        assert(words(joined(parts, seq![gap]), ascii) =~= parts);
    } else if parts.len() == 1 {
        lemma_one_word(parts[0], ascii);
        assert(parts =~= seq![parts[0]]);
    } else {
        let front = parts.drop_last();
        assert forall|i: int| 0 <= i < front.len() implies is_word(#[trigger] front[i], ascii) by {
            assert(front[i] == parts[i]);
        }
        joined_words_come_back(front, gap, ascii);
        assert(parts.last() == parts[parts.len() - 1]);
        lemma_word_added(joined(front, seq![gap]), gap, parts.last(), ascii);
        assert(front.push(parts.last()) =~= parts);
    }
}

/// Joins `parts` with `separator` between them.
pub fn join(parts: &Vec<String>, separator: &str) -> (r: String)
    ensures
        r@ == joined(parts.deep_view(), separator@),
{
    let mut out = String::new();
    let mut i: usize = 0;
    let ghost all = parts.deep_view();
    assert(all.take(0) =~= Seq::empty());
    while i < parts.len()
        invariant
            i <= parts@.len(),
            all == parts.deep_view(),
            out@ == joined(all.take(i as int), separator@),
        decreases parts@.len() - i,
    {
        assert(all.take(i + 1).drop_last() =~= all.take(i as int));
        assert(all.take(i + 1).last() == parts@[i as int]@);
        if i > 0 {
            out.append(separator);
        }
        let ghost sofar = out@;
        out.append(parts[i].as_str());
        if i == 0 {
            assert(out@ =~= all.take(1)[0]);
        }
        i = i + 1;
    }
    assert(all.take(i as int) =~= all);
    out
}

// ---------------------------------------------------------------------------
// Lists of text
// ---------------------------------------------------------------------------

/// A copy of a list of texts.
pub fn clone_texts(list: &Vec<String>) -> (r: Vec<String>)
    ensures
        r.deep_view() == list.deep_view(),
{
    let mut out: Vec<String> = Vec::new();
    let mut i: usize = 0;
    while i < list.len()
        invariant
            i <= list@.len(),
            out.deep_view() == list.deep_view().take(i as int),
        decreases list@.len() - i,
    {
        let ghost before = out.deep_view();
        out.push(list[i].clone());
        assert(out.deep_view() =~= before.push(list@[i as int]@));
        assert(list.deep_view().take(i + 1) =~= list.deep_view().take(i as int).push(
            list@[i as int]@,
        ));
        i = i + 1;
    }
    assert(list.deep_view().take(i as int) =~= list.deep_view());
    out
}

/// A copy of an optional text.
pub fn clone_text(value: &Option<String>) -> (r: Option<String>)
    ensures
        r.deep_view() == value.deep_view(),
{
    match value {
        Some(text) => Some(text.clone()),
        None => None,
    }
}

/// Whether two optional texts are the same.
pub fn same_option(a: &Option<String>, b: &Option<String>) -> (r: bool)
    ensures
        r == (a.deep_view() == b.deep_view()),
{
    match (a, b) {
        (Some(x), Some(y)) => same(x, y),
        (None, None) => true,
        _ => false,
    }
}

/// Whether `wanted` is one of `list`.
pub fn list_has(list: &Vec<String>, wanted: &str) -> (r: bool)
    ensures
        r == list.deep_view().contains(wanted@),
{
    let mut i: usize = 0;
    while i < list.len()
        invariant
            i <= list@.len(),
            forall|j: int| 0 <= j < i ==> list@[j]@ != wanted@,
        decreases list@.len() - i,
    {
        if same(list[i].as_str(), wanted) {
            assert(list.deep_view()[i as int] == wanted@);
            return true;
        }
        i = i + 1;
    }
    assert forall|j: int| 0 <= j < list.deep_view().len() implies list.deep_view()[j] != wanted@ by {}
    false
}

/// Two texts one after the other.
pub fn cat2(a: &str, b: &str) -> (r: String)
    ensures
        r@ == a@ + b@,
{
    let mut r = a.to_owned();
    r.append(b);
    r
}

/// Three texts one after the other.
pub fn cat3(a: &str, b: &str, c: &str) -> (r: String)
    ensures
        r@ == a@ + b@ + c@,
{
    let mut r = cat2(a, b);
    r.append(c);
    r
}

/// Four texts one after the other.
pub fn cat4(a: &str, b: &str, c: &str, d: &str) -> (r: String)
    ensures
        r@ == a@ + b@ + c@ + d@,
{
    let mut r = cat3(a, b, c);
    r.append(d);
    r
}

/// Five texts one after the other.
pub fn cat5(a: &str, b: &str, c: &str, d: &str, e: &str) -> (r: String)
    ensures
        r@ == a@ + b@ + c@ + d@ + e@,
{
    let mut r = cat4(a, b, c, d);
    r.append(e);
    r
}

/// A trimmed text is what stands between the blanks: it neither begins nor ends with one,
/// and nothing but blanks was cut off.
pub proof fn trimmed_texts_stand_between_blanks(s: Seq<char>)
    ensures
        trim(s).len() > 0 ==> !is_white(trim(s)[0]) && !is_white(trim(s).last()),
        exists|from: int, to: int|
            0 <= from <= to <= s.len() && trim(s) == #[trigger] s.subrange(from, to) && (
            forall|i: int| 0 <= i < from ==> is_white(#[trigger] s[i])) && (forall|i: int|
                to <= i < s.len() ==> is_white(#[trigger] s[i])),
        trim(trim(s)) == trim(s),
{
    lemma_trim_start(s);
    let back = trim_start(s);
    lemma_trim_end(back);
    let t = trim(s);
    let from = s.len() - back.len();
    let to = from + t.len();
    assert(t =~= s.subrange(from, to));
    assert forall|i: int| to <= i < s.len() implies is_white(#[trigger] s[i]) by {
        assert(back[i - from] == s[i]);
    }
    if t.len() > 0 {
        assert(t[0] == back[0]);
    }
    assert(trim_start(t) == t);
    assert(trim_end(t) == t);
}

/// What is cut off at the start are blanks.
proof fn lemma_trim_start(s: Seq<char>)
    ensures
        trim_start(s).len() <= s.len(),
        trim_start(s) == s.skip(s.len() - trim_start(s).len()),
        trim_start(s).len() > 0 ==> !is_white(trim_start(s)[0]),
        forall|i: int| 0 <= i < s.len() - trim_start(s).len() ==> is_white(#[trigger] s[i]),
    decreases s.len(),
{
    if s.len() > 0 && is_white(s[0]) {
        let rest = s.skip(1);
        lemma_trim_start(rest);
        assert(trim_start(s) =~= s.skip(s.len() - trim_start(s).len()));
        assert forall|i: int| 0 <= i < s.len() - trim_start(s).len() implies is_white(
            #[trigger] s[i],
        ) by {
            if i > 0 {
                assert(rest[i - 1] == s[i]);
            }
        }
    } else {
        assert(s.skip(0) =~= s);
    }
}

/// What is cut off at the end are blanks.
proof fn lemma_trim_end(s: Seq<char>)
    ensures
        trim_end(s).len() <= s.len(),
        trim_end(s) == s.take(trim_end(s).len() as int),
        trim_end(s).len() > 0 ==> !is_white(trim_end(s).last()),
        forall|i: int| trim_end(s).len() <= i < s.len() ==> is_white(#[trigger] s[i]),
    decreases s.len(),
{
    if s.len() > 0 && is_white(s.last()) {
        let front = s.drop_last();
        lemma_trim_end(front);
        assert(trim_end(s) =~= s.take(trim_end(s).len() as int));
        assert forall|i: int| trim_end(s).len() <= i < s.len() implies is_white(
            #[trigger] s[i],
        ) by {
            if i < front.len() {
                assert(front[i] == s[i]);
            }
        }
    } else {
        assert(s.take(s.len() as int) =~= s);
    }
}

/// A text in lower case has the same letters without their case, and everything else as it
/// is; doing it twice changes nothing more.
pub proof fn lower_case_ignores_case(s: Seq<char>, i: int)
    requires
        0 <= i < s.len(),
    ensures
        lower(s).len() == s.len(),
        lower(lower(s)) == lower(s),
        'A' <= s[i] <= 'Z' ==> lower(s)[i] as int == s[i] as int + 32,
        !('A' <= s[i] <= 'Z') ==> lower(s)[i] == s[i],
{
    assert(lower(lower(s)) =~= lower(s));
}

/// One text comes before another if and only if it is the beginning of it, or has the
/// smaller character where they first differ.
pub proof fn texts_are_ordered_by_their_characters(a: Seq<char>, b: Seq<char>)
    ensures
        text_before(a, b) <==> (a.is_prefix_of(b) && a.len() < b.len()) || exists|i: int|
            0 <= i < a.len() && i < b.len() && #[trigger] a[i] < b[i] && a.take(i) == b.take(i),
    decreases a.len(),
{
    if a.len() == 0 {
        assert(b.take(0) =~= a);
    } else if b.len() > 0 {
        let (x, y) = (a.skip(1), b.skip(1));
        texts_are_ordered_by_their_characters(x, y);
        if a[0] == b[0] {
            if text_before(x, y) {
                if x.is_prefix_of(y) && x.len() < y.len() {
                    assert(b.take(a.len() as int) =~= a) by {
                        assert forall|k: int| 0 <= k < a.len() implies b[k] == a[k] by {
                            if k > 0 {
                                assert(x[k - 1] == y.take(x.len() as int)[k - 1]);
                            }
                        }
                    }
                } else {
                    let i = choose|i: int|
                        0 <= i < x.len() && i < y.len() && #[trigger] x[i] < y[i] && x.take(i)
                            == y.take(i);
                    assert(a[i + 1] < b[i + 1]);
                    assert forall|k: int| 0 <= k < i + 1 implies a[k] == b[k] by {
                        if k > 0 {
                            assert(x.take(i)[k - 1] == y.take(i)[k - 1]);
                        }
                    }
                    assert(a.take(i + 1) =~= b.take(i + 1));
                }
            }
            if a.is_prefix_of(b) && a.len() < b.len() {
                assert forall|k: int| 0 <= k < x.len() implies x[k] == y[k] by {
                    assert(a[k + 1] == b.take(a.len() as int)[k + 1]);
                }
                assert(y.take(x.len() as int) =~= x);
            }
            if exists|i: int|
                0 <= i < a.len() && i < b.len() && #[trigger] a[i] < b[i] && a.take(i)
                    == b.take(i) {
                let i = choose|i: int|
                    0 <= i < a.len() && i < b.len() && #[trigger] a[i] < b[i] && a.take(i)
                        == b.take(i);
                assert(x[i - 1] < y[i - 1]);
                assert forall|k: int| 0 <= k < i - 1 implies x[k] == y[k] by {
                    assert(a.take(i)[k + 1] == b.take(i)[k + 1]);
                }
                assert(x.take(i - 1) =~= y.take(i - 1));
            }
        } else {
            if a[0] < b[0] {
                assert(a.take(0) =~= b.take(0));
            }
            if a.is_prefix_of(b) && a.len() < b.len() {
                assert(a[0] == b.take(a.len() as int)[0]);
            }
            if exists|i: int|
                0 <= i < a.len() && i < b.len() && #[trigger] a[i] < b[i] && a.take(i)
                    == b.take(i) {
                let i = choose|i: int|
                    0 <= i < a.len() && i < b.len() && #[trigger] a[i] < b[i] && a.take(i)
                        == b.take(i);
                if i > 0 {
                    assert(a.take(i)[0] == b.take(i)[0]);
                }
            }
        }
    } else {
        assert(!(a.is_prefix_of(b) && a.len() < b.len()));
    }
}

/// The first of a character is where it stands and did not before, and there is none only
/// where the text lacks it; the same holds of the last, from the other end.
pub proof fn characters_are_found(s: Seq<char>, c: char)
    ensures
        match first_position(s, c) {
            Some(at) => 0 <= at < s.len() && s[at] == c && forall|i: int|
                0 <= i < at ==> #[trigger] s[i] != c,
            None => !s.contains(c),
        },
        match last_position(s, c) {
            Some(at) => 0 <= at < s.len() && s[at] == c && forall|i: int|
                at < i < s.len() ==> #[trigger] s[i] != c,
            None => !s.contains(c),
        },
    decreases s.len(),
{
    if s.len() > 0 {
        let front = s.drop_last();
        characters_are_found(front, c);
        assert forall|i: int| 0 <= i < front.len() implies #[trigger] s[i] == front[i] by {}
        if s.contains(c) && s.last() != c {
            let i = choose|i: int| 0 <= i < s.len() && s[i] == c;
            assert(front[i] == c);
        }
    }
}

} // verus!
