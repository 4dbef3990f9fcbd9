//! Text helpers: the string operations that configuration and header handling
//! rest on, each stated over the sequence of characters that a string holds.

use vstd::prelude::*;

verus! {

/// `String::push` appends one character and changes nothing else.
pub assume_specification[ String::push ](s: &mut String, c: char)
    ensures
        final(s)@ == old(s)@.push(c),
;

/// The characters that the Unicode Character Database gives the `White_Space`
/// property.
pub open spec fn white_space(c: char) -> bool {
    ||| '\u{9}' <= c <= '\u{d}'
    ||| c == ' '
    ||| c == '\u{85}'
    ||| c == '\u{a0}'
    ||| c == '\u{1680}'
    ||| '\u{2000}' <= c <= '\u{200a}'
    ||| c == '\u{2028}'
    ||| c == '\u{2029}'
    ||| c == '\u{202f}'
    ||| c == '\u{205f}'
    ||| c == '\u{3000}'
}

/// `char::is_whitespace` tells whether the character has the `White_Space`
/// property.
pub assume_specification[ char::is_whitespace ](c: char) -> (r: bool)
    ensures
        r == white_space(c),
;

/// The character with an ASCII capital letter replaced by its small letter.
pub open spec fn lower_char(c: char) -> char {
    if 'A' <= c <= 'Z' {
        ((c as u32) + 32) as char
    } else {
        c
    }
}

/// The text with every ASCII capital letter replaced by its small letter.
pub open spec fn lower(s: Seq<char>) -> Seq<char> {
    s.map_values(|c: char| lower_char(c))
}

/// Position of the first `c` in `s`, or the length of `s` where there is none.
pub open spec fn cut(s: Seq<char>, c: char) -> nat
    decreases s.len(),
{
    if s.len() == 0 || s[0] == c {
        0
    } else {
        1 + cut(s.drop_first(), c)
    }
}

/// What precedes the first `c` of `s`: all of `s` where there is none.
pub open spec fn before(s: Seq<char>, c: char) -> Seq<char> {
    s.take(cut(s, c) as int)
}

/// What follows the first `c` of `s`, which must hold one.
pub open spec fn after(s: Seq<char>, c: char) -> Seq<char> {
    s.skip((cut(s, c) + 1) as int)
}

/// The pieces of `s` between the separators `c`; always at least one.
pub open spec fn split_on(s: Seq<char>, c: char) -> Seq<Seq<char>>
    decreases s.len(),
{
    if cut(s, c) >= s.len() {
        seq![s]
    } else {
        seq![before(s, c)] + split_on(after(s, c), c)
    }
}

/// `s` without its leading white space.
pub open spec fn trim_start(s: Seq<char>) -> Seq<char>
    decreases s.len(),
{
    if s.len() > 0 && white_space(s[0]) {
        trim_start(s.drop_first())
    } else {
        s
    }
}

/// `s` without its trailing white space.
pub open spec fn trim_end(s: Seq<char>) -> Seq<char>
    decreases s.len(),
{
    if s.len() > 0 && white_space(s.last()) {
        trim_end(s.drop_last())
    } else {
        s
    }
}

/// `s` without white space at either end.
pub open spec fn trimmed(s: Seq<char>) -> Seq<char> {
    trim_end(trim_start(s))
}

/// Whether `part` occurs somewhere in `s`.
pub open spec fn occurs(part: Seq<char>, s: Seq<char>) -> bool {
    exists|i: int|
        0 <= i <= s.len() - part.len() && #[trigger] s.subrange(i, i + part.len()) == part
}

pub open spec fn is_digit(c: char) -> bool {
    '0' <= c <= '9'
}

pub open spec fn all_digits(s: Seq<char>) -> bool {
    forall|i: int| 0 <= i < s.len() ==> is_digit(#[trigger] s[i])
}

/// The number that a run of decimal digits writes.
pub open spec fn decimal_value(s: Seq<char>) -> nat
    decreases s.len(),
{
    if s.len() == 0 {
        0
    } else {
        (decimal_value(s.drop_last()) * 10 + (s.last() as u32 - '0' as u32)) as nat
    }
}

/// An unsigned decimal number: an optional `+`, then digits alone, at least one,
/// and a value of at most `max`.
pub open spec fn parse_decimal(s: Seq<char>, max: nat) -> Option<nat> {
    let digits = if s.len() > 0 && s[0] == '+' {
        s.drop_first()
    } else {
        s
    };
    if digits.len() > 0 && all_digits(digits) && decimal_value(digits) <= max {
        Some(decimal_value(digits))
    } else {
        None
    }
}

/// The text of an optional string.
pub open spec fn opt_text(s: Option<String>) -> Option<Seq<char>> {
    match s {
        Some(t) => Some(t@),
        None => None,
    }
}

/// The texts of a list of strings.
pub open spec fn texts(v: Seq<String>) -> Seq<Seq<char>> {
    v.map_values(|s: String| s@)
}

/// The characters of `s`.
pub fn chars_of(s: &str) -> (r: Vec<char>)
    ensures
        r@ == s@,
{
    let mut out: Vec<char> = Vec::new();
    for c in it: s.chars()
        invariant
            out@ == s@.take(it.index()),
            it.seq() == s@,
    {
        out.push(c);
    }
    out
}

/// The string that holds `chars[from..to]`.
pub fn string_of_range(chars: &Vec<char>, from: usize, to: usize) -> (r: String)
    requires
        from <= to <= chars.len(),
    ensures
        r@ == chars@.subrange(from as int, to as int),
{
    let mut out = String::new();
    let mut i: usize = from;
    while i < to
        invariant
            from <= i <= to <= chars.len(),
            out@ == chars@.subrange(from as int, i as int),
        decreases to - i,
    {
        out.push(chars[i]);
        i += 1;
    }
    out
}

/// Whether `part` stands in `s` at position `at`.
fn stands_at(s: &Vec<char>, part: &Vec<char>, at: usize) -> (r: bool)
    requires
        at + part.len() <= s.len(),
    ensures
        r == (s@.subrange(at as int, at + part.len()) == part@),
{
    let mut i: usize = 0;
    while i < part.len()
        invariant
            i <= part.len(),
            at + part.len() <= s.len(),
            forall|j: int| 0 <= j < i ==> s@[at + j] == part@[j],
        decreases part.len() - i,
    {
        if s[at + i] != part[i] {
            assert(s@.subrange(at as int, at + part.len())[i as int] != part@[i as int]);
            return false;
        }
        i += 1;
    }
    assert(s@.subrange(at as int, at + part.len()) == part@);
    true
}

/// Whether two texts are the same.
pub fn text_eq(a: &str, b: &str) -> (r: bool)
    ensures
        r == (a@ == b@),
{
    let x = chars_of(a);
    let y = chars_of(b);
    if x.len() != y.len() {
        return false;
    }
    let r = stands_at(&x, &y, 0);
    assert(x@.subrange(0, y.len() as int) == x@);
    r
}

/// Whether `s` begins with `part`.
pub fn starts_with(s: &str, part: &str) -> (r: bool)
    ensures
        r == part@.is_prefix_of(s@),
{
    let x = chars_of(s);
    let y = chars_of(part);
    x.len() >= y.len() && stands_at(&x, &y, 0)
}

/// Whether `s` ends with `part`.
pub fn ends_with(s: &str, part: &str) -> (r: bool)
    ensures
        r == part@.is_suffix_of(s@),
{
    let x = chars_of(s);
    let y = chars_of(part);
    x.len() >= y.len() && stands_at(&x, &y, x.len() - y.len())
}

/// Whether `part` occurs in `s`.
pub fn contains_text(s: &str, part: &str) -> (r: bool)
    ensures
        r == occurs(part@, s@),
{
    let x = chars_of(s);
    let y = chars_of(part);
    if y.len() > x.len() {
        return false;
    }
    let last: usize = x.len() - y.len();
    let mut i: usize = 0;
    while i <= last
        invariant
            i <= last + 1,
            last == x.len() - y.len(),
            y.len() <= x.len(),
            x@ == s@,
            y@ == part@,
            forall|j: int| 0 <= j < i ==> #[trigger] x@.subrange(j, j + y.len()) != y@,
        decreases last + 1 - i,
    {
        if stands_at(&x, &y, i) {
            return true;
        }
        if i == last {
            return false;
        }
        i += 1;
    }
    false
}

/// Whether the character `c` occurs in `s`.
pub fn contains_char(s: &str, c: char) -> (r: bool)
    ensures
        r == s@.contains(c),
{
    let x = chars_of(s);
    let mut i: usize = 0;
    while i < x.len()
        invariant
            i <= x.len(),
            x@ == s@,
            forall|j: int| 0 <= j < i ==> x@[j] != c,
        decreases x.len() - i,
    {
        if x[i] == c {
            assert(s@[i as int] == c);
            return true;
        }
        i += 1;
    }
    false
}

/// `cut` is the position of the first `c`.
pub proof fn lemma_cut(s: Seq<char>, c: char)
    ensures
        cut(s, c) <= s.len(),
        cut(s, c) < s.len() ==> s[cut(s, c) as int] == c,
        forall|i: int| 0 <= i < cut(s, c) ==> s[i] != c,
        s.contains(c) == (cut(s, c) < s.len()),
    decreases s.len(),
{
    if s.len() == 0 || s[0] == c {
    } else {
        lemma_cut(s.drop_first(), c);
        let k = cut(s.drop_first(), c);
        assert forall|i: int| 0 <= i < cut(s, c) implies s[i] != c by {
            if i > 0 {
                assert(s.drop_first()[i - 1] != c);
            }
        }
        if k < s.drop_first().len() {
            assert(s[(k + 1) as int] == s.drop_first()[k as int]);
        } else if s.contains(c) {
            let i = choose|i: int| 0 <= i < s.len() && s[i] == c;
            assert(s[i] != c);
        }
    }
}

/// A position that holds the first `c` is `cut`.
proof fn lemma_cut_is(s: Seq<char>, c: char, k: nat)
    requires
        k <= s.len(),
        forall|i: int| 0 <= i < k ==> s[i] != c,
        k < s.len() ==> s[k as int] == c,
    ensures
        cut(s, c) == k,
{
    lemma_cut(s, c);
    if cut(s, c) < k {
        assert(s[cut(s, c) as int] != c);
    }
}

/// Position of the first `c` at or behind `from`, or the length.
fn find_from(x: &Vec<char>, c: char, from: usize) -> (r: usize)
    requires
        from <= x.len(),
    ensures
        from <= r <= x.len(),
        r - from == cut(x@.skip(from as int), c),
{
    let mut i: usize = from;
    while i < x.len() && x[i] != c
        invariant
            from <= i <= x.len(),
            forall|j: int| from <= j < i ==> x@[j] != c,
        decreases x.len() - i,
    {
        i += 1;
    }
    proof {
        lemma_cut_is(x@.skip(from as int), c, (i - from) as nat);
    }
    i
}

/// What precedes the first `c` of `s`.
pub fn text_before(s: &str, c: char) -> (r: String)
    ensures
        r@ == before(s@, c),
{
    let x = chars_of(s);
    let k = find_from(&x, c, 0);
    assert(x@.skip(0) == x@);
    string_of_range(&x, 0, k)
}

/// `s` parted at its first `c`, or `None` where there is none.
pub fn split_once(s: &str, c: char) -> (r: Option<(String, String)>)
    ensures
        match r {
            Some((a, b)) => s@.contains(c) && a@ == before(s@, c) && b@ == after(s@, c),
            None => !s@.contains(c),
        },
{
    let x = chars_of(s);
    let k = find_from(&x, c, 0);
    proof {
        assert(x@.skip(0) == x@);
        lemma_cut(x@, c);
    }
    if k == x.len() {
        return None;
    }
    let b = string_of_range(&x, k + 1, x.len());
    Some((string_of_range(&x, 0, k), b))
}

/// The pieces of `s` between the separators `c`.
pub fn split_text(s: &str, c: char) -> (r: Vec<String>)
    ensures
        texts(r@) == split_on(s@, c),
        r.len() > 0,
{
    let x = chars_of(s);
    let mut out: Vec<String> = Vec::new();
    let mut start: usize = 0;
    assert(x@.skip(0) == s@);
    assert(texts(out@) + split_on(x@.skip(0), c) == split_on(s@, c));
    loop
        invariant
            start <= x.len(),
            x@ == s@,
            texts(out@) + split_on(x@.skip(start as int), c) == split_on(s@, c),
        decreases x.len() - start,
    {
        let k = find_from(&x, c, start);
        let ghost rest = x@.skip(start as int);
        let piece = string_of_range(&x, start, k);
        let ghost done = texts(out@);
        out.push(piece);
        assert(texts(out@) == done.push(piece@));
        assert(piece@ == rest.take(cut(rest, c) as int));
        if k == x.len() {
            assert(rest.take(rest.len() as int) == rest);
            assert(done.push(piece@) == done + seq![rest]);
            return out;
        }
        assert(x@.skip(k + 1) == after(rest, c));
        assert(done + (seq![before(rest, c)] + split_on(after(rest, c), c))
            == done.push(piece@) + split_on(after(rest, c), c));
        start = k + 1;
    }
}

/// `s` without white space at either end.
pub fn trim(s: &str) -> (r: String)
    ensures
        r@ == trimmed(s@),
{
    let x = chars_of(s);
    let mut from: usize = 0;
    assert(x@.skip(0) == s@);
    while from < x.len() && x[from].is_whitespace()
        invariant
            from <= x.len(),
            trim_start(x@.skip(from as int)) == trim_start(s@),
        decreases x.len() - from,
    {
        assert(x@.skip(from as int).drop_first() == x@.skip(from + 1));
        from += 1;
    }
    let mut to: usize = x.len();
    assert(x@.subrange(from as int, to as int) == x@.skip(from as int));
    assert(trim_start(s@) == x@.subrange(from as int, to as int));
    while to > from && x[to - 1].is_whitespace()
        invariant
            from <= to <= x.len(),
            trim_end(x@.subrange(from as int, to as int)) == trimmed(s@),
        decreases to,
    {
        assert(x@.subrange(from as int, to as int).drop_last() == x@.subrange(
            from as int,
            to - 1,
        ));
        to -= 1;
    }
    string_of_range(&x, from, to)
}

/// One character with an ASCII capital letter made small.
pub fn to_lower_char(c: char) -> (r: char)
    ensures
        r == lower_char(c),
{
    if 'A' <= c && c <= 'Z' {
        ((c as u8) + 32) as char
    } else {
        c
    }
}

/// `s` with every ASCII capital letter made small.
pub fn to_lower(s: &str) -> (r: String)
    ensures
        r@ == lower(s@),
{
    let mut out = String::new();
    for c in it: s.chars()
        invariant
            out@ == lower(s@.take(it.index())),
            it.seq() == s@,
    {
        out.push(to_lower_char(c));
        assert(out@ == lower(s@.take(it.index() + 1)));
    }
    assert(s@.take(s@.len() as int) == s@);
    out
}

/// The number that `s` writes as an unsigned decimal of at most `max`.
pub fn parse_number(s: &str, max: u64) -> (r: Option<u64>)
    ensures
        match r {
            Some(n) => parse_decimal(s@, max as nat) == Some(n as nat),
            None => parse_decimal(s@, max as nat) is None,
        },
{
    let x = chars_of(s);
    let from: usize = if x.len() > 0 && x[0] == '+' { 1 } else { 0 };
    let ghost digits = x@.skip(from as int);
    assert(from == 1 ==> digits == s@.drop_first());
    assert(from == 0 ==> digits == s@);
    if from == x.len() {
        return None;
    }
    let mut value: u64 = 0;
    let mut i: usize = from;
    while i < x.len()
        invariant
            from <= i <= x.len(),
            digits == x@.skip(from as int),
            value <= max,
            all_digits(digits.take(i - from)),
            value == decimal_value(digits.take(i - from)),
            from <= 1,
            from == 1 ==> s@.len() > 0 && s@[0] == '+' && digits == s@.drop_first(),
            from == 0 ==> !(s@.len() > 0 && s@[0] == '+') && digits == s@,
            digits.len() > 0,
        decreases x.len() - i,
    {
        let c = x[i];
        assert(digits[i - from] == c);
        if !('0' <= c && c <= '9') {
            assert(!is_digit(digits[i - from]));
            return None;
        }
        let d: u64 = (c as u32 - '0' as u32) as u64;
        proof {
            let head = digits.take(i + 1 - from);
            assert(head.drop_last() == digits.take(i - from));
            assert(decimal_value(head) == value * 10 + d);
            assert(forall|j: int| 0 <= j < head.len() ==> is_digit(#[trigger] head[j])) by {
                assert forall|j: int| 0 <= j < head.len() implies is_digit(
                    #[trigger] head[j],
                ) by {
                    if j < i - from {
                        assert(digits.take(i - from)[j] == head[j]);
                    }
                }
            }
            if value * 10 + d > max {
                lemma_decimal_grows(digits, i + 1 - from);
            }
        }
        if value > max / 10 || d > max - value * 10 {
            return None;
        }
        value = value * 10 + d;
        i += 1;
    }
    assert(digits.take(digits.len() as int) == digits);
    Some(value)
}

/// More digits write no smaller number.
proof fn lemma_decimal_grows(s: Seq<char>, k: int)
    requires
        0 <= k <= s.len(),
    ensures
        all_digits(s) ==> decimal_value(s.take(k)) <= decimal_value(s),
    decreases s.len(),
{
    if all_digits(s) {
        if k == s.len() {
            assert(s.take(k) == s);
        } else {
            let shorter = s.drop_last();
            assert(all_digits(shorter)) by {
                assert forall|i: int| 0 <= i < shorter.len() implies is_digit(
                    #[trigger] shorter[i],
                ) by {
                    assert(is_digit(s[i]));
                }
            }
            lemma_decimal_grows(shorter, k);
            assert(shorter.take(k) == s.take(k));
            assert(is_digit(s[s.len() - 1]));
        }
    }
}

/// Dictionary order by code point, which is the order of the UTF-8 bytes.
pub open spec fn text_le(a: Seq<char>, b: Seq<char>) -> bool
    decreases a.len(),
{
    if a.len() == 0 {
        true
    } else if b.len() == 0 {
        false
    } else {
        a[0] < b[0] || a[0] == b[0] && text_le(a.drop_first(), b.drop_first())
    }
}

/// Of two texts one comes first.
pub proof fn lemma_text_le_total(a: Seq<char>, b: Seq<char>)
    ensures
        text_le(a, b) || text_le(b, a),
    decreases a.len(),
{
    if a.len() > 0 && b.len() > 0 && a[0] == b[0] {
        lemma_text_le_total(a.drop_first(), b.drop_first());
    }
}

/// What comes before what comes before a text comes before it.
pub proof fn lemma_text_le_transitive(a: Seq<char>, b: Seq<char>, c: Seq<char>)
    requires
        text_le(a, b),
        text_le(b, c),
    ensures
        text_le(a, c),
    decreases a.len(),
{
    if a.len() > 0 && a[0] == b[0] && b[0] == c[0] {
        lemma_text_le_transitive(a.drop_first(), b.drop_first(), c.drop_first());
    }
}

/// Whether `a` comes before `b`, or is the same.
pub fn comes_before(a: &str, b: &str) -> (r: bool)
    ensures
        r == text_le(a@, b@),
{
    let x = chars_of(a);
    let y = chars_of(b);
    let mut i: usize = 0;
    assert(x@.skip(0) == a@ && y@.skip(0) == b@);
    while i < x.len()
        invariant
            i <= x.len(),
            i <= y.len(),
            text_le(a@, b@) == text_le(x@.skip(i as int), y@.skip(i as int)),
        decreases x.len() - i,
    {
        if i == y.len() {
            return false;
        }
        assert(x@.skip(i as int).drop_first() == x@.skip(i + 1));
        assert(y@.skip(i as int).drop_first() == y@.skip(i + 1));
        if x[i] != y[i] {
            return x[i] < y[i];
        }
        i += 1;
    }
    true
}

/// A number in decimal, without leading zeros.
pub open spec fn decimal_of(n: nat) -> Seq<char>
    decreases n,
{
    if n < 10 {
        seq![('0' as u32 + n) as char]
    } else {
        decimal_of(n / 10).push(('0' as u32 + n % 10) as char)
    }
}

/// Append a number in decimal.
pub fn push_decimal(out: &mut String, n: u64)
    ensures
        final(out)@ == old(out)@ + decimal_of(n as nat),
    decreases n,
{
    if n >= 10 {
        push_decimal(out, n / 10);
    }
    let d: u8 = (n % 10) as u8;
    out.push(('0' as u8 + d) as char);
}

}
