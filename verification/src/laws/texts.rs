//! What the operations on text give.

use vstd::prelude::*;
use crate::text::{
    after, all_digits, before, chars_of, comes_before, contains_char, contains_text, cut,
    decimal_of, decimal_value, ends_with, is_digit, lemma_cut, lower_char, parse_number,
    push_decimal, split_on, split_once, split_text, starts_with, string_of_range, text_before,
    text_eq, text_le, texts, to_lower, to_lower_char, trim, trim_end, trim_start, white_space,
};

verus! {

/// The pieces with the separator between them.
pub open spec fn joined(pieces: Seq<Seq<char>>, c: char) -> Seq<char>
    decreases pieces.len(),
{
    if pieces.len() == 0 {
        Seq::empty()
    } else if pieces.len() == 1 {
        pieces[0]
    } else {
        pieces[0] + seq![c] + joined(pieces.drop_first(), c)
    }
}

/// The pieces of a text hold no separator, and make it up with one between each two.
pub proof fn lemma_split(s: Seq<char>, c: char)
    ensures
        split_on(s, c).len() > 0,
        joined(split_on(s, c), c) == s,
        forall|i: int| 0 <= i < split_on(s, c).len() ==> !(#[trigger] split_on(s, c)[i]).contains(c),
    decreases s.len(),
{
    lemma_cut(s, c);
    if cut(s, c) >= s.len() {
        assert(split_on(s, c) =~= seq![s]);
        assert(!s.contains(c));
    } else {
        lemma_split(after(s, c), c);
        let rest = split_on(after(s, c), c);
        let all = split_on(s, c);
        assert(all =~= seq![before(s, c)] + rest);
        assert(all.drop_first() =~= rest);
        assert(s =~= before(s, c) + seq![c] + after(s, c));
        assert forall|i: int| 0 <= i < all.len() implies !(#[trigger] all[i]).contains(c) by {
            if i == 0 {
                assert(!before(s, c).contains(c));
            } else {
                assert(all[i] == rest[i - 1]);
            }
        }
    }
}

/// Splitting cuts at every separator and nowhere else: no piece holds one, and the
/// pieces with separators between them are the text.
pub proof fn splitting_cuts_at_every_separator(s: &str, c: char, pieces: Vec<String>)
    requires
        call_ensures(split_text, (s, c), pieces),
    ensures
        pieces@.len() > 0,
        joined(texts(pieces@), c) == s@,
        forall|i: int| 0 <= i < pieces@.len() ==> !(#[trigger] pieces@[i])@.contains(c),
{
    lemma_split(s@, c);
    assert forall|i: int| 0 <= i < pieces@.len() implies !(#[trigger] pieces@[i])@.contains(c) by {
        assert(texts(pieces@)[i] == pieces@[i]@);
    }
}

/// A text is cut at its first separator.
pub proof fn cutting_is_at_the_first_separator(
    s: &str,
    c: char,
    parts: Option<(String, String)>,
    front: String,
)
    requires
        call_ensures(split_once, (s, c), parts),
        call_ensures(text_before, (s, c), front),
    ensures
        !front@.contains(c),
        parts matches Some((a, b)) ==> a@ == front@ && s@ == a@ + seq![c] + b@,
        parts is None ==> front@ == s@ && !s@.contains(c),
{
    lemma_cut(s@, c);
    if s@.contains(c) {
        assert(s@ =~= before(s@, c) + seq![c] + after(s@, c));
    } else {
        assert(before(s@, c) =~= s@);
    }
}

proof fn lemma_trim_start(s: Seq<char>) -> (k: int)
    ensures
        0 <= k <= s.len(),
        trim_start(s) == s.skip(k),
        forall|i: int| 0 <= i < k ==> white_space(#[trigger] s[i]),
        k < s.len() ==> !white_space(s[k]),
    decreases s.len(),
{
    if s.len() > 0 && white_space(s[0]) {
        let k = lemma_trim_start(s.drop_first());
        assert(s.skip(k + 1) =~= s.drop_first().skip(k));
        assert forall|i: int| 0 <= i < k + 1 implies white_space(#[trigger] s[i]) by {
            if i > 0 {
                assert(s.drop_first()[i - 1] == s[i]);
            }
        }
        k + 1
    } else {
        assert(s.skip(0) =~= s);
        0
    }
}

proof fn lemma_trim_end(s: Seq<char>) -> (k: int)
    ensures
        0 <= k <= s.len(),
        trim_end(s) == s.take(k),
        forall|i: int| k <= i < s.len() ==> white_space(#[trigger] s[i]),
        k > 0 ==> !white_space(s[k - 1]),
    decreases s.len(),
{
    if s.len() > 0 && white_space(s.last()) {
        let k = lemma_trim_end(s.drop_last());
        assert(s.take(k) =~= s.drop_last().take(k));
        assert forall|i: int| k <= i < s.len() implies white_space(#[trigger] s[i]) by {
            if i < s.len() - 1 {
                assert(s.drop_last()[i] == s[i]);
            }
        }
        k
    } else {
        assert(s.take(s.len() as int) =~= s);
        s.len() as int
    }
}

/// Trimming takes the white space off both ends and nothing else.
pub proof fn trimming_takes_off_white_space(s: &str, r: String) -> (at: (int, int))
    requires
        call_ensures(trim, (s,), r),
    ensures
        0 <= at.0 <= at.1 <= s@.len(),
        r@ == s@.subrange(at.0, at.1),
        forall|i: int|
            0 <= i < at.0 || at.1 <= i < s@.len() ==> white_space(#[trigger] s@[i]),
        r@.len() > 0 ==> !white_space(r@[0]) && !white_space(r@.last()),
{
    let a = lemma_trim_start(s@);
    let rest = s@.skip(a);
    let b = lemma_trim_end(rest);
    assert(r@ =~= s@.subrange(a, a + b));
    assert forall|i: int| 0 <= i < a || a + b <= i < s@.len() implies white_space(
        #[trigger] s@[i],
    ) by {
        if i >= a + b {
            assert(rest[i - a] == s@[i]);
        }
    }
    if r@.len() > 0 {
        assert(r@[0] == s@[a]);
        assert(r@.last() == rest[b - 1]);
    }
    (a, a + b)
}

/// White space is blanks and line ends, and no letter, digit or other visible character
/// of ASCII.
pub proof fn white_space_is_invisible(c: char)
    ensures
        c == ' ' || c == '\t' || c == '\n' || c == '\r' ==> white_space(c),
        '!' <= c <= '~' ==> !white_space(c),
{
}

/// Lower case replaces each of the letters from A to Z by its small letter, and keeps
/// every other character and the order.
pub proof fn lower_case_is_letter_by_letter(s: &str, r: String, c: char, small: char)
    requires
        call_ensures(to_lower, (s,), r),
        call_ensures(to_lower_char, (c,), small),
    ensures
        'A' <= c <= 'Z' ==> small as u32 == c as u32 + 32,
        !('A' <= c <= 'Z') ==> small == c,
        r@.len() == s@.len(),
        forall|i: int|
            0 <= i < s@.len() && 'A' <= #[trigger] s@[i] <= 'Z' ==> r@[i] as u32 == s@[i] as u32
                + 32,
        forall|i: int|
            0 <= i < s@.len() && !('A' <= #[trigger] s@[i] <= 'Z') ==> r@[i] == s@[i],
{
    assert forall|i: int| 0 <= i < s@.len() && 'A' <= #[trigger] s@[i] <= 'Z' implies r@[i] as u32
        == s@[i] as u32 + 32 by {
        assert(r@[i] == lower_char(s@[i]));
    }
}

/// A number in decimal: digits alone, without a leading zero, of that value.
pub proof fn lemma_decimal(n: nat)
    ensures
        decimal_of(n).len() > 0,
        all_digits(decimal_of(n)),
        decimal_value(decimal_of(n)) == n,
        decimal_of(n)[0] == '0' ==> n == 0,
        n < 10 ==> decimal_of(n).len() == 1,
    decreases n,
{
    reveal_with_fuel(decimal_value, 2);
    if n < 10 {
        assert(decimal_of(n).drop_last() =~= Seq::<char>::empty());
        let c = ('0' as u32 + n) as char;
        assert(is_digit(c));
    } else {
        lemma_decimal(n / 10);
        let front = decimal_of(n / 10);
        let c = ('0' as u32 + n % 10) as char;
        assert(decimal_of(n).drop_last() =~= front);
        assert(is_digit(c));
        assert forall|i: int| 0 <= i < decimal_of(n).len() implies is_digit(
            #[trigger] decimal_of(n)[i],
        ) by {
            if i < front.len() {
                assert(decimal_of(n)[i] == front[i]);
            }
        }
        assert(decimal_of(n)[0] == front[0]);
    }
}

/// A number that is written in decimal reads back as itself: digits alone, no leading
/// zero, and the value that it had.
pub proof fn decimals_read_back(n: u64, max: u64, s: &str, r: Option<u64>)
    requires
        call_ensures(parse_number, (s, max), r),
        s@ == decimal_of(n as nat) || s@ == seq!['+'] + decimal_of(n as nat),
    ensures
        n <= max ==> r == Some(n),
        n > max ==> r is None,
        decimal_of(n as nat)[0] == '0' ==> n == 0,
        all_digits(decimal_of(n as nat)),
{
    lemma_decimal(n as nat);
    let d = decimal_of(n as nat);
    assert(is_digit(d[0]));
    if s@ == seq!['+'] + d {
        assert(s@.drop_first() =~= d);
    }
}

/// What holds anything but digits, behind a `+` or not, is no number.
pub proof fn only_digits_are_numbers(s: &str, max: u64, r: Option<u64>, i: int)
    requires
        call_ensures(parse_number, (s, max), r),
        s@.len() == 0 || 0 <= i < s@.len() && !('0' <= s@[i] <= '9') && !(i == 0 && s@[i] == '+'),
    ensures
        r is None,
{
    if s@.len() > 0 {
        let digits = if s@[0] == '+' {
            s@.drop_first()
        } else {
            s@
        };
        let k = if s@[0] == '+' {
            i - 1
        } else {
            i
        };
        assert(digits[k] == s@[i]);
        assert(!all_digits(digits)) by {
            assert(!is_digit(digits[k]));
        }
    }
}

/// Texts are ordered by their first difference, a text before those that it begins.
pub proof fn order_is_by_the_first_difference(a: &str, b: &str, r: bool, k: int)
    requires
        call_ensures(comes_before, (a, b), r),
        0 <= k <= a@.len(),
        k <= b@.len(),
        forall|i: int| 0 <= i < k ==> a@[i] == b@[i],
        k == a@.len() || k == b@.len() || a@[k] != b@[k],
    ensures
        k == a@.len() ==> r,
        k < a@.len() && k == b@.len() ==> !r,
        k < a@.len() && k < b@.len() ==> r == (a@[k] < b@[k]),
{
    lemma_order(a@, b@, k);
}

proof fn lemma_order(a: Seq<char>, b: Seq<char>, k: int)
    requires
        0 <= k <= a.len(),
        k <= b.len(),
        forall|i: int| 0 <= i < k ==> a[i] == b[i],
        k == a.len() || k == b.len() || a[k] != b[k],
    ensures
        k == a.len() ==> text_le(a, b),
        k < a.len() && k == b.len() ==> !text_le(a, b),
        k < a.len() && k < b.len() ==> text_le(a, b) == (a[k] < b[k]),
    decreases k,
{
    if k > 0 {
        assert(a[0] == b[0]);
        assert forall|i: int| 0 <= i < k - 1 implies a.drop_first()[i] == b.drop_first()[i] by {
            assert(a[i + 1] == b[i + 1]);
        }
        lemma_order(a.drop_first(), b.drop_first(), k - 1);
    }
}

/// One more digit makes a number ten times as large and adds the digit; a digit alone is
/// its own value.
pub proof fn digits_add_up(
    s: &str,
    longer: &str,
    digit: &str,
    max: u64,
    r: Option<u64>,
    r_longer: Option<u64>,
    r_digit: Option<u64>,
    d: u64,
)
    requires
        call_ensures(parse_number, (s, max), r),
        call_ensures(parse_number, (longer, max), r_longer),
        call_ensures(parse_number, (digit, max), r_digit),
        d < 10,
        digit@ == seq![('0' as u32 + d) as char],
        longer@ == s@ + digit@,
    ensures
        d <= max ==> r_digit == Some(d),
        r matches Some(n) ==> (n * 10 + d <= max ==> r_longer == Some((n * 10 + d) as u64)),
        r matches Some(n) ==> (n * 10 + d > max ==> r_longer is None),
{
    reveal_with_fuel(decimal_value, 2);
    let c = ('0' as u32 + d) as char;
    assert(is_digit(c));
    assert(digit@.drop_last() =~= Seq::<char>::empty());
    assert(digit@.last() == c);
    if r is Some {
        let signed = s@[0] == '+';
        let digits = if signed {
            s@.drop_first()
        } else {
            s@
        };
        let more = if signed {
            longer@.drop_first()
        } else {
            longer@
        };
        assert(longer@[0] == s@[0]);
        assert(more =~= digits.push(c));
        assert(more.drop_last() =~= digits);
        assert forall|i: int| 0 <= i < more.len() implies is_digit(#[trigger] more[i]) by {
            if i < digits.len() {
                assert(more[i] == digits[i]);
            }
        }
    }
}

/// A number is written behind what is there, its digits in order: those of its tenth
/// part and then the last one.
pub proof fn decimals_are_appended(out: &mut String, tenth: &mut String, n: u64)
    requires
        old(tenth)@ == old(out)@,
        call_ensures(push_decimal, (out, n), ()),
        call_ensures(push_decimal, (tenth, n / 10), ()),
    ensures
        n < 10 ==> final(out)@ == old(out)@ + seq![('0' as u32 + n) as char],
        n >= 10 ==> final(out)@ == final(tenth)@ + seq![('0' as u32 + n % 10) as char],
{
    if n >= 10 {
        assert(final(out)@ =~= final(tenth)@ + seq![('0' as u32 + n % 10) as char]);
    }
}

/// What a text begins with, ends in and contains.
pub proof fn parts_are_found_where_they_stand(
    s: &str,
    part: &str,
    c: char,
    equal: bool,
    at_start: bool,
    at_end: bool,
    inside: bool,
    has: bool,
)
    requires
        call_ensures(text_eq, (s, part), equal),
        call_ensures(starts_with, (s, part), at_start),
        call_ensures(ends_with, (s, part), at_end),
        call_ensures(contains_text, (s, part), inside),
        call_ensures(contains_char, (s, c), has),
    ensures
        equal <==> s@ == part@,
        at_start <==> s@.len() >= part@.len() && forall|i: int|
            0 <= i < part@.len() ==> #[trigger] part@[i] == s@[i],
        at_end <==> s@.len() >= part@.len() && forall|i: int|
            0 <= i < part@.len() ==> #[trigger] part@[i] == s@[s@.len() - part@.len() + i],
        inside <==> exists|front: Seq<char>, back: Seq<char>| s@ == #[trigger] (front + part@ + back),
        has <==> exists|i: int| 0 <= i < s@.len() && s@[i] == c,
{
    let n = part@.len() as int;
    if s@.len() >= n {
        let head = s@.subrange(0, n);
        let tail = s@.subrange(s@.len() - n, s@.len() as int);
        if at_start {
            assert forall|i: int| 0 <= i < n implies #[trigger] part@[i] == s@[i] by {
                assert(head[i] == s@[i]);
            }
        }
        if forall|i: int| 0 <= i < n ==> #[trigger] part@[i] == s@[i] {
            assert(head =~= part@);
        }
        if at_end {
            assert forall|i: int| 0 <= i < n implies #[trigger] part@[i] == s@[s@.len() - n
                + i] by {
                assert(tail[i] == s@[s@.len() - n + i]);
            }
        }
        if forall|i: int| 0 <= i < n ==> #[trigger] part@[i] == s@[s@.len() - n + i] {
            assert(tail =~= part@);
        }
    }
    if inside {
        let i = choose|i: int|
            0 <= i <= s@.len() - part@.len() && #[trigger] s@.subrange(i, i + part@.len())
                == part@;
        assert(s@ =~= s@.take(i) + part@ + s@.skip(i + n)) by {
            assert forall|k: int| 0 <= k < s@.len() implies s@[k] == (s@.take(i) + part@ + s@.skip(
                i + n,
            ))[k] by {
                if i <= k < i + n {
                    assert(s@.subrange(i, i + n)[k - i] == part@[k - i]);
                }
            }
        }
    }
    if exists|front: Seq<char>, back: Seq<char>| s@ == #[trigger] (front + part@ + back) {
        let (front, back) = choose|front: Seq<char>, back: Seq<char>|
            s@ == #[trigger] (front + part@ + back);
        assert(s@.subrange(front.len() as int, front.len() + n) =~= part@);
    }
}

/// The characters of a text are those of the text, and a range of them is the text of
/// that range.
pub proof fn characters_make_the_text(
    s: &str,
    chars: Vec<char>,
    from: usize,
    to: usize,
    r: String,
)
    requires
        call_ensures(chars_of, (s,), chars),
        from <= to <= chars@.len(),
        call_ensures(string_of_range, (&chars, from, to), r),
    ensures
        chars@.len() == s@.len(),
        r@.len() == to - from,
        forall|i: int| 0 <= i < r@.len() ==> #[trigger] r@[i] == s@[from + i],
        from == 0 && to == chars@.len() ==> r@ == s@,
{
    if from == 0 && to == chars@.len() {
        assert(r@ =~= s@);
    }
}

} // verus!
