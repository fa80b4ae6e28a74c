//! Small text operations: decimal numbers, ASCII case and white space.

use vstd::prelude::*;
use vstd::string::*;

verus! {

/// The character of a decimal digit.
pub open spec fn digit_char(d: int) -> char {
    ('0' as int + d) as char
}

/// Whether `c` is one of `0` to `9`.
pub open spec fn is_digit(c: char) -> bool {
    '0' <= c <= '9'
}

/// The decimal digits of `n`, most significant first, without leading zeros.
pub open spec fn decimal(n: nat) -> Seq<char>
    decreases n,
{
    if n < 10 {
        seq![digit_char(n as int)]
    } else {
        decimal(n / 10).push(digit_char((n % 10) as int))
    }
}

/// The number that a row of decimal digits stands for.
pub open spec fn digits_value(s: Seq<char>) -> nat
    decreases s.len(),
{
    if s.len() == 0 {
        0
    } else {
        digits_value(s.drop_last()) * 10 + ((s.last() as int - '0' as int) as nat)
    }
}

/// Whether `s` is a non-empty row of decimal digits.
pub open spec fn all_digits(s: Seq<char>) -> bool {
    &&& s.len() > 0
    &&& forall|i: int| 0 <= i < s.len() ==> is_digit(#[trigger] s[i])
}

/// The unsigned number that `s` spells: an optional `+` and then only digits,
/// with a value of at most `max`.
pub open spec fn unsigned_value(s: Seq<char>, max: nat) -> Option<nat> {
    let digits = if s.len() > 0 && s[0] == '+' {
        s.skip(1)
    } else {
        s
    };
    if all_digits(digits) && digits_value(digits) <= max {
        Some(digits_value(digits))
    } else {
        None
    }
}

/// The ASCII lower case of a character; every other character is kept.
pub open spec fn ascii_lower_char(c: char) -> char {
    if 'A' <= c <= 'Z' {
        (c as int + 32) as char
    } else {
        c
    }
}

/// `s` with its ASCII letters in lower case.
pub open spec fn ascii_lower(s: Seq<char>) -> Seq<char> {
    Seq::new(s.len(), |i: int| ascii_lower_char(s[i]))
}

/// The Unicode property `White_Space`.
pub open spec fn is_white_space(c: char) -> bool {
    ||| 0x9 <= c as int <= 0xd
    ||| c as int == 0x20
    ||| c as int == 0x85
    ||| c as int == 0xa0
    ||| c as int == 0x1680
    ||| 0x2000 <= c as int <= 0x200a
    ||| c as int == 0x2028
    ||| c as int == 0x2029
    ||| c as int == 0x202f
    ||| c as int == 0x205f
    ||| c as int == 0x3000
}

/// `s` without the white space at its start.
pub open spec fn trim_start(s: Seq<char>) -> Seq<char>
    decreases s.len(),
{
    if s.len() > 0 && is_white_space(s[0]) {
        trim_start(s.skip(1))
    } else {
        s
    }
}

/// `s` without the white space at its end.
pub open spec fn trim_end(s: Seq<char>) -> Seq<char>
    decreases s.len(),
{
    if s.len() > 0 && is_white_space(s.last()) {
        trim_end(s.drop_last())
    } else {
        s
    }
}

/// `s` without the white space at its ends.
pub open spec fn trimmed(s: Seq<char>) -> Seq<char> {
    trim_end(trim_start(s))
}

/// `str::to_ascii_lowercase`: the letters `A` to `Z` become `a` to `z`, and
/// every other character stays as it is.
pub assume_specification[ str::to_ascii_lowercase ](s: &str) -> (lower: String)
    ensures
        lower@ == ascii_lower(s@),
;

/// Whether two texts are the same, character for character.
pub fn same_text(a: &str, b: &str) -> (same: bool)
    ensures
        same == (a@ == b@),
{
    a.to_owned() == b.to_owned()
}

/// Whether `s` begins with `prefix`.
pub fn begins_with(s: &str, prefix: &str) -> (r: bool)
    ensures
        r == prefix@.is_prefix_of(s@),
{
    let n: usize = prefix.unicode_len();
    if s.unicode_len() < n {
        return false;
    }
    let head: &str = s.substring_char(0, n);
    let same: bool = same_text(head, prefix);
    assert(s@.subrange(0, n as int) == prefix@ <==> prefix@.is_prefix_of(s@));
    same
}

fn digit_text(d: u64) -> (text: &'static str)
    requires
        d < 10,
    ensures
        text@ == seq![digit_char(d as int)],
{
    proof {
        reveal_strlit("0");
        reveal_strlit("1");
        reveal_strlit("2");
        reveal_strlit("3");
        reveal_strlit("4");
        reveal_strlit("5");
        reveal_strlit("6");
        reveal_strlit("7");
        reveal_strlit("8");
        reveal_strlit("9");
    }
    let text: &'static str = match d {
        0 => "0",
        1 => "1",
        2 => "2",
        3 => "3",
        4 => "4",
        5 => "5",
        6 => "6",
        7 => "7",
        8 => "8",
        _ => "9",
    };
    assert(text@ =~= seq![digit_char(d as int)]);
    text
}

/// The decimal text of `n`.
pub fn decimal_text(n: u64) -> (text: String)
    ensures
        text@ == decimal(n as nat),
    decreases n,
{
    if n < 10 {
        String::from_str(digit_text(n))
    } else {
        let mut text: String = decimal_text(n / 10);
        let ghost high = text@;
        text.append(digit_text(n % 10));
        assert(text@ =~= high.push(digit_char((n % 10) as int)));
        text
    }
}

proof fn lemma_digits_value_grows(s: Seq<char>, k: int)
    requires
        0 <= k <= s.len(),
    ensures
        digits_value(s.take(k)) <= digits_value(s),
    decreases s.len() - k,
{
    if k < s.len() {
        lemma_digits_value_grows(s, k + 1);
        assert(s.take(k + 1).drop_last() =~= s.take(k));
    } else {
        assert(s.take(k) =~= s);
    }
}

/// Read an unsigned number: an optional `+` followed by digits only, with a
/// value of at most `max`.
pub fn parse_unsigned(s: &str, max: u64) -> (value: Option<u64>)
    ensures
        match value {
            Some(v) => unsigned_value(s@, max as nat) == Some(v as nat),
            None => unsigned_value(s@, max as nat) is None,
        },
{
    let n: usize = s.unicode_len();
    let signed: bool = n > 0 && s.get_char(0) == '+';
    let start: usize = if signed {
        1
    } else {
        0
    };
    let ghost digits = if s@.len() > 0 && s@[0] == '+' {
        s@.skip(1)
    } else {
        s@
    };
    if start == n {
        assert(!all_digits(digits));
        return None;
    }
    assert(digits.take(0) =~= Seq::<char>::empty());
    let mut value: u64 = 0;
    let mut i: usize = start;
    while i < n
        invariant
            n == s@.len(),
            start <= i <= n,
            start <= 1,
            digits == s@.skip(start as int),
            forall|k: int| 0 <= k < i - start ==> is_digit(#[trigger] digits[k]),
            value == digits_value(digits.take(i - start)),
            value <= max,
            unsigned_value(s@, max as nat) == if all_digits(digits) && digits_value(digits) <= max {
                Some(digits_value(digits))
            } else {
                None
            },
        decreases n - i,
    {
        let c: char = s.get_char(i);
        assert(c == digits[i - start]);
        if c < '0' || c > '9' {
            assert(!is_digit(digits[i - start]));
            return None;
        }
        let d: u64 = (c as u32 - '0' as u32) as u64;
        let next: u128 = (value as u128) * 10 + (d as u128);
        proof {
            let upto = digits.take(i - start + 1);
            assert(upto.drop_last() =~= digits.take(i - start));
            assert(upto.last() == c);
            assert(next == digits_value(upto));
            lemma_digits_value_grows(digits, i - start + 1);
        }
        if next > max as u128 {
            return None;
        }
        value = next as u64;
        i = i + 1;
    }
    assert(digits.take(n - start) =~= digits);
    Some(value)
}

fn white_space(c: char) -> (r: bool)
    ensures
        r == is_white_space(c),
{
    let v: u32 = c as u32;
    (0x9 <= v && v <= 0xd) || v == 0x20 || v == 0x85 || v == 0xa0 || v == 0x1680 || (0x2000 <= v
        && v <= 0x200a) || v == 0x2028 || v == 0x2029 || v == 0x202f || v == 0x205f || v == 0x3000
}

/// The part of `s` between the white space at its ends.
pub fn trim(s: &str) -> (middle: &str)
    ensures
        middle@ == trimmed(s@),
{
    let n: usize = s.unicode_len();
    let mut i: usize = 0;
    assert(s@.skip(0) =~= s@);
    while i < n && white_space(s.get_char(i))
        invariant
            n == s@.len(),
            i <= n,
            trim_start(s@) == trim_start(s@.skip(i as int)),
        decreases n - i,
    {
        assert(s@.skip(i as int).skip(1) =~= s@.skip(i + 1));
        i = i + 1;
    }
    let ghost rest = s@.skip(i as int);
    assert(trim_start(s@) == rest);
    let mut j: usize = n;
    assert(s@.subrange(i as int, n as int) =~= rest);
    while j > i && white_space(s.get_char(j - 1))
        invariant
            n == s@.len(),
            i <= j <= n,
            trim_end(rest) == trim_end(s@.subrange(i as int, j as int)),
        decreases j,
    {
        assert(s@.subrange(i as int, j as int).drop_last() =~= s@.subrange(i as int, j - 1));
        j = j - 1;
    }
    s.substring_char(i, j)
}

proof fn lemma_decimal_digits(n: nat)
    ensures
        all_digits(decimal(n)),
        digits_value(decimal(n)) == n,
        decimal(n)[0] == '0' ==> n == 0,
    decreases n,
{
    if n < 10 {
        let s = decimal(n);
        assert(s.drop_last() =~= Seq::<char>::empty());
        assert(digits_value(s.drop_last()) == 0);
    } else {
        lemma_decimal_digits(n / 10);
        assert(decimal(n).drop_last() =~= decimal(n / 10));
        assert(decimal(n)[0] == decimal(n / 10)[0]);
    }
}

/// A number that is written out reads back as that number, with or without a
/// sign in front, wherever it is allowed to be that large.
pub proof fn law_decimal_text_reads_back(n: nat, max: nat)
    ensures
        n <= max ==> unsigned_value(decimal(n), max) == Some(n),
        n <= max ==> unsigned_value(seq!['+'] + decimal(n), max) == Some(n),
        n > max ==> unsigned_value(decimal(n), max) is None,
{
    lemma_decimal_digits(n);
    assert(is_digit(decimal(n)[0]));
    assert((seq!['+'] + decimal(n)).skip(1) =~= decimal(n));
}

/// A number is written without leading zeros.
pub proof fn law_decimal_text_has_no_leading_zero(n: nat)
    ensures
        decimal(n).len() >= 1,
        n > 0 ==> decimal(n)[0] != '0',
        n == 0 ==> decimal(n) == seq!['0'],
{
    lemma_decimal_digits(n);
}

/// A digit that is appended to a number makes it ten times as large and adds its
/// own value; a digit alone is its own value.
pub proof fn law_a_digit_is_worth_its_place(s: Seq<char>, value: nat, digit: nat, max: nat)
    requires
        digit < 10,
    ensures
        digit <= max ==> unsigned_value(seq![('0' as int + digit) as char], max) == Some(digit),
        unsigned_value(s, max) == Some(value) && value * 10 + digit <= max ==> unsigned_value(
            s.push(('0' as int + digit) as char),
            max,
        ) == Some((value * 10 + digit) as nat),
        unsigned_value(s, max) == Some(value) && value * 10 + digit > max ==> unsigned_value(
            s.push(('0' as int + digit) as char),
            max,
        ) is None,
        unsigned_value(s, max) is None && s.len() > 0 && s != seq!['+'] ==> unsigned_value(
            s.push(('0' as int + digit) as char),
            max,
        ) is None,
{
    let c = ('0' as int + digit) as char;
    let one = seq![c];
    assert(one.drop_last() =~= Seq::<char>::empty());
    assert(digits_value(one.drop_last()) == 0);
    let t = s.push(c);
    if unsigned_value(s, max) is Some {
        if s[0] == '+' {
            assert(t.skip(1).drop_last() =~= s.skip(1));
            assert(t.skip(1) =~= s.skip(1).push(c));
        } else {
            assert(t.drop_last() =~= s);
        }
    } else if s.len() > 0 && s != seq!['+'] {
        assert(t[0] == s[0]);
        let (shorter, longer) = if s[0] == '+' {
            (s.skip(1), t.skip(1))
        } else {
            (s, t)
        };
        assert(longer =~= shorter.push(c));
        assert(longer.drop_last() =~= shorter);
        if s[0] == '+' && s.len() == 1 {
            assert(s =~= seq!['+']);
        }
        if all_digits(longer) {
            assert forall|i: int| 0 <= i < shorter.len() implies is_digit(#[trigger] shorter[i]) by {
                assert(longer[i] == shorter[i]);
            }
        }
    }
}

/// A text that is empty, only a sign, or holds anything but digits behind an
/// optional sign is no number.
pub proof fn law_only_digits_are_a_number(s: Seq<char>, i: int, max: nat)
    ensures
        unsigned_value(Seq::empty(), max) is None,
        unsigned_value(seq!['+'], max) is None,
        0 <= i < s.len() && !('0' <= s[i] <= '9') && !(i == 0 && s[0] == '+') ==> unsigned_value(
            s,
            max,
        ) is None,
{
    assert(seq!['+'].skip(1) =~= Seq::<char>::empty());
    if 0 <= i < s.len() && !('0' <= s[i] <= '9') && !(i == 0 && s[0] == '+') {
        if s[0] == '+' {
            assert(s.skip(1)[i - 1] == s[i]);
        }
        assert(!is_digit(s[i]));
    }
}

/// Lower case changes the letters `A` to `Z` into `a` to `z` and nothing else.
pub proof fn law_lower_case_touches_only_capitals(s: Seq<char>, i: int)
    requires
        0 <= i < s.len(),
    ensures
        ascii_lower(s).len() == s.len(),
        'A' <= s[i] <= 'Z' ==> ascii_lower(s)[i] as int == s[i] as int - 'A' as int + 'a' as int,
        !('A' <= s[i] <= 'Z') ==> ascii_lower(s)[i] == s[i],
        ascii_lower(ascii_lower(s)) == ascii_lower(s),
{
    assert(ascii_lower(ascii_lower(s)) =~= ascii_lower(s)) by {
        assert forall|k: int| 0 <= k < s.len() implies ascii_lower(ascii_lower(s))[k]
            == ascii_lower(s)[k] by {
            assert(ascii_lower(s)[k] == ascii_lower_char(s[k]));
        }
    }
}

/// The white space of Unicode, code point by code point.
pub proof fn law_white_space_is_that_of_unicode(c: char)
    ensures
        is_white_space(c) <==> seq![
            0x9int,
            0xa,
            0xb,
            0xc,
            0xd,
            0x20,
            0x85,
            0xa0,
            0x1680,
            0x2000,
            0x2001,
            0x2002,
            0x2003,
            0x2004,
            0x2005,
            0x2006,
            0x2007,
            0x2008,
            0x2009,
            0x200a,
            0x2028,
            0x2029,
            0x202f,
            0x205f,
            0x3000,
        ].contains(c as int),
{
    let all = seq![
        0x9int,
        0xa,
        0xb,
        0xc,
        0xd,
        0x20,
        0x85,
        0xa0,
        0x1680,
        0x2000,
        0x2001,
        0x2002,
        0x2003,
        0x2004,
        0x2005,
        0x2006,
        0x2007,
        0x2008,
        0x2009,
        0x200a,
        0x2028,
        0x2029,
        0x202f,
        0x205f,
        0x3000,
    ];
    let v = c as int;
    if is_white_space(c) {
        let i: int = if v <= 0xd {
            v - 0x9
        } else if v == 0x20 {
            5
        } else if v == 0x85 {
            6
        } else if v == 0xa0 {
            7
        } else if v == 0x1680 {
            8
        } else if v <= 0x200a {
            v - 0x2000 + 9
        } else if v == 0x2028 {
            20
        } else if v == 0x2029 {
            21
        } else if v == 0x202f {
            22
        } else if v == 0x205f {
            23
        } else {
            24
        };
        assert(all[i] == v);
    }
    if all.contains(v) {
        let i = choose|i: int| 0 <= i < all.len() && all[i] == v;
        assert(all.len() == 25);
    }
}

/// Whether a text is white space only.
pub open spec fn is_blank(s: Seq<char>) -> bool {
    forall|i: int| 0 <= i < s.len() ==> is_white_space(#[trigger] s[i])
}

proof fn lemma_trim_start_of_padded(left: Seq<char>, rest: Seq<char>)
    requires
        is_blank(left),
        rest.len() == 0 || !is_white_space(rest[0]),
    ensures
        trim_start(left + rest) == rest,
    decreases left.len(),
{
    if left.len() == 0 {
        assert(left + rest =~= rest);
    } else {
        assert(is_white_space(left[0]));
        assert((left + rest)[0] == left[0]);
        assert((left + rest).skip(1) =~= left.skip(1) + rest);
        assert forall|i: int| 0 <= i < left.skip(1).len() implies is_white_space(
            #[trigger] left.skip(1)[i],
        ) by {
            assert(is_white_space(left[i + 1]));
        }
        lemma_trim_start_of_padded(left.skip(1), rest);
    }
}

proof fn lemma_trim_end_of_padded(rest: Seq<char>, right: Seq<char>)
    requires
        is_blank(right),
        rest.len() == 0 || !is_white_space(rest.last()),
    ensures
        trim_end(rest + right) == rest,
    decreases right.len(),
{
    if right.len() == 0 {
        assert(rest + right =~= rest);
    } else {
        assert(is_white_space(right[right.len() - 1]));
        assert((rest + right).last() == right.last());
        assert((rest + right).drop_last() =~= rest + right.drop_last());
        assert forall|i: int| 0 <= i < right.drop_last().len() implies is_white_space(
            #[trigger] right.drop_last()[i],
        ) by {
            assert(is_white_space(right[i]));
        }
        lemma_trim_end_of_padded(rest, right.drop_last());
    }
}

/// White space around a text is taken off, all of it, and nothing else is.
pub proof fn law_trimming_takes_off_the_padding(
    left: Seq<char>,
    middle: Seq<char>,
    right: Seq<char>,
)
    requires
        is_blank(left),
        is_blank(right),
        middle.len() > 0,
        !is_white_space(middle[0]),
        !is_white_space(middle.last()),
    ensures
        trimmed(left + middle + right) == middle,
        trimmed(left) == Seq::<char>::empty(),
{
    assert(left + middle + right =~= left + (middle + right));
    assert((middle + right)[0] == middle[0]);
    lemma_trim_start_of_padded(left, middle + right);
    lemma_trim_end_of_padded(middle, right);
    assert(left + Seq::<char>::empty() =~= left);
    lemma_trim_start_of_padded(left, Seq::empty());
}

proof fn lemma_trim_start_splits(s: Seq<char>) -> (left: Seq<char>)
    ensures
        is_blank(left),
        s == left + trim_start(s),
        trim_start(s).len() == 0 || !is_white_space(trim_start(s)[0]),
    decreases s.len(),
{
    if s.len() > 0 && is_white_space(s[0]) {
        let rest = lemma_trim_start_splits(s.skip(1));
        let left = seq![s[0]] + rest;
        assert(s =~= left + trim_start(s.skip(1))) by {
            assert(s =~= seq![s[0]] + s.skip(1));
        }
        assert forall|i: int| 0 <= i < left.len() implies is_white_space(#[trigger] left[i]) by {
            if i > 0 {
                assert(left[i] == rest[i - 1]);
            }
        }
        left
    } else {
        assert(s =~= Seq::<char>::empty() + s);
        Seq::empty()
    }
}

proof fn lemma_trim_end_splits(s: Seq<char>) -> (right: Seq<char>)
    ensures
        is_blank(right),
        s == trim_end(s) + right,
        trim_end(s).len() == 0 || !is_white_space(trim_end(s).last()),
    decreases s.len(),
{
    if s.len() > 0 && is_white_space(s.last()) {
        let rest = lemma_trim_end_splits(s.drop_last());
        let right = rest.push(s.last());
        assert(s =~= trim_end(s.drop_last()) + right) by {
            assert(s =~= s.drop_last().push(s.last()));
        }
        assert forall|i: int| 0 <= i < right.len() implies is_white_space(#[trigger] right[i]) by {
            if i < rest.len() {
                assert(right[i] == rest[i]);
            }
        }
        right
    } else {
        assert(s =~= s + Seq::<char>::empty());
        Seq::empty()
    }
}

/// What is left of a text after trimming stands in it between white space.
pub proof fn law_trimming_keeps_the_middle(s: Seq<char>)
    ensures
        exists|left: Seq<char>, right: Seq<char>| #[trigger]
            is_blank(left) && #[trigger] is_blank(right) && s == left + trimmed(s) + right,
{
    let left = lemma_trim_start_splits(s);
    let right = lemma_trim_end_splits(trim_start(s));
    assert(s =~= left + trimmed(s) + right);
    assert(is_blank(left) && is_blank(right));
}

} // verus!
