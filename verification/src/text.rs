//! Comparing, reading and writing short texts.

use vstd::prelude::*;
use vstd::string::*;

verus! {

/// Whether `a` comes before `b` in the order of their characters.
pub open spec fn text_less(a: Seq<char>, b: Seq<char>) -> bool
    decreases a.len(),
{
    if b.len() == 0 {
        false
    } else if a.len() == 0 {
        true
    } else if a[0] != b[0] {
        (a[0] as int) < (b[0] as int)
    } else {
        text_less(a.drop_first(), b.drop_first())
    }
}

pub proof fn lemma_text_less_irreflexive(a: Seq<char>)
    ensures
        !text_less(a, a),
    decreases a.len(),
{
    if a.len() > 0 {
        lemma_text_less_irreflexive(a.drop_first());
    }
}

pub proof fn lemma_text_less_transitive(a: Seq<char>, b: Seq<char>, c: Seq<char>)
    requires
        text_less(a, b),
        text_less(b, c),
    ensures
        text_less(a, c),
    decreases a.len(),
{
    if a.len() > 0 && a[0] == b[0] && b[0] == c[0] {
        lemma_text_less_transitive(a.drop_first(), b.drop_first(), c.drop_first());
    }
}

/// Two texts neither of which comes before the other are the same.
pub proof fn lemma_text_less_total(a: Seq<char>, b: Seq<char>)
    requires
        !text_less(a, b),
        !text_less(b, a),
    ensures
        a == b,
    decreases a.len(),
{
    if a.len() > 0 && b.len() > 0 {
        lemma_text_less_total(a.drop_first(), b.drop_first());
        assert(a =~= seq![a[0]] + a.drop_first());
        assert(b =~= seq![b[0]] + b.drop_first());
        assert(a =~= b);
    } else {
        assert(a =~= b);
    }
}

/// Whether `a` comes before `b` in the order of their characters.
pub fn comes_before(a: &str, b: &str) -> (result: bool)
    ensures
        result == text_less(a@, b@),
{
    let n: usize = a.unicode_len();
    let m: usize = b.unicode_len();
    let mut i: usize = 0;
    proof {
        assert(a@.subrange(0, a@.len() as int) =~= a@);
        assert(b@.subrange(0, b@.len() as int) =~= b@);
    }
    while i < n && i < m
        invariant
            i <= n == a@.len(),
            i <= m == b@.len(),
            text_less(a@.subrange(i as int, n as int), b@.subrange(i as int, m as int))
                == text_less(a@, b@),
        decreases n - i,
    {
        let x: char = a.get_char(i);
        let y: char = b.get_char(i);
        proof {
            let ra = a@.subrange(i as int, n as int);
            let rb = b@.subrange(i as int, m as int);
            assert(ra[0] == x && rb[0] == y);
            assert(ra.drop_first() =~= a@.subrange(i + 1, n as int));
            assert(rb.drop_first() =~= b@.subrange(i + 1, m as int));
        }
        if x != y {
            return (x as u32) < (y as u32);
        }
        i = i + 1;
    }
    i < m
}

/// The value of the decimal digit `c`, if it is one.
pub open spec fn digit_value(c: char) -> Option<int> {
    if '0' as int <= c as int <= '9' as int {
        Some(c as int - '0' as int)
    } else {
        None
    }
}

/// Whether `s` holds nothing but decimal digits.
pub open spec fn all_digits(s: Seq<char>) -> bool {
    forall|i: int| 0 <= i < s.len() ==> digit_value(#[trigger] s[i]) is Some
}

/// The number that the digits `s` stand for.
pub open spec fn digits_value(s: Seq<char>) -> int
    decreases s.len(),
{
    if s.len() == 0 {
        0
    } else {
        digits_value(s.drop_last()) * 10 + digit_value(s.last())->0
    }
}

/// `s` without a plus sign in front.
pub open spec fn without_plus(s: Seq<char>) -> Seq<char> {
    if s.len() > 0 && s[0] == '+' {
        s.drop_first()
    } else {
        s
    }
}

/// The number that `s` stands for: one or more decimal digits, with an optional
/// plus sign in front, whose value fits.
pub open spec fn parsed_u32(s: Seq<char>) -> Option<u32> {
    let d = without_plus(s);
    if d.len() > 0 && all_digits(d) && digits_value(d) <= u32::MAX {
        Some(digits_value(d) as u32)
    } else {
        None
    }
}

proof fn lemma_digits_value_grows(s: Seq<char>, i: int)
    requires
        all_digits(s),
        0 <= i <= s.len(),
    ensures
        0 <= digits_value(s.subrange(0, i)) <= digits_value(s),
    decreases s.len() - i,
{
    if i < s.len() {
        lemma_digits_value_grows(s, i + 1);
        let next = s.subrange(0, i + 1);
        assert(next.drop_last() =~= s.subrange(0, i));
        assert(next.last() == s[i]);
        lemma_digits_value_nonnegative(s.subrange(0, i));
    } else {
        assert(s.subrange(0, i) =~= s);
        lemma_digits_value_nonnegative(s);
    }
}

proof fn lemma_digits_value_nonnegative(s: Seq<char>)
    requires
        all_digits(s),
    ensures
        0 <= digits_value(s),
    decreases s.len(),
{
    if s.len() > 0 {
        assert(digit_value(s[s.len() - 1]) is Some);
        lemma_digits_value_nonnegative(s.drop_last());
    }
}

/// Reads a number.
pub fn parse_u32(s: &str) -> (result: Option<u32>)
    ensures
        result == parsed_u32(s@),
{
    let n: usize = s.unicode_len();
    let start: usize = if n > 0 && s.get_char(0) == '+' {
        1
    } else {
        0
    };
    if start >= n {
        return None;
    }
    let ghost d = without_plus(s@);
    proof {
        assert(d =~= s@.subrange(start as int, n as int));
    }
    let mut value: u64 = 0;
    let mut too_large: bool = false;
    let mut i: usize = start;
    proof {
        assert(d.subrange(0, 0) =~= Seq::<char>::empty());
    }
    while i < n
        invariant
            start <= i <= n == s@.len(),
            start < n,
            d == without_plus(s@),
            d == s@.subrange(start as int, n as int),
            all_digits(d.subrange(0, i - start)),
            !too_large ==> value == digits_value(d.subrange(0, i - start)) && value <= u32::MAX,
            too_large ==> digits_value(d.subrange(0, i - start)) > u32::MAX,
        decreases n - i,
    {
        let c: char = s.get_char(i);
        let ghost before = d.subrange(0, i - start);
        let ghost next = d.subrange(0, i - start + 1);
        proof {
            assert(next.drop_last() =~= before);
            assert(next.last() == c);
            assert(d[i - start] == c);
        }
        let code: u32 = c as u32;
        if code < 48 || code > 57 {
            proof {
                assert(digit_value(d[i - start]) is None);
            }
            return None;
        }
        proof {
            assert forall|k: int| 0 <= k < next.len() implies digit_value(
                #[trigger] next[k],
            ) is Some by {
                if k < before.len() {
                    assert(before[k] == next[k]);
                }
            }
            lemma_digits_value_nonnegative(before);
        }
        if !too_large {
            value = value * 10 + (code - 48) as u64;
            if value > 0xffff_ffff {
                too_large = true;
            }
        }
        i = i + 1;
    }
    proof {
        assert(d.subrange(0, n - start) =~= d);
    }
    if too_large {
        None
    } else {
        Some(value as u32)
    }
}

/// The decimal digit for `d`.
pub open spec fn digit_char(d: int) -> char
    recommends
        0 <= d <= 9,
{
    ('0' as int + d) as char
}

/// `n` in decimal, without leading zeros.
pub open spec fn decimal(n: nat) -> Seq<char>
    decreases n,
{
    if n < 10 {
        seq![digit_char(n as int)]
    } else {
        decimal(n / 10).push(digit_char((n % 10) as int))
    }
}

/// The decimal form of a number reads back as that number.
pub proof fn decimal_reads_back(n: nat)
    ensures
        decimal(n).len() > 0,
        all_digits(decimal(n)),
        digits_value(decimal(n)) == n,
        n <= u32::MAX ==> parsed_u32(decimal(n)) == Some(n as u32),
    decreases n,
{
    let s = decimal(n);
    if n < 10 {
        assert(digit_value(s[0]) == Some(n as int));
        assert(s.drop_last() =~= Seq::<char>::empty());
        assert(digits_value(Seq::<char>::empty()) == 0);
        assert(digits_value(s) == n);
    } else {
        decimal_reads_back(n / 10);
        let d = (n % 10) as int;
        assert(s.drop_last() =~= decimal(n / 10));
        assert(digit_value(s.last()) == Some(d));
        assert forall|i: int| 0 <= i < s.len() implies digit_value(#[trigger] s[i]) is Some by {
            if i < decimal(n / 10).len() {
                assert(s[i] == decimal(n / 10)[i]);
            }
        }
    }
    assert(digit_value(s[0]) is Some);
    assert(without_plus(s) == s);
}

/// Appends the decimal digit for `d`.
fn append_digit(out: &mut String, d: u32)
    requires
        d <= 9,
    ensures
        final(out)@ == old(out)@.push(digit_char(d as int)),
{
    proof {
        reveal_strlit("0");
        reveal_strlit("1");
        reveal_strlit("2");
        reveal_strlit("3");
        reveal_strlit("4");
        reveal_strlit("5");
        reveal_strlit("6");
        reveal_strlit("7");
        reveal_strlit("8");
        reveal_strlit("9");
    }
    let digit: &str = match d {
        0 => "0",
        1 => "1",
        2 => "2",
        3 => "3",
        4 => "4",
        5 => "5",
        6 => "6",
        7 => "7",
        8 => "8",
        _ => "9",
    };
    proof {
        assert(digit@.len() == 1 && digit@[0] == digit_char(d as int));
        assert(out@ + digit@ =~= out@.push(digit_char(d as int)));
    }
    out.append(digit);
}

/// Writes `n` in decimal.
pub fn format_u32(n: u32) -> (result: String)
    ensures
        result@ == decimal(n as nat),
    decreases n,
{
    if n < 10 {
        let mut out = String::new();
        append_digit(&mut out, n);
        proof {
            assert(out@ =~= decimal(n as nat));
        }
        out
    } else {
        let mut out = format_u32(n / 10);
        append_digit(&mut out, n % 10);
        out
    }
}

/// Different numbers have different decimal forms.
pub proof fn decimal_is_injective(a: nat, b: nat)
    requires
        decimal(a) == decimal(b),
    ensures
        a == b,
{
    decimal_reads_back(a);
    decimal_reads_back(b);
}

/// Whether two texts are the same.
pub fn same_text(a: &String, b: &str) -> (result: bool)
    ensures
        result == (a@ == b@),
{
    let s = b.to_owned();
    *a == s
}

/// Texts are ordered like words in a dictionary: the first place at which two of
/// them differ decides, and a text comes before what it is the start of.
pub proof fn texts_are_ordered_by_their_first_difference(a: Seq<char>, b: Seq<char>, i: int)
    requires
        0 <= i <= a.len(),
        i <= b.len(),
        forall|k: int| 0 <= k < i ==> a[k] == b[k],
    ensures
        i < a.len() && i < b.len() && a[i] != b[i] ==> (text_less(a, b) <==> (a[i] as int) < (
        b[i] as int)),
        i == a.len() ==> (text_less(a, b) <==> a.len() < b.len()),
        i == b.len() ==> !text_less(a, b),
    decreases i,
{
    if i > 0 {
        let s = a.drop_first();
        let t = b.drop_first();
        assert(a[0] == b[0]);
        assert forall|k: int| 0 <= k < i - 1 implies s[k] == t[k] by {
            assert(s[k] == a[k + 1] && t[k] == b[k + 1]);
        }
        texts_are_ordered_by_their_first_difference(s, t, i - 1);
    }
}

/// A number is read from one or more digits, with or without a plus sign, and
/// each digit counts ten times as much as the one behind it. Everything else
/// stands for no number.
pub proof fn numbers_are_read_digit_by_digit(s: Seq<char>, c: char, i: int)
    ensures
        parsed_u32(Seq::empty()) is None,
        s.len() > 0 && s[0] != '+' ==> parsed_u32(seq!['+'] + s) == parsed_u32(s),
        s.len() > 0 && s[0] != '+' && '0' as int <= c as int <= '9' as int && parsed_u32(s) is Some
            ==> (match parsed_u32(s.push(c)) {
            Some(n) => n == parsed_u32(s)->0 * 10 + (c as int - '0' as int),
            None => parsed_u32(s)->0 * 10 + (c as int - '0' as int) > u32::MAX,
        }),
        '0' as int <= c as int <= '9' as int ==> parsed_u32(seq![c]) == Some(
            (c as int - '0' as int) as u32,
        ),
        0 < i < s.len() && !('0' as int <= s[i] as int <= '9' as int) ==> parsed_u32(s) is None,
        s.len() > 0 && s[0] != '+' && !('0' as int <= s[0] as int <= '9' as int) ==> parsed_u32(
            s,
        ) is None,
{
    if s.len() > 0 && s[0] != '+' {
        assert((seq!['+'] + s).drop_first() =~= s);
        let t = s.push(c);
        assert(t.drop_last() =~= s);
        assert(t.last() == c);
        if all_digits(s) && '0' as int <= c as int <= '9' as int {
            lemma_digits_value_nonnegative(s);
            assert forall|k: int| 0 <= k < t.len() implies digit_value(#[trigger] t[k]) is Some by {
                if k < s.len() {
                    assert(t[k] == s[k]);
                }
            }
        }
        if all_digits(s) {
            assert(digit_value(s[0]) is Some);
        }
    }
    let one = seq![c];
    assert(one.drop_last() =~= Seq::<char>::empty());
    assert(digits_value(Seq::<char>::empty()) == 0);
    if '0' as int <= c as int <= '9' as int {
        assert(digits_value(one) == c as int - '0' as int);
        assert(all_digits(one));
    }
    let d = without_plus(s);
    if 0 < i < s.len() && all_digits(d) {
        if s[0] == '+' {
            assert(d[i - 1] == s[i]);
            assert(digit_value(d[i - 1]) is Some);
        } else {
            assert(digit_value(d[i]) is Some);
        }
    }
}

} // verus!
