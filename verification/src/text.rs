//! Building text: characters of a string, numerals in a radix, joins.
use vstd::prelude::*;

verus! {

broadcast use vstd::string::group_string_axioms;

/// Appends one character to a `String` (std's `String::push`): the new
/// content is the old content followed by `c`.
#[verifier::external_body]
pub(crate) fn push_char(s: &mut String, c: char)
    ensures
        final(s)@ == old(s)@.push(c),
{
    s.push(c);
}

/// Appends the text of `t` to `s`.
pub fn push_str(s: &mut String, t: &str)
    ensures
        final(s)@ == old(s)@ + t@,
{
    s.append(t);
}

/// A fresh `String` holding the text of `t`.
pub fn string_of(t: &str) -> (r: String)
    ensures
        r@ == t@,
{
    String::from_str(t)
}

/// The characters of `s`, in order.
pub fn chars_of(s: &str) -> (v: Vec<char>)
    ensures
        v@ == s@,
{
    let mut v: Vec<char> = Vec::new();
    for c in it: s.chars()
        invariant
            it.seq() == s@,
            v@ == s@.take(it.index()),
    {
        v.push(c);
        assert(s@.take(it.index() + 1) =~= s@.take(it.index()).push(c));
    }
    assert(v@ =~= s@);
    v
}

/// A `String` holding the characters of `cs[start..end]`.
pub fn string_from_chars(cs: &Vec<char>, start: usize, end: usize) -> (r: String)
    requires
        start <= end <= cs@.len(),
    ensures
        r@ == cs@.subrange(start as int, end as int),
{
    let mut r = String::new();
    let mut i = start;
    while i < end
        invariant
            start <= i <= end <= cs@.len(),
            r@ == cs@.subrange(start as int, i as int),
        decreases end - i,
    {
        push_char(&mut r, cs[i]);
        assert(cs@.subrange(start as int, i + 1) =~= cs@.subrange(start as int, i as int).push(cs@[i as int]));
        i = i + 1;
    }
    r
}

// ─── NUMERALS ────────────────────────────────────────────────────

/// The character of digit `d` (`0 <= d < 16`), lower or upper case letters.
pub open spec fn digit_char(d: nat, upper: bool) -> char {
    if d < 10 {
        (('0' as nat) + d) as char
    } else if upper {
        (('A' as nat) + (d - 10)) as char
    } else {
        (('a' as nat) + (d - 10)) as char
    }
}

/// The numeral of `n` in base `base`, most significant digit first, with no
/// leading zeros (`0` is written `"0"`).
pub open spec fn radix_digits(n: nat, base: nat, upper: bool) -> Seq<char>
    recommends
        2 <= base <= 16,
    decreases n,
{
    if n < base || base < 2 {
        seq![digit_char(n, upper)]
    } else {
        proof {
            lemma_div_smaller(n, base);
        }
        radix_digits(n / base, base, upper).push(digit_char(n % base, upper))
    }
}

pub proof fn lemma_div_smaller(n: nat, base: nat)
    requires
        n >= base >= 2,
    ensures
        n / base < n,
{
    assert(n / base < n) by (nonlinear_arith)
        requires
            n >= base >= 2,
    ;
}

/// The decimal numeral of an integer, with a leading `-` when negative.
pub open spec fn int_decimal(i: int) -> Seq<char> {
    if i < 0 {
        seq!['-'] + radix_digits((-i) as nat, 10, false)
    } else {
        radix_digits(i as nat, 10, false)
    }
}

fn digit_of(d: u64, upper: bool) -> (c: char)
    requires
        d < 16,
    ensures
        c == digit_char(d as nat, upper),
{
    if d < 10 {
        ((48 + d) as u8) as char
    } else if upper {
        ((65 + (d - 10)) as u8) as char
    } else {
        ((97 + (d - 10)) as u8) as char
    }
}

/// Appends the numeral of `n` in base `base` to `s`.
pub fn push_radix(s: &mut String, n: u64, base: u64, upper: bool)
    requires
        2 <= base <= 16,
    ensures
        final(s)@ == old(s)@ + radix_digits(n as nat, base as nat, upper),
    decreases n,
{
    let ghost s0 = s@;
    if n >= base {
        proof {
            lemma_div_smaller(n as nat, base as nat);
        }
        push_radix(s, n / base, base, upper);
    }
    let ghost s1 = s@;
    push_char(s, digit_of(n % base, upper));
    proof {
        let d = digit_char((n % base) as nat, upper);
        if n >= base {
            assert(s1 == s0 + radix_digits((n / base) as nat, base as nat, upper));
            assert(radix_digits(n as nat, base as nat, upper) == radix_digits(
                (n / base) as nat,
                base as nat,
                upper,
            ).push(d));
            assert(s@ =~= s0 + radix_digits(n as nat, base as nat, upper));
        } else {
            assert(n % base == n) by (nonlinear_arith)
                requires
                    n < base,
            ;
            assert(radix_digits(n as nat, base as nat, upper) == seq![d]);
            assert(s@ =~= s0 + radix_digits(n as nat, base as nat, upper));
        }
    }
}

/// Appends the decimal numeral of `i` to `s`.
pub fn push_i64(s: &mut String, i: i64)
    ensures
        final(s)@ == old(s)@ + int_decimal(i as int),
{
    if i < 0 {
        push_char(s, '-');
        let m: u64 = ((-(i as i128)) as u64);
        push_radix(s, m, 10, false);
        assert(old(s)@ + int_decimal(i as int) =~= old(s)@.push('-') + radix_digits(
            m as nat,
            10,
            false,
        ));
    } else {
        push_radix(s, i as u64, 10, false);
    }
}

/// Appends the decimal numeral of `n` to `s`.
pub fn push_usize(s: &mut String, n: usize)
    ensures
        final(s)@ == old(s)@ + int_decimal(n as int),
{
    push_radix(s, n as u64, 10, false);
}

// ─── JOIN ────────────────────────────────────────────────────────

/// The texts of `parts`, separated by `sep`.
pub open spec fn seq_join(parts: Seq<Seq<char>>, sep: Seq<char>) -> Seq<char>
    decreases parts.len(),
{
    if parts.len() == 0 {
        Seq::empty()
    } else if parts.len() == 1 {
        parts[0]
    } else {
        seq_join(parts.drop_last(), sep) + sep + parts.last()
    }
}

/// The text obtained by writing `parts` separated by `sep`.
pub fn join_strings(parts: &Vec<String>, sep: &str) -> (r: String)
    ensures
        r@ == seq_join(parts@.map_values(|p: String| p@), sep@),
{
    let mut r = String::new();
    let ghost views = parts@.map_values(|p: String| p@);
    let mut i: usize = 0;
    while i < parts.len()
        invariant
            0 <= i <= parts@.len(),
            views == parts@.map_values(|p: String| p@),
            r@ == seq_join(views.take(i as int), sep@),
        decreases parts@.len() - i,
    {
        if i != 0 {
            push_str(&mut r, sep);
        }
        push_str(&mut r, parts[i].as_str());
        assert(views.take(i + 1).drop_last() =~= views.take(i as int));
        i = i + 1;
    }
    assert(views.take(parts@.len() as int) =~= views);
    r
}

} // verus!
