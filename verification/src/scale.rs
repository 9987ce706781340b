//! Font-size bounds of the UI and the parsing of a typed font size.
use vstd::prelude::*;

verus! {

/// Font size every design-time size is expressed at.
pub const DEFAULT_FONT_SIZE_U32: u32 = 12;
/// Smallest accepted UI font size.
pub const MIN_FONT_SIZE: u32 = 8;
/// Largest accepted UI font size.
pub const MAX_FONT_SIZE: u32 = 30;

/// `v` brought into `[MIN_FONT_SIZE, MAX_FONT_SIZE]`.
pub open spec fn clamped_font_size(v: u32) -> u32 {
    if v < MIN_FONT_SIZE {
        MIN_FONT_SIZE
    } else if v > MAX_FONT_SIZE {
        MAX_FONT_SIZE
    } else {
        v
    }
}

/// Clamps a font size to the supported range.
pub fn clamp_font_size(v: u32) -> (r: u32)
    ensures
        r == clamped_font_size(v),
        MIN_FONT_SIZE <= r <= MAX_FONT_SIZE,
{
    if v < MIN_FONT_SIZE {
        MIN_FONT_SIZE
    } else if v > MAX_FONT_SIZE {
        MAX_FONT_SIZE
    } else {
        v
    }
}

} // verus!

verus! {

/// Whether `c` is an ASCII decimal digit.
pub open spec fn is_digit(c: char) -> bool {
    '0' <= c <= '9'
}

/// Whether every character of `d` is an ASCII decimal digit.
pub open spec fn all_digits(d: Seq<char>) -> bool {
    forall|i: int| 0 <= i < d.len() ==> is_digit(#[trigger] d[i])
}

/// The number that the decimal digits `d` spell.
pub open spec fn digits_value(d: Seq<char>) -> nat
    decreases d.len(),
{
    if d.len() == 0 {
        0
    } else {
        digits_value(d.drop_last()) * 10 + ((d.last() as u32) - ('0' as u32)) as nat
    }
}

/// `str::parse::<u32>`: an optional leading `+` followed by at least one
/// decimal digit, and nothing else, whose value fits in a `u32`.
pub open spec fn parse_u32(t: Seq<char>) -> Option<u32> {
    let d = if t.len() > 0 && t[0] == '+' {
        t.drop_first()
    } else {
        t
    };
    if d.len() == 0 || !all_digits(d) || digits_value(d) > u32::MAX {
        None
    } else {
        Some(digits_value(d) as u32)
    }
}

/// What a typed font size commits to: the trimmed input read as a `u32`.
pub open spec fn parsed_font_size(input: Seq<char>) -> Option<u32> {
    parse_u32(crate::chars::trim(input))
}

proof fn lemma_digits_value_grows(d: Seq<char>, k: int)
    requires
        0 <= k <= d.len(),
        all_digits(d),
    ensures
        digits_value(d.take(k)) <= digits_value(d),
    decreases d.len() - k,
{
    if k < d.len() {
        lemma_digits_value_grows(d.drop_last(), k);
        assert(d.drop_last().take(k) =~= d.take(k));
        if k == d.len() - 1 {
            assert(d.take(k) =~= d.drop_last());
        }
    } else {
        assert(d.take(k) =~= d);
    }
}

/// Parses a free-typed font size: surrounding white space is ignored, the
/// rest must be a whole number that fits in a `u32`; anything else (empty,
/// half-typed, signs other than a leading `+`, overflow) gives `None`.
pub fn parse_font_size(input: &str) -> (r: Option<u32>)
    ensures
        r == parsed_font_size(input@),
{
    let v = crate::chars::chars_of(input);
    let (a, b) = crate::chars::trim_bounds(&v);
    let ghost t = v@.subrange(a as int, b as int);
    if a == b {
        return None;
    }
    let mut i = a;
    if v[i] == '+' {
        i = i + 1;
    }
    let ghost d = v@.subrange(i as int, b as int);
    assert(d == if t.len() > 0 && t[0] == '+' { t.drop_first() } else { t });
    if i == b {
        return None;
    }
    let mut acc: u64 = 0;
    let mut j = i;
    while j < b
        invariant
            i <= j <= b <= v@.len(),
            d == v@.subrange(i as int, b as int),
            d.len() > 0,
            t == crate::chars::trim(input@),
            d == (if t.len() > 0 && t[0] == '+' { t.drop_first() } else { t }),
            all_digits(d.take(j - i)),
            acc == digits_value(d.take(j - i)),
            acc <= u32::MAX,
        decreases b - j,
    {
        let c = v[j];
        if c < '0' || c > '9' {
            assert(!is_digit(d[j - i]));
            return None;
        }
        let digit = (c as u32 - '0' as u32) as u64;
        assert(d.take(j - i + 1).drop_last() =~= d.take(j - i));
        acc = acc * 10 + digit;
        if acc > u32::MAX as u64 {
            proof {
                if all_digits(d) {
                    lemma_digits_value_grows(d, j - i + 1);
                }
            }
            return None;
        }
        j = j + 1;
    }
    assert(d.take(d.len() as int) =~= d);
    Some(acc as u32)
}

} // verus!

verus! {

/// Clamping lands in range and a clamped size stays as it is.
pub proof fn lemma_clamp_in_range_and_idempotent(v: u32)
    ensures
        MIN_FONT_SIZE <= clamped_font_size(v) <= MAX_FONT_SIZE,
        clamped_font_size(clamped_font_size(v)) == clamped_font_size(v),
        MIN_FONT_SIZE <= v <= MAX_FONT_SIZE ==> clamped_font_size(v) == v,
{
}

} // verus!

verus! {

/// The decimal digit of `d` (`0 <= d < 10`).
pub open spec fn digit_char(d: nat) -> char {
    ((48 + d) as u32) as char
}

/// The decimal text of `n`, without leading zeros (`to_string` of an
/// unsigned integer).
pub open spec fn decimal(n: nat) -> Seq<char>
    decreases n,
{
    if n < 10 {
        seq![digit_char(n)]
    } else {
        decimal(n / 10).push(digit_char(n % 10))
    }
}

proof fn lemma_decimal_digits(n: nat)
    ensures
        decimal(n).len() > 0,
        all_digits(decimal(n)),
        digits_value(decimal(n)) == n,
        !crate::chars::is_ws(decimal(n)[0]),
        !crate::chars::is_ws(decimal(n).last()),
        decimal(n)[0] != '+',
    decreases n,
{
    let d = decimal(n);
    if n < 10 {
        assert(d.drop_last() =~= Seq::<char>::empty());
        assert(digits_value(d.drop_last()) == 0);
        assert((d.last() as u32) == 48 + n);
    } else {
        lemma_decimal_digits(n / 10);
        let e = decimal(n / 10);
        assert(d.drop_last() =~= e);
        assert((d.last() as u32) == 48 + n % 10);
        assert(d[0] == e[0]);
        assert forall|i: int| 0 <= i < d.len() implies is_digit(#[trigger] d[i]) by {
            if i < e.len() {
                assert(d[i] == e[i]);
            }
        }
    }
}

/// Reading back the decimal text of a font size gives the size, also with
/// white space around it: `parse_font_size(&n.to_string()) == Some(n)`.
pub proof fn lemma_parse_reads_decimal(n: u32, before: Seq<char>, after: Seq<char>)
    requires
        crate::chars::all_ws(before),
        crate::chars::all_ws(after),
    ensures
        parse_u32(decimal(n as nat)) == Some(n),
        parsed_font_size(before + decimal(n as nat) + after) == Some(n),
{
    let d = decimal(n as nat);
    lemma_decimal_digits(n as nat);
    let s = before + d + after;
    assert(s.take(before.len() as int) =~= before);
    crate::chars::lemma_trim_start_skip(s, before.len() as int);
    let rest = s.skip(before.len() as int);
    assert(rest =~= d + after);
    assert(crate::chars::trim_start(rest) == rest);
    assert(rest.skip(d.len() as int) =~= after);
    crate::chars::lemma_trim_end_take(rest, d.len() as int);
    assert(rest.take(d.len() as int) =~= d);
    assert(crate::chars::trim_end(d) == d);
    assert(crate::chars::trim(s) == d);
}

/// The decimal digit of `d`.
fn digit(d: usize) -> (c: char)
    requires
        d < 10,
    ensures
        c == digit_char(d as nat),
{
    match d {
        0 => '0',
        1 => '1',
        2 => '2',
        3 => '3',
        4 => '4',
        5 => '5',
        6 => '6',
        7 => '7',
        8 => '8',
        _ => '9',
    }
}

/// Appends the decimal text of `n` to `out`.
pub(crate) fn push_decimal(out: &mut String, n: usize)
    ensures
        final(out)@ == old(out)@ + decimal(n as nat),
    decreases n,
{
    if n >= 10 {
        push_decimal(out, n / 10);
    }
    let ghost mid = out@;
    crate::chars::push_char(out, digit(n % 10));
    proof {
        if n >= 10 {
            assert(mid == old(out)@ + decimal((n / 10) as nat));
            assert(decimal(n as nat) == decimal((n / 10) as nat).push(digit_char((n % 10) as nat)));
            assert(out@ =~= old(out)@ + decimal(n as nat));
        } else {
            assert(out@ =~= old(out)@ + decimal(n as nat));
        }
    }
}

} // verus!
