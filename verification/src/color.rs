use vstd::prelude::*;
use crate::text::split_on;
use vstd::string::StringSliceAdditionalSpecFns;

verus! {

/// The ASCII code of a decimal digit.
pub open spec fn is_digit_byte(b: u8) -> bool {
    48 <= b <= 57
}

/// Every byte is a decimal digit.
pub open spec fn all_digits(d: Seq<u8>) -> bool {
    forall|i: int| 0 <= i < d.len() ==> is_digit_byte(#[trigger] d[i])
}

/// The number that the decimal digits `d` write.
pub open spec fn digits_value(d: Seq<u8>) -> int
    decreases d.len(),
{
    if d.len() == 0 {
        0
    } else {
        digits_value(d.drop_last()) * 10 + (d.last() - 48)
    }
}

/// The number that the bytes `p` write, as `str::parse` reads an unsigned
/// number no greater than `max`: an optional `+`, then one or more decimal
/// digits.
pub open spec fn parse_bounded(p: Seq<u8>, max: nat) -> Option<nat> {
    let d = if p.len() > 0 && p[0] == 43u8 { p.drop_first() } else { p };
    if d.len() > 0 && all_digits(d) && digits_value(d) <= max {
        Some(digits_value(d) as nat)
    } else {
        None
    }
}

/// What `str::parse::<u8>` gives for the bytes `p`.
pub open spec fn parse_byte(p: Seq<u8>) -> Option<u8> {
    match parse_bounded(p, 255) {
        Some(v) => Some(v as u8),
        None => None,
    }
}

/// What `str::parse::<u32>` gives for the bytes `p`.
pub open spec fn parse_u32_text(p: Seq<u8>) -> Option<u32> {
    match parse_bounded(p, u32::MAX as nat) {
        Some(v) => Some(v as u32),
        None => None,
    }
}

/// The colour that a highlighter's `rgb(r,g,b)` string names: the bytes
/// between the fourth and the last are split at commas, and the first three
/// pieces must each be a byte value.
pub open spec fn rgb_of(color: Seq<u8>) -> Option<(u8, u8, u8)> {
    let pieces = split_on(color.subrange(4, color.len() - 1), 44u8);
    if pieces.len() >= 3 {
        match (parse_byte(pieces[0]), parse_byte(pieces[1]), parse_byte(pieces[2])) {
            (Some(r), Some(g), Some(b)) => Some((r, g, b)),
            _ => None,
        }
    } else {
        None
    }
}

/// Reads an unsigned number no greater than `max` from the bytes `p`, as
/// `str::parse` does.
fn parse_bounded_bytes(p: &[u8], max: u64) -> (r: Option<u64>)
    requires
        max <= u32::MAX,
    ensures
        match r {
            Some(v) => parse_bounded(p@, max as nat) == Some(v as nat),
            None => parse_bounded(p@, max as nat) is None,
        },
{
    let mut start: usize = 0;
    if p.len() > 0 && p[0] == 43u8 {
        start = 1;
    }
    let ghost d = if p@.len() > 0 && p@[0] == 43u8 { p@.drop_first() } else { p@ };
    assert(d =~= p@.subrange(start as int, p@.len() as int));
    if start == p.len() {
        return None;
    }
    let cap = max + 1;
    let mut v: u64 = 0;
    let mut k: usize = start;
    while k < p.len()
        invariant
            start <= k <= p.len(),
            max <= u32::MAX,
            cap == max + 1,
            d == p@.subrange(start as int, p@.len() as int),
            d == (if p@.len() > 0 && p@[0] == 43u8 { p@.drop_first() } else { p@ }),
            all_digits(p@.subrange(start as int, k as int)),
            v as int == if digits_value(p@.subrange(start as int, k as int)) < cap {
                digits_value(p@.subrange(start as int, k as int))
            } else {
                cap as int
            },
        decreases p.len() - k,
    {
        let c = p[k];
        if c < 48u8 || c > 57u8 {
            assert(!is_digit_byte(d[k - start]));
            assert(!all_digits(d));
            return None;
        }
        let ghost pre = p@.subrange(start as int, k as int);
        let ghost next = p@.subrange(start as int, k + 1);
        assert(next.drop_last() =~= pre);
        assert(next.last() == c);
        assert(digits_value(pre) >= 0) by {
            lemma_digits_value_nonneg(pre);
        }
        if v >= cap {
            v = cap;
        } else {
            v = v * 10 + (c - 48u8) as u64;
            if v > cap {
                v = cap;
            }
        }
        k = k + 1;
    }
    if v >= cap {
        None
    } else {
        Some(v)
    }
}

/// Parses one piece as a byte value, as `str::parse::<u8>` does.
pub fn parse_u8(p: &[u8]) -> (r: Option<u8>)
    ensures
        r == parse_byte(p@),
{
    match parse_bounded_bytes(p, 255) {
        Some(v) => Some(v as u8),
        None => None,
    }
}

/// Parses an unsigned 32-bit number, as `str::parse::<u32>` does.
pub fn parse_u32(p: &[u8]) -> (r: Option<u32>)
    ensures
        r == parse_u32_text(p@),
{
    match parse_bounded_bytes(p, 4294967295) {
        Some(v) => Some(v as u32),
        None => None,
    }
}

proof fn lemma_digits_value_nonneg(d: Seq<u8>)
    requires
        all_digits(d),
    ensures
        digits_value(d) >= 0,
    decreases d.len(),
{
    if d.len() > 0 {
        assert(all_digits(d.drop_last())) by {
            assert forall|i: int| 0 <= i < d.drop_last().len() implies is_digit_byte(#[trigger] d.drop_last()[i]) by {
                assert(d.drop_last()[i] == d[i]);
            }
        }
        lemma_digits_value_nonneg(d.drop_last());
        assert(is_digit_byte(d[d.len() - 1]));
    }
}

/// The pieces of `s` between commas.
fn split_commas(s: &[u8]) -> (parts: Vec<Vec<u8>>)
    ensures
        parts@.map_values(|p: Vec<u8>| p@) == split_on(s@, 44u8),
{
    let mut parts: Vec<Vec<u8>> = Vec::new();
    let mut cur: Vec<u8> = Vec::new();
    let mut i: usize = 0;
    while i < s.len()
        invariant
            i <= s.len(),
            parts@.map_values(|p: Vec<u8>| p@).push(cur@) == split_on(s@.take(i as int), 44u8),
        decreases s.len() - i,
    {
        let c = s[i];
        let ghost prev = s@.take(i as int);
        assert(s@.take(i + 1).drop_last() =~= prev);
        if c == 44u8 {
            let done = cur;
            parts.push(done);
            cur = Vec::new();
            assert(parts@.map_values(|p: Vec<u8>| p@).push(cur@) =~= split_on(prev, 44u8).push(Seq::<u8>::empty()));
        } else {
            cur.push(c);
            let ghost rest = split_on(prev, 44u8);
            assert(parts@.map_values(|p: Vec<u8>| p@).push(cur@) =~= rest.update(rest.len() - 1, rest.last().push(c)));
        }
        i = i + 1;
    }
    assert(s@.take(s.len() as int) =~= s@);
    parts.push(cur);
    assert(parts@.map_values(|p: Vec<u8>| p@) =~= split_on(s@, 44u8));
    parts
}

/// The colour of a highlighter, from its `rgb(r,g,b)` string; `None` where
/// a component is missing or is no byte value.
pub fn parse_rgb(color: &str) -> (r: Option<(u8, u8, u8)>)
    requires
        color.spec_bytes().len() >= 5,
        vstd::utf8::is_char_boundary(color.spec_bytes(), 4),
        vstd::utf8::is_char_boundary(color.spec_bytes(), color.spec_bytes().len() - 1),
    ensures
        r == rgb_of(color.spec_bytes()),
{
    let bytes = color.as_bytes();
    let n = bytes.len();
    let mut inner: Vec<u8> = Vec::new();
    let mut i: usize = 4;
    while i < n - 1
        invariant
            4 <= i <= n - 1,
            n == bytes@.len(),
            n >= 5,
            inner@ == bytes@.subrange(4, i as int),
        decreases n - 1 - i,
    {
        inner.push(bytes[i]);
        i = i + 1;
        assert(inner@ =~= bytes@.subrange(4, i as int));
    }
    let parts = split_commas(inner.as_slice());
    let ghost pv = parts@.map_values(|p: Vec<u8>| p@);
    if parts.len() < 3 {
        return None;
    }
    assert(pv[0] == parts@[0]@ && pv[1] == parts@[1]@ && pv[2] == parts@[2]@);
    let red = parse_u8(parts[0].as_slice());
    let green = parse_u8(parts[1].as_slice());
    let blue = parse_u8(parts[2].as_slice());
    match (red, green, blue) {
        (Some(r), Some(g), Some(b)) => Some((r, g, b)),
        _ => None,
    }
}

} // verus!
