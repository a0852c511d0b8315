use vstd::prelude::*;

verus! {

/// An ASCII decimal digit.
pub open spec fn is_digit(c: u8) -> bool {
    48 <= c <= 57
}

/// The value of a string of decimal digits, most significant first.
pub open spec fn digits_value(d: Seq<u8>) -> nat
    decreases d.len(),
{
    if d.len() == 0 {
        0
    } else {
        digits_value(d.drop_last()) * 10 + (d.last() - 48) as nat
    }
}

/// The digits of an unsigned literal: the text after an optional leading `+`.
pub open spec fn unsigned_digits(b: Seq<u8>) -> Seq<u8> {
    if b.len() > 0 && b[0] == 43 {
        b.drop_first()
    } else {
        b
    }
}

/// An unsigned decimal literal as integer types read it: an optional `+`,
/// then one or more digits, whose value is at most `max`.
pub open spec fn parse_unsigned_spec(b: Seq<u8>, max: nat) -> Option<nat> {
    let d = unsigned_digits(b);
    if d.len() > 0 && (forall|i: int| 0 <= i < d.len() ==> is_digit(#[trigger] d[i]))
        && digits_value(d) <= max {
        Some(digits_value(d))
    } else {
        None
    }
}

proof fn lemma_digits_prefix_le(d: Seq<u8>, j: int)
    requires
        0 <= j <= d.len(),
        forall|i: int| 0 <= i < d.len() ==> is_digit(#[trigger] d[i]),
    ensures
        digits_value(d.subrange(0, j)) <= digits_value(d),
    decreases d.len(),
{
    if j < d.len() {
        assert(d.drop_last().subrange(0, j) =~= d.subrange(0, j));
        lemma_digits_prefix_le(d.drop_last(), j);
    } else {
        assert(d.subrange(0, j) =~= d);
    }
}

/// Reads `b[lo..hi]` as an unsigned decimal literal no greater than `max`.
pub fn parse_unsigned(b: &[u8], lo: usize, hi: usize, max: usize) -> (r: Option<usize>)
    requires
        lo <= hi <= b@.len(),
    ensures
        match r {
            Some(v) => parse_unsigned_spec(b@.subrange(lo as int, hi as int), max as nat) == Some(
                v as nat,
            ),
            None => parse_unsigned_spec(b@.subrange(lo as int, hi as int), max as nat) is None,
        },
{
    let ghost s = b@.subrange(lo as int, hi as int);
    let mut start: usize = lo;
    if lo < hi && b[lo] == 43 {
        start = lo + 1;
    }
    let ghost d = b@.subrange(start as int, hi as int);
    assert(d =~= unsigned_digits(s));
    if start == hi {
        return None;
    }
    let mut i: usize = start;
    while i < hi
        invariant
            start <= i <= hi,
            lo <= start,
            hi <= b@.len(),
            s == b@.subrange(lo as int, hi as int),
            d == unsigned_digits(s),
            d == b@.subrange(start as int, hi as int),
            forall|k: int| start <= k < i ==> is_digit(#[trigger] b@[k]),
        decreases hi - i,
    {
        if !(48 <= b[i] && b[i] <= 57) {
            assert(d[i - start] == b@[i as int]);
            assert(!is_digit(d[i - start]));
            return None;
        }
        i = i + 1;
    }
    assert forall|k: int| 0 <= k < d.len() implies is_digit(#[trigger] d[k]) by {
        assert(d[k] == b@[start + k]);
    }
    let mut value: usize = 0;
    let mut i: usize = start;
    while i < hi
        invariant
            start <= i <= hi,
            lo <= start,
            hi <= b@.len(),
            s == b@.subrange(lo as int, hi as int),
            d == unsigned_digits(s),
            d == b@.subrange(start as int, hi as int),
            forall|k: int| 0 <= k < d.len() ==> is_digit(#[trigger] d[k]),
            value as nat == digits_value(d.subrange(0, i - start)),
            value <= max,
        decreases hi - i,
    {
        assert(d[i - start] == b@[i as int]);
        assert(is_digit(d[i - start]));
        let digit: usize = (b[i] - 48) as usize;
        proof {
            let p = d.subrange(0, i - start + 1);
            assert(p.drop_last() =~= d.subrange(0, i - start));
            assert(p.last() == b@[i as int]);
            lemma_digits_prefix_le(d, i - start + 1);
        }
        if digit > max || value > (max - digit) / 10 {
            proof {
                assert(digits_value(d.subrange(0, i - start + 1)) == value * 10 + digit) by {
                    assert(d.subrange(0, i - start + 1).drop_last() =~= d.subrange(0, i - start));
                }
                assert(value * 10 + digit > max) by (nonlinear_arith)
                    requires
                        digit > max || value > (max - digit) / 10,
                ;
            }
            return None;
        }
        proof {
            assert(value * 10 + digit <= max) by (nonlinear_arith)
                requires
                    value <= (max - digit) / 10,
                    digit <= max,
            ;
        }
        value = value * 10 + digit;
        i = i + 1;
    }
    assert(d.subrange(0, hi - start) =~= d);
    Some(value)
}

} // verus!
