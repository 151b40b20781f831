//! Decimal integers in text, as `str::parse::<u32>` and `str::parse::<i32>` read them.
use vstd::prelude::*;
use crate::text::chars_of;

verus! {

/// `c` is an ASCII digit.
pub open spec fn is_digit(c: char) -> bool {
    '0' <= c && c <= '9'
}

/// Every character of `s` is an ASCII digit.
pub open spec fn all_digits(s: Seq<char>) -> bool {
    forall|i: int| 0 <= i < s.len() ==> is_digit(#[trigger] s[i])
}

/// The number that the digits `s` write in decimal.
pub open spec fn digits_value(s: Seq<char>) -> int
    decreases s.len(),
{
    if s.len() == 0 {
        0
    } else {
        10 * digits_value(s.drop_last()) + (s.last() as int - '0' as int)
    }
}

/// The text after an optional leading sign: `+`, or also `-` when `minus_allowed`.
pub open spec fn unsigned_part(s: Seq<char>, minus_allowed: bool) -> Seq<char> {
    if s.len() > 0 && (s[0] == '+' || (minus_allowed && s[0] == '-')) {
        s.skip(1)
    } else {
        s
    }
}

/// `s.parse::<u32>()`: an optional `+` and at least one digit, of a value
/// that fits in a `u32`.
pub open spec fn parsed_u32(s: Seq<char>) -> Option<u32> {
    let d = unsigned_part(s, false);
    if d.len() > 0 && all_digits(d) && digits_value(d) <= u32::MAX {
        Some(digits_value(d) as u32)
    } else {
        None
    }
}

/// `s.parse::<i32>()`: an optional `+` or `-` and at least one digit, of a
/// value that fits in an `i32`.
pub open spec fn parsed_i32(s: Seq<char>) -> Option<i32> {
    let d = unsigned_part(s, true);
    let negative = s.len() > 0 && s[0] == '-';
    if d.len() > 0 && all_digits(d) {
        let v = digits_value(d);
        if negative && v <= 0x8000_0000 {
            Some((-v) as i32)
        } else if !negative && v <= 0x7fff_ffff {
            Some(v as i32)
        } else {
            None
        }
    } else {
        None
    }
}

proof fn lemma_digits_value_nonneg(s: Seq<char>)
    requires
        all_digits(s),
    ensures
        digits_value(s) >= 0,
    decreases s.len(),
{
    if s.len() > 0 {
        assert(all_digits(s.drop_last())) by {
            assert forall|i: int| 0 <= i < s.drop_last().len() implies is_digit(
                #[trigger] s.drop_last()[i],
            ) by {
                assert(s.drop_last()[i] == s[i]);
            }
        }
        lemma_digits_value_nonneg(s.drop_last());
        assert(is_digit(s[s.len() - 1]));
    }
}

/// The value of the digits `cs[from..]` when they are all digits, there is
/// at least one and the value is at most `limit`.
fn digits_up_to(cs: &Vec<char>, from: usize, limit: u64) -> (r: Option<u64>)
    requires
        from <= cs@.len(),
        limit <= 0x1_0000_0000,
    ensures
        match r {
            Some(v) => cs@.len() > from && all_digits(cs@.skip(from as int)) && v == digits_value(
                cs@.skip(from as int),
            ) && v <= limit,
            None => !(cs@.len() > from && all_digits(cs@.skip(from as int)) && digits_value(
                cs@.skip(from as int),
            ) <= limit),
        },
{
    let ghost d = cs@.skip(from as int);
    if from >= cs.len() {
        return None;
    }
    let mut i = from;
    let mut acc: u64 = 0;
    let mut over = false;
    while i < cs.len()
        invariant
            from <= i <= cs@.len(),
            d == cs@.skip(from as int),
            limit <= 0x1_0000_0000,
            all_digits(d.take(i - from)),
            !over ==> acc == digits_value(d.take(i - from)) && acc <= limit,
            over ==> digits_value(d.take(i - from)) > limit,
        decreases cs.len() - i,
    {
        let c = cs[i];
        if c < '0' || c > '9' {
            assert(d[i - from] == c);
            assert(!all_digits(d));
            return None;
        }
        let ghost pre = d.take(i - from);
        let ghost next = d.take(i - from + 1);
        assert(next.drop_last() =~= pre);
        assert(next.last() == c);
        assert(all_digits(next)) by {
            assert forall|k: int| 0 <= k < next.len() implies is_digit(#[trigger] next[k]) by {
                if k < pre.len() {
                    assert(next[k] == pre[k]);
                }
            }
        }
        proof {
            lemma_digits_value_nonneg(pre);
        }
        if !over {
            let dv = (c as u32 - '0' as u32) as u64;
            let v = acc * 10 + dv;
            if v > limit {
                over = true;
            } else {
                acc = v;
            }
        }
        i += 1;
    }
    assert(d.take(i - from) =~= d);
    if over {
        None
    } else {
        Some(acc)
    }
}

/// `s.parse::<u32>().ok()`.
pub fn parse_u32(s: &str) -> (r: Option<u32>)
    ensures
        r == parsed_u32(s@),
{
    let cs = chars_of(s);
    let from: usize = if cs.len() > 0 && cs[0] == '+' {
        1
    } else {
        0
    };
    assert(unsigned_part(s@, false) =~= s@.skip(from as int));
    match digits_up_to(&cs, from, 0xffff_ffff) {
        Some(v) => Some(v as u32),
        None => None,
    }
}

/// `s.parse::<i32>().ok()`.
pub fn parse_i32(s: &str) -> (r: Option<i32>)
    ensures
        r == parsed_i32(s@),
{
    let cs = chars_of(s);
    let negative = cs.len() > 0 && cs[0] == '-';
    let from: usize = if cs.len() > 0 && (cs[0] == '+' || cs[0] == '-') {
        1
    } else {
        0
    };
    assert(unsigned_part(s@, true) =~= s@.skip(from as int));
    if negative {
        match digits_up_to(&cs, from, 0x8000_0000) {
            Some(v) => Some((0 - (v as i64)) as i32),
            None => None,
        }
    } else {
        match digits_up_to(&cs, from, 0x7fff_ffff) {
            Some(v) => Some(v as i32),
            None => None,
        }
    }
}

} // verus!
