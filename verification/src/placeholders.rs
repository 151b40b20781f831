//! The format string: literal text with `{module}`, `{module:style}` and
//! `{module:style:format}` placeholders.
use vstd::prelude::*;
use crate::text::{chars_of, find_char_from, find_from, lemma_find_from, substring};

verus! {

/// A piece of a format string, as the specifications see it.
pub enum Piece {
    /// Literal text.
    Text(Seq<char>),
    /// A placeholder: the module's name, its style when one is given, and
    /// the module's format (empty when none is given).
    Slot { name: Seq<char>, style: Option<Seq<char>>, format: Seq<char> },
}

/// The placeholder whose text between the braces is `inner`: split at its
/// first two `:` (`splitn(3, ':')`) into name, style and format.
pub open spec fn slot_of(inner: Seq<char>) -> Piece {
    let c1 = find_from(inner, ':', 0);
    if c1 >= inner.len() {
        Piece::Slot { name: inner, style: None, format: Seq::empty() }
    } else {
        let r = inner.skip(c1 + 1);
        let c2 = find_from(r, ':', 0);
        if c2 >= r.len() {
            Piece::Slot { name: inner.take(c1), style: Some(r), format: Seq::empty() }
        } else {
            Piece::Slot { name: inner.take(c1), style: Some(r.take(c2)), format: r.skip(c2 + 1) }
        }
    }
}

/// The pieces of `s` from index `i` on: the text up to the next `{`, then
/// the placeholder up to the next `}`, and so on; a `{` without a `}` after
/// it is literal text, as is everything after the last placeholder.
pub open spec fn pieces_from(s: Seq<char>, i: int) -> Seq<Piece>
    decreases s.len() - i,
{
    if i < 0 || i > s.len() {
        Seq::empty()
    } else {
        let open = find_from(s, '{', i);
        let close = find_from(s, '}', open + 1);
        if open >= s.len() || close >= s.len() {
            seq![Piece::Text(s.subrange(i, s.len() as int))]
        } else {
            proof {
                lemma_find_from(s, '{', i);
                lemma_find_from(s, '}', open + 1);
            }
            seq![Piece::Text(s.subrange(i, open)), slot_of(s.subrange(open + 1, close))]
                + pieces_from(s, close + 1)
        }
    }
}

/// The pieces of the format string `s`.
pub open spec fn pieces(s: Seq<char>) -> Seq<Piece> {
    pieces_from(s, 0)
}

/// A piece of a format string.
pub enum Segment {
    /// Literal text.
    Text(String),
    /// A placeholder.
    Slot { name: String, style: Option<String>, format: String },
}

/// What `g` is, as the specifications see it.
pub open spec fn segment_piece(g: Segment) -> Piece {
    match g {
        Segment::Text(t) => Piece::Text(t@),
        Segment::Slot { name, style, format } => Piece::Slot {
            name: name@,
            style: match style {
                Some(s) => Some(s@),
                None => None,
            },
            format: format@,
        },
    }
}

/// The placeholder written `inner` between its braces.
fn slot_segment(inner: &str) -> (g: Segment)
    ensures
        segment_piece(g) == slot_of(inner@),
{
    let cs = chars_of(inner);
    let n = cs.len();
    let c1 = find_char_from(&cs, ':', 0);
    proof {
        lemma_find_from(inner@, ':', 0);
    }
    if c1 >= n {
        proof {
            assert(inner@.subrange(0, n as int) =~= inner@);
        }
        return Segment::Slot { name: substring(inner, 0, n), style: None, format: String::new() };
    }
    let ghost r = inner@.skip(c1 + 1);
    let c2 = find_char_from(&cs, ':', c1 + 1);
    proof {
        lemma_find_from(inner@, ':', c1 + 1);
        lemma_find_from(r, ':', 0);
        lemma_find_shift(inner@, ':', c1 + 1, c1 + 1);
        assert(inner@.take(c1 as int) =~= inner@.subrange(0, c1 as int));
    }
    let name = substring(inner, 0, c1);
    if c2 >= n {
        proof {
            assert(r =~= inner@.subrange(c1 + 1, n as int));
        }
        Segment::Slot { name, style: Some(substring(inner, c1 + 1, n)), format: String::new() }
    } else {
        proof {
            assert(r.take(c2 - c1 - 1) =~= inner@.subrange(c1 + 1, c2 as int));
            assert(r.skip(c2 - c1) =~= inner@.subrange(c2 + 1, n as int));
        }
        Segment::Slot {
            name,
            style: Some(substring(inner, c1 + 1, c2)),
            format: substring(inner, c2 + 1, n),
        }
    }
}

/// Searching `s.skip(a)` from `i - a` finds what searching `s` from `i`
/// finds, shifted by `a`.
proof fn lemma_find_shift(s: Seq<char>, c: char, a: int, i: int)
    requires
        0 <= a <= i <= s.len(),
    ensures
        find_from(s.skip(a), c, i - a) == find_from(s, c, i) - a,
    decreases s.len() - i,
{
    if i < s.len() && s[i] != c {
        lemma_find_shift(s, c, a, i + 1);
    }
}

/// The pieces of the format string `format`, in order.
pub fn parse_format(format: &str) -> (r: Vec<Segment>)
    ensures
        r@.map_values(|g: Segment| segment_piece(g)) == pieces(format@),
{
    let cs = chars_of(format);
    let n = cs.len();
    let mut r: Vec<Segment> = Vec::new();
    let mut i: usize = 0;
    while i <= n
        invariant
            n == format@.len(),
            cs@ == format@,
            i <= n,
            r@.map_values(|g: Segment| segment_piece(g)) + pieces_from(format@, i as int) == pieces(
                format@,
            ),
        decreases n + 1 - i,
    {
        let ghost before = r@.map_values(|g: Segment| segment_piece(g));
        let ghost s = format@;
        let open = find_char_from(&cs, '{', i);
        proof {
            lemma_find_from(s, '{', i as int);
        }
        let close = if open < n {
            find_char_from(&cs, '}', open + 1)
        } else {
            n
        };
        proof {
            if open < n {
                lemma_find_from(s, '}', open + 1);
            }
        }
        if open >= n || close >= n {
            r.push(Segment::Text(substring(format, i, n)));
            proof {
                assert(r@.map_values(|g: Segment| segment_piece(g)) =~= before + pieces_from(s, i as int));
                assert(before + pieces_from(s, i as int) == pieces(s));
            }
            return r;
        } else {
            let inner = substring(format, open + 1, close);
            r.push(Segment::Text(substring(format, i, open)));
            r.push(slot_segment(inner.as_str()));
            proof {
                assert(r@.map_values(|g: Segment| segment_piece(g)) + pieces_from(s, close + 1)
                    =~= before + pieces_from(s, i as int));
            }
            i = close + 1;
        }
    }
    r
}

} // verus!
