//! Character-level text helpers: the pieces of `str`'s API that the prompt
//! modules use (`trim`, `split_whitespace`, `split`, `trim_start_matches`, ...),
//! each with a specification over `Seq<char>`.
use vstd::prelude::*;

verus! {

/// The view of an optional string.
pub open spec fn opt_view(o: Option<String>) -> Option<Seq<char>> {
    match o {
        Some(s) => Some(s@),
        None => None,
    }
}

/// The Unicode `White_Space` property, which is what `char::is_whitespace` tests.
pub open spec fn is_ws(c: char) -> bool {
    ||| c == ' '
    ||| ('\t' <= c && c <= '\r')
    ||| c == '\u{85}'
    ||| c == '\u{a0}'
    ||| c == '\u{1680}'
    ||| ('\u{2000}' <= c && c <= '\u{200a}')
    ||| c == '\u{2028}'
    ||| c == '\u{2029}'
    ||| c == '\u{202f}'
    ||| c == '\u{205f}'
    ||| c == '\u{3000}'
}

/// `char::is_whitespace`.
pub fn is_whitespace(c: char) -> (b: bool)
    ensures
        b == is_ws(c),
{
    c == ' ' || ('\t' <= c && c <= '\r') || c == '\u{85}' || c == '\u{a0}' || c == '\u{1680}' || (
    '\u{2000}' <= c && c <= '\u{200a}') || c == '\u{2028}' || c == '\u{2029}' || c == '\u{202f}'
        || c == '\u{205f}' || c == '\u{3000}'
}

/// The characters of `s`, in order.
pub fn chars_of(s: &str) -> (v: Vec<char>)
    ensures
        v@ == s@,
{
    let n = s.unicode_len();
    let mut v: Vec<char> = Vec::new();
    let mut i: usize = 0;
    while i < n
        invariant
            n == s@.len(),
            i <= n,
            v@ == s@.take(i as int),
        decreases n - i,
    {
        let c = s.get_char(i);
        v.push(c);
        assert(s@.take(i as int + 1) =~= s@.take(i as int).push(c));
        i += 1;
    }
    assert(s@.take(n as int) =~= s@);
    v
}

/// A new `String` holding the characters `from..to` of `s`.
pub fn substring(s: &str, from: usize, to: usize) -> (r: String)
    requires
        from <= to <= s@.len(),
    ensures
        r@ == s@.subrange(from as int, to as int),
{
    String::from_str(s.substring_char(from, to))
}

/// `a == b` on string slices.
pub fn str_eq(a: &str, b: &str) -> (r: bool)
    ensures
        r == (a@ == b@),
{
    let n = a.unicode_len();
    let m = b.unicode_len();
    if n != m {
        return false;
    }
    let mut i: usize = 0;
    while i < n
        invariant
            n == a@.len(),
            m == b@.len(),
            n == m,
            i <= n,
            forall|j: int| 0 <= j < i ==> a@[j] == b@[j],
        decreases n - i,
    {
        if a.get_char(i) != b.get_char(i) {
            return false;
        }
        i += 1;
    }
    assert(a@ =~= b@);
    true
}

/// Index of the first character at or after `i` that is not whitespace (or `s.len()`).
pub open spec fn skip_ws_from(s: Seq<char>, i: int) -> int
    decreases s.len() - i,
{
    if i < 0 || i >= s.len() {
        s.len() as int
    } else if !is_ws(s[i]) {
        i
    } else {
        skip_ws_from(s, i + 1)
    }
}

/// The end of `s.take(j)` once trailing whitespace is dropped.
pub open spec fn back_ws_from(s: Seq<char>, j: int) -> int
    decreases j,
{
    if j <= 0 || j > s.len() {
        0
    } else if !is_ws(s[j - 1]) {
        j
    } else {
        back_ws_from(s, j - 1)
    }
}

/// `str::trim_start`.
pub open spec fn trim_start(s: Seq<char>) -> Seq<char> {
    s.skip(skip_ws_from(s, 0))
}

/// `str::trim_end`.
pub open spec fn trim_end(s: Seq<char>) -> Seq<char> {
    s.take(back_ws_from(s, s.len() as int))
}

/// `str::trim`.
pub open spec fn trim(s: Seq<char>) -> Seq<char> {
    trim_end(trim_start(s))
}

proof fn lemma_back_ws_bounds(s: Seq<char>, j: int)
    requires
        0 <= j <= s.len(),
    ensures
        0 <= back_ws_from(s, j) <= j,
    decreases j,
{
    if j > 0 && is_ws(s[j - 1]) {
        lemma_back_ws_bounds(s, j - 1);
    }
}

/// Where `trim_start` of `s` begins.
fn trim_start_index(s: &Vec<char>) -> (a: usize)
    ensures
        a == skip_ws_from(s@, 0),
        a <= s@.len(),
{
    let mut i: usize = 0;
    while i < s.len() && is_whitespace(s[i])
        invariant
            i <= s@.len(),
            skip_ws_from(s@, i as int) == skip_ws_from(s@, 0),
        decreases s.len() - i,
    {
        i += 1;
    }
    i
}

/// Where `trim_end` of `s.take(j)` ends.
fn trim_end_index(s: &Vec<char>, j: usize) -> (e: usize)
    requires
        j <= s@.len(),
    ensures
        e == back_ws_from(s@, j as int),
        e <= j,
{
    let mut e = j;
    while e > 0 && is_whitespace(s[e - 1])
        invariant
            e <= j <= s@.len(),
            back_ws_from(s@, e as int) == back_ws_from(s@, j as int),
        decreases e,
    {
        e -= 1;
    }
    e
}

proof fn lemma_back_ws_skip(s: Seq<char>, a: int, j: int)
    requires
        0 <= a <= j <= s.len(),
    ensures
        back_ws_from(s.skip(a), j - a) == if back_ws_from(s, j) <= a {
            0
        } else {
            back_ws_from(s, j) - a
        },
    decreases j,
{
    if j > a && is_ws(s[j - 1]) {
        lemma_back_ws_skip(s, a, j - 1);
    } else if j > a {
    } else {
        lemma_back_ws_bounds(s, j);
    }
}

/// The bounds `from..to` of `trim(s)` inside `s`.
pub fn trim_bounds(s: &Vec<char>) -> (r: (usize, usize))
    ensures
        r.0 <= r.1 <= s@.len(),
        trim(s@) == s@.subrange(r.0 as int, r.1 as int),
{
    let a = trim_start_index(s);
    let e = trim_end_index(s, s.len());
    proof {
        lemma_back_ws_skip(s@, a as int, s@.len() as int);
        lemma_back_ws_bounds(s@, s@.len() as int);
    }
    if e <= a {
        assert(trim(s@) =~= s@.subrange(a as int, a as int));
        (a, a)
    } else {
        assert(trim(s@) =~= s@.subrange(a as int, e as int));
        (a, e)
    }
}

/// `s.trim().to_string()`.
pub fn trimmed(s: &str) -> (r: String)
    ensures
        r@ == trim(s@),
{
    let cs = chars_of(s);
    let (a, e) = trim_bounds(&cs);
    substring(s, a, e)
}

/// Whether `p` is a prefix of `s`.
pub open spec fn has_prefix(s: Seq<char>, p: Seq<char>) -> bool {
    p.len() <= s.len() && s.take(p.len() as int) == p
}

/// `str::trim_start_matches` with a non-empty pattern: strips `p` from the
/// front of `s` as long as it is there.
pub open spec fn strip_prefix_all(s: Seq<char>, p: Seq<char>) -> Seq<char>
    decreases s.len(),
{
    if p.len() > 0 && has_prefix(s, p) {
        strip_prefix_all(s.skip(p.len() as int), p)
    } else {
        s
    }
}

/// `str::trim_end_matches` with a single character.
pub open spec fn strip_suffix_char_all(s: Seq<char>, c: char) -> Seq<char>
    decreases s.len(),
{
    if s.len() > 0 && s.last() == c {
        strip_suffix_char_all(s.drop_last(), c)
    } else {
        s
    }
}

/// Whether `p` occurs in `s` at position `i`.
pub fn occurs_at(s: &Vec<char>, p: &Vec<char>, i: usize) -> (r: bool)
    requires
        i <= s@.len(),
    ensures
        r == has_prefix(s@.skip(i as int), p@),
{
    if p.len() > s.len() - i {
        return false;
    }
    let mut k: usize = 0;
    while k < p.len()
        invariant
            i + p@.len() <= s@.len(),
            s@.len() <= usize::MAX,
            k <= p@.len(),
            forall|j: int| 0 <= j < k ==> s@[i + j] == p@[j],
        decreases p.len() - k,
    {
        if s[i + k] != p[k] {
            assert(s@.skip(i as int).take(p@.len() as int)[k as int] != p@[k as int]);
            return false;
        }
        k += 1;
    }
    assert(s@.skip(i as int).take(p@.len() as int) =~= p@);
    true
}

proof fn lemma_strip_prefix_skip(s: Seq<char>, p: Seq<char>, i: int)
    requires
        0 <= i <= s.len(),
        p.len() > 0,
        has_prefix(s.skip(i), p),
    ensures
        strip_prefix_all(s.skip(i), p) == strip_prefix_all(s.skip(i + p.len()), p),
{
    assert(s.skip(i).skip(p.len() as int) =~= s.skip(i + p.len()));
}

/// `s.trim_start_matches(p)` for a non-empty pattern `p`, as a position in `s`.
pub fn strip_prefix_all_index(s: &Vec<char>, p: &Vec<char>) -> (i: usize)
    requires
        p@.len() > 0,
    ensures
        i <= s@.len(),
        strip_prefix_all(s@, p@) == s@.skip(i as int),
{
    let mut i: usize = 0;
    assert(s@.skip(0) =~= s@);
    while occurs_at(s, p, i)
        invariant
            p@.len() > 0,
            i <= s@.len(),
            strip_prefix_all(s@, p@) == strip_prefix_all(s@.skip(i as int), p@),
        decreases s.len() - i,
    {
        proof {
            lemma_strip_prefix_skip(s@, p@, i as int);
        }
        i = i + p.len();
    }
    i
}

/// `s.trim_end_matches(c)`, as the end position in `s`.
pub fn strip_suffix_char_all_index(s: &Vec<char>, c: char) -> (e: usize)
    ensures
        e <= s@.len(),
        strip_suffix_char_all(s@, c) == s@.take(e as int),
{
    let mut e: usize = s.len();
    assert(s@.take(e as int) =~= s@);
    while e > 0 && s[e - 1] == c
        invariant
            e <= s@.len(),
            strip_suffix_char_all(s@, c) == strip_suffix_char_all(s@.take(e as int), c),
        decreases e,
    {
        assert(s@.take(e as int).drop_last() =~= s@.take(e - 1));
        e -= 1;
    }
    e
}

/// Index of the first `c` in `s` at or after `i`, or `s.len()` when there is none.
pub open spec fn find_from<A>(s: Seq<A>, c: A, i: int) -> int
    decreases s.len() - i,
{
    if i < 0 || i >= s.len() {
        s.len() as int
    } else if s[i] == c {
        i
    } else {
        find_from(s, c, i + 1)
    }
}

pub proof fn lemma_find_from<A>(s: Seq<A>, c: A, i: int)
    requires
        0 <= i <= s.len(),
    ensures
        i <= find_from(s, c, i) <= s.len(),
        find_from(s, c, i) < s.len() ==> s[find_from(s, c, i)] == c,
        forall|k: int| i <= k < find_from(s, c, i) ==> s[k] != c,
    decreases s.len() - i,
{
    if i < s.len() && s[i] != c {
        lemma_find_from(s, c, i + 1);
    }
}

/// `find_from(s, c, i)`.
pub fn find_char_from(s: &Vec<char>, c: char, i: usize) -> (r: usize)
    requires
        i <= s@.len(),
    ensures
        r == find_from(s@, c, i as int),
        i <= r <= s@.len(),
{
    let mut k = i;
    while k < s.len() && s[k] != c
        invariant
            i <= k <= s@.len(),
            find_from(s@, c, k as int) == find_from(s@, c, i as int),
        decreases s.len() - k,
    {
        k += 1;
    }
    k
}

/// The text of `s` before its first `c` (all of `s` when there is none):
/// `s.split(c).next().unwrap()`.
pub open spec fn before_first(s: Seq<char>, c: char) -> Seq<char> {
    s.take(find_from(s, c, 0))
}

/// Index just past the last `c` in `s.take(j)`, or 0 when there is none.
pub open spec fn after_last_from(s: Seq<char>, c: char, j: int) -> int
    decreases j,
{
    if j <= 0 || j > s.len() {
        0
    } else if s[j - 1] == c {
        j
    } else {
        after_last_from(s, c, j - 1)
    }
}

/// The text of `s` after its last `c` (all of `s` when there is none):
/// `s.rsplit(c).next().unwrap()`.
pub open spec fn after_last(s: Seq<char>, c: char) -> Seq<char> {
    s.skip(after_last_from(s, c, s.len() as int))
}

/// `after_last_from(s, c, s.len())`.
pub fn after_last_index(s: &Vec<char>, c: char) -> (r: usize)
    ensures
        r == after_last_from(s@, c, s@.len() as int),
        r <= s@.len(),
{
    let mut j = s.len();
    while j > 0 && s[j - 1] != c
        invariant
            j <= s@.len(),
            after_last_from(s@, c, j as int) == after_last_from(s@, c, s@.len() as int),
        decreases j,
    {
        j -= 1;
    }
    j
}

/// The `(start, end)` positions of the words of `s`, in order: the pieces
/// that `str::split_whitespace` yields.
pub open spec fn word_spans(s: Seq<char>) -> Seq<(int, int)>
    decreases s.len(),
{
    if s.len() == 0 {
        Seq::empty()
    } else {
        let p = word_spans(s.drop_last());
        let n = s.len() as int;
        if is_ws(s.last()) {
            p
        } else if n >= 2 && !is_ws(s[n - 2]) && p.len() > 0 {
            p.update(p.len() - 1, (p.last().0, n))
        } else {
            p.push((n - 1, n))
        }
    }
}

/// The words of `s` (`str::split_whitespace`).
pub open spec fn words(s: Seq<char>) -> Seq<Seq<char>> {
    word_spans(s).map_values(|sp: (int, int)| s.subrange(sp.0, sp.1))
}

/// `s.split_whitespace().nth(k)`.
pub open spec fn nth_word(s: Seq<char>, k: int) -> Option<Seq<char>> {
    if 0 <= k < words(s).len() {
        Some(words(s)[k])
    } else {
        None
    }
}

proof fn lemma_word_spans_end(s: Seq<char>)
    ensures
        s.len() > 0 && !is_ws(s.last()) ==> word_spans(s).len() > 0 && word_spans(s).last().1
            == s.len(),
        forall|k: int|
            0 <= k < word_spans(s).len() ==> 0 <= #[trigger] word_spans(s)[k].0
                < word_spans(s)[k].1 <= s.len(),
    decreases s.len(),
{
    if s.len() > 0 {
        let p = word_spans(s.drop_last());
        lemma_word_spans_end(s.drop_last());
        if p.len() > 0 {
            assert(0 <= p[p.len() - 1].0 < p[p.len() - 1].1 <= s.len() - 1);
        }
    }
}

/// The positions of `s.split_whitespace().nth(k)`, when there is such a word.
pub fn nth_word_bounds(s: &Vec<char>, k: usize) -> (r: Option<(usize, usize)>)
    ensures
        match r {
            Some((a, b)) => a <= b <= s@.len() && nth_word(s@, k as int) == Some(
                s@.subrange(a as int, b as int),
            ),
            None => nth_word(s@, k as int) is None,
        },
{
    let n = s.len();
    let mut i: usize = 0;
    let mut count: usize = 0;
    let mut a: usize = 0;
    let mut b: usize = 0;
    while i < n
        invariant
            n == s@.len(),
            i <= n,
            count == word_spans(s@.take(i as int)).len(),
            count <= i,
            count > k ==> (a as int, b as int) == word_spans(s@.take(i as int))[k as int],
            i > 0 && !is_ws(s@[i - 1]) ==> count > 0 && word_spans(s@.take(i as int)).last().1
                == i,
        decreases n - i,
    {
        let c = s[i];
        let ghost prev = s@.take(i as int);
        assert(s@.take(i + 1).drop_last() =~= prev);
        proof {
            lemma_word_spans_end(prev);
        }
        if is_whitespace(c) {
        } else if i >= 1 && !is_whitespace(s[i - 1]) && count > 0 {
            assert(prev[i - 1] == s@[i - 1]);
            if count - 1 == k {
                b = i + 1;
            }
        } else {
            if i >= 1 {
                assert(prev[i - 1] == s@[i - 1]);
            }
            if count == k {
                a = i;
                b = i + 1;
            }
            count += 1;
        }
        i += 1;
    }
    assert(s@.take(n as int) =~= s@);
    proof {
        lemma_word_spans_end(s@);
    }
    if count > k {
        assert(words(s@)[k as int] == s@.subrange(a as int, b as int));
        Some((a, b))
    } else {
        None
    }
}

/// `s.split_whitespace().nth(k).map(|w| w.to_string())`.
pub fn nth_word_of(s: &str, k: usize) -> (r: Option<String>)
    ensures
        match r {
            Some(w) => nth_word(s@, k as int) == Some(w@),
            None => nth_word(s@, k as int) is None,
        },
{
    let cs = chars_of(s);
    match nth_word_bounds(&cs, k) {
        Some((a, b)) => Some(substring(s, a, b)),
        None => None,
    }
}

/// `s.trim_start_matches(p)` for a non-empty pattern `p`.
pub fn trim_start_matches(s: &str, p: &str) -> (r: String)
    requires
        p@.len() > 0,
    ensures
        r@ == strip_prefix_all(s@, p@),
{
    let cs = chars_of(s);
    let ps = chars_of(p);
    let i = strip_prefix_all_index(&cs, &ps);
    assert(s@.subrange(i as int, s@.len() as int) =~= s@.skip(i as int));
    substring(s, i, cs.len())
}

/// The first line of `s` (`s.lines().next()`): the text before the first
/// `\n`, without a `\r` just before that `\n`; `None` when `s` is empty.
pub open spec fn first_line(s: Seq<char>) -> Option<Seq<char>> {
    if s.len() == 0 {
        None
    } else {
        let e = find_from(s, '\n', 0);
        let raw = s.take(e);
        if e < s.len() && raw.len() > 0 && raw.last() == '\r' {
            Some(raw.drop_last())
        } else {
            Some(raw)
        }
    }
}

/// `s.lines().next().map(|l| l.to_string())`.
pub fn first_line_of(s: &str) -> (r: Option<String>)
    ensures
        match r {
            Some(l) => first_line(s@) == Some(l@),
            None => first_line(s@) is None,
        },
{
    let cs = chars_of(s);
    if cs.len() == 0 {
        return None;
    }
    let e = find_char_from(&cs, '\n', 0);
    proof {
        lemma_find_from(s@, '\n', 0);
    }
    if e < cs.len() && e > 0 && cs[e - 1] == '\r' {
        assert(s@.subrange(0, e - 1) =~= s@.take(e as int).drop_last());
        Some(substring(s, 0, e - 1))
    } else {
        assert(s@.subrange(0, e as int) =~= s@.take(e as int));
        Some(substring(s, 0, e))
    }
}

} // verus!
