//! Character-sequence primitives shared by the request parsers.
use vstd::prelude::*;

verus! {

/// `p` occurs in `s` starting at index `i`.
pub open spec fn matches_at(s: Seq<char>, p: Seq<char>, i: int) -> bool {
    0 <= i && i + p.len() <= s.len() && s.subrange(i, i + p.len()) == p
}

/// `i` is the leftmost index at which `p` occurs in `s`.
pub open spec fn is_first_match(s: Seq<char>, p: Seq<char>, i: int) -> bool {
    matches_at(s, p, i) && forall|j: int| 0 <= j < i ==> !matches_at(s, p, j)
}

/// The leftmost occurrence of `p` in `s`, if any.
pub open spec fn first_match(s: Seq<char>, p: Seq<char>) -> Option<int> {
    if exists|i: int| is_first_match(s, p, i) {
        Some(choose|i: int| is_first_match(s, p, i))
    } else {
        None
    }
}

/// Split `s` around the leftmost occurrence of `p`.
pub open spec fn split_once(s: Seq<char>, p: Seq<char>) -> Option<(Seq<char>, Seq<char>)> {
    match first_match(s, p) {
        Some(i) => Some((s.subrange(0, i), s.subrange(i + p.len(), s.len() as int))),
        None => None,
    }
}

proof fn lemma_first_match_unique(s: Seq<char>, p: Seq<char>, i: int)
    requires
        is_first_match(s, p, i),
    ensures
        first_match(s, p) == Some(i),
{
    let k = choose|k: int| is_first_match(s, p, k);
    assert(is_first_match(s, p, k));
    assert(!(k < i));
    assert(!(i < k));
}

/// Characters that `str::trim` and `char::is_whitespace` treat as white space
/// (the Unicode `White_Space` property).
pub open spec fn is_space(c: char) -> bool {
    c == '\t' || c == '\n' || c == '\x0B' || c == '\x0C' || c == '\r' || c == ' '
        || c == '\u{85}' || c == '\u{A0}' || c == '\u{1680}'
        || ('\u{2000}' <= c && c <= '\u{200A}') || c == '\u{2028}' || c == '\u{2029}'
        || c == '\u{202F}' || c == '\u{205F}' || c == '\u{3000}'
}

/// ASCII white space, as `str::split_ascii_whitespace` uses it.
pub open spec fn is_ascii_space(c: char) -> bool {
    c == ' ' || c == '\t' || c == '\n' || c == '\x0C' || c == '\r'
}

pub open spec fn trim_start(s: Seq<char>) -> Seq<char>
    decreases s.len(),
{
    if s.len() > 0 && is_space(s[0]) {
        trim_start(s.drop_first())
    } else {
        s
    }
}

pub open spec fn trim_end(s: Seq<char>) -> Seq<char>
    decreases s.len(),
{
    if s.len() > 0 && is_space(s.last()) {
        trim_end(s.drop_last())
    } else {
        s
    }
}

/// `s` without leading and trailing white space.
pub open spec fn trim(s: Seq<char>) -> Seq<char> {
    trim_end(trim_start(s))
}

pub fn is_space_char(c: char) -> (r: bool)
    ensures
        r == is_space(c),
{
    c == '\t' || c == '\n' || c == '\x0B' || c == '\x0C' || c == '\r' || c == ' '
        || c == '\u{85}' || c == '\u{A0}' || c == '\u{1680}'
        || ('\u{2000}' <= c && c <= '\u{200A}') || c == '\u{2028}' || c == '\u{2029}'
        || c == '\u{202F}' || c == '\u{205F}' || c == '\u{3000}'
}

/// A copy of `s[lo..hi]`.
pub fn slice(s: &[char], lo: usize, hi: usize) -> (r: Vec<char>)
    requires
        lo <= hi <= s@.len(),
    ensures
        r@ == s@.subrange(lo as int, hi as int),
{
    let mut r: Vec<char> = Vec::new();
    let mut i: usize = lo;
    while i < hi
        invariant
            lo <= i <= hi <= s@.len(),
            r@ == s@.subrange(lo as int, i as int),
        decreases hi - i,
    {
        r.push(s[i]);
        i = i + 1;
        assert(r@ =~= s@.subrange(lo as int, i as int));
    }
    r
}

/// Whether `p` occurs in `s` at index `i`.
fn matches_here(s: &[char], p: &[char], i: usize) -> (r: bool)
    requires
        i <= s@.len(),
    ensures
        r == matches_at(s@, p@, i as int),
{
    if p.len() > s.len() - i {
        return false;
    }
    let mut k: usize = 0;
    while k < p.len()
        invariant
            i + p@.len() <= s@.len(),
            s@.len() <= usize::MAX,
            k <= p@.len(),
            forall|m: int| 0 <= m < k ==> s@[i + m] == p@[m],
        decreases p@.len() - k,
    {
        if s[i + k] != p[k] {
            assert(s@.subrange(i as int, i + p@.len())[k as int] != p@[k as int]);
            return false;
        }
        k = k + 1;
    }
    assert(s@.subrange(i as int, i + p@.len()) =~= p@);
    true
}

/// Index of the leftmost occurrence of `p` in `s`.
pub fn find(s: &[char], p: &[char]) -> (r: Option<usize>)
    ensures
        r matches Some(i) ==> first_match(s@, p@) == Some(i as int) && is_first_match(
            s@,
            p@,
            i as int,
        ),
        r is None ==> first_match(s@, p@) is None,
{
    let mut i: usize = 0;
    loop
        invariant
            i <= s@.len(),
            forall|j: int| 0 <= j < i ==> !matches_at(s@, p@, j),
        decreases s@.len() - i,
    {
        if matches_here(s, p, i) {
            proof {
                lemma_first_match_unique(s@, p@, i as int);
            }
            return Some(i);
        }
        if i == s.len() {
            assert forall|j: int| !matches_at(s@, p@, j) by {
                if 0 <= j && j <= s@.len() {
                    assert(j < i || j == i);
                }
            }
            assert(!exists|k: int| is_first_match(s@, p@, k));
            return None;
        }
        i = i + 1;
    }
}

} // verus!

verus! {

/// Split `s` around the leftmost occurrence of `p`.
pub fn split_at_first(s: &[char], p: &[char]) -> (r: Option<(Vec<char>, Vec<char>)>)
    ensures
        r matches Some((a, b)) ==> split_once(s@, p@) == Some((a@, b@)),
        r is None ==> split_once(s@, p@) is None,
{
    match find(s, p) {
        Some(i) => {
            let n = s.len();
            assert(i + p@.len() <= n);
            let a = slice(s, 0, i);
            let b = slice(s, i + p.len(), s.len());
            Some((a, b))
        },
        None => None,
    }
}

proof fn lemma_trim_start_skip(s: Seq<char>, i: int)
    requires
        0 <= i <= s.len(),
        forall|k: int| 0 <= k < i ==> is_space(s[k]),
    ensures
        trim_start(s) == trim_start(s.subrange(i, s.len() as int)),
    decreases i,
{
    if i > 0 {
        lemma_trim_start_skip(s.drop_first(), i - 1);
        assert(s.drop_first().subrange(i - 1, s.len() - 1) =~= s.subrange(i, s.len() as int));
    } else {
        assert(s.subrange(0, s.len() as int) =~= s);
    }
}

proof fn lemma_trim_end_cut(s: Seq<char>, j: int)
    requires
        0 <= j <= s.len(),
        forall|k: int| j <= k < s.len() ==> is_space(s[k]),
    ensures
        trim_end(s) == trim_end(s.subrange(0, j)),
    decreases s.len() - j,
{
    if j < s.len() {
        lemma_trim_end_cut(s.drop_last(), j);
        assert(s.drop_last().subrange(0, j) =~= s.subrange(0, j));
    } else {
        assert(s.subrange(0, j) =~= s);
    }
}

/// `s` without leading and trailing white space.
pub fn trim_chars(s: &[char]) -> (r: Vec<char>)
    ensures
        r@ == trim(s@),
{
    let mut lo: usize = 0;
    while lo < s.len() && is_space_char(s[lo])
        invariant
            lo <= s@.len(),
            forall|k: int| 0 <= k < lo ==> is_space(s@[k]),
        decreases s@.len() - lo,
    {
        lo = lo + 1;
    }
    proof {
        lemma_trim_start_skip(s@, lo as int);
    }
    let ghost t = s@.subrange(lo as int, s@.len() as int);
    assert(trim_start(t) == t);
    let mut hi: usize = s.len();
    while hi > lo && is_space_char(s[hi - 1])
        invariant
            lo <= hi <= s@.len(),
            forall|k: int| hi <= k < s@.len() ==> is_space(s@[k]),
        decreases hi - lo,
    {
        hi = hi - 1;
    }
    proof {
        lemma_trim_end_cut(t, hi - lo);
        assert(t.subrange(0, hi - lo) =~= s@.subrange(lo as int, hi as int));
    }
    slice(s, lo, hi)
}

/// Whether two character sequences are equal.
pub fn same_chars(a: &[char], b: &[char]) -> (r: bool)
    ensures
        r == (a@ == b@),
{
    if a.len() != b.len() {
        return false;
    }
    let mut k: usize = 0;
    while k < a.len()
        invariant
            a@.len() == b@.len(),
            k <= a@.len(),
            forall|m: int| 0 <= m < k ==> a@[m] == b@[m],
        decreases a@.len() - k,
    {
        if a[k] != b[k] {
            return false;
        }
        k = k + 1;
    }
    assert(a@ =~= b@);
    true
}

} // verus!

verus! {

/// Left-to-right scan of `s` for white-space separated words: the words
/// completed so far, and the word still being read.
pub open spec fn word_scan(s: Seq<char>) -> (Seq<Seq<char>>, Seq<char>)
    decreases s.len(),
{
    if s.len() == 0 {
        (seq![], seq![])
    } else {
        let (done, cur) = word_scan(s.drop_last());
        if is_ascii_space(s.last()) {
            if cur.len() > 0 {
                (done.push(cur), seq![])
            } else {
                (done, cur)
            }
        } else {
            (done, cur.push(s.last()))
        }
    }
}

/// The non-empty runs of `s` between ASCII white space, in order.
pub open spec fn words(s: Seq<char>) -> Seq<Seq<char>> {
    let (done, cur) = word_scan(s);
    if cur.len() > 0 {
        done.push(cur)
    } else {
        done
    }
}

/// Split `s` at ASCII white space into its non-empty words.
pub fn split_words(s: &[char]) -> (r: Vec<Vec<char>>)
    ensures
        r@.len() == words(s@).len(),
        forall|k: int| 0 <= k < r@.len() ==> #[trigger] r@[k]@ == words(s@)[k],
{
    let mut done: Vec<Vec<char>> = Vec::new();
    let mut cur: Vec<char> = Vec::new();
    let mut i: usize = 0;
    while i < s.len()
        invariant
            i <= s@.len(),
            done@.len() == word_scan(s@.subrange(0, i as int)).0.len(),
            forall|k: int|
                0 <= k < done@.len() ==> #[trigger] done@[k]@ == word_scan(
                    s@.subrange(0, i as int),
                ).0[k],
            cur@ == word_scan(s@.subrange(0, i as int)).1,
        decreases s@.len() - i,
    {
        let c = s[i];
        assert(s@.subrange(0, i + 1).drop_last() =~= s@.subrange(0, i as int));
        if c == ' ' || c == '\t' || c == '\n' || c == '\x0C' || c == '\r' {
            if cur.len() > 0 {
                done.push(cur);
                cur = Vec::new();
            }
        } else {
            cur.push(c);
        }
        i = i + 1;
    }
    assert(s@.subrange(0, s@.len() as int) =~= s@);
    if cur.len() > 0 {
        done.push(cur);
    }
    done
}

/// Relies on `str::chars`, collected into a `Vec`: the characters of `s`, in order.
#[verifier::external_body]
pub(crate) fn chars_of(s: &str) -> (r: Vec<char>)
    ensures
        r@ == s@,
{
    s.chars().collect()
}

/// Relies on `String`'s `FromIterator<&char>`: the string made of the characters of `v`, in order.
#[verifier::external_body]
pub(crate) fn string_of(v: &[char]) -> (r: String)
    ensures
        r@ == v@,
{
    v.iter().collect()
}

} // verus!

verus! {

/// Left-to-right scan of `s` for pieces separated by `"\r\n"`: the pieces
/// completed so far, and the piece still being read.
pub open spec fn line_scan(s: Seq<char>) -> (Seq<Seq<char>>, Seq<char>)
    decreases s.len(),
{
    if s.len() == 0 {
        (seq![], seq![])
    } else {
        let (done, cur) = line_scan(s.drop_last());
        if s.last() == '\n' && cur.len() > 0 && cur.last() == '\r' {
            (done.push(cur.drop_last()), seq![])
        } else {
            (done, cur.push(s.last()))
        }
    }
}

/// The pieces of `s` between occurrences of `"\r\n"`, the last one included
/// even when empty.
pub open spec fn lines(s: Seq<char>) -> Seq<Seq<char>> {
    line_scan(s).0.push(line_scan(s).1)
}

/// Split `s` at every `"\r\n"`.
pub fn split_lines(s: &[char]) -> (r: Vec<Vec<char>>)
    ensures
        r@.len() == lines(s@).len(),
        forall|k: int| 0 <= k < r@.len() ==> #[trigger] r@[k]@ == lines(s@)[k],
{
    let mut done: Vec<Vec<char>> = Vec::new();
    let mut cur: Vec<char> = Vec::new();
    let mut i: usize = 0;
    while i < s.len()
        invariant
            i <= s@.len(),
            done@.len() == line_scan(s@.subrange(0, i as int)).0.len(),
            forall|k: int|
                0 <= k < done@.len() ==> #[trigger] done@[k]@ == line_scan(
                    s@.subrange(0, i as int),
                ).0[k],
            cur@ == line_scan(s@.subrange(0, i as int)).1,
        decreases s@.len() - i,
    {
        let c = s[i];
        assert(s@.subrange(0, i + 1).drop_last() =~= s@.subrange(0, i as int));
        let n = cur.len();
        if c == '\n' && n > 0 && cur[n - 1] == '\r' {
            cur.pop();
            done.push(cur);
            cur = Vec::new();
        } else {
            cur.push(c);
        }
        i = i + 1;
    }
    assert(s@.subrange(0, s@.len() as int) =~= s@);
    done.push(cur);
    done
}

} // verus!
