//! The header block: a mapping from header name to value.
use vstd::prelude::*;

use crate::text::{
    chars_of, first_match, lines, split_at_first, split_lines, split_once, string_of, trim,
    trim_chars, same_chars,
};

verus! {

/// The mapping that inserting the pairs of `es`, first to last, builds:
/// a later pair replaces an earlier one with the same name.
pub open spec fn to_map(es: Seq<(Seq<char>, Seq<char>)>) -> Map<Seq<char>, Seq<char>>
    decreases es.len(),
{
    if es.len() == 0 {
        Map::empty()
    } else {
        to_map(es.drop_last()).insert(es.last().0, es.last().1)
    }
}

/// `i` is the last position of `es` whose name is `k`.
pub open spec fn is_last_with(es: Seq<(Seq<char>, Seq<char>)>, k: Seq<char>, i: int) -> bool {
    0 <= i < es.len() && es[i].0 == k && forall|j: int| i < j < es.len() ==> es[j].0 != k
}

proof fn lemma_to_map_last(es: Seq<(Seq<char>, Seq<char>)>, k: Seq<char>, i: int)
    requires
        is_last_with(es, k, i),
    ensures
        to_map(es).contains_key(k),
        to_map(es)[k] == es[i].1,
    decreases es.len(),
{
    if i < es.len() - 1 {
        lemma_to_map_last(es.drop_last(), k, i);
    }
}

proof fn lemma_to_map_absent(es: Seq<(Seq<char>, Seq<char>)>, k: Seq<char>)
    requires
        forall|j: int| 0 <= j < es.len() ==> es[j].0 != k,
    ensures
        !to_map(es).contains_key(k),
    decreases es.len(),
{
    if es.len() > 0 {
        lemma_to_map_absent(es.drop_last(), k);
    }
}

/// The name and value of a header line: the text before and after its first
/// colon, each trimmed.
pub open spec fn header_pair(line: Seq<char>) -> (Seq<char>, Seq<char>) {
    let (name, value) = split_once(line, seq![':']).unwrap();
    (trim(name), trim(value))
}

/// `k` is the position of the first empty line of `ls`, or its length where
/// none is empty.
pub open spec fn is_block_end(ls: Seq<Seq<char>>, k: int) -> bool {
    0 <= k <= ls.len() && (k == ls.len() || ls[k].len() == 0) && forall|j: int|
        0 <= j < k ==> ls[j].len() > 0
}

/// Number of header lines before the blank line that ends the block.
pub open spec fn block_len(ls: Seq<Seq<char>>) -> int {
    choose|k: int| is_block_end(ls, k)
}

proof fn lemma_block_len(ls: Seq<Seq<char>>, k: int)
    requires
        is_block_end(ls, k),
    ensures
        block_len(ls) == k,
{
    let c = choose|c: int| is_block_end(ls, c);
    assert(is_block_end(ls, c));
    assert(!(c < k));
    assert(!(k < c));
}

proof fn lemma_block_end_exists(ls: Seq<Seq<char>>, i: int)
    requires
        0 <= i <= ls.len(),
        forall|j: int| 0 <= j < i ==> ls[j].len() > 0,
    ensures
        exists|k: int| is_block_end(ls, k),
    decreases ls.len() - i,
{
    if i == ls.len() || ls[i].len() == 0 {
        assert(is_block_end(ls, i));
    } else {
        lemma_block_end_exists(ls, i + 1);
    }
}

/// The header mapping of the lines after the request line, or `None` where a
/// line of the block holds no colon.
pub open spec fn header_block(rest: Seq<char>) -> Option<Map<Seq<char>, Seq<char>>> {
    let ls = lines(rest);
    let n = block_len(ls);
    if forall|k: int| 0 <= k < n ==> first_match(#[trigger] ls[k], seq![':']) is Some {
        Some(to_map(Seq::new(n as nat, |k: int| header_pair(ls[k]))))
    } else {
        None
    }
}

/// The header mapping of a raw request: `None` where there is no request line
/// or a header line holds no colon.
pub open spec fn headers_of(s: Seq<char>) -> Option<Map<Seq<char>, Seq<char>>> {
    match split_once(s, seq!['\r', '\n']) {
        Some((_, rest)) => header_block(rest),
        None => None,
    }
}

/// Header names and values, in the order in which they were inserted.
#[derive(Debug)]
pub struct HttpHeader {
    headers: Vec<(String, String)>,
}

impl View for HttpHeader {
    type V = Map<Seq<char>, Seq<char>>;

    closed spec fn view(&self) -> Map<Seq<char>, Seq<char>> {
        to_map(self.pairs())
    }
}

impl HttpHeader {
    /// The inserted pairs, as character sequences.
    pub closed spec fn pairs(&self) -> Seq<(Seq<char>, Seq<char>)> {
        self.headers@.map_values(|e: (String, String)| (e.0@, e.1@))
    }

    /// A mapping with no headers.
    pub fn empty() -> (r: HttpHeader)
        ensures
            r.wf(),
            r@ == Map::<Seq<char>, Seq<char>>::empty(),
    {
        let r = HttpHeader { headers: Vec::new() };
        assert(r.pairs() =~= seq![]);
        r
    }

    /// Well-formed: no name is held twice.
    pub closed spec fn wf(&self) -> bool {
        forall|i: int, j: int|
            0 <= i < j < self.pairs().len() ==> self.pairs()[i].0 != self.pairs()[j].0
    }

    /// Set `name` to `value`, replacing an earlier value of `name`.
    pub fn insert(&mut self, name: String, value: String)
        requires
            old(self).wf(),
        ensures
            final(self).wf(),
            final(self)@ == old(self)@.insert(name@, value@),
    {
        let ghost before = self.pairs();
        let key = chars_of(name.as_str());
        let mut i: usize = 0;
        while i < self.headers.len()
            invariant
                i <= self.headers@.len(),
                key@ == name@,
                self.pairs() == before,
                old(self).pairs() == before,
                forall|a: int, b: int| 0 <= a < b < before.len() ==> before[a].0 != before[b].0,
                forall|j: int| 0 <= j < i ==> before[j].0 != name@,
            decreases self.headers@.len() - i,
        {
            let k = chars_of(self.headers[i].0.as_str());
            if same_chars(&k, &key) {
                assert(before[i as int].0 == name@);
                let ghost nv = value@;
                self.headers.set(i, (name, value));
                proof {
                    lemma_to_map_update(before, i as int, nv);
                    assert(self.pairs() =~= before.update(i as int, (before[i as int].0, nv)));
                    assert forall|a: int, b: int|
                        0 <= a < b < self.pairs().len() implies self.pairs()[a].0
                        != self.pairs()[b].0 by {
                        assert(self.pairs()[a].0 == before[a].0);
                        assert(self.pairs()[b].0 == before[b].0);
                    }
                    assert(to_map(self.pairs()) == to_map(before).insert(name@, nv));
                }
                return;
            }
            i = i + 1;
        }
        let ghost nv = value@;
        self.headers.push((name, value));
        assert(self.pairs() =~= before.push((name@, nv)));
        assert(self.pairs().drop_last() =~= before);
    }

    /// Number of headers held.
    pub fn len(&self) -> (r: usize)
        requires
            self.wf(),
        ensures
            r == self@.len(),
    {
        proof {
            lemma_to_map_len(self.pairs());
        }
        self.headers.len()
    }

    /// The value of header `name`, if it was set.
    pub fn get(&self, name: &str) -> (r: Option<String>)
        ensures
            r matches Some(v) ==> self@.contains_key(name@) && self@[name@] == v@,
            r is None ==> !self@.contains_key(name@),
    {
        let key = chars_of(name);
        let mut i: usize = self.headers.len();
        while i > 0
            invariant
                i <= self.headers@.len(),
                key@ == name@,
                forall|j: int| i <= j < self.pairs().len() ==> self.pairs()[j].0 != name@,
            decreases i,
        {
            let k = chars_of(self.headers[i - 1].0.as_str());
            if same_chars(&k, &key) {
                proof {
                    lemma_to_map_last(self.pairs(), name@, i - 1);
                }
                return Some(self.headers[i - 1].1.clone());
            }
            i = i - 1;
        }
        proof {
            lemma_to_map_absent(self.pairs(), name@);
        }
        None
    }

    /// Parse the header block of a raw request: the lines after the request
    /// line, up to the first empty one, each split at its first colon into a
    /// trimmed name and value. `None` where there is no request line or a
    /// line of the block holds no colon.
    pub fn new(request: &str) -> (r: Option<HttpHeader>)
        ensures
            r matches Some(h) ==> h.wf(),
            r matches Some(h) ==> headers_of(request@) == Some(h@),
            r is None ==> headers_of(request@) is None,
    {
        let s = chars_of(request);
        let crlf = vec!['\r', '\n'];
        assert(crlf@ =~= seq!['\r', '\n']);
        let rest = match split_at_first(&s, &crlf) {
            Some((_, rest)) => rest,
            None => return None,
        };
        assert(headers_of(request@) == header_block(rest@));
        let colon = vec![':'];
        assert(colon@ =~= seq![':']);
        let ls = split_lines(&rest);
        let mut h = HttpHeader::empty();
        let mut k: usize = 0;
        while k < ls.len()
            invariant
                k <= ls@.len(),
                colon@ == seq![':'],
                h.wf(),
                headers_of(request@) == header_block(rest@),
                ls@.len() == lines(rest@).len(),
                forall|m: int| 0 <= m < ls@.len() ==> #[trigger] ls@[m]@ == lines(rest@)[m],
                forall|j: int| 0 <= j < k ==> lines(rest@)[j].len() > 0,
                forall|j: int| 0 <= j < k ==> first_match(#[trigger] lines(rest@)[j], seq![':']) is Some,
                h@ == to_map(Seq::new(k as nat, |j: int| header_pair(lines(rest@)[j]))),
            decreases ls@.len() - k,
        {
            if ls[k].len() == 0 {
                proof {
                    lemma_block_len(lines(rest@), k as int);
                }
                return Some(h);
            }
            match split_at_first(&ls[k], &colon) {
                Some((name, value)) => {
                    let ghost before = h@;
                    h.insert(string_of(&trim_chars(&name)), string_of(&trim_chars(&value)));
                    let ghost f = |j: int| header_pair(lines(rest@)[j]);
                    assert(Seq::new((k + 1) as nat, f).drop_last() =~= Seq::new(k as nat, f));
                },
                None => {
                    proof {
                        let ls_ = lines(rest@);
                        lemma_block_end_exists(ls_, 0);
                        let e = choose|e: int| is_block_end(ls_, e);
                        lemma_block_len(ls_, e);
                        assert(!(e <= k));
                    }
                    return None;
                },
            }
            k = k + 1;
        }
        proof {
            lemma_block_len(lines(rest@), k as int);
        }
        Some(h)
    }
}

} // verus!

verus! {

proof fn lemma_to_map_update(es: Seq<(Seq<char>, Seq<char>)>, i: int, v: Seq<char>)
    requires
        0 <= i < es.len(),
        forall|a: int, b: int| 0 <= a < b < es.len() ==> es[a].0 != es[b].0,
    ensures
        to_map(es.update(i, (es[i].0, v))) == to_map(es).insert(es[i].0, v),
{
    let es2 = es.update(i, (es[i].0, v));
    let m = to_map(es).insert(es[i].0, v);
    assert forall|k: Seq<char>| #[trigger] to_map(es2).contains_key(k) == m.contains_key(k) && (
    m.contains_key(k) ==> to_map(es2)[k] == m[k]) by {
        if exists|j: int| 0 <= j < es.len() && es[j].0 == k {
            let j = choose|j: int| 0 <= j < es.len() && es[j].0 == k;
            assert(is_last_with(es, k, j));
            assert(is_last_with(es2, k, j));
            lemma_to_map_last(es, k, j);
            lemma_to_map_last(es2, k, j);
        } else {
            lemma_to_map_absent(es, k);
            lemma_to_map_absent(es2, k);
        }
    }
    assert(to_map(es2) =~= m);
}

proof fn lemma_to_map_len(es: Seq<(Seq<char>, Seq<char>)>)
    requires
        forall|i: int, j: int| 0 <= i < j < es.len() ==> es[i].0 != es[j].0,
    ensures
        to_map(es).dom().finite(),
        to_map(es).dom().len() == es.len(),
    decreases es.len(),
{
    if es.len() > 0 {
        let init = es.drop_last();
        lemma_to_map_len(init);
        lemma_to_map_absent(init, es.last().0);
    }
}

/// A header block of `n` non-empty lines, each holding a colon and each with
/// its own trimmed name, ended by an empty line, parses to a mapping of `n`
/// entries, each trimmed name to its trimmed value.
pub proof fn lemma_well_formed_block(s: Seq<char>, request_line: Seq<char>, rest: Seq<char>, n: int)
    requires
        split_once(s, seq!['\r', '\n']) == Some((request_line, rest)),
        0 <= n < lines(rest).len(),
        lines(rest)[n].len() == 0,
        forall|k: int|
            0 <= k < n ==> lines(rest)[k].len() > 0 && first_match(
                #[trigger] lines(rest)[k],
                seq![':'],
            ) is Some,
        forall|j: int, k: int|
            0 <= j < k < n ==> header_pair(lines(rest)[j]).0 != header_pair(lines(rest)[k]).0,
    ensures
        headers_of(s) is Some,
        headers_of(s).unwrap().dom().len() == n,
        forall|k: int|
            0 <= k < n ==> headers_of(s).unwrap()[header_pair(#[trigger] lines(rest)[k]).0]
                == header_pair(lines(rest)[k]).1,
{
    let ls = lines(rest);
    lemma_block_len(ls, n);
    let es = Seq::new(n as nat, |k: int| header_pair(ls[k]));
    lemma_to_map_len(es);
    assert forall|k: int| 0 <= k < n implies to_map(es)[header_pair(#[trigger] ls[k]).0]
        == header_pair(ls[k]).1 by {
        assert(is_last_with(es, es[k].0, k));
        lemma_to_map_last(es, es[k].0, k);
    }
}

/// One header line without a colon, before the empty line that ends the
/// block, makes the whole header block fail.
pub proof fn lemma_line_without_colon(s: Seq<char>, request_line: Seq<char>, rest: Seq<char>, k: int)
    requires
        split_once(s, seq!['\r', '\n']) == Some((request_line, rest)),
        0 <= k < lines(rest).len(),
        forall|j: int| 0 <= j <= k ==> lines(rest)[j].len() > 0,
        first_match(lines(rest)[k], seq![':']) is None,
    ensures
        headers_of(s) is None,
{
    let ls = lines(rest);
    lemma_block_end_exists(ls, 0);
    let e = choose|e: int| is_block_end(ls, e);
    lemma_block_len(ls, e);
    assert(!(e <= k));
}

} // verus!
