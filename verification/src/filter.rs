//! Filter parser: decodes a raw query string into a mapping of filter keys
//! to values. The string is split on `&` into candidate pairs and each pair
//! on its first `=`; a pair without an `=` is a malformed-input error. For
//! duplicate keys the last occurrence wins, and the empty string yields the
//! empty mapping.

use crate::QueryError;
use vstd::prelude::*;
use vstd::string::*;

verus! {

/// The index of the first occurrence of `c` in `s`, if any.
pub open spec fn find_char(s: Seq<char>, c: char) -> Option<int>
    decreases s.len(),
{
    if s.len() == 0 {
        None
    } else if s[0] == c {
        Some(0)
    } else {
        match find_char(s.drop_first(), c) {
            None => None,
            Some(i) => Some(i + 1),
        }
    }
}

/// The pieces of `s` between occurrences of `sep`; the empty string has one
/// empty piece.
pub open spec fn split_on(s: Seq<char>, sep: char) -> Seq<Seq<char>>
    decreases s.len(),
{
    if s.len() == 0 {
        seq![Seq::<char>::empty()]
    } else if s[0] == sep {
        seq![Seq::<char>::empty()] + split_on(s.drop_first(), sep)
    } else {
        let r = split_on(s.drop_first(), sep);
        seq![seq![s[0]] + r[0]] + r.drop_first()
    }
}

/// The parts of `s` before and after the first occurrence of `sep`, or
/// nothing when `sep` does not occur.
pub open spec fn split_pair(s: Seq<char>, sep: char) -> Option<(Seq<char>, Seq<char>)>
    decreases s.len(),
{
    if s.len() == 0 {
        None
    } else if s[0] == sep {
        Some((Seq::<char>::empty(), s.drop_first()))
    } else {
        match split_pair(s.drop_first(), sep) {
            None => None,
            Some(kv) => Some((seq![s[0]] + kv.0, kv.1)),
        }
    }
}

/// Folds candidate pairs into a mapping, later pairs overwriting earlier
/// ones; a piece without a delimiter poisons the whole parse.
pub open spec fn parse_from(m: Map<Seq<char>, Seq<char>>, pieces: Seq<Seq<char>>) -> Option<
    Map<Seq<char>, Seq<char>>,
>
    decreases pieces.len(),
{
    if pieces.len() == 0 {
        Some(m)
    } else {
        match split_pair(pieces[0], '=') {
            None => None,
            Some(kv) => parse_from(m.insert(kv.0, kv.1), pieces.drop_first()),
        }
    }
}

/// What `parse` yields on a raw query string: the empty string gives the
/// empty mapping, anything else is split on `&` and folded pair by pair.
pub open spec fn spec_parse(s: Seq<char>) -> Option<Map<Seq<char>, Seq<char>>> {
    if s.len() == 0 {
        Some(Map::<Seq<char>, Seq<char>>::empty())
    } else {
        parse_from(Map::<Seq<char>, Seq<char>>::empty(), split_on(s, '&'))
    }
}

/// The mapping held by a list of pairs, later entries overwriting earlier
/// ones.
pub open spec fn map_of(s: Seq<(String, String)>) -> Map<Seq<char>, Seq<char>>
    decreases s.len(),
{
    if s.len() == 0 {
        Map::<Seq<char>, Seq<char>>::empty()
    } else {
        map_of(s.drop_last()).insert(s.last().0@, s.last().1@)
    }
}

/// A filter mapping from keys to raw string values, order-irrelevant, with
/// overwrite-on-insert semantics.
#[derive(Debug)]
pub struct FilterMap {
    pairs: Vec<(String, String)>,
}

impl View for FilterMap {
    type V = Map<Seq<char>, Seq<char>>;

    closed spec fn view(&self) -> Map<Seq<char>, Seq<char>> {
        map_of(self.pairs@)
    }
}

proof fn lemma_map_of_key(s: Seq<(String, String)>, k: Seq<char>)
    ensures
        map_of(s).contains_key(k) <==> exists|j: int| 0 <= j < s.len() && s[j].0@ == k,
    decreases s.len(),
{
    if s.len() > 0 {
        lemma_map_of_key(s.drop_last(), k);
        if s.last().0@ == k {
            assert(s[s.len() - 1].0@ == k);
        } else {
            if map_of(s).contains_key(k) {
                let j = choose|j: int| 0 <= j < s.drop_last().len() && s.drop_last()[j].0@ == k;
                assert(s[j].0@ == k);
            }
            if exists|j: int| 0 <= j < s.len() && s[j].0@ == k {
                let j = choose|j: int| 0 <= j < s.len() && s[j].0@ == k;
                assert(j < s.len() - 1);
                assert(s.drop_last()[j].0@ == k);
            }
        }
    }
}

proof fn lemma_map_of_last_match(s: Seq<(String, String)>, i: int, k: Seq<char>)
    requires
        0 <= i < s.len(),
        s[i].0@ == k,
        forall|j: int| i < j < s.len() ==> s[j].0@ != k,
    ensures
        map_of(s).contains_key(k),
        map_of(s)[k] == s[i].1@,
    decreases s.len(),
{
    if i == s.len() - 1 {
    } else {
        assert(s.drop_last()[i].0@ == k);
        lemma_map_of_last_match(s.drop_last(), i, k);
        assert(s.last().0@ != k);
    }
}

/// Character-by-character string equality.
pub fn str_eq(a: &str, b: &str) -> (r: bool)
    ensures
        r == (a@ == b@),
{
    let la = a.unicode_len();
    let lb = b.unicode_len();
    if la != lb {
        return false;
    }
    let mut i: usize = 0;
    while i < la
        invariant
            i <= la,
            la == a@.len(),
            la == b@.len(),
            forall|j: int| 0 <= j < i ==> a@[j] == b@[j],
        decreases la - i,
    {
        if a.get_char(i) != b.get_char(i) {
            return false;
        }
        i = i + 1;
    }
    proof {
        assert(a@ =~= b@);
    }
    true
}

impl FilterMap {
    /// The empty mapping.
    pub fn new() -> (m: FilterMap)
        ensures
            m@ == Map::<Seq<char>, Seq<char>>::empty(),
    {
        let m = FilterMap { pairs: Vec::new() };
        proof {
            assert(m@ =~= Map::<Seq<char>, Seq<char>>::empty());
        }
        m
    }

    /// Inserts a pair; an existing value under the same key is overwritten.
    pub fn insert(&mut self, k: String, v: String)
        ensures
            final(self)@ == old(self)@.insert(k@, v@),
    {
        let ghost gk = k@;
        let ghost gv = v@;
        self.pairs.push((k, v));
        proof {
            assert(self.pairs@.drop_last() =~= old(self).pairs@);
            assert(self@ == map_of(self.pairs@.drop_last()).insert(gk, gv));
        }
    }

    /// Looks a key up; for duplicate insertions the last value wins.
    pub fn get(&self, k: &str) -> (r: Option<&String>)
        ensures
            r is Some <==> self@.contains_key(k@),
            r is Some ==> r->Some_0@ == self@[k@],
    {
        let n = self.pairs.len();
        let mut i = n;
        while i > 0
            invariant
                i <= n,
                n == self.pairs@.len(),
                forall|j: int| i <= j < n ==> self.pairs@[j].0@ != k@,
            decreases i,
        {
            i = i - 1;
            if str_eq(self.pairs[i].0.as_str(), k) {
                proof {
                    lemma_map_of_last_match(self.pairs@, i as int, k@);
                }
                return Some(&self.pairs[i].1);
            }
        }
        proof {
            lemma_map_of_key(self.pairs@, k@);
        }
        None
    }

    /// The number of pairs recorded, duplicates included.
    pub closed spec fn pair_count(&self) -> nat {
        self.pairs@.len()
    }

    /// The number of distinct keys is at most the number of insertions.
    pub fn len(&self) -> (n: usize)
        ensures
            n == self.pair_count(),
            self@.dom().finite(),
            self@.dom().len() <= n,
    {
        proof {
            lemma_map_of_card(self.pairs@);
        }
        self.pairs.len()
    }
}

proof fn lemma_map_of_card(s: Seq<(String, String)>)
    ensures
        map_of(s).dom().finite(),
        map_of(s).dom().len() <= s.len(),
    decreases s.len(),
{
    if s.len() > 0 {
        lemma_map_of_card(s.drop_last());
    }
}

proof fn lemma_find_char_props(s: Seq<char>, c: char)
    ensures
        match find_char(s, c) {
            None => forall|j: int| 0 <= j < s.len() ==> s[j] != c,
            Some(i) => 0 <= i < s.len() && s[i] == c && forall|j: int| 0 <= j < i ==> s[j] != c,
        },
    decreases s.len(),
{
    if s.len() > 0 && s[0] != c {
        lemma_find_char_props(s.drop_first(), c);
        let df = s.drop_first();
        match find_char(df, c) {
            None => {
                assert forall|j: int| 0 <= j < s.len() implies s[j] != c by {
                    if j > 0 {
                        assert(df[j - 1] != c);
                    }
                }
            },
            Some(i) => {
                assert(s[i + 1] == df[i]);
                assert forall|j: int| 0 <= j < i + 1 implies s[j] != c by {
                    if j > 0 {
                        assert(df[j - 1] != c);
                    }
                }
            },
        }
    }
}

proof fn lemma_find_char_none(s: Seq<char>, c: char)
    requires
        forall|j: int| 0 <= j < s.len() ==> s[j] != c,
    ensures
        find_char(s, c) is None,
    decreases s.len(),
{
    if s.len() > 0 {
        assert(s[0] != c);
        lemma_find_char_none(s.drop_first(), c);
    }
}

proof fn lemma_find_char_at(s: Seq<char>, c: char, i: int)
    requires
        0 <= i < s.len(),
        s[i] == c,
        forall|j: int| 0 <= j < i ==> s[j] != c,
    ensures
        find_char(s, c) == Some(i),
    decreases s.len(),
{
    if i == 0 {
    } else {
        assert(s[0] != c);
        assert(s.drop_first()[i - 1] == c);
        lemma_find_char_at(s.drop_first(), c, i - 1);
    }
}

proof fn lemma_split_on_len(s: Seq<char>, sep: char)
    ensures
        split_on(s, sep).len() >= 1,
    decreases s.len(),
{
    if s.len() > 0 {
        lemma_split_on_len(s.drop_first(), sep);
    }
}

proof fn lemma_split_on_unfold(s: Seq<char>, sep: char)
    ensures
        match find_char(s, sep) {
            None => split_on(s, sep) == seq![s],
            Some(i) => split_on(s, sep) == seq![s.subrange(0, i)] + split_on(
                s.subrange(i + 1, s.len() as int),
                sep,
            ),
        },
    decreases s.len(),
{
    lemma_find_char_props(s, sep);
    if s.len() == 0 {
        assert(s =~= Seq::<char>::empty());
    } else if s[0] == sep {
        assert(s.subrange(0, 0) =~= Seq::<char>::empty());
        assert(s.subrange(1, s.len() as int) =~= s.drop_first());
        assert(seq![s.subrange(0, 0)] + split_on(s.subrange(1, s.len() as int), sep) =~= seq![
            Seq::<char>::empty(),
        ] + split_on(s.drop_first(), sep));
    } else {
        let df = s.drop_first();
        lemma_split_on_unfold(df, sep);
        lemma_split_on_len(df, sep);
        match find_char(df, sep) {
            None => {
                assert(split_on(df, sep) == seq![df]);
                assert(split_on(s, sep) == seq![seq![s[0]] + seq![df][0]] + seq![df].drop_first());
                assert(seq![s[0]] + df =~= s);
                assert(seq![df].drop_first() =~= Seq::<Seq<char>>::empty());
                assert(seq![seq![s[0]] + seq![df][0]] + Seq::<Seq<char>>::empty() =~= seq![
                    seq![s[0]] + df,
                ]);
            },
            Some(j) => {
                let r = split_on(df, sep);
                let tail = split_on(df.subrange(j + 1, df.len() as int), sep);
                assert(r == seq![df.subrange(0, j)] + tail);
                assert(split_on(s, sep) == seq![seq![s[0]] + r[0]] + r.drop_first());
                assert(r[0] == df.subrange(0, j));
                assert(seq![s[0]] + df.subrange(0, j) =~= s.subrange(0, j + 1));
                assert(r.drop_first() =~= tail);
                assert(df.subrange(j + 1, df.len() as int) =~= s.subrange(j + 2, s.len() as int));
                assert(find_char(s, sep) == Some(j + 1));
            },
        }
    }
}

proof fn lemma_split_pair_unfold(s: Seq<char>, sep: char)
    ensures
        match find_char(s, sep) {
            None => split_pair(s, sep) is None,
            Some(i) => split_pair(s, sep) == Some(
                (s.subrange(0, i), s.subrange(i + 1, s.len() as int)),
            ),
        },
    decreases s.len(),
{
    lemma_find_char_props(s, sep);
    if s.len() == 0 {
    } else if s[0] == sep {
        assert(s.subrange(0, 0) =~= Seq::<char>::empty());
        assert(s.subrange(1, s.len() as int) =~= s.drop_first());
    } else {
        let df = s.drop_first();
        lemma_split_pair_unfold(df, sep);
        match find_char(df, sep) {
            None => {},
            Some(j) => {
                assert(seq![s[0]] + df.subrange(0, j) =~= s.subrange(0, j + 1));
                assert(df.subrange(j + 1, df.len() as int) =~= s.subrange(j + 2, s.len() as int));
                assert(find_char(s, sep) == Some(j + 1));
            },
        }
    }
}

/// `c` does not occur in `s`.
pub open spec fn lacks(s: Seq<char>, c: char) -> bool {
    forall|i: int| 0 <= i < s.len() ==> (#[trigger] s[i]) != c
}

/// Law: a raw string of the form `key=value`, with no delimiter characters
/// inside either part, parses to exactly that one pair.
pub proof fn lemma_parse_single_pair(k: Seq<char>, v: Seq<char>)
    requires
        lacks(k, '&'),
        lacks(k, '='),
        lacks(v, '&'),
        lacks(v, '='),
    ensures
        spec_parse(k + seq!['='] + v) == Some(
            Map::<Seq<char>, Seq<char>>::empty().insert(k, v),
        ),
{
    let raw = k + seq!['='] + v;
    assert(raw.len() > 0);
    assert forall|j: int| 0 <= j < raw.len() implies raw[j] != '&' by {
        if j < k.len() {
            assert(raw[j] == k[j]);
        } else if j == k.len() {
            assert(raw[j] == '=');
        } else {
            assert(raw[j] == v[j - k.len() - 1]);
        }
    }
    lemma_find_char_none(raw, '&');
    lemma_split_on_unfold(raw, '&');
    assert(split_on(raw, '&') == seq![raw]);
    assert forall|j: int| 0 <= j < k.len() implies raw[j] != '=' by {
        assert(raw[j] == k[j]);
    }
    assert(raw[k.len() as int] == '=');
    lemma_find_char_at(raw, '=', k.len() as int);
    lemma_split_pair_unfold(raw, '=');
    assert(raw.subrange(0, k.len() as int) =~= k);
    assert(raw.subrange(k.len() as int + 1, raw.len() as int) =~= v);
    assert(split_pair(raw, '=') == Some((k, v)));
    assert(seq![raw].drop_first() =~= Seq::<Seq<char>>::empty());
    let m0 = Map::<Seq<char>, Seq<char>>::empty();
    assert(seq![raw][0] == raw);
    assert(parse_from(m0, seq![raw]) == parse_from(m0.insert(k, v), Seq::<Seq<char>>::empty()));
    assert(parse_from(m0.insert(k, v), Seq::<Seq<char>>::empty()) == Some(m0.insert(k, v)));
}

/// Law: a raw string of the form `k1=v1&k2=v2`, with no delimiter
/// characters inside the four parts, parses to exactly those pairs; when
/// the two keys are equal the last value wins.
pub proof fn lemma_parse_two_pairs(k1: Seq<char>, v1: Seq<char>, k2: Seq<char>, v2: Seq<char>)
    requires
        lacks(k1, '&'),
        lacks(k1, '='),
        lacks(v1, '&'),
        lacks(v1, '='),
        lacks(k2, '&'),
        lacks(k2, '='),
        lacks(v2, '&'),
        lacks(v2, '='),
    ensures
        spec_parse(k1 + seq!['='] + v1 + seq!['&'] + k2 + seq!['='] + v2) == Some(
            Map::<Seq<char>, Seq<char>>::empty().insert(k1, v1).insert(k2, v2),
        ),
        k1 == k2 ==> spec_parse(k1 + seq!['='] + v1 + seq!['&'] + k2 + seq!['='] + v2) == Some(
            Map::<Seq<char>, Seq<char>>::empty().insert(k2, v2),
        ),
{
    let first_piece = k1 + seq!['='] + v1;
    let second_piece = k2 + seq!['='] + v2;
    let raw = k1 + seq!['='] + v1 + seq!['&'] + k2 + seq!['='] + v2;
    let amp = first_piece.len() as int;
    assert(raw =~= first_piece + seq!['&'] + second_piece);
    assert(raw.len() > 0);
    assert forall|j: int| 0 <= j < amp implies raw[j] != '&' by {
        assert(raw[j] == first_piece[j]);
        if j < k1.len() {
            assert(first_piece[j] == k1[j]);
        } else if j == k1.len() {
            assert(first_piece[j] == '=');
        } else {
            assert(first_piece[j] == v1[j - k1.len() - 1]);
        }
    }
    assert(raw[amp] == '&');
    lemma_find_char_at(raw, '&', amp);
    lemma_split_on_unfold(raw, '&');
    let tail = raw.subrange(amp + 1, raw.len() as int);
    assert(raw.subrange(0, amp) =~= first_piece);
    assert(tail =~= second_piece);
    assert forall|j: int| 0 <= j < second_piece.len() implies second_piece[j] != '&' by {
        if j < k2.len() {
            assert(second_piece[j] == k2[j]);
        } else if j == k2.len() {
            assert(second_piece[j] == '=');
        } else {
            assert(second_piece[j] == v2[j - k2.len() - 1]);
        }
    }
    lemma_find_char_none(second_piece, '&');
    lemma_split_on_unfold(second_piece, '&');
    assert(split_on(raw, '&') == seq![first_piece] + seq![second_piece]);
    lemma_parse_pair_piece(k1, v1);
    lemma_parse_pair_piece(k2, v2);
    let m0 = Map::<Seq<char>, Seq<char>>::empty();
    assert((seq![first_piece] + seq![second_piece])[0] == first_piece);
    assert((seq![first_piece] + seq![second_piece]).drop_first() =~= seq![second_piece]);
    assert(seq![second_piece].drop_first() =~= Seq::<Seq<char>>::empty());
    assert(parse_from(m0, seq![first_piece] + seq![second_piece]) == parse_from(m0.insert(k1, v1), seq![second_piece]));
    assert(seq![second_piece][0] == second_piece);
    let m1 = m0.insert(k1, v1);
    assert(parse_from(m1, seq![second_piece]) == parse_from(
        m1.insert(k2, v2),
        Seq::<Seq<char>>::empty(),
    ));
    assert(parse_from(m1.insert(k2, v2), Seq::<Seq<char>>::empty()) == Some(m1.insert(k2, v2)));
    if k1 == k2 {
        assert(m0.insert(k1, v1).insert(k2, v2) =~= m0.insert(k2, v2));
    }
}

proof fn lemma_parse_pair_piece(k: Seq<char>, v: Seq<char>)
    requires
        lacks(k, '='),
    ensures
        split_pair(k + seq!['='] + v, '=') == Some((k, v)),
{
    let p = k + seq!['='] + v;
    assert forall|j: int| 0 <= j < k.len() implies p[j] != '=' by {
        assert(p[j] == k[j]);
    }
    assert(p[k.len() as int] == '=');
    lemma_find_char_at(p, '=', k.len() as int);
    lemma_split_pair_unfold(p, '=');
    assert(p.subrange(0, k.len() as int) =~= k);
    assert(p.subrange(k.len() as int + 1, p.len() as int) =~= v);
}

/// The index of the first occurrence of `c` in `s`, scanning forward.
fn find_in_str(s: &str, c: char) -> (r: Option<usize>)
    ensures
        match find_char(s@, c) {
            None => r is None,
            Some(i) => r is Some && r->Some_0 == i,
        },
{
    let n = s.unicode_len();
    let mut i: usize = 0;
    while i < n
        invariant
            i <= n,
            n == s@.len(),
            forall|j: int| 0 <= j < i ==> s@[j] != c,
        decreases n - i,
    {
        if s.get_char(i) == c {
            proof {
                lemma_find_char_at(s@, c, i as int);
            }
            return Some(i);
        }
        i = i + 1;
    }
    proof {
        lemma_find_char_none(s@, c);
    }
    None
}

/// Splits one candidate pair on its first `=` and records it in the mapping;
/// a piece without an `=` is rejected as malformed.
fn insert_pair(map: &mut FilterMap, piece: &str) -> (r: Result<(), QueryError>)
    ensures
        r is Ok <==> split_pair(piece@, '=') is Some,
        r is Ok ==> final(map)@ == old(map)@.insert(
            split_pair(piece@, '=')->Some_0.0,
            split_pair(piece@, '=')->Some_0.1,
        ),
        r is Err ==> final(map)@ == old(map)@ && r->Err_0 == QueryError::MalformedPair,
{
    proof {
        lemma_split_pair_unfold(piece@, '=');
        lemma_find_char_props(piece@, '=');
    }
    match find_in_str(piece, '=') {
        None => Err(QueryError::MalformedPair),
        Some(i) => {
            let k = piece.substring_char(0, i).to_owned();
            let plen = piece.unicode_len();
            let v = piece.substring_char(i + 1, plen).to_owned();
            map.insert(k, v);
            Ok(())
        },
    }
}

/// Parses a raw query string into a filter mapping: pieces between `&` are
/// `key=value` pairs, the last value under a key wins, the empty string
/// yields the empty mapping, and a piece without an `=` is a malformed-pair
/// error.
pub fn parse(raw: &str) -> (r: Result<FilterMap, QueryError>)
    ensures
        r is Ok <==> spec_parse(raw@) is Some,
        r is Ok ==> Some(r->Ok_0@) == spec_parse(raw@),
        r is Err ==> r->Err_0 == QueryError::MalformedPair,
{
    if raw.unicode_len() == 0 {
        return Ok(FilterMap::new());
    }
    let mut map = FilterMap::new();
    let mut rest: &str = raw;
    loop
        invariant
            raw@.len() != 0,
            parse_from(Map::<Seq<char>, Seq<char>>::empty(), split_on(raw@, '&')) == parse_from(
                map@,
                split_on(rest@, '&'),
            ),
        decreases rest@.len(),
    {
        proof {
            lemma_split_on_unfold(rest@, '&');
            lemma_find_char_props(rest@, '&');
        }
        let ghost entry_map = map@;
        match find_in_str(rest, '&') {
            Some(i) => {
                let piece = rest.substring_char(0, i);
                let rlen = rest.unicode_len();
                let next = rest.substring_char(i + 1, rlen);
                proof {
                    let ghost ps = split_on(rest@, '&');
                    assert(ps == seq![piece@] + split_on(next@, '&'));
                    assert(ps[0] == piece@);
                    assert(ps.drop_first() =~= split_on(next@, '&'));
                }
                match insert_pair(&mut map, piece) {
                    Ok(_) => {
                        proof {
                            let kv = split_pair(piece@, '=')->Some_0;
                            assert(parse_from(entry_map, split_on(rest@, '&')) == parse_from(
                                entry_map.insert(kv.0, kv.1),
                                split_on(next@, '&'),
                            ));
                        }
                    },
                    Err(e) => {
                        proof {
                            assert(parse_from(entry_map, split_on(rest@, '&')) is None);
                        }
                        return Err(e);
                    },
                }
                rest = next;
            },
            None => {
                proof {
                    let ghost ps = split_on(rest@, '&');
                    assert(ps == seq![rest@]);
                    assert(ps[0] == rest@);
                    assert(ps.drop_first() =~= Seq::<Seq<char>>::empty());
                }
                match insert_pair(&mut map, rest) {
                    Ok(_) => {
                        proof {
                            let kv = split_pair(rest@, '=')->Some_0;
                            assert(parse_from(entry_map, split_on(rest@, '&')) == parse_from(
                                entry_map.insert(kv.0, kv.1),
                                Seq::<Seq<char>>::empty(),
                            ));
                            assert(spec_parse(raw@) == Some(map@));
                        }
                    },
                    Err(e) => {
                        proof {
                            assert(parse_from(entry_map, split_on(rest@, '&')) is None);
                        }
                        return Err(e);
                    },
                }
                return Ok(map);
            },
        }
    }
}

} // verus!
