use vstd::prelude::*;
use vstd::string::StrSliceExecFns;

verus! {

/// Index of the first occurrence of `c` in `s`, or `s.len()` when `c` does
/// not occur.
pub open spec fn char_index_of(s: Seq<char>, c: char) -> int
    decreases s.len(),
{
    if s.len() == 0 {
        0
    } else if s[0] == c {
        0
    } else {
        1 + char_index_of(s.drop_first(), c)
    }
}

/// `char_index_of` is characterized by: no occurrence before it, and an
/// occurrence at it unless it is the length.
pub proof fn lemma_char_index_first(s: Seq<char>, c: char, i: int)
    requires
        0 <= i <= s.len(),
        forall|k: int| 0 <= k < i ==> s[k] != c,
        i < s.len() ==> s[i] == c,
    ensures
        char_index_of(s, c) == i,
    decreases s.len(),
{
    if s.len() == 0 {
    } else if s[0] == c {
        assert(i == 0);
    } else {
        assert(s[0] != c);
        assert(i >= 1);
        assert(forall|k: int| 0 <= k < i - 1 ==> s.drop_first()[k] == s[k + 1]);
        lemma_char_index_first(s.drop_first(), c, i - 1);
    }
}

/// The key/value pair read from one `&`-delimited piece of a query string:
/// the key is everything before the first `=`; the value is everything
/// between the first and the second `=` (or the end); a piece without `=`
/// gets the value `true`.
pub open spec fn spec_pair_of(piece: Seq<char>) -> (Seq<char>, Seq<char>) {
    let e1 = char_index_of(piece, '=');
    let key = piece.subrange(0, e1);
    if e1 == piece.len() {
        (key, "true"@)
    } else {
        let rest = piece.subrange(e1 + 1, piece.len() as int);
        (key, rest.subrange(0, char_index_of(rest, '=')))
    }
}

/// Index of the first pair in `m` whose key is `k`, or `m.len()` when no
/// pair has that key.
pub open spec fn key_index_of(m: Seq<(Seq<char>, Seq<char>)>, k: Seq<char>) -> int
    decreases m.len(),
{
    if m.len() == 0 {
        0
    } else if m[0].0 == k {
        0
    } else {
        1 + key_index_of(m.drop_first(), k)
    }
}

pub proof fn lemma_key_index_first(m: Seq<(Seq<char>, Seq<char>)>, k: Seq<char>, i: int)
    requires
        0 <= i <= m.len(),
        forall|j: int| 0 <= j < i ==> m[j].0 != k,
        i < m.len() ==> m[i].0 == k,
    ensures
        key_index_of(m, k) == i,
    decreases m.len(),
{
    if m.len() == 0 {
    } else if m[0].0 == k {
        assert(i == 0);
    } else {
        assert(forall|j: int| 0 <= j < i - 1 ==> m.drop_first()[j] == m[j + 1]);
        lemma_key_index_first(m.drop_first(), k, i - 1);
    }
}

/// Inserting a pair: a later occurrence of a key wins over an earlier one,
/// replacing it in place; a new key goes to the end.
pub open spec fn spec_insert_pair(
    m: Seq<(Seq<char>, Seq<char>)>,
    k: Seq<char>,
    v: Seq<char>,
) -> Seq<(Seq<char>, Seq<char>)> {
    let i = key_index_of(m, k);
    if i == m.len() {
        m.push((k, v))
    } else {
        m.update(i, (k, v))
    }
}

/// The mapping after reading a whole query string into `m`: pieces split on
/// `&`, each inserted in order.
pub open spec fn spec_parse_args(
    m: Seq<(Seq<char>, Seq<char>)>,
    s: Seq<char>,
) -> Seq<(Seq<char>, Seq<char>)>
    decreases s.len(),
{
    let a = char_index_of(s, '&');
    let p = spec_pair_of(s.subrange(0, a));
    let m1 = spec_insert_pair(m, p.0, p.1);
    if a < 0 || a >= s.len() {
        m1
    } else {
        spec_parse_args(m1, s.subrange(a + 1, s.len() as int))
    }
}

/// The query arguments of one request: string keys and values, in first-seen
/// order, with at most one pair per key.
pub struct ArgMap {
    pairs: Vec<(String, String)>,
}

impl View for ArgMap {
    type V = Seq<(Seq<char>, Seq<char>)>;

    closed spec fn view(&self) -> Seq<(Seq<char>, Seq<char>)> {
        self.pairs@.map_values(|p: (String, String)| (p.0@, p.1@))
    }
}

impl ArgMap {
    pub fn new() -> (r: ArgMap)
        ensures
            r@ == Seq::<(Seq<char>, Seq<char>)>::empty(),
    {
        let r = ArgMap { pairs: Vec::new() };
        proof {
            assert(r@ =~= Seq::<(Seq<char>, Seq<char>)>::empty());
        }
        r
    }

    pub fn len(&self) -> (r: usize)
        ensures
            r == self@.len(),
    {
        self.pairs.len()
    }

    pub fn key_at(&self, i: usize) -> (r: &String)
        requires
            i < self@.len(),
        ensures
            r@ == self@[i as int].0,
    {
        &self.pairs[i].0
    }

    pub fn val_at(&self, i: usize) -> (r: &String)
        requires
            i < self@.len(),
        ensures
            r@ == self@[i as int].1,
    {
        &self.pairs[i].1
    }

    /// Adds one pair; a pair with the same key already present is replaced
    /// in place, so the latest value for a key always wins.
    pub fn insert(&mut self, key: String, value: String)
        ensures
            final(self)@ == spec_insert_pair(old(self)@, key@, value@),
    {
        let n = self.pairs.len();
        let mut i: usize = 0;
        while i < n
            invariant
                n == self@.len(),
                i <= n,
                forall|j: int| 0 <= j < i ==> self@[j].0 != key@,
                *self == *old(self),
            decreases n - i,
        {
            if self.pairs[i].0 == key {
                proof {
                    lemma_key_index_first(self@, key@, i as int);
                }
                self.pairs[i] = (key, value);
                proof {
                    assert(final(self)@ =~= old(self)@.update(i as int, (key@, value@)));
                }
                return ;
            }
            i += 1;
        }
        proof {
            lemma_key_index_first(self@, key@, n as int);
        }
        self.pairs.push((key, value));
        proof {
            assert(final(self)@ =~= old(self)@.push((key@, value@)));
        }
    }
}

/// First index at or after `from` where `c` occurs in `s`, or `s@.len()`.
pub fn find_char(s: &str, c: char, from: usize) -> (idx: usize)
    requires
        from <= s@.len(),
    ensures
        from <= idx <= s@.len(),
        forall|k: int| from <= k < idx ==> s@[k] != c,
        idx < s@.len() ==> s@[idx as int] == c,
{
    let n = s.unicode_len();
    let mut i: usize = from;
    while i < n
        invariant
            from <= i <= n,
            n == s@.len(),
            forall|k: int| from <= k < i ==> s@[k] != c,
        decreases n - i,
    {
        if s.get_char(i) == c {
            return i;
        }
        i += 1;
    }
    n
}

/// Reads a query string (`k1=v1&k2=v2...`) into `hash`, as `spec_parse_args`
/// says: pieces split on `&`, the key before the first `=`, the value after
/// it, `true` for a key alone, the last occurrence of a key winning.
pub fn handle_get_args(hash: &mut ArgMap, args: &String)
    ensures
        final(hash)@ == spec_parse_args(old(hash)@, args@),
{
    let s = args.as_str();
    let n = s.unicode_len();
    proof {
        assert(s@.subrange(0, n as int) =~= args@);
    }
    let mut start: usize = 0;
    loop
        invariant
            start <= n,
            n == s@.len(),
            spec_parse_args(old(hash)@, args@) == spec_parse_args(
                hash@,
                s@.subrange(start as int, n as int),
            ),
        decreases n - start,
    {
        let ghost t = s@.subrange(start as int, n as int);
        let amp = find_char(s, '&', start);
        proof {
            assert(forall|k: int| 0 <= k < amp - start ==> t[k] == s@[start + k]);
            lemma_char_index_first(t, '&', amp - start);
        }
        let piece = s.substring_char(start, amp);
        proof {
            assert(piece@ =~= t.subrange(0, amp - start));
        }
        let (key, value) = split_pair(piece);
        proof {
            assert(spec_pair_of(t.subrange(0, char_index_of(t, '&'))) == (key@, value@));
        }
        hash.insert(key, value);
        if amp == n {
            proof {
                assert(char_index_of(t, '&') == t.len());
            }
            return ;
        }
        proof {
            assert(s@.subrange(amp + 1, n as int) =~= t.subrange(
                amp - start + 1,
                t.len() as int,
            ));
        }
        start = amp + 1;
    }
}

/// Splits one `&`-delimited piece into its key and value, as `spec_pair_of`
/// says.
fn split_pair(piece: &str) -> (r: (String, String))
    ensures
        (r.0@, r.1@) == spec_pair_of(piece@),
{
    let n = piece.unicode_len();
    let e1 = find_char(piece, '=', 0);
    proof {
        lemma_char_index_first(piece@, '=', e1 as int);
    }
    let key = piece.substring_char(0, e1).to_owned();
    if e1 == n {
        let value = "true".to_owned();
        (key, value)
    } else {
        let rest = piece.substring_char(e1 + 1, n);
        let e2 = find_char(rest, '=', 0);
        proof {
            lemma_char_index_first(rest@, '=', e2 as int);
        }
        let value = rest.substring_char(0, e2).to_owned();
        (key, value)
    }
}

} // verus!
