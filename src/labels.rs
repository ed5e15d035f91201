//! Label sets of time series: string keys in ascending order, each once,
//! and the order-independent default identifier derived from them.

use crate::text::{chars_of, push_str, string_of};
use vstd::prelude::*;

verus! {

/// `a` sorts before `b`: lexicographic by code point, a proper prefix first.
pub open spec fn key_lt(a: Seq<char>, b: Seq<char>) -> bool
    decreases a.len(),
{
    if a.len() == 0 {
        b.len() > 0
    } else if b.len() == 0 {
        false
    } else if a[0] != b[0] {
        a[0] < b[0]
    } else {
        key_lt(a.drop_first(), b.drop_first())
    }
}

pub proof fn lemma_key_lt_irreflexive(a: Seq<char>)
    ensures
        !key_lt(a, a),
    decreases a.len(),
{
    if a.len() > 0 {
        lemma_key_lt_irreflexive(a.drop_first());
    }
}

pub proof fn lemma_key_lt_transitive(a: Seq<char>, b: Seq<char>, c: Seq<char>)
    requires
        key_lt(a, b),
        key_lt(b, c),
    ensures
        key_lt(a, c),
    decreases a.len(),
{
    if a.len() > 0 && b.len() > 0 && c.len() > 0 {
        if a[0] == b[0] && b[0] == c[0] {
            lemma_key_lt_transitive(a.drop_first(), b.drop_first(), c.drop_first());
        }
    }
}

pub proof fn lemma_key_lt_total(a: Seq<char>, b: Seq<char>)
    requires
        a != b,
    ensures
        key_lt(a, b) || key_lt(b, a),
    decreases a.len(),
{
    if a.len() > 0 && b.len() > 0 {
        if a[0] == b[0] {
            if a.drop_first() == b.drop_first() {
                assert(a =~= seq![a[0]] + a.drop_first());
                assert(b =~= seq![b[0]] + b.drop_first());
            }
            lemma_key_lt_total(a.drop_first(), b.drop_first());
        }
    } else if a.len() == 0 && b.len() == 0 {
        assert(a =~= b);
    }
}

pub proof fn lemma_key_lt_asymmetric(a: Seq<char>, b: Seq<char>)
    requires
        key_lt(a, b),
    ensures
        !key_lt(b, a),
{
    if key_lt(b, a) {
        lemma_key_lt_transitive(a, b, a);
        lemma_key_lt_irreflexive(a);
    }
}

/// Pairs whose keys strictly ascend.
pub open spec fn keys_ascending(s: Seq<(Seq<char>, Seq<char>)>) -> bool {
    forall|i: int, j: int| 0 <= i < j < s.len() ==> key_lt(#[trigger] s[i].0, #[trigger] s[j].0)
}

/// The key-to-value mapping that a sequence of pairs holds, a later pair
/// overriding an earlier one with the same key.
pub open spec fn pairs_map(s: Seq<(Seq<char>, Seq<char>)>) -> Map<Seq<char>, Seq<char>>
    decreases s.len(),
{
    if s.len() == 0 {
        Map::empty()
    } else {
        pairs_map(s.drop_last()).insert(s.last().0, s.last().1)
    }
}

/// The keys of the map are those of the pairs.
pub proof fn lemma_pairs_map_domain(s: Seq<(Seq<char>, Seq<char>)>, k: Seq<char>)
    ensures
        pairs_map(s).contains_key(k) <==> exists|i: int| 0 <= i < s.len() && s[i].0 == k,
    decreases s.len(),
{
    if s.len() > 0 {
        let p = s.drop_last();
        lemma_pairs_map_domain(p, k);
        if exists|i: int| 0 <= i < p.len() && p[i].0 == k {
            let i = choose|i: int| 0 <= i < p.len() && p[i].0 == k;
            assert(s[i].0 == k);
        }
        if exists|i: int| 0 <= i < s.len() && s[i].0 == k {
            let i = choose|i: int| 0 <= i < s.len() && s[i].0 == k;
            if i < p.len() {
                assert(p[i].0 == k);
            }
        }
    }
}

/// Each key followed by its value, in the order of the pairs.
pub open spec fn concat_pairs(s: Seq<(Seq<char>, Seq<char>)>) -> Seq<char>
    decreases s.len(),
{
    if s.len() == 0 {
        seq![]
    } else {
        concat_pairs(s.drop_last()) + s.last().0 + s.last().1
    }
}

/// The MD5 digest of the UTF-8 bytes of a text, as lower-case hex digits.
pub uninterp spec fn md5_hex_of(s: Seq<char>) -> Seq<char>;

/// A lower-case hex digit.
pub open spec fn is_lower_hex(c: char) -> bool {
    ('0' <= c && c <= '9') || ('a' <= c && c <= 'f')
}

/// Relies on `md5::Md5::digest` (RustCrypto `md-5`) formatted with `{:x}`:
/// the lower-case hex digest of the bytes of `s`, a function of `s` alone;
/// generic-array's `LowerHex` writes two hex digits for each of the 16
/// digest bytes.
#[verifier::external_body]
fn md5_hex(s: &str) -> (r: String)
    ensures
        r@ == md5_hex_of(s@),
        r@.len() == 32,
        forall|i: int| 0 <= i < r@.len() ==> is_lower_hex(#[trigger] r@[i]),
{
    format!("{:x}", <md5::Md5 as md5::Digest>::digest(s.as_bytes()))
}

/// The default identifier of a series: the mapping name, a slash and the
/// first six characters of the digest.
pub open spec fn label_text(name: Seq<char>, digest: Seq<char>) -> Seq<char> {
    name + seq!['/'] + digest.take(if digest.len() < 6 {
        digest.len() as int
    } else {
        6
    })
}

/// The labels of a time series, keys in ascending order and each once.
#[derive(Clone, Debug, PartialEq, Eq)]
pub struct LabelSet {
    pairs: Vec<(String, String)>,
}

impl View for LabelSet {
    type V = Seq<(Seq<char>, Seq<char>)>;

    closed spec fn view(&self) -> Seq<(Seq<char>, Seq<char>)> {
        self.pairs@.map_values(|p: (String, String)| (p.0@, p.1@))
    }
}

impl LabelSet {
    pub open spec fn wf(&self) -> bool {
        keys_ascending(self@)
    }

    /// The key-to-value mapping.
    pub open spec fn as_map(&self) -> Map<Seq<char>, Seq<char>> {
        pairs_map(self@)
    }

    /// The text whose digest names the series: keys and values in key order.
    pub open spec fn digest_input(&self) -> Seq<char> {
        concat_pairs(self@)
    }

    /// The default identifier under a mapping name.
    pub open spec fn default_label_text(&self, name: Seq<char>) -> Seq<char> {
        label_text(name, md5_hex_of(self.digest_input()))
    }

    /// The empty label set.
    pub fn new() -> (r: LabelSet)
        ensures
            r.wf(),
            r@ == Seq::<(Seq<char>, Seq<char>)>::empty(),
    {
        let r = LabelSet { pairs: Vec::new() };
        assert(r@ =~= Seq::<(Seq<char>, Seq<char>)>::empty());
        r
    }

    /// The number of labels.
    pub fn len(&self) -> (r: usize)
        ensures
            r == self@.len(),
    {
        self.pairs.len()
    }

    /// The `i`-th pair in key order.
    pub fn pair(&self, i: usize) -> (r: &(String, String))
        requires
            i < self@.len(),
        ensures
            (r.0@, r.1@) == self@[i as int],
    {
        &self.pairs[i]
    }

    /// Sets `key` to `value`, replacing an earlier value of `key`.
    pub fn insert(&mut self, key: String, value: String)
        requires
            old(self).wf(),
        ensures
            final(self).wf(),
            final(self).as_map() == old(self).as_map().insert(key@, value@),
    {
        let ghost before = self@;
        assert(before == old(self)@);
        let kc = chars_of(key.as_str());
        let mut i: usize = 0;
        while i < self.pairs.len()
            invariant
                i <= self@.len(),
                self@ == before,
                before == old(self)@,
                keys_ascending(before),
                kc@ == key@,
                forall|j: int| 0 <= j < i ==> key_lt(#[trigger] before[j].0, key@),
            decreases self@.len() - i,
        {
            let kj = chars_of(self.pairs[i].0.as_str());
            assert(kj@ == before[i as int].0);
            if chars_eq(&kj, &kc) {
                self.pairs.set(i, (key, value));
                proof {
                    assert(before[i as int].0 == key@);
                    assert(self@ =~= before.update(i as int, (key@, value@)));
                    assert forall|a: int, b: int| 0 <= a < b < self@.len() implies key_lt(
                        #[trigger] self@[a].0,
                        #[trigger] self@[b].0,
                    ) by {
                        assert(before[a].0 == self@[a].0 && before[b].0 == self@[b].0);
                    }
                    lemma_map_update(before, i as int, key@, value@);
                    assert(self.as_map() == pairs_map(before).insert(key@, value@));
                    assert(pairs_map(before) == old(self).as_map());
                }
                return;
            }
            if !chars_less(&kj, &kc) {
                proof {
                    lemma_key_lt_total(kj@, kc@);
                }
                self.pairs.insert(i, (key, value));
                proof {
                    assert(self@ =~= before.insert(i as int, (key@, value@)));
                    assert forall|a: int, b: int| 0 <= a < b < self@.len() implies key_lt(
                        #[trigger] self@[a].0,
                        #[trigger] self@[b].0,
                    ) by {
                        if b == i {
                        } else if a == i {
                            if b - 1 > i {
                                lemma_key_lt_transitive(key@, before[i as int].0, before[b - 1].0);
                            }
                        }
                    }
                    lemma_map_insert(before, i as int, key@, value@);
                    assert(self.as_map() == pairs_map(before).insert(key@, value@));
                    assert(pairs_map(before) == old(self).as_map());
                }
                return;
            }
            i = i + 1;
        }
        self.pairs.push((key, value));
        proof {
            assert(self@ =~= before.push((key@, value@)));
            lemma_map_insert(before, before.len() as int, key@, value@);
            assert(before.insert(before.len() as int, (key@, value@)) =~= before.push((key@, value@)));
        }
    }

    /// The value of `key`, if the set has it.
    pub fn get(&self, key: &str) -> (r: Option<&String>)
        requires
            self.wf(),
        ensures
            match r {
                Some(v) => self.as_map().contains_key(key@) && self.as_map()[key@] == v@,
                None => !self.as_map().contains_key(key@),
            },
    {
        let kc = chars_of(key);
        let mut i: usize = 0;
        while i < self.pairs.len()
            invariant
                i <= self@.len(),
                self.wf(),
                kc@ == key@,
                forall|j: int| 0 <= j < i ==> self@[j].0 != key@,
            decreases self@.len() - i,
        {
            let kj = chars_of(self.pairs[i].0.as_str());
            if chars_eq(&kj, &kc) {
                proof {
                    lemma_map_at(self@, i as int);
                }
                return Some(&self.pairs[i].1);
            }
            i = i + 1;
        }
        proof {
            lemma_pairs_map_domain(self@, key@);
        }
        None
    }

    /// Keys and values, in key order, joined into one text.
    pub fn digest_input_string(&self) -> (r: String)
        ensures
            r@ == self.digest_input(),
    {
        let mut out: Vec<char> = Vec::new();
        let mut i: usize = 0;
        while i < self.pairs.len()
            invariant
                i <= self@.len(),
                out@ == concat_pairs(self@.take(i as int)),
            decreases self@.len() - i,
        {
            push_str(&mut out, self.pairs[i].0.as_str());
            push_str(&mut out, self.pairs[i].1.as_str());
            proof {
                assert(self@.take(i + 1).drop_last() =~= self@.take(i as int));
            }
            i = i + 1;
        }
        assert(self@.take(i as int) =~= self@);
        string_of(&out)
    }
}

/// In a sequence with ascending keys, position `i` holds the value of its
/// key.
proof fn lemma_map_at(s: Seq<(Seq<char>, Seq<char>)>, i: int)
    requires
        keys_ascending(s),
        0 <= i < s.len(),
    ensures
        pairs_map(s).contains_key(s[i].0),
        pairs_map(s)[s[i].0] == s[i].1,
    decreases s.len(),
{
    lemma_pairs_map_domain(s, s[i].0);
    let p = s.drop_last();
    if i < s.len() - 1 {
        assert(keys_ascending(p)) by {
            assert forall|a: int, b: int| 0 <= a < b < p.len() implies key_lt(
                #[trigger] p[a].0,
                #[trigger] p[b].0,
            ) by {
                assert(p[a] == s[a] && p[b] == s[b]);
            }
        }
        lemma_map_at(p, i);
        assert(key_lt(s[i].0, s[s.len() - 1].0));
        if s[i].0 == s.last().0 {
            lemma_key_lt_irreflexive(s[i].0);
        }
        assert(p[i] == s[i]);
    }
}

/// Replacing the value at a position updates the map at its key.
proof fn lemma_map_update(s: Seq<(Seq<char>, Seq<char>)>, i: int, k: Seq<char>, v: Seq<char>)
    requires
        keys_ascending(s),
        0 <= i < s.len(),
        s[i].0 == k,
    ensures
        pairs_map(s.update(i, (k, v))) == pairs_map(s).insert(k, v),
{
    let t = s.update(i, (k, v));
    assert(keys_ascending(t)) by {
        assert forall|a: int, b: int| 0 <= a < b < t.len() implies key_lt(
            #[trigger] t[a].0,
            #[trigger] t[b].0,
        ) by {
            assert(t[a].0 == s[a].0 && t[b].0 == s[b].0);
        }
    }
    assert forall|key: Seq<char>| #[trigger] pairs_map(t).contains_key(key) <==> pairs_map(
        s,
    ).insert(k, v).contains_key(key) by {
        lemma_pairs_map_domain(t, key);
        lemma_pairs_map_domain(s, key);
        if exists|j: int| 0 <= j < t.len() && t[j].0 == key {
            let j = choose|i: int| 0 <= i < t.len() && t[i].0 == key;
            assert(s[j].0 == key);
        }
        if exists|j: int| 0 <= j < s.len() && s[j].0 == key {
            let j = choose|i: int| 0 <= i < s.len() && s[i].0 == key;
            assert(t[j].0 == key);
        }
    }
    assert forall|key: Seq<char>| #[trigger] pairs_map(t).contains_key(key) implies pairs_map(t)[key]
        == pairs_map(s).insert(k, v)[key] by {
        lemma_pairs_map_domain(t, key);
        let j = choose|i: int| 0 <= i < t.len() && t[i].0 == key;
        lemma_map_at(t, j);
        if j != i {
            lemma_map_at(s, j);
            assert(t[j] == s[j]);
            if j < i {
                assert(key_lt(s[j].0, s[i].0));
            } else {
                assert(key_lt(s[i].0, s[j].0));
            }
            if key == k {
                lemma_key_lt_irreflexive(k);
            }
        }
    }
    assert(pairs_map(t) =~= pairs_map(s).insert(k, v));
}

/// Inserting a pair at its ordered position adds its key to the map.
proof fn lemma_map_insert(s: Seq<(Seq<char>, Seq<char>)>, i: int, k: Seq<char>, v: Seq<char>)
    requires
        keys_ascending(s),
        0 <= i <= s.len(),
        keys_ascending(s.insert(i, (k, v))),
    ensures
        pairs_map(s.insert(i, (k, v))) == pairs_map(s).insert(k, v),
{
    let t = s.insert(i, (k, v));
    assert forall|key: Seq<char>| #[trigger] pairs_map(t).contains_key(key) <==> pairs_map(
        s,
    ).insert(k, v).contains_key(key) by {
        lemma_pairs_map_domain(t, key);
        lemma_pairs_map_domain(s, key);
        if exists|j: int| 0 <= j < t.len() && t[j].0 == key {
            let j = choose|i: int| 0 <= i < t.len() && t[i].0 == key;
            if j < i {
                assert(s[j].0 == key);
            } else if j > i {
                assert(s[j - 1].0 == key);
            }
        }
        if exists|j: int| 0 <= j < s.len() && s[j].0 == key {
            let j = choose|i: int| 0 <= i < s.len() && s[i].0 == key;
            if j < i {
                assert(t[j].0 == key);
            } else {
                assert(t[j + 1].0 == key);
            }
        }
        if key == k {
            assert(t[i].0 == key);
        }
    }
    assert forall|key: Seq<char>| #[trigger] pairs_map(t).contains_key(key) implies pairs_map(t)[key]
        == pairs_map(s).insert(k, v)[key] by {
        lemma_pairs_map_domain(t, key);
        let j = choose|i: int| 0 <= i < t.len() && t[i].0 == key;
        lemma_map_at(t, j);
        if j < i {
            lemma_map_at(s, j);
            assert(t[j] == s[j]);
            if key == k {
                assert(key_lt(t[j].0, t[i].0));
                lemma_key_lt_irreflexive(k);
            }
        } else if j > i {
            lemma_map_at(s, j - 1);
            assert(t[j] == s[j - 1]);
            if key == k {
                assert(key_lt(t[i].0, t[j].0));
                lemma_key_lt_irreflexive(k);
            }
        }
    }
    assert(pairs_map(t) =~= pairs_map(s).insert(k, v));
}

/// Two sequences with ascending keys that hold the same map are equal.
pub proof fn lemma_ascending_unique(
    s: Seq<(Seq<char>, Seq<char>)>,
    t: Seq<(Seq<char>, Seq<char>)>,
)
    requires
        keys_ascending(s),
        keys_ascending(t),
        pairs_map(s) == pairs_map(t),
    ensures
        s == t,
    decreases s.len(),
{
    if s.len() == 0 {
        if t.len() > 0 {
            lemma_pairs_map_domain(t, t[0].0);
            lemma_pairs_map_domain(s, t[0].0);
            assert(pairs_map(t).contains_key(t[0].0));
            assert(!pairs_map(s).contains_key(t[0].0));
        }
        assert(s =~= t);
    } else {
        lemma_pairs_map_domain(s, s[0].0);
        lemma_pairs_map_domain(t, s[0].0);
        lemma_pairs_map_domain(s, t[0].0);
        lemma_pairs_map_domain(t, t[0].0);
        assert(pairs_map(s).contains_key(s[0].0));
        if t.len() == 0 {
            assert(!pairs_map(t).contains_key(s[0].0));
        }
        // both heads hold the least key
        let a = s[0].0;
        let b = t[0].0;
        assert(pairs_map(t).contains_key(a));
        assert(pairs_map(s).contains_key(b));
        if a != b {
            let ja = choose|i: int| 0 <= i < t.len() && t[i].0 == a;
            let jb = choose|i: int| 0 <= i < s.len() && s[i].0 == b;
            assert(ja > 0);
            assert(jb > 0);
            assert(key_lt(b, a));
            assert(key_lt(a, b));
            lemma_key_lt_asymmetric(a, b);
        }
        lemma_map_at(s, 0);
        lemma_map_at(t, 0);
        let s1 = s.drop_first();
        let t1 = t.drop_first();
        assert(keys_ascending(s1)) by {
            assert forall|i: int, j: int| 0 <= i < j < s1.len() implies key_lt(
                #[trigger] s1[i].0,
                #[trigger] s1[j].0,
            ) by {
                assert(s1[i] == s[i + 1] && s1[j] == s[j + 1]);
            }
        }
        assert(keys_ascending(t1)) by {
            assert forall|i: int, j: int| 0 <= i < j < t1.len() implies key_lt(
                #[trigger] t1[i].0,
                #[trigger] t1[j].0,
            ) by {
                assert(t1[i] == t[i + 1] && t1[j] == t[j + 1]);
            }
        }
        lemma_map_drop_first(s);
        lemma_map_drop_first(t);
        lemma_ascending_unique(s1, t1);
        assert(s =~= seq![s[0]] + s1);
        assert(t =~= seq![t[0]] + t1);
    }
}

/// Dropping the least pair removes its key from the map.
proof fn lemma_map_drop_first(s: Seq<(Seq<char>, Seq<char>)>)
    requires
        keys_ascending(s),
        s.len() > 0,
    ensures
        pairs_map(s.drop_first()) == pairs_map(s).remove(s[0].0),
{
    let t = s.drop_first();
    assert(keys_ascending(t)) by {
        assert forall|i: int, j: int| 0 <= i < j < t.len() implies key_lt(
            #[trigger] t[i].0,
            #[trigger] t[j].0,
        ) by {
            assert(t[i] == s[i + 1] && t[j] == s[j + 1]);
        }
    }
    assert forall|key: Seq<char>| #[trigger] pairs_map(t).contains_key(key) <==> pairs_map(
        s,
    ).remove(s[0].0).contains_key(key) by {
        lemma_pairs_map_domain(t, key);
        lemma_pairs_map_domain(s, key);
        if exists|j: int| 0 <= j < t.len() && t[j].0 == key {
            let j = choose|i: int| 0 <= i < t.len() && t[i].0 == key;
            assert(s[j + 1].0 == key);
            assert(key_lt(s[0].0, s[j + 1].0));
            lemma_key_lt_irreflexive(key);
        }
        if pairs_map(s).remove(s[0].0).contains_key(key) {
            let j = choose|i: int| 0 <= i < s.len() && s[i].0 == key;
            assert(j != 0);
            assert(t[j - 1].0 == key);
        }
    }
    assert forall|key: Seq<char>| #[trigger] pairs_map(t).contains_key(key) implies pairs_map(t)[key]
        == pairs_map(s).remove(s[0].0)[key] by {
        lemma_pairs_map_domain(t, key);
        let j = choose|i: int| 0 <= i < t.len() && t[i].0 == key;
        lemma_map_at(t, j);
        lemma_map_at(s, j + 1);
        assert(t[j] == s[j + 1]);
    }
    assert(pairs_map(t) =~= pairs_map(s).remove(s[0].0));
}

/// Character sequences are equal.
fn chars_eq(a: &Vec<char>, b: &Vec<char>) -> (r: bool)
    ensures
        r == (a@ == b@),
{
    if a.len() != b.len() {
        return false;
    }
    let mut i: usize = 0;
    while i < a.len()
        invariant
            i <= a@.len() == b@.len(),
            forall|j: int| 0 <= j < i ==> a@[j] == b@[j],
        decreases a@.len() - i,
    {
        if a[i] != b[i] {
            return false;
        }
        i = i + 1;
    }
    assert(a@ =~= b@);
    true
}

/// `a` sorts before `b`.
fn chars_less(a: &Vec<char>, b: &Vec<char>) -> (r: bool)
    ensures
        r == key_lt(a@, b@),
{
    let mut i: usize = 0;
    assert(a@.skip(0) =~= a@);
    assert(b@.skip(0) =~= b@);
    while i < a.len() && i < b.len()
        invariant
            i <= a@.len(),
            i <= b@.len(),
            key_lt(a@, b@) == key_lt(a@.skip(i as int), b@.skip(i as int)),
        decreases a@.len() - i,
    {
        let x = a[i];
        let y = b[i];
        proof {
            let sa = a@.skip(i as int);
            let sb = b@.skip(i as int);
            assert(sa[0] == x && sb[0] == y);
            assert(sa.drop_first() =~= a@.skip(i + 1));
            assert(sb.drop_first() =~= b@.skip(i + 1));
        }
        if x != y {
            return x < y;
        }
        i = i + 1;
    }
    i < b.len()
}

/// The default performance identifier from an already computed digest:
/// the mapping name, `/` and the first six digest characters.
pub fn label_from_digest(name: &str, digest: &str) -> (r: String)
    ensures
        r@ == label_text(name@, digest@),
{
    let mut out = chars_of(name);
    out.push('/');
    let d = chars_of(digest);
    let n: usize = if d.len() < 6 {
        d.len()
    } else {
        6
    };
    let mut i: usize = 0;
    let ghost start = out@;
    while i < n
        invariant
            i <= n <= d@.len(),
            n == (if d@.len() < 6 {
                d@.len() as int
            } else {
                6
            }),
            out@ == start + d@.take(i as int),
        decreases n - i,
    {
        out.push(d[i]);
        i = i + 1;
        assert(out@ =~= start + d@.take(i as int));
    }
    assert(out@ =~= label_text(name@, digest@));
    string_of(&out)
}

/// The default performance identifier of a series under a mapping name.
pub fn default_label(name: &str, labels: &LabelSet) -> (r: String)
    ensures
        r@ == labels.default_label_text(name@),
        r@.len() >= 1,
        !name@.contains('\n') ==> !r@.contains('\n'),
{
    let input = labels.digest_input_string();
    let digest = md5_hex(input.as_str());
    let r = label_from_digest(name, digest.as_str());
    proof {
        let d = digest@;
        assert(r@.len() >= name@.len() + 1);
        if !name@.contains('\n') && r@.contains('\n') {
            let i = choose|i: int| 0 <= i < r@.len() && r@[i] == '\n';
            if i < name@.len() {
                assert(name@[i] == r@[i]);
            } else if i == name@.len() {
                assert(r@[i] == '/');
            } else {
                assert(r@[i] == d[i - name@.len() - 1]);
                assert(is_lower_hex(d[i - name@.len() - 1]));
            }
        }
    }
    r
}

/// The default identifier depends on the labels alone, not on the order in
/// which they were gathered: label sets holding the same key-to-value
/// mapping get the same identifier.
pub proof fn lemma_default_label_order_independent(name: Seq<char>, a: LabelSet, b: LabelSet)
    requires
        a.wf(),
        b.wf(),
        a.as_map() == b.as_map(),
    ensures
        a.default_label_text(name) == b.default_label_text(name),
{
    lemma_ascending_unique(a@, b@);
}

} // verus!
