//! A map from text keys to values that keeps its entries in ascending key
//! order, with the order and overwrite behaviour of `BTreeMap<String, T>`:
//! keys compare as byte strings (UTF-8), each key occurs once, and inserting
//! an existing key replaces its value.

use vstd::prelude::*;
use vstd::utf8::encode_utf8;
use vstd::utf8::encode_utf8_decode_utf8;

verus! {

/// Lexicographic order on byte strings (a proper prefix comes first).
pub open spec fn bytes_lt(a: Seq<u8>, b: Seq<u8>) -> bool
    decreases a.len(),
{
    if a.len() == 0 {
        b.len() > 0
    } else if b.len() == 0 {
        false
    } else if a[0] < b[0] {
        true
    } else if a[0] > b[0] {
        false
    } else {
        bytes_lt(a.drop_first(), b.drop_first())
    }
}

/// The order of `String` keys: lexicographic on their UTF-8 bytes.
pub open spec fn key_lt(a: Seq<char>, b: Seq<char>) -> bool {
    bytes_lt(encode_utf8(a), encode_utf8(b))
}

/// Entries whose keys strictly ascend (hence no key occurs twice).
pub open spec fn keys_ascending<T>(s: Seq<(String, T)>) -> bool {
    forall|i: int, j: int| 0 <= i < j < s.len() ==> key_lt(#[trigger] s[i].0@, #[trigger] s[j].0@)
}

/// Whether some entry has key `k`.
pub open spec fn has_key<T>(s: Seq<(String, T)>, k: Seq<char>) -> bool {
    exists|i: int| 0 <= i < s.len() && #[trigger] s[i].0@ == k
}

/// The value stored under `k`, if any.
pub open spec fn lookup<T>(s: Seq<(String, T)>, k: Seq<char>) -> Option<T> {
    if has_key(s, k) {
        Some(s[choose|i: int| 0 <= i < s.len() && #[trigger] s[i].0@ == k].1)
    } else {
        None
    }
}

proof fn lemma_bytes_lt_irreflexive(a: Seq<u8>)
    ensures
        !bytes_lt(a, a),
    decreases a.len(),
{
    if a.len() > 0 {
        lemma_bytes_lt_irreflexive(a.drop_first());
    }
}

proof fn lemma_bytes_lt_transitive(a: Seq<u8>, b: Seq<u8>, c: Seq<u8>)
    requires
        bytes_lt(a, b),
        bytes_lt(b, c),
    ensures
        bytes_lt(a, c),
    decreases a.len(),
{
    if a.len() > 0 && b.len() > 0 && c.len() > 0 && a[0] == b[0] && b[0] == c[0] {
        lemma_bytes_lt_transitive(a.drop_first(), b.drop_first(), c.drop_first());
    }
}

proof fn lemma_bytes_lt_total(a: Seq<u8>, b: Seq<u8>)
    requires
        a != b,
    ensures
        bytes_lt(a, b) || bytes_lt(b, a),
    decreases a.len(),
{
    if a.len() == 0 && b.len() == 0 {
        assert(a =~= b);
    }
    if a.len() > 0 && b.len() > 0 && a[0] == b[0] {
        if a.drop_first() == b.drop_first() {
            assert(a =~= seq![a[0]] + a.drop_first());
            assert(b =~= seq![b[0]] + b.drop_first());
        }
        lemma_bytes_lt_total(a.drop_first(), b.drop_first());
    }
}

proof fn lemma_bytes_lt_asymmetric(a: Seq<u8>, b: Seq<u8>)
    requires
        bytes_lt(a, b),
    ensures
        !bytes_lt(b, a),
{
    if bytes_lt(b, a) {
        lemma_bytes_lt_transitive(a, b, a);
        lemma_bytes_lt_irreflexive(a);
    }
}

/// The key order is a strict total order.
pub proof fn lemma_key_order(a: Seq<char>, b: Seq<char>, c: Seq<char>)
    ensures
        !key_lt(a, a),
        key_lt(a, b) && key_lt(b, c) ==> key_lt(a, c),
        key_lt(a, b) ==> !key_lt(b, a),
        a == b || key_lt(a, b) || key_lt(b, a),
{
    lemma_bytes_lt_irreflexive(encode_utf8(a));
    if key_lt(a, b) && key_lt(b, c) {
        lemma_bytes_lt_transitive(encode_utf8(a), encode_utf8(b), encode_utf8(c));
    }
    if key_lt(a, b) {
        lemma_bytes_lt_asymmetric(encode_utf8(a), encode_utf8(b));
    }
    if a != b {
        encode_utf8_decode_utf8(a);
        encode_utf8_decode_utf8(b);
        lemma_bytes_lt_total(encode_utf8(a), encode_utf8(b));
    }
}

proof fn lemma_lookup_at<T>(s: Seq<(String, T)>, i: int)
    requires
        keys_ascending(s),
        0 <= i < s.len(),
    ensures
        has_key(s, s[i].0@),
        lookup(s, s[i].0@) == Some(s[i].1),
{
    let k = s[i].0@;
    assert(has_key(s, k));
    let j = choose|j: int| 0 <= j < s.len() && #[trigger] s[j].0@ == k;
    lemma_key_order(k, k, k);
    if i < j {
        assert(key_lt(s[i].0@, s[j].0@));
    } else if j < i {
        assert(key_lt(s[j].0@, s[i].0@));
    }
}

/// Result of comparing two keys.
pub enum KeyOrder {
    Less,
    Equal,
    Greater,
}

/// Compares two keys in the order of `String`'s `Ord` (UTF-8 bytes).
pub fn compare_keys(a: &str, b: &str) -> (r: KeyOrder)
    ensures
        r is Less <==> key_lt(a@, b@),
        r is Equal <==> a@ == b@,
        r is Greater <==> key_lt(b@, a@),
{
    let x = a.as_bytes();
    let y = b.as_bytes();
    let ghost ea = encode_utf8(a@);
    let ghost eb = encode_utf8(b@);
    proof {
        lemma_key_order(a@, b@, a@);
        lemma_key_order(b@, a@, b@);
        encode_utf8_decode_utf8(a@);
        encode_utf8_decode_utf8(b@);
        assert(ea.skip(0) =~= ea);
        assert(eb.skip(0) =~= eb);
    }
    let mut i: usize = 0;
    while i < x.len() && i < y.len()
        invariant
            x@ == ea,
            y@ == eb,
            i <= x@.len(),
            i <= y@.len(),
            x@.take(i as int) == y@.take(i as int),
            bytes_lt(ea, eb) == bytes_lt(ea.skip(i as int), eb.skip(i as int)),
            bytes_lt(eb, ea) == bytes_lt(eb.skip(i as int), ea.skip(i as int)),
            key_lt(a@, b@) == bytes_lt(ea, eb),
            key_lt(b@, a@) == bytes_lt(eb, ea),
            (a@ == b@) == (ea == eb),
            key_lt(a@, b@) ==> !key_lt(b@, a@),
            a@ != b@ ==> key_lt(a@, b@) || key_lt(b@, a@),
        decreases x@.len() - i,
    {
        let xb = x[i];
        let yb = y[i];
        if xb < yb {
            assert(ea.skip(i as int)[0] == xb);
            assert(eb.skip(i as int)[0] == yb);
            return KeyOrder::Less;
        }
        if xb > yb {
            assert(ea.skip(i as int)[0] == xb);
            assert(eb.skip(i as int)[0] == yb);
            return KeyOrder::Greater;
        }
        assert(ea.skip(i as int).drop_first() =~= ea.skip(i + 1));
        assert(eb.skip(i as int).drop_first() =~= eb.skip(i + 1));
        assert(x@.take(i + 1) =~= x@.take(i as int).push(xb));
        assert(y@.take(i + 1) =~= y@.take(i as int).push(yb));
        i += 1;
    }
    if x.len() == y.len() {
        assert(x@ =~= x@.take(i as int));
        assert(y@ =~= y@.take(i as int));
        KeyOrder::Equal
    } else if x.len() < y.len() {
        assert(ea.skip(i as int).len() == 0);
        KeyOrder::Less
    } else {
        assert(eb.skip(i as int).len() == 0);
        KeyOrder::Greater
    }
}

/// Text-keyed map with entries kept in ascending key order.
pub struct KeyedMap<T> {
    entries: Vec<(String, T)>,
}

impl<T> View for KeyedMap<T> {
    type V = Seq<(String, T)>;

    /// The entries, in ascending key order.
    closed spec fn view(&self) -> Seq<(String, T)> {
        self.entries@
    }
}

impl<T> KeyedMap<T> {
    #[verifier::type_invariant]
    closed spec fn wf(self) -> bool {
        keys_ascending(self.entries@)
    }

    /// An empty map.
    pub fn new() -> (m: Self)
        ensures
            m@ == Seq::<(String, T)>::empty(),
    {
        KeyedMap { entries: Vec::new() }
    }

    /// Number of entries.
    pub fn len(&self) -> (n: usize)
        ensures
            n == self@.len(),
            keys_ascending(self@),
    {
        proof {
            use_type_invariant(self);
        }
        self.entries.len()
    }

    /// The entry at position `i` in ascending key order.
    pub fn entry(&self, i: usize) -> (e: &(String, T))
        requires
            i < self@.len(),
        ensures
            *e == self@[i as int],
            keys_ascending(self@),
    {
        proof {
            use_type_invariant(self);
        }
        &self.entries[i]
    }

    /// The entry with the least key, which is what a `BTreeMap`'s first key
    /// gives; `None` when the map is empty.
    pub fn first(&self) -> (r: Option<&(String, T)>)
        ensures
            self@.len() == 0 ==> r is None,
            self@.len() > 0 ==> r == Some(&self@[0]),
            self@.len() > 0 ==> forall|j: int|
                1 <= j < self@.len() ==> key_lt(self@[0].0@, #[trigger] self@[j].0@),
            keys_ascending(self@),
    {
        proof {
            use_type_invariant(self);
        }
        if self.entries.len() == 0 {
            None
        } else {
            Some(&self.entries[0])
        }
    }

    /// The entries in ascending key order, taking the map apart.
    pub fn into_entries(self) -> (r: Vec<(String, T)>)
        ensures
            r@ == self@,
            keys_ascending(r@),
    {
        proof {
            use_type_invariant(&self);
        }
        self.entries
    }

    /// Inserts `value` under `key`, replacing the value of an equal key.
    /// Afterwards `key` maps to `value`, every other key keeps its value, and
    /// the entries still ascend.
    pub fn insert(&mut self, key: String, value: T)
        ensures
            keys_ascending(final(self)@),
            forall|k: Seq<char>|
                #[trigger] lookup(final(self)@, k) == (if k == key@ {
                    Some(value)
                } else {
                    lookup(old(self)@, k)
                }),
            has_key(old(self)@, key@) ==> final(self)@.len() == old(self)@.len(),
            !has_key(old(self)@, key@) ==> final(self)@.len() == old(self)@.len() + 1,
    {
        proof {
            use_type_invariant(&*self);
        }
        let mut entries: Vec<(String, T)> = Vec::new();
        std::mem::swap(&mut entries, &mut self.entries);
        let ghost old_s = entries@;
        let ghost kv = (key, value);
        let n = entries.len();
        let mut append = n == 0;
        if n > 0 {
            match compare_keys(entries[n - 1].0.as_str(), key.as_str()) {
                KeyOrder::Less => {
                    append = true;
                },
                _ => {},
            }
        }
        if append {
            proof {
                if n > 0 {
                    assert forall|i: int| 0 <= i < n implies key_lt(#[trigger] old_s[i].0@, kv.0@) by {
                        if i < n - 1 {
                            assert(key_lt(old_s[i].0@, old_s[n - 1].0@));
                            lemma_key_order(old_s[i].0@, old_s[n - 1].0@, kv.0@);
                        }
                    }
                }
                lemma_insert_at(old_s, n as int, kv);
            }
            entries.push((key, value));
            assert(entries@ =~= old_s.insert(n as int, kv));
        } else {
            let mut p: usize = 0;
            loop
                invariant
                    n == entries@.len(),
                    entries@ == old_s,
                    kv.0 == key,
                    keys_ascending(old_s),
                    0 < n,
                    !key_lt(old_s[n - 1].0@, kv.0@),
                    p < n,
                    forall|i: int| 0 <= i < p ==> key_lt(#[trigger] old_s[i].0@, kv.0@),
                ensures
                    p < n,
                    forall|i: int| 0 <= i < p ==> key_lt(#[trigger] old_s[i].0@, kv.0@),
                    !key_lt(old_s[p as int].0@, kv.0@),
                decreases n - p,
            {
                match compare_keys(entries[p].0.as_str(), key.as_str()) {
                    KeyOrder::Less => {
                        assert(p != n - 1);
                        p += 1;
                    },
                    _ => {
                        break;
                    },
                }
            }
            let same = match compare_keys(entries[p].0.as_str(), key.as_str()) {
                KeyOrder::Equal => true,
                _ => false,
            };
            if same {
                proof {
                    lemma_replace_at(old_s, p as int, kv);
                }
                entries.remove(p);
                entries.insert(p, (key, value));
                assert(entries@ =~= old_s.update(p as int, kv));
            } else {
                proof {
                    lemma_key_order(old_s[p as int].0@, kv.0@, kv.0@);
                    lemma_insert_at(old_s, p as int, kv);
                }
                entries.insert(p, (key, value));
            }
        }
        self.entries = entries;
    }
}

/// Inserting a fresh key at its sorted position keeps the order, adds the key
/// and leaves the other lookups as they were.
proof fn lemma_insert_at<T>(s: Seq<(String, T)>, p: int, kv: (String, T))
    requires
        keys_ascending(s),
        0 <= p <= s.len(),
        forall|i: int| 0 <= i < p ==> key_lt(#[trigger] s[i].0@, kv.0@),
        p < s.len() ==> key_lt(kv.0@, s[p].0@),
    ensures
        keys_ascending(s.insert(p, kv)),
        !has_key(s, kv.0@),
        forall|k: Seq<char>|
            #[trigger] lookup(s.insert(p, kv), k) == (if k == kv.0@ {
                Some(kv.1)
            } else {
                lookup(s, k)
            }),
{
    let t = s.insert(p, kv);
    assert forall|j: int| p <= j < s.len() implies key_lt(kv.0@, #[trigger] s[j].0@) by {
        if j > p {
            lemma_key_order(kv.0@, s[p].0@, s[j].0@);
        }
    }
    assert forall|i: int, j: int| 0 <= i < j < t.len() implies key_lt(
        #[trigger] t[i].0@,
        #[trigger] t[j].0@,
    ) by {
        if j < p {
        } else if j == p {
        } else if i < p {
            assert(t[j] == s[j - 1]);
            lemma_key_order(s[i].0@, kv.0@, s[j - 1].0@);
        } else if i == p {
            assert(t[j] == s[j - 1]);
        } else {
            assert(t[i] == s[i - 1]);
            assert(t[j] == s[j - 1]);
        }
    }
    assert(!has_key(s, kv.0@)) by {
        if has_key(s, kv.0@) {
            let i = choose|i: int| 0 <= i < s.len() && #[trigger] s[i].0@ == kv.0@;
            lemma_key_order(kv.0@, kv.0@, kv.0@);
        }
    }
    assert forall|k: Seq<char>| #[trigger]
        lookup(t, k) == (if k == kv.0@ {
            Some(kv.1)
        } else {
            lookup(s, k)
        }) by {
        if k == kv.0@ {
            lemma_lookup_at(t, p);
            assert(t[p] == kv);
        } else if has_key(s, k) {
            let i = choose|i: int| 0 <= i < s.len() && #[trigger] s[i].0@ == k;
            lemma_lookup_at(s, i);
            let ti = if i < p {
                i
            } else {
                i + 1
            };
            assert(t[ti] == s[i]);
            lemma_lookup_at(t, ti);
        } else {
            if has_key(t, k) {
                let j = choose|j: int| 0 <= j < t.len() && #[trigger] t[j].0@ == k;
                if j < p {
                    assert(s[j].0@ == k);
                } else if j > p {
                    assert(s[j - 1].0@ == k);
                }
            }
        }
    }
}

/// Replacing the value of an existing key keeps the order and changes only
/// that key's lookup.
proof fn lemma_replace_at<T>(s: Seq<(String, T)>, p: int, kv: (String, T))
    requires
        keys_ascending(s),
        0 <= p < s.len(),
        s[p].0@ == kv.0@,
    ensures
        keys_ascending(s.update(p, kv)),
        has_key(s, kv.0@),
        forall|k: Seq<char>|
            #[trigger] lookup(s.update(p, kv), k) == (if k == kv.0@ {
                Some(kv.1)
            } else {
                lookup(s, k)
            }),
{
    let t = s.update(p, kv);
    assert(has_key(s, kv.0@));
    assert forall|i: int, j: int| 0 <= i < j < t.len() implies key_lt(
        #[trigger] t[i].0@,
        #[trigger] t[j].0@,
    ) by {
        assert(t[i].0@ == s[i].0@);
        assert(t[j].0@ == s[j].0@);
    }
    assert forall|k: Seq<char>| #[trigger]
        lookup(t, k) == (if k == kv.0@ {
            Some(kv.1)
        } else {
            lookup(s, k)
        }) by {
        if k == kv.0@ {
            lemma_lookup_at(t, p);
        } else if has_key(s, k) {
            let i = choose|i: int| 0 <= i < s.len() && #[trigger] s[i].0@ == k;
            lemma_lookup_at(s, i);
            assert(t[i] == s[i]);
            lemma_lookup_at(t, i);
        } else {
            if has_key(t, k) {
                let j = choose|j: int| 0 <= j < t.len() && #[trigger] t[j].0@ == k;
                assert(s[j].0@ == k);
            }
        }
    }
}

} // verus!
