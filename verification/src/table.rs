//! An ordered map over two vectors: keys in strictly ascending order, and
//! beside each the value filed under it.

use vstd::prelude::*;

use crate::text::chars_of;

verus! {

/// What a table can be keyed by: a type whose values are told apart and put
/// in a strict total order by their views.
pub trait Key: View + Sized {
    /// `a` comes before `b`.
    spec fn before(a: Self::V, b: Self::V) -> bool;

    proof fn before_irreflexive(a: Self::V)
        ensures
            !Self::before(a, a),
    ;

    proof fn before_transitive(a: Self::V, b: Self::V, c: Self::V)
        requires
            Self::before(a, b),
            Self::before(b, c),
        ensures
            Self::before(a, c),
    ;

    proof fn before_total(a: Self::V, b: Self::V)
        ensures
            a == b || Self::before(a, b) || Self::before(b, a),
    ;

    /// Whether this key comes before `other`.
    fn precedes(&self, other: &Self) -> (r: bool)
        ensures
            r == Self::before(self@, other@),
    ;
}

impl Key for u64 {
    open spec fn before(a: u64, b: u64) -> bool {
        a < b
    }

    proof fn before_irreflexive(a: u64) {
    }

    proof fn before_transitive(a: u64, b: u64, c: u64) {
    }

    proof fn before_total(a: u64, b: u64) {
    }

    fn precedes(&self, other: &Self) -> (r: bool) {
        *self < *other
    }
}

/// `a` comes before `b` in the order of a dictionary whose alphabet is the
/// order of the characters' scalar values.
pub open spec fn text_before(a: Seq<char>, b: Seq<char>) -> bool
    decreases a.len(),
{
    if b.len() == 0 {
        false
    } else if a.len() == 0 {
        true
    } else if a[0] != b[0] {
        (a[0] as u32) < (b[0] as u32)
    } else {
        text_before(a.drop_first(), b.drop_first())
    }
}

proof fn lemma_text_irreflexive(a: Seq<char>)
    ensures
        !text_before(a, a),
    decreases a.len(),
{
    if a.len() > 0 {
        lemma_text_irreflexive(a.drop_first());
    }
}

proof fn lemma_text_transitive(a: Seq<char>, b: Seq<char>, c: Seq<char>)
    requires
        text_before(a, b),
        text_before(b, c),
    ensures
        text_before(a, c),
    decreases a.len(),
{
    if a.len() > 0 && a[0] == b[0] && b[0] == c[0] {
        lemma_text_transitive(a.drop_first(), b.drop_first(), c.drop_first());
    }
}

proof fn lemma_text_total(a: Seq<char>, b: Seq<char>)
    ensures
        a == b || text_before(a, b) || text_before(b, a),
    decreases a.len(),
{
    if a.len() == 0 && b.len() == 0 {
        assert(a =~= b);
    } else if a.len() > 0 && b.len() > 0 && a[0] == b[0] {
        lemma_text_total(a.drop_first(), b.drop_first());
        if a.drop_first() == b.drop_first() {
            assert(a =~= seq![a[0]] + a.drop_first());
            assert(b =~= seq![b[0]] + b.drop_first());
        }
    } else if a.len() > 0 && b.len() > 0 {
        vstd::utf8::char_u32_cast(a[0], a[0] as u32);
        vstd::utf8::char_u32_cast(b[0], b[0] as u32);
    }
}

impl Key for String {
    open spec fn before(a: Seq<char>, b: Seq<char>) -> bool {
        text_before(a, b)
    }

    proof fn before_irreflexive(a: Seq<char>) {
        lemma_text_irreflexive(a);
    }

    proof fn before_transitive(a: Seq<char>, b: Seq<char>, c: Seq<char>) {
        lemma_text_transitive(a, b, c);
    }

    proof fn before_total(a: Seq<char>, b: Seq<char>) {
        lemma_text_total(a, b);
    }

    fn precedes(&self, other: &Self) -> (r: bool) {
        let left = chars_of(self.as_str());
        let right = chars_of(other.as_str());
        let mut i: usize = 0;
        assert(left@.skip(0) =~= left@);
        assert(right@.skip(0) =~= right@);
        while i < left.len() && i < right.len()
            invariant
                left@ == self@,
                right@ == other@,
                i <= left.len(),
                i <= right.len(),
                text_before(self@, other@) == text_before(left@.skip(i as int), right@.skip(i as int)),
            decreases left.len() - i,
        {
            let c = left[i];
            let d = right[i];
            assert(left@.skip(i as int)[0] == c);
            assert(right@.skip(i as int)[0] == d);
            if c != d {
                return (c as u32) < (d as u32);
            }
            assert(left@.skip(i as int).drop_first() =~= left@.skip(i as int + 1));
            assert(right@.skip(i as int).drop_first() =~= right@.skip(i as int + 1));
            i = i + 1;
        }
        left.len() < right.len()
    }
}

/// The key sequence is strictly ascending.
pub open spec fn ascending<K: Key>(keys: Seq<K::V>) -> bool {
    forall|i: int, j: int| 0 <= i < j < keys.len() ==> K::before(#[trigger] keys[i], #[trigger] keys[j])
}

/// The list holds the keys of a map, ascending and each once.
pub open spec fn lists_keys<K: Key, V>(keys: Seq<K::V>, m: Map<K::V, V>) -> bool {
    &&& ascending::<K>(keys)
    &&& keys.to_set() == m.dom()
    &&& keys.len() == m.len()
}

/// The views of a run of keys.
spec fn key_views<K: Key>(keys: Seq<K>) -> Seq<K::V> {
    keys.map_values(|k: K| k@)
}

/// An ordered map.
pub struct Table<K: Key, V> {
    keys: Vec<K>,
    vals: Vec<V>,
}

impl<K: Key, V> Table<K, V> {
    /// The keys, in ascending order.
    pub closed spec fn keys(&self) -> Seq<K::V> {
        key_views(self.keys@)
    }

    /// The values, in the order of their keys.
    pub closed spec fn vals(&self) -> Seq<V> {
        self.vals@
    }

    /// Keys ascend, and each has its value.
    pub open spec fn wf(&self) -> bool {
        &&& self.keys().len() == self.vals().len()
        &&& ascending::<K>(self.keys())
    }

    /// Where `key` stands.
    pub open spec fn place(&self, key: K::V) -> int {
        choose|i: int| 0 <= i < self.keys().len() && self.keys()[i] == key
    }

    /// The map this table is.
    pub open spec fn map(&self) -> Map<K::V, V> {
        Map::new(|k: K::V| self.keys().contains(k), |k: K::V| self.vals()[self.place(k)])
    }

    /// Two positions with one key are one position.
    pub proof fn lemma_distinct(&self, i: int, j: int)
        requires
            self.wf(),
            0 <= i < self.keys().len(),
            0 <= j < self.keys().len(),
            self.keys()[i] == self.keys()[j],
        ensures
            i == j,
    {
        K::before_irreflexive(self.keys()[i]);
    }

    /// The value at a position is the one the map holds under the key there.
    pub proof fn lemma_at(&self, i: int)
        requires
            self.wf(),
            0 <= i < self.keys().len(),
        ensures
            self.map().contains_key(self.keys()[i]),
            self.map()[self.keys()[i]] == self.vals()[i],
    {
        assert(self.keys().contains(self.keys()[i]));
        let p = self.place(self.keys()[i]);
        assert(0 <= p < self.keys().len() && self.keys()[p] == self.keys()[i]);
        self.lemma_distinct(i, p);
    }

    /// Every key of the map has a position.
    pub proof fn lemma_placed(&self, key: K::V)
        requires
            self.wf(),
            self.map().contains_key(key),
        ensures
            0 <= self.place(key) < self.keys().len(),
            self.keys()[self.place(key)] == key,
            self.vals()[self.place(key)] == self.map()[key],
    {
        assert(self.keys().contains(key));
    }

    /// The number of keys is the size of the map.
    pub proof fn lemma_len(&self)
        requires
            self.wf(),
        ensures
            self.map().dom().finite(),
            self.map().len() == self.keys().len(),
    {
        let s = self.keys();
        assert(s.no_duplicates()) by {
            assert forall|i: int, j: int| 0 <= i < s.len() && 0 <= j < s.len() && i != j implies s[i] != s[j] by {
                if s[i] == s[j] {
                    self.lemma_distinct(i, j);
                }
            }
        }
        s.unique_seq_to_set();
        assert(s.to_set() =~= self.map().dom());
    }

    /// What stands in memory can be counted.
    pub proof fn lemma_fits(&self)
        ensures
            self.keys().len() <= usize::MAX,
            self.vals().len() <= usize::MAX,
    {
        assert(self.keys@.len() == self.keys.len());
        assert(self.vals@.len() == self.vals.len());
    }

    /// The keys ascend and are those of the map, each once.
    pub proof fn lemma_listed(&self)
        requires
            self.wf(),
        ensures
            lists_keys::<K, V>(self.keys(), self.map()),
            self.vals() == self.keys().map_values(|k: K::V| self.map()[k]),
    {
        self.lemma_len();
        assert(self.keys().to_set() =~= self.map().dom());
        assert forall|i: int| 0 <= i < self.keys().len() implies self.vals()[i] == self.map()[self.keys()[i]] by {
            self.lemma_at(i);
        }
        assert(self.vals() =~= self.keys().map_values(|k: K::V| self.map()[k]));
    }

    /// The map settles the order: two tables that are the same map list the
    /// same keys and values.
    pub proof fn law_the_map_settles_the_order(&self, other: &Self)
        requires
            self.wf(),
            other.wf(),
            self.map() == other.map(),
        ensures
            self.keys() == other.keys(),
            self.vals() == other.vals(),
    {
        self.lemma_len();
        other.lemma_len();
        let n = self.keys().len();
        assert forall|i: int| 0 <= i < n implies self.keys()[i] == other.keys()[i] by {
            self.lemma_prefix(other, i);
        }
        assert(self.keys() =~= other.keys());
        assert forall|i: int| 0 <= i < n implies self.vals()[i] == other.vals()[i] by {
            self.lemma_at(i);
            other.lemma_at(i);
        }
        assert(self.vals() =~= other.vals());
    }

    proof fn lemma_prefix(&self, other: &Self, i: int)
        requires
            self.wf(),
            other.wf(),
            self.map() == other.map(),
            self.keys().len() == other.keys().len(),
            0 <= i < self.keys().len(),
        ensures
            forall|j: int| 0 <= j <= i ==> #[trigger] self.keys()[j] == other.keys()[j],
        decreases i,
    {
        if i > 0 {
            self.lemma_prefix(other, i - 1);
        }
        let a = self.keys()[i];
        let b = other.keys()[i];
        self.lemma_at(i);
        other.lemma_at(i);
        other.lemma_placed(a);
        self.lemma_placed(b);
        let pa = other.place(a);
        let pb = self.place(b);
        if pa < i {
            assert(self.keys()[pa] == a);
            self.lemma_distinct(pa, i);
        }
        if pb < i {
            assert(other.keys()[pb] == b);
            other.lemma_distinct(pb, i);
        }
        if pa > i && pb > i {
            K::before_transitive(a, b, a);
            K::before_irreflexive(a);
        }
    }

    /// A table with nothing in it.
    pub fn new() -> (table: Self)
        ensures
            table.wf(),
            table.keys().len() == 0,
            table.map() == Map::<K::V, V>::empty(),
    {
        let table = Table { keys: Vec::new(), vals: Vec::new() };
        proof {
            assert(table.map() =~= Map::<K::V, V>::empty());
        }
        table
    }

    /// How many keys there are.
    pub fn len(&self) -> (n: usize)
        requires
            self.wf(),
        ensures
            n == self.keys().len(),
            n == self.map().len(),
    {
        proof {
            self.lemma_len();
        }
        self.keys.len()
    }

    /// The first position whose key is not before `key`.
    fn lower_bound(&self, key: &K) -> (at: usize)
        requires
            self.wf(),
        ensures
            at <= self.keys().len(),
            forall|i: int| 0 <= i < at ==> K::before(#[trigger] self.keys()[i], key@),
            forall|i: int| at <= i < self.keys().len() ==> !K::before(#[trigger] self.keys()[i], key@),
    {
        let mut lo: usize = 0;
        let mut hi: usize = self.keys.len();
        while lo < hi
            invariant
                self.wf(),
                lo <= hi <= self.keys@.len(),
                self.keys@.len() == self.keys().len(),
                forall|i: int| 0 <= i < lo ==> K::before(#[trigger] self.keys()[i], key@),
                forall|i: int| hi <= i < self.keys().len() ==> !K::before(#[trigger] self.keys()[i], key@),
            decreases hi - lo,
        {
            let mid: usize = lo + (hi - lo) / 2;
            if self.keys[mid].precedes(key) {
                proof {
                    assert(self.keys()[mid as int] == self.keys@[mid as int]@);
                    assert forall|i: int| 0 <= i < mid + 1 implies K::before(#[trigger] self.keys()[i], key@) by {
                        if i < mid {
                            K::before_transitive(self.keys()[i], self.keys()[mid as int], key@);
                        }
                    }
                }
                lo = mid + 1;
            } else {
                proof {
                    assert(self.keys()[mid as int] == self.keys@[mid as int]@);
                    assert forall|i: int| mid <= i < self.keys().len() implies !K::before(
                        #[trigger] self.keys()[i],
                        key@,
                    ) by {
                        if mid < i && K::before(self.keys()[i], key@) {
                            K::before_transitive(self.keys()[mid as int], self.keys()[i], key@);
                        }
                    }
                }
                hi = mid;
            }
        }
        lo
    }

    /// Where `key` stands, if it is here.
    pub fn find(&self, key: &K) -> (at: Option<usize>)
        requires
            self.wf(),
        ensures
            match at {
                Some(i) => i < self.keys().len() && self.keys()[i as int] == key@ && self.map().contains_key(key@)
                    && self.map()[key@] == self.vals()[i as int],
                None => !self.map().contains_key(key@),
            },
    {
        let at = self.lower_bound(key);
        if at < self.keys.len() && !key.precedes(&self.keys[at]) {
            proof {
                assert(self.keys()[at as int] == self.keys@[at as int]@);
                K::before_total(self.keys()[at as int], key@);
                self.lemma_at(at as int);
            }
            Some(at)
        } else {
            proof {
                if self.map().contains_key(key@) {
                    self.lemma_placed(key@);
                    let p = self.place(key@);
                    K::before_irreflexive(key@);
                    assert(at <= p);
                    assert(self.keys()[at as int] == self.keys@[at as int]@);
                    if at < p {
                        K::before_transitive(key@, self.keys()[at as int], self.keys()[p]);
                    }
                }
            }
            None
        }
    }

    /// Whether `key` is here.
    pub fn contains_key(&self, key: &K) -> (r: bool)
        requires
            self.wf(),
        ensures
            r == self.map().contains_key(key@),
    {
        match self.find(key) {
            Some(_) => true,
            None => false,
        }
    }

    /// The value filed under `key`.
    pub fn get(&self, key: &K) -> (r: Option<&V>)
        requires
            self.wf(),
        ensures
            match r {
                Some(v) => self.map().contains_key(key@) && *v == self.map()[key@],
                None => !self.map().contains_key(key@),
            },
    {
        match self.find(key) {
            Some(i) => Some(&self.vals[i]),
            None => None,
        }
    }

    /// The key at a position.
    pub fn key_at(&self, i: usize) -> (k: &K)
        requires
            i < self.keys().len(),
        ensures
            k@ == self.keys()[i as int],
    {
        &self.keys[i]
    }

    /// The value at a position.
    pub fn val_at(&self, i: usize) -> (v: &V)
        requires
            self.wf(),
            i < self.keys().len(),
        ensures
            *v == self.vals()[i as int],
            self.map().contains_key(self.keys()[i as int]),
            *v == self.map()[self.keys()[i as int]],
    {
        proof {
            self.lemma_at(i as int);
        }
        &self.vals[i]
    }

    /// File `value` under `key`; what stood there before comes back.
    pub fn insert(&mut self, key: K, value: V) -> (old_value: Option<V>)
        requires
            old(self).wf(),
        ensures
            final(self).wf(),
            final(self).map() == old(self).map().insert(key@, value),
            match old_value {
                Some(v) => old(self).map().contains_key(key@) && v == old(self).map()[key@],
                None => !old(self).map().contains_key(key@),
            },
    {
        let ghost before = *self;
        let at = self.lower_bound(&key);
        if at < self.keys.len() && !key.precedes(&self.keys[at]) {
            proof {
                assert(self.keys()[at as int] == self.keys@[at as int]@);
                K::before_total(self.keys()[at as int], key@);
                before.lemma_at(at as int);
            }
            let mut slot = value;
            std::mem::swap(&mut self.vals[at], &mut slot);
            proof {
                assert(self.keys() =~= before.keys());
                assert(self.vals() =~= before.vals().update(at as int, value));
                self.lemma_at(at as int);
                assert forall|k: K::V| #[trigger] self.map().contains_key(k) implies self.map()[k] == before.map().insert(
                    key@,
                    value,
                )[k] by {
                    self.lemma_placed(k);
                    before.lemma_placed(k);
                    if k != key@ {
                        assert(self.place(k) != at);
                    }
                }
                assert(self.map() =~= before.map().insert(key@, value));
            }
            Some(slot)
        } else {
            proof {
                if before.map().contains_key(key@) {
                    before.lemma_placed(key@);
                    let p = before.place(key@);
                    K::before_irreflexive(key@);
                    assert(at <= p);
                    assert(self.keys()[at as int] == self.keys@[at as int]@);
                    if at < p {
                        K::before_transitive(key@, self.keys()[at as int], self.keys()[p]);
                    }
                    assert(false);
                }
            }
            let ghost k = key@;
            self.keys.insert(at, key);
            self.vals.insert(at, value);
            proof {
                assert(self.keys() =~= before.keys().insert(at as int, k));
                assert(self.vals() =~= before.vals().insert(at as int, value));
                assert forall|i: int, j: int| 0 <= i < j < self.keys().len() implies K::before(
                    #[trigger] self.keys()[i],
                    #[trigger] self.keys()[j],
                ) by {
                    if i < at && j > at {
                        assert(self.keys()[i] == before.keys()[i]);
                        assert(self.keys()[j] == before.keys()[j - 1]);
                    } else if j == at {
                        assert(self.keys()[i] == before.keys()[i]);
                    } else if i == at {
                        let b = before.keys()[j - 1];
                        assert(self.keys()[j] == b);
                        K::before_total(k, b);
                        if k == b {
                            before.lemma_at(j - 1);
                        }
                    } else if j < at {
                        assert(self.keys()[i] == before.keys()[i]);
                        assert(self.keys()[j] == before.keys()[j]);
                    } else {
                        assert(self.keys()[i] == before.keys()[i - 1]);
                        assert(self.keys()[j] == before.keys()[j - 1]);
                    }
                }
                assert forall|x: K::V| self.map().contains_key(x) <==> #[trigger] before.map().insert(
                    k,
                    value,
                ).contains_key(x) by {
                    if before.map().contains_key(x) {
                        before.lemma_placed(x);
                        let p = before.place(x);
                        let q = if p < at { p } else { p + 1 };
                        assert(self.keys()[q] == x);
                        self.lemma_at(q);
                    }
                    if x == k {
                        assert(self.keys()[at as int] == k);
                        self.lemma_at(at as int);
                    }
                    if self.map().contains_key(x) && x != k {
                        self.lemma_placed(x);
                        let q = self.place(x);
                        let p = if q < at { q } else { q - 1 };
                        assert(before.keys()[p] == x);
                        before.lemma_at(p);
                    }
                }
                assert forall|x: K::V| #[trigger] self.map().contains_key(x) implies self.map()[x] == before.map().insert(
                    k,
                    value,
                )[x] by {
                    self.lemma_placed(x);
                    let q = self.place(x);
                    self.lemma_at(q);
                    if x != k {
                        let p = if q < at { q } else { q - 1 };
                        assert(before.keys()[p] == x);
                        before.lemma_at(p);
                    }
                }
                assert(self.map() =~= before.map().insert(k, value));
            }
            None
        }
    }

    /// The value filed under `key`, to change.
    pub fn get_mut(&mut self, key: &K) -> (r: Option<&mut V>)
        requires
            old(self).wf(),
        ensures
            final(self).wf(),
            match r {
                Some(v) => {
                    &&& old(self).map().contains_key(key@)
                    &&& *v == old(self).map()[key@]
                    &&& final(self).keys() == old(self).keys()
                    &&& final(self).map() == old(self).map().insert(key@, *final(v))
                },
                None => !old(self).map().contains_key(key@) && *final(self) == *old(self),
            },
    {
        match self.find(key) {
            None => None,
            Some(at) => {
                let ghost before = *self;
                proof {
                    assert forall|after: Self, value: V|
                        #![trigger after.map(), before.vals().update(at as int, value)]
                        after.keys() == before.keys() && after.vals() == before.vals().update(
                            at as int,
                            value,
                        ) implies after.wf() && after.map() == before.map().insert(key@, value) by {
                        lemma_updated(before, after, at as int, key@, value);
                    }
                }
                Some(&mut self.vals[at])
            },
        }
    }

    /// Take `key` and its value out.
    pub fn remove(&mut self, key: &K) -> (r: Option<V>)
        requires
            old(self).wf(),
        ensures
            final(self).wf(),
            final(self).map() == old(self).map().remove(key@),
            match r {
                Some(v) => old(self).map().contains_key(key@) && v == old(self).map()[key@],
                None => !old(self).map().contains_key(key@),
            },
    {
        let ghost before = *self;
        match self.find(key) {
            None => {
                proof {
                    assert(self.map() =~= before.map().remove(key@));
                }
                None
            },
            Some(at) => {
                self.keys.remove(at);
                let value = self.vals.remove(at);
                proof {
                    assert(self.keys() =~= before.keys().remove(at as int));
                    assert(self.vals() =~= before.vals().remove(at as int));
                    assert forall|x: K::V| self.map().contains_key(x) <==> #[trigger] before.map().remove(
                        key@,
                    ).contains_key(x) by {
                        if before.map().contains_key(x) && x != key@ {
                            before.lemma_placed(x);
                            let p = before.place(x);
                            let q = if p < at { p } else { p - 1 };
                            assert(self.keys()[q] == x);
                            self.lemma_at(q);
                        }
                        if self.map().contains_key(x) {
                            self.lemma_placed(x);
                            let q = self.place(x);
                            let p = if q < at { q } else { q + 1 };
                            assert(before.keys()[p] == x);
                            before.lemma_at(p);
                            if x == key@ {
                                before.lemma_distinct(p, at as int);
                            }
                        }
                    }
                    assert forall|x: K::V| #[trigger] self.map().contains_key(x) implies self.map()[x]
                        == before.map().remove(key@)[x] by {
                        self.lemma_placed(x);
                        let q = self.place(x);
                        self.lemma_at(q);
                        let p = if q < at { q } else { q + 1 };
                        assert(before.keys()[p] == x);
                        before.lemma_at(p);
                        if x == key@ {
                            before.lemma_distinct(p, at as int);
                        }
                    }
                    assert(self.map() =~= before.map().remove(key@));
                }
                Some(value)
            },
        }
    }
}

/// Changing the value at one position changes the map under that key alone.
proof fn lemma_updated<K: Key, V>(before: Table<K, V>, after: Table<K, V>, at: int, key: K::V, value: V)
    requires
        before.wf(),
        0 <= at < before.keys().len(),
        before.keys()[at] == key,
        after.keys() == before.keys(),
        after.vals() == before.vals().update(at, value),
    ensures
        after.wf(),
        after.map() == before.map().insert(key, value),
{
    before.lemma_at(at);
    after.lemma_at(at);
    assert forall|k: K::V| #[trigger] after.map().contains_key(k) implies after.map()[k] == before.map().insert(
        key,
        value,
    )[k] by {
        after.lemma_placed(k);
        before.lemma_placed(k);
        if k != key {
            assert(after.place(k) != at);
        }
    }
    assert(after.map() =~= before.map().insert(key, value));
}

/// The values of a map from numbers under `n`, by ascending key.
pub open spec fn vals_below<V>(m: Map<u64, V>, n: nat) -> Seq<V>
    decreases n,
{
    if n == 0 {
        Seq::empty()
    } else {
        let before = vals_below(m, (n - 1) as nat);
        let key = (n - 1) as u64;
        if key == n - 1 && m.contains_key(key) {
            before.push(m[key])
        } else {
            before
        }
    }
}

/// The values of a map from numbers, by ascending key.
pub open spec fn in_order<V>(m: Map<u64, V>) -> Seq<V> {
    vals_below(m, 0x1_0000_0000_0000_0000)
}

impl<V: Copy> Table<String, V> {
    /// The same entries in a table of their own.
    pub fn copied(&self) -> (copy: Self)
        ensures
            copy.keys() == self.keys(),
            copy.vals() == self.vals(),
    {
        let mut keys: Vec<String> = Vec::new();
        let mut vals: Vec<V> = Vec::new();
        let mut i: usize = 0;
        while i < self.keys.len()
            invariant
                i <= self.keys.len(),
                keys@ == self.keys@.take(i as int),
            decreases self.keys.len() - i,
        {
            keys.push(self.keys[i].clone());
            proof {
                assert(self.keys@.take(i as int + 1) =~= self.keys@.take(i as int).push(self.keys@[i as int]));
            }
            i = i + 1;
        }
        let mut j: usize = 0;
        while j < self.vals.len()
            invariant
                j <= self.vals.len(),
                vals@ == self.vals@.take(j as int),
            decreases self.vals.len() - j,
        {
            vals.push(self.vals[j]);
            proof {
                assert(self.vals@.take(j as int + 1) =~= self.vals@.take(j as int).push(self.vals@[j as int]));
            }
            j = j + 1;
        }
        proof {
            assert(self.keys@.take(self.keys@.len() as int) =~= self.keys@);
            assert(self.vals@.take(self.vals@.len() as int) =~= self.vals@);
        }
        Table { keys, vals }
    }
}

impl<V> Table<u64, V> {
    proof fn lemma_below(&self, n: nat, i: int)
        requires
            self.wf(),
            0 <= i <= self.keys().len(),
            forall|j: int| 0 <= j < i ==> #[trigger] self.keys()[j] < n,
            forall|j: int| i <= j < self.keys().len() ==> #[trigger] self.keys()[j] >= n,
        ensures
            vals_below(self.map(), n) == self.vals().take(i),
        decreases n,
    {
        if n == 0 {
            assert(i == 0) by {
                if i > 0 {
                    assert(self.keys()[0] < 0);
                }
            }
            assert(self.vals().take(0) =~= Seq::<V>::empty());
        } else {
            let key = (n - 1) as u64;
            if key == n - 1 && self.map().contains_key(key) {
                self.lemma_placed(key);
                let p = self.place(key);
                assert(self.keys()[p] == key);
                assert(p < i);
                if p + 1 < i {
                    assert(u64::before(self.keys()[p], self.keys()[p + 1]));
                }
                assert(p == i - 1);
                assert forall|j: int| 0 <= j < p implies #[trigger] self.keys()[j] < n - 1 by {
                    assert(u64::before(self.keys()[j], self.keys()[p]));
                }
                self.lemma_below((n - 1) as nat, p);
                assert(self.vals().take(i) =~= self.vals().take(p).push(self.vals()[p]));
            } else {
                assert forall|j: int| 0 <= j < i implies #[trigger] self.keys()[j] < n - 1 by {
                    self.lemma_at(j);
                }
                self.lemma_below((n - 1) as nat, i);
            }
        }
    }

    /// A table keyed by numbers lists the values of its map by ascending key.
    pub proof fn lemma_in_order(&self)
        requires
            self.wf(),
        ensures
            self.vals() == in_order(self.map()),
    {
        self.lemma_below(0x1_0000_0000_0000_0000, self.keys().len() as int);
        assert(self.vals().take(self.keys().len() as int) =~= self.vals());
    }
}

/// One more key makes the list of values longer by one at the most.
pub proof fn lemma_in_order_insert<V>(m: Map<u64, V>, key: u64, value: V)
    ensures
        in_order(m.insert(key, value)).len() <= in_order(m).len() + 1,
{
    lemma_below_insert(m, key, value, 0x1_0000_0000_0000_0000);
}

proof fn lemma_below_insert<V>(m: Map<u64, V>, key: u64, value: V, n: nat)
    ensures
        vals_below(m.insert(key, value), n).len() <= vals_below(m, n).len() + if key < n {
            1int
        } else {
            0
        },
    decreases n,
{
    if n > 0 {
        lemma_below_insert(m, key, value, (n - 1) as nat);
    }
}

/// Every value of a map from numbers stands in its list.
pub proof fn lemma_in_order_holds<V>(m: Map<u64, V>, key: u64)
    requires
        m.contains_key(key),
    ensures
        in_order(m).contains(m[key]),
{
    lemma_below_holds(m, 0x1_0000_0000_0000_0000, key);
}

proof fn lemma_below_holds<V>(m: Map<u64, V>, n: nat, key: u64)
    requires
        m.contains_key(key),
        key < n,
    ensures
        vals_below(m, n).contains(m[key]),
    decreases n,
{
    let before = vals_below(m, (n - 1) as nat);
    if key == n - 1 {
        assert(vals_below(m, n)[before.len() as int] == m[key]);
    } else {
        lemma_below_holds(m, (n - 1) as nat, key);
        let i = choose|i: int| 0 <= i < before.len() && before[i] == m[key];
        assert(vals_below(m, n)[i] == m[key]);
    }
}

} // verus!
