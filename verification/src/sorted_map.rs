//! A map kept as a vector in key order.

use vstd::prelude::*;

verus! {

/// A key with a strict total order on what it stands for.
pub trait Key: Sized {
    /// What two keys are compared by.
    type Repr;

    spec fn repr(&self) -> Self::Repr;

    spec fn precedes(a: Self::Repr, b: Self::Repr) -> bool;

    proof fn order_irreflexive(a: Self::Repr)
        ensures
            !Self::precedes(a, a),
    ;

    proof fn order_total(a: Self::Repr, b: Self::Repr)
        ensures
            a == b || Self::precedes(a, b) || Self::precedes(b, a),
    ;

    proof fn order_transitive(a: Self::Repr, b: Self::Repr, c: Self::Repr)
        requires
            Self::precedes(a, b),
            Self::precedes(b, c),
        ensures
            Self::precedes(a, c),
    ;

    fn is_before(&self, other: &Self) -> (r: bool)
        ensures
            r == Self::precedes(self.repr(), other.repr()),
    ;
}

impl Key for String {
    type Repr = Seq<char>;

    open spec fn repr(&self) -> Seq<char> {
        self@
    }

    open spec fn precedes(a: Seq<char>, b: Seq<char>) -> bool {
        crate::text::text_before(a, b)
    }

    proof fn order_irreflexive(a: Seq<char>) {
        crate::text::lemma_text_before_irreflexive(a);
    }

    proof fn order_total(a: Seq<char>, b: Seq<char>) {
        crate::text::lemma_text_before_total(a, b);
    }

    proof fn order_transitive(a: Seq<char>, b: Seq<char>, c: Seq<char>) {
        crate::text::lemma_text_before_transitive(a, b, c);
    }

    fn is_before(&self, other: &Self) -> (r: bool) {
        crate::text::is_text_before(self.as_str(), other.as_str())
    }
}

impl Key for u64 {
    type Repr = u64;

    open spec fn repr(&self) -> u64 {
        *self
    }

    open spec fn precedes(a: u64, b: u64) -> bool {
        a < b
    }

    proof fn order_irreflexive(a: u64) {
    }

    proof fn order_total(a: u64, b: u64) {
    }

    proof fn order_transitive(a: u64, b: u64, c: u64) {
    }

    fn is_before(&self, other: &Self) -> (r: bool) {
        *self < *other
    }
}

/// Pairs are ordered by their first part, and by the second where that is equal.
impl<A: Key, B: Key> Key for (A, B) {
    type Repr = (A::Repr, B::Repr);

    open spec fn repr(&self) -> (A::Repr, B::Repr) {
        (self.0.repr(), self.1.repr())
    }

    open spec fn precedes(a: (A::Repr, B::Repr), b: (A::Repr, B::Repr)) -> bool {
        A::precedes(a.0, b.0) || (a.0 == b.0 && B::precedes(a.1, b.1))
    }

    proof fn order_irreflexive(a: (A::Repr, B::Repr)) {
        A::order_irreflexive(a.0);
        B::order_irreflexive(a.1);
    }

    proof fn order_total(a: (A::Repr, B::Repr), b: (A::Repr, B::Repr)) {
        A::order_total(a.0, b.0);
        B::order_total(a.1, b.1);
    }

    proof fn order_transitive(
        a: (A::Repr, B::Repr),
        b: (A::Repr, B::Repr),
        c: (A::Repr, B::Repr),
    ) {
        if A::precedes(a.0, b.0) && A::precedes(b.0, c.0) {
            A::order_transitive(a.0, b.0, c.0);
        }
        if B::precedes(a.1, b.1) && B::precedes(b.1, c.1) {
            B::order_transitive(a.1, b.1, c.1);
        }
    }

    fn is_before(&self, other: &Self) -> (r: bool) {
        proof {
            A::order_total(self.0.repr(), other.0.repr());
            A::order_irreflexive(self.0.repr());
            if A::precedes(self.0.repr(), other.0.repr()) && A::precedes(
                other.0.repr(),
                self.0.repr(),
            ) {
                A::order_transitive(self.0.repr(), other.0.repr(), self.0.repr());
            }
        }
        if self.0.is_before(&other.0) {
            true
        } else if other.0.is_before(&self.0) {
            false
        } else {
            self.1.is_before(&other.1)
        }
    }
}

/// Rows in strictly ascending key order.
pub open spec fn sorted_rows<K: Key, V>(rows: Seq<(K, V)>) -> bool {
    forall|i: int, j: int|
        0 <= i < j < rows.len() ==> K::precedes(
            (#[trigger] rows[i]).0.repr(),
            (#[trigger] rows[j]).0.repr(),
        )
}

pub open spec fn row_has<K: Key, V>(rows: Seq<(K, V)>, i: int, k: K::Repr) -> bool {
    0 <= i < rows.len() && rows[i].0.repr() == k
}

/// The map that the rows list.
pub open spec fn rows_map<K: Key, V>(rows: Seq<(K, V)>) -> Map<K::Repr, V> {
    Map::new(
        |k: K::Repr| exists|i: int| row_has(rows, i, k),
        |k: K::Repr| rows[choose|i: int| row_has(rows, i, k)].1,
    )
}

/// In sorted rows the row that holds a key is the only one that does.
pub proof fn lemma_row<K: Key, V>(rows: Seq<(K, V)>, i: int)
    requires
        sorted_rows(rows),
        0 <= i < rows.len(),
    ensures
        rows_map(rows).dom().contains(rows[i].0.repr()),
        rows_map(rows)[rows[i].0.repr()] == rows[i].1,
        forall|j: int| row_has(rows, j, rows[i].0.repr()) ==> j == i,
{
    let k = rows[i].0.repr();
    assert(row_has(rows, i, k));
    assert forall|j: int| row_has(rows, j, k) implies j == i by {
        K::order_irreflexive(k);
        if j < i {
            assert(K::precedes(rows[j].0.repr(), rows[i].0.repr()));
        }
        if i < j {
            assert(K::precedes(rows[i].0.repr(), rows[j].0.repr()));
        }
    }
}

proof fn lemma_insert_row<K: Key, V>(rows: Seq<(K, V)>, at: int, k: K, v: V)
    requires
        sorted_rows(rows),
        0 <= at <= rows.len(),
        forall|i: int| 0 <= i < at ==> K::precedes((#[trigger] rows[i]).0.repr(), k.repr()),
        forall|i: int| at <= i < rows.len() ==> K::precedes(k.repr(), (#[trigger] rows[i]).0.repr()),
    ensures
        sorted_rows(rows.insert(at, (k, v))),
        !rows_map(rows).dom().contains(k.repr()),
        rows_map(rows.insert(at, (k, v))) == rows_map(rows).insert(k.repr(), v),
{
    let next = rows.insert(at, (k, v));
    assert(sorted_rows(next)) by {
        assert forall|i: int, j: int| 0 <= i < j < next.len() implies K::precedes(
            (#[trigger] next[i]).0.repr(),
            (#[trigger] next[j]).0.repr(),
        ) by {
            let a = if i < at { i } else { i - 1 };
            let b = if j < at { j } else { j - 1 };
            if i != at {
                assert(next[i] == rows[a]);
            }
            if j != at {
                assert(next[j] == rows[b]);
            }
        }
    }
    assert forall|i: int| !row_has(rows, i, k.repr()) by {
        K::order_irreflexive(k.repr());
        if row_has(rows, i, k.repr()) {
            assert(rows[i].0.repr() == k.repr());
        }
    }
    let m = rows_map(next);
    let expected = rows_map(rows).insert(k.repr(), v);
    assert(next[at] == (k, v));
    lemma_row(next, at);
    assert forall|x: K::Repr| m.dom().contains(x) == expected.dom().contains(x) by {
        if m.dom().contains(x) && x != k.repr() {
            let i = choose|i: int| row_has(next, i, x);
            assert(row_has(rows, if i < at { i } else { i - 1 }, x));
        }
        if rows_map(rows).dom().contains(x) {
            let i = choose|i: int| row_has(rows, i, x);
            assert(row_has(next, if i < at { i } else { i + 1 }, x));
        }
    }
    assert forall|x: K::Repr| m.dom().contains(x) implies m[x] == expected[x] by {
        if x != k.repr() {
            let i = choose|i: int| row_has(rows, i, x);
            let j = if i < at { i } else { i + 1 };
            assert(row_has(rows, i, x));
            assert(next[j] == rows[i]);
            lemma_row(rows, i);
            lemma_row(next, j);
        }
    }
    assert(m =~= expected);
}

proof fn lemma_remove_row<K: Key, V>(rows: Seq<(K, V)>, at: int)
    requires
        sorted_rows(rows),
        0 <= at < rows.len(),
    ensures
        sorted_rows(rows.remove(at)),
        rows_map(rows.remove(at)) == rows_map(rows).remove(rows[at].0.repr()),
{
    let next = rows.remove(at);
    let k = rows[at].0.repr();
    lemma_row(rows, at);
    assert(sorted_rows(next)) by {
        assert forall|i: int, j: int| 0 <= i < j < next.len() implies K::precedes(
            (#[trigger] next[i]).0.repr(),
            (#[trigger] next[j]).0.repr(),
        ) by {
            assert(next[i] == rows[if i < at { i } else { i + 1 }]);
            assert(next[j] == rows[if j < at { j } else { j + 1 }]);
        }
    }
    let m = rows_map(next);
    let expected = rows_map(rows).remove(k);
    assert forall|x: K::Repr| m.dom().contains(x) == expected.dom().contains(x) by {
        if m.dom().contains(x) {
            let i = choose|i: int| row_has(next, i, x);
            assert(row_has(rows, if i < at { i } else { i + 1 }, x));
        }
        if expected.dom().contains(x) {
            let i = choose|i: int| row_has(rows, i, x);
            assert(row_has(next, if i < at { i } else { i - 1 }, x));
        }
    }
    assert forall|x: K::Repr| m.dom().contains(x) implies m[x] == expected[x] by {
        let i = choose|i: int| row_has(next, i, x);
        let j = if i < at { i } else { i + 1 };
        assert(row_has(next, i, x));
        assert(next[i] == rows[j]);
        lemma_row(next, i);
        lemma_row(rows, j);
    }
    assert(m =~= expected);
}

proof fn lemma_update_row<K: Key, V>(rows: Seq<(K, V)>, at: int, k: K, v: V)
    requires
        sorted_rows(rows),
        0 <= at < rows.len(),
        k.repr() == rows[at].0.repr(),
    ensures
        sorted_rows(rows.update(at, (k, v))),
        rows_map(rows.update(at, (k, v))) == rows_map(rows).insert(k.repr(), v),
{
    let next = rows.update(at, (k, v));
    assert(sorted_rows(next)) by {
        assert forall|i: int, j: int| 0 <= i < j < next.len() implies K::precedes(
            (#[trigger] next[i]).0.repr(),
            (#[trigger] next[j]).0.repr(),
        ) by {
            assert(rows[i].0.repr() == next[i].0.repr());
            assert(rows[j].0.repr() == next[j].0.repr());
        }
    }
    let m = rows_map(next);
    let expected = rows_map(rows).insert(k.repr(), v);
    lemma_row(next, at);
    assert forall|x: K::Repr| m.dom().contains(x) == expected.dom().contains(x) by {
        if m.dom().contains(x) {
            let i = choose|i: int| row_has(next, i, x);
            assert(row_has(rows, i, x));
        }
        if rows_map(rows).dom().contains(x) {
            let i = choose|i: int| row_has(rows, i, x);
            assert(row_has(next, i, x));
        }
    }
    assert forall|x: K::Repr| m.dom().contains(x) implies m[x] == expected[x] by {
        let i = choose|i: int| row_has(next, i, x);
        assert(row_has(next, i, x));
        lemma_row(next, i);
        lemma_row(rows, i);
    }
    assert(m =~= expected);
}

/// The number of rows is the number of keys.
pub proof fn lemma_rows_len<K: Key, V>(rows: Seq<(K, V)>)
    requires
        sorted_rows(rows),
    ensures
        rows_map(rows).dom().finite(),
        rows_map(rows).dom().len() == rows.len(),
    decreases rows.len(),
{
    if rows.len() == 0 {
        assert(rows_map(rows).dom() =~= Set::empty());
    } else {
        let last = rows.len() - 1;
        lemma_remove_row(rows, last);
        lemma_rows_len(rows.remove(last));
        lemma_row(rows, last);
        let k = rows[last].0.repr();
        assert(rows_map(rows).dom() =~= rows_map(rows).dom().remove(k).insert(k));
        assert(rows_map(rows).remove(k).dom() =~= rows_map(rows).dom().remove(k));
    }
}

/// A map from keys to values whose rows are kept in key order.
pub struct SortedMap<K, V> {
    entries: Vec<(K, V)>,
}

impl<K: Key, V> View for SortedMap<K, V> {
    type V = Map<K::Repr, V>;

    closed spec fn view(&self) -> Map<K::Repr, V> {
        rows_map(self.entries@)
    }
}

impl<K: Key, V> SortedMap<K, V> {
    pub closed spec fn rows(&self) -> Seq<(K, V)> {
        self.entries@
    }

    pub closed spec fn wf(&self) -> bool {
        sorted_rows(self.entries@)
    }

    /// What the rows and the map say of each other.
    pub proof fn lemma_rows(&self)
        requires
            self.wf(),
        ensures
            sorted_rows(self.rows()),
            self@ == rows_map(self.rows()),
            self@.dom().finite(),
            self@.dom().len() == self.rows().len(),
            forall|i: int|
                0 <= i < self.rows().len() ==> self@.dom().contains(
                    (#[trigger] self.rows()[i]).0.repr(),
                ) && self@[self.rows()[i].0.repr()] == self.rows()[i].1,
            forall|k: K::Repr| #[trigger]
                self@.dom().contains(k) ==> exists|i: int| #[trigger] row_has(self.rows(), i, k),
    {
        lemma_rows_len(self.rows());
        assert forall|i: int| 0 <= i < self.rows().len() implies self@.dom().contains(
            (#[trigger] self.rows()[i]).0.repr(),
        ) && self@[self.rows()[i].0.repr()] == self.rows()[i].1 by {
            lemma_row(self.rows(), i);
        }
    }

    pub fn new() -> (r: Self)
        ensures
            r.wf(),
            r@ == Map::<K::Repr, V>::empty(),
            r.rows() == Seq::<(K, V)>::empty(),
    {
        let r = SortedMap { entries: Vec::new() };
        assert(r@ =~= Map::<K::Repr, V>::empty());
        r
    }

    pub fn len(&self) -> (r: usize)
        ensures
            r == self.rows().len(),
    {
        self.entries.len()
    }

    pub fn key_at(&self, i: usize) -> (r: &K)
        requires
            i < self.rows().len(),
        ensures
            *r == self.rows()[i as int].0,
    {
        &self.entries[i].0
    }

    pub fn value_at(&self, i: usize) -> (r: &V)
        requires
            i < self.rows().len(),
        ensures
            *r == self.rows()[i as int].1,
    {
        &self.entries[i].1
    }

    /// The row of `key`, or where a row for it belongs.
    fn search(&self, key: &K) -> (r: Result<usize, usize>)
        requires
            self.wf(),
        ensures
            match r {
                Ok(i) => row_has(self.rows(), i as int, key.repr()),
                Err(i) => {
                    &&& i <= self.rows().len()
                    &&& !self@.dom().contains(key.repr())
                    &&& forall|j: int|
                        0 <= j < i ==> K::precedes((#[trigger] self.rows()[j]).0.repr(), key.repr())
                    &&& forall|j: int|
                        i <= j < self.rows().len() ==> K::precedes(
                            key.repr(),
                            (#[trigger] self.rows()[j]).0.repr(),
                        )
                },
            },
    {
        let mut i: usize = 0;
        while i < self.entries.len() && self.entries[i].0.is_before(key)
            invariant
                i <= self.entries.len(),
                forall|j: int|
                    0 <= j < i ==> K::precedes((#[trigger] self.entries@[j]).0.repr(), key.repr()),
            decreases self.entries.len() - i,
        {
            i += 1;
        }
        let ghost k = key.repr();
        if i < self.entries.len() && !key.is_before(&self.entries[i].0) {
            proof {
                K::order_total(self.entries@[i as int].0.repr(), k);
            }
            return Ok(i);
        }
        proof {
            assert forall|j: int| i <= j < self.rows().len() implies K::precedes(
                k,
                (#[trigger] self.rows()[j]).0.repr(),
            ) by {
                if j > i {
                    K::order_transitive(
                        k,
                        self.rows()[i as int].0.repr(),
                        self.rows()[j].0.repr(),
                    );
                }
            }
            assert forall|j: int| !row_has(self.rows(), j, k) by {
                K::order_irreflexive(k);
                if row_has(self.rows(), j, k) {
                    assert(self.rows()[j].0.repr() == k);
                }
            }
        }
        Err(i)
    }

    /// The row that holds `key`.
    pub fn position(&self, key: &K) -> (r: Option<usize>)
        requires
            self.wf(),
        ensures
            match r {
                Some(i) => row_has(self.rows(), i as int, key.repr()) && self@.dom().contains(
                    key.repr(),
                ) && self@[key.repr()] == self.rows()[i as int].1,
                None => !self@.dom().contains(key.repr()),
            },
    {
        match self.search(key) {
            Ok(i) => {
                proof {
                    lemma_row(self.entries@, i as int);
                }
                Some(i)
            },
            Err(_) => None,
        }
    }

    pub fn contains_key(&self, key: &K) -> (r: bool)
        requires
            self.wf(),
        ensures
            r == self@.dom().contains(key.repr()),
    {
        self.position(key).is_some()
    }

    pub fn get(&self, key: &K) -> (r: Option<&V>)
        requires
            self.wf(),
        ensures
            match r {
                Some(v) => self@.dom().contains(key.repr()) && *v == self@[key.repr()],
                None => !self@.dom().contains(key.repr()),
            },
    {
        match self.position(key) {
            Some(i) => Some(&self.entries[i].1),
            None => None,
        }
    }

    /// Binds `key` to `value`; the value it replaces comes back.
    pub fn insert(&mut self, key: K, value: V) -> (r: Option<V>)
        requires
            old(self).wf(),
        ensures
            final(self).wf(),
            final(self)@ == old(self)@.insert(key.repr(), value),
            r == (if old(self)@.dom().contains(key.repr()) {
                Some(old(self)@[key.repr()])
            } else {
                None
            }),
    {
        match self.search(&key) {
            Ok(i) => {
                proof {
                    lemma_row(self.entries@, i as int);
                    lemma_update_row(self.entries@, i as int, key, value);
                }
                let mut row = (key, value);
                core::mem::swap(&mut self.entries[i], &mut row);
                Some(row.1)
            },
            Err(i) => {
                proof {
                    lemma_insert_row(self.entries@, i as int, key, value);
                }
                self.entries.insert(i, (key, value));
                None
            },
        }
    }

    /// Takes row `i` out.
    pub fn remove_at(&mut self, i: usize) -> (r: (K, V))
        requires
            old(self).wf(),
            i < old(self).rows().len(),
        ensures
            final(self).wf(),
            final(self).rows() == old(self).rows().remove(i as int),
            r == old(self).rows()[i as int],
            final(self)@ == old(self)@.remove(r.0.repr()),
    {
        proof {
            lemma_remove_row(self.entries@, i as int);
        }
        self.entries.remove(i)
    }

    /// Unbinds `key`; the value it had comes back.
    pub fn remove(&mut self, key: &K) -> (r: Option<V>)
        requires
            old(self).wf(),
        ensures
            final(self).wf(),
            final(self)@ == old(self)@.remove(key.repr()),
            r == (if old(self)@.dom().contains(key.repr()) {
                Some(old(self)@[key.repr()])
            } else {
                None
            }),
    {
        match self.position(key) {
            Some(i) => Some(self.remove_at(i).1),
            None => {
                assert(self@ =~= self@.remove(key.repr()));
                None
            },
        }
    }

    /// Gives row `i` another value.
    pub fn set_at(&mut self, i: usize, value: V) -> (r: V)
        requires
            old(self).wf(),
            i < old(self).rows().len(),
        ensures
            final(self).wf(),
            final(self).rows() == old(self).rows().update(
                i as int,
                (old(self).rows()[i as int].0, value),
            ),
            final(self)@ == old(self)@.insert(old(self).rows()[i as int].0.repr(), value),
            r == old(self).rows()[i as int].1,
    {
        proof {
            lemma_update_row(self.entries@, i as int, self.entries@[i as int].0, value);
        }
        let mut slot = value;
        core::mem::swap(&mut self.entries[i].1, &mut slot);
        slot
    }
}


/// Texts are in the order of their characters, numbers in their own, and pairs in that
/// of their first parts and then of their second ones.
pub proof fn law_keys_have_their_usual_order(
    a: Seq<char>,
    b: Seq<char>,
    m: u64,
    n: u64,
    k: int,
)
    requires
        0 <= k < a.len(),
        k < b.len(),
        forall|i: int| 0 <= i < k ==> (#[trigger] a[i]) == b[i],
        a[k] < b[k],
    ensures
        String::precedes(a, b),
        !String::precedes(b, a),
        u64::precedes(m, n) == (m < n),
        <(String, u64)>::precedes((a, m), (b, n)),
        <(String, u64)>::precedes((a, m), (a, n)) == (m < n),
        <(String, String)>::precedes((a, b), (b, a)),
        <(String, String)>::precedes((b, a), (b, b)),
{
    crate::text::law_order_goes_by_the_first_difference(a, b, k);
    crate::text::lemma_text_before_irreflexive(a);
    if String::precedes(b, a) {
        crate::text::lemma_text_before_transitive(a, b, a);
    }
}

} // verus!
