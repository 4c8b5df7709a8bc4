//! A table from texts to small values. No text has two entries.

use vstd::prelude::*;

use crate::text::{copy, same};

verus! {

/// A table whose keys are texts.
pub struct Table<V> {
    keys: Vec<String>,
    values: Vec<V>,
}

spec fn entry_of(keys: Seq<String>, k: Seq<char>) -> int {
    choose|i: int| 0 <= i < keys.len() && (#[trigger] keys[i])@ == k
}

spec fn has_key(keys: Seq<String>, k: Seq<char>) -> bool {
    exists|i: int| 0 <= i < keys.len() && (#[trigger] keys[i])@ == k
}

spec fn distinct(keys: Seq<String>) -> bool {
    forall|i: int, j: int|
        0 <= i < j < keys.len() ==> (#[trigger] keys[i])@ != (#[trigger] keys[j])@
}

spec fn contents<V>(keys: Seq<String>, values: Seq<V>) -> Map<Seq<char>, V> {
    Map::new(|k: Seq<char>| has_key(keys, k), |k: Seq<char>| values[entry_of(keys, k)])
}

impl<V> View for Table<V> {
    type V = Map<Seq<char>, V>;

    closed spec fn view(&self) -> Map<Seq<char>, V> {
        contents(self.keys@, self.values@)
    }
}

proof fn entry_is(keys: Seq<String>, i: int)
    requires
        distinct(keys),
        0 <= i < keys.len(),
    ensures
        entry_of(keys, keys[i]@) == i,
        has_key(keys, keys[i]@),
{
    let j = entry_of(keys, keys[i]@);
    assert(keys[i]@ == keys[i]@);
    assert(0 <= j < keys.len() && keys[j]@ == keys[i]@);
    if i < j {
        assert(keys[i]@ != keys[j]@);
    } else if j < i {
        assert(keys[j]@ != keys[i]@);
    }
}

impl<V> Table<V> {
    #[verifier::type_invariant]
    spec fn well_formed(self) -> bool {
        self.keys@.len() == self.values@.len() && distinct(self.keys@)
    }

    /// A table without entries.
    pub fn new() -> (r: Self)
        ensures
            r@ == Map::<Seq<char>, V>::empty(),
    {
        let r = Table { keys: Vec::new(), values: Vec::new() };
        assert(r@ =~= Map::<Seq<char>, V>::empty());
        r
    }

    fn position(&self, key: &str) -> (r: usize)
        ensures
            r <= self.keys@.len(),
            r < self.keys@.len() ==> self.keys@[r as int]@ == key@ && self@.contains_key(key@)
                && self@[key@] == self.values@[r as int],
            r == self.keys@.len() ==> !self@.contains_key(key@),
            self.keys@.len() == self.values@.len(),
    {
        proof {
            use_type_invariant(self);
        }
        let mut i: usize = 0;
        while i < self.keys.len()
            invariant
                i <= self.keys@.len(),
                self.keys@.len() == self.values@.len(),
                distinct(self.keys@),
                forall|j: int| 0 <= j < i ==> (#[trigger] self.keys@[j])@ != key@,
            decreases self.keys@.len() - i,
        {
            if same(self.keys[i].as_str(), key) {
                proof {
                    entry_is(self.keys@, i as int);
                }
                return i;
            }
            i = i + 1;
        }
        i
    }

    /// The value of a key, if it has one.
    pub fn get(&self, key: &str) -> (r: Option<&V>)
        ensures
            r == (if self@.contains_key(key@) { Some(&self@[key@]) } else { None }),
    {
        let i: usize = self.position(key);
        if i < self.keys.len() {
            Some(&self.values[i])
        } else {
            None
        }
    }

    /// Whether a key has a value.
    pub fn has(&self, key: &str) -> (r: bool)
        ensures
            r == self@.contains_key(key@),
    {
        let i: usize = self.position(key);
        i < self.keys.len()
    }

    /// Gives a key a value, in place of the one it may have.
    pub fn set(&mut self, key: &str, value: V)
        ensures
            final(self)@ == old(self)@.insert(key@, value),
    {
        proof {
            use_type_invariant(&*self);
        }
        let ghost before = *self;
        let i: usize = self.position(key);
        let n: usize = self.keys.len();
        let mut taken = Table::new();
        std::mem::swap(&mut taken, self);
        let Table { mut keys, mut values } = taken;
        if i < n {
            values.set(i, value);
            proof {
                assert forall|k: Seq<char>| has_key(keys@, k) && k != key@ implies #[trigger] entry_of(
                    keys@,
                    k,
                ) != i by {
                    let j = entry_of(keys@, k);
                    assert(keys@[j]@ == k);
                }
                entry_is(keys@, i as int);
                assert(contents(keys@, values@) =~= before@.insert(key@, value));
            }
        } else {
            keys.push(copy(key));
            values.push(value);
            proof {
                let old_keys = before.keys@;
                assert(keys@ =~= old_keys.push(keys@[n as int]));
                assert forall|j: int| 0 <= j < n implies (#[trigger] keys@[j])@ != key@ by {
                    assert(keys@[j] == old_keys[j]);
                    if old_keys[j]@ == key@ {
                        assert(has_key(old_keys, key@));
                        assert(before@.contains_key(key@));
                    }
                }
                assert(distinct(keys@)) by {
                    assert forall|a: int, b: int| 0 <= a < b < keys@.len() implies (
                    #[trigger] keys@[a])@ != (#[trigger] keys@[b])@ by {
                        if b < n {
                            assert(keys@[a] == old_keys[a] && keys@[b] == old_keys[b]);
                        }
                    }
                }
                assert forall|k: Seq<char>| has_key(keys@, k) == (has_key(old_keys, k) || k == key@) by {
                    if has_key(old_keys, k) {
                        let j = entry_of(old_keys, k);
                        assert(keys@[j]@ == k);
                    }
                    if has_key(keys@, k) {
                        let j = entry_of(keys@, k);
                        assert(keys@[j]@ == k);
                        if j < n {
                            assert(old_keys[j]@ == k);
                        }
                    }
                    assert(keys@[n as int]@ == key@);
                }
                entry_is(keys@, n as int);
                assert forall|k: Seq<char>| has_key(old_keys, k) implies #[trigger] entry_of(
                    keys@,
                    k,
                ) == entry_of(old_keys, k) && k != key@ by {
                    let j = entry_of(old_keys, k);
                    assert(old_keys[j]@ == k);
                    assert(keys@[j] == old_keys[j]);
                    entry_is(keys@, j);
                }
                assert(contents(keys@, values@) =~= before@.insert(key@, value));
            }
        }
        *self = Table { keys, values };
    }

    /// Takes a key and its value out of the table.
    pub fn remove(&mut self, key: &str)
        ensures
            final(self)@ == old(self)@.remove(key@),
    {
        proof {
            use_type_invariant(&*self);
        }
        let ghost before = *self;
        let i: usize = self.position(key);
        if i == self.keys.len() {
            assert(self@.remove(key@) =~= self@);
            return;
        }
        let mut taken = Table::new();
        std::mem::swap(&mut taken, self);
        let Table { mut keys, mut values } = taken;
        keys.remove(i);
        values.remove(i);
        proof {
            let old_keys = before.keys@;
            assert(keys@ == old_keys.remove(i as int));
            assert(distinct(keys@)) by {
                assert forall|a: int, b: int| 0 <= a < b < keys@.len() implies (
                #[trigger] keys@[a])@ != (#[trigger] keys@[b])@ by {
                    let x = if a < i { a } else { a + 1 };
                    let y = if b < i { b } else { b + 1 };
                    assert(keys@[a] == old_keys[x] && keys@[b] == old_keys[y]);
                }
            }
            assert forall|k: Seq<char>| has_key(keys@, k) == (has_key(old_keys, k) && k != key@) by {
                if has_key(keys@, k) {
                    let a = entry_of(keys@, k);
                    let x = if a < i { a } else { a + 1 };
                    assert(keys@[a]@ == k && keys@[a] == old_keys[x]);
                    assert(old_keys[x]@ == k);
                    assert(old_keys[i as int]@ == key@);
                }
                if has_key(old_keys, k) && k != key@ {
                    let x = entry_of(old_keys, k);
                    assert(old_keys[x]@ == k);
                    let a = if x < i { x } else { x - 1 };
                    assert(keys@[a] == old_keys[x]);
                }
            }
            assert forall|k: Seq<char>| has_key(keys@, k) implies values@[#[trigger] entry_of(keys@, k)]
                == before.values@[entry_of(old_keys, k)] by {
                let x = entry_of(old_keys, k);
                assert(has_key(old_keys, k));
                assert(old_keys[x]@ == k);
                let a = if x < i { x } else { x - 1 };
                assert(keys@[a] == old_keys[x]);
                entry_is(keys@, a);
            }
            assert(contents(keys@, values@) =~= before@.remove(key@));
        }
        *self = Table { keys, values };
    }
}

/// The value of a key, or `otherwise` if it has none.
pub open spec fn value_or<V>(m: Map<Seq<char>, V>, k: Seq<char>, otherwise: V) -> V {
    if m.contains_key(k) {
        m[k]
    } else {
        otherwise
    }
}

impl<V: Copy> Table<V> {
    /// The value of a key, or `otherwise` if it has none.
    pub fn get_or(&self, key: &str, otherwise: V) -> (r: V)
        ensures
            r == value_or(self@, key@, otherwise),
    {
        match self.get(key) {
            Some(v) => *v,
            None => otherwise,
        }
    }
}

/// The sum of all values of a table.
pub open spec fn sum_of(m: Map<Seq<char>, u32>) -> int
    decreases m.dom().len(),
{
    if m.dom().finite() && m.dom().len() > 0 {
        let k = m.dom().choose();
        m[k] + sum_of(m.remove(k))
    } else {
        0
    }
}

/// The sum of a table is one of its values and the sum of the rest.
pub proof fn sum_splits(m: Map<Seq<char>, u32>, k: Seq<char>)
    requires
        m.dom().finite(),
        m.contains_key(k),
    ensures
        sum_of(m) == m[k] + sum_of(m.remove(k)),
    decreases m.dom().len(),
{
    assert(m.dom().contains(k));
    assert(m.dom().len() > 0) by {
        if m.dom().len() == 0 {
            assert(m.dom() =~= Set::empty());
        }
    }
    let c = m.dom().choose();
    assert(m.dom().contains(c)) by {
        assert(exists|x: Seq<char>| m.dom().contains(x));
    }
    if c != k {
        let without_c = m.remove(c);
        let without_k = m.remove(k);
        assert(without_c.dom() =~= m.dom().remove(c));
        assert(without_k.dom() =~= m.dom().remove(k));
        sum_splits(without_c, k);
        sum_splits(without_k, c);
        assert(without_c.remove(k) =~= without_k.remove(c));
    }
}

impl Table<u32> {
    /// Sums up the values.
    pub fn total(&self) -> (r: u32)
        requires
            sum_of(self@) <= u32::MAX,
        ensures
            r == sum_of(self@),
    {
        self.checked_total().unwrap()
    }

    /// Sums up the values, unless the sum is too large.
    pub fn checked_total(&self) -> (r: Option<u32>)
        ensures
            r is Some <==> sum_of(self@) <= u32::MAX,
            r matches Some(n) ==> n == sum_of(self@),
    {
        proof {
            use_type_invariant(self);
            domain_is_finite(self.keys@);
        }
        let mut sum: u32 = 0;
        let mut i: usize = 0;
        let ghost rest = self@;
        while i < self.keys.len()
            invariant
                i <= self.keys@.len(),
                self.keys@.len() == self.values@.len(),
                distinct(self.keys@),
                rest.dom().finite(),
                forall|k: Seq<char>|
                    rest.contains_key(k) <==> (has_key(self.keys@, k) && entry_of(self.keys@, k)
                        >= i),
                forall|k: Seq<char>| #[trigger] rest.contains_key(k) ==> rest[k] == self@[k],
                sum + sum_of(rest) == sum_of(self@),
            decreases self.keys@.len() - i,
        {
            let ghost key = self.keys@[i as int]@;
            let ghost next = rest.remove(key);
            proof {
                entry_is(self.keys@, i as int);
                assert(rest.contains_key(key));
                sum_splits(rest, key);
                sum_is_natural(next);
                assert forall|k: Seq<char>|
                    next.contains_key(k) <==> (has_key(self.keys@, k) && entry_of(self.keys@, k)
                        >= i + 1) by {
                    if has_key(self.keys@, k) && k != key {
                        let e = entry_of(self.keys@, k);
                        assert(self.keys@[e]@ == k);
                    }
                }
                assert(next.dom() =~= rest.dom().remove(key));
            }
            match sum.checked_add(self.values[i]) {
                Some(n) => {
                    sum = n;
                },
                None => {
                    return None;
                },
            }
            proof {
                rest = next;
            }
            i = i + 1;
        }
        proof {
            assert forall|k: Seq<char>| !rest.contains_key(k) by {
                if rest.contains_key(k) {
                    let e = entry_of(self.keys@, k);
                    assert(self.keys@[e]@ == k);
                }
            }
            assert(rest.dom() =~= Set::empty());
        }
        Some(sum)
    }
}

proof fn sum_is_natural(m: Map<Seq<char>, u32>)
    ensures
        sum_of(m) >= 0,
    decreases m.dom().len(),
{
    if m.dom().finite() && m.dom().len() > 0 {
        let k = m.dom().choose();
        assert(m.dom().contains(k)) by {
            if forall|x: Seq<char>| !m.dom().contains(x) {
                assert(m.dom() =~= Set::empty());
            }
        }
        assert(m.remove(k).dom() =~= m.dom().remove(k));
        sum_is_natural(m.remove(k));
    }
}

proof fn domain_is_finite(keys: Seq<String>)
    ensures
        Set::new(|k: Seq<char>| has_key(keys, k)).finite(),
    decreases keys.len(),
{
    let all = Set::new(|k: Seq<char>| has_key(keys, k));
    if keys.len() == 0 {
        assert(all =~= Set::empty());
    } else {
        let head = keys.drop_last();
        domain_is_finite(head);
        let fewer = Set::new(|k: Seq<char>| has_key(head, k));
        assert forall|k: Seq<char>| all.contains(k) == fewer.insert(keys.last()@).contains(k) by {
            if has_key(keys, k) {
                let i = entry_of(keys, k);
                assert(keys[i]@ == k);
                if i < head.len() {
                    assert(head[i]@ == k);
                }
            }
            if has_key(head, k) {
                let i = entry_of(head, k);
                assert(head[i]@ == k);
                assert(keys[i]@ == k);
            }
            assert(keys[keys.len() - 1]@ == keys.last()@);
        }
        assert(all =~= fewer.insert(keys.last()@));
    }
}

/// A key that has a value has that value, and one that has none has what is taken instead.
pub proof fn values_are_those_set<V>(m: Map<Seq<char>, V>, k: Seq<char>, v: V, otherwise: V)
    ensures
        value_or(m.insert(k, v), k, otherwise) == v,
        value_or(m.remove(k), k, otherwise) == otherwise,
        m.contains_key(k) ==> value_or(m, k, otherwise) == m[k],
        !m.contains_key(k) ==> value_or(m, k, otherwise) == otherwise,
{
}

/// The sum of no values is zero, and a value that is set counts in place of the one there was.
pub proof fn sum_counts_each_value(m: Map<Seq<char>, u32>, k: Seq<char>, v: u32)
    requires
        m.dom().finite(),
    ensures
        sum_of(Map::empty()) == 0,
        sum_of(m.insert(k, v)) == sum_of(m) - value_or(m, k, 0) + v,
        sum_of(m.remove(k)) == sum_of(m) - value_or(m, k, 0),
{
    let more = m.insert(k, v);
    sum_splits(more, k);
    assert(more.remove(k) =~= m.remove(k));
    if m.contains_key(k) {
        sum_splits(m, k);
    } else {
        assert(m.remove(k) =~= m);
    }
    assert(Map::<Seq<char>, u32>::empty().dom() =~= Set::<Seq<char>>::empty());
}

} // verus!
