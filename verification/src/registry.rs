//! A keyed table whose keys come from a slab free list.
//!
//! The slab decides which key is handed out next and which keys are taken. It
//! holds no values: what a slab holds can be named for one type of value only,
//! and the tables here hold tasks, cells, sources and workers alike. So the
//! rows live beside the slab, indexed by key.

use slab::Slab;
use vstd::prelude::*;

verus! {

/// The slab of the `slab` crate. Its inside is hidden; `slab_keys` and
/// `slab_vacant` name what it holds, and the contracts of the four functions
/// that follow are believed, not proved.
#[verifier::external_type_specification]
#[verifier::external_body]
#[verifier::reject_recursive_types(T)]
pub struct ExSlab<T>(Slab<T>);

/// The keys that are taken in a slab.
pub uninterp spec fn slab_keys(s: Slab<()>) -> Set<usize>;

/// The keys that a slab will hand out, in this order, for as long as none is
/// freed: first those that were freed, the one freed last first, and at the
/// end the lowest key that was never used. This is the slab's list of vacant
/// entries, from the key it keeps as the next one along the links between
/// the vacant entries to the number of its entries.
pub uninterp spec fn slab_vacant(s: Slab<()>) -> Seq<usize>;

/// The vacant keys once the first of them has been handed out. Behind the
/// lowest key that was never used comes the one above it.
pub open spec fn handed_out(vacant: Seq<usize>) -> Seq<usize> {
    if vacant.len() == 1 {
        seq![(vacant[0] + 1) as usize]
    } else {
        vacant.drop_first()
    }
}

/// Largest number of slots that a table reserves ahead of use.
pub const MAX_RESERVE: usize = 65536;

/// `Slab::with_capacity`: an empty slab, of which no key was ever used, so
/// that its first key is 0. The bound keeps the reservation far below the
/// size at which the allocation is refused.
#[verifier::external_body]
fn slab_with_capacity(capacity: usize) -> (s: Slab<()>)
    requires
        capacity <= MAX_RESERVE,
    ensures
        slab_keys(s) == Set::<usize>::empty(),
        slab_vacant(s) == seq![0usize],
{
    Slab::with_capacity(capacity)
}

/// `Slab::vacant_key`: the key that the next insertion will use, which is
/// the first of the vacant keys. It is not taken.
#[verifier::external_body]
fn slab_vacant_key(s: &Slab<()>) -> (key: usize)
    ensures
        slab_vacant(*s) == seq![key] + slab_vacant(*s).drop_first(),
        !slab_keys(*s).contains(key),
{
    s.vacant_key()
}

/// `Slab::insert`: takes the first vacant key and returns it; every other
/// key stays as it was. The key that comes next is the one that was freed
/// before it, or, where the key was never used before, the one above it. Like
/// `Vec::push`, on which it rests, it is taken never to run out of room.
#[verifier::external_body]
fn slab_insert(s: &mut Slab<()>) -> (key: usize)
    ensures
        slab_vacant(*old(s)) == seq![key] + slab_vacant(*old(s)).drop_first(),
        !slab_keys(*old(s)).contains(key),
        slab_keys(*final(s)) == slab_keys(*old(s)).insert(key),
        slab_vacant(*final(s)) == handed_out(slab_vacant(*old(s))),
{
    s.insert(())
}

/// `Slab::try_remove`: frees `key` if it was taken and says whether it was. A
/// freed key is the next one handed out, before those that were vacant; on a
/// miss nothing changes.
#[verifier::external_body]
fn slab_try_remove(s: &mut Slab<()>, key: usize) -> (found: Option<()>)
    ensures
        found.is_some() == slab_keys(*old(s)).contains(key),
        slab_keys(*final(s)) == slab_keys(*old(s)).remove(key),
        slab_vacant(*final(s)) == (if found.is_some() {
            seq![key] + slab_vacant(*old(s))
        } else {
            slab_vacant(*old(s))
        }),
{
    s.try_remove(key)
}

/// Whether the row at `k` exists and holds a value.
pub open spec fn filled<T>(rows: Seq<Option<T>>, k: usize) -> bool {
    k < rows.len() && rows[k as int].is_some()
}

/// The keys of the filled rows.
pub open spec fn taken<T>(rows: Seq<Option<T>>) -> Set<usize> {
    Set::new(|k: usize| filled(rows, k))
}

/// Whether the slab, the rows and the count say the same.
spec fn agree<T>(keys: Slab<()>, rows: Seq<Option<T>>, len: usize) -> bool {
    &&& forall|k: usize|
        #![trigger slab_keys(keys).contains(k)]
        #![trigger filled(rows, k)]
        slab_keys(keys).contains(k) <==> filled(rows, k)
    &&& len == taken(rows).len()
    &&& rows.len() <= usize::MAX
    &&& slab_vacant(keys).len() >= 1
}

/// A table of values under keys that are reused once freed.
pub struct Registry<T> {
    keys: Slab<()>,
    rows: Vec<Option<T>>,
    len: usize,
}

impl<T> View for Registry<T> {
    type V = Map<usize, T>;

    closed spec fn view(&self) -> Map<usize, T> {
        Map::new(|k: usize| filled(self.rows@, k), |k: usize| self.rows[k as int].unwrap())
    }
}

impl<T> Registry<T> {
    /// The rows agree with the slab: a key is taken exactly where a row holds a
    /// value.
    pub closed spec fn wf(&self) -> bool {
        agree(self.keys, self.rows@, self.len)
    }

    /// The keys under which the next values will be stored, in this order,
    /// for as long as none is removed: first the keys that were freed, the one
    /// freed last first, and at the end the lowest key that was never used.
    pub closed spec fn vacant(&self) -> Seq<usize> {
        slab_vacant(self.keys)
    }

    /// The key under which the next value will be stored.
    pub open spec fn next_key(&self) -> usize {
        self.vacant()[0]
    }

    /// There is always a key to go on with.
    pub proof fn lemma_vacant(&self)
        requires
            self.wf(),
        ensures
            self.vacant().len() >= 1,
    {
    }

    /// One more than the largest key ever used: every key is below it.
    pub closed spec fn bound(&self) -> usize {
        self.rows.len()
    }

    /// Every key that holds a value lies below `bound`, so there are finitely
    /// many of them.
    pub proof fn lemma_keys_bounded(&self)
        requires
            self.wf(),
        ensures
            forall|k: usize| self@.contains_key(k) ==> k < self.bound(),
            self@.dom().finite(),
            self@.dom().len() <= self.bound(),
    {
        assert(self.rows@.len() == self.rows.len());
        lemma_filled_bounded(self.rows@);
        assert(self@.dom() =~= taken(self.rows@));
    }

    /// An empty table with room reserved for `capacity` rows (at most
    /// `MAX_RESERVE` are reserved ahead).
    pub fn with_capacity(capacity: usize) -> (r: Self)
        ensures
            r.wf(),
            r@ == Map::<usize, T>::empty(),
            r.vacant() == seq![0usize],
            r.bound() == 0,
    {
        let cap = if capacity <= MAX_RESERVE { capacity } else { MAX_RESERVE };
        let r = Registry { keys: slab_with_capacity(cap), rows: Vec::with_capacity(cap), len: 0 };
        assert(r@ =~= Map::<usize, T>::empty());
        assert(taken(r.rows@) =~= Set::<usize>::empty());
        r
    }

    /// An empty table.
    pub fn new() -> (r: Self)
        ensures
            r.wf(),
            r@ == Map::<usize, T>::empty(),
            r.vacant() == seq![0usize],
            r.bound() == 0,
    {
        Self::with_capacity(0)
    }

    /// The key that the next `insert` will use.
    pub fn vacant_key(&self) -> (key: usize)
        requires
            self.wf(),
        ensures
            key == self.next_key(),
            !self@.contains_key(key),
    {
        let key = slab_vacant_key(&self.keys);
        assert(!filled(self.rows@, key));
        key
    }

    /// Whether `key` holds a value.
    pub fn contains(&self, key: usize) -> (b: bool)
        ensures
            b == self@.contains_key(key),
    {
        key < self.rows.len() && self.rows[key].is_some()
    }

    /// The number of values held.
    pub fn len(&self) -> (n: usize)
        requires
            self.wf(),
        ensures
            n == self@.dom().len(),
    {
        assert(self@.dom() =~= taken(self.rows@));
        self.len
    }

    /// Whether no value is held.
    pub fn is_empty(&self) -> (b: bool)
        requires
            self.wf(),
        ensures
            b == (self@ == Map::<usize, T>::empty()),
    {
        proof {
            self.lemma_keys_bounded();
            assert(self@.dom() =~= taken(self.rows@));
            if self@.dom().len() == 0 {
                assert(self@ =~= Map::<usize, T>::empty());
            }
        }
        self.len == 0
    }

    /// The number of slots to scan in order to see every key.
    pub fn slots(&self) -> (n: usize)
        ensures
            n == self.bound(),
    {
        self.rows.len()
    }

    /// Stores `val` under the vacant key and returns that key.
    pub fn insert(&mut self, val: T) -> (key: usize)
        requires
            old(self).wf(),
        ensures
            final(self).wf(),
            key == old(self).next_key(),
            key < usize::MAX,
            !old(self)@.contains_key(key),
            final(self)@ == old(self)@.insert(key, val),
            final(self).vacant() == handed_out(old(self).vacant()),
            final(self).bound() == (if key < old(self).bound() {
                old(self).bound()
            } else {
                (key + 1) as usize
            }),
    {
        let key = slab_insert(&mut self.keys);
        assert(!filled(old(self).rows@, key));
        if key < self.rows.len() {
            self.rows[key] = Some(val);
        } else {
            while self.rows.len() < key
                invariant
                    old(self).rows@.len() <= self.rows@.len() <= key,
                    forall|k: int|
                        0 <= k < old(self).rows@.len() ==> self.rows@[k] == old(self).rows@[k],
                    forall|k: int|
                        old(self).rows@.len() <= k < self.rows@.len() ==> self.rows@[k].is_none(),
                    slab_keys(self.keys) == slab_keys(old(self).keys).insert(key),
                    slab_vacant(self.keys) == handed_out(slab_vacant(old(self).keys)),
                    self.len == old(self).len,
                decreases key - self.rows.len(),
            {
                self.rows.push(None);
            }
            self.rows.push(Some(val));
        }
        assert forall|k: usize|
            #![trigger slab_keys(self.keys).contains(k)]
            #![trigger filled(self.rows@, k)]
            slab_keys(self.keys).contains(k) <==> filled(self.rows@, k) by {
            if k != key {
                assert(filled(self.rows@, k) == filled(old(self).rows@, k));
            }
        }
        assert(self@ =~= old(self)@.insert(key, val));
        proof {
            assert(self.rows@.len() == self.rows.len());
            lemma_filled_bounded(old(self).rows@);
            lemma_filled_bounded(self.rows@);
            assert(taken(self.rows@) =~= taken(old(self).rows@).insert(key));
            assert(!taken(old(self).rows@).contains(key));
            assert(taken(self.rows@).len() == taken(old(self).rows@).len() + 1);
        }
        self.len = self.len + 1;
        key
    }

    /// The value under `key`, if there is one.
    pub fn get(&self, key: usize) -> (r: Option<&T>)
        ensures
            r.is_some() == self@.contains_key(key),
            r matches Some(v) ==> *v == self@[key],
    {
        if key < self.rows.len() {
            self.rows[key].as_ref()
        } else {
            None
        }
    }

    /// The value under `key`, to be changed in place.
    pub fn get_mut(&mut self, key: usize) -> (r: Option<&mut T>)
        requires
            old(self).wf(),
        ensures
            final(self).wf(),
            r.is_some() == old(self)@.contains_key(key),
            match r {
                Some(v) => *v == old(self)@[key] && final(self)@ == old(self)@.insert(
                    key,
                    *final(v),
                ),
                None => final(self)@ == old(self)@,
            },
            final(self).vacant() == old(self).vacant(),
            final(self).bound() == old(self).bound(),
    {
        if key < self.rows.len() && self.rows[key].is_some() {
            proof {
                let rows = self.rows@;
                assert forall|x: T| #[trigger]
                    agree(self.keys, rows.update(key as int, Some(x)), self.len) by {
                    let changed = rows.update(key as int, Some(x));
                    assert(taken(changed) =~= taken(rows));
                    assert forall|k: usize|
                        #![trigger slab_keys(self.keys).contains(k)]
                        #![trigger filled(changed, k)]
                        slab_keys(self.keys).contains(k) <==> filled(changed, k) by {
                        assert(filled(changed, k) == filled(rows, k));
                    }
                }
            }
            self.rows[key].as_mut()
        } else {
            None
        }
    }

    /// Takes the value under `key` out, if there is one, and frees the key.
    pub fn remove(&mut self, key: usize) -> (r: Option<T>)
        requires
            old(self).wf(),
        ensures
            final(self).wf(),
            r.is_some() == old(self)@.contains_key(key),
            r matches Some(v) ==> v == old(self)@[key],
            final(self)@ == old(self)@.remove(key),
            final(self).vacant() == (if r.is_some() {
                seq![key] + old(self).vacant()
            } else {
                old(self).vacant()
            }),
            final(self).bound() == old(self).bound(),
    {
        let found = slab_try_remove(&mut self.keys, key).is_some();
        assert(found == filled(old(self).rows@, key));
        let r = if found {
            self.rows[key].take()
        } else {
            None
        };
        assert forall|k: usize|
            #![trigger slab_keys(self.keys).contains(k)]
            #![trigger filled(self.rows@, k)]
            slab_keys(self.keys).contains(k) <==> filled(self.rows@, k) by {
            if k != key {
                assert(filled(self.rows@, k) == filled(old(self).rows@, k));
            }
        }
        assert(self@ =~= old(self)@.remove(key));
        proof {
            lemma_filled_bounded(old(self).rows@);
            assert(taken(self.rows@) =~= taken(old(self).rows@).remove(key));
        }
        if found {
            self.len = self.len - 1;
        }
        r
    }
}

/// The keys below `n` are `n` in number.
proof fn lemma_below_finite(n: usize)
    ensures
        Set::new(|k: usize| k < n).finite(),
        Set::new(|k: usize| k < n).len() == n,
    decreases n,
{
    let s = Set::new(|k: usize| k < n);
    if n == 0 {
        assert(s =~= Set::<usize>::empty());
    } else {
        let m = (n - 1) as usize;
        lemma_below_finite(m);
        assert(s =~= Set::new(|k: usize| k < m).insert(m));
    }
}

/// The filled rows are finitely many, and no more than there are rows.
proof fn lemma_filled_bounded<T>(rows: Seq<Option<T>>)
    requires
        rows.len() <= usize::MAX,
    ensures
        taken(rows).finite(),
        taken(rows).len() <= rows.len(),
{
    let n = rows.len() as usize;
    let below = Set::new(|k: usize| k < n);
    lemma_below_finite(n);
    assert(taken(rows).subset_of(below));
    vstd::set_lib::lemma_len_subset(taken(rows), below);
}

} // verus!
