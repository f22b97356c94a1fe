//! The map from keys to two-layer cells.
//!
//! Every key in the table owns a cell with at least a foreground. A cell
//! that a pull empties leaves the table together with its key.

use crate::layers::{borrowed, Layers};
use crate::overlay::Overlay;
use std::collections::hash_map::{Entry, RandomState};
use std::collections::HashMap;
use std::hash::{BuildHasher, Hash};
use vstd::prelude::*;
use vstd::std_specs::hash::{builds_valid_hashers, obeys_key_model};

verus! {

/// The layers that key `k` owns in `m`: those stored, or none.
pub open spec fn layers_at<K, V>(m: Map<K, Layers<V>>, k: K) -> Layers<V> {
    if m.contains_key(k) {
        m[k]
    } else {
        Layers::empty()
    }
}

/// The foreground of key `k` in `m`.
pub open spec fn fg_at<K, V>(m: Map<K, Layers<V>>, k: K) -> Option<V> {
    layers_at(m, k).fg
}

/// The background of key `k` in `m`.
pub open spec fn bg_at<K, V>(m: Map<K, Layers<V>>, k: K) -> Option<V> {
    layers_at(m, k).bg
}

/// The map after `v` is pushed for key `k`: a new key gets a foreground
/// alone, a known key has its foreground demoted.
pub open spec fn pushed<K, V>(m: Map<K, Layers<V>>, k: K, v: V) -> Map<K, Layers<V>> {
    m.insert(k, layers_at(m, k).push(v))
}

/// The map after the foreground of key `k` is pulled: the background is
/// promoted, and a key left with nothing leaves the map.
pub open spec fn pulled<K, V>(m: Map<K, Layers<V>>, k: K) -> Map<K, Layers<V>> {
    if !m.contains_key(k) {
        m
    } else if m[k].pull().is_empty() {
        m.remove(k)
    } else {
        m.insert(k, m[k].pull())
    }
}

/// The map after a conditional push for key `k` whose predicate decided
/// `decision`: a value to push, or nothing to do.
pub open spec fn push_decided<K, V>(m: Map<K, Layers<V>>, k: K, decision: Option<V>) -> Map<
    K,
    Layers<V>,
> {
    match decision {
        Some(v) => pushed(m, k, v),
        None => m,
    }
}

/// The map after a conditional pull for key `k` whose predicate decided
/// `go`.
pub open spec fn pull_decided<K, V>(m: Map<K, Layers<V>>, k: K, go: bool) -> Map<K, Layers<V>> {
    if go {
        pulled(m, k)
    } else {
        m
    }
}

/// The map after each pair of `pairs` is pushed, in the order of the
/// sequence.
pub open spec fn overlaid<K, V>(m: Map<K, Layers<V>>, pairs: Seq<(K, V)>) -> Map<K, Layers<V>>
    decreases pairs.len(),
{
    if pairs.len() == 0 {
        m
    } else {
        pushed(overlaid(m, pairs.drop_last()), pairs.last().0, pairs.last().1)
    }
}

/// How many pairs of `pairs`, pushed in order onto `m`, find their key
/// already in the map.
pub open spec fn replacements<K, V>(m: Map<K, Layers<V>>, pairs: Seq<(K, V)>) -> nat
    decreases pairs.len(),
{
    if pairs.len() == 0 {
        0
    } else {
        replacements(m, pairs.drop_last()) + if overlaid(m, pairs.drop_last()).contains_key(
            pairs.last().0,
        ) {
            1nat
        } else {
            0nat
        }
    }
}

/// The two tables hold the same cell for every key but `k`.
pub open spec fn only_cell_changed<K, V>(
    before: Map<K, Overlay<V>>,
    after: Map<K, Overlay<V>>,
    k: K,
) -> bool {
    after.remove(k) == before.remove(k)
}

/// A cell that `before` holds for `k` is in `after` with its foreground
/// demoted in place.
pub open spec fn demoted_at<K, V>(
    before: Map<K, Overlay<V>>,
    after: Map<K, Overlay<V>>,
    k: K,
) -> bool {
    before.contains_key(k) ==> after.contains_key(k) && after[k].demotes(&before[k])
}

/// A cell that both tables hold for `k` is in `after` with its background
/// promoted in place.
pub open spec fn promoted_at<K, V>(
    before: Map<K, Overlay<V>>,
    after: Map<K, Overlay<V>>,
    k: K,
) -> bool {
    before.contains_key(k) && after.contains_key(k) ==> after[k].promotes(&before[k])
}

/// Some pair of `pairs` has the key `k`.
pub open spec fn mentions<K, V>(pairs: Seq<(K, V)>, k: K) -> bool {
    exists|i: int| 0 <= i < pairs.len() && (#[trigger] pairs[i]).0 == k
}

/// The two tables agree on `k`: both lack it, or both hold the same cell.
pub open spec fn cell_kept<K, V>(
    before: Map<K, Overlay<V>>,
    after: Map<K, Overlay<V>>,
    k: K,
) -> bool {
    &&& after.contains_key(k) == before.contains_key(k)
    &&& before.contains_key(k) ==> after[k] == before[k]
}

/// Every key of `m` has a foreground, and a background only below it.
pub open spec fn inhabited<K, V>(m: Map<K, Layers<V>>) -> bool {
    forall|k: K| #[trigger] m.contains_key(k) ==> m[k].fg is Some && m[k].stacked()
}

/// The keys of `m` whose layers are not empty.
pub open spec fn occupied_keys<K, V>(m: Map<K, Layers<V>>) -> Set<K> {
    m.dom().filter(|k: K| !m[k].is_empty())
}

/// Calls std's `HashMap::with_hasher`. Believed, not proved: the table it
/// returns holds no entry.
#[verifier::external_body]
fn table_with_hasher<K, V, S>(hasher: S) -> (made: HashMap<K, V, S>)
    ensures
        made@ == (Map::<K, V>::empty()),
{
    HashMap::with_hasher(hasher)
}

/// Calls std's `HashMap::with_capacity_and_hasher`. Believed, not proved:
/// the table it returns holds no entry, whatever room was asked for. Nothing
/// is said of the room itself; as with every allocation, a request beyond
/// what memory allows ends the program.
#[verifier::external_body]
fn table_with_capacity_and_hasher<K, V, S>(capacity: usize, hasher: S) -> (made: HashMap<K, V, S>)
    ensures
        made@ == (Map::<K, V>::empty()),
{
    HashMap::with_capacity_and_hasher(capacity, hasher)
}

/// Calls std's `HashMap::get_mut`. Believed, not proved, for a key type and
/// a hasher that behave as a hash table needs: a key that the table holds
/// yields a mutable reference to its value, and what the caller leaves
/// behind that reference is what the table holds for the key afterwards,
/// every other entry staying as it is; a key that the table lacks yields
/// nothing, and the table stays as it is.
#[verifier::external_body]
fn table_get_mut<'a, K: Eq + Hash, V, S: BuildHasher>(
    table: &'a mut HashMap<K, V, S>,
    key: &K,
) -> (found: Option<&'a mut V>)
    ensures
        obeys_key_model::<K>() && builds_valid_hashers::<S>() ==> match found {
            Some(value) => {
                &&& old(table)@.contains_key(*key)
                &&& *value == old(table)@[*key]
                &&& final(table)@ == old(table)@.insert(*key, *final(value))
            },
            None => {
                &&& !old(table)@.contains_key(*key)
                &&& final(table)@ == old(table)@
            },
        },
{
    table.get_mut(key)
}

/// A two-layered map: each key has a foreground value and may have a
/// background value, the one that the foreground replaced.
///
/// Pushing a value for a key demotes the key's foreground to the background;
/// pulling removes the foreground and promotes the background. No value is
/// cloned.
#[verifier::reject_recursive_types(S)]
#[derive(Debug)]
pub struct OverlayMap<K, V, S = RandomState> where K: Eq + Hash {
    map: HashMap<K, Overlay<V>, S>,
}

impl<K: Eq + Hash, V, S> View for OverlayMap<K, V, S> {
    type V = Map<K, Layers<V>>;

    /// For each key, the layers of its cell.
    open spec fn view(&self) -> Map<K, Layers<V>> {
        self.cells().map_values(|cell: Overlay<V>| cell@)
    }
}

impl<K: Eq + Hash, V, S> OverlayMap<K, V, S> {
    /// The table as stored: for each key, its cell with tag and slots.
    pub closed spec fn cells(&self) -> Map<K, Overlay<V>> {
        self.map@
    }

    /// The map's invariant: the key type and the hasher behave as a hash
    /// table needs, the table is finite, and every key owns a well-formed
    /// cell with a foreground.
    pub open spec fn wf(&self) -> bool {
        &&& obeys_key_model::<K>()
        &&& builds_valid_hashers::<S>()
        &&& self.cells().dom().finite()
        &&& forall|k: K| #[trigger]
            self.cells().contains_key(k) ==> self.cells()[k].wf() && self.cells()[k]@.fg is Some
    }

    /// A well-formed map has finitely many keys, and each has a foreground.
    pub proof fn lemma_wf_view(&self)
        requires
            self.wf(),
        ensures
            self@.dom() == self.cells().dom(),
            self@.dom().finite(),
            inhabited(self@),
            occupied_keys(self@) == self@.dom(),
    {
        assert(self@.dom() =~= self.cells().dom());
        assert(occupied_keys(self@) =~= self@.dom());
    }
}

impl<K, V, S> OverlayMap<K, V, S> where K: Eq + Hash, S: BuildHasher + Default {
    /// Creates an empty map with a hasher of the default kind.
    pub fn new() -> (m: Self)
        requires
            obeys_key_model::<K>(),
            builds_valid_hashers::<S>(),
        ensures
            m.wf(),
            m@ == Map::<K, Layers<V>>::empty(),
    {
        Self::with_hasher(Default::default())
    }

    /// Creates an empty map with room for `capacity` keys and a hasher of the
    /// default kind.
    pub fn with_capacity(capacity: usize) -> (m: Self)
        requires
            obeys_key_model::<K>(),
            builds_valid_hashers::<S>(),
        ensures
            m.wf(),
            m@ == Map::<K, Layers<V>>::empty(),
    {
        Self::with_capacity_and_hasher(capacity, Default::default())
    }

    /// Creates an empty map that hashes its keys with `hasher`.
    pub fn with_hasher(hasher: S) -> (m: Self)
        requires
            obeys_key_model::<K>(),
            builds_valid_hashers::<S>(),
        ensures
            m.wf(),
            m@ == Map::<K, Layers<V>>::empty(),
    {
        let m = OverlayMap { map: table_with_hasher(hasher) };
        assert(m@ =~= Map::<K, Layers<V>>::empty());
        m
    }

    /// Creates an empty map with room for `capacity` keys that hashes its
    /// keys with `hasher`.
    pub fn with_capacity_and_hasher(capacity: usize, hasher: S) -> (m: Self)
        requires
            obeys_key_model::<K>(),
            builds_valid_hashers::<S>(),
        ensures
            m.wf(),
            m@ == Map::<K, Layers<V>>::empty(),
    {
        let m = OverlayMap { map: table_with_capacity_and_hasher(capacity, hasher) };
        assert(m@ =~= Map::<K, Layers<V>>::empty());
        m
    }

    /// The number of keys in the map.
    pub fn len(&self) -> (n: usize)
        requires
            self.wf(),
        ensures
            n == self@.len(),
            n == occupied_keys(self@).len(),
    {
        proof {
            self.lemma_wf_view();
        }
        self.map.len()
    }

    /// Whether the map has no key.
    pub fn is_empty(&self) -> (r: bool)
        requires
            self.wf(),
        ensures
            r == (self@.len() == 0),
            r == (self@ == Map::<K, Layers<V>>::empty()),
    {
        proof {
            self.lemma_wf_view();
            assert(self@.dom().len() == 0 <==> self@ =~= Map::<K, Layers<V>>::empty());
        }
        self.map.is_empty()
    }

    /// The foreground value of `key`, if the map has the key.
    pub fn fg(&self, key: &K) -> (r: Option<&V>)
        requires
            self.wf(),
        ensures
            r == borrowed(&fg_at(self@, *key)),
    {
        match self.map.get(key) {
            Some(cell) => Some(cell.fg_unchecked()),
            None => None,
        }
    }

    /// The background value of `key`, if the map has the key and the key has
    /// a background.
    pub fn bg(&self, key: &K) -> (r: Option<&V>)
        requires
            self.wf(),
        ensures
            r == borrowed(&bg_at(self@, *key)),
    {
        match self.map.get(key) {
            Some(cell) => cell.bg(),
            None => None,
        }
    }

    /// Pushes `value` into the foreground of `key`.
    ///
    /// A key that the map has keeps its former foreground as the background,
    /// and a former background is dropped. A new key gets a foreground alone.
    /// Returns whether the map had the key.
    pub fn push(&mut self, key: K, value: V) -> (replaced: bool)
        requires
            old(self).wf(),
        ensures
            final(self).wf(),
            replaced == old(self)@.contains_key(key),
            final(self)@ == pushed(old(self)@, key, value),
            demoted_at(old(self).cells(), final(self).cells(), key),
            only_cell_changed(old(self).cells(), final(self).cells(), key),
    {
        let replaced = match self.map.entry(key) {
            Entry::Occupied(mut occupied) => {
                occupied.get_mut().push(value);
                true
            },
            Entry::Vacant(vacant) => {
                vacant.insert(Overlay::new_fg(value));
                false
            },
        };
        proof {
            assert(final(self)@ =~= pushed(old(self)@, key, value));
            assert(final(self).cells().remove(key) =~= old(self).cells().remove(key));
        }
        replaced
    }

    /// Pushes a value that depends on the current foreground of `key`.
    ///
    /// The predicate sees the foreground of a key that the map has. If it
    /// returns a value, the value is pushed and the result is `true`. If it
    /// returns nothing, or the map lacks the key, the map stays exactly as it
    /// is and the result is `false`.
    pub fn push_if<F>(&mut self, key: &K, predicate: F) -> (done: bool) where
        F: FnOnce(&V) -> Option<V>,

        requires
            old(self).wf(),
            old(self)@.contains_key(*key) ==> call_requires(
                predicate,
                (&old(self)@[*key].fg->0,),
            ),
        ensures
            final(self).wf(),
            !old(self)@.contains_key(*key) ==> !done && final(self).cells() == old(self).cells(),
            old(self)@.contains_key(*key) ==> exists|decision: Option<V>|
                {
                    &&& call_ensures(predicate, (&old(self)@[*key].fg->0,), decision)
                    &&& done == decision is Some
                    &&& final(self)@ == push_decided(old(self)@, *key, decision)
                    &&& decision is None ==> final(self).cells() == old(self).cells()
                    &&& decision is Some ==> demoted_at(
                        old(self).cells(),
                        final(self).cells(),
                        *key,
                    )
                },
            only_cell_changed(old(self).cells(), final(self).cells(), *key),
    {
        let entry = match table_get_mut(&mut self.map, key) {
            Some(e) => e,
            None => {
                return false;
            },
        };
        let decision = predicate(entry.fg_unchecked());
        let done = match decision {
            Some(new) => {
                entry.push(new);
                true
            },
            None => false,
        };
        proof {
            assert(final(self)@ =~= push_decided(old(self)@, *key, decision));
            assert(decision is None ==> final(self).cells() =~= old(self).cells());
            assert(final(self).cells().remove(*key) =~= old(self).cells().remove(*key));
        }
        done
    }

    /// Pulls the foreground of `key` and returns it.
    ///
    /// A background is promoted to the foreground. A key without a
    /// background leaves the map. A key that the map lacks yields nothing.
    pub fn pull(&mut self, key: &K) -> (evicted: Option<V>)
        requires
            old(self).wf(),
        ensures
            final(self).wf(),
            evicted == fg_at(old(self)@, *key),
            final(self)@ == pulled(old(self)@, *key),
            promoted_at(old(self).cells(), final(self).cells(), *key),
            only_cell_changed(old(self).cells(), final(self).cells(), *key),
    {
        let evicted = match table_get_mut(&mut self.map, key) {
            Some(entry) => {
                let evicted = entry.pull_unchecked();
                if entry.is_empty() {
                    // The one place that probes twice: the reference cannot
                    // remove its own entry, so the key is looked up again.
                    self.map.remove(key);
                }
                Some(evicted)
            },
            None => None,
        };
        proof {
            assert(final(self)@ =~= pulled(old(self)@, *key));
            assert(final(self).cells().remove(*key) =~= old(self).cells().remove(*key));
        }
        evicted
    }

    /// Pulls the foreground of `key` if the predicate accepts it.
    ///
    /// The predicate sees the foreground of a key that the map has. If it
    /// returns `true`, the foreground is pulled as `pull` does. If it returns
    /// `false`, or the map lacks the key, the map stays exactly as it is and
    /// nothing is returned.
    pub fn pull_if<F>(&mut self, key: &K, predicate: F) -> (evicted: Option<V>) where
        F: FnOnce(&V) -> bool,

        requires
            old(self).wf(),
            old(self)@.contains_key(*key) ==> call_requires(
                predicate,
                (&old(self)@[*key].fg->0,),
            ),
        ensures
            final(self).wf(),
            !old(self)@.contains_key(*key) ==> evicted is None && final(self).cells() == old(
                self,
            ).cells(),
            old(self)@.contains_key(*key) ==> exists|go: bool|
                {
                    &&& call_ensures(predicate, (&old(self)@[*key].fg->0,), go)
                    &&& evicted == if go {
                        old(self)@[*key].fg
                    } else {
                        None
                    }
                    &&& final(self)@ == pull_decided(old(self)@, *key, go)
                    &&& !go ==> final(self).cells() == old(self).cells()
                    &&& go ==> promoted_at(old(self).cells(), final(self).cells(), *key)
                },
            only_cell_changed(old(self).cells(), final(self).cells(), *key),
    {
        match table_get_mut(&mut self.map, key) {
            Some(entry) => {
                let go = predicate(entry.fg_unchecked());
                if go {
                    let evicted = entry.pull_unchecked();
                    if entry.is_empty() {
                        // As in `pull`: a second probe removes the key.
                        self.map.remove(key);
                    }
                    proof {
                        assert(final(self)@ =~= pull_decided(old(self)@, *key, go));
                        assert(final(self).cells().remove(*key) =~= old(self).cells().remove(
                            *key,
                        ));
                    }
                    Some(evicted)
                } else {
                    proof {
                        assert(final(self).cells() =~= old(self).cells());
                        assert(final(self)@ =~= pull_decided(old(self)@, *key, go));
                    }
                    None
                }
            },
            None => None,
        }
    }

    /// Pushes `value` into the foreground of `key` and returns the background
    /// that this evicts, if the key had one.
    ///
    /// The map afterwards is the one that `push` gives: the background is
    /// the former foreground, not the value returned.
    pub fn swap(&mut self, key: K, value: V) -> (evicted: Option<V>)
        requires
            old(self).wf(),
        ensures
            final(self).wf(),
            evicted == bg_at(old(self)@, key),
            final(self)@ == pushed(old(self)@, key, value),
            demoted_at(old(self).cells(), final(self).cells(), key),
            only_cell_changed(old(self).cells(), final(self).cells(), key),
    {
        let evicted = match self.map.entry(key) {
            Entry::Occupied(mut occupied) => occupied.get_mut().swap(value),
            Entry::Vacant(vacant) => {
                vacant.insert(Overlay::new_fg(value));
                None
            },
        };
        proof {
            assert(final(self)@ =~= pushed(old(self)@, key, value));
            assert(final(self).cells().remove(key) =~= old(self).cells().remove(key));
        }
        evicted
    }

    /// Swaps in a value that depends on the current foreground of `key`.
    ///
    /// The predicate sees the foreground of a key that the map has. If it
    /// returns a value, the value is swapped in and the evicted background,
    /// if any, is returned. If it returns nothing, or the map lacks the key,
    /// the map stays exactly as it is and nothing is returned.
    pub fn swap_if<F>(&mut self, key: &K, predicate: F) -> (evicted: Option<V>) where
        F: FnOnce(&V) -> Option<V>,

        requires
            old(self).wf(),
            old(self)@.contains_key(*key) ==> call_requires(
                predicate,
                (&old(self)@[*key].fg->0,),
            ),
        ensures
            final(self).wf(),
            !old(self)@.contains_key(*key) ==> evicted is None && final(self).cells() == old(
                self,
            ).cells(),
            old(self)@.contains_key(*key) ==> exists|decision: Option<V>|
                {
                    &&& call_ensures(predicate, (&old(self)@[*key].fg->0,), decision)
                    &&& evicted == if decision is Some {
                        old(self)@[*key].bg
                    } else {
                        None
                    }
                    &&& final(self)@ == push_decided(old(self)@, *key, decision)
                    &&& decision is None ==> final(self).cells() == old(self).cells()
                    &&& decision is Some ==> demoted_at(
                        old(self).cells(),
                        final(self).cells(),
                        *key,
                    )
                },
            only_cell_changed(old(self).cells(), final(self).cells(), *key),
    {
        let entry = match table_get_mut(&mut self.map, key) {
            Some(e) => e,
            None => {
                return None;
            },
        };
        let decision = predicate(entry.fg_unchecked());
        let evicted = match decision {
            Some(new) => entry.swap(new),
            None => None,
        };
        proof {
            assert(final(self)@ =~= push_decided(old(self)@, *key, decision));
            assert(decision is None ==> final(self).cells() =~= old(self).cells());
            assert(final(self).cells().remove(*key) =~= old(self).cells().remove(*key));
        }
        evicted
    }

    /// Pushes every pair of `pairs`, in order.
    ///
    /// Returns how many of the pushes found their key already in the map. A
    /// key that occurs twice is pushed twice: the later value ends in the
    /// foreground, the earlier one in the background.
    pub fn overlay(&mut self, pairs: Vec<(K, V)>) -> (replaced: usize)
        requires
            old(self).wf(),
        ensures
            final(self).wf(),
            final(self)@ == overlaid(old(self)@, pairs@),
            replaced == replacements(old(self)@, pairs@),
            forall|k: K| !(#[trigger] mentions(pairs@, k)) ==> cell_kept(
                old(self).cells(),
                final(self).cells(),
                k,
            ),
    {
        let ghost start = self@;
        let ghost start_cells = self.cells();
        let ghost items = pairs@;
        assert(items.len() == pairs.len());
        let mut replaced: usize = 0;
        for pair in it: pairs.into_iter()
            invariant
                self.wf(),
                it.seq() == items,
                self@ == overlaid(start, items.take(it.index())),
                replaced == replacements(start, items.take(it.index())),
                replaced <= it.index(),
                items.len() <= usize::MAX,
                forall|k: K| !(#[trigger] mentions(items.take(it.index()), k)) ==> cell_kept(
                    start_cells,
                    self.cells(),
                    k,
                ),
        {
            let ghost done = items.take(it.index());
            let ghost next = items.take(it.index() + 1);
            proof {
                assert(next.drop_last() =~= done);
                assert(next.last() == pair);
            }
            let ghost cells_before = self.cells();
            let (key, val) = pair;
            if self.push(key, val) {
                replaced += 1;
            }
            proof {
                assert forall|k: K| !(#[trigger] mentions(next, k)) implies cell_kept(
                    start_cells,
                    self.cells(),
                    k,
                ) by {
                    assert(next[it.index()].0 == key);
                    assert(k != key);
                    if mentions(done, k) {
                        let i = choose|i: int| 0 <= i < done.len() && (#[trigger] done[i]).0 == k;
                        assert(next[i] == done[i]);
                    }
                    assert(self.cells().remove(key).contains_key(k) == cells_before.remove(
                        key,
                    ).contains_key(k));
                    assert(self.cells().remove(key)[k] == cells_before.remove(key)[k]);
                }
            }
        }
        proof {
            assert(items.take(items.len() as int) =~= items);
        }
        replaced
    }
}

impl<K, V, S> Default for OverlayMap<K, V, S> where K: Eq + Hash, S: Default {
    /// An empty map with a hasher of the default kind.
    fn default() -> (m: Self)
        ensures
            m@ == Map::<K, Layers<V>>::empty(),
            obeys_key_model::<K>() && builds_valid_hashers::<S>() ==> m.wf(),
    {
        let m = OverlayMap { map: HashMap::default() };
        assert(m@ =~= Map::<K, Layers<V>>::empty());
        m
    }
}

} // verus!
