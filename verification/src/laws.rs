//! What holds of the map's operations taken together.
//!
//! Each law is stated over the model that the operations' contracts use:
//! `push` and `swap` leave the map that `pushed` describes, `pull` leaves
//! the one that `pulled` describes, `pull` returns `fg_at` of the map before
//! it and `swap` returns `bg_at` of the map before it.

use crate::layers::{bag, Layers};
use crate::table::{bg_at, fg_at, inhabited, occupied_keys, pulled, pushed};
use vstd::prelude::*;

verus! {

/// A push for a key on the empty map leaves the key with the pushed value as
/// its foreground and without a background.
pub proof fn law_push_on_empty<K, V>(k: K, v: V)
    ensures
        fg_at(pushed(Map::<K, Layers<V>>::empty(), k, v), k) == Some(v),
        bg_at(pushed(Map::<K, Layers<V>>::empty(), k, v), k) == None::<V>,
{
}

/// Two pushes for one key, on any map, leave the second value as the
/// foreground and the first as the background.
pub proof fn law_push_twice<K, V>(m: Map<K, Layers<V>>, k: K, v1: V, v2: V)
    ensures
        fg_at(pushed(pushed(m, k, v1), k, v2), k) == Some(v2),
        bg_at(pushed(pushed(m, k, v1), k, v2), k) == Some(v1),
{
}

/// From a key with foreground `v2` and background `v1`, a first pull returns
/// `v2` and leaves `v1` as the foreground with no background, and the key
/// stays, so that the map has as many keys as before. A second pull returns
/// `v1` and removes the key, so that the map has one key less.
pub proof fn law_pull_round_trip<K, V>(m: Map<K, Layers<V>>, k: K, v1: V, v2: V)
    requires
        m.dom().finite(),
        m.contains_key(k),
        m[k] == Layers::both(v2, v1),
    ensures
        fg_at(m, k) == Some(v2),
        fg_at(pulled(m, k), k) == Some(v1),
        bg_at(pulled(m, k), k) == None::<V>,
        pulled(m, k).contains_key(k),
        pulled(m, k).len() == m.len(),
        !pulled(pulled(m, k), k).contains_key(k),
        fg_at(pulled(pulled(m, k), k), k) == None::<V>,
        bg_at(pulled(pulled(m, k), k), k) == None::<V>,
        pulled(pulled(m, k), k).len() == m.len() - 1,
{
    let once = pulled(m, k);
    assert(once.dom() =~= m.dom());
    assert(pulled(once, k).dom() =~= m.dom().remove(k));
}

/// From a key with foreground `a` and background `b`, a swap with `c`
/// returns `b` and leaves `c` as the foreground and `a` as the background.
pub proof fn law_swap<K, V>(m: Map<K, Layers<V>>, k: K, a: V, b: V, c: V)
    requires
        m.contains_key(k),
        m[k] == Layers::both(a, b),
    ensures
        bg_at(m, k) == Some(b),
        fg_at(pushed(m, k, c), k) == Some(c),
        bg_at(pushed(m, k, c), k) == Some(a),
{
}

/// From a key with foreground `a` and no background, a swap with `c` returns
/// nothing and leaves `c` as the foreground and `a` as the background, as a
/// push does.
pub proof fn law_swap_without_background<K, V>(m: Map<K, Layers<V>>, k: K, a: V, c: V)
    requires
        m.contains_key(k),
        m[k] == Layers::single(a),
    ensures
        bg_at(m, k) == None::<V>,
        fg_at(pushed(m, k, c), k) == Some(c),
        bg_at(pushed(m, k, c), k) == Some(a),
{
}

/// A push or a pull on a map in which every key has a foreground leaves a
/// map in which every key has a foreground.
pub proof fn law_keys_stay_inhabited<K, V>(m: Map<K, Layers<V>>, k: K, v: V)
    requires
        inhabited(m),
    ensures
        inhabited(pushed(m, k, v)),
        inhabited(pulled(m, k)),
{
    let after_push = pushed(m, k, v);
    assert forall|j: K| #[trigger] after_push.contains_key(j) implies after_push[j].fg is Some
        && after_push[j].stacked() by {
        if j != k {
            assert(m.contains_key(j));
        }
    }
    let after_pull = pulled(m, k);
    assert forall|j: K| #[trigger] after_pull.contains_key(j) implies after_pull[j].fg is Some
        && after_pull[j].stacked() by {
        if j != k {
            assert(m.contains_key(j));
        }
    }
}

/// Where every key has a foreground, the keys with a non-empty cell are all
/// the keys: the number of keys counts them.
pub proof fn law_every_key_is_occupied<K, V>(m: Map<K, Layers<V>>)
    requires
        inhabited(m),
    ensures
        occupied_keys(m) == m.dom(),
        occupied_keys(m).len() == m.len(),
{
    assert(occupied_keys(m) =~= m.dom());
}

/// Installing a value neither duplicates nor loses one: the values held
/// afterwards, together with the former background, are the values held
/// before together with the new value. A push drops that former background;
/// a swap returns it.
pub proof fn law_push_conserves_values<T>(l: Layers<T>, v: T)
    ensures
        l.push(v).values().add(bag(l.bg)) == l.values().insert(v),
        l.push(v).count() + (if l.bg is Some { 1nat } else { 0nat }) == l.count() + 1,
{
    assert(l.push(v).values().add(bag(l.bg)) =~= l.values().insert(v));
}

/// Pulling neither duplicates nor loses a value: the values held afterwards,
/// together with the value returned, are the values held before.
pub proof fn law_pull_conserves_values<T>(l: Layers<T>)
    requires
        l.stacked(),
    ensures
        l.pull().values().add(bag(l.fg)) == l.values(),
        l.pull().count() + (if l.fg is Some { 1nat } else { 0nat }) == l.count(),
{
    assert(l.pull().values().add(bag(l.fg)) =~= l.values());
}

} // verus!
