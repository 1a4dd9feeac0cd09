//! The insertion ordered map that holds the sounds of a [`SoundMixer`].
//!
//! The map is an `IndexMap` keyed by sound id with a hasher that uses the id
//! itself. Its contents are modelled as the sequence of its entries, in the
//! map's order.
//!
//! [`SoundMixer`]: crate::operators::SoundMixer

use indexmap::IndexMap;
use nohash_hasher::NoHashHasher;
use std::hash::BuildHasherDefault;
use vstd::prelude::*;

use crate::sound::Sound;
use crate::wrappers::ChannelCountConverter;

verus! {

#[verifier::external_type_specification]
#[verifier::external_body]
#[verifier::reject_recursive_types(K)]
#[verifier::reject_recursive_types(V)]
#[verifier::reject_recursive_types(S)]
pub struct ExIndexMap<K, V, S>(IndexMap<K, V, S>);

#[verifier::external_type_specification]
#[verifier::external_body]
#[verifier::reject_recursive_types(H)]
pub struct ExBuildHasherDefault<H>(BuildHasherDefault<H>);

#[verifier::external_type_specification]
#[verifier::external_body]
#[verifier::reject_recursive_types(T)]
pub struct ExNoHashHasher<T>(NoHashHasher<T>);

/// A sound as the mixer holds it: converted to the mixer's channel count.
pub type MixedSound = ChannelCountConverter<Box<dyn Sound>>;

/// The map from sound id to sound that the mixer keeps its sounds in.
pub type MixerMap = IndexMap<u32, MixedSound, BuildHasherDefault<NoHashHasher<u32>>>;

/// The entries of a [`MixerMap`], in the map's order.
pub uninterp spec fn mixer_entries(m: MixerMap) -> Seq<(u32, MixedSound)>;

/// Whether some entry of `s` has the key `k`.
pub open spec fn has_key<V>(s: Seq<(u32, V)>, k: u32) -> bool {
    exists|i: int| 0 <= i < s.len() && #[trigger] s[i].0 == k
}

/// No two entries of `s` have the same key.
pub open spec fn keys_distinct<V>(s: Seq<(u32, V)>) -> bool {
    forall|i: int, j: int| 0 <= i < s.len() && 0 <= j < s.len() && i != j ==> #[trigger] s[i].0 != #[trigger] s[j].0
}

/// The position of the entry with key `k` in `s`.
pub open spec fn key_index<V>(s: Seq<(u32, V)>, k: u32) -> int {
    choose|i: int| 0 <= i < s.len() && #[trigger] s[i].0 == k
}

/// `s` after inserting `v` under `k`: an entry with that key keeps its place
/// and takes the new value, otherwise the entry is appended.
pub open spec fn inserted<V>(s: Seq<(u32, V)>, k: u32, v: V) -> Seq<(u32, V)> {
    if has_key(s, k) {
        s.update(key_index(s, k), (k, v))
    } else {
        s.push((k, v))
    }
}

/// `s` with the entry at `i` removed by moving the last entry into its place.
pub open spec fn swap_removed<V>(s: Seq<(u32, V)>, i: int) -> Seq<(u32, V)> {
    if i == s.len() - 1 {
        s.drop_last()
    } else {
        s.drop_last().update(i, s.last())
    }
}

/// `s` with the entry with key `k` swap-removed, if there is one.
pub open spec fn key_removed<V>(s: Seq<(u32, V)>, k: u32) -> Seq<(u32, V)> {
    if has_key(s, k) {
        swap_removed(s, key_index(s, k))
    } else {
        s
    }
}

/// The keys of `s`, in order.
pub open spec fn keys_of<V>(s: Seq<(u32, V)>) -> Seq<u32> {
    s.map_values(|e: (u32, V)| e.0)
}

/// `s` after inserting each entry of `t` in turn.
pub open spec fn inserted_all<V>(s: Seq<(u32, V)>, t: Seq<(u32, V)>) -> Seq<(u32, V)>
    decreases t.len(),
{
    if t.len() == 0 {
        s
    } else {
        let prev = inserted_all(s, t.drop_last());
        inserted(prev, t.last().0, t.last().1)
    }
}

/// Inserting keeps the keys distinct.
pub proof fn lemma_inserted_distinct<V>(s: Seq<(u32, V)>, k: u32, v: V)
    requires
        keys_distinct(s),
    ensures
        keys_distinct(inserted(s, k, v)),
        has_key(inserted(s, k, v), k),
        forall|j: u32| has_key(s, j) ==> has_key(inserted(s, k, v), j),
        forall|j: u32| #[trigger] has_key(inserted(s, k, v), j) ==> j == k || has_key(s, j),
{
    let r = inserted(s, k, v);
    if has_key(s, k) {
        let i = key_index(s, k);
        assert(r[i].0 == k);
        assert forall|j: u32| has_key(s, j) implies has_key(r, j) by {
            let w = choose|w: int| 0 <= w < s.len() && #[trigger] s[w].0 == j;
            assert(r[w].0 == j);
        }
        assert forall|j: u32| #[trigger] has_key(r, j) implies j == k || has_key(s, j) by {
            let w = choose|w: int| 0 <= w < r.len() && #[trigger] r[w].0 == j;
            if w != i {
                assert(s[w].0 == j);
            }
        }
    } else {
        assert(r[s.len() as int].0 == k);
        assert forall|j: u32| has_key(s, j) implies has_key(r, j) by {
            let w = choose|w: int| 0 <= w < s.len() && #[trigger] s[w].0 == j;
            assert(r[w].0 == j);
        }
        assert forall|j: u32| #[trigger] has_key(r, j) implies j == k || has_key(s, j) by {
            let w = choose|w: int| 0 <= w < r.len() && #[trigger] r[w].0 == j;
            if w < s.len() {
                assert(s[w].0 == j);
            }
        }
    }
}

/// Removing keeps the keys distinct and removes exactly the given key.
pub proof fn lemma_key_removed_distinct<V>(s: Seq<(u32, V)>, k: u32)
    requires
        keys_distinct(s),
    ensures
        keys_distinct(key_removed(s, k)),
        !has_key(key_removed(s, k), k),
        forall|j: u32| j != k ==> (#[trigger] has_key(key_removed(s, k), j) <==> has_key(s, j)),
        key_removed(s, k).len() == if has_key(s, k) { s.len() - 1 } else { s.len() as int },
{
    let r = key_removed(s, k);
    if has_key(s, k) {
        let i = key_index(s, k);
        let n = s.len() - 1;
        assert forall|w: int| 0 <= w < r.len() implies #[trigger] r[w] == (if w == i { s[n] } else { s[w] }) by {}
        assert forall|j: u32| j != k implies (#[trigger] has_key(r, j) <==> has_key(s, j)) by {
            if has_key(s, j) {
                let w = choose|w: int| 0 <= w < s.len() && #[trigger] s[w].0 == j;
                if w == n {
                    assert(r[i].0 == j);
                } else {
                    assert(w != i);
                    assert(r[w].0 == j);
                }
            }
            if has_key(r, j) {
                let w = choose|w: int| 0 <= w < r.len() && #[trigger] r[w].0 == j;
                if w == i {
                    assert(s[n].0 == j);
                } else {
                    assert(s[w].0 == j);
                }
            }
        }
        if has_key(r, k) {
            let w = choose|w: int| 0 <= w < r.len() && #[trigger] r[w].0 == k;
            if w == i {
                assert(s[n].0 == k);
            } else {
                assert(s[w].0 == k);
            }
        }
    }
}

/// Inserting several entries keeps the keys distinct.
pub proof fn lemma_inserted_all_distinct<V>(s: Seq<(u32, V)>, t: Seq<(u32, V)>)
    requires
        keys_distinct(s),
    ensures
        keys_distinct(inserted_all(s, t)),
    decreases t.len(),
{
    if t.len() > 0 {
        lemma_inserted_all_distinct(s, t.drop_last());
        lemma_inserted_distinct(inserted_all(s, t.drop_last()), t.last().0, t.last().1);
    }
}

/// Calls `IndexMap::default`, which makes an empty map.
#[verifier::external_body]
pub(crate) fn mixer_map_new() -> (r: MixerMap)
    ensures
        mixer_entries(r) == Seq::<(u32, MixedSound)>::empty(),
{
    IndexMap::default()
}

/// Calls `IndexMap::len`, the number of entries.
#[verifier::external_body]
pub(crate) fn mixer_map_len(m: &MixerMap) -> (r: usize)
    ensures
        r == mixer_entries(*m).len(),
{
    m.len()
}

/// Calls `IndexMap::insert`: an entry with the same key keeps its place and
/// takes the new value, and its old value is returned; otherwise the entry is
/// appended last and `None` is returned.
#[verifier::external_body]
pub(crate) fn mixer_map_insert(m: &mut MixerMap, k: u32, v: MixedSound) -> (r: Option<MixedSound>)
    ensures
        mixer_entries(*final(m)) == inserted(mixer_entries(*old(m)), k, v),
        r == (if has_key(mixer_entries(*old(m)), k) {
            Some(mixer_entries(*old(m))[key_index(mixer_entries(*old(m)), k)].1)
        } else {
            None::<MixedSound>
        }),
{
    m.insert(k, v)
}

/// Calls `IndexMap::swap_remove`: the entry with key `k` is removed by
/// moving the last entry into its place, and its value is returned; without
/// such an entry the map is left as it is and `None` is returned.
#[verifier::external_body]
pub(crate) fn mixer_map_swap_remove(m: &mut MixerMap, k: u32) -> (r: Option<MixedSound>)
    ensures
        mixer_entries(*final(m)) == key_removed(mixer_entries(*old(m)), k),
        r == (if has_key(mixer_entries(*old(m)), k) {
            Some(mixer_entries(*old(m))[key_index(mixer_entries(*old(m)), k)].1)
        } else {
            None::<MixedSound>
        }),
{
    m.swap_remove(&k)
}

/// Calls `IndexMap::get_index` on an index in range and hands out the key
/// at that index.
#[verifier::external_body]
pub(crate) fn mixer_map_key_at(m: &MixerMap, i: usize) -> (r: u32)
    requires
        i < mixer_entries(*m).len(),
    ensures
        r == mixer_entries(*m)[i as int].0,
{
    *m.get_index(i).unwrap().0
}

/// Calls `IndexMap::get_index_mut` on an index in range and hands out the
/// value at that index; what is written through it becomes the entry's new
/// value, under the same key.
#[verifier::external_body]
pub(crate) fn mixer_map_value_mut(m: &mut MixerMap, i: usize) -> (r: &mut MixedSound)
    requires
        i < mixer_entries(*old(m)).len(),
    ensures
        *r == mixer_entries(*old(m))[i as int].1,
        mixer_entries(*final(m)) == mixer_entries(*old(m)).update(
            i as int,
            (mixer_entries(*old(m))[i as int].0, *final(r)),
        ),
{
    m.get_index_mut(i).unwrap().1
}

/// Calls `IndexMap::drain` over the whole map: the entries are handed out in
/// order and the map is left empty.
#[verifier::external_body]
pub(crate) fn mixer_map_drain(m: &mut MixerMap) -> (r: Vec<(u32, MixedSound)>)
    ensures
        r@ == mixer_entries(*old(m)),
        mixer_entries(*final(m)) == Seq::<(u32, MixedSound)>::empty(),
{
    m.drain(..).collect()
}

/// Calls `IndexMap::clear`, which removes every entry.
#[verifier::external_body]
pub(crate) fn mixer_map_clear(m: &mut MixerMap)
    ensures
        mixer_entries(*final(m)) == Seq::<(u32, MixedSound)>::empty(),
{
    m.clear()
}

} // verus!
