use vstd::prelude::*;

use crate::error::KvError;

verus! {

/// What a key holds, seen mathematically.
pub enum Entry {
    Counter(int),
    Scalar(Seq<char>),
    List(Seq<Seq<char>>),
    Members(Set<Seq<char>>),
}

/// The whole store: each key that has an entry, and that entry.
pub type StoreModel = Map<Seq<char>, Entry>;

/// The characters of each string of a sequence.
pub open spec fn strs(v: Seq<String>) -> Seq<Seq<char>> {
    v.map_values(|s: String| s@)
}

/// Whether `k` holds a counter; likewise for the other three shapes below.
pub open spec fn is_counter(m: StoreModel, k: Seq<char>) -> bool {
    m.contains_key(k) && m[k] is Counter
}

pub open spec fn is_scalar(m: StoreModel, k: Seq<char>) -> bool {
    m.contains_key(k) && m[k] is Scalar
}

pub open spec fn is_list(m: StoreModel, k: Seq<char>) -> bool {
    m.contains_key(k) && m[k] is List
}

pub open spec fn is_members(m: StoreModel, k: Seq<char>) -> bool {
    m.contains_key(k) && m[k] is Members
}

/// The counter under `k`, where an absent key counts as zero.
pub open spec fn counter_of(m: StoreModel, k: Seq<char>) -> int {
    if is_counter(m, k) {
        m[k]->Counter_0
    } else {
        0
    }
}

/// The list under `k`, where an absent key is the empty list.
pub open spec fn list_of(m: StoreModel, k: Seq<char>) -> Seq<Seq<char>> {
    if is_list(m, k) {
        m[k]->List_0
    } else {
        Seq::empty()
    }
}

/// The members of the set under `k`; empty where `k` holds no set.
pub open spec fn members_of(m: StoreModel, k: Seq<char>) -> Set<Seq<char>> {
    if is_members(m, k) {
        m[k]->Members_0
    } else {
        Set::empty()
    }
}

/// Reading the string under `k`.
pub open spec fn spec_get(m: StoreModel, k: Seq<char>) -> Result<Seq<char>, KvError> {
    if !m.contains_key(k) {
        Err(KvError::NotFound)
    } else if is_scalar(m, k) {
        Ok(m[k]->Scalar_0)
    } else {
        Err(KvError::TypeMismatch)
    }
}

/// Storing the string `v` under `k`: the store after, and the outcome.
pub open spec fn spec_set(m: StoreModel, k: Seq<char>, v: Seq<char>) -> (StoreModel, Result<(), KvError>) {
    if m.contains_key(k) && !is_scalar(m, k) {
        (m, Err(KvError::TypeMismatch))
    } else {
        (m.insert(k, Entry::Scalar(v)), Ok(()))
    }
}

/// Adding `delta` to the counter under `k`: the store after, and the new total.
pub open spec fn spec_atomic_add(m: StoreModel, k: Seq<char>, delta: int) -> (StoreModel, Result<int, KvError>) {
    let total = counter_of(m, k) + delta;
    if m.contains_key(k) && !is_counter(m, k) {
        (m, Err(KvError::TypeMismatch))
    } else if total < i32::MIN || total > i32::MAX {
        (m, Err(KvError::InvalidArgument))
    } else {
        (m.insert(k, Entry::Counter(total)), Ok(total))
    }
}

/// The store after deleting whatever `k` holds.
pub open spec fn spec_del_key(m: StoreModel, k: Seq<char>) -> StoreModel {
    m.remove(k)
}

/// Appending `item` to the list under `k`: the store after, and the new length.
pub open spec fn spec_list_add(m: StoreModel, k: Seq<char>, item: Seq<char>) -> (StoreModel, Result<nat, KvError>) {
    let l = list_of(m, k).push(item);
    if m.contains_key(k) && !is_list(m, k) {
        (m, Err(KvError::TypeMismatch))
    } else {
        (m.insert(k, Entry::List(l)), Ok(l.len()))
    }
}

/// The list without any occurrence of `item`, order kept.
pub open spec fn without(l: Seq<Seq<char>>, item: Seq<char>) -> Seq<Seq<char>> {
    l.filter(|x: Seq<char>| x != item)
}

/// Removing every `item` from the list under `k`: the store after, and how many went.
pub open spec fn spec_list_del_item(m: StoreModel, k: Seq<char>, item: Seq<char>) -> (StoreModel, Result<nat, KvError>) {
    let l = list_of(m, k);
    let kept = without(l, item);
    if !m.contains_key(k) {
        (m, Ok(0))
    } else if !is_list(m, k) {
        (m, Err(KvError::TypeMismatch))
    } else if kept.len() == 0 {
        (m.remove(k), Ok(l.len()))
    } else {
        (m.insert(k, Entry::List(kept)), Ok((l.len() - kept.len()) as nat))
    }
}

/// First index taken by an inclusive range over `len` elements; a negative
/// `start` counts from the end, and what lies before the front is cut off.
pub open spec fn range_lo(len: int, start: int) -> int {
    if start >= 0 {
        start
    } else if len + start >= 0 {
        len + start
    } else {
        0
    }
}

/// One past the last index taken by an inclusive range over `len` elements;
/// a negative `stop` counts from the end, and what lies past the back is cut off.
pub open spec fn range_hi(len: int, stop: int) -> int {
    if stop < 0 {
        len + stop + 1
    } else if stop >= len {
        len
    } else {
        stop + 1
    }
}

/// The elements of `l` from `start` to `stop`, both included, after clamping.
pub open spec fn inclusive_range(l: Seq<Seq<char>>, start: int, stop: int) -> Seq<Seq<char>> {
    let lo = range_lo(l.len() as int, start);
    let hi = range_hi(l.len() as int, stop);
    if lo < hi {
        l.subrange(lo, hi)
    } else {
        Seq::empty()
    }
}

/// Reading an inclusive, clamped range of the list under `k`.
pub open spec fn spec_list_range(m: StoreModel, k: Seq<char>, start: int, stop: int) -> Result<Seq<Seq<char>>, KvError> {
    if m.contains_key(k) && !is_list(m, k) {
        Err(KvError::TypeMismatch)
    } else {
        Ok(inclusive_range(list_of(m, k), start, stop))
    }
}

/// Deleting the list under `k`: the store after, and the outcome.
pub open spec fn spec_list_clear(m: StoreModel, k: Seq<char>) -> (StoreModel, Result<(), KvError>) {
    if m.contains_key(k) && !is_list(m, k) {
        (m, Err(KvError::TypeMismatch))
    } else {
        (m.remove(k), Ok(()))
    }
}

/// Adding `v` to the set under `k`: the store after, and the new size.
pub open spec fn spec_set_add(m: StoreModel, k: Seq<char>, v: Seq<char>) -> (StoreModel, Result<nat, KvError>) {
    let s = members_of(m, k).insert(v);
    if m.contains_key(k) && !is_members(m, k) {
        (m, Err(KvError::TypeMismatch))
    } else {
        (m.insert(k, Entry::Members(s)), Ok(s.len()))
    }
}

/// Removing `v` from the set under `k`: the store after, and the new size.
pub open spec fn spec_set_remove(m: StoreModel, k: Seq<char>, v: Seq<char>) -> (StoreModel, Result<nat, KvError>) {
    let s = members_of(m, k).remove(v);
    if !m.contains_key(k) {
        (m, Ok(0))
    } else if !is_members(m, k) {
        (m, Err(KvError::TypeMismatch))
    } else if s.len() == 0 {
        (m.remove(k), Ok(0))
    } else {
        (m.insert(k, Entry::Members(s)), Ok(s.len()))
    }
}

/// Reading the members of the set under `k`.
pub open spec fn spec_set_members(m: StoreModel, k: Seq<char>) -> Result<Set<Seq<char>>, KvError> {
    if m.contains_key(k) && !is_members(m, k) {
        Err(KvError::TypeMismatch)
    } else {
        Ok(members_of(m, k))
    }
}

/// Every string that is a member of the set under at least one of `keys`.
pub open spec fn spec_set_union(m: StoreModel, keys: Seq<Seq<char>>) -> Set<Seq<char>> {
    Set::new(|x: Seq<char>| exists|i: int| 0 <= i < keys.len() && #[trigger] members_of(m, keys[i]).contains(x))
}

/// Whether `x` is a member of the set under each of `keys`.
pub open spec fn in_every(m: StoreModel, keys: Seq<Seq<char>>, x: Seq<char>) -> bool {
    forall|i: int| 0 <= i < keys.len() ==> #[trigger] members_of(m, keys[i]).contains(x)
}

/// Every string that is a member of the set under each of `keys`; empty for no keys.
pub open spec fn spec_set_intersect(m: StoreModel, keys: Seq<Seq<char>>) -> Set<Seq<char>> {
    if keys.len() == 0 {
        Set::empty()
    } else {
        Set::new(|x: Seq<char>| in_every(m, keys, x))
    }
}

} // verus!
