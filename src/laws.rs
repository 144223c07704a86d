use vstd::prelude::*;

use crate::error::KvError;
use crate::model::{
    counter_of, inclusive_range, is_counter, is_list, is_members, is_scalar, list_of, members_of,
    spec_atomic_add, spec_del_key, spec_get, spec_list_add, spec_list_clear, spec_list_del_item,
    spec_set, spec_set_add, spec_set_remove, without, Entry, StoreModel,
};

verus! {

/// A key that holds nothing reads as absent: its scalar read fails with
/// `NotFound`. Each write leaves every other key as it was, so a key that was
/// never written keeps holding nothing.
pub proof fn law_unwritten_key_is_absent(m: StoreModel, k: Seq<char>, j: Seq<char>, v: Seq<char>, d: int)
    requires
        !m.contains_key(k),
        j != k,
    ensures
        spec_get(m, k) == Err::<Seq<char>, KvError>(KvError::NotFound),
        !spec_set(m, j, v).0.contains_key(k),
        !spec_atomic_add(m, j, d).0.contains_key(k),
        !spec_list_add(m, j, v).0.contains_key(k),
        !spec_list_del_item(m, j, v).0.contains_key(k),
        !spec_list_clear(m, j).0.contains_key(k),
        !spec_set_add(m, j, v).0.contains_key(k),
        !spec_set_remove(m, j, v).0.contains_key(k),
        !spec_del_key(m, j).contains_key(k),
{
}

/// Storing a string under a key that is absent or holds a string succeeds,
/// and reading the key back gives that string, whatever it held before.
pub proof fn law_set_then_get(m: StoreModel, k: Seq<char>, v: Seq<char>)
    requires
        !m.contains_key(k) || is_scalar(m, k),
    ensures
        spec_set(m, k, v).1 == Ok::<(), KvError>(()),
        spec_get(spec_set(m, k, v).0, k) == Ok::<Seq<char>, KvError>(v),
{
}

/// Two additions to a counter return the running totals: an absent key
/// starts from zero, and the second addition starts where the first ended.
pub proof fn law_atomic_add_accumulates(m: StoreModel, k: Seq<char>, a: int, b: int)
    requires
        !m.contains_key(k) || is_counter(m, k),
        i32::MIN <= counter_of(m, k) + a <= i32::MAX,
        i32::MIN <= counter_of(m, k) + a + b <= i32::MAX,
    ensures
        !m.contains_key(k) ==> spec_atomic_add(m, k, a).1 == Ok::<int, KvError>(a),
        spec_atomic_add(m, k, a).1 == Ok::<int, KvError>(counter_of(m, k) + a),
        spec_atomic_add(spec_atomic_add(m, k, a).0, k, b).1 == Ok::<int, KvError>(
            counter_of(m, k) + a + b,
        ),
{
}

/// The store after `n` additions of one to the counter under `k`.
pub open spec fn increments(m: StoreModel, k: Seq<char>, n: nat) -> StoreModel
    decreases n,
{
    if n == 0 {
        m
    } else {
        spec_atomic_add(increments(m, k, (n - 1) as nat), k, 1).0
    }
}

/// No addition is lost: `n` additions of one to a fresh counter, one after
/// the other, leave it at exactly `n`.
pub proof fn law_increments_are_not_lost(m: StoreModel, k: Seq<char>, n: nat)
    requires
        !m.contains_key(k),
        n <= i32::MAX,
    ensures
        n > 0 ==> is_counter(increments(m, k, n), k),
        counter_of(increments(m, k, n), k) == n,
    decreases n,
{
    if n > 0 {
        law_increments_are_not_lost(m, k, (n - 1) as nat);
    }
}

/// A list from which every element is removed does not stay behind empty:
/// its key is deleted.
pub proof fn law_emptied_list_deletes_key(m: StoreModel, k: Seq<char>, item: Seq<char>)
    requires
        is_list(m, k),
        without(list_of(m, k), item).len() == 0,
    ensures
        !spec_list_del_item(m, k, item).0.contains_key(k),
        spec_list_del_item(m, k, item).1 == Ok::<nat, KvError>(list_of(m, k).len()),
{
}

/// Out-of-range indices are clamped: a range that starts at or before the
/// front and stops at or past the back is the whole list, and one that starts
/// past the back is empty.
pub proof fn law_range_clamps(l: Seq<Seq<char>>, start: int, stop: int)
    ensures
        (start == 0 || start + l.len() <= 0) && stop >= l.len() - 1 ==> inclusive_range(
            l,
            start,
            stop,
        ) == l,
        start >= l.len() ==> inclusive_range(l, start, stop) == Seq::<Seq<char>>::empty(),
{
    if (start == 0 || start + l.len() <= 0) && stop >= l.len() - 1 && l.len() > 0 {
        assert(l.subrange(0, l.len() as int) =~= l);
    }
}

/// Adding a member twice is adding it once: the set and its size are the same.
pub proof fn law_set_add_idempotent(m: StoreModel, k: Seq<char>, v: Seq<char>)
    requires
        !m.contains_key(k) || is_members(m, k),
    ensures
        spec_set_add(spec_set_add(m, k, v).0, k, v) == spec_set_add(m, k, v),
{
    let once = spec_set_add(m, k, v).0;
    assert(members_of(m, k).insert(v).insert(v) =~= members_of(m, k).insert(v));
    assert(once.insert(k, Entry::Members(members_of(m, k).insert(v))) =~= once);
}

/// An operation that needs another shape than the one a key holds fails with
/// `TypeMismatch` and leaves the store as it was: a counter can be neither
/// read as a string nor grown as a list or a set.
pub proof fn law_counter_rejects_other_shapes(m: StoreModel, k: Seq<char>, v: Seq<char>)
    requires
        is_counter(m, k),
    ensures
        spec_get(m, k) == Err::<Seq<char>, KvError>(KvError::TypeMismatch),
        spec_set(m, k, v) == (m, Err::<(), KvError>(KvError::TypeMismatch)),
        spec_list_add(m, k, v) == (m, Err::<nat, KvError>(KvError::TypeMismatch)),
        spec_set_add(m, k, v) == (m, Err::<nat, KvError>(KvError::TypeMismatch)),
{
}

/// Deleting a key a second time changes nothing further.
pub proof fn law_del_key_idempotent(m: StoreModel, k: Seq<char>)
    ensures
        spec_del_key(spec_del_key(m, k), k) == spec_del_key(m, k),
{
    assert(spec_del_key(spec_del_key(m, k), k) =~= spec_del_key(m, k));
}

} // verus!
