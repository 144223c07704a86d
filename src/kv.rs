use vstd::hash_map::StringHashMap;
use vstd::prelude::*;

use crate::error::KvError;
use crate::model::{
    in_every, is_members, list_of, members_of, spec_atomic_add, spec_del_key, spec_get,
    spec_list_add, spec_list_clear, spec_list_del_item, spec_list_range, spec_set, spec_set_add,
    spec_set_intersect, spec_set_members, spec_set_remove, spec_set_union, strs, without, Entry,
    StoreModel,
};

verus! {

/// A value held under a key. A list is never empty and a set is never empty
/// nor holds a string twice: the store deletes a key once its collection empties.
pub enum KeyValueItem {
    Atomic(i32),
    Scalar(String),
    List(Vec<String>),
    StringSet(Vec<String>),
}

impl View for KeyValueItem {
    type V = Entry;

    open spec fn view(&self) -> Entry {
        match self {
            KeyValueItem::Atomic(n) => Entry::Counter(*n as int),
            KeyValueItem::Scalar(s) => Entry::Scalar(s@),
            KeyValueItem::List(l) => Entry::List(strs(l@)),
            KeyValueItem::StringSet(s) => Entry::Members(strs(s@).to_set()),
        }
    }
}

impl KeyValueItem {
    /// No empty list, no empty set, no member of a set twice.
    pub open spec fn wf(&self) -> bool {
        match self {
            KeyValueItem::List(l) => l@.len() > 0,
            KeyValueItem::StringSet(s) => s@.len() > 0 && strs(s@).no_duplicates(),
            _ => true,
        }
    }
}

/// A copy of each string, in order.
fn copy_strings(v: &Vec<String>) -> (r: Vec<String>)
    ensures
        r@ == v@,
{
    let mut r: Vec<String> = Vec::new();
    let mut i: usize = 0;
    while i < v.len()
        invariant
            i <= v.len(),
            r@ == v@.subrange(0, i as int),
        decreases v.len() - i,
    {
        r.push(v[i].clone());
        i += 1;
        assert(r@ =~= v@.subrange(0, i as int));
    }
    assert(r@ =~= v@);
    r
}

/// Where `x` stands in `v`, if anywhere.
fn position_of(v: &Vec<String>, x: &String) -> (r: Option<usize>)
    ensures
        match r {
            Some(i) => i < v@.len() && v@[i as int]@ == x@,
            None => !strs(v@).contains(x@),
        },
{
    let mut i: usize = 0;
    while i < v.len()
        invariant
            i <= v.len(),
            forall|j: int| 0 <= j < i ==> v@[j]@ != x@,
        decreases v.len() - i,
    {
        if v[i] == *x {
            return Some(i);
        }
        i += 1;
    }
    proof {
        if strs(v@).contains(x@) {
            let j = choose|j: int| 0 <= j < strs(v@).len() && strs(v@)[j] == x@;
            assert(v@[j]@ == x@);
        }
    }
    None
}

/// Appending a string that is not yet present keeps a sequence free of
/// duplicates and adds that string to its set.
proof fn lemma_push_unique(s: Seq<Seq<char>>, x: Seq<char>)
    requires
        s.no_duplicates(),
        !s.contains(x),
    ensures
        s.push(x).no_duplicates(),
        s.push(x).to_set() == s.to_set().insert(x),
{
    let t = s.push(x);
    assert forall|a: int, b: int| 0 <= a < t.len() && 0 <= b < t.len() && a != b implies t[a] != t[b] by {
        if a == s.len() {
            assert(s[b] == t[b]);
        } else if b == s.len() {
            assert(s[a] == t[a]);
        }
    }
    s.lemma_push_to_set_commute(x);
}

/// Removing one position of a duplicate-free sequence removes exactly that
/// string from its set.
proof fn lemma_remove_unique(s: Seq<Seq<char>>, i: int)
    requires
        s.no_duplicates(),
        0 <= i < s.len(),
    ensures
        s.remove(i).no_duplicates(),
        s.remove(i).to_set() == s.to_set().remove(s[i]),
{
    let r = s.remove(i);
    assert forall|a: int, b: int| 0 <= a < r.len() && 0 <= b < r.len() && a != b implies r[a] != r[b] by {
        let a2 = if a < i { a } else { a + 1 };
        let b2 = if b < i { b } else { b + 1 };
        assert(r[a] == s[a2]);
        assert(r[b] == s[b2]);
    }
    assert forall|x: Seq<char>| r.contains(x) <==> (s.contains(x) && x != s[i]) by {
        if r.contains(x) {
            let k = choose|k: int| 0 <= k < r.len() && r[k] == x;
            let k2 = if k < i { k } else { k + 1 };
            assert(s[k2] == x);
        }
        if s.contains(x) && x != s[i] {
            let k = choose|k: int| 0 <= k < s.len() && s[k] == x;
            let k2 = if k < i { k } else { k - 1 };
            assert(r[k2] == x);
        }
    }
    assert(r.to_set() =~= s.to_set().remove(s[i]));
}

/// The union over one more key adds that key's members.
proof fn lemma_union_step(m: StoreModel, keys: Seq<Seq<char>>, i: int)
    requires
        0 <= i < keys.len(),
    ensures
        spec_set_union(m, keys.subrange(0, i + 1)) == spec_set_union(m, keys.subrange(0, i)).union(
            members_of(m, keys[i]),
        ),
{
    let a = keys.subrange(0, i + 1);
    let b = keys.subrange(0, i);
    assert forall|x: Seq<char>|
        spec_set_union(m, a).contains(x) <==> (spec_set_union(m, b).contains(x) || members_of(
            m,
            keys[i],
        ).contains(x)) by {
        if spec_set_union(m, a).contains(x) {
            let j = choose|j: int| 0 <= j < a.len() && #[trigger] members_of(m, a[j]).contains(x);
            if j < i {
                assert(b[j] == a[j]);
            }
        }
        if spec_set_union(m, b).contains(x) {
            let j = choose|j: int| 0 <= j < b.len() && #[trigger] members_of(m, b[j]).contains(x);
            assert(a[j] == b[j]);
        }
        if members_of(m, keys[i]).contains(x) {
            assert(a[i] == keys[i]);
        }
    }
    assert(spec_set_union(m, a) =~= spec_set_union(m, b).union(members_of(m, keys[i])));
}

/// What a sequence holds after one more element.
proof fn lemma_contains_push(s: Seq<Seq<char>>, y: Seq<char>, x: Seq<char>)
    ensures
        s.push(y).contains(x) <==> (s.contains(x) || x == y),
{
    if s.contains(x) {
        let k = choose|k: int| 0 <= k < s.len() && s[k] == x;
        assert(s.push(y)[k] == x);
    }
    if x == y {
        assert(s.push(y)[s.len() as int] == x);
    }
    if s.push(y).contains(x) {
        let k = choose|k: int| 0 <= k < s.len() + 1 && s.push(y)[k] == x;
        if k < s.len() {
            assert(s[k] == x);
        }
    }
}

/// An in-memory store mapping string keys to counters, strings, lists and sets.
pub struct KeyValueStore {
    items: StringHashMap<KeyValueItem>,
}

impl View for KeyValueStore {
    type V = StoreModel;

    closed spec fn view(&self) -> StoreModel {
        self.items@.map_values(|v: KeyValueItem| v@)
    }
}

impl KeyValueStore {
    /// Each entry is well formed: no empty list, no empty set, no member twice.
    pub closed spec fn wf(&self) -> bool {
        forall|k: Seq<char>| #[trigger] self.items@.contains_key(k) ==> self.items@[k].wf()
    }

    /// An empty store.
    pub fn new() -> (r: Self)
        ensures
            r.wf(),
            r@ == Map::<Seq<char>, Entry>::empty(),
    {
        let r = KeyValueStore { items: StringHashMap::new() };
        assert(r@ =~= Map::<Seq<char>, Entry>::empty());
        r
    }

    /// The string held under `key`.
    pub fn get(&self, key: &str) -> (r: Result<String, KvError>)
        requires
            self.wf(),
        ensures
            match r {
                Ok(s) => spec_get(self@, key@) == Ok::<Seq<char>, KvError>(s@),
                Err(e) => spec_get(self@, key@) == Err::<Seq<char>, KvError>(e),
            },
    {
        match self.items.get(key) {
            None => Err(KvError::NotFound),
            Some(KeyValueItem::Scalar(s)) => Ok(s.clone()),
            Some(_) => Err(KvError::TypeMismatch),
        }
    }

    /// Stores `value` under `key`, which must be absent or hold a string.
    pub fn set(&mut self, key: &str, value: String) -> (r: Result<(), KvError>)
        requires
            old(self).wf(),
        ensures
            final(self).wf(),
            (final(self)@, r) == spec_set(old(self)@, key@, value@),
    {
        match self.items.get(key) {
            None => {},
            Some(KeyValueItem::Scalar(_)) => {},
            Some(_) => {
                return Err(KvError::TypeMismatch);
            },
        }
        let ghost v = value@;
        self.items.insert(key.to_owned(), KeyValueItem::Scalar(value));
        assert(self@ =~= old(self)@.insert(key@, Entry::Scalar(v)));
        Ok(())
    }

    /// Adds `value` to the counter under `key`, which starts from zero where
    /// absent, and returns the new total.
    pub fn atomic_add(&mut self, key: &str, value: i32) -> (r: Result<i32, KvError>)
        requires
            old(self).wf(),
        ensures
            final(self).wf(),
            match r {
                Ok(n) => spec_atomic_add(old(self)@, key@, value as int) == (
                    final(self)@,
                    Ok::<int, KvError>(n as int),
                ),
                Err(e) => spec_atomic_add(old(self)@, key@, value as int) == (
                    final(self)@,
                    Err::<int, KvError>(e),
                ),
            },
    {
        let current: i32 = match self.items.get(key) {
            None => 0,
            Some(KeyValueItem::Atomic(n)) => *n,
            Some(_) => {
                return Err(KvError::TypeMismatch);
            },
        };
        let total = match current.checked_add(value) {
            Some(t) => t,
            None => {
                return Err(KvError::InvalidArgument);
            },
        };
        self.items.insert(key.to_owned(), KeyValueItem::Atomic(total));
        assert(self@ =~= old(self)@.insert(key@, Entry::Counter(total as int)));
        Ok(total)
    }

    /// Appends `item` to the list under `key`, created where absent, and
    /// returns the list's new length.
    pub fn list_add(&mut self, key: &str, item: &str) -> (r: Result<usize, KvError>)
        requires
            old(self).wf(),
        ensures
            final(self).wf(),
            match r {
                Ok(n) => spec_list_add(old(self)@, key@, item@) == (
                    final(self)@,
                    Ok::<nat, KvError>(n as nat),
                ),
                Err(e) => spec_list_add(old(self)@, key@, item@) == (
                    final(self)@,
                    Err::<nat, KvError>(e),
                ),
            },
    {
        let mut list: Vec<String> = match self.items.get(key) {
            None => Vec::new(),
            Some(KeyValueItem::List(l)) => copy_strings(l),
            Some(_) => {
                return Err(KvError::TypeMismatch);
            },
        };
        assert(strs(list@) == list_of(old(self)@, key@));
        list.push(item.to_owned());
        assert(strs(list@) =~= list_of(old(self)@, key@).push(item@));
        let n = list.len();
        let ghost l = strs(list@);
        self.items.insert(key.to_owned(), KeyValueItem::List(list));
        assert(self@ =~= old(self)@.insert(key@, Entry::List(l)));
        Ok(n)
    }

    /// Removes every occurrence of `item` from the list under `key`, keeping
    /// the order of the rest, and returns how many were removed. A list left
    /// empty is deleted with its key.
    pub fn list_del_item(&mut self, key: &str, item: &str) -> (r: Result<usize, KvError>)
        requires
            old(self).wf(),
        ensures
            final(self).wf(),
            match r {
                Ok(n) => spec_list_del_item(old(self)@, key@, item@) == (
                    final(self)@,
                    Ok::<nat, KvError>(n as nat),
                ),
                Err(e) => spec_list_del_item(old(self)@, key@, item@) == (
                    final(self)@,
                    Err::<nat, KvError>(e),
                ),
            },
    {
        let l: &Vec<String> = match self.items.get(key) {
            None => {
                return Ok(0);
            },
            Some(KeyValueItem::List(l)) => l,
            Some(_) => {
                return Err(KvError::TypeMismatch);
            },
        };
        let ghost lv = strs(l@);
        assert(lv == list_of(old(self)@, key@));
        let target = item.to_owned();
        let mut kept: Vec<String> = Vec::new();
        let mut i: usize = 0;
        while i < l.len()
            invariant
                i <= l@.len(),
                lv == strs(l@),
                target@ == item@,
                kept@.len() <= i,
                strs(kept@) == without(lv.subrange(0, i as int), item@),
            decreases l.len() - i,
        {
            let ghost prev = kept@;
            proof {
                assert(lv.subrange(0, i + 1) =~= lv.subrange(0, i as int).push(lv[i as int]));
                lv.subrange(0, i as int).lemma_filter_push(lv[i as int], |x: Seq<char>| x != item@);
            }
            if l[i] != target {
                let c = l[i].clone();
                kept.push(c);
                assert(strs(kept@) =~= strs(prev).push(lv[i as int]));
            }
            i += 1;
        }
        assert(lv.subrange(0, l@.len() as int) =~= lv);
        let removed = l.len() - kept.len();
        if kept.len() == 0 {
            self.items.remove(key);
            assert(self@ =~= old(self)@.remove(key@));
        } else {
            let ghost kv = strs(kept@);
            self.items.insert(key.to_owned(), KeyValueItem::List(kept));
            assert(self@ =~= old(self)@.insert(key@, Entry::List(kv)));
        }
        Ok(removed)
    }

    /// Removes the list under `key`; nothing happens where `key` holds nothing.
    pub fn list_clear(&mut self, key: &str) -> (r: Result<(), KvError>)
        requires
            old(self).wf(),
        ensures
            final(self).wf(),
            (final(self)@, r) == spec_list_clear(old(self)@, key@),
    {
        match self.items.get(key) {
            Some(KeyValueItem::List(_)) => {},
            None => {},
            Some(_) => {
                return Err(KvError::TypeMismatch);
            },
        }
        self.items.remove(key);
        assert(self@ =~= old(self)@.remove(key@));
        Ok(())
    }

    /// The elements of the list under `key` from `start` to `stop_include`,
    /// both included; negative indices count from the end (-1 is the last)
    /// and indices out of range are clamped.
    pub fn list_range(&self, key: &str, start: isize, stop_include: isize) -> (r: Result<Vec<String>, KvError>)
        requires
            self.wf(),
        ensures
            match r {
                Ok(v) => spec_list_range(self@, key@, start as int, stop_include as int) == Ok::<
                    Seq<Seq<char>>,
                    KvError,
                >(strs(v@)),
                Err(e) => spec_list_range(self@, key@, start as int, stop_include as int) == Err::<
                    Seq<Seq<char>>,
                    KvError,
                >(e),
            },
    {
        let l: &Vec<String> = match self.items.get(key) {
            None => {
                assert(strs(Seq::<String>::empty()) =~= Seq::<Seq<char>>::empty());
                return Ok(Vec::new());
            },
            Some(KeyValueItem::List(l)) => l,
            Some(_) => {
                return Err(KvError::TypeMismatch);
            },
        };
        let len = l.len();
        let ghost lv = strs(l@);
        assert(lv == list_of(self@, key@));
        let lo: usize = if start >= 0 {
            start as usize
        } else {
            let back: usize = (-(start + 1)) as usize + 1;
            if back > len {
                0
            } else {
                len - back
            }
        };
        let hi: usize = if stop_include >= 0 {
            if stop_include as usize >= len {
                len
            } else {
                stop_include as usize + 1
            }
        } else {
            let back: usize = (-(stop_include + 1)) as usize + 1;
            if back > len {
                0
            } else {
                len - back + 1
            }
        };
        let mut out: Vec<String> = Vec::new();
        if lo < hi {
            let mut i: usize = lo;
            while i < hi
                invariant
                    lo <= i <= hi <= len == l@.len(),
                    lv == strs(l@),
                    strs(out@) == lv.subrange(lo as int, i as int),
                decreases hi - i,
            {
                let ghost prev = out@;
                let c = l[i].clone();
                out.push(c);
                assert(strs(out@) =~= strs(prev).push(lv[i as int]));
                i += 1;
                assert(strs(out@) =~= lv.subrange(lo as int, i as int));
            }
        } else {
            assert(strs(out@) =~= Seq::<Seq<char>>::empty());
        }
        Ok(out)
    }

    /// Adds `value` to the set under `key`, created where absent, and returns
    /// the set's new size.
    pub fn set_add(&mut self, key: &str, value: &str) -> (r: Result<usize, KvError>)
        requires
            old(self).wf(),
        ensures
            final(self).wf(),
            match r {
                Ok(n) => spec_set_add(old(self)@, key@, value@) == (
                    final(self)@,
                    Ok::<nat, KvError>(n as nat),
                ),
                Err(e) => spec_set_add(old(self)@, key@, value@) == (
                    final(self)@,
                    Err::<nat, KvError>(e),
                ),
            },
    {
        let mut members: Vec<String> = match self.items.get(key) {
            None => Vec::new(),
            Some(KeyValueItem::StringSet(s)) => copy_strings(s),
            Some(_) => {
                return Err(KvError::TypeMismatch);
            },
        };
        let ghost before = strs(members@);
        proof {
            if !is_members(old(self)@, key@) {
                assert(before.to_set() =~= Set::<Seq<char>>::empty());
            }
        }
        assert(before.to_set() == members_of(old(self)@, key@));
        let v = value.to_owned();
        match position_of(&members, &v) {
            None => {
                members.push(v);
                proof {
                    assert(strs(members@) =~= before.push(value@));
                    lemma_push_unique(before, value@);
                }
            },
            Some(p) => {
                assert(before[p as int] == value@);
                assert(before.to_set().insert(value@) =~= before.to_set());
            },
        }
        let ghost after = strs(members@);
        proof {
            after.unique_seq_to_set();
        }
        let n = members.len();
        self.items.insert(key.to_owned(), KeyValueItem::StringSet(members));
        assert(self@ =~= old(self)@.insert(key@, Entry::Members(after.to_set())));
        Ok(n)
    }

    /// Removes `value` from the set under `key` and returns the set's new
    /// size. A set left empty is deleted with its key.
    pub fn set_remove(&mut self, key: &str, value: &str) -> (r: Result<usize, KvError>)
        requires
            old(self).wf(),
        ensures
            final(self).wf(),
            match r {
                Ok(n) => spec_set_remove(old(self)@, key@, value@) == (
                    final(self)@,
                    Ok::<nat, KvError>(n as nat),
                ),
                Err(e) => spec_set_remove(old(self)@, key@, value@) == (
                    final(self)@,
                    Err::<nat, KvError>(e),
                ),
            },
    {
        let mut members: Vec<String> = match self.items.get(key) {
            None => {
                return Ok(0);
            },
            Some(KeyValueItem::StringSet(s)) => copy_strings(s),
            Some(_) => {
                return Err(KvError::TypeMismatch);
            },
        };
        let ghost before = strs(members@);
        assert(before.to_set() == members_of(old(self)@, key@));
        let v = value.to_owned();
        match position_of(&members, &v) {
            Some(i) => {
                members.remove(i);
                proof {
                    assert(strs(members@) =~= before.remove(i as int));
                    lemma_remove_unique(before, i as int);
                }
            },
            None => {
                assert(before.to_set().remove(value@) =~= before.to_set());
            },
        }
        let ghost after = strs(members@);
        proof {
            after.unique_seq_to_set();
        }
        let n = members.len();
        if n == 0 {
            self.items.remove(key);
            assert(self@ =~= old(self)@.remove(key@));
        } else {
            self.items.insert(key.to_owned(), KeyValueItem::StringSet(members));
            assert(self@ =~= old(self)@.insert(key@, Entry::Members(after.to_set())));
        }
        Ok(n)
    }

    /// The members of the set under `key`, each once, in no set order.
    pub fn set_members(&self, key: &str) -> (r: Result<Vec<String>, KvError>)
        requires
            self.wf(),
        ensures
            match r {
                Ok(v) => strs(v@).no_duplicates() && spec_set_members(self@, key@) == Ok::<
                    Set<Seq<char>>,
                    KvError,
                >(strs(v@).to_set()),
                Err(e) => spec_set_members(self@, key@) == Err::<Set<Seq<char>>, KvError>(e),
            },
    {
        match self.items.get(key) {
            None => {
                let out: Vec<String> = Vec::new();
                assert(strs(out@).to_set() =~= Set::<Seq<char>>::empty());
                Ok(out)
            },
            Some(KeyValueItem::StringSet(s)) => Ok(copy_strings(s)),
            Some(_) => Err(KvError::TypeMismatch),
        }
    }

    /// The strings that are members of the set under any of `keys`, each
    /// once. A key that holds no set adds nothing.
    pub fn set_union(&self, keys: Vec<String>) -> (r: Result<Vec<String>, KvError>)
        requires
            self.wf(),
        ensures
            match r {
                Ok(v) => strs(v@).no_duplicates() && strs(v@).to_set() == spec_set_union(
                    self@,
                    strs(keys@),
                ),
                Err(_) => false,
            },
    {
        let ghost ks = strs(keys@);
        let mut out: Vec<String> = Vec::new();
        assert(strs(out@).to_set() =~= spec_set_union(self@, ks.subrange(0, 0)));
        let mut i: usize = 0;
        while i < keys.len()
            invariant
                i <= keys@.len(),
                ks == strs(keys@),
                self.wf(),
                strs(out@).no_duplicates(),
                strs(out@).to_set() == spec_set_union(self@, ks.subrange(0, i as int)),
            decreases keys.len() - i,
        {
            proof {
                lemma_union_step(self@, ks, i as int);
            }
            let ghost base = strs(out@).to_set();
            match self.items.get(keys[i].as_str()) {
                Some(KeyValueItem::StringSet(s)) => {
                    let ghost sv = strs(s@);
                    assert(sv.to_set() == members_of(self@, ks[i as int]));
                    let mut j: usize = 0;
                    assert(base.union(sv.subrange(0, 0).to_set()) =~= base);
                    while j < s.len()
                        invariant
                            j <= s@.len(),
                            sv == strs(s@),
                            strs(out@).no_duplicates(),
                            strs(out@).to_set() == base.union(sv.subrange(0, j as int).to_set()),
                        decreases s.len() - j,
                    {
                        let ghost prev = strs(out@);
                        proof {
                            sv.subrange(0, j as int).lemma_push_to_set_commute(sv[j as int]);
                            assert(sv.subrange(0, j + 1) =~= sv.subrange(0, j as int).push(
                                sv[j as int],
                            ));
                        }
                        match position_of(&out, &s[j]) {
                            None => {
                                let c = s[j].clone();
                                out.push(c);
                                proof {
                                    assert(strs(out@) =~= prev.push(sv[j as int]));
                                    lemma_push_unique(prev, sv[j as int]);
                                }
                            },
                            Some(p) => {
                                assert(prev[p as int] == sv[j as int]);
                                assert(prev.to_set().insert(sv[j as int]) =~= prev.to_set());
                            },
                        }
                        assert(strs(out@).to_set() == prev.to_set().insert(sv[j as int]));
                        j += 1;
                        assert(strs(out@).to_set() =~= base.union(
                            sv.subrange(0, j as int).to_set(),
                        ));
                    }
                    assert(sv.subrange(0, s@.len() as int) =~= sv);
                },
                _ => {
                    assert(members_of(self@, ks[i as int]) == Set::<Seq<char>>::empty());
                    assert(base.union(Set::<Seq<char>>::empty()) =~= base);
                },
            }
            i += 1;
        }
        assert(ks.subrange(0, keys@.len() as int) =~= ks);
        Ok(out)
    }

    /// Whether `x` is a member of the set under each of `keys`.
    fn in_every_set(&self, keys: &Vec<String>, x: &String) -> (r: bool)
        requires
            self.wf(),
        ensures
            r == in_every(self@, strs(keys@), x@),
    {
        let ghost ks = strs(keys@);
        let mut i: usize = 0;
        while i < keys.len()
            invariant
                i <= keys@.len(),
                ks == strs(keys@),
                forall|t: int| 0 <= t < i ==> #[trigger] members_of(self@, ks[t]).contains(x@),
            decreases keys.len() - i,
        {
            match self.items.get(keys[i].as_str()) {
                Some(KeyValueItem::StringSet(s)) => {
                    assert(strs(s@).to_set() == members_of(self@, ks[i as int]));
                    match position_of(s, x) {
                        None => {
                            assert(!members_of(self@, ks[i as int]).contains(x@));
                            return false;
                        },
                        Some(p) => {
                            assert(strs(s@)[p as int] == x@);
                        },
                    }
                },
                _ => {
                    assert(members_of(self@, ks[i as int]) == Set::<Seq<char>>::empty());
                    assert(!members_of(self@, ks[i as int]).contains(x@));
                    return false;
                },
            }
            i += 1;
        }
        true
    }

    /// The strings that are members of the set under every one of `keys`,
    /// each once. No keys, or a key that holds no set, give an empty result.
    pub fn set_intersect(&self, keys: Vec<String>) -> (r: Result<Vec<String>, KvError>)
        requires
            self.wf(),
        ensures
            match r {
                Ok(v) => strs(v@).no_duplicates() && strs(v@).to_set() == spec_set_intersect(
                    self@,
                    strs(keys@),
                ),
                Err(_) => false,
            },
    {
        let ghost ks = strs(keys@);
        let mut out: Vec<String> = Vec::new();
        assert(strs(out@).to_set() =~= Set::<Seq<char>>::empty());
        if keys.len() == 0 {
            return Ok(out);
        }
        let first: &Vec<String> = match self.items.get(keys[0].as_str()) {
            Some(KeyValueItem::StringSet(s)) => s,
            _ => {
                assert(members_of(self@, ks[0]) == Set::<Seq<char>>::empty());
                assert(spec_set_intersect(self@, ks) =~= Set::<Seq<char>>::empty());
                return Ok(out);
            },
        };
        let ghost fs = strs(first@);
        assert(fs.to_set() == members_of(self@, ks[0]));
        let mut j: usize = 0;
        while j < first.len()
            invariant
                j <= first@.len(),
                fs == strs(first@),
                fs.no_duplicates(),
                ks == strs(keys@),
                self.wf(),
                strs(out@).no_duplicates(),
                forall|x: Seq<char>|
                    strs(out@).contains(x) <==> (fs.subrange(0, j as int).contains(x) && in_every(
                        self@,
                        ks,
                        x,
                    )),
            decreases first.len() - j,
        {
            let ghost prev = strs(out@);
            let ghost y = fs[j as int];
            proof {
                assert(fs.subrange(0, j + 1) =~= fs.subrange(0, j as int).push(y));
                assert(!fs.subrange(0, j as int).contains(y)) by {
                    if fs.subrange(0, j as int).contains(y) {
                        let k = choose|k: int| 0 <= k < j && fs.subrange(0, j as int)[k] == y;
                        assert(fs[k] == y);
                    }
                }
            }
            if self.in_every_set(&keys, &first[j]) {
                let c = first[j].clone();
                out.push(c);
                proof {
                    assert(strs(out@) =~= prev.push(y));
                    lemma_push_unique(prev, y);
                }
            }
            proof {
                assert forall|x: Seq<char>|
                    strs(out@).contains(x) <==> (fs.subrange(0, j + 1).contains(x) && in_every(
                        self@,
                        ks,
                        x,
                    )) by {
                    lemma_contains_push(prev, y, x);
                    lemma_contains_push(fs.subrange(0, j as int), y, x);
                }
            }
            j += 1;
        }
        assert(fs.subrange(0, first@.len() as int) =~= fs);
        assert forall|x: Seq<char>|
            strs(out@).to_set().contains(x) <==> spec_set_intersect(self@, ks).contains(x) by {
            if in_every(self@, ks, x) {
                assert(members_of(self@, ks[0]).contains(x));
            }
        }
        assert(strs(out@).to_set() =~= spec_set_intersect(self@, ks));
        Ok(out)
    }

    /// Removes whatever `key` holds; nothing happens where it holds nothing.
    pub fn del_key(&mut self, key: &str) -> (r: Result<(), KvError>)
        requires
            old(self).wf(),
        ensures
            final(self).wf(),
            final(self)@ == spec_del_key(old(self)@, key@),
            r is Ok,
    {
        self.items.remove(key);
        assert(self@ =~= old(self)@.remove(key@));
        Ok(())
    }

    /// Whether `key` holds anything.
    pub fn key_exists(&self, key: &str) -> (r: Result<bool, KvError>)
        ensures
            r == Ok::<bool, KvError>(self@.contains_key(key@)),
    {
        Ok(self.items.contains_key(key))
    }
}

} // verus!
