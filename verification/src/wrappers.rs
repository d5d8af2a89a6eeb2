//! The containers that a [`Value`] is built from.

use crate::value::{
    clone_entries, clone_items, entries_subset_of, equal, hashable, is_hashable, is_member,
    member, pair_views, same_entries, same_members, subset_of, views, Value, ValueView,
};
use vstd::prelude::*;
use vstd::std_specs::cmp::PartialEqSpecImpl;
use vstd::std_specs::convert::FromSpecImpl;

verus! {

/// A double, held as its IEEE-754 bit pattern. Two of them are the same value exactly
/// when their bits are.
#[derive(Clone, Copy, Debug, PartialEq, Eq, Structural, Hash)]
pub struct F64Wrapper(pub u64);

/// A set of values. Its members are kept in the order in which they came, and no two
/// of them are the same value (see `wf`).
#[derive(Debug)]
pub struct HashSetWrapper(pub Vec<Value>);

/// A dict. Its entries are kept in the order in which their keys came, and no two of
/// its keys are the same value (see `wf`).
#[derive(Debug)]
pub struct HashMapWrapper(pub Vec<(Value, Value)>);

impl View for HashSetWrapper {
    type V = Seq<ValueView>;

    open spec fn view(&self) -> Seq<ValueView> {
        views(self.0@)
    }
}

impl View for HashMapWrapper {
    type V = Seq<(ValueView, ValueView)>;

    open spec fn view(&self) -> Seq<(ValueView, ValueView)> {
        pair_views(self.0@)
    }
}

/// The set `s` after `v` came: `v` is added at the end unless `s` has a member that is
/// the same value.
pub open spec fn set_insert(s: Seq<ValueView>, v: ValueView) -> Seq<ValueView> {
    if member(v, s) {
        s
    } else {
        s.push(v)
    }
}

/// The set `s` after the values of `items` came, from position `i` on and in their
/// order.
pub open spec fn set_extend(s: Seq<ValueView>, items: Seq<ValueView>, i: int) -> Seq<ValueView>
    decreases items.len() - i,
{
    if 0 <= i < items.len() {
        set_extend(set_insert(s, items[i]), items, i + 1)
    } else {
        s
    }
}

/// The position of the first entry of `d` from `from` on whose key is the same value as
/// `k`, or the length of `d` where there is none.
pub open spec fn key_index(d: Seq<(ValueView, ValueView)>, k: ValueView, from: int) -> int
    decreases d.len() - from,
{
    if 0 <= from < d.len() {
        if equal(k, d[from].0) {
            from
        } else {
            key_index(d, k, from + 1)
        }
    } else {
        d.len() as int
    }
}

/// The dict `d` after the entry of `k` and `v` came: where `d` has the key, the entry
/// keeps its place and its key and takes the value `v`; else the entry is added at the
/// end.
pub open spec fn dict_insert(d: Seq<(ValueView, ValueView)>, k: ValueView, v: ValueView) -> Seq<
    (ValueView, ValueView),
> {
    let i = key_index(d, k, 0);
    if i < d.len() {
        d.update(i, (d[i].0, v))
    } else {
        d.push((k, v))
    }
}

/// The dict `d` after the entries of `entries` came, from position `i` on and in their
/// order.
pub open spec fn dict_collect(
    d: Seq<(ValueView, ValueView)>,
    entries: Seq<(ValueView, ValueView)>,
    i: int,
) -> Seq<(ValueView, ValueView)>
    decreases entries.len() - i,
{
    if 0 <= i < entries.len() {
        dict_collect(dict_insert(d, entries[i].0, entries[i].1), entries, i + 1)
    } else {
        d
    }
}

/// The dict `d` after the entries came that `items` spell from position `i` on: a key,
/// its value, the next key, its value. A last item without a partner is left out.
pub open spec fn dict_extend(d: Seq<(ValueView, ValueView)>, items: Seq<ValueView>, i: int) -> Seq<
    (ValueView, ValueView),
>
    decreases items.len() - i,
{
    if 0 <= i && i + 1 < items.len() {
        dict_extend(dict_insert(d, items[i], items[i + 1]), items, i + 2)
    } else {
        d
    }
}

/// Whether no value of `items` is the same value as one before it.
pub open spec fn distinct(items: Seq<ValueView>) -> bool {
    forall|i: int, j: int|
        0 <= i < j < items.len() ==> !equal(#[trigger] items[j], #[trigger] items[i])
}

/// Whether no key of `entries` is the same value as one before it.
pub open spec fn distinct_keys(entries: Seq<(ValueView, ValueView)>) -> bool {
    forall|i: int, j: int|
        0 <= i < j < entries.len() ==> !equal(
            (#[trigger] entries[j]).0,
            (#[trigger] entries[i]).0,
        )
}

/// Where `key_index` finds no key, no key of the dict is the same value as `k`; where
/// it finds one, that is a position of the dict.
pub(crate) proof fn lemma_key_index(d: Seq<(ValueView, ValueView)>, k: ValueView, from: int)
    requires
        0 <= from,
    ensures
        from <= key_index(d, k, from) <= d.len() || (from > d.len() && key_index(d, k, from)
            == d.len()),
        key_index(d, k, from) == d.len() ==> forall|j: int|
            from <= j < d.len() ==> !equal(k, (#[trigger] d[j]).0),
    decreases d.len() - from,
{
    if from < d.len() {
        lemma_key_index(d, k, from + 1);
    }
}

/// A set without a value twice has none twice after values came.
pub(crate) proof fn lemma_set_extend_distinct(s: Seq<ValueView>, items: Seq<ValueView>, i: int)
    requires
        0 <= i,
        distinct(s),
    ensures
        distinct(set_extend(s, items, i)),
    decreases items.len() - i,
{
    if i < items.len() {
        lemma_set_extend_distinct(set_insert(s, items[i]), items, i + 1);
    }
}

/// A dict without a key twice has none twice after an entry came.
pub(crate) proof fn lemma_dict_insert_distinct(
    d: Seq<(ValueView, ValueView)>,
    k: ValueView,
    v: ValueView,
)
    requires
        distinct_keys(d),
    ensures
        distinct_keys(dict_insert(d, k, v)),
{
    lemma_key_index(d, k, 0);
}

/// The same after the entries came that a sequence of keys and values spells.
pub(crate) proof fn lemma_dict_extend_distinct(
    d: Seq<(ValueView, ValueView)>,
    items: Seq<ValueView>,
    i: int,
)
    requires
        0 <= i,
        distinct_keys(d),
    ensures
        distinct_keys(dict_extend(d, items, i)),
    decreases items.len() - i,
{
    if i + 1 < items.len() {
        lemma_dict_insert_distinct(d, items[i], items[i + 1]);
        lemma_dict_extend_distinct(dict_insert(d, items[i], items[i + 1]), items, i + 2);
    }
}

/// The same after several entries came.
pub(crate) proof fn lemma_dict_collect_distinct(
    d: Seq<(ValueView, ValueView)>,
    entries: Seq<(ValueView, ValueView)>,
    i: int,
)
    requires
        0 <= i,
        distinct_keys(d),
    ensures
        distinct_keys(dict_collect(d, entries, i)),
    decreases entries.len() - i,
{
    if i < entries.len() {
        lemma_dict_insert_distinct(d, entries[i].0, entries[i].1);
        lemma_dict_collect_distinct(
            dict_insert(d, entries[i].0, entries[i].1),
            entries,
            i + 1,
        );
    }
}

/// A set that is built of values that can be members has no value twice.
pub(crate) proof fn lemma_build_set_distinct(items: Seq<ValueView>, i: int, acc: Seq<ValueView>)
    requires
        0 <= i,
        distinct(acc),
        build_set(items, i, acc) is Some,
    ensures
        distinct(build_set(items, i, acc)->0),
    decreases items.len() - i,
{
    if i < items.len() {
        lemma_build_set_distinct(items, i + 1, set_insert(acc, items[i]));
    }
}

/// A dict that is built of entries whose keys can be keys has no key twice.
pub(crate) proof fn lemma_build_dict_distinct(
    entries: Seq<(ValueView, ValueView)>,
    i: int,
    acc: Seq<(ValueView, ValueView)>,
)
    requires
        0 <= i,
        distinct_keys(acc),
        build_dict(entries, i, acc) is Some,
    ensures
        distinct_keys(build_dict(entries, i, acc)->0),
    decreases entries.len() - i,
{
    if i < entries.len() {
        lemma_dict_insert_distinct(acc, entries[i].0, entries[i].1);
        lemma_build_dict_distinct(
            entries,
            i + 1,
            dict_insert(acc, entries[i].0, entries[i].1),
        );
    }
}

/// The set of the values of `items` from position `i` on, after `acc`. There is no
/// result where one of them cannot be a member of a set.
pub open spec fn build_set(items: Seq<ValueView>, i: int, acc: Seq<ValueView>) -> Option<
    Seq<ValueView>,
>
    decreases items.len() - i,
{
    if 0 <= i < items.len() {
        if hashable(items[i]) {
            build_set(items, i + 1, set_insert(acc, items[i]))
        } else {
            None
        }
    } else {
        Some(acc)
    }
}

/// The dict of the entries of `entries` from position `i` on, after `acc`. There is no
/// result where one of the keys cannot be a key of a dict.
pub open spec fn build_dict(
    entries: Seq<(ValueView, ValueView)>,
    i: int,
    acc: Seq<(ValueView, ValueView)>,
) -> Option<Seq<(ValueView, ValueView)>>
    decreases entries.len() - i,
{
    if 0 <= i < entries.len() {
        if hashable(entries[i].0) {
            build_dict(entries, i + 1, dict_insert(acc, entries[i].0, entries[i].1))
        } else {
            None
        }
    } else {
        Some(acc)
    }
}

impl HashSetWrapper {
    /// What holds of a set: no two of its members are the same value. Every function of
    /// this type makes such a set of such a set.
    pub open spec fn wf(&self) -> bool {
        distinct(self@)
    }

    /// The empty set.
    pub fn new() -> (r: Self)
        ensures
            r@ == Seq::<ValueView>::empty(),
            r.wf(),
    {
        let r = HashSetWrapper(Vec::new());
        r
    }

    /// The number of members.
    pub fn len(&self) -> (n: usize)
        ensures
            n == self@.len(),
    {
        self.0.len()
    }

    /// Whether the set has a member that is the same value as `v`.
    pub fn contains(&self, v: &Value) -> (r: bool)
        ensures
            r == member(v@, self@),
    {
        is_member(v, &self.0)
    }

    /// Adds `v` unless the set has it. Says whether it was added.
    pub fn insert(&mut self, v: Value) -> (added: bool)
        ensures
            final(self)@ == set_insert(old(self)@, v@),
            added == !member(v@, old(self)@),
            old(self).wf() ==> final(self).wf(),
    {
        if is_member(&v, &self.0) {
            false
        } else {
            self.0.push(v);
            true
        }
    }

    /// Adds the values of `items` in their order, each unless the set has it.
    pub fn extend(&mut self, items: Vec<Value>)
        ensures
            final(self)@ == set_extend(old(self)@, views(items@), 0),
            old(self).wf() ==> final(self).wf(),
    {
        proof {
            if old(self).wf() {
                lemma_set_extend_distinct(old(self)@, views(items@), 0);
            }
        }
        let mut items = items;
        let ghost all = views(items@);
        let mut i: usize = 0;
        let n = items.len();
        while i < n
            invariant
                i <= n,
                n == all.len(),
                items@.len() == n,
                forall|k: int| i <= k < n ==> (#[trigger] items@[k])@ == all[k],
                set_extend(self@, all, i as int) == set_extend(old(self)@, all, 0),
            decreases n - i,
        {
            let mut v = Value::NoneValue;
            std::mem::swap(&mut v, &mut items[i]);
            self.insert(v);
            i += 1;
        }
    }

    /// The set of the values of `items`, which come in their order.
    pub fn from_items(items: Vec<Value>) -> (r: Self)
        ensures
            r@ == set_extend(Seq::<ValueView>::empty(), views(items@), 0),
            r.wf(),
    {
        let mut r = HashSetWrapper::new();
        r.extend(items);
        r
    }

    /// The set of the values of `items`, where each of them can be a member of a set.
    pub fn from_hashable(items: Vec<Value>) -> (r: Option<Self>)
        ensures
            match r {
                Some(set) => build_set(views(items@), 0, Seq::empty()) == Some(set@) && set.wf(),
                None => build_set(views(items@), 0, Seq::empty()) is None,
            },
    {
        proof {
            if build_set(views(items@), 0, Seq::empty()) is Some {
                lemma_build_set_distinct(views(items@), 0, Seq::empty());
            }
        }
        let ghost all = views(items@);
        let mut rest = items;
        let mut set = HashSetWrapper::new();
        let mut i: usize = 0;
        let n = rest.len();
        while i < n
            invariant
                i <= n,
                n == all.len(),
                all == views(items@),
                rest@.len() == n,
                forall|k: int| i <= k < n ==> (#[trigger] rest@[k])@ == all[k],
                build_set(all, i as int, set@) == build_set(all, 0, Seq::empty()),
            decreases n - i,
        {
            let mut v = Value::NoneValue;
            std::mem::swap(&mut v, &mut rest[i]);
            if !is_hashable(&v) {
                return None;
            }
            set.insert(v);
            i += 1;
        }
        Some(set)
    }
}

/// Where the key of `k` stands in `d`, or the length of `d` where it is no key of `d`.
pub fn find_key(d: &Vec<(Value, Value)>, k: &Value) -> (i: usize)
    ensures
        i == key_index(pair_views(d@), k@, 0),
{
    let mut i: usize = 0;
    while i < d.len()
        invariant
            i <= d.len(),
            key_index(pair_views(d@), k@, i as int) == key_index(pair_views(d@), k@, 0),
        decreases d.len() - i,
    {
        if k.same(&d[i].0) {
            return i;
        }
        i += 1;
    }
    i
}

impl HashMapWrapper {
    /// What holds of a dict: no two of its keys are the same value. Every function of
    /// this type makes such a dict of such a dict.
    pub open spec fn wf(&self) -> bool {
        distinct_keys(self@)
    }

    /// The empty dict.
    pub fn new() -> (r: Self)
        ensures
            r@ == Seq::<(ValueView, ValueView)>::empty(),
            r.wf(),
    {
        let r = HashMapWrapper(Vec::new());
        r
    }

    /// The number of entries.
    pub fn len(&self) -> (n: usize)
        ensures
            n == self@.len(),
    {
        self.0.len()
    }

    /// Sets the value of the key `k` to `v`. An entry that has the key keeps its place
    /// and its key; else the entry is added at the end.
    pub fn insert(&mut self, k: Value, v: Value)
        ensures
            final(self)@ == dict_insert(old(self)@, k@, v@),
            old(self).wf() ==> final(self).wf(),
    {
        proof {
            if old(self).wf() {
                lemma_dict_insert_distinct(old(self)@, k@, v@);
            }
        }
        let i = find_key(&self.0, &k);
        if i < self.0.len() {
            self.0[i].1 = v;
            assert(self@ =~= old(self)@.update(i as int, (old(self)@[i as int].0, v@)));
        } else {
            self.0.push((k, v));
            assert(self@ =~= old(self)@.push((k@, v@)));
        }
    }

    /// Adds the entries that `items` spell: a key, its value, the next key, its value.
    /// A last item without a partner is left out.
    pub fn extend(&mut self, items: Vec<Value>)
        ensures
            final(self)@ == dict_extend(old(self)@, views(items@), 0),
            old(self).wf() ==> final(self).wf(),
    {
        proof {
            if old(self).wf() {
                lemma_dict_extend_distinct(old(self)@, views(items@), 0);
            }
        }
        let mut items = items;
        let ghost all = views(items@);
        let mut i: usize = 0;
        let n = items.len();
        while i < n && n - i >= 2
            invariant
                i <= n,
                n == all.len(),
                items@.len() == n,
                forall|k: int| i <= k < n ==> (#[trigger] items@[k])@ == all[k],
                dict_extend(self@, all, i as int) == dict_extend(old(self)@, all, 0),
            decreases n - i,
        {
            let mut key = Value::NoneValue;
            let mut val = Value::NoneValue;
            std::mem::swap(&mut key, &mut items[i]);
            std::mem::swap(&mut val, &mut items[i + 1]);
            self.insert(key, val);
            i += 2;
        }
    }

    /// The dict of the entries that `items` spell.
    pub fn from_items(items: Vec<Value>) -> (r: Self)
        ensures
            r@ == dict_extend(Seq::<(ValueView, ValueView)>::empty(), views(items@), 0),
            r.wf(),
    {
        let mut r = HashMapWrapper::new();
        r.extend(items);
        r
    }

    /// The dict of the given entries, where each of the keys can be a key of a dict.
    pub fn from_hashable(entries: Vec<(Value, Value)>) -> (r: Option<Self>)
        ensures
            match r {
                Some(dict) => build_dict(pair_views(entries@), 0, Seq::empty()) == Some(dict@)
                    && dict.wf(),
                None => build_dict(pair_views(entries@), 0, Seq::empty()) is None,
            },
    {
        proof {
            if build_dict(pair_views(entries@), 0, Seq::empty()) is Some {
                lemma_build_dict_distinct(pair_views(entries@), 0, Seq::empty());
            }
        }
        let ghost all = pair_views(entries@);
        let mut rest = entries;
        let mut dict = HashMapWrapper::new();
        let mut i: usize = 0;
        let n = rest.len();
        while i < n
            invariant
                i <= n,
                n == all.len(),
                all == pair_views(entries@),
                rest@.len() == n,
                forall|k: int|
                    i <= k < n ==> (#[trigger] rest@[k]).0@ == all[k].0 && rest@[k].1@
                        == all[k].1,
                build_dict(all, i as int, dict@) == build_dict(all, 0, Seq::empty()),
            decreases n - i,
        {
            let mut entry = (Value::NoneValue, Value::NoneValue);
            std::mem::swap(&mut entry, &mut rest[i]);
            let (key, val) = entry;
            if !is_hashable(&key) {
                return None;
            }
            dict.insert(key, val);
            i += 1;
        }
        Some(dict)
    }
}

impl Clone for HashSetWrapper {
    fn clone(&self) -> (r: Self)
        ensures
            r@ == self@,
    {
        HashSetWrapper(clone_items(&self.0))
    }
}

impl Clone for HashMapWrapper {
    fn clone(&self) -> (r: Self)
        ensures
            r@ == self@,
    {
        HashMapWrapper(clone_entries(&self.0))
    }
}

impl PartialEq for HashSetWrapper {
    fn eq(&self, other: &Self) -> (r: bool) {
        subset_of(&self.0, &other.0)
    }
}

/// Two sets are equal when they have as many members and every member of the one is a
/// member of the other.
impl PartialEqSpecImpl for HashSetWrapper {
    open spec fn obeys_eq_spec() -> bool {
        true
    }

    open spec fn eq_spec(&self, other: &Self) -> bool {
        same_members(self@, other@)
    }
}

impl Eq for HashSetWrapper {

}

impl PartialEq for HashMapWrapper {
    fn eq(&self, other: &Self) -> (r: bool) {
        entries_subset_of(&self.0, &other.0)
    }
}

/// Two dicts are equal when they have as many entries and every entry of the one is an
/// entry of the other.
impl PartialEqSpecImpl for HashMapWrapper {
    open spec fn obeys_eq_spec() -> bool {
        true
    }

    open spec fn eq_spec(&self, other: &Self) -> bool {
        same_entries(self@, other@)
    }
}

impl Eq for HashMapWrapper {

}

impl Default for HashSetWrapper {
    fn default() -> (r: Self)
        ensures
            r@ == Seq::<ValueView>::empty(),
            r.wf(),
    {
        HashSetWrapper::new()
    }
}

impl Default for HashMapWrapper {
    fn default() -> (r: Self)
        ensures
            r@ == Seq::<(ValueView, ValueView)>::empty(),
            r.wf(),
    {
        HashMapWrapper::new()
    }
}

impl From<Vec<Value>> for HashSetWrapper {
    /// The set of the values of `items`, which come in their order.
    fn from(items: Vec<Value>) -> (r: Self)
        ensures
            r@ == set_extend(Seq::<ValueView>::empty(), views(items@), 0),
            r.wf(),
    {
        HashSetWrapper::from_items(items)
    }
}

/// What `from` hands back is stated by its own contract, over the view.
impl FromSpecImpl<Vec<Value>> for HashSetWrapper {
    open spec fn obeys_from_spec() -> bool {
        false
    }

    open spec fn from_spec(items: Vec<Value>) -> HashSetWrapper {
        arbitrary()
    }
}

impl From<Vec<(Value, Value)>> for HashMapWrapper {
    /// The dict of the given entries, which come in their order.
    fn from(entries: Vec<(Value, Value)>) -> (r: Self)
        ensures
            r@ == dict_collect(Seq::<(ValueView, ValueView)>::empty(), pair_views(entries@), 0),
            r.wf(),
    {
        proof {
            lemma_dict_collect_distinct(Seq::empty(), pair_views(entries@), 0);
        }
        let ghost all = pair_views(entries@);
        let mut rest = entries;
        let mut dict = HashMapWrapper::new();
        let mut i: usize = 0;
        let n = rest.len();
        while i < n
            invariant
                i <= n,
                n == all.len(),
                rest@.len() == n,
                forall|k: int|
                    i <= k < n ==> (#[trigger] rest@[k]).0@ == all[k].0 && rest@[k].1@
                        == all[k].1,
                dict_collect(dict@, all, i as int) == dict_collect(Seq::empty(), all, 0),
            decreases n - i,
        {
            let mut entry = (Value::NoneValue, Value::NoneValue);
            std::mem::swap(&mut entry, &mut rest[i]);
            let (key, val) = entry;
            dict.insert(key, val);
            i += 1;
        }
        dict
    }
}

/// What `from` hands back is stated by its own contract, over the view.
impl FromSpecImpl<Vec<(Value, Value)>> for HashMapWrapper {
    open spec fn obeys_from_spec() -> bool {
        false
    }

    open spec fn from_spec(entries: Vec<(Value, Value)>) -> HashMapWrapper {
        arbitrary()
    }
}

} // verus!
