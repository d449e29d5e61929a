use vstd::prelude::*;
use crate::subscriber::{ShareGroup, Subscriber};

verus! {

/// The keys that a list of strings holds, in order.
pub open spec fn key_views(keys: Seq<String>) -> Seq<Seq<char>> {
    keys.map_values(|k: String| k@)
}

/// The keys of a list of entries, in order.
pub open spec fn entry_keys<V>(entries: Seq<(String, V)>) -> Seq<Seq<char>> {
    entries.map_values(|e: (String, V)| e.0@)
}

/// The map that a list of entries with distinct keys stands for.
pub open spec fn entry_map<V>(entries: Seq<(String, V)>) -> Map<Seq<char>, V> {
    Map::new(|k: Seq<char>| has_entry(entries, k), |k: Seq<char>| entries[entry_index(entries, k)].1)
}

/// Some entry has key `k`.
pub open spec fn has_entry<V>(entries: Seq<(String, V)>, k: Seq<char>) -> bool {
    exists|i: int| 0 <= i < entries.len() && #[trigger] entries[i].0@ == k
}

/// The position of an entry with key `k`.
pub open spec fn entry_index<V>(entries: Seq<(String, V)>, k: Seq<char>) -> int {
    choose|i: int| 0 <= i < entries.len() && #[trigger] entries[i].0@ == k
}

/// Position of the entry with key `key`, if any.
fn find_entry<V>(entries: &Vec<(String, V)>, key: &String) -> (r: Option<usize>)
    ensures
        r matches Some(i) ==> i < entries@.len() && entries@[i as int].0@ == key@,
        r is None ==> !entry_map(entries@).contains_key(key@),
{
    let mut i: usize = 0;
    while i < entries.len()
        invariant
            i <= entries.len(),
            forall|j: int| 0 <= j < i ==> #[trigger] entries@[j].0@ != key@,
        decreases entries.len() - i,
    {
        if entries[i].0 == *key {
            return Some(i);
        }
        i = i + 1;
    }
    None
}

proof fn lemma_entry_at<V>(entries: Seq<(String, V)>, i: int)
    requires
        entry_keys(entries).no_duplicates(),
        0 <= i < entries.len(),
    ensures
        entry_map(entries).contains_key(entries[i].0@),
        entry_map(entries)[entries[i].0@] == entries[i].1,
{
    let k = entries[i].0@;
    assert(entries[i].0@ == k);
    assert(has_entry(entries, k));
    let j = entry_index(entries, k);
    assert(entry_keys(entries)[i] == entry_keys(entries)[j]);
}

/// Replacing the value of the entry at `i` replaces the value of its key.
proof fn lemma_entry_update<V>(entries: Seq<(String, V)>, i: int, e: (String, V))
    requires
        entry_keys(entries).no_duplicates(),
        0 <= i < entries.len(),
        e.0@ == entries[i].0@,
    ensures
        entry_keys(entries.update(i, e)) == entry_keys(entries),
        entry_map(entries.update(i, e)) == entry_map(entries).insert(e.0@, e.1),
{
    let n = entries.update(i, e);
    let m = entry_map(entries).insert(e.0@, e.1);
    assert(entry_keys(n) =~= entry_keys(entries));
    assert forall|k: Seq<char>| #[trigger] entry_map(n).contains_key(k) == m.contains_key(k) by {
        if has_entry(n, k) {
            let j = entry_index(n, k);
            if j != i {
                assert(entries[j].0@ == k);
                assert(has_entry(entries, k));
            }
        }
        if has_entry(entries, k) {
            let j = entry_index(entries, k);
            assert(n[j].0@ == k);
            assert(has_entry(n, k));
        }
        if k == e.0@ {
            assert(n[i].0@ == k);
            assert(has_entry(n, k));
        }
    }
    assert forall|k: Seq<char>| #[trigger] entry_map(n).contains_key(k) implies entry_map(n)[k]
        == m[k] by {
        let j = entry_index(n, k);
        lemma_entry_at(n, j);
        if j != i {
            lemma_entry_at(entries, j);
            assert(entry_keys(entries)[i] != entry_keys(entries)[j]);
        }
    }
    assert(entry_map(n) =~= m);
}

/// Appending an entry with a new key adds that key.
proof fn lemma_entry_push<V>(entries: Seq<(String, V)>, e: (String, V))
    requires
        entry_keys(entries).no_duplicates(),
        !entry_map(entries).contains_key(e.0@),
    ensures
        entry_keys(entries.push(e)) == entry_keys(entries).push(e.0@),
        entry_keys(entries.push(e)).no_duplicates(),
        entry_map(entries.push(e)) == entry_map(entries).insert(e.0@, e.1),
{
    let n = entries.push(e);
    let m = entry_map(entries).insert(e.0@, e.1);
    assert(entry_keys(n) =~= entry_keys(entries).push(e.0@));
    assert forall|j: int| 0 <= j < entries.len() implies #[trigger] entries[j].0@ != e.0@ by {
        if entries[j].0@ == e.0@ {
            assert(has_entry(entries, e.0@));
        }
    }
    assert(entry_keys(n).no_duplicates()) by {
        assert forall|a: int, b: int|
            0 <= a < entry_keys(n).len() && 0 <= b < entry_keys(n).len() && a != b implies entry_keys(
            n,
        )[a] != entry_keys(n)[b] by {
            if a < entries.len() && b < entries.len() {
                assert(entry_keys(entries)[a] != entry_keys(entries)[b]);
            } else if a < entries.len() {
                assert(entries[a].0@ != e.0@);
            } else if b < entries.len() {
                assert(entries[b].0@ != e.0@);
            }
        }
    }
    assert forall|k: Seq<char>| #[trigger] entry_map(n).contains_key(k) == m.contains_key(k) by {
        if has_entry(n, k) {
            let j = entry_index(n, k);
            if j < entries.len() {
                assert(entries[j].0@ == k);
                assert(has_entry(entries, k));
            }
        }
        if has_entry(entries, k) {
            let j = entry_index(entries, k);
            assert(n[j].0@ == k);
            assert(has_entry(n, k));
        }
        if k == e.0@ {
            assert(n[entries.len() as int].0@ == k);
            assert(has_entry(n, k));
        }
    }
    assert forall|k: Seq<char>| #[trigger] entry_map(n).contains_key(k) implies entry_map(n)[k]
        == m[k] by {
        let j = entry_index(n, k);
        lemma_entry_at(n, j);
        if j < entries.len() {
            lemma_entry_at(entries, j);
        }
    }
    assert(entry_map(n) =~= m);
}

/// Removing the entry at `i` removes its key.
proof fn lemma_entry_remove<V>(entries: Seq<(String, V)>, i: int)
    requires
        entry_keys(entries).no_duplicates(),
        0 <= i < entries.len(),
    ensures
        entry_keys(entries.remove(i)).no_duplicates(),
        entry_map(entries.remove(i)) == entry_map(entries).remove(entries[i].0@),
{
    let n = entries.remove(i);
    let key = entries[i].0@;
    let m = entry_map(entries).remove(key);
    assert(entry_keys(n) =~= entry_keys(entries).remove(i));
    assert forall|j: int| 0 <= j < n.len() implies #[trigger] n[j].0@ != key && n[j] == entries[if j
        < i {
        j
    } else {
        j + 1
    }] by {
        let o = if j < i {
            j
        } else {
            j + 1
        };
        assert(entry_keys(entries)[o] != entry_keys(entries)[i]);
    }
    assert(entry_keys(n).no_duplicates()) by {
        assert forall|a: int, b: int|
            0 <= a < entry_keys(n).len() && 0 <= b < entry_keys(n).len() && a != b implies entry_keys(
            n,
        )[a] != entry_keys(n)[b] by {
            let oa = if a < i {
                a
            } else {
                a + 1
            };
            let ob = if b < i {
                b
            } else {
                b + 1
            };
            assert(entry_keys(entries)[oa] != entry_keys(entries)[ob]);
        }
    }
    assert forall|k: Seq<char>| #[trigger] entry_map(n).contains_key(k) == m.contains_key(k) by {
        if has_entry(n, k) {
            let j = entry_index(n, k);
            let o = if j < i {
                j
            } else {
                j + 1
            };
            assert(entries[o].0@ == k);
            assert(has_entry(entries, k));
        }
        if has_entry(entries, k) && k != key {
            let o = entry_index(entries, k);
            assert(o != i);
            let j = if o < i {
                o
            } else {
                o - 1
            };
            assert(n[j].0@ == k);
            assert(has_entry(n, k));
        }
    }
    assert forall|k: Seq<char>| #[trigger] entry_map(n).contains_key(k) implies entry_map(n)[k]
        == m[k] by {
        let j = entry_index(n, k);
        lemma_entry_at(n, j);
        let o = if j < i {
            j
        } else {
            j + 1
        };
        lemma_entry_at(entries, o);
    }
    assert(entry_map(n) =~= m);
}

/// Replaces the value under `key`, or appends an entry for it.
fn put_entry<V>(entries: &mut Vec<(String, V)>, key: String, value: V)
    requires
        entry_keys(old(entries)@).no_duplicates(),
    ensures
        entry_keys(final(entries)@).no_duplicates(),
        entry_map(final(entries)@) == entry_map(old(entries)@).insert(key@, value),
{
    let ghost e = (key, value);
    proof {
        assert(e.0@ == key@);
    }
    match find_entry(entries, &key) {
        Some(i) => {
            proof {
                lemma_entry_update(entries@, i as int, e);
            }
            entries.set(i, (key, value));
        },
        None => {
            proof {
                lemma_entry_push(entries@, e);
            }
            entries.push((key, value));
        },
    }
}

/// Removes the entry under `key`, if any, and hands back its value.
fn take_entry<V>(entries: &mut Vec<(String, V)>, key: &String) -> (r: Option<V>)
    requires
        entry_keys(old(entries)@).no_duplicates(),
    ensures
        entry_keys(final(entries)@).no_duplicates(),
        entry_map(final(entries)@) == entry_map(old(entries)@).remove(key@),
        r == (if entry_map(old(entries)@).contains_key(key@) {
            Some(entry_map(old(entries)@)[key@])
        } else {
            None::<V>
        }),
{
    match find_entry(entries, key) {
        Some(i) => {
            proof {
                lemma_entry_at(entries@, i as int);
                lemma_entry_remove(entries@, i as int);
            }
            let (_, v) = entries.remove(i);
            Some(v)
        },
        None => {
            assert(entry_map(entries@).remove(key@) =~= entry_map(entries@));
            None
        },
    }
}

/// Holds of a key with no group.
pub open spec fn no_group(groups: Map<Seq<char>, ShareGroup>) -> spec_fn(Seq<char>) -> bool {
    |k: Seq<char>| !groups.contains_key(k)
}

/// Holds of a key whose group has no members and which has a dispatcher.
pub open spec fn emptied<H>(groups: Map<Seq<char>, ShareGroup>, dispatchers: Map<Seq<char>, H>) -> spec_fn(Seq<char>) -> bool {
    |k: Seq<char>| groups[k].members().len() == 0 && dispatchers.contains_key(k)
}

/// Holds of a key with no dispatcher.
pub open spec fn no_dispatcher<H>(dispatchers: Map<Seq<char>, H>) -> spec_fn(Seq<char>) -> bool {
    |k: Seq<char>| !dispatchers.contains_key(k)
}

proof fn lemma_key_views_push(keys: Seq<String>, k: String)
    ensures
        key_views(keys.push(k)) == key_views(keys).push(k@),
{
    assert(key_views(keys.push(k)) =~= key_views(keys).push(k@));
}

/// The share-group registry of one broker: the groups that subscriptions
/// have formed, under their share-leader keys, and the stop handle of each
/// running dispatcher, under the key of the group it serves. The two are kept
/// apart on purpose: the supervisor's passes bring them back in line.
pub struct SubscribeShareLeader<H> {
    subscriptions: Vec<(String, ShareGroup)>,
    dispatchers: Vec<(String, H)>,
}

/// The keys and stop handles that the supervisor's start pass acts on.
pub struct StartPlan {
    /// Groups left with no members whose dispatcher is to be stopped; once
    /// the stop is sent, the group leaves the registry.
    pub stop: Vec<String>,
    /// Groups with no dispatcher: one is to be started and registered.
    pub spawn: Vec<String>,
}

impl<H> SubscribeShareLeader<H> {
    /// The groups, by key.
    pub closed spec fn groups(&self) -> Map<Seq<char>, ShareGroup> {
        entry_map(self.subscriptions@)
    }

    /// The keys of the groups, in the order they were first registered.
    pub closed spec fn group_keys(&self) -> Seq<Seq<char>> {
        entry_keys(self.subscriptions@)
    }

    /// The stop handles of the dispatchers, by key.
    pub closed spec fn dispatchers(&self) -> Map<Seq<char>, H> {
        entry_map(self.dispatchers@)
    }

    /// The keys of the dispatchers, in the order they were registered.
    pub closed spec fn dispatcher_keys(&self) -> Seq<Seq<char>> {
        entry_keys(self.dispatchers@)
    }

    pub closed spec fn wf(&self) -> bool {
        &&& entry_keys(self.subscriptions@).no_duplicates()
        &&& entry_keys(self.dispatchers@).no_duplicates()
        &&& forall|i: int|
            0 <= i < self.subscriptions@.len() ==> (#[trigger] self.subscriptions@[i]).1.wf()
    }

    /// The registry lists each key once, and its maps hold exactly the keys it lists.
    pub proof fn lemma_keys(&self)
        requires
            self.wf(),
        ensures
            self.group_keys().no_duplicates(),
            self.dispatcher_keys().no_duplicates(),
            forall|k: Seq<char>| #[trigger] self.groups().contains_key(k) <==> self.group_keys().contains(k),
            forall|k: Seq<char>|
                #[trigger] self.dispatchers().contains_key(k) <==> self.dispatcher_keys().contains(k),
            forall|k: Seq<char>| #[trigger] self.groups().contains_key(k) ==> self.groups()[k].wf(),
    {
        assert forall|k: Seq<char>| #[trigger] self.groups().contains_key(k) <==> self.group_keys().contains(k) by {
            if self.groups().contains_key(k) {
                let i = entry_index(self.subscriptions@, k);
                assert(self.group_keys()[i] == k);
            }
            if self.group_keys().contains(k) {
                let i = choose|i: int| 0 <= i < self.group_keys().len() && self.group_keys()[i] == k;
                assert(self.subscriptions@[i].0@ == k);
            }
        }
        assert forall|k: Seq<char>|
            #[trigger] self.dispatchers().contains_key(k) <==> self.dispatcher_keys().contains(k) by {
            if self.dispatchers().contains_key(k) {
                let i = entry_index(self.dispatchers@, k);
                assert(self.dispatcher_keys()[i] == k);
            }
            if self.dispatcher_keys().contains(k) {
                let i = choose|i: int| 0 <= i < self.dispatcher_keys().len() && self.dispatcher_keys()[i] == k;
                assert(self.dispatchers@[i].0@ == k);
            }
        }
        assert forall|k: Seq<char>| #[trigger] self.groups().contains_key(k) implies self.groups()[k].wf() by {
            let i = entry_index(self.subscriptions@, k);
            lemma_entry_at(self.subscriptions@, i);
        }
    }

    /// An empty registry.
    pub fn new() -> (r: Self)
        ensures
            r.wf(),
            r.groups() == Map::<Seq<char>, ShareGroup>::empty(),
            r.dispatchers() == Map::<Seq<char>, H>::empty(),
    {
        let r = SubscribeShareLeader { subscriptions: Vec::new(), dispatchers: Vec::new() };
        assert(r.groups() =~= Map::<Seq<char>, ShareGroup>::empty());
        assert(r.dispatchers() =~= Map::<Seq<char>, H>::empty());
        r
    }

    /// Registers `group` under `key`, in place of any group there.
    pub fn set_group(&mut self, key: String, group: ShareGroup)
        requires
            old(self).wf(),
            group.wf(),
        ensures
            final(self).wf(),
            final(self).groups() == old(self).groups().insert(key@, group),
            final(self).dispatchers() == old(self).dispatchers(),
            final(self).dispatcher_keys() == old(self).dispatcher_keys(),
    {
        let ghost old_subs = self.subscriptions@;
        put_entry(&mut self.subscriptions, key, group);
        proof {
            assert forall|i: int| 0 <= i < self.subscriptions@.len() implies (
            #[trigger] self.subscriptions@[i]).1.wf() by {
                let k = self.subscriptions@[i].0@;
                lemma_entry_at(self.subscriptions@, i);
                if k != key@ {
                    let j = entry_index(old_subs, k);
                    lemma_entry_at(old_subs, j);
                }
            }
        }
    }

    /// Removes the group under `key`, if any, and hands it back.
    pub fn remove_group(&mut self, key: &String) -> (r: Option<ShareGroup>)
        requires
            old(self).wf(),
        ensures
            final(self).wf(),
            final(self).groups() == old(self).groups().remove(key@),
            final(self).dispatchers() == old(self).dispatchers(),
            final(self).dispatcher_keys() == old(self).dispatcher_keys(),
            r == (if old(self).groups().contains_key(key@) {
                Some(old(self).groups()[key@])
            } else {
                None::<ShareGroup>
            }),
    {
        let ghost old_subs = self.subscriptions@;
        let r = take_entry(&mut self.subscriptions, key);
        proof {
            assert forall|i: int| 0 <= i < self.subscriptions@.len() implies (
            #[trigger] self.subscriptions@[i]).1.wf() by {
                let k = self.subscriptions@[i].0@;
                lemma_entry_at(self.subscriptions@, i);
                let j = entry_index(old_subs, k);
                lemma_entry_at(old_subs, j);
            }
        }
        r
    }

    /// Whether a group is registered under `key`.
    pub fn contains_group(&self, key: &String) -> (r: bool)
        ensures
            r == self.groups().contains_key(key@),
    {
        match find_entry(&self.subscriptions, key) {
            Some(i) => {
                proof {
                    assert(has_entry(self.subscriptions@, key@));
                }
                true
            },
            None => false,
        }
    }

    /// The group under `key`, if any.
    pub fn get_group(&self, key: &String) -> (r: Option<&ShareGroup>)
        requires
            self.wf(),
        ensures
            r is Some == self.groups().contains_key(key@),
            r matches Some(g) ==> *g == self.groups()[key@],
    {
        match find_entry(&self.subscriptions, key) {
            Some(i) => {
                proof {
                    lemma_entry_at(self.subscriptions@, i as int);
                }
                Some(&self.subscriptions[i].1)
            },
            None => None,
        }
    }

    /// Whether a dispatcher is registered under `key`.
    pub fn contains_dispatcher(&self, key: &String) -> (r: bool)
        ensures
            r == self.dispatchers().contains_key(key@),
    {
        match find_entry(&self.dispatchers, key) {
            Some(i) => {
                proof {
                    assert(has_entry(self.dispatchers@, key@));
                }
                true
            },
            None => false,
        }
    }

    /// The stop handle of the dispatcher under `key`, if any.
    pub fn dispatcher(&self, key: &String) -> (r: Option<&H>)
        requires
            self.wf(),
        ensures
            r is Some == self.dispatchers().contains_key(key@),
            r matches Some(h) ==> *h == self.dispatchers()[key@],
    {
        match find_entry(&self.dispatchers, key) {
            Some(i) => {
                proof {
                    lemma_entry_at(self.dispatchers@, i as int);
                }
                Some(&self.dispatchers[i].1)
            },
            None => None,
        }
    }

    /// Registers the stop handle of a dispatcher just started for `key`.
    pub fn insert_dispatcher(&mut self, key: String, handle: H)
        requires
            old(self).wf(),
        ensures
            final(self).wf(),
            final(self).dispatchers() == old(self).dispatchers().insert(key@, handle),
            final(self).groups() == old(self).groups(),
            final(self).group_keys() == old(self).group_keys(),
    {
        put_entry(&mut self.dispatchers, key, handle);
    }

    /// Forgets the dispatcher under `key`, if any, and hands back its handle.
    /// A dispatcher calls this as it exits, and the supervisor once a stop
    /// reached it: the second call finds nothing.
    pub fn remove_dispatcher(&mut self, key: &String) -> (r: Option<H>)
        requires
            old(self).wf(),
        ensures
            final(self).wf(),
            final(self).dispatchers() == old(self).dispatchers().remove(key@),
            final(self).groups() == old(self).groups(),
            final(self).group_keys() == old(self).group_keys(),
            r == (if old(self).dispatchers().contains_key(key@) {
                Some(old(self).dispatchers()[key@])
            } else {
                None::<H>
            }),
    {
        take_entry(&mut self.dispatchers, key)
    }

    /// The supervisor's clean-up pass: the keys of the dispatchers whose group
    /// is gone, in registry order. Each is to be sent a stop; where the send
    /// succeeds its handle is removed with `remove_dispatcher`.
    pub fn try_thread_gc(&self) -> (r: Vec<String>)
        ensures
            key_views(r@) == self.dispatcher_keys().filter(no_group(self.groups())),
    {
        let mut r: Vec<String> = Vec::new();
        let mut i: usize = 0;
        while i < self.dispatchers.len()
            invariant
                i <= self.dispatchers@.len(),
                key_views(r@) == self.dispatcher_keys().take(i as int).filter(no_group(self.groups())),
            decreases self.dispatchers.len() - i,
        {
            let key = &self.dispatchers[i].0;
            proof {
                let ks = self.dispatcher_keys();
                ks.take(i as int).lemma_filter_push(ks[i as int], no_group(self.groups()));
                assert(ks.take(i + 1) == ks.take(i as int).push(ks[i as int]));
            }
            if !self.contains_group(key) {
                proof {
                    lemma_key_views_push(r@, *key);
                }
                r.push(key.clone());
            }
            i = i + 1;
        }
        assert(self.dispatcher_keys().take(self.dispatchers@.len() as int) == self.dispatcher_keys());
        r
    }

    /// The supervisor's start pass, over the groups in registry order: a group
    /// left with no members whose dispatcher runs is to be stopped, and a group
    /// with no dispatcher is to get one.
    pub fn start_push_thread(&self) -> (r: StartPlan)
        requires
            self.wf(),
        ensures
            key_views(r.stop@) == self.group_keys().filter(emptied(self.groups(), self.dispatchers())),
            key_views(r.spawn@) == self.group_keys().filter(no_dispatcher(self.dispatchers())),
    {
        let mut stop: Vec<String> = Vec::new();
        let mut spawn: Vec<String> = Vec::new();
        let ghost ks = self.group_keys();
        let ghost stop_pred = emptied(self.groups(), self.dispatchers());
        let ghost spawn_pred = no_dispatcher(self.dispatchers());
        let mut i: usize = 0;
        while i < self.subscriptions.len()
            invariant
                self.wf(),
                ks == self.group_keys(),
                stop_pred == emptied(self.groups(), self.dispatchers()),
                spawn_pred == no_dispatcher(self.dispatchers()),
                i <= self.subscriptions@.len(),
                key_views(stop@) == ks.take(i as int).filter(stop_pred),
                key_views(spawn@) == ks.take(i as int).filter(spawn_pred),
            decreases self.subscriptions.len() - i,
        {
            let key = &self.subscriptions[i].0;
            let group = &self.subscriptions[i].1;
            proof {
                lemma_entry_at(self.subscriptions@, i as int);
                ks.take(i as int).lemma_filter_push(ks[i as int], stop_pred);
                ks.take(i as int).lemma_filter_push(ks[i as int], spawn_pred);
                assert(ks.take(i + 1) == ks.take(i as int).push(ks[i as int]));
                assert(ks[i as int] == key@);
            }
            let running = self.contains_dispatcher(key);
            if group.is_empty() && running {
                proof {
                    lemma_key_views_push(stop@, *key);
                }
                stop.push(key.clone());
            }
            if !running {
                proof {
                    lemma_key_views_push(spawn@, *key);
                }
                spawn.push(key.clone());
            }
            i = i + 1;
        }
        assert(ks.take(self.subscriptions@.len() as int) == ks);
        StartPlan { stop, spawn }
    }
}

/// The members of the group under `key`, in order; none where no group is
/// registered under it.
pub fn build_share_leader_sub_list<H>(leader: &SubscribeShareLeader<H>, key: &String) -> (r: Vec<Subscriber>)
    requires
        leader.wf(),
    ensures
        leader.groups().contains_key(key@) ==> r@ == leader.groups()[key@].members(),
        !leader.groups().contains_key(key@) ==> r@.len() == 0,
{
    match leader.get_group(key) {
        Some(group) => group.sub_list(),
        None => Vec::new(),
    }
}

/// The dispatchers left after the clean-up pass, where each stop it sends
/// reaches its dispatcher.
pub open spec fn gc_pass(groups: Map<Seq<char>, ShareGroup>, running: Set<Seq<char>>) -> Set<Seq<char>> {
    running.filter(|k: Seq<char>| groups.contains_key(k))
}

/// The groups whose dispatcher the start pass stops: those with no members
/// and a dispatcher.
pub open spec fn start_stops(groups: Map<Seq<char>, ShareGroup>, running: Set<Seq<char>>) -> Set<Seq<char>> {
    groups.dom().filter(|k: Seq<char>| groups[k].members().len() == 0 && running.contains(k))
}

/// The groups for which the start pass starts a dispatcher.
pub open spec fn start_spawns(groups: Map<Seq<char>, ShareGroup>, running: Set<Seq<char>>) -> Set<Seq<char>> {
    groups.dom().filter(|k: Seq<char>| !running.contains(k))
}

/// One supervisor tick, the clean-up pass and then the start pass, where each
/// stop reaches its dispatcher and each started dispatcher is registered.
/// Gives the groups after it, the registered dispatchers after it, and the
/// dispatchers it told to stop that stay registered until they exit.
pub open spec fn tick(groups: Map<Seq<char>, ShareGroup>, running: Set<Seq<char>>) -> (Map<Seq<char>, ShareGroup>, Set<Seq<char>>, Set<Seq<char>>) {
    let d = gc_pass(groups, running);
    let stops = start_stops(groups, d);
    (groups.remove_keys(stops), d + start_spawns(groups, d), stops)
}

/// The keys of the groups that have members.
pub open spec fn live_keys(groups: Map<Seq<char>, ShareGroup>) -> Set<Seq<char>> {
    groups.dom().filter(|k: Seq<char>| groups[k].members().len() > 0)
}

/// The clean-up pass names exactly the registered dispatchers whose group is
/// gone, each once.
pub proof fn lemma_gc_plan<H>(leader: &SubscribeShareLeader<H>, plan: Seq<Seq<char>>)
    requires
        leader.wf(),
        plan == leader.dispatcher_keys().filter(no_group(leader.groups())),
    ensures
        plan.no_duplicates(),
        leader.dispatchers().dom().difference(plan.to_set()) == gc_pass(leader.groups(), leader.dispatchers().dom()),
{
    leader.lemma_keys();
    let ks = leader.dispatcher_keys();
    lemma_filter_no_duplicates(ks, no_group(leader.groups()));
    assert forall|k: Seq<char>| #[trigger] plan.contains(k) <==> (ks.contains(k) && !leader.groups().contains_key(k)) by {
        if plan.contains(k) {
            ks.lemma_filter_contains_rev(no_group(leader.groups()), k);
        }
        if ks.contains(k) && !leader.groups().contains_key(k) {
            let i = choose|i: int| 0 <= i < ks.len() && ks[i] == k;
            ks.lemma_filter_contains(no_group(leader.groups()), i);
        }
    }
    assert(leader.dispatchers().dom().difference(plan.to_set()) =~= gc_pass(leader.groups(), leader.dispatchers().dom()));
}

/// The start pass stops and starts exactly what the supervisor tick does,
/// each key once.
pub proof fn lemma_start_plan<H>(leader: &SubscribeShareLeader<H>, stop: Seq<Seq<char>>, spawn: Seq<Seq<char>>)
    requires
        leader.wf(),
        stop == leader.group_keys().filter(emptied(leader.groups(), leader.dispatchers())),
        spawn == leader.group_keys().filter(no_dispatcher(leader.dispatchers())),
    ensures
        stop.no_duplicates(),
        spawn.no_duplicates(),
        stop.to_set() == start_stops(leader.groups(), leader.dispatchers().dom()),
        spawn.to_set() == start_spawns(leader.groups(), leader.dispatchers().dom()),
{
    leader.lemma_keys();
    let ks = leader.group_keys();
    let p = emptied(leader.groups(), leader.dispatchers());
    let q = no_dispatcher(leader.dispatchers());
    lemma_filter_no_duplicates(ks, p);
    lemma_filter_no_duplicates(ks, q);
    assert forall|k: Seq<char>| #[trigger] stop.contains(k) <==> (ks.contains(k) && p(k)) by {
        if stop.contains(k) {
            ks.lemma_filter_contains_rev(p, k);
        }
        if ks.contains(k) && p(k) {
            let i = choose|i: int| 0 <= i < ks.len() && ks[i] == k;
            ks.lemma_filter_contains(p, i);
        }
    }
    assert forall|k: Seq<char>| #[trigger] spawn.contains(k) <==> (ks.contains(k) && q(k)) by {
        if spawn.contains(k) {
            ks.lemma_filter_contains_rev(q, k);
        }
        if ks.contains(k) && q(k) {
            let i = choose|i: int| 0 <= i < ks.len() && ks[i] == k;
            ks.lemma_filter_contains(q, i);
        }
    }
    assert(stop.to_set() =~= start_stops(leader.groups(), leader.dispatchers().dom()));
    assert(spawn.to_set() =~= start_spawns(leader.groups(), leader.dispatchers().dom()));
}

proof fn lemma_filter_no_duplicates(s: Seq<Seq<char>>, p: spec_fn(Seq<char>) -> bool)
    requires
        s.no_duplicates(),
    ensures
        s.filter(p).no_duplicates(),
    decreases s.len(),
{
    reveal(Seq::filter);
    if s.len() > 0 {
        let init = s.drop_last();
        assert(init.no_duplicates()) by {
            assert forall|a: int, b: int| 0 <= a < init.len() && 0 <= b < init.len() && a != b implies init[a] != init[b] by {
                assert(s[a] != s[b]);
            }
        }
        lemma_filter_no_duplicates(init, p);
        if p(s.last()) {
            assert(!init.filter(p).contains(s.last())) by {
                if init.filter(p).contains(s.last()) {
                    init.lemma_filter_contains_rev(p, s.last());
                    let i = choose|i: int| 0 <= i < init.len() && init[i] == s.last();
                    assert(s[i] == s[s.len() - 1]);
                }
            }
            let f = init.filter(p).push(s.last());
            assert forall|a: int, b: int| 0 <= a < f.len() && 0 <= b < f.len() && a != b implies f[a] != f[b] by {
                if a < f.len() - 1 && b < f.len() - 1 {
                } else if a == f.len() - 1 {
                    assert(init.filter(p).contains(f[b]) || b == f.len() - 1);
                } else {
                    assert(init.filter(p).contains(f[a]));
                }
            }
        }
    }
}

/// Supervisor convergence: from any registry, once subscriptions stop
/// changing and every stop reaches its dispatcher, two ticks leave running
/// (registered and not told to stop) exactly the dispatchers of the groups
/// that have members, and the groups that have none are gone; a third tick
/// leaves no other dispatcher registered.
pub proof fn lemma_supervisor_converges(groups: Map<Seq<char>, ShareGroup>, running: Set<Seq<char>>)
    ensures
        ({
            let (g1, d1, stopped1) = tick(groups, running);
            let (g2, d2, stopped2) = tick(g1, d1);
            let (g3, d3, stopped3) = tick(g2, d2);
            &&& d2.difference(stopped2) == live_keys(groups)
            &&& g2.dom() == live_keys(groups)
            &&& d3 == live_keys(groups)
            &&& g3 == g2
        }),
{
    let (g1, d1, stopped1) = tick(groups, running);
    let (g2, d2, stopped2) = tick(g1, d1);
    let (g3, d3, stopped3) = tick(g2, d2);
    let live = live_keys(groups);
    assert(d1 =~= groups.dom());
    assert(gc_pass(g1, d1) =~= g1.dom());
    assert(start_spawns(g1, gc_pass(g1, d1)) =~= Set::empty());
    assert(d2 =~= g1.dom());
    assert(stopped2 =~= g1.dom().filter(|k: Seq<char>| g1[k].members().len() == 0));
    assert(d2.difference(stopped2) =~= live);
    assert(g2.dom() =~= live);
    assert(gc_pass(g2, d2) =~= live);
    assert(start_stops(g2, gc_pass(g2, d2)) =~= Set::empty());
    assert(start_spawns(g2, gc_pass(g2, d2)) =~= Set::empty());
    assert(d3 =~= live);
    assert(g3 =~= g2);
}

/// Removing a dispatcher twice leaves the registry as removing it once: the
/// supervisor and the exiting dispatcher may both do it.
pub proof fn lemma_remove_dispatcher_idempotent<H>(dispatchers: Map<Seq<char>, H>, key: Seq<char>)
    ensures
        dispatchers.remove(key).remove(key) == dispatchers.remove(key),
{
    assert(dispatchers.remove(key).remove(key) =~= dispatchers.remove(key));
}

} // verus!
