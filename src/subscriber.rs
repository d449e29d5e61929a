use vstd::prelude::*;
use crate::qos::QoS;

verus! {

/// One member of a share group, as its subscription describes it.
#[derive(Debug)]
pub struct Subscriber {
    pub client_id: String,
    pub qos: QoS,
    pub subscription_identifier: Option<usize>,
    pub nolocal: bool,
    pub preserve_retain: bool,
}

impl Clone for Subscriber {
    fn clone(&self) -> (r: Self)
        ensures
            r == *self,
    {
        Subscriber {
            client_id: self.client_id.clone(),
            qos: self.qos,
            subscription_identifier: self.subscription_identifier,
            nolocal: self.nolocal,
            preserve_retain: self.preserve_retain,
        }
    }
}

/// No two members of the list share a client id.
pub open spec fn unique_clients(subs: Seq<Subscriber>) -> bool {
    forall|i: int, j: int|
        0 <= i < subs.len() && 0 <= j < subs.len() && i != j ==> #[trigger] subs[i].client_id@
            != #[trigger] subs[j].client_id@
}

/// The members of a share group after `sub` subscribes: it takes the place of
/// the member with its client id, if there is one, else it is appended.
pub open spec fn with_subscriber(subs: Seq<Subscriber>, sub: Subscriber) -> Seq<Subscriber> {
    if exists|i: int| 0 <= i < subs.len() && subs[i].client_id@ == sub.client_id@ {
        let i = choose|i: int| 0 <= i < subs.len() && subs[i].client_id@ == sub.client_id@;
        subs.update(i, sub)
    } else {
        subs.push(sub)
    }
}

/// The members of a share group after the client `client_id` leaves it.
pub open spec fn without_client(subs: Seq<Subscriber>, client_id: Seq<char>) -> Seq<Subscriber> {
    subs.filter(other_client(client_id))
}

/// Holds of a subscriber whose client id is not `client_id`.
pub open spec fn other_client(client_id: Seq<char>) -> spec_fn(Subscriber) -> bool {
    |s: Subscriber| s.client_id@ != client_id
}

/// A shared subscription `(topic, group)` and its current members.
#[derive(Debug)]
pub struct ShareGroup {
    pub topic_id: String,
    pub topic_name: String,
    pub group_name: String,
    pub sub_list: Vec<Subscriber>,
}

impl Clone for ShareGroup {
    fn clone(&self) -> (r: Self)
        ensures
            r.topic_id == self.topic_id,
            r.topic_name == self.topic_name,
            r.group_name == self.group_name,
            r.members() == self.members(),
    {
        ShareGroup {
            topic_id: self.topic_id.clone(),
            topic_name: self.topic_name.clone(),
            group_name: self.group_name.clone(),
            sub_list: copy_subscribers(&self.sub_list),
        }
    }
}

/// A copy of a list of subscribers, member for member.
pub fn copy_subscribers(subs: &Vec<Subscriber>) -> (r: Vec<Subscriber>)
    ensures
        r@ == subs@,
{
    let mut r: Vec<Subscriber> = Vec::with_capacity(subs.len());
    let mut i: usize = 0;
    while i < subs.len()
        invariant
            i <= subs.len(),
            r@ == subs@.take(i as int),
        decreases subs.len() - i,
    {
        r.push(subs[i].clone());
        assert(subs@.take(i as int).push(subs@[i as int]) == subs@.take(i + 1));
        i = i + 1;
    }
    assert(subs@.take(subs@.len() as int) == subs@);
    r
}

impl ShareGroup {
    /// The members, in the order in which they first subscribed.
    pub open spec fn members(&self) -> Seq<Subscriber> {
        self.sub_list@
    }

    pub open spec fn wf(&self) -> bool {
        unique_clients(self.members())
    }

    /// A group with no members yet.
    pub fn new(topic_id: String, topic_name: String, group_name: String) -> (r: ShareGroup)
        ensures
            r.wf(),
            r.topic_id == topic_id,
            r.topic_name == topic_name,
            r.group_name == group_name,
            r.members() == Seq::<Subscriber>::empty(),
    {
        ShareGroup { topic_id, topic_name, group_name, sub_list: Vec::new() }
    }

    pub fn len(&self) -> (r: usize)
        ensures
            r == self.members().len(),
    {
        self.sub_list.len()
    }

    pub fn is_empty(&self) -> (r: bool)
        ensures
            r == (self.members().len() == 0),
    {
        self.sub_list.len() == 0
    }

    /// The members as a list, in order.
    pub fn sub_list(&self) -> (r: Vec<Subscriber>)
        ensures
            r@ == self.members(),
    {
        copy_subscribers(&self.sub_list)
    }

    /// Position of the member with client id `client_id`, if any.
    pub fn position(&self, client_id: &String) -> (r: Option<usize>)
        ensures
            r matches Some(i) ==> i < self.members().len() && self.members()[i as int].client_id@
                == client_id@,
            r is None ==> forall|i: int|
                0 <= i < self.members().len() ==> #[trigger] self.members()[i].client_id@
                    != client_id@,
    {
        let mut i: usize = 0;
        while i < self.sub_list.len()
            invariant
                i <= self.sub_list.len(),
                forall|j: int| 0 <= j < i ==> #[trigger] self.sub_list@[j].client_id@ != client_id@,
            decreases self.sub_list.len() - i,
        {
            if self.sub_list[i].client_id == *client_id {
                return Some(i);
            }
            i = i + 1;
        }
        None
    }

    /// Adds `sub` to the group; a member with the same client id is replaced.
    pub fn add_subscriber(&mut self, sub: Subscriber)
        requires
            old(self).wf(),
        ensures
            final(self).wf(),
            final(self).members() == with_subscriber(old(self).members(), sub),
            final(self).topic_id == old(self).topic_id,
            final(self).topic_name == old(self).topic_name,
            final(self).group_name == old(self).group_name,
    {
        let ghost subs = self.sub_list@;
        match self.position(&sub.client_id) {
            Some(i) => {
                proof {
                    let k = choose|k: int| 0 <= k < subs.len() && subs[k].client_id@ == sub.client_id@;
                    assert(k == i as int);
                }
                self.sub_list.set(i, sub);
                proof {
                    assert forall|a: int, b: int|
                        0 <= a < self.sub_list@.len() && 0 <= b < self.sub_list@.len() && a != b
                            implies #[trigger] self.sub_list@[a].client_id@
                        != #[trigger] self.sub_list@[b].client_id@ by {
                        if a != i as int && b != i as int {
                            assert(subs[a].client_id@ != subs[b].client_id@);
                        } else if a == i as int {
                            assert(subs[b].client_id@ != subs[a].client_id@);
                        } else {
                            assert(subs[a].client_id@ != subs[b].client_id@);
                        }
                    }
                }
            },
            None => {
                self.sub_list.push(sub);
            },
        }
    }

    /// Removes the member with client id `client_id`, if there is one.
    pub fn remove_subscriber(&mut self, client_id: &String)
        requires
            old(self).wf(),
        ensures
            final(self).wf(),
            final(self).members() == without_client(old(self).members(), client_id@),
            final(self).topic_id == old(self).topic_id,
            final(self).topic_name == old(self).topic_name,
            final(self).group_name == old(self).group_name,
    {
        let ghost subs = self.sub_list@;
        let mut kept: Vec<Subscriber> = Vec::new();
        let mut i: usize = 0;
        while i < self.sub_list.len()
            invariant
                i <= self.sub_list.len(),
                self.sub_list@ == subs,
                unique_clients(subs),
                kept@ == subs.take(i as int).filter(other_client(client_id@)),
                unique_clients(kept@),
                forall|a: int|
                    0 <= a < kept@.len() ==> exists|x: int|
                        0 <= x < i && #[trigger] kept@[a] == subs[x],
            decreases self.sub_list.len() - i,
        {
            let s = self.sub_list[i].clone();
            proof {
                subs.take(i as int).lemma_filter_push(subs[i as int], other_client(client_id@));
                assert(subs.take(i + 1) == subs.take(i as int).push(subs[i as int]));
            }
            let keep = !(s.client_id == *client_id);
            assert(keep == other_client(client_id@)(subs[i as int]));
            if keep {
                proof {
                    assert forall|a: int| 0 <= a < kept@.len() implies #[trigger] kept@[a].client_id@
                        != s.client_id@ by {
                        let x = choose|x: int| 0 <= x < i && kept@[a] == subs[x];
                        assert(subs[x].client_id@ != subs[i as int].client_id@);
                    }
                }
                kept.push(s);
                proof {
                    assert forall|a: int|
                        0 <= a < kept@.len() implies exists|x: int|
                            0 <= x < i + 1 && #[trigger] kept@[a] == subs[x] by {
                        if a == kept@.len() - 1 {
                            assert(kept@[a] == subs[i as int]);
                        } else {
                            let x = choose|x: int| 0 <= x < i && kept@[a] == subs[x];
                            assert(kept@[a] == subs[x]);
                        }
                    }
                }
            }
            i = i + 1;
        }
        assert(subs.take(subs.len() as int) == subs);
        self.sub_list = kept;
    }
}

} // verus!
