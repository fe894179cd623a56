use vstd::prelude::*;

use crate::federation::{str_equal, urls_match, verify_urls_match, FederationError};

verus! {

/// A directed follow edge from an actor to an instance, both by identity URL.
pub struct FollowRelation {
    pub follower: String,
    pub instance: String,
    /// Set until the followed instance has accepted.
    pub pending: bool,
}

/// The follow edges known to this instance.
pub struct FollowTable {
    pub relations: Vec<FollowRelation>,
}

/// Relation `r` is the edge from `f` to `i`.
pub open spec fn is_edge(r: FollowRelation, f: Seq<char>, i: Seq<char>) -> bool {
    r.follower@ == f && r.instance@ == i
}

/// Whether the table holds an edge from `f` to `i`.
pub open spec fn has_edge(rs: Seq<FollowRelation>, f: Seq<char>, i: Seq<char>) -> bool {
    exists|k: int| 0 <= k < rs.len() && is_edge(#[trigger] rs[k], f, i)
}

impl FollowTable {
    /// At most one edge for each pair of follower and followed instance.
    pub open spec fn wf(&self) -> bool {
        forall|a: int, b: int|
            0 <= a < b < self.relations@.len() ==> !is_edge(
                #[trigger] self.relations@[a],
                (#[trigger] self.relations@[b]).follower@,
                self.relations@[b].instance@,
            )
    }

    /// An empty table.
    pub fn new() -> (r: FollowTable)
        ensures
            r.wf(),
            r.relations@.len() == 0,
    {
        FollowTable { relations: Vec::new() }
    }

    /// What recording the edge from `f` to `i` with the given pending flag does:
    /// an existing edge for that pair takes the flag; otherwise one is added.
    pub open spec fn followed(old: &FollowTable, new: &FollowTable, f: Seq<char>, i: Seq<char>, pending: bool) -> bool {
        if has_edge(old.relations@, f, i) {
            &&& new.relations@.len() == old.relations@.len()
            &&& exists|k: int|
                0 <= k < old.relations@.len() && is_edge(#[trigger] old.relations@[k], f, i)
                    && is_edge(new.relations@[k], f, i) && new.relations@[k].pending == pending
                    && forall|j: int| 0 <= j < old.relations@.len() && j != k ==> #[trigger] new.relations@[j] == old.relations@[j]
        } else {
            &&& new.relations@.len() == old.relations@.len() + 1
            &&& new.relations@.drop_last() == old.relations@
            &&& is_edge(new.relations@.last(), f, i)
            &&& new.relations@.last().pending == pending
        }
    }

    /// Records that `follower` follows `instance`, keeping one edge per pair.
    pub fn follow(&mut self, follower: &str, instance: &str, pending: bool)
        requires
            old(self).wf(),
        ensures
            final(self).wf(),
            FollowTable::followed(old(self), final(self), follower@, instance@, pending),
    {
        let ghost old_rs = self.relations@;
        let mut k: usize = 0;
        while k < self.relations.len()
            invariant
                self.relations@ == old_rs,
                old_rs == old(self).relations@,
                old(self).wf(),
                k <= old_rs.len(),
                forall|j: int| 0 <= j < k ==> !is_edge(#[trigger] old_rs[j], follower@, instance@),
            decreases old_rs.len() - k,
        {
            let r = &self.relations[k];
            if str_equal(r.follower.as_str(), follower) && str_equal(r.instance.as_str(), instance) {
                let updated = FollowRelation {
                    follower: r.follower.clone(),
                    instance: r.instance.clone(),
                    pending,
                };
                self.relations.set(k, updated);
                proof {
                    assert(is_edge(old_rs[k as int], follower@, instance@));
                    assert forall|a: int, b: int|
                        0 <= a < b < self.relations@.len() implies !is_edge(
                            #[trigger] self.relations@[a],
                            (#[trigger] self.relations@[b]).follower@,
                            self.relations@[b].instance@,
                        ) by {
                        assert(is_edge(self.relations@[a], old_rs[a].follower@, old_rs[a].instance@));
                        assert(is_edge(self.relations@[b], old_rs[b].follower@, old_rs[b].instance@));
                        assert(!is_edge(old_rs[a], old_rs[b].follower@, old_rs[b].instance@));
                    }
                    assert(self.relations@[k as int].pending == pending);
                    assert(is_edge(self.relations@[k as int], follower@, instance@));
                    assert(forall|j: int| 0 <= j < old_rs.len() && j != k ==> #[trigger] self.relations@[j] == old_rs[j]);
                }
                return;
            }
            k += 1;
        }
        let rel = FollowRelation {
            follower: String::from_str(follower),
            instance: String::from_str(instance),
            pending,
        };
        self.relations.push(rel);
        proof {
            assert(self.relations@.drop_last() =~= old_rs);
            assert forall|a: int, b: int|
                0 <= a < b < self.relations@.len() implies !is_edge(
                    #[trigger] self.relations@[a],
                    (#[trigger] self.relations@[b]).follower@,
                    self.relations@[b].instance@,
                ) by {
                if b == old_rs.len() {
                    assert(self.relations@[a] == old_rs[a]);
                } else {
                    assert(self.relations@[a] == old_rs[a]);
                    assert(self.relations@[b] == old_rs[b]);
                }
            }
        }
    }
}

/// Where an actor takes deliveries: its own inbox, and the inbox that all
/// actors of its instance share, where the instance has one.
pub struct ActorInboxes {
    pub ap_id: String,
    pub inbox: String,
    pub shared_inbox: Option<String>,
}

/// The inbox that deliveries to `a` go to.
pub open spec fn preferred_inbox(a: ActorInboxes) -> Seq<char> {
    match a.shared_inbox {
        Some(s) => s@,
        None => a.inbox@,
    }
}

impl ActorInboxes {
    /// The shared inbox where there is one, else the actor's own.
    pub fn shared_inbox_or_inbox(&self) -> (r: String)
        ensures
            r@ == preferred_inbox(*self),
    {
        match &self.shared_inbox {
            Some(s) => s.clone(),
            None => self.inbox.clone(),
        }
    }
}

/// Whether some line of `v` reads `s`.
pub open spec fn holds_str(v: Seq<String>, s: Seq<char>) -> bool {
    exists|j: int| 0 <= j < v.len() && (#[trigger] v[j])@ == s
}

/// Whether `s` is the preferred inbox of one of the first `n` recipients.
pub open spec fn inbox_of_some(rs: Seq<ActorInboxes>, n: int, s: Seq<char>) -> bool {
    exists|k: int| 0 <= k < n && preferred_inbox(#[trigger] rs[k]) == s
}

/// No two entries of `v` read the same.
pub open spec fn distinct_strs(v: Seq<String>) -> bool {
    forall|a: int, b: int| 0 <= a < b < v.len() ==> (#[trigger] v[a])@ != (#[trigger] v[b])@
}

/// Whether `s` occurs in `v`.
fn contains_str(v: &Vec<String>, s: &str) -> (r: bool)
    ensures
        r == holds_str(v@, s@),
{
    let mut i: usize = 0;
    while i < v.len()
        invariant
            i <= v@.len(),
            forall|j: int| 0 <= j < i ==> (#[trigger] v@[j])@ != s@,
        decreases v@.len() - i,
    {
        if str_equal(v[i].as_str(), s) {
            return true;
        }
        i += 1;
    }
    false
}

/// The inboxes to deliver an activity for `recipients` to: each recipient's
/// preferred inbox, each inbox once.
pub fn delivery_inboxes(recipients: &Vec<ActorInboxes>) -> (r: Vec<String>)
    ensures
        distinct_strs(r@),
        forall|i: int| 0 <= i < recipients@.len() ==> holds_str(r@, preferred_inbox(#[trigger] recipients@[i])),
        forall|j: int| 0 <= j < r@.len() ==> inbox_of_some(recipients@, recipients@.len() as int, (#[trigger] r@[j])@),
{
    let mut r: Vec<String> = Vec::new();
    let mut i: usize = 0;
    while i < recipients.len()
        invariant
            i <= recipients@.len(),
            distinct_strs(r@),
            forall|k: int| 0 <= k < i ==> holds_str(r@, preferred_inbox(#[trigger] recipients@[k])),
            forall|j: int| 0 <= j < r@.len() ==> inbox_of_some(recipients@, i as int, (#[trigger] r@[j])@),
        decreases recipients@.len() - i,
    {
        let inbox = recipients[i].shared_inbox_or_inbox();
        let ghost before = r@;
        let ghost pi = preferred_inbox(recipients@[i as int]);
        if !contains_str(&r, inbox.as_str()) {
            r.push(inbox);
            proof {
                assert(r@[before.len() as int]@ == pi);
                assert forall|a: int, b: int| 0 <= a < b < r@.len() implies (#[trigger] r@[a])@ != (#[trigger] r@[b])@ by {
                    assert(r@[a] == before[a]);
                    if b < before.len() {
                        assert(r@[b] == before[b]);
                    }
                }
                assert forall|k: int| 0 <= k < i + 1 implies holds_str(r@, preferred_inbox(#[trigger] recipients@[k])) by {
                    if k < i {
                        let j = choose|j: int| 0 <= j < before.len() && (#[trigger] before[j])@ == preferred_inbox(recipients@[k]);
                        assert(r@[j] == before[j]);
                    } else {
                        assert(r@[before.len() as int]@ == preferred_inbox(recipients@[k]));
                    }
                }
                assert forall|j: int| 0 <= j < r@.len() implies inbox_of_some(recipients@, i as int + 1, (#[trigger] r@[j])@) by {
                    if j < before.len() {
                        assert(r@[j] == before[j]);
                        assert(inbox_of_some(recipients@, i as int, before[j]@));
                        let k = choose|k: int| 0 <= k < i && preferred_inbox(#[trigger] recipients@[k]) == before[j]@;
                        assert(preferred_inbox(recipients@[k]) == r@[j]@);
                    } else {
                        assert(preferred_inbox(recipients@[i as int]) == r@[j]@);
                    }
                }
            }
        } else {
            proof {
                assert forall|k: int| 0 <= k < i + 1 implies holds_str(r@, preferred_inbox(#[trigger] recipients@[k])) by {
                    if k == i {
                        assert(holds_str(r@, inbox@));
                    }
                }
                assert forall|j: int| 0 <= j < r@.len() implies inbox_of_some(recipients@, i as int + 1, (#[trigger] r@[j])@) by {
                    assert(inbox_of_some(recipients@, i as int, r@[j]@));
                    let k = choose|k: int| 0 <= k < i && preferred_inbox(#[trigger] recipients@[k]) == r@[j]@;
                    assert(preferred_inbox(recipients@[k]) == r@[j]@);
                }
            }
        }
        i += 1;
    }
    r
}

/// A request by `actor` (a person) to follow the instance `object`.
pub struct Follow {
    pub actor: String,
    pub object: String,
    pub id: String,
}

/// An instance's acceptance of a follow request.
pub struct Accept {
    /// The accepting instance.
    pub actor: String,
    pub object: Follow,
    pub id: String,
}

impl Follow {
    /// A request by `actor` to follow the instance `to`, with activity id `id`.
    pub fn new(actor: &ActorInboxes, to: &ActorInboxes, id: String) -> (r: Follow)
        ensures
            r.actor@ == actor.ap_id@,
            r.object@ == to.ap_id@,
            r.id@ == id@,
    {
        Follow { actor: actor.ap_id.clone(), object: to.ap_id.clone(), id }
    }

    /// The request by `actor` to follow `to`, and the inbox to deliver it to.
    pub fn send(actor: &ActorInboxes, to: &ActorInboxes, id: String) -> (r: (Follow, Vec<String>))
        ensures
            r.0.actor@ == actor.ap_id@,
            r.0.object@ == to.ap_id@,
            r.0.id@ == id@,
            r.1@.len() == 1,
            r.1@[0]@ == preferred_inbox(*to),
    {
        let follow = Follow::new(actor, to, id);
        let mut inboxes: Vec<String> = Vec::new();
        inboxes.push(to.shared_inbox_or_inbox());
        (follow, inboxes)
    }

    /// Takes a follow request addressed to the local instance `local_instance`:
    /// records the edge at once, not pending, and answers with an acceptance
    /// (id `accept_id`) for the follower's preferred inbox. A request addressed
    /// to another instance, or whose `follower` is not its actor, is refused
    /// and nothing is recorded.
    pub fn receive(
        self,
        local_instance: &str,
        follower: &ActorInboxes,
        accept_id: String,
        follows: &mut FollowTable,
    ) -> (r: Result<(Accept, Vec<String>), FederationError>)
        requires
            old(follows).wf(),
        ensures
            final(follows).wf(),
            urls_match(self.object@, local_instance@) is Err ==> r == Err::<(Accept, Vec<String>), FederationError>(
                urls_match(self.object@, local_instance@)->Err_0,
            ) && *final(follows) == *old(follows),
            urls_match(self.object@, local_instance@) is Ok && follower.ap_id@ != self.actor@ ==> r == Err::<
                (Accept, Vec<String>),
                FederationError,
            >(FederationError::UrlMismatch) && *final(follows) == *old(follows),
            urls_match(self.object@, local_instance@) is Ok && follower.ap_id@ == self.actor@ ==> {
                &&& FollowTable::followed(old(follows), final(follows), self.actor@, local_instance@, false)
                &&& r matches Ok(out) && {
                    &&& out.0.actor@ == local_instance@
                    &&& out.0.object.actor@ == self.actor@
                    &&& out.0.object.object@ == self.object@
                    &&& out.0.object.id@ == self.id@
                    &&& out.0.id@ == accept_id@
                    &&& out.1@.len() == 1
                    &&& out.1@[0]@ == preferred_inbox(*follower)
                }
            },
    {
        match verify_urls_match(self.object.as_str(), local_instance) {
            Err(e) => {
                return Err(e);
            },
            Ok(()) => {},
        }
        if !str_equal(follower.ap_id.as_str(), self.actor.as_str()) {
            return Err(FederationError::UrlMismatch);
        }
        follows.follow(self.actor.as_str(), local_instance, false);
        let accepted = Accept::send(local_instance, self, follower, accept_id);
        Ok(accepted)
    }
}

impl Accept {
    /// The acceptance by `local_instance` of `object`, and the inbox of the
    /// follower to deliver it to.
    pub fn send(local_instance: &str, object: Follow, follower: &ActorInboxes, id: String) -> (r: (Accept, Vec<String>))
        ensures
            r.0.actor@ == local_instance@,
            r.0.object.actor@ == object.actor@,
            r.0.object.object@ == object.object@,
            r.0.object.id@ == object.id@,
            r.0.id@ == id@,
            r.1@.len() == 1,
            r.1@[0]@ == preferred_inbox(*follower),
    {
        let mut inboxes: Vec<String> = Vec::new();
        inboxes.push(follower.shared_inbox_or_inbox());
        (Accept { actor: String::from_str(local_instance), object, id }, inboxes)
    }

    /// Takes an acceptance: the follower's edge to the accepting instance is
    /// recorded, not pending. Taking the same acceptance again changes nothing more.
    pub fn receive(self, follows: &mut FollowTable)
        requires
            old(follows).wf(),
        ensures
            final(follows).wf(),
            FollowTable::followed(old(follows), final(follows), self.object.actor@, self.actor@, false),
    {
        follows.follow(self.object.actor.as_str(), self.actor.as_str(), false);
    }
}

/// A follow request taken twice from the same actor leaves one edge for the
/// pair, not pending: the second one adds none.
pub proof fn lemma_duplicate_follow(
    t0: &FollowTable,
    t1: &FollowTable,
    t2: &FollowTable,
    follower: Seq<char>,
    instance: Seq<char>,
)
    requires
        t0.wf(),
        t1.wf(),
        FollowTable::followed(t0, t1, follower, instance, false),
        FollowTable::followed(t1, t2, follower, instance, false),
    ensures
        t2.relations@.len() == t1.relations@.len(),
        has_edge(t2.relations@, follower, instance),
        forall|a: int, b: int|
            0 <= a < b < t2.relations@.len() && is_edge(#[trigger] t2.relations@[a], follower, instance)
                ==> !is_edge(#[trigger] t2.relations@[b], follower, instance),
        forall|a: int| 0 <= a < t2.relations@.len() && is_edge(#[trigger] t2.relations@[a], follower, instance) ==> !t2.relations@[a].pending,
{
    if !has_edge(t0.relations@, follower, instance) {
        let n = t0.relations@.len() as int;
        assert(is_edge(t1.relations@[n], follower, instance));
    }
    assert(has_edge(t1.relations@, follower, instance));
    let k = choose|k: int|
        0 <= k < t1.relations@.len() && is_edge(#[trigger] t1.relations@[k], follower, instance)
            && is_edge(t2.relations@[k], follower, instance) && t2.relations@[k].pending == false
            && forall|j: int| 0 <= j < t1.relations@.len() && j != k ==> #[trigger] t2.relations@[j] == t1.relations@[j];
    assert(is_edge(t2.relations@[k], follower, instance));
    assert forall|a: int| 0 <= a < t2.relations@.len() && is_edge(#[trigger] t2.relations@[a], follower, instance) implies a == k by {
        if a != k {
            assert(t2.relations@[a] == t1.relations@[a]);
            if a < k {
                assert(!is_edge(t1.relations@[a], t1.relations@[k].follower@, t1.relations@[k].instance@));
            } else {
                assert(!is_edge(t1.relations@[k], t1.relations@[a].follower@, t1.relations@[a].instance@));
            }
        }
    }
}

} // verus!
