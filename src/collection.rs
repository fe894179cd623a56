use vstd::prelude::*;

use crate::federation::{
    domains_match, is_url, url_domain, url_parses, verify_domains_match, FederationError,
};

verus! {

/// A federation peer as stored here.
pub struct Instance {
    pub ap_id: String,
    pub inbox: String,
    /// The one instance of this deployment.
    pub local: bool,
}

/// The wire form of an instance.
pub struct ApubInstance {
    pub id: String,
    pub inbox: String,
}

/// The identity and inbox of an instance on the wire.
pub open spec fn apub_instance_view(i: ApubInstance) -> (Seq<char>, Seq<char>) {
    (i.id@, i.inbox@)
}

/// The instances that an instance links to, on the wire.
pub struct InstanceCollection {
    pub id: String,
    pub total_items: i32,
    pub items: Vec<ApubInstance>,
}

/// The collection of linked instances, as a kind of object.
pub struct DbInstanceCollection;

/// The text `protocol://domain` followed by `path`.
pub open spec fn url_text(protocol: Seq<char>, domain: Seq<char>, path: Seq<char>) -> Seq<char> {
    protocol + "://"@ + domain + path
}

/// `protocol://domain` followed by `path`, where that is an absolute URL.
pub(crate) fn build_url(protocol: &str, domain: &str, path: &str) -> (r: Result<String, FederationError>)
    ensures
        url_parses(url_text(protocol@, domain@, path@)) ==> (r matches Ok(s) && s@ == url_text(
            protocol@,
            domain@,
            path@,
        )),
        !url_parses(url_text(protocol@, domain@, path@)) ==> r == Err::<String, FederationError>(
            FederationError::InvalidUrl,
        ),
{
    let mut s = String::from_str(protocol);
    s.append("://");
    s.append(domain);
    s.append(path);
    if is_url(s.as_str()) {
        Ok(s)
    } else {
        Err(FederationError::InvalidUrl)
    }
}

/// The identity of the collection of instances that `domain` links to.
pub fn linked_instances_url(protocol: &str, domain: &str) -> (r: Result<String, FederationError>)
    ensures
        url_parses(url_text(protocol@, domain@, "/linked_instances"@)) ==> (r matches Ok(s) && s@
            == url_text(protocol@, domain@, "/linked_instances"@)),
        !url_parses(url_text(protocol@, domain@, "/linked_instances"@)) ==> r == Err::<
            String,
            FederationError,
        >(FederationError::InvalidUrl),
{
    build_url(protocol, domain, "/linked_instances")
}

/// A fresh activity identity at `domain`, told apart by `suffix` (chosen
/// by the caller, at random or from a counter).
pub fn generate_activity_id(protocol: &str, domain: &str, suffix: &str) -> (r: Result<String, FederationError>)
    ensures
        url_parses(url_text(protocol@, domain@, "/activity/"@ + suffix@)) ==> (r matches Ok(s) && s@
            == url_text(protocol@, domain@, "/activity/"@ + suffix@)),
        !url_parses(url_text(protocol@, domain@, "/activity/"@ + suffix@)) ==> r == Err::<
            String,
            FederationError,
        >(FederationError::InvalidUrl),
{
    let mut path = String::from_str("/activity/");
    path.append(suffix);
    build_url(protocol, domain, path.as_str())
}

/// The wire views of the instances among `insts` that are not local, in order.
pub open spec fn remote_instances(insts: Seq<Instance>) -> Seq<(Seq<char>, Seq<char>)>
    decreases insts.len(),
{
    if insts.len() == 0 {
        Seq::empty()
    } else {
        let rest = remote_instances(insts.drop_last());
        let i = insts.last();
        if i.local {
            rest
        } else {
            rest.push((i.ap_id@, i.inbox@))
        }
    }
}

/// Whether the identity `id` is one of the instance at `domain`.
pub open spec fn is_local_spec(id: Seq<char>, domain: Seq<char>) -> bool {
    url_parses(id) && url_domain(id) == Some(domain)
}

/// The items whose identity is not of the instance at `domain`, in order.
pub open spec fn foreign_items(items: Seq<ApubInstance>, domain: Seq<char>) -> Seq<(Seq<char>, Seq<char>)>
    decreases items.len(),
{
    if items.len() == 0 {
        Seq::empty()
    } else {
        let rest = foreign_items(items.drop_last(), domain);
        let i = items.last();
        if is_local_spec(i.id@, domain) {
            rest
        } else {
            rest.push(apub_instance_view(i))
        }
    }
}

impl DbInstanceCollection {
    /// The collection of the instances known here, the local one left out,
    /// under the identity `linked_instances_url(protocol, domain)`.
    pub fn read_local(instances: &Vec<Instance>, protocol: &str, domain: &str) -> (r: Result<InstanceCollection, FederationError>)
        ensures
            url_parses(url_text(protocol@, domain@, "/linked_instances"@)) ==> (r matches Ok(c) && {
                &&& c.id@ == url_text(protocol@, domain@, "/linked_instances"@)
                &&& c.items@.map_values(|i: ApubInstance| apub_instance_view(i)) == remote_instances(instances@)
                &&& c.total_items == c.items@.len() as i32
            }),
            !url_parses(url_text(protocol@, domain@, "/linked_instances"@)) ==> r == Err::<
                InstanceCollection,
                FederationError,
            >(FederationError::InvalidUrl),
    {
        let id = match linked_instances_url(protocol, domain) {
            Ok(id) => id,
            Err(e) => {
                return Err(e);
            },
        };
        let mut items: Vec<ApubInstance> = Vec::new();
        let mut i: usize = 0;
        assert(instances@.subrange(0, 0) =~= Seq::<Instance>::empty());
        assert(items@.map_values(|i: ApubInstance| apub_instance_view(i)) =~= Seq::<(Seq<char>, Seq<char>)>::empty());
        while i < instances.len()
            invariant
                i <= instances@.len(),
                items@.map_values(|i: ApubInstance| apub_instance_view(i)) == remote_instances(
                    instances@.subrange(0, i as int),
                ),
            decreases instances@.len() - i,
        {
            let ghost prefix = instances@.subrange(0, i as int + 1);
            assert(prefix.drop_last() =~= instances@.subrange(0, i as int));
            assert(prefix.last() == instances@[i as int]);
            let inst = &instances[i];
            if !inst.local {
                let ghost before = items@;
                items.push(ApubInstance { id: inst.ap_id.clone(), inbox: inst.inbox.clone() });
                assert(items@.map_values(|i: ApubInstance| apub_instance_view(i)) =~= before.map_values(
                    |i: ApubInstance| apub_instance_view(i),
                ).push((inst.ap_id@, inst.inbox@)));
            }
            i += 1;
        }
        assert(instances@.subrange(0, instances@.len() as int) =~= instances@);
        let total_items = items.len() as i32;
        Ok(InstanceCollection { id, total_items, items })
    }

    /// Checks that the collection comes from the domain it claims.
    pub fn verify(json: &InstanceCollection, expected_domain: &str) -> (r: Result<(), FederationError>)
        ensures
            r == domains_match(json.id@, expected_domain@),
    {
        verify_domains_match(json.id.as_str(), expected_domain)
    }

    /// The instances of a received collection to bring up to date here: all
    /// items but those of the local instance at `local_domain`, in order.
    /// Each is then fetched on its own, and one that fails does not hold up
    /// the others.
    pub fn from_json(apub: InstanceCollection, local_domain: &str) -> (r: Vec<ApubInstance>)
        ensures
            r@.map_values(|i: ApubInstance| apub_instance_view(i)) == foreign_items(apub.items@, local_domain@),
    {
        let ghost all = apub.items@;
        let mut items = apub.items;
        let mut out: Vec<ApubInstance> = Vec::new();
        let n = items.len();
        assert(all.subrange(0, 0) =~= Seq::<ApubInstance>::empty());
        assert(out@.map_values(|i: ApubInstance| apub_instance_view(i)) =~= Seq::<(Seq<char>, Seq<char>)>::empty());
        let mut i: usize = 0;
        while i < n
            invariant
                n == all.len(),
                items@ == all,
                i <= n,
                out@.map_values(|i: ApubInstance| apub_instance_view(i)) == foreign_items(
                    all.subrange(0, i as int),
                    local_domain@,
                ),
            decreases n - i,
        {
            let ghost prefix = all.subrange(0, i as int + 1);
            assert(prefix.drop_last() =~= all.subrange(0, i as int));
            assert(prefix.last() == all[i as int]);
            let item = &items[i];
            if !crate::federation::is_local_id(item.id.as_str(), local_domain) {
                let ghost before = out@;
                let copy = ApubInstance { id: item.id.clone(), inbox: item.inbox.clone() };
                out.push(copy);
                assert(out@.map_values(|i: ApubInstance| apub_instance_view(i)) =~= before.map_values(
                    |i: ApubInstance| apub_instance_view(i),
                ).push(apub_instance_view(all[i as int])));
            }
            i += 1;
        }
        assert(all.subrange(0, n as int) =~= all);
        out
    }
}

} // verus!
