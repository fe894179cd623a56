use vstd::prelude::*;

use crate::article::{text_view, Article, EditForm, SubmitOutcome};
use crate::collection::{build_url, linked_instances_url, url_text, Instance};
use crate::federation::{url_parses, FederationError};
use crate::patch::{apply_spec, Hunk, Patch};

verus! {

/// The title of the page shown by default.
pub const MAIN_PAGE_NAME: &'static str = "Main_Page";

/// The lines that the main page starts with.
pub open spec fn main_page_lines() -> Seq<Seq<char>> {
    seq![
        "Welcome to Ibis, the federated Wikipedia alternative!"@,
        ""@,
        "This main page can only be edited by the admin. Use it as an introduction for new users, and to list interesting articles."@,
    ]
}

/// The local instance as set up: its identity and inbox, the identities of
/// its collections, and its key pair (private key present, as it is local).
pub struct LocalInstance {
    pub instance: Instance,
    pub articles_url: String,
    pub instances_url: String,
    pub public_key: String,
    pub private_key: Option<String>,
}

/// All the identities of a local instance at `domain` are absolute URLs.
pub open spec fn local_urls_parse(protocol: Seq<char>, domain: Seq<char>) -> bool {
    &&& url_parses(url_text(protocol, domain, ""@))
    &&& url_parses(url_text(protocol, domain, "/inbox"@))
    &&& url_parses(url_text(protocol, domain, "/all_articles"@))
    &&& url_parses(url_text(protocol, domain, "/linked_instances"@))
}

/// The local instance at `domain`: identity `protocol://domain`, inbox
/// `/inbox`, articles `/all_articles`, linked instances `/linked_instances`,
/// with the key pair that the caller generated.
pub fn local_instance(protocol: &str, domain: &str, public_key: String, private_key: String) -> (r: Result<LocalInstance, FederationError>)
    ensures
        local_urls_parse(protocol@, domain@) ==> (r matches Ok(l) && {
            &&& l.instance.local
            &&& l.instance.ap_id@ == url_text(protocol@, domain@, ""@)
            &&& l.instance.inbox@ == url_text(protocol@, domain@, "/inbox"@)
            &&& l.articles_url@ == url_text(protocol@, domain@, "/all_articles"@)
            &&& l.instances_url@ == url_text(protocol@, domain@, "/linked_instances"@)
            &&& l.public_key@ == public_key@
            &&& l.private_key matches Some(k) && k@ == private_key@
        }),
        !local_urls_parse(protocol@, domain@) ==> r == Err::<LocalInstance, FederationError>(
            FederationError::InvalidUrl,
        ),
{
    let ap_id = match build_url(protocol, domain, "") {
        Ok(s) => s,
        Err(e) => {
            return Err(e);
        },
    };
    let inbox = match build_url(protocol, domain, "/inbox") {
        Ok(s) => s,
        Err(e) => {
            return Err(e);
        },
    };
    let articles_url = match build_url(protocol, domain, "/all_articles") {
        Ok(s) => s,
        Err(e) => {
            return Err(e);
        },
    };
    let instances_url = match linked_instances_url(protocol, domain) {
        Ok(s) => s,
        Err(e) => {
            return Err(e);
        },
    };
    Ok(
        LocalInstance {
            instance: Instance { ap_id, inbox, local: true },
            articles_url,
            instances_url,
            public_key,
            private_key: Some(private_key),
        },
    )
}

/// An actor of this instance.
pub struct Person {
    pub name: String,
    pub ap_id: String,
    pub admin: bool,
    pub local: bool,
}

/// The name of the person that edits are attributed to when their author
/// cannot be.
pub const GHOST_NAME: &'static str = "ghost";

/// The local person `name` at `domain`, under `protocol://domain/user/name`.
pub fn local_person(protocol: &str, domain: &str, name: &str, admin: bool) -> (r: Result<Person, FederationError>)
    ensures
        url_parses(url_text(protocol@, domain@, "/user/"@ + name@)) ==> (r matches Ok(p) && {
            &&& p.name@ == name@
            &&& p.ap_id@ == url_text(protocol@, domain@, "/user/"@ + name@)
            &&& p.admin == admin
            &&& p.local
        }),
        !url_parses(url_text(protocol@, domain@, "/user/"@ + name@)) ==> r == Err::<Person, FederationError>(
            FederationError::InvalidUrl,
        ),
{
    let mut path = String::from_str("/user/");
    path.append(name);
    let ap_id = match build_url(protocol, domain, path.as_str()) {
        Ok(s) => s,
        Err(e) => {
            return Err(e);
        },
    };
    Ok(Person { name: String::from_str(name), ap_id, admin, local: true })
}

/// The reserved person that stands for authors who cannot be named.
pub fn ghost_person(protocol: &str, domain: &str) -> (r: Result<Person, FederationError>)
    ensures
        url_parses(url_text(protocol@, domain@, "/user/"@ + GHOST_NAME@)) ==> (r matches Ok(p) && {
            &&& p.name@ == GHOST_NAME@
            &&& p.ap_id@ == url_text(protocol@, domain@, "/user/"@ + GHOST_NAME@)
            &&& !p.admin
            &&& p.local
        }),
        !url_parses(url_text(protocol@, domain@, "/user/"@ + GHOST_NAME@)) ==> r == Err::<Person, FederationError>(
            FederationError::InvalidUrl,
        ),
{
    local_person(protocol, domain, GHOST_NAME, false)
}

/// The main page of a new instance: a local, protected, approved article
/// under `protocol://domain/article/Main_Page`, whose first edit, by `admin`,
/// writes the default text.
pub fn main_page(protocol: &str, domain: &str, instance_id: u64, admin: u64) -> (r: Result<Article, FederationError>)
    ensures
        url_parses(url_text(protocol@, domain@, "/article/"@ + MAIN_PAGE_NAME@)) ==> (r matches Ok(a) && {
            &&& a.wf()
            &&& a.ap_id@ == url_text(protocol@, domain@, "/article/"@ + MAIN_PAGE_NAME@)
            &&& a.title@ == MAIN_PAGE_NAME@
            &&& a.instance_id == instance_id
            &&& a.local && a.protected && a.approved
            &&& text_view(a.text@) == main_page_lines()
            &&& a.edits@.len() == 1
            &&& a.edits@[0].author == admin
            &&& a.edits@[0].summary@ == "Default main page"@
            &&& a.conflicts@.len() == 0
        }),
        !url_parses(url_text(protocol@, domain@, "/article/"@ + MAIN_PAGE_NAME@)) ==> r == Err::<
            Article,
            FederationError,
        >(FederationError::InvalidUrl),
{
    let mut path = String::from_str("/article/");
    path.append(MAIN_PAGE_NAME);
    let ap_id = match build_url(protocol, domain, path.as_str()) {
        Ok(s) => s,
        Err(e) => {
            return Err(e);
        },
    };
    let mut a = Article::new(String::from_str(MAIN_PAGE_NAME), ap_id, instance_id, true, true, true);
    let mut lines: Vec<String> = Vec::new();
    lines.push(String::from_str("Welcome to Ibis, the federated Wikipedia alternative!"));
    lines.push(String::from_str(""));
    lines.push(
        String::from_str(
            "This main page can only be edited by the admin. Use it as an introduction for new users, and to list interesting articles.",
        ),
    );
    let ghost inserted = lines@;
    let mut hunks: Vec<Hunk> = Vec::new();
    hunks.push(Hunk { start: 0, removed: 0, inserted: lines });
    let patch = Patch { hunks };
    let form = EditForm {
        based_on: a.version,
        patch,
        author: admin,
        summary: String::from_str("Default main page"),
    };
    let ghost q = form.patch@;
    let ghost before = a;
    proof {
        assert(q.len() == 1);
        assert(q[0].inserted == inserted);
        assert(q.drop_first() =~= Seq::<crate::patch::HunkView>::empty());
        let b = before.text@;
        assert(b.len() == 0);
        assert(crate::patch::apply_hunks(b, q.drop_first(), 0) =~= Seq::<String>::empty());
        assert(b.subrange(0, 0) =~= Seq::<String>::empty());
        assert(apply_spec(b, q) == b.subrange(0, 0) + inserted + crate::patch::apply_hunks(b, q.drop_first(), 0));
        assert(apply_spec(before.text@, q) =~= inserted);
        assert(text_view(inserted) =~= main_page_lines());
        assert(text_view(before.text@).len() == 0);
    }
    let r = a.submit_edit(form, true);
    proof {
        assert(r == Ok::<SubmitOutcome, crate::article::EditError>(SubmitOutcome::Applied(a.version)));
        assert(a.text@ == inserted);
    }
    Ok(a)
}

/// What setting up a new instance produces.
pub struct SetupResult {
    pub instance: LocalInstance,
    pub admin: Person,
    pub ghost_user: Person,
    pub main_page: Article,
}

/// All the identities that setting up an instance at `domain` creates are absolute URLs.
pub open spec fn setup_urls_parse(protocol: Seq<char>, domain: Seq<char>, admin_username: Seq<char>) -> bool {
    &&& local_urls_parse(protocol, domain)
    &&& url_parses(url_text(protocol, domain, "/user/"@ + admin_username))
    &&& url_parses(url_text(protocol, domain, "/user/"@ + GHOST_NAME@))
    &&& url_parses(url_text(protocol, domain, "/article/"@ + MAIN_PAGE_NAME@))
}

/// Sets up a new instance at `domain`: the local instance with the given key
/// pair, its administrator (person `admin_id`), the ghost person, and the
/// main page, stored as instance `instance_id`.
pub fn setup(
    protocol: &str,
    domain: &str,
    admin_username: &str,
    admin_id: u64,
    instance_id: u64,
    public_key: String,
    private_key: String,
) -> (r: Result<SetupResult, FederationError>)
    ensures
        setup_urls_parse(protocol@, domain@, admin_username@) ==> (r matches Ok(s) && {
            &&& s.instance.instance.local
            &&& s.instance.instance.ap_id@ == url_text(protocol@, domain@, ""@)
            &&& s.instance.instance.inbox@ == url_text(protocol@, domain@, "/inbox"@)
            &&& s.instance.instances_url@ == url_text(protocol@, domain@, "/linked_instances"@)
            &&& s.instance.articles_url@ == url_text(protocol@, domain@, "/all_articles"@)
            &&& s.instance.public_key@ == public_key@
            &&& s.instance.private_key matches Some(k) && k@ == private_key@
            &&& s.admin.name@ == admin_username@ && s.admin.admin && s.admin.local
            &&& s.admin.ap_id@ == url_text(protocol@, domain@, "/user/"@ + admin_username@)
            &&& s.ghost_user.name@ == GHOST_NAME@ && !s.ghost_user.admin && s.ghost_user.local
            &&& s.main_page.wf()
            &&& s.main_page.title@ == MAIN_PAGE_NAME@
            &&& s.main_page.instance_id == instance_id
            &&& s.main_page.local && s.main_page.protected && s.main_page.approved
            &&& text_view(s.main_page.text@) == main_page_lines()
            &&& s.main_page.edits@.len() == 1
            &&& s.main_page.edits@[0].author == admin_id
        }),
        !setup_urls_parse(protocol@, domain@, admin_username@) ==> r == Err::<SetupResult, FederationError>(
            FederationError::InvalidUrl,
        ),
{
    let instance = match local_instance(protocol, domain, public_key, private_key) {
        Ok(i) => i,
        Err(e) => {
            return Err(e);
        },
    };
    let admin = match local_person(protocol, domain, admin_username, true) {
        Ok(p) => p,
        Err(e) => {
            return Err(e);
        },
    };
    let ghost_user = match ghost_person(protocol, domain) {
        Ok(p) => p,
        Err(e) => {
            return Err(e);
        },
    };
    let main_page = match main_page(protocol, domain, instance_id, admin_id) {
        Ok(a) => a,
        Err(e) => {
            return Err(e);
        },
    };
    Ok(SetupResult { instance, admin, ghost_user, main_page })
}

} // verus!
