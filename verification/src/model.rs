//! Normalized read results: posts, users, lists and their provenance.
use vstd::prelude::*;

verus! {

#[derive(Debug, Clone, PartialEq, Eq)]
pub struct Identity {
    pub id: String,
    pub handle: String,
}

#[derive(Debug, Clone, PartialEq, Eq)]
pub struct Post {
    pub id: String,
    pub author: Identity,
    pub text: String,
    pub created_at: Option<String>,
    pub parent_id: Option<String>,
    /// False means missing parent data cannot be interpreted as a root post.
    pub parent_known: bool,
    pub url: String,
}

#[derive(Debug, Clone, Copy, PartialEq, Eq, Structural)]
pub enum ListVisibility {
    Public,
    Private,
}

/// Where a list was observed in the viewer's list-management view.
#[derive(Debug, Clone, Copy, PartialEq, Eq, Structural)]
pub enum ListManagementSection {
    Pinned,
    OwnedSubscribed,
    Unsectioned,
}

#[derive(Debug, Clone, PartialEq, Eq)]
pub struct ListInfo {
    pub id: String,
    pub name: String,
    pub description: Option<String>,
    pub visibility: Option<ListVisibility>,
    pub owner: Option<Identity>,
    pub subscribed: Option<bool>,
    pub pinned: Option<bool>,
    pub is_member: Option<bool>,
    pub management_sections: Vec<ListManagementSection>,
    pub url: String,
}

/// What a list says, as values.
pub struct ListView {
    pub id: Seq<char>,
    pub name: Seq<char>,
    pub description: Option<Seq<char>>,
    pub visibility: Option<ListVisibility>,
    /// The owner's ID and handle.
    pub owner: Option<(Seq<char>, Seq<char>)>,
    pub subscribed: Option<bool>,
    pub pinned: Option<bool>,
    pub is_member: Option<bool>,
    pub management_sections: Seq<ListManagementSection>,
    pub url: Seq<char>,
}

impl View for ListInfo {
    type V = ListView;

    open spec fn view(&self) -> ListView {
        ListView {
            id: self.id@,
            name: self.name@,
            description: match self.description {
                Some(d) => Some(d@),
                None => None,
            },
            visibility: self.visibility,
            owner: match self.owner {
                Some(o) => Some((o.id@, o.handle@)),
                None => None,
            },
            subscribed: self.subscribed,
            pinned: self.pinned,
            is_member: self.is_member,
            management_sections: self.management_sections@,
            url: self.url@,
        }
    }
}

#[derive(Debug, Clone, PartialEq, Eq)]
pub struct Provenance {
    pub backend: String,
    pub account_id: Option<String>,
    /// Unix seconds, recording local retrieval time, not source freshness guarantees.
    pub retrieved_at: u64,
    pub cache: String,
    pub age_seconds: u64,
}

#[derive(Debug, Clone, PartialEq, Eq)]
pub struct Output {
    pub posts: Vec<Post>,
    /// Present (including an empty array) only for user collections.
    pub users: Option<Vec<Identity>>,
    /// Present (including an empty array) only for list collections and list metadata.
    pub lists: Option<Vec<ListInfo>>,
    pub provenance: Provenance,
    pub complete: bool,
    pub parent_chain_complete: Option<bool>,
    pub replies_complete: Option<bool>,
    pub request_failed: bool,
    pub stop_reason: String,
    pub next_cursor: Option<String>,
    pub pages: u32,
    pub warnings: Vec<String>,
}

/// The current Unix time in seconds (zero if the clock is before the epoch).
/// Nothing is promised about the value: it is read from the system clock.
#[verifier::external_body]
pub fn now() -> u64 {
    std::time::SystemTime::now()
        .duration_since(std::time::UNIX_EPOCH)
        .unwrap_or_default()
        .as_secs()
}

/// An empty, incomplete result for the given backend and account scope,
/// stamped with the current time as a cache miss.
pub open spec fn is_fresh_output(o: Output, backend: Seq<char>, account_id: Option<String>) -> bool {
    &&& o.posts@.len() == 0
    &&& o.users is None
    &&& o.lists is None
    &&& o.provenance.backend@ == backend
    &&& o.provenance.account_id == account_id
    &&& o.provenance.cache@ == "miss"@
    &&& o.provenance.age_seconds == 0
    &&& !o.complete
    &&& o.parent_chain_complete is None
    &&& o.replies_complete is None
    &&& !o.request_failed
    &&& o.stop_reason@ == "unknown"@
    &&& o.next_cursor is None
    &&& o.pages == 0
    &&& o.warnings@.len() == 0
}

impl Output {
    /// An empty, incomplete result stamped with the current time (see `new_at`).
    pub fn new(backend: &str, account_id: Option<String>) -> (o: Self)
        ensures
            is_fresh_output(o, backend@, account_id),
    {
        let t = now();
        Output::new_at(backend, account_id, t)
    }

    /// An empty, incomplete result for the backend and account scope, retrieved at
    /// `retrieved_at`, as a cache miss.
    pub fn new_at(backend: &str, account_id: Option<String>, retrieved_at: u64) -> (o: Self)
        ensures
            is_fresh_output(o, backend@, account_id),
            o.provenance.retrieved_at == retrieved_at,
    {
        Output {
            posts: Vec::new(),
            users: None,
            lists: None,
            provenance: Provenance {
                backend: backend.to_owned(),
                account_id,
                retrieved_at,
                cache: "miss".to_owned(),
                age_seconds: 0,
            },
            complete: false,
            parent_chain_complete: None,
            replies_complete: None,
            request_failed: false,
            stop_reason: "unknown".to_owned(),
            next_cursor: None,
            pages: 0,
            warnings: Vec::new(),
        }
    }
}

} // verus!
