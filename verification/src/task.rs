//! Retrieval commands as validated tasks: routing needs, cache keys and cache shapes.
use vstd::prelude::*;
use crate::cli::{
    Access, Backend, BookmarkCommand, Command, LikesCommand, ListMembersCommand, ListsCommand, Paging,
    RelationshipCommand, UserCommand, route_of,
};
use crate::error::{Error, Kind};
use crate::input::{handle, id, is_handle, is_post_id, post, post_id_of, strip_at};
use crate::model::Output;
use crate::text::{chars_of, lower, lower_char, string_of};

verus! {

#[derive(Debug)]
pub enum Task {
    Read(String),
    Thread(String, u32, bool, Paging),
    Search(String, Paging),
    Timeline(String, Paging),
    Bookmarks(Paging),
    Likes(Paging),
    ListPosts(String, Paging),
    ListMembers(String, Paging),
    ListMetadata(String),
    ListInventory(Paging),
    Relationships { followers: bool, paging: Paging },
}

/// Unicode white space (`char::is_whitespace`).
pub open spec fn is_whitespace(c: char) -> bool {
    ||| ('\u{9}' <= c && c <= '\u{d}')
    ||| c == ' '
    ||| c == '\u{85}'
    ||| c == '\u{a0}'
    ||| c == '\u{1680}'
    ||| ('\u{2000}' <= c && c <= '\u{200a}')
    ||| c == '\u{2028}'
    ||| c == '\u{2029}'
    ||| c == '\u{202f}'
    ||| c == '\u{205f}'
    ||| c == '\u{3000}'
}

/// Nothing but white space remains after trimming.
pub open spec fn blank(s: Seq<char>) -> bool {
    forall|i: int| 0 <= i < s.len() ==> #[trigger] is_whitespace(s[i])
}

/// The length in bytes of a text's UTF-8 encoding (as `str::len` reports it).
pub open spec fn byte_len(s: Seq<char>) -> nat {
    (vstd::utf8::encode_utf8(s).len() as usize) as nat
}

/// A list ID: a post-style decimal ID written without a leading zero.
pub open spec fn is_list_id(s: Seq<char>) -> bool {
    is_post_id(s) && s[0] != '0'
}

pub open spec fn account_given(a: Access) -> bool {
    a.account matches Some(s) && s@.len() > 0
}

/// A continuation cursor must hold 1 to 4096 bytes.
pub open spec fn cursor_error(c: Option<String>) -> Option<Kind> {
    if (c matches Some(x) && (x@.len() == 0 || byte_len(x@) > 4096)) {
        Some(Kind::InvalidInput)
    } else {
        None
    }
}

/// Commands that read posts, users or lists (the others are administrative).
pub open spec fn is_retrieval(c: Command) -> bool {
    !(c is Auth || c is Cache || c is Doctor || c is Update)
}

/// The error kind with which a retrieval command is refused before any access, if any.
pub open spec fn command_error(c: Command) -> Option<Kind> {
    match c {
        Command::Read { target, access } => if post_id_of(target@) is None {
            Some(Kind::InvalidInput)
        } else {
            None
        },
        Command::Thread { target, access, max_parents, replies, paging } => if !replies && (paging.cursor is Some
            || paging.max_pages is Some) {
            Some(Kind::Unsupported)
        } else if post_id_of(target@) is None {
            Some(Kind::InvalidInput)
        } else {
            cursor_error(paging.cursor)
        },
        Command::Search { query, access, paging } => if blank(query@) || byte_len(query@) > 4096 {
            Some(Kind::InvalidInput)
        } else {
            cursor_error(paging.cursor)
        },
        Command::User { command: UserCommand::Posts { handle, access, paging } } => if !is_handle(strip_at(handle@)) {
            Some(Kind::InvalidInput)
        } else {
            cursor_error(paging.cursor)
        },
        Command::Bookmarks { command: BookmarkCommand::List { access, paging } }
        | Command::Likes { command: LikesCommand::List { access, paging } }
        | Command::Lists { command: ListsCommand::List { access, paging } }
        | Command::Following { command: RelationshipCommand::List { access, paging } }
        | Command::Followers { command: RelationshipCommand::List { access, paging } } => if !account_given(access) {
            Some(Kind::InvalidInput)
        } else {
            cursor_error(paging.cursor)
        },
        Command::Lists { command: ListsCommand::Show { list_id, access } } => if !account_given(access) || !is_list_id(
            list_id@,
        ) {
            Some(Kind::InvalidInput)
        } else {
            None
        },
        Command::Lists { command: ListsCommand::Posts { list_id, access, paging } }
        | Command::Lists { command: ListsCommand::Members { command: ListMembersCommand::List { list_id, access, paging } } } => if !account_given(access)
            || !is_list_id(list_id@) {
            Some(Kind::InvalidInput)
        } else {
            cursor_error(paging.cursor)
        },
        _ => None,
    }
}

pub open spec fn same_paging(a: Paging, b: Paging) -> bool {
    a.max_pages == b.max_pages && a.page_size == b.page_size && a.cursor == b.cursor
}

/// The task a valid retrieval command becomes.
pub open spec fn task_is(t: Task, c: Command) -> bool {
    match c {
        Command::Read { target, access } => t matches Task::Read(i) && post_id_of(target@) == Some(i@),
        Command::Thread { target, access, max_parents, replies, paging } => t matches Task::Thread(i, m, r, p)
            && post_id_of(target@) == Some(i@) && m == max_parents && r == replies && p.max_pages == (match paging.max_pages {
            Some(x) => x,
            None => 1u32,
        }) && p.page_size == 20 && p.cursor == paging.cursor,
        Command::Search { query, access, paging } => t matches Task::Search(q, p) && q@ == query@ && same_paging(p, paging),
        Command::User { command: UserCommand::Posts { handle, access, paging } } => t matches Task::Timeline(h, p)
            && h@ == strip_at(handle@) && same_paging(p, paging),
        Command::Bookmarks { command: BookmarkCommand::List { access, paging } } => t matches Task::Bookmarks(p)
            && same_paging(p, paging),
        Command::Likes { command: LikesCommand::List { access, paging } } => t matches Task::Likes(p) && same_paging(p, paging),
        Command::Lists { command: ListsCommand::List { access, paging } } => t matches Task::ListInventory(p)
            && same_paging(p, paging),
        Command::Lists { command: ListsCommand::Show { list_id, access } } => t matches Task::ListMetadata(i) && i@
            == list_id@,
        Command::Lists { command: ListsCommand::Posts { list_id, access, paging } } => t matches Task::ListPosts(i, p)
            && i@ == list_id@ && same_paging(p, paging),
        Command::Lists { command: ListsCommand::Members { command: ListMembersCommand::List { list_id, access, paging } } } => t matches Task::ListMembers(
            i,
            p,
        ) && i@ == list_id@ && same_paging(p, paging),
        Command::Following { command: RelationshipCommand::List { access, paging } } => t matches Task::Relationships {
            followers,
            paging: p,
        } && !followers && same_paging(p, paging),
        Command::Followers { command: RelationshipCommand::List { access, paging } } => t matches Task::Relationships {
            followers,
            paging: p,
        } && followers && same_paging(p, paging),
        _ => false,
    }
}

/// The access options of a retrieval command.
pub open spec fn command_access(c: Command) -> Access {
    match c {
        Command::Read { access, .. } => access,
        Command::Thread { access, .. } => access,
        Command::Search { access, .. } => access,
        Command::User { command: UserCommand::Posts { access, .. } } => access,
        Command::Bookmarks { command: BookmarkCommand::List { access, .. } } => access,
        Command::Likes { command: LikesCommand::List { access, .. } } => access,
        Command::Lists { command: ListsCommand::List { access, .. } } => access,
        Command::Lists { command: ListsCommand::Show { access, .. } } => access,
        Command::Lists { command: ListsCommand::Posts { access, .. } } => access,
        Command::Lists { command: ListsCommand::Members { command: ListMembersCommand::List { access, .. } } } => access,
        Command::Following { command: RelationshipCommand::List { access, .. } } => access,
        Command::Followers { command: RelationshipCommand::List { access, .. } } => access,
        _ => arbitrary(),
    }
}

fn invalid(message: &'static str) -> (e: Error)
    ensures
        e.kind == Kind::InvalidInput,
        e.message@ == message@,
        e.retry_after_seconds is None,
{
    Error::new(Kind::InvalidInput, message)
}

fn is_blank(s: &str) -> (r: bool)
    ensures
        r == blank(s@),
{
    let v = chars_of(s);
    let mut i: usize = 0;
    while i < v.len()
        invariant
            v@ == s@,
            i <= v@.len(),
            forall|k: int| 0 <= k < i ==> #[trigger] is_whitespace(v@[k]),
        decreases v@.len() - i,
    {
        let c = v[i];
        let w = (c >= '\u{9}' && c <= '\u{d}') || c == ' ' || c == '\u{85}' || c == '\u{a0}' || c == '\u{1680}'
            || (c >= '\u{2000}' && c <= '\u{200a}') || c == '\u{2028}' || c == '\u{2029}' || c == '\u{202f}'
            || c == '\u{205f}' || c == '\u{3000}';
        if !w {
            assert(!is_whitespace(v@[i as int]));
            return false;
        }
        i = i + 1;
    }
    true
}

fn check_cursor(c: &Option<String>) -> (r: Result<(), Error>)
    ensures
        match r {
            Ok(()) => cursor_error(*c) is None,
            Err(e) => cursor_error(*c) == Some(e.kind),
        },
{
    match c {
        Some(x) => {
            if x.as_str().is_empty() || x.as_str().len() > 4096 {
                Err(invalid("Cursor must contain 1 to 4096 bytes"))
            } else {
                Ok(())
            }
        },
        None => Ok(()),
    }
}

fn require_account(access: &Access, message: &'static str) -> (r: Result<(), Error>)
    ensures
        match r {
            Ok(()) => account_given(*access),
            Err(e) => !account_given(*access) && e.kind == Kind::InvalidInput,
        },
{
    match &access.account {
        Some(a) => if a.as_str().is_empty() {
            Err(invalid(message))
        } else {
            Ok(())
        },
        None => Err(invalid(message)),
    }
}

fn list_id_for_account(list_id: &str, access: &Access) -> (r: Result<String, Error>)
    ensures
        match r {
            Ok(v) => account_given(*access) && is_list_id(list_id@) && v@ == list_id@,
            Err(e) => !(account_given(*access) && is_list_id(list_id@)) && e.kind == Kind::InvalidInput,
        },
{
    require_account(access, "List reads require an explicit --account selector")?;
    match id(list_id) {
        Ok(v) => {
            let c = chars_of(list_id);
            if c[0] == '0' {
                Err(invalid("Expected a positive decimal list ID (at most 20 digits)"))
            } else {
                Ok(v)
            }
        },
        Err(_) => Err(invalid("Expected a positive decimal list ID (at most 20 digits)")),
    }
}

impl Task {
    /// Validates a retrieval command before any credential, cache or network access.
    pub fn from_command(command: &Command) -> (r: Result<(&Access, Task), Error>)
        requires
            is_retrieval(*command),
        ensures
            match r {
                Ok((a, t)) => command_error(*command) is None && task_is(t, *command) && task_wf(t)
                    && *a == command_access(*command),
                Err(e) => command_error(*command) == Some(e.kind),
            },
    {
        match command {
            Command::Read { target, access } => {
                let i = post(target.as_str())?;
                Ok((access, Task::Read(i)))
            },
            Command::Thread { target, access, max_parents, replies, paging } => {
                if !*replies && (paging.cursor.is_some() || paging.max_pages.is_some()) {
                    return Err(Error::new(Kind::Unsupported, "Reply pagination flags require --replies"));
                }
                let i = post(target.as_str())?;
                check_cursor(&paging.cursor)?;
                let max_pages = match paging.max_pages {
                    Some(x) => x,
                    None => 1,
                };
                let p = Paging { max_pages, page_size: 20, cursor: crate::text::copy_opt(&paging.cursor) };
                Ok((access, Task::Thread(i, *max_parents, *replies, p)))
            },
            Command::Search { query, access, paging } => {
                if is_blank(query.as_str()) || query.as_str().len() > 4096 {
                    return Err(invalid("Search query must be nonempty and at most 4096 bytes"));
                }
                check_cursor(&paging.cursor)?;
                Ok((access, Task::Search(query.clone(), paging.duplicate())))
            },
            Command::User { command: UserCommand::Posts { handle: h, access, paging } } => {
                let h = handle(h.as_str())?;
                check_cursor(&paging.cursor)?;
                Ok((access, Task::Timeline(h, paging.duplicate())))
            },
            Command::Bookmarks { command: BookmarkCommand::List { access, paging } } => {
                require_account(access, "Private bookmark reads require an explicit --account selector")?;
                check_cursor(&paging.cursor)?;
                Ok((access, Task::Bookmarks(paging.duplicate())))
            },
            Command::Likes { command: LikesCommand::List { access, paging } } => {
                require_account(access, "Own liked-post reads require an explicit --account selector")?;
                check_cursor(&paging.cursor)?;
                Ok((access, Task::Likes(paging.duplicate())))
            },
            Command::Lists { command: ListsCommand::List { access, paging } } => {
                require_account(access, "List inventory reads require an explicit --account selector")?;
                check_cursor(&paging.cursor)?;
                Ok((access, Task::ListInventory(paging.duplicate())))
            },
            Command::Lists { command: ListsCommand::Show { list_id, access } } => {
                let i = list_id_for_account(list_id.as_str(), access)?;
                Ok((access, Task::ListMetadata(i)))
            },
            Command::Lists { command: ListsCommand::Posts { list_id, access, paging } } => {
                let i = list_id_for_account(list_id.as_str(), access)?;
                check_cursor(&paging.cursor)?;
                Ok((access, Task::ListPosts(i, paging.duplicate())))
            },
            Command::Lists { command: ListsCommand::Members { command: ListMembersCommand::List { list_id, access, paging } } } => {
                let i = list_id_for_account(list_id.as_str(), access)?;
                check_cursor(&paging.cursor)?;
                Ok((access, Task::ListMembers(i, paging.duplicate())))
            },
            Command::Following { command: RelationshipCommand::List { access, paging } } => {
                require_account(access, "Relationship reads require an explicit --account selector")?;
                check_cursor(&paging.cursor)?;
                Ok((access, Task::Relationships { followers: false, paging: paging.duplicate() }))
            },
            Command::Followers { command: RelationshipCommand::List { access, paging } } => {
                require_account(access, "Relationship reads require an explicit --account selector")?;
                check_cursor(&paging.cursor)?;
                Ok((access, Task::Relationships { followers: true, paging: paging.duplicate() }))
            },
            _ => {
                assert(false);
                Err(invalid("Not a retrieval command"))
            },
        }
    }
}

} // verus!

verus! {

/// One element of a cache key: a string, a number, a boolean, or null.
pub enum KeyPart {
    Text(String),
    Number(u64),
    Flag(bool),
    Null,
}

/// A key element as a plain value.
pub enum KeyValue {
    Text(Seq<char>),
    Number(u64),
    Flag(bool),
    Null,
}

pub open spec fn key_value(p: KeyPart) -> KeyValue {
    match p {
        KeyPart::Text(s) => KeyValue::Text(s@),
        KeyPart::Number(n) => KeyValue::Number(n),
        KeyPart::Flag(b) => KeyValue::Flag(b),
        KeyPart::Null => KeyValue::Null,
    }
}

/// The compact JSON text of an array of key elements, as `serde_json` writes it.
pub uninterp spec fn json_array_text(parts: Seq<KeyValue>) -> Seq<char>;

/// Serializes the array with `serde_json` (`Value::to_string`); the text is named, not stated.
#[verifier::external_body]
fn json_array(parts: Vec<KeyPart>) -> (s: String)
    ensures
        s@ == json_array_text(parts@.map_values(|p: KeyPart| key_value(p))),
{
    serde_json::Value::Array(
        parts
            .into_iter()
            .map(|p| match p {
                KeyPart::Text(s) => serde_json::Value::String(s),
                KeyPart::Number(n) => serde_json::Value::from(n),
                KeyPart::Flag(b) => serde_json::Value::Bool(b),
                KeyPart::Null => serde_json::Value::Null,
            })
            .collect(),
    )
    .to_string()
}

pub open spec fn text(s: Seq<char>) -> KeyValue {
    KeyValue::Text(s)
}

pub open spec fn cursor_value(c: Option<String>) -> KeyValue {
    match c {
        Some(s) => KeyValue::Text(s@),
        None => KeyValue::Null,
    }
}

/// Page bound, page size and starting cursor.
pub open spec fn paging_values(p: Paging) -> Seq<KeyValue> {
    seq![KeyValue::Number(p.max_pages as u64), KeyValue::Number(p.page_size as u64), cursor_value(p.cursor)]
}

pub open spec fn lowered(s: Seq<char>) -> Seq<char> {
    s.map_values(|c: char| lower(c))
}

/// The elements of a task's cache key: a version, the operation, its target and its bounds.
/// Account scope is not part of the key; it selects the cache scope instead.
pub open spec fn key_values(t: Task) -> Seq<KeyValue> {
    match t {
        Task::Read(i) => seq![text("v1"@), text("read"@), text(i@)],
        Task::ListMetadata(i) => seq![text("v1"@), text("list_metadata"@), text(i@)],
        Task::ListInventory(p) => seq![text("v1"@), text("list_inventory"@)] + paging_values(p),
        Task::Thread(i, m, r, p) => seq![text("v1"@), text("thread"@), text(i@), KeyValue::Number(m as u64), KeyValue::Flag(r)]
            + paging_values(p),
        Task::Relationships { followers, paging } => seq![text("v1"@), text("relationships"@), KeyValue::Flag(followers)]
            + paging_values(paging),
        Task::ListMembers(i, p) => seq![text("v1"@), text("list_members"@), text(i@)] + paging_values(p),
        Task::ListPosts(i, p) => seq![text("v1"@), text("list_posts"@), text(i@)] + paging_values(p),
        Task::Likes(p) => seq![text("v1"@), text("own_likes"@)] + paging_values(p),
        Task::Bookmarks(p) => seq![text("v1"@), text("bookmarks"@)] + paging_values(p),
        Task::Search(q, p) => seq![text("v1"@), text("search"@), text(q@)] + paging_values(p),
        Task::Timeline(h, p) => seq![text("v1"@), text("timeline"@), text(lowered(h@))] + paging_values(p),
    }
}

/// Tasks made by `from_command` hold valid handles.
pub open spec fn task_wf(t: Task) -> bool {
    t matches Task::Timeline(h, p) ==> is_handle(h@)
}

pub open spec fn task_paging(t: Task) -> Option<Paging> {
    match t {
        Task::Read(_) | Task::ListMetadata(_) => None,
        Task::Thread(_, _, _, p) | Task::Search(_, p) | Task::Timeline(_, p) | Task::Bookmarks(p) | Task::Likes(p)
        | Task::ListInventory(p) | Task::ListPosts(_, p) | Task::ListMembers(_, p) => Some(p),
        Task::Relationships { paging, .. } => Some(paging),
    }
}

pub open spec fn requires_graphql_spec(t: Task) -> bool {
    match t {
        Task::Read(_) => false,
        Task::Thread(_, _, replies, _) => replies,
        _ => true,
    }
}

/// Only a single post read and a parent-chain walk without replies can be served by the
/// public source: a thread that asks for replies, like every other operation, needs
/// authenticated GraphQL, so routing never sends it to FxTwitter and refuses an explicit
/// `--backend fxtwitter` for it.
pub proof fn lemma_public_tasks(t: Task, account: bool, connection: bool, backend: Backend)
    ensures
        !requires_graphql_spec(t) <==> (t is Read || (t matches Task::Thread(_, _, replies, _) && !replies)),
        t matches Task::Thread(_, _, replies, _) ==> requires_graphql_spec(t) == replies,
        requires_graphql_spec(t) ==> route_of(account, connection, backend, requires_graphql_spec(t)) != Some(
            Backend::Fxtwitter,
        ),
        (t matches Task::Thread(_, _, replies, _) && replies) && backend == Backend::Fxtwitter ==> route_of(
            account,
            connection,
            backend,
            requires_graphql_spec(t),
        ) is None,
{
}

/// A relationship task asks for followers exactly when the command was `followers`:
/// `following list` reads the accounts the selected account follows, `followers list`
/// the accounts that follow it.
pub proof fn lemma_relationship_direction(t: Task, c: Command)
    ensures
        task_is(t, c) && t is Relationships ==> (t->followers <==> c is Followers) && (c is Following
            || c is Followers),
{
}

pub open spec fn expects_users_spec(t: Task) -> bool {
    t is Relationships || t is ListMembers
}

pub open spec fn expects_lists_spec(t: Task) -> bool {
    t is ListMetadata || t is ListInventory
}

/// Whether a cached output has the shape a task gives: user collections hold `users`,
/// list reads hold `lists`, neither mixes in posts, and inventory entries hold sections.
pub open spec fn accepts_cached_spec(t: Task, o: Output) -> bool {
    &&& (o.users is Some) == expects_users_spec(t)
    &&& (o.lists is Some) == expects_lists_spec(t)
    &&& (!(expects_users_spec(t) || expects_lists_spec(t)) || o.posts@.len() == 0)
    &&& (t is ListInventory ==> (o.lists matches Some(ls) && forall|i: int|
        0 <= i < ls@.len() ==> #[trigger] ls@[i].management_sections@.len() > 0))
}

fn push_text(parts: &mut Vec<KeyPart>, s: &str)
    ensures
        final(parts)@.map_values(|p: KeyPart| key_value(p)) == old(parts)@.map_values(|p: KeyPart| key_value(p)).push(
            text(s@),
        ),
{
    let ghost before = parts@;
    parts.push(KeyPart::Text(s.to_owned()));
    assert(parts@.map_values(|p: KeyPart| key_value(p)) =~= before.map_values(|p: KeyPart| key_value(p)).push(text(s@)));
}

fn push_part(parts: &mut Vec<KeyPart>, p: KeyPart)
    ensures
        final(parts)@.map_values(|q: KeyPart| key_value(q)) == old(parts)@.map_values(|q: KeyPart| key_value(q)).push(
            key_value(p),
        ),
{
    let ghost before = parts@;
    let ghost v = key_value(p);
    parts.push(p);
    assert(parts@.map_values(|q: KeyPart| key_value(q)) =~= before.map_values(|q: KeyPart| key_value(q)).push(v));
}

fn push_paging(parts: &mut Vec<KeyPart>, p: &Paging)
    ensures
        final(parts)@.map_values(|q: KeyPart| key_value(q)) == old(parts)@.map_values(|q: KeyPart| key_value(q))
            + paging_values(*p),
{
    let ghost before = parts@.map_values(|q: KeyPart| key_value(q));
    push_part(parts, KeyPart::Number(p.max_pages as u64));
    push_part(parts, KeyPart::Number(p.page_size as u64));
    match &p.cursor {
        Some(c) => push_part(parts, KeyPart::Text(c.clone())),
        None => push_part(parts, KeyPart::Null),
    }
    assert(parts@.map_values(|q: KeyPart| key_value(q)) =~= before + paging_values(*p));
}

fn lowered_string(s: &String) -> (r: String)
    ensures
        r@ == lowered(s@),
{
    let v = chars_of(s.as_str());
    let mut out: Vec<char> = Vec::new();
    let mut i: usize = 0;
    while i < v.len()
        invariant
            i <= v@.len(),
            out@ == lowered(v@.take(i as int)),
        decreases v@.len() - i,
    {
        out.push(lower_char(v[i]));
        i = i + 1;
        assert(out@ == lowered(v@.take(i as int)));
    }
    assert(v@.take(v@.len() as int) == v@);
    string_of(&out)
}

impl Task {
    /// A continuation cursor must hold 1 to 4096 bytes.
    pub fn validate(&self) -> (r: Result<(), Error>)
        ensures
            match r {
                Ok(()) => (task_paging(*self) matches Some(p) ==> cursor_error(p.cursor) is None),
                Err(e) => (task_paging(*self) matches Some(p) && cursor_error(p.cursor) == Some(e.kind)),
            },
    {
        match self {
            Task::Read(_) | Task::ListMetadata(_) => Ok(()),
            Task::Thread(_, _, _, p) | Task::Search(_, p) | Task::Timeline(_, p) | Task::Bookmarks(p) | Task::Likes(p)
            | Task::ListInventory(p) | Task::ListPosts(_, p) | Task::ListMembers(_, p) => check_cursor(&p.cursor),
            Task::Relationships { paging, .. } => check_cursor(&paging.cursor),
        }
    }

    /// Everything except plain post and parent-chain reads needs authenticated GraphQL.
    pub fn requires_graphql(&self) -> (r: bool)
        ensures
            r == requires_graphql_spec(*self),
    {
        match self {
            Task::Read(_) => false,
            Task::Thread(_, _, replies, _) => *replies,
            _ => true,
        }
    }

    pub fn expects_users(&self) -> (r: bool)
        ensures
            r == expects_users_spec(*self),
    {
        matches!(self, Task::Relationships { .. } | Task::ListMembers(..))
    }

    pub fn expects_lists(&self) -> (r: bool)
        ensures
            r == expects_lists_spec(*self),
    {
        matches!(self, Task::ListMetadata(..) | Task::ListInventory(..))
    }

    pub fn accepts_cached(&self, output: &Output) -> (r: bool)
        ensures
            r == accepts_cached_spec(*self, *output),
    {
        let users = self.expects_users();
        let lists = self.expects_lists();
        if output.users.is_some() != users || output.lists.is_some() != lists {
            return false;
        }
        if (users || lists) && output.posts.len() != 0 {
            return false;
        }
        match self {
            Task::ListInventory(_) => match &output.lists {
                Some(ls) => {
                    let mut i: usize = 0;
                    while i < ls.len()
                        invariant
                            self is ListInventory,
                            output.lists == Some(*ls),
                            i <= ls@.len(),
                            forall|k: int| 0 <= k < i ==> #[trigger] ls@[k].management_sections@.len() > 0,
                        decreases ls@.len() - i,
                    {
                        if ls[i].management_sections.len() == 0 {
                            return false;
                        }
                        i = i + 1;
                    }
                    true
                },
                None => false,
            },
            _ => true,
        }
    }

    /// The cache key: the JSON array of `key_values`.
    pub fn key(&self) -> (k: String)
        requires
            task_wf(*self),
        ensures
            k@ == json_array_text(key_values(*self)),
    {
        let mut parts: Vec<KeyPart> = Vec::new();
        push_text(&mut parts, "v1");
        match self {
            Task::Read(i) => {
                push_text(&mut parts, "read");
                push_part(&mut parts, KeyPart::Text(i.clone()));
            },
            Task::ListMetadata(i) => {
                push_text(&mut parts, "list_metadata");
                push_part(&mut parts, KeyPart::Text(i.clone()));
            },
            Task::ListInventory(p) => {
                push_text(&mut parts, "list_inventory");
                push_paging(&mut parts, p);
            },
            Task::Thread(i, m, r, p) => {
                push_text(&mut parts, "thread");
                push_part(&mut parts, KeyPart::Text(i.clone()));
                push_part(&mut parts, KeyPart::Number(*m as u64));
                push_part(&mut parts, KeyPart::Flag(*r));
                push_paging(&mut parts, p);
            },
            Task::Relationships { followers, paging } => {
                push_text(&mut parts, "relationships");
                push_part(&mut parts, KeyPart::Flag(*followers));
                push_paging(&mut parts, paging);
            },
            Task::ListMembers(i, p) => {
                push_text(&mut parts, "list_members");
                push_part(&mut parts, KeyPart::Text(i.clone()));
                push_paging(&mut parts, p);
            },
            Task::ListPosts(i, p) => {
                push_text(&mut parts, "list_posts");
                push_part(&mut parts, KeyPart::Text(i.clone()));
                push_paging(&mut parts, p);
            },
            Task::Likes(p) => {
                push_text(&mut parts, "own_likes");
                push_paging(&mut parts, p);
            },
            Task::Bookmarks(p) => {
                push_text(&mut parts, "bookmarks");
                push_paging(&mut parts, p);
            },
            Task::Search(q, p) => {
                push_text(&mut parts, "search");
                push_part(&mut parts, KeyPart::Text(q.clone()));
                push_paging(&mut parts, p);
            },
            Task::Timeline(h, p) => {
                push_text(&mut parts, "timeline");
                push_part(&mut parts, KeyPart::Text(lowered_string(h)));
                push_paging(&mut parts, p);
            },
        }
        assert(parts@.map_values(|p: KeyPart| key_value(p)) =~= key_values(*self));
        json_array(parts)
    }
}


/// Two pagings that give the same key: bound, size and starting cursor.
pub open spec fn same_paging_key(p: Paging, q: Paging) -> bool {
    p.max_pages == q.max_pages && p.page_size == q.page_size && cursor_value(p.cursor) == cursor_value(q.cursor)
}

/// Two tasks that ask for the same thing: the same operation on the same target
/// (timeline handles ignoring case) with the same bounds and starting cursor.
pub open spec fn same_request(a: Task, b: Task) -> bool {
    match (a, b) {
        (Task::Read(x), Task::Read(y)) => x@ == y@,
        (Task::ListMetadata(x), Task::ListMetadata(y)) => x@ == y@,
        (Task::ListInventory(p), Task::ListInventory(q)) => same_paging_key(p, q),
        (Task::Thread(i, m, r, p), Task::Thread(j, n, s, q)) => i@ == j@ && m == n && r == s && same_paging_key(p, q),
        (Task::Relationships { followers: f, paging: p }, Task::Relationships { followers: g, paging: q }) => f == g
            && same_paging_key(p, q),
        (Task::ListMembers(i, p), Task::ListMembers(j, q)) => i@ == j@ && same_paging_key(p, q),
        (Task::ListPosts(i, p), Task::ListPosts(j, q)) => i@ == j@ && same_paging_key(p, q),
        (Task::Likes(p), Task::Likes(q)) => same_paging_key(p, q),
        (Task::Bookmarks(p), Task::Bookmarks(q)) => same_paging_key(p, q),
        (Task::Search(x, p), Task::Search(y, q)) => x@ == y@ && same_paging_key(p, q),
        (Task::Timeline(h, p), Task::Timeline(k, q)) => lowered(h@) == lowered(k@) && same_paging_key(p, q),
        _ => false,
    }
}

/// The operation a key names.
pub open spec fn op_name(t: Task) -> Seq<char> {
    match t {
        Task::Read(_) => "read"@,
        Task::ListMetadata(_) => "list_metadata"@,
        Task::ListInventory(_) => "list_inventory"@,
        Task::Thread(..) => "thread"@,
        Task::Relationships { .. } => "relationships"@,
        Task::ListMembers(..) => "list_members"@,
        Task::ListPosts(..) => "list_posts"@,
        Task::Likes(_) => "own_likes"@,
        Task::Bookmarks(_) => "bookmarks"@,
        Task::Search(..) => "search"@,
        Task::Timeline(..) => "timeline"@,
    }
}

pub open spec fn same_operation(a: Task, b: Task) -> bool {
    match (a, b) {
        (Task::Read(_), Task::Read(_)) => true,
        (Task::ListMetadata(_), Task::ListMetadata(_)) => true,
        (Task::ListInventory(_), Task::ListInventory(_)) => true,
        (Task::Thread(..), Task::Thread(..)) => true,
        (Task::Relationships { .. }, Task::Relationships { .. }) => true,
        (Task::ListMembers(..), Task::ListMembers(..)) => true,
        (Task::ListPosts(..), Task::ListPosts(..)) => true,
        (Task::Likes(_), Task::Likes(_)) => true,
        (Task::Bookmarks(_), Task::Bookmarks(_)) => true,
        (Task::Search(..), Task::Search(..)) => true,
        (Task::Timeline(..), Task::Timeline(..)) => true,
        _ => false,
    }
}

proof fn lemma_op_names_distinct(a: Task, b: Task)
    requires
        op_name(a) == op_name(b),
    ensures
        same_operation(a, b),
{
    reveal_strlit("read");
    reveal_strlit("list_metadata");
    reveal_strlit("list_inventory");
    reveal_strlit("thread");
    reveal_strlit("relationships");
    reveal_strlit("list_members");
    reveal_strlit("list_posts");
    reveal_strlit("own_likes");
    reveal_strlit("bookmarks");
    reveal_strlit("search");
    reveal_strlit("timeline");
    let x = op_name(a);
    let y = op_name(b);
    assert(x.len() == y.len());
    if x.len() > 5 {
        assert(x[0] == y[0]);
        assert(x[5] == y[5]);
    }
    if x.len() > 0 {
        assert(x[0] == y[0]);
    }
}

/// Cache keys separate operations, targets and pagination: two tasks share key
/// elements only when they ask for the same thing. (The key text is the JSON array of
/// these elements; account isolation comes from the cache scope, not the key.)
pub proof fn lemma_keys_separate_requests(a: Task, b: Task)
    requires
        key_values(a) == key_values(b),
    ensures
        same_request(a, b),
{
    let ka = key_values(a);
    let kb = key_values(b);
    assert(ka[1] == text(op_name(a)));
    assert(kb[1] == text(op_name(b)));
    lemma_op_names_distinct(a, b);
    assert(ka.len() == kb.len());
    let n = ka.len();
    assert(ka[n - 1] == kb[n - 1]);
    assert(ka[n - 2] == kb[n - 2]);
    assert(ka[n - 3] == kb[n - 3]);
    assert(ka[2] == kb[2]);
    if n > 4 {
        assert(ka[3] == kb[3]);
        assert(ka[4] == kb[4]);
    }
}
} // verus!
