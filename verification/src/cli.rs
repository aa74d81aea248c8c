//! The command-line grammar: subcommands, options, defaults, ranges and conflicts.
//! Arguments are read left to right (`scan`), then checked and assembled (`finish`).
use vstd::prelude::*;
use crate::error::{Error, Kind};
use crate::text::{chars_of, decimal_u64, parse_decimal, string_of_range};

verus! {

#[derive(Debug)]
pub struct Cli {
    pub command: Command,
    /// Local state directory (default ~/.xcli).
    pub data_dir: Option<String>,
    /// Human-readable output instead of JSON.
    pub human: bool,
}

#[derive(Debug)]
pub enum Command {
    /// Read a public post, or select an account for authenticated access.
    Read { target: String, access: Access },
    /// Walk parents and optionally fetch authenticated replies; never claims a full reply tree.
    Thread { target: String, access: Access, max_parents: u32, replies: bool, paging: ReplyPaging },
    /// Search X (requires an explicitly connected account).
    Search { query: String, access: Access, paging: Paging },
    User { command: UserCommand },
    /// Read private bookmarks (requires explicit --account; no bookmark mutations).
    Bookmarks { command: BookmarkCommand },
    /// Read the selected account's own liked posts (no like/unlike mutations).
    Likes { command: LikesCommand },
    /// Read viewer-visible list inventory or a known list (no mutations).
    Lists { command: ListsCommand },
    /// List accounts followed by the selected account (no follow/unfollow writes).
    Following { command: RelationshipCommand },
    /// List followers of the selected account (not an exhaustive social graph).
    Followers { command: RelationshipCommand },
    Auth { command: AuthCommand },
    Cache { command: CacheCommand },
    /// Local diagnostics only: does not inspect profiles, access Keychain, or contact X.
    Doctor,
    /// Explicitly check for or install a newer released xcli; never runs automatically.
    Update { check: bool, yes: bool },
}

#[derive(Debug)]
pub enum UserCommand {
    Posts { handle: String, access: Access, paging: Paging },
}

#[derive(Debug)]
pub enum BookmarkCommand {
    /// List the selected account's bookmarks; never claims an exhaustive collection.
    List { access: Access, paging: Paging },
}

#[derive(Debug)]
pub enum LikesCommand {
    /// List your own liked posts; requires explicit --account, never a target user.
    List { access: Access, paging: Paging },
}

#[derive(Debug)]
pub enum ListsCommand {
    /// Read the viewer-visible management inventory; explicit --account, not exhaustive.
    List { access: Access, paging: Paging },
    /// Read a single list's metadata; requires its decimal ID and explicit --account.
    Show { list_id: String, access: Access },
    /// Read list membership; no membership changes.
    Members { command: ListMembersCommand },
    /// Read the latest-post view of a list; requires its decimal ID and explicit --account.
    Posts { list_id: String, access: Access, paging: Paging },
}

#[derive(Debug)]
pub enum ListMembersCommand {
    /// Read the users in a known list; requires explicit --account.
    List { list_id: String, access: Access, paging: Paging },
}

#[derive(Debug)]
pub enum RelationshipCommand {
    /// Read the verified account's own relationship view; requires explicit --account.
    List { access: Access, paging: Paging },
}

#[derive(Debug)]
pub enum CacheCommand {
    /// Purge all public and authenticated cached content, preserving rate-limit cooldowns.
    Purge,
}

#[derive(Debug)]
pub enum AuthCommand {
    /// Enumerate Chrome profile directories; does not read cookies or Keychain.
    Discover,
    /// Connect a profile, verifying and pinning the live X identity.
    Add { browser: String, profile: String, alias: Option<String>, consent: bool },
    List,
    /// Remove a local connection registration (does not log out Chrome).
    Remove { connection: String },
    Default { account: String },
    /// Prefer a connection when several profiles authenticate the same X account.
    Prefer { connection: String },
    /// Rename a local connection alias; omit --alias to clear it.
    Rename { connection: String, alias: Option<String> },
}

#[derive(Debug, Clone, Copy, PartialEq, Eq, Structural)]
pub enum Backend {
    Auto,
    Fxtwitter,
    Graphql,
}

#[derive(Debug)]
pub struct Access {
    /// @handle or local alias (implies GraphQL unless backend is specified).
    pub account: Option<String>,
    /// Explicit local connection ID when an account has multiple profiles.
    pub connection: Option<String>,
    pub backend: Backend,
    /// Bypass cache reads and writes.
    pub no_cache: bool,
    /// Refresh from upstream and replace cached result.
    pub refresh: bool,
    /// Maximum cached response age in seconds.
    pub cache_ttl: u64,
}

#[derive(Debug)]
pub struct ReplyPaging {
    pub max_pages: Option<u32>,
    pub cursor: Option<String>,
}

#[derive(Debug)]
pub struct Paging {
    pub max_pages: u32,
    /// Requested page size; upstream may return fewer or more.
    pub page_size: u32,
    /// Opaque continuation cursor from a previous response.
    pub cursor: Option<String>,
}

/// Why the arguments were not accepted (or that help/version text was asked for).
#[derive(Debug, Clone, Copy, PartialEq, Eq, Structural)]
pub enum ParseError {
    DisplayHelp,
    DisplayVersion,
    UnknownArgument,
    InvalidSubcommand,
    MissingSubcommand,
    MissingValue,
    UnexpectedValue,
    InvalidValue,
    DuplicateArgument,
    UnexpectedArgument,
    MissingRequiredArgument,
    ArgumentConflict,
}

/// A position in the command tree.
#[derive(Debug, Clone, Copy, PartialEq, Eq, Structural)]
pub enum Node {
    Root,
    Read,
    Thread,
    Search,
    User,
    UserPosts,
    Bookmarks,
    BookmarksList,
    Likes,
    LikesList,
    Lists,
    ListsList,
    ListsShow,
    ListsMembers,
    ListsMembersList,
    ListsPosts,
    Following,
    FollowingList,
    Followers,
    FollowersList,
    Auth,
    AuthDiscover,
    AuthAdd,
    AuthList,
    AuthRemove,
    AuthDefault,
    AuthPrefer,
    AuthRename,
    Cache,
    CachePurge,
    Doctor,
    Update,
}

/// A named option.
#[derive(Debug, Clone, Copy, PartialEq, Eq, Structural)]
pub enum Opt {
    DataDir,
    Human,
    Account,
    Connection,
    Backend,
    NoCache,
    Refresh,
    CacheTtl,
    MaxParents,
    Replies,
    MaxPages,
    PageSize,
    Cursor,
    Browser,
    Profile,
    Alias,
    Consent,
    Check,
    Yes,
}

/// The subcommand named `name` below `node`.
pub open spec fn child_of(node: Node, name: Seq<char>) -> Option<Node> {
    match node {
        Node::Root => if name == "read"@ {
            Some(Node::Read)
        } else if name == "thread"@ {
            Some(Node::Thread)
        } else if name == "search"@ {
            Some(Node::Search)
        } else if name == "user"@ {
            Some(Node::User)
        } else if name == "bookmarks"@ {
            Some(Node::Bookmarks)
        } else if name == "likes"@ {
            Some(Node::Likes)
        } else if name == "lists"@ {
            Some(Node::Lists)
        } else if name == "following"@ {
            Some(Node::Following)
        } else if name == "followers"@ {
            Some(Node::Followers)
        } else if name == "auth"@ {
            Some(Node::Auth)
        } else if name == "cache"@ {
            Some(Node::Cache)
        } else if name == "doctor"@ {
            Some(Node::Doctor)
        } else if name == "update"@ {
            Some(Node::Update)
        } else {
            None
        },
        Node::User => if name == "posts"@ {
            Some(Node::UserPosts)
        } else {
            None
        },
        Node::Bookmarks => if name == "list"@ {
            Some(Node::BookmarksList)
        } else {
            None
        },
        Node::Likes => if name == "list"@ {
            Some(Node::LikesList)
        } else {
            None
        },
        Node::Lists => if name == "list"@ {
            Some(Node::ListsList)
        } else if name == "show"@ {
            Some(Node::ListsShow)
        } else if name == "members"@ {
            Some(Node::ListsMembers)
        } else if name == "posts"@ {
            Some(Node::ListsPosts)
        } else {
            None
        },
        Node::ListsMembers => if name == "list"@ {
            Some(Node::ListsMembersList)
        } else {
            None
        },
        Node::Following => if name == "list"@ {
            Some(Node::FollowingList)
        } else {
            None
        },
        Node::Followers => if name == "list"@ {
            Some(Node::FollowersList)
        } else {
            None
        },
        Node::Auth => if name == "discover"@ {
            Some(Node::AuthDiscover)
        } else if name == "add"@ {
            Some(Node::AuthAdd)
        } else if name == "list"@ {
            Some(Node::AuthList)
        } else if name == "remove"@ {
            Some(Node::AuthRemove)
        } else if name == "default"@ {
            Some(Node::AuthDefault)
        } else if name == "prefer"@ {
            Some(Node::AuthPrefer)
        } else if name == "rename"@ {
            Some(Node::AuthRename)
        } else {
            None
        },
        Node::Cache => if name == "purge"@ {
            Some(Node::CachePurge)
        } else {
            None
        },
        _ => None,
    }
}

/// The command a subcommand node belongs to (the root for top-level commands).
pub open spec fn node_parent(n: Node) -> Node {
    match n {
        Node::Read => Node::Root,
        Node::Thread => Node::Root,
        Node::Search => Node::Root,
        Node::User => Node::Root,
        Node::Bookmarks => Node::Root,
        Node::Likes => Node::Root,
        Node::Lists => Node::Root,
        Node::Following => Node::Root,
        Node::Followers => Node::Root,
        Node::Auth => Node::Root,
        Node::Cache => Node::Root,
        Node::Doctor => Node::Root,
        Node::Update => Node::Root,
        Node::UserPosts => Node::User,
        Node::BookmarksList => Node::Bookmarks,
        Node::LikesList => Node::Likes,
        Node::ListsList => Node::Lists,
        Node::ListsShow => Node::Lists,
        Node::ListsMembers => Node::Lists,
        Node::ListsPosts => Node::Lists,
        Node::ListsMembersList => Node::ListsMembers,
        Node::FollowingList => Node::Following,
        Node::FollowersList => Node::Followers,
        Node::AuthDiscover => Node::Auth,
        Node::AuthAdd => Node::Auth,
        Node::AuthList => Node::Auth,
        Node::AuthRemove => Node::Auth,
        Node::AuthDefault => Node::Auth,
        Node::AuthPrefer => Node::Auth,
        Node::AuthRename => Node::Auth,
        Node::CachePurge => Node::Cache,
        Node::Root => Node::Root,
    }
}

/// The word that names a subcommand node on the command line.
pub open spec fn node_word(n: Node) -> Seq<char> {
    match n {
        Node::Read => "read"@,
        Node::Thread => "thread"@,
        Node::Search => "search"@,
        Node::User => "user"@,
        Node::Bookmarks => "bookmarks"@,
        Node::Likes => "likes"@,
        Node::Lists => "lists"@,
        Node::Following => "following"@,
        Node::Followers => "followers"@,
        Node::Auth => "auth"@,
        Node::Cache => "cache"@,
        Node::Doctor => "doctor"@,
        Node::Update => "update"@,
        Node::UserPosts => "posts"@,
        Node::BookmarksList => "list"@,
        Node::LikesList => "list"@,
        Node::ListsList => "list"@,
        Node::ListsShow => "show"@,
        Node::ListsMembers => "members"@,
        Node::ListsPosts => "posts"@,
        Node::ListsMembersList => "list"@,
        Node::FollowingList => "list"@,
        Node::FollowersList => "list"@,
        Node::AuthDiscover => "discover"@,
        Node::AuthAdd => "add"@,
        Node::AuthList => "list"@,
        Node::AuthRemove => "remove"@,
        Node::AuthDefault => "default"@,
        Node::AuthPrefer => "prefer"@,
        Node::AuthRename => "rename"@,
        Node::CachePurge => "purge"@,
        Node::Root => Seq::empty(),
    }
}

/// Each subcommand word selects the command it names, under the command it belongs to,
/// and nothing else: `following` is the following list and `followers` the followers
/// list, `user posts` a user's posts and `lists posts` a list's posts.
pub proof fn lemma_subcommand_words(parent: Node, w: Seq<char>, n: Node)
    ensures
        child_of(parent, w) == Some(n) ==> n != Node::Root && node_parent(n) == parent && node_word(n) == w,
        n != Node::Root ==> child_of(node_parent(n), node_word(n)) == Some(n),
{
    reveal_strlit("add");
    reveal_strlit("auth");
    reveal_strlit("bookmarks");
    reveal_strlit("cache");
    reveal_strlit("default");
    reveal_strlit("discover");
    reveal_strlit("doctor");
    reveal_strlit("followers");
    reveal_strlit("following");
    reveal_strlit("likes");
    reveal_strlit("list");
    reveal_strlit("lists");
    reveal_strlit("members");
    reveal_strlit("posts");
    reveal_strlit("prefer");
    reveal_strlit("purge");
    reveal_strlit("read");
    reveal_strlit("remove");
    reveal_strlit("rename");
    reveal_strlit("search");
    reveal_strlit("show");
    reveal_strlit("thread");
    reveal_strlit("update");
    reveal_strlit("user");
    assert("read"@[0] == 'r');
    assert("thread"@[0] == 't');
    assert("search"@[0] == 's');
    assert("user"@[0] == 'u');
    assert("bookmarks"@[0] == 'b');
    assert("likes"@[0] == 'l');
    assert("lists"@[0] == 'l');
    assert("following"@[0] == 'f');
    assert("followers"@[0] == 'f');
    assert("auth"@[0] == 'a');
    assert("cache"@[0] == 'c');
    assert("doctor"@[0] == 'd');
    assert("update"@[0] == 'u');
    assert("posts"@[0] == 'p');
    assert("list"@[0] == 'l');
    assert("show"@[0] == 's');
    assert("members"@[0] == 'm');
    assert("discover"@[0] == 'd');
    assert("add"@[0] == 'a');
    assert("remove"@[0] == 'r');
    assert("default"@[0] == 'd');
    assert("prefer"@[0] == 'p');
    assert("rename"@[0] == 'r');
    assert("purge"@[0] == 'p');
    assert("following"@[6] == 'i' && "followers"@[6] == 'e');
    assert("likes"@[2] == 'k' && "lists"@[2] == 's');
    assert("user"@.len() == 4 && "update"@.len() == 6);
    assert("default"@.len() == 7 && "discover"@.len() == 8);
    assert("rename"@[2] == 'n' && "remove"@[2] == 'm');
    match n {
        Node::Read => {
            assert(child_of(node_parent(n), node_word(n)) == Some(n));
        },
        Node::Thread => {
            assert(child_of(node_parent(n), node_word(n)) == Some(n));
        },
        Node::Search => {
            assert(child_of(node_parent(n), node_word(n)) == Some(n));
        },
        Node::User => {
            assert(child_of(node_parent(n), node_word(n)) == Some(n));
        },
        Node::Bookmarks => {
            assert(child_of(node_parent(n), node_word(n)) == Some(n));
        },
        Node::Likes => {
            assert(child_of(node_parent(n), node_word(n)) == Some(n));
        },
        Node::Lists => {
            assert(child_of(node_parent(n), node_word(n)) == Some(n));
        },
        Node::Following => {
            assert(child_of(node_parent(n), node_word(n)) == Some(n));
        },
        Node::Followers => {
            assert(child_of(node_parent(n), node_word(n)) == Some(n));
        },
        Node::Auth => {
            assert(child_of(node_parent(n), node_word(n)) == Some(n));
        },
        Node::Cache => {
            assert(child_of(node_parent(n), node_word(n)) == Some(n));
        },
        Node::Doctor => {
            assert(child_of(node_parent(n), node_word(n)) == Some(n));
        },
        Node::Update => {
            assert(child_of(node_parent(n), node_word(n)) == Some(n));
        },
        Node::UserPosts => {
            assert(child_of(node_parent(n), node_word(n)) == Some(n));
        },
        Node::BookmarksList => {
            assert(child_of(node_parent(n), node_word(n)) == Some(n));
        },
        Node::LikesList => {
            assert(child_of(node_parent(n), node_word(n)) == Some(n));
        },
        Node::ListsList => {
            assert(child_of(node_parent(n), node_word(n)) == Some(n));
        },
        Node::ListsShow => {
            assert(child_of(node_parent(n), node_word(n)) == Some(n));
        },
        Node::ListsMembers => {
            assert(child_of(node_parent(n), node_word(n)) == Some(n));
        },
        Node::ListsPosts => {
            assert(child_of(node_parent(n), node_word(n)) == Some(n));
        },
        Node::ListsMembersList => {
            assert(child_of(node_parent(n), node_word(n)) == Some(n));
        },
        Node::FollowingList => {
            assert(child_of(node_parent(n), node_word(n)) == Some(n));
        },
        Node::FollowersList => {
            assert(child_of(node_parent(n), node_word(n)) == Some(n));
        },
        Node::AuthDiscover => {
            assert(child_of(node_parent(n), node_word(n)) == Some(n));
        },
        Node::AuthAdd => {
            assert(child_of(node_parent(n), node_word(n)) == Some(n));
        },
        Node::AuthList => {
            assert(child_of(node_parent(n), node_word(n)) == Some(n));
        },
        Node::AuthRemove => {
            assert(child_of(node_parent(n), node_word(n)) == Some(n));
        },
        Node::AuthDefault => {
            assert(child_of(node_parent(n), node_word(n)) == Some(n));
        },
        Node::AuthPrefer => {
            assert(child_of(node_parent(n), node_word(n)) == Some(n));
        },
        Node::AuthRename => {
            assert(child_of(node_parent(n), node_word(n)) == Some(n));
        },
        Node::CachePurge => {
            assert(child_of(node_parent(n), node_word(n)) == Some(n));
        },
        Node::Root => {},
    }
}

/// Nodes that require a further subcommand.
pub open spec fn has_children(node: Node) -> bool {
    matches!(node, Node::Root | Node::User | Node::Bookmarks | Node::Likes | Node::Lists
        | Node::ListsMembers | Node::Following | Node::Followers | Node::Auth | Node::Cache)
}

/// The number of positional values a command takes.
pub open spec fn arity(node: Node) -> nat {
    match node {
        Node::Read | Node::Thread | Node::Search | Node::UserPosts | Node::ListsShow
        | Node::ListsMembersList | Node::ListsPosts | Node::AuthRemove | Node::AuthDefault
        | Node::AuthPrefer | Node::AuthRename => 1,
        _ => 0,
    }
}

/// The option spelled `--name`.
pub open spec fn opt_named(name: Seq<char>) -> Option<Opt> {
    if name == "data-dir"@ {
        Some(Opt::DataDir)
    } else if name == "human"@ {
        Some(Opt::Human)
    } else if name == "account"@ {
        Some(Opt::Account)
    } else if name == "connection"@ {
        Some(Opt::Connection)
    } else if name == "backend"@ {
        Some(Opt::Backend)
    } else if name == "no-cache"@ {
        Some(Opt::NoCache)
    } else if name == "refresh"@ {
        Some(Opt::Refresh)
    } else if name == "cache-ttl"@ {
        Some(Opt::CacheTtl)
    } else if name == "max-parents"@ {
        Some(Opt::MaxParents)
    } else if name == "replies"@ {
        Some(Opt::Replies)
    } else if name == "max-pages"@ {
        Some(Opt::MaxPages)
    } else if name == "page-size"@ {
        Some(Opt::PageSize)
    } else if name == "cursor"@ {
        Some(Opt::Cursor)
    } else if name == "browser"@ {
        Some(Opt::Browser)
    } else if name == "profile"@ {
        Some(Opt::Profile)
    } else if name == "alias"@ {
        Some(Opt::Alias)
    } else if name == "consent"@ {
        Some(Opt::Consent)
    } else if name == "check"@ {
        Some(Opt::Check)
    } else if name == "yes"@ {
        Some(Opt::Yes)
    } else {
        None
    }
}

/// Options that take a value (the others are flags).
pub open spec fn takes_value(o: Opt) -> bool {
    matches!(o, Opt::DataDir | Opt::Account | Opt::Connection | Opt::Backend | Opt::CacheTtl
        | Opt::MaxParents | Opt::MaxPages | Opt::PageSize | Opt::Cursor | Opt::Browser
        | Opt::Profile | Opt::Alias)
}

pub open spec fn has_access(node: Node) -> bool {
    matches!(node, Node::Read | Node::Thread | Node::Search | Node::UserPosts | Node::BookmarksList
        | Node::LikesList | Node::ListsList | Node::ListsShow | Node::ListsMembersList
        | Node::ListsPosts | Node::FollowingList | Node::FollowersList)
}

pub open spec fn has_paging(node: Node) -> bool {
    matches!(node, Node::Search | Node::UserPosts | Node::BookmarksList | Node::LikesList
        | Node::ListsList | Node::ListsMembersList | Node::ListsPosts | Node::FollowingList
        | Node::FollowersList)
}

/// Which options each command accepts; `--data-dir` and `--human` are accepted everywhere.
pub open spec fn allowed(node: Node, o: Opt) -> bool {
    match o {
        Opt::DataDir | Opt::Human => true,
        Opt::Account | Opt::Connection | Opt::Backend | Opt::NoCache | Opt::Refresh
        | Opt::CacheTtl => has_access(node),
        Opt::MaxParents | Opt::Replies => node == Node::Thread,
        Opt::MaxPages | Opt::Cursor => has_paging(node) || node == Node::Thread,
        Opt::PageSize => has_paging(node),
        Opt::Browser | Opt::Profile | Opt::Consent => node == Node::AuthAdd,
        Opt::Alias => node == Node::AuthAdd || node == Node::AuthRename,
        Opt::Check | Opt::Yes => node == Node::Update,
    }
}

} // verus!

verus! {

/// The state of a left-to-right reading of the arguments: the current command, an option
/// awaiting its value, whether `--` ended option parsing, the options seen so far (with
/// their values; flags have an empty value) and the positional values.
pub type ScanV = (Node, Option<Opt>, bool, Seq<(Opt, Seq<char>)>, Seq<Seq<char>>);

pub struct Scan {
    pub node: Node,
    pub pending: Option<Opt>,
    pub rest: bool,
    pub opts: Vec<(Opt, String)>,
    pub positionals: Vec<String>,
}

impl View for Scan {
    type V = ScanV;

    open spec fn view(&self) -> ScanV {
        (
            self.node,
            self.pending,
            self.rest,
            self.opts@.map_values(|p: (Opt, String)| (p.0, p.1@)),
            self.positionals@.map_values(|s: String| s@),
        )
    }
}

pub open spec fn initial_scan() -> ScanV {
    (Node::Root, None, false, Seq::empty(), Seq::empty())
}

/// The position of the first `=` (the length when there is none).
pub open spec fn index_of_eq(s: Seq<char>) -> nat
    decreases s.len(),
{
    if s.len() == 0 {
        0
    } else if s[0] == '=' {
        0
    } else {
        1 + index_of_eq(s.drop_first())
    }
}

pub open spec fn has_opt(opts: Seq<(Opt, Seq<char>)>, o: Opt) -> bool {
    exists|i: int| 0 <= i < opts.len() && #[trigger] opts[i].0 == o
}

/// Records an option's value; each option may be given once.
pub open spec fn record(s: ScanV, o: Opt, v: Seq<char>) -> Result<ScanV, ParseError> {
    if has_opt(s.3, o) {
        Err(ParseError::DuplicateArgument)
    } else {
        Ok((s.0, None, s.2, s.3.push((o, v)), s.4))
    }
}

/// A word that is not an option: a subcommand name where one is expected, else a value.
pub open spec fn positional(s: ScanV, t: Seq<char>) -> Result<ScanV, ParseError> {
    if has_children(s.0) {
        if !s.2 && child_of(s.0, t) is Some {
            Ok((child_of(s.0, t)->0, s.1, s.2, s.3, s.4))
        } else {
            Err(ParseError::InvalidSubcommand)
        }
    } else if s.4.len() < arity(s.0) {
        Ok((s.0, s.1, s.2, s.3, s.4.push(t)))
    } else {
        Err(ParseError::UnexpectedArgument)
    }
}

/// `--name` or `--name=value` (`body` is the text after the two dashes).
pub open spec fn long_option(s: ScanV, body: Seq<char>) -> Result<ScanV, ParseError> {
    let k = index_of_eq(body);
    let name = body.take(k as int);
    if name == "help"@ {
        Err(ParseError::DisplayHelp)
    } else if name == "version"@ {
        if s.0 == Node::Root {
            Err(ParseError::DisplayVersion)
        } else {
            Err(ParseError::UnknownArgument)
        }
    } else {
        match opt_named(name) {
            None => Err(ParseError::UnknownArgument),
            Some(o) => if !allowed(s.0, o) {
                Err(ParseError::UnknownArgument)
            } else if takes_value(o) {
                if k < body.len() {
                    record(s, o, body.skip(k + 1 as int))
                } else {
                    Ok((s.0, Some(o), s.2, s.3, s.4))
                }
            } else if k < body.len() {
                Err(ParseError::UnexpectedValue)
            } else {
                record(s, o, Seq::empty())
            },
        }
    }
}

/// `-h`, `-V` (top level only) and `-y` (update only).
pub open spec fn short_option(s: ScanV, t: Seq<char>) -> Result<ScanV, ParseError> {
    if t == "-h"@ {
        Err(ParseError::DisplayHelp)
    } else if t == "-V"@ {
        if s.0 == Node::Root {
            Err(ParseError::DisplayVersion)
        } else {
            Err(ParseError::UnknownArgument)
        }
    } else if t == "-y"@ && allowed(s.0, Opt::Yes) {
        record(s, Opt::Yes, Seq::empty())
    } else {
        Err(ParseError::UnknownArgument)
    }
}

/// Reads one argument.
pub open spec fn scan_step(s: ScanV, t: Seq<char>) -> Result<ScanV, ParseError> {
    match s.1 {
        Some(o) => if t.len() >= 2 && t[0] == '-' {
            Err(ParseError::MissingValue)
        } else {
            record(s, o, t)
        },
        None => if s.2 {
            positional(s, t)
        } else if t.len() == 2 && t[0] == '-' && t[1] == '-' {
            Ok((s.0, s.1, true, s.3, s.4))
        } else if t.len() >= 2 && t[0] == '-' && t[1] == '-' {
            long_option(s, t.skip(2))
        } else if t.len() >= 2 && t[0] == '-' {
            short_option(s, t)
        } else {
            positional(s, t)
        },
    }
}

/// Reads the first `n` arguments.
pub open spec fn scan_all(tokens: Seq<Seq<char>>, n: nat) -> Result<ScanV, ParseError>
    decreases n,
{
    if n == 0 {
        Ok(initial_scan())
    } else {
        match scan_all(tokens, (n - 1) as nat) {
            Ok(s) => scan_step(s, tokens[n - 1]),
            Err(e) => Err(e),
        }
    }
}

/// The arguments after the program name.
pub open spec fn tokens_of(args: Seq<&str>) -> Seq<Seq<char>> {
    if args.len() == 0 {
        Seq::empty()
    } else {
        args.skip(1).map_values(|a: &str| a@)
    }
}

pub proof fn lemma_index_of_eq(s: Seq<char>, i: int)
    requires
        0 <= i <= s.len(),
        forall|k: int| 0 <= k < i ==> s[k] != '=',
        i == s.len() || s[i] == '=',
    ensures
        index_of_eq(s) == i,
    decreases i,
{
    if i > 0 {
        lemma_index_of_eq(s.drop_first(), i - 1);
    }
}

/// Whether `t[lo..hi]` spells `w`.
pub fn word_at(t: &[char], lo: usize, hi: usize, w: &str) -> (r: bool)
    requires
        lo <= hi <= t@.len(),
    ensures
        r == (t@.subrange(lo as int, hi as int) == w@),
{
    let wc = chars_of(w);
    if hi - lo != wc.len() {
        return false;
    }
    let mut i: usize = 0;
    while i < wc.len()
        invariant
            wc@ == w@,
            lo <= hi <= t@.len(),
            hi - lo == wc@.len(),
            i <= wc@.len(),
            forall|k: int| 0 <= k < i ==> t@[lo + k] == wc@[k],
        decreases wc@.len() - i,
    {
        if t[lo + i] != wc[i] {
            assert(t@.subrange(lo as int, hi as int)[i as int] != wc@[i as int]);
            return false;
        }
        i = i + 1;
    }
    assert(t@.subrange(lo as int, hi as int) =~= wc@);
    true
}

pub fn word(t: &[char], w: &str) -> (r: bool)
    ensures
        r == (t@ == w@),
{
    let r = word_at(t, 0, t.len(), w);
    assert(t@.subrange(0, t@.len() as int) == t@);
    r
}

pub fn child(node: Node, t: &[char]) -> (r: Option<Node>)
    ensures
        r == child_of(node, t@),
{
    match node {
        Node::Root => if word(t, "read") {
            Some(Node::Read)
        } else if word(t, "thread") {
            Some(Node::Thread)
        } else if word(t, "search") {
            Some(Node::Search)
        } else if word(t, "user") {
            Some(Node::User)
        } else if word(t, "bookmarks") {
            Some(Node::Bookmarks)
        } else if word(t, "likes") {
            Some(Node::Likes)
        } else if word(t, "lists") {
            Some(Node::Lists)
        } else if word(t, "following") {
            Some(Node::Following)
        } else if word(t, "followers") {
            Some(Node::Followers)
        } else if word(t, "auth") {
            Some(Node::Auth)
        } else if word(t, "cache") {
            Some(Node::Cache)
        } else if word(t, "doctor") {
            Some(Node::Doctor)
        } else if word(t, "update") {
            Some(Node::Update)
        } else {
            None
        },
        Node::User => if word(t, "posts") {
            Some(Node::UserPosts)
        } else {
            None
        },
        Node::Bookmarks => if word(t, "list") {
            Some(Node::BookmarksList)
        } else {
            None
        },
        Node::Likes => if word(t, "list") {
            Some(Node::LikesList)
        } else {
            None
        },
        Node::Lists => if word(t, "list") {
            Some(Node::ListsList)
        } else if word(t, "show") {
            Some(Node::ListsShow)
        } else if word(t, "members") {
            Some(Node::ListsMembers)
        } else if word(t, "posts") {
            Some(Node::ListsPosts)
        } else {
            None
        },
        Node::ListsMembers => if word(t, "list") {
            Some(Node::ListsMembersList)
        } else {
            None
        },
        Node::Following => if word(t, "list") {
            Some(Node::FollowingList)
        } else {
            None
        },
        Node::Followers => if word(t, "list") {
            Some(Node::FollowersList)
        } else {
            None
        },
        Node::Auth => if word(t, "discover") {
            Some(Node::AuthDiscover)
        } else if word(t, "add") {
            Some(Node::AuthAdd)
        } else if word(t, "list") {
            Some(Node::AuthList)
        } else if word(t, "remove") {
            Some(Node::AuthRemove)
        } else if word(t, "default") {
            Some(Node::AuthDefault)
        } else if word(t, "prefer") {
            Some(Node::AuthPrefer)
        } else if word(t, "rename") {
            Some(Node::AuthRename)
        } else {
            None
        },
        Node::Cache => if word(t, "purge") {
            Some(Node::CachePurge)
        } else {
            None
        },
        _ => None,
    }
}

pub fn opt_at(t: &[char], lo: usize, hi: usize) -> (r: Option<Opt>)
    requires
        lo <= hi <= t@.len(),
    ensures
        r == opt_named(t@.subrange(lo as int, hi as int)),
{
    if word_at(t, lo, hi, "data-dir") {
        Some(Opt::DataDir)
    } else if word_at(t, lo, hi, "human") {
        Some(Opt::Human)
    } else if word_at(t, lo, hi, "account") {
        Some(Opt::Account)
    } else if word_at(t, lo, hi, "connection") {
        Some(Opt::Connection)
    } else if word_at(t, lo, hi, "backend") {
        Some(Opt::Backend)
    } else if word_at(t, lo, hi, "no-cache") {
        Some(Opt::NoCache)
    } else if word_at(t, lo, hi, "refresh") {
        Some(Opt::Refresh)
    } else if word_at(t, lo, hi, "cache-ttl") {
        Some(Opt::CacheTtl)
    } else if word_at(t, lo, hi, "max-parents") {
        Some(Opt::MaxParents)
    } else if word_at(t, lo, hi, "replies") {
        Some(Opt::Replies)
    } else if word_at(t, lo, hi, "max-pages") {
        Some(Opt::MaxPages)
    } else if word_at(t, lo, hi, "page-size") {
        Some(Opt::PageSize)
    } else if word_at(t, lo, hi, "cursor") {
        Some(Opt::Cursor)
    } else if word_at(t, lo, hi, "browser") {
        Some(Opt::Browser)
    } else if word_at(t, lo, hi, "profile") {
        Some(Opt::Profile)
    } else if word_at(t, lo, hi, "alias") {
        Some(Opt::Alias)
    } else if word_at(t, lo, hi, "consent") {
        Some(Opt::Consent)
    } else if word_at(t, lo, hi, "check") {
        Some(Opt::Check)
    } else if word_at(t, lo, hi, "yes") {
        Some(Opt::Yes)
    } else {
        None
    }
}

pub fn has_children_exec(node: Node) -> (r: bool)
    ensures
        r == has_children(node),
{
    matches!(node, Node::Root | Node::User | Node::Bookmarks | Node::Likes | Node::Lists
        | Node::ListsMembers | Node::Following | Node::Followers | Node::Auth | Node::Cache)
}

pub fn arity_exec(node: Node) -> (r: usize)
    ensures
        r == arity(node),
{
    match node {
        Node::Read | Node::Thread | Node::Search | Node::UserPosts | Node::ListsShow
        | Node::ListsMembersList | Node::ListsPosts | Node::AuthRemove | Node::AuthDefault
        | Node::AuthPrefer | Node::AuthRename => 1,
        _ => 0,
    }
}

pub fn takes_value_exec(o: Opt) -> (r: bool)
    ensures
        r == takes_value(o),
{
    matches!(o, Opt::DataDir | Opt::Account | Opt::Connection | Opt::Backend | Opt::CacheTtl
        | Opt::MaxParents | Opt::MaxPages | Opt::PageSize | Opt::Cursor | Opt::Browser
        | Opt::Profile | Opt::Alias)
}

pub fn allowed_exec(node: Node, o: Opt) -> (r: bool)
    ensures
        r == allowed(node, o),
{
    let access = matches!(node, Node::Read | Node::Thread | Node::Search | Node::UserPosts
        | Node::BookmarksList | Node::LikesList | Node::ListsList | Node::ListsShow
        | Node::ListsMembersList | Node::ListsPosts | Node::FollowingList | Node::FollowersList);
    let paging = matches!(node, Node::Search | Node::UserPosts | Node::BookmarksList
        | Node::LikesList | Node::ListsList | Node::ListsMembersList | Node::ListsPosts
        | Node::FollowingList | Node::FollowersList);
    match o {
        Opt::DataDir | Opt::Human => true,
        Opt::Account | Opt::Connection | Opt::Backend | Opt::NoCache | Opt::Refresh
        | Opt::CacheTtl => access,
        Opt::MaxParents | Opt::Replies => node == Node::Thread,
        Opt::MaxPages | Opt::Cursor => paging || node == Node::Thread,
        Opt::PageSize => paging,
        Opt::Browser | Opt::Profile | Opt::Consent => node == Node::AuthAdd,
        Opt::Alias => node == Node::AuthAdd || node == Node::AuthRename,
        Opt::Check | Opt::Yes => node == Node::Update,
    }
}

} // verus!

verus! {

pub open spec fn opts_view(opts: Seq<(Opt, String)>) -> Seq<(Opt, Seq<char>)> {
    opts.map_values(|p: (Opt, String)| (p.0, p.1@))
}

fn has_opt_exec(opts: &Vec<(Opt, String)>, o: Opt) -> (r: bool)
    ensures
        r == has_opt(opts_view(opts@), o),
{
    let ghost v = opts_view(opts@);
    let mut i: usize = 0;
    while i < opts.len()
        invariant
            v == opts_view(opts@),
            i <= opts@.len(),
            forall|k: int| 0 <= k < i ==> #[trigger] v[k].0 != o,
        decreases opts@.len() - i,
    {
        if opts[i].0 == o {
            assert(v[i as int].0 == o);
            return true;
        }
        i = i + 1;
    }
    false
}

impl Scan {
    pub fn new() -> (s: Scan)
        ensures
            s@ == initial_scan(),
    {
        let s = Scan { node: Node::Root, pending: None, rest: false, opts: Vec::new(), positionals: Vec::new() };
        assert(s@.3 =~= Seq::<(Opt, Seq<char>)>::empty());
        assert(s@.4 =~= Seq::<Seq<char>>::empty());
        s
    }

    fn record(&mut self, o: Opt, v: String) -> (r: Result<(), ParseError>)
        ensures
            match r {
                Ok(()) => record(old(self)@, o, v@) == Ok::<ScanV, ParseError>(final(self)@),
                Err(e) => record(old(self)@, o, v@) == Err::<ScanV, ParseError>(e),
            },
    {
        if has_opt_exec(&self.opts, o) {
            return Err(ParseError::DuplicateArgument);
        }
        let ghost before = self.opts@;
        let ghost vv = v@;
        self.opts.push((o, v));
        self.pending = None;
        assert(opts_view(self.opts@) =~= opts_view(before).push((o, vv)));
        Ok(())
    }

    fn positional(&mut self, t: &[char]) -> (r: Result<(), ParseError>)
        ensures
            match r {
                Ok(()) => positional(old(self)@, t@) == Ok::<ScanV, ParseError>(final(self)@),
                Err(e) => positional(old(self)@, t@) == Err::<ScanV, ParseError>(e),
            },
    {
        if has_children_exec(self.node) {
            if self.rest {
                return Err(ParseError::InvalidSubcommand);
            }
            match child(self.node, t) {
                Some(c) => {
                    self.node = c;
                    Ok(())
                },
                None => Err(ParseError::InvalidSubcommand),
            }
        } else if self.positionals.len() < arity_exec(self.node) {
            let v = string_of_range(t, 0, t.len());
            assert(t@.subrange(0, t@.len() as int) == t@);
            let ghost before = self.positionals@;
            self.positionals.push(v);
            assert(self.positionals@.map_values(|s: String| s@) =~= before.map_values(|s: String| s@).push(t@));
            Ok(())
        } else {
            Err(ParseError::UnexpectedArgument)
        }
    }

    fn long_option(&mut self, t: &[char]) -> (r: Result<(), ParseError>)
        requires
            t@.len() >= 2,
        ensures
            match r {
                Ok(()) => long_option(old(self)@, t@.skip(2)) == Ok::<ScanV, ParseError>(final(self)@),
                Err(e) => long_option(old(self)@, t@.skip(2)) == Err::<ScanV, ParseError>(e),
            },
    {
        let ghost body = t@.skip(2);
        let mut k: usize = 2;
        while k < t.len() && t[k] != '='
            invariant
                2 <= k <= t@.len(),
                body == t@.skip(2),
                forall|j: int| 2 <= j < k ==> t@[j] != '=',
            decreases t@.len() - k,
        {
            k = k + 1;
        }
        let has_value = k < t.len();
        proof {
            lemma_index_of_eq(body, k - 2);
        }
        assert(body.take(k - 2) == t@.subrange(2, k as int));
        if word_at(t, 2, k, "help") {
            return Err(ParseError::DisplayHelp);
        }
        if word_at(t, 2, k, "version") {
            if self.node == Node::Root {
                return Err(ParseError::DisplayVersion);
            }
            return Err(ParseError::UnknownArgument);
        }
        let o = match opt_at(t, 2, k) {
            Some(o) => o,
            None => return Err(ParseError::UnknownArgument),
        };
        if !allowed_exec(self.node, o) {
            return Err(ParseError::UnknownArgument);
        }
        if takes_value_exec(o) {
            if has_value {
                let v = string_of_range(t, k + 1, t.len());
                assert(body.skip(k - 2 + 1) == t@.subrange(k + 1, t@.len() as int));
                self.record(o, v)
            } else {
                self.pending = Some(o);
                Ok(())
            }
        } else if has_value {
            Err(ParseError::UnexpectedValue)
        } else {
            let v = String::new();
            self.record(o, v)
        }
    }

    fn short_option(&mut self, t: &[char]) -> (r: Result<(), ParseError>)
        ensures
            match r {
                Ok(()) => short_option(old(self)@, t@) == Ok::<ScanV, ParseError>(final(self)@),
                Err(e) => short_option(old(self)@, t@) == Err::<ScanV, ParseError>(e),
            },
    {
        if word(t, "-h") {
            Err(ParseError::DisplayHelp)
        } else if word(t, "-V") {
            if self.node == Node::Root {
                Err(ParseError::DisplayVersion)
            } else {
                Err(ParseError::UnknownArgument)
            }
        } else if word(t, "-y") && allowed_exec(self.node, Opt::Yes) {
            self.record(Opt::Yes, String::new())
        } else {
            Err(ParseError::UnknownArgument)
        }
    }

    /// Reads one argument.
    pub fn step(&mut self, t: &[char]) -> (r: Result<(), ParseError>)
        ensures
            match r {
                Ok(()) => scan_step(old(self)@, t@) == Ok::<ScanV, ParseError>(final(self)@),
                Err(e) => scan_step(old(self)@, t@) == Err::<ScanV, ParseError>(e),
            },
    {
        match self.pending {
            Some(o) => {
                if t.len() >= 2 && t[0] == '-' {
                    return Err(ParseError::MissingValue);
                }
                let v = string_of_range(t, 0, t.len());
                assert(t@.subrange(0, t@.len() as int) == t@);
                self.record(o, v)
            },
            None => {
                if self.rest {
                    self.positional(t)
                } else if t.len() == 2 && t[0] == '-' && t[1] == '-' {
                    self.rest = true;
                    Ok(())
                } else if t.len() >= 2 && t[0] == '-' && t[1] == '-' {
                    self.long_option(t)
                } else if t.len() >= 2 && t[0] == '-' {
                    self.short_option(t)
                } else {
                    self.positional(t)
                }
            },
        }
    }
}

/// Once reading fails, the error is the result of reading all the arguments.
pub proof fn lemma_scan_error_sticks(tokens: Seq<Seq<char>>, m: nat, n: nat)
    requires
        m <= n,
        scan_all(tokens, m) is Err,
    ensures
        scan_all(tokens, n) == scan_all(tokens, m),
    decreases n - m,
{
    if m < n {
        lemma_scan_error_sticks(tokens, m, (n - 1) as nat);
    }
}

/// Reads all arguments after the program name.
pub fn scan(args: &[&str]) -> (r: Result<Scan, ParseError>)
    ensures
        match r {
            Ok(s) => scan_all(tokens_of(args@), tokens_of(args@).len()) == Ok::<ScanV, ParseError>(s@),
            Err(e) => scan_all(tokens_of(args@), tokens_of(args@).len()) == Err::<ScanV, ParseError>(e),
        },
{
    let ghost tokens = tokens_of(args@);
    let mut s = Scan::new();
    if args.len() == 0 {
        return Ok(s);
    }
    let mut i: usize = 1;
    while i < args.len()
        invariant
            1 <= i <= args@.len(),
            tokens == tokens_of(args@),
            tokens.len() == args@.len() - 1,
            scan_all(tokens, (i - 1) as nat) == Ok::<ScanV, ParseError>(s@),
        decreases args@.len() - i,
    {
        let t = chars_of(args[i]);
        assert(tokens[i - 1] == args@[i as int]@);
        match s.step(&t) {
            Ok(()) => {},
            Err(e) => {
                proof {
                    lemma_scan_error_sticks(tokens, i as nat, tokens.len());
                }
                return Err(e);
            },
        }
        i = i + 1;
    }
    Ok(s)
}

} // verus!

verus! {

/// The value recorded for an option (its last occurrence; flags record an empty value).
pub open spec fn opt_value(opts: Seq<(Opt, Seq<char>)>, o: Opt) -> Option<Seq<char>>
    decreases opts.len(),
{
    if opts.len() == 0 {
        None
    } else if opts.last().0 == o {
        Some(opts.last().1)
    } else {
        opt_value(opts.drop_last(), o)
    }
}

pub open spec fn flag(opts: Seq<(Opt, Seq<char>)>, o: Opt) -> bool {
    opt_value(opts, o) is Some
}

/// A decimal number, optionally preceded by `+`.
pub open spec fn number_of(v: Seq<char>) -> Option<u64> {
    if v.len() > 0 && v[0] == '+' {
        decimal_u64(v.drop_first())
    } else {
        decimal_u64(v)
    }
}

/// The option is absent, or its value is a number in `lo..=hi`.
pub open spec fn in_range(opts: Seq<(Opt, Seq<char>)>, o: Opt, lo: u64, hi: u64) -> bool {
    opt_value(opts, o) matches Some(v) ==> (number_of(v) matches Some(n) && lo <= n <= hi)
}

pub open spec fn number_or(opts: Seq<(Opt, Seq<char>)>, o: Opt, d: u64) -> u64 {
    match opt_value(opts, o) {
        Some(v) => number_of(v)->0,
        None => d,
    }
}

pub open spec fn backend_named(v: Seq<char>) -> Option<Backend> {
    if v == "auto"@ {
        Some(Backend::Auto)
    } else if v == "fxtwitter"@ {
        Some(Backend::Fxtwitter)
    } else if v == "graphql"@ {
        Some(Backend::Graphql)
    } else {
        None
    }
}

pub open spec fn backend_of(opts: Seq<(Opt, Seq<char>)>) -> Backend {
    match opt_value(opts, Opt::Backend) {
        Some(v) => backend_named(v)->0,
        None => Backend::Auto,
    }
}

/// What makes a completely read argument list unacceptable: an option without its value,
/// a missing subcommand or value, an out-of-range number, an unknown backend or browser,
/// conflicting flags, or reply paging without `--replies`, or `auth add` without `--profile`.
pub open spec fn finish_error(s: ScanV) -> Option<ParseError> {
    let opts = s.3;
    if s.1 is Some {
        Some(ParseError::MissingValue)
    } else if has_children(s.0) {
        Some(ParseError::MissingSubcommand)
    } else if s.4.len() < arity(s.0) {
        Some(ParseError::MissingRequiredArgument)
    } else if (opt_value(opts, Opt::DataDir) matches Some(v) && v.len() == 0) {
        Some(ParseError::InvalidValue)
    } else if !in_range(opts, Opt::CacheTtl, 0, 86400) || !in_range(opts, Opt::MaxParents, 1, 100)
        || !in_range(opts, Opt::MaxPages, 1, 20) || !in_range(opts, Opt::PageSize, 1, 100) {
        Some(ParseError::InvalidValue)
    } else if (opt_value(opts, Opt::Backend) matches Some(v) && backend_named(v) is None) {
        Some(ParseError::InvalidValue)
    } else if (opt_value(opts, Opt::Browser) matches Some(v) && v != "chrome"@) {
        Some(ParseError::InvalidValue)
    } else if flag(opts, Opt::NoCache) && flag(opts, Opt::Refresh) {
        Some(ParseError::ArgumentConflict)
    } else if flag(opts, Opt::Check) && flag(opts, Opt::Yes) {
        Some(ParseError::ArgumentConflict)
    } else if s.0 == Node::Thread && !flag(opts, Opt::Replies) && (flag(opts, Opt::MaxPages) || flag(
        opts,
        Opt::Cursor,
    )) {
        Some(ParseError::MissingRequiredArgument)
    } else if s.0 == Node::AuthAdd && !flag(opts, Opt::Profile) {
        Some(ParseError::MissingRequiredArgument)
    } else {
        None
    }
}

/// The argument list read in full and accepted, or the reason it is not.
pub open spec fn parse_result(args: Seq<&str>) -> Result<ScanV, ParseError> {
    match scan_all(tokens_of(args), tokens_of(args).len()) {
        Err(e) => Err(e),
        Ok(s) => match finish_error(s) {
            Some(e) => Err(e),
            None => Ok(s),
        },
    }
}

pub open spec fn text_opt_is(x: Option<String>, v: Option<Seq<char>>) -> bool {
    match x {
        Some(a) => v == Some(a@),
        None => v is None,
    }
}

pub open spec fn access_is(a: Access, opts: Seq<(Opt, Seq<char>)>) -> bool {
    &&& text_opt_is(a.account, opt_value(opts, Opt::Account))
    &&& text_opt_is(a.connection, opt_value(opts, Opt::Connection))
    &&& a.backend == backend_of(opts)
    &&& a.no_cache == flag(opts, Opt::NoCache)
    &&& a.refresh == flag(opts, Opt::Refresh)
    &&& a.cache_ttl == number_or(opts, Opt::CacheTtl, 300)
}

pub open spec fn paging_is(p: Paging, opts: Seq<(Opt, Seq<char>)>) -> bool {
    &&& p.max_pages == number_or(opts, Opt::MaxPages, 1)
    &&& p.page_size == number_or(opts, Opt::PageSize, 20)
    &&& text_opt_is(p.cursor, opt_value(opts, Opt::Cursor))
}

pub open spec fn reply_paging_is(p: ReplyPaging, opts: Seq<(Opt, Seq<char>)>) -> bool {
    &&& match p.max_pages {
        Some(m) => flag(opts, Opt::MaxPages) && m == number_or(opts, Opt::MaxPages, 1),
        None => !flag(opts, Opt::MaxPages),
    }
    &&& text_opt_is(p.cursor, opt_value(opts, Opt::Cursor))
}

/// The command assembled from an accepted reading: the command for the node reached,
/// its positional value, and each option's value or default.
pub open spec fn command_is(c: Command, node: Node, opts: Seq<(Opt, Seq<char>)>, pos: Seq<Seq<char>>) -> bool {
    match c {
        Command::Read { target, access } => node == Node::Read && target@ == pos[0] && access_is(access, opts),
        Command::Thread { target, access, max_parents, replies, paging } => {
            &&& node == Node::Thread
            &&& target@ == pos[0]
            &&& access_is(access, opts)
            &&& max_parents == number_or(opts, Opt::MaxParents, 20)
            &&& replies == flag(opts, Opt::Replies)
            &&& reply_paging_is(paging, opts)
        },
        Command::Search { query, access, paging } => node == Node::Search && query@ == pos[0]
            && access_is(access, opts) && paging_is(paging, opts),
        Command::User { command: UserCommand::Posts { handle, access, paging } } => node == Node::UserPosts
            && handle@ == pos[0] && access_is(access, opts) && paging_is(paging, opts),
        Command::Bookmarks { command: BookmarkCommand::List { access, paging } } => node == Node::BookmarksList
            && access_is(access, opts) && paging_is(paging, opts),
        Command::Likes { command: LikesCommand::List { access, paging } } => node == Node::LikesList
            && access_is(access, opts) && paging_is(paging, opts),
        Command::Lists { command } => match command {
            ListsCommand::List { access, paging } => node == Node::ListsList && access_is(access, opts)
                && paging_is(paging, opts),
            ListsCommand::Show { list_id, access } => node == Node::ListsShow && list_id@ == pos[0]
                && access_is(access, opts),
            ListsCommand::Members { command: ListMembersCommand::List { list_id, access, paging } } => node
                == Node::ListsMembersList && list_id@ == pos[0] && access_is(access, opts) && paging_is(paging, opts),
            ListsCommand::Posts { list_id, access, paging } => node == Node::ListsPosts && list_id@ == pos[0]
                && access_is(access, opts) && paging_is(paging, opts),
        },
        Command::Following { command: RelationshipCommand::List { access, paging } } => node == Node::FollowingList
            && access_is(access, opts) && paging_is(paging, opts),
        Command::Followers { command: RelationshipCommand::List { access, paging } } => node == Node::FollowersList
            && access_is(access, opts) && paging_is(paging, opts),
        Command::Auth { command } => match command {
            AuthCommand::Discover => node == Node::AuthDiscover,
            AuthCommand::Add { browser, profile, alias, consent } => {
                &&& node == Node::AuthAdd
                &&& browser@ == "chrome"@
                &&& opt_value(opts, Opt::Profile) == Some(profile@)
                &&& text_opt_is(alias, opt_value(opts, Opt::Alias))
                &&& consent == flag(opts, Opt::Consent)
            },
            AuthCommand::List => node == Node::AuthList,
            AuthCommand::Remove { connection } => node == Node::AuthRemove && connection@ == pos[0],
            AuthCommand::Default { account } => node == Node::AuthDefault && account@ == pos[0],
            AuthCommand::Prefer { connection } => node == Node::AuthPrefer && connection@ == pos[0],
            AuthCommand::Rename { connection, alias } => node == Node::AuthRename && connection@ == pos[0]
                && text_opt_is(alias, opt_value(opts, Opt::Alias)),
        },
        Command::Cache { command: CacheCommand::Purge } => node == Node::CachePurge,
        Command::Doctor => node == Node::Doctor,
        Command::Update { check, yes } => node == Node::Update && check == flag(opts, Opt::Check)
            && yes == flag(opts, Opt::Yes),
    }
}

pub open spec fn cli_is(cli: Cli, s: ScanV) -> bool {
    &&& command_is(cli.command, s.0, s.3, s.4)
    &&& text_opt_is(cli.data_dir, opt_value(s.3, Opt::DataDir))
    &&& cli.human == flag(s.3, Opt::Human)
}

fn value_of(opts: &Vec<(Opt, String)>, o: Opt) -> (r: Option<String>)
    ensures
        text_opt_is(r, opt_value(opts_view(opts@), o)),
{
    let ghost v = opts_view(opts@);
    let mut found: Option<usize> = None;
    let mut i: usize = 0;
    while i < opts.len()
        invariant
            v == opts_view(opts@),
            i <= opts@.len(),
            match found {
                Some(j) => j < i && opt_value(v.take(i as int), o) == Some(v[j as int].1),
                None => opt_value(v.take(i as int), o) is None,
            },
        decreases opts@.len() - i,
    {
        assert(v.take(i + 1).drop_last() == v.take(i as int));
        if opts[i].0 == o {
            found = Some(i);
        }
        i = i + 1;
    }
    assert(v.take(opts@.len() as int) == v);
    match found {
        Some(j) => Some(opts[j].1.clone()),
        None => None,
    }
}

fn flag_exec(opts: &Vec<(Opt, String)>, o: Opt) -> (r: bool)
    ensures
        r == flag(opts_view(opts@), o),
{
    value_of(opts, o).is_some()
}

fn number_exec(v: &String) -> (r: Option<u64>)
    ensures
        r == number_of(v@),
{
    let c = chars_of(v.as_str());
    if c.len() > 0 && c[0] == '+' {
        assert(c@.subrange(1, c@.len() as int) == c@.drop_first());
        parse_decimal(&c, 1, c.len())
    } else {
        assert(c@.subrange(0, c@.len() as int) == c@);
        parse_decimal(&c, 0, c.len())
    }
}

fn in_range_exec(opts: &Vec<(Opt, String)>, o: Opt, lo: u64, hi: u64) -> (r: bool)
    ensures
        r == in_range(opts_view(opts@), o, lo, hi),
{
    match value_of(opts, o) {
        Some(v) => match number_exec(&v) {
            Some(n) => lo <= n && n <= hi,
            None => false,
        },
        None => true,
    }
}

fn number_or_exec(opts: &Vec<(Opt, String)>, o: Opt, d: u64, lo: u64, hi: u64) -> (r: u64)
    requires
        in_range(opts_view(opts@), o, lo, hi),
        lo <= d <= hi,
    ensures
        r == number_or(opts_view(opts@), o, d),
        lo <= r <= hi,
{
    match value_of(opts, o) {
        Some(v) => match number_exec(&v) {
            Some(n) => n,
            None => d,
        },
        None => d,
    }
}

fn backend_exec(v: &String) -> (r: Option<Backend>)
    ensures
        r == backend_named(v@),
{
    let c = chars_of(v.as_str());
    if word(&c, "auto") {
        Some(Backend::Auto)
    } else if word(&c, "fxtwitter") {
        Some(Backend::Fxtwitter)
    } else if word(&c, "graphql") {
        Some(Backend::Graphql)
    } else {
        None
    }
}

fn finish_check(s: &Scan) -> (r: Option<ParseError>)
    ensures
        r == finish_error(s@),
{
    let opts = &s.opts;
    if s.pending.is_some() {
        return Some(ParseError::MissingValue);
    }
    if has_children_exec(s.node) {
        return Some(ParseError::MissingSubcommand);
    }
    if s.positionals.len() < arity_exec(s.node) {
        return Some(ParseError::MissingRequiredArgument);
    }
    match value_of(opts, Opt::DataDir) {
        Some(v) => {
            if v.as_str().is_empty() {
                return Some(ParseError::InvalidValue);
            }
        },
        None => {},
    }
    if !in_range_exec(opts, Opt::CacheTtl, 0, 86400) || !in_range_exec(opts, Opt::MaxParents, 1, 100)
        || !in_range_exec(opts, Opt::MaxPages, 1, 20) || !in_range_exec(opts, Opt::PageSize, 1, 100) {
        return Some(ParseError::InvalidValue);
    }
    match value_of(opts, Opt::Backend) {
        Some(v) => {
            if backend_exec(&v).is_none() {
                return Some(ParseError::InvalidValue);
            }
        },
        None => {},
    }
    match value_of(opts, Opt::Browser) {
        Some(v) => {
            let c = chars_of(v.as_str());
            if !word(&c, "chrome") {
                return Some(ParseError::InvalidValue);
            }
        },
        None => {},
    }
    if flag_exec(opts, Opt::NoCache) && flag_exec(opts, Opt::Refresh) {
        return Some(ParseError::ArgumentConflict);
    }
    if flag_exec(opts, Opt::Check) && flag_exec(opts, Opt::Yes) {
        return Some(ParseError::ArgumentConflict);
    }
    if s.node == Node::Thread && !flag_exec(opts, Opt::Replies) && (flag_exec(opts, Opt::MaxPages)
        || flag_exec(opts, Opt::Cursor)) {
        return Some(ParseError::MissingRequiredArgument);
    }
    if s.node == Node::AuthAdd && !flag_exec(opts, Opt::Profile) {
        return Some(ParseError::MissingRequiredArgument);
    }
    None
}

fn access_of(opts: &Vec<(Opt, String)>) -> (a: Access)
    requires
        in_range(opts_view(opts@), Opt::CacheTtl, 0, 86400),
        (opt_value(opts_view(opts@), Opt::Backend) matches Some(v) ==> backend_named(v) is Some),
    ensures
        access_is(a, opts_view(opts@)),
{
    let backend = match value_of(opts, Opt::Backend) {
        Some(v) => match backend_exec(&v) {
            Some(b) => b,
            None => Backend::Auto,
        },
        None => Backend::Auto,
    };
    Access {
        account: value_of(opts, Opt::Account),
        connection: value_of(opts, Opt::Connection),
        backend,
        no_cache: flag_exec(opts, Opt::NoCache),
        refresh: flag_exec(opts, Opt::Refresh),
        cache_ttl: number_or_exec(opts, Opt::CacheTtl, 300, 0, 86400),
    }
}

fn paging_of(opts: &Vec<(Opt, String)>) -> (p: Paging)
    requires
        in_range(opts_view(opts@), Opt::MaxPages, 1, 20),
        in_range(opts_view(opts@), Opt::PageSize, 1, 100),
    ensures
        paging_is(p, opts_view(opts@)),
{
    Paging {
        max_pages: number_or_exec(opts, Opt::MaxPages, 1, 1, 20) as u32,
        page_size: number_or_exec(opts, Opt::PageSize, 20, 1, 100) as u32,
        cursor: value_of(opts, Opt::Cursor),
    }
}

fn first_positional(s: &Scan) -> (r: String)
    requires
        s.positionals@.len() >= 1,
    ensures
        r@ == s@.4[0],
{
    s.positionals[0].clone()
}

fn build(s: &Scan) -> (cli: Cli)
    requires
        finish_error(s@) is None,
    ensures
        cli_is(cli, s@),
{
    let opts = &s.opts;
    let command = match s.node {
        Node::Read => Command::Read { target: first_positional(s), access: access_of(opts) },
        Node::Thread => {
            let max_pages = if flag_exec(opts, Opt::MaxPages) {
                Some(number_or_exec(opts, Opt::MaxPages, 1, 1, 20) as u32)
            } else {
                None
            };
            Command::Thread {
                target: first_positional(s),
                access: access_of(opts),
                max_parents: number_or_exec(opts, Opt::MaxParents, 20, 1, 100) as u32,
                replies: flag_exec(opts, Opt::Replies),
                paging: ReplyPaging { max_pages, cursor: value_of(opts, Opt::Cursor) },
            }
        },
        Node::Search => Command::Search { query: first_positional(s), access: access_of(opts), paging: paging_of(opts) },
        Node::UserPosts => Command::User {
            command: UserCommand::Posts { handle: first_positional(s), access: access_of(opts), paging: paging_of(opts) },
        },
        Node::BookmarksList => Command::Bookmarks {
            command: BookmarkCommand::List { access: access_of(opts), paging: paging_of(opts) },
        },
        Node::LikesList => Command::Likes { command: LikesCommand::List { access: access_of(opts), paging: paging_of(opts) } },
        Node::ListsList => Command::Lists { command: ListsCommand::List { access: access_of(opts), paging: paging_of(opts) } },
        Node::ListsShow => Command::Lists {
            command: ListsCommand::Show { list_id: first_positional(s), access: access_of(opts) },
        },
        Node::ListsMembersList => Command::Lists {
            command: ListsCommand::Members {
                command: ListMembersCommand::List {
                    list_id: first_positional(s),
                    access: access_of(opts),
                    paging: paging_of(opts),
                },
            },
        },
        Node::ListsPosts => Command::Lists {
            command: ListsCommand::Posts { list_id: first_positional(s), access: access_of(opts), paging: paging_of(opts) },
        },
        Node::FollowingList => Command::Following {
            command: RelationshipCommand::List { access: access_of(opts), paging: paging_of(opts) },
        },
        Node::FollowersList => Command::Followers {
            command: RelationshipCommand::List { access: access_of(opts), paging: paging_of(opts) },
        },
        Node::AuthDiscover => Command::Auth { command: AuthCommand::Discover },
        Node::AuthAdd => {
            let profile = match value_of(opts, Opt::Profile) {
                Some(p) => p,
                None => String::new(),
            };
            Command::Auth {
                command: AuthCommand::Add {
                    browser: "chrome".to_owned(),
                    profile,
                    alias: value_of(opts, Opt::Alias),
                    consent: flag_exec(opts, Opt::Consent),
                },
            }
        },
        Node::AuthList => Command::Auth { command: AuthCommand::List },
        Node::AuthRemove => Command::Auth { command: AuthCommand::Remove { connection: first_positional(s) } },
        Node::AuthDefault => Command::Auth { command: AuthCommand::Default { account: first_positional(s) } },
        Node::AuthPrefer => Command::Auth { command: AuthCommand::Prefer { connection: first_positional(s) } },
        Node::AuthRename => Command::Auth {
            command: AuthCommand::Rename { connection: first_positional(s), alias: value_of(opts, Opt::Alias) },
        },
        Node::CachePurge => Command::Cache { command: CacheCommand::Purge },
        Node::Doctor => Command::Doctor,
        _ => Command::Update { check: flag_exec(opts, Opt::Check), yes: flag_exec(opts, Opt::Yes) },
    };
    Cli { command, data_dir: value_of(opts, Opt::DataDir), human: flag_exec(opts, Opt::Human) }
}

impl Cli {
    /// Reads an argument list (the first element is the program name).
    pub fn try_parse_from(args: &[&str]) -> (r: Result<Cli, ParseError>)
        ensures
            match r {
                Ok(cli) => (parse_result(args@) matches Ok(s) && cli_is(cli, s)),
                Err(e) => parse_result(args@) == Err::<ScanV, ParseError>(e),
            },
    {
        let s = scan(args)?;
        match finish_check(&s) {
            Some(e) => Err(e),
            None => Ok(build(&s)),
        }
    }
}

} // verus!

verus! {

/// An explicit account or connection, or an authenticated-only operation, requires
/// GraphQL: FxTwitter then refuses, and `auto` chooses GraphQL; otherwise `auto`
/// chooses FxTwitter and an explicit backend stands.
pub open spec fn route_of(account: bool, connection: bool, backend: Backend, requires_graphql: bool) -> Option<Backend> {
    let has_account = account || connection;
    match backend {
        Backend::Fxtwitter => if has_account || requires_graphql {
            None
        } else {
            Some(Backend::Fxtwitter)
        },
        Backend::Auto => if has_account || requires_graphql {
            Some(Backend::Graphql)
        } else {
            Some(Backend::Fxtwitter)
        },
        Backend::Graphql => Some(Backend::Graphql),
    }
}

/// Routing never sends a request that selects an account, whether by `--account` or by
/// `--connection`, or an authenticated-only operation, to the public FxTwitter source:
/// `auto` then chooses GraphQL and an explicit `fxtwitter` is refused. Any other request
/// under `auto` goes to FxTwitter, an explicit backend otherwise stands, and `auto` is
/// never the answer.
pub proof fn lemma_route_respects_account_selection(
    account: bool,
    connection: bool,
    backend: Backend,
    requires_graphql: bool,
)
    ensures
        (account || connection || requires_graphql) ==> route_of(account, connection, backend, requires_graphql)
            != Some(Backend::Fxtwitter),
        (account || connection || requires_graphql) && backend == Backend::Auto ==> route_of(
            account,
            connection,
            backend,
            requires_graphql,
        ) == Some(Backend::Graphql),
        (account || connection || requires_graphql) && backend == Backend::Fxtwitter ==> route_of(
            account,
            connection,
            backend,
            requires_graphql,
        ) is None,
        !(account || connection || requires_graphql) && backend == Backend::Auto ==> route_of(
            account,
            connection,
            backend,
            requires_graphql,
        ) == Some(Backend::Fxtwitter),
        backend != Backend::Auto ==> route_of(account, connection, backend, requires_graphql) is None || route_of(
            account,
            connection,
            backend,
            requires_graphql,
        ) == Some(backend),
        route_of(account, connection, backend, requires_graphql) != Some(Backend::Auto),
        backend == Backend::Graphql ==> route_of(account, connection, backend, requires_graphql) == Some(
            Backend::Graphql,
        ),
{
}

pub fn route(access: &Access, requires_graphql: bool) -> (r: Result<Backend, Error>)
    ensures
        match r {
            Ok(b) => route_of(access.account is Some, access.connection is Some, access.backend, requires_graphql)
                == Some(b),
            Err(e) => route_of(access.account is Some, access.connection is Some, access.backend, requires_graphql)
                is None && e.kind == Kind::Unsupported,
        },
{
    let has_account = access.account.is_some() || access.connection.is_some();
    match access.backend {
        Backend::Fxtwitter => {
            if has_account || requires_graphql {
                Err(Error::new(Kind::Unsupported, "FxTwitter cannot serve account-selected or authenticated-only operations"))
            } else {
                Ok(Backend::Fxtwitter)
            }
        },
        Backend::Auto => {
            if has_account || requires_graphql {
                Ok(Backend::Graphql)
            } else {
                Ok(Backend::Fxtwitter)
            }
        },
        Backend::Graphql => Ok(Backend::Graphql),
    }
}

impl Paging {
    pub fn duplicate(&self) -> (p: Paging)
        ensures
            p.max_pages == self.max_pages,
            p.page_size == self.page_size,
            p.cursor == self.cursor,
    {
        Paging { max_pages: self.max_pages, page_size: self.page_size, cursor: crate::text::copy_opt(&self.cursor) }
    }
}

} // verus!
