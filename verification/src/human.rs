//! Human-readable rendering of a result. Upstream text is shown as it is, except that
//! terminal control characters other than newline and tab are written as escapes, so
//! rendered output can never drive the terminal.
use vstd::prelude::*;
use crate::model::{Identity, ListInfo, ListManagementSection, ListVisibility, Output, Post};
use crate::text::push_all;

verus! {

/// A Unicode control character (general category Cc).
pub open spec fn is_control(c: char) -> bool {
    (c as u32) < 0x20 || (0x7f <= (c as u32) && (c as u32) <= 0x9f)
}

/// Nothing in the text can act on a terminal: the only control characters are newline
/// and tab.
pub open spec fn terminal_safe(s: Seq<char>) -> bool {
    forall|i: int| 0 <= i < s.len() ==> !is_control(#[trigger] s[i]) || s[i] == '\n' || s[i] == '\t'
}

pub open spec fn hex_char_of(n: int) -> char {
    if n < 10 {
        (0x30 + n) as char
    } else {
        (0x57 + n) as char
    }
}

/// A control character in the escaped form Rust's debug formatting uses.
pub open spec fn control_escape(c: char) -> Seq<char> {
    let v = (c as u32) as int;
    if v == 0 {
        seq!['\\', '0']
    } else if v == 0x0d {
        seq!['\\', 'r']
    } else if v < 16 {
        seq!['\\', 'u', '{', hex_char_of(v), '}']
    } else {
        seq!['\\', 'u', '{', hex_char_of(v / 16), hex_char_of(v % 16), '}']
    }
}

pub open spec fn shown_char(c: char) -> Seq<char> {
    if is_control(c) && c != '\n' && c != '\t' {
        control_escape(c)
    } else {
        seq![c]
    }
}

/// The text with every control character other than newline and tab escaped.
pub open spec fn shown(s: Seq<char>) -> Seq<char>
    decreases s.len(),
{
    if s.len() == 0 {
        Seq::empty()
    } else {
        shown(s.drop_last()) + shown_char(s.last())
    }
}

pub proof fn lemma_shown_safe(s: Seq<char>)
    ensures
        terminal_safe(shown(s)),
    decreases s.len(),
{
    if s.len() > 0 {
        lemma_shown_safe(s.drop_last());
        let a = shown(s.drop_last());
        let b = shown_char(s.last());
        assert(terminal_safe(b)) by {
            let v = (s.last() as u32) as int;
            if is_control(s.last()) && s.last() != '\n' && s.last() != '\t' {
                assert(0 <= v % 16 < 16) by (nonlinear_arith)
                    requires
                        0 <= v,
                ;
                assert(v / 16 <= 9) by (nonlinear_arith)
                    requires
                        0 <= v <= 0x9f,
                ;
                assert(0x30 <= hex_char_of(v % 16) as int <= 0x66);
                assert(0x30 <= hex_char_of(v / 16) as int <= 0x66);
                assert forall|i: int| 0 <= i < b.len() implies !is_control(#[trigger] b[i]) by {}
            }
        }
        lemma_concat_safe(a, b);
    }
}

pub proof fn lemma_concat_safe(a: Seq<char>, b: Seq<char>)
    requires
        terminal_safe(a),
        terminal_safe(b),
    ensures
        terminal_safe(a + b),
{
    assert forall|i: int| 0 <= i < (a + b).len() implies !is_control(#[trigger] (a + b)[i]) || (a + b)[i] == '\n'
        || (a + b)[i] == '\t' by {
        if i < a.len() {
            assert((a + b)[i] == a[i]);
        } else {
            assert((a + b)[i] == b[i - a.len()]);
        }
    }
}

fn hex_of(n: u32) -> (c: char)
    requires
        n < 16,
    ensures
        c == hex_char_of(n as int),
{
    if n < 10 {
        char_of(0x30 + n)
    } else {
        char_of(0x57 + n)
    }
}

fn char_of(v: u32) -> (c: char)
    requires
        0x30 <= v <= 0x66,
    ensures
        c as int == v,
{
    (v as u8) as char
}

/// Appends the text with control characters escaped.
pub fn push_shown(s: &mut String, t: &str)
    ensures
        final(s)@ == old(s)@ + shown(t@),
{
    let v = crate::text::chars_of(t);
    let ghost s0 = s@;
    let mut i: usize = 0;
    while i < v.len()
        invariant
            i <= v@.len(),
            v@ == t@,
            s@ == s0 + shown(v@.take(i as int)),
        decreases v@.len() - i,
    {
        assert(v@.take(i + 1).drop_last() =~= v@.take(i as int));
        let c = v[i];
        let code = c as u32;
        let ghost before = s@;
        if (code < 0x20 || (0x7f <= code && code <= 0x9f)) && c != '\n' && c != '\t' {
            s.push('\\');
            if code == 0 {
                s.push('0');
            } else if code == 0x0d {
                s.push('r');
            } else {
                s.push('u');
                s.push('{');
                if code >= 16 {
                    s.push(hex_of(code / 16));
                }
                s.push(hex_of(code % 16));
                s.push('}');
            }
            assert(s@ =~= before + control_escape(c));
        } else {
            s.push(c);
        }
        assert(shown(v@.take(i + 1)) =~= shown(v@.take(i as int)) + shown_char(c));
        i = i + 1;
    }
    assert(v@.take(i as int) =~= v@);
}

pub open spec fn flag(b: bool) -> Seq<char> {
    if b {
        "true"@
    } else {
        "false"@
    }
}

pub open spec fn header(o: Output) -> Seq<char> {
    shown(o.provenance.backend@) + " · "@ + shown(o.provenance.cache@) + " · complete="@ + flag(o.complete) + " · "@
        + shown(o.stop_reason@) + "\n"@
}

pub open spec fn post_block(p: Post) -> Seq<char> {
    "\n@"@ + shown(p.author.handle@) + " · "@ + shown(p.id@) + "\n"@ + shown(p.text@) + "\n"@ + shown(p.url@) + "\n"@
}

pub open spec fn user_block(u: Identity) -> Seq<char> {
    "\n@"@ + shown(u.handle@) + " · "@ + shown(u.id@) + "\nhttps://x.com/"@ + shown(u.handle@) + "\n"@
}

pub open spec fn section_name(s: ListManagementSection) -> Seq<char> {
    match s {
        ListManagementSection::Pinned => "pinned"@,
        ListManagementSection::OwnedSubscribed => "owned_subscribed"@,
        ListManagementSection::Unsectioned => "unsectioned"@,
    }
}

pub open spec fn section_names(s: Seq<ListManagementSection>) -> Seq<char>
    decreases s.len(),
{
    if s.len() == 0 {
        Seq::empty()
    } else if s.len() == 1 {
        section_name(s[0])
    } else {
        section_names(s.drop_last()) + ", "@ + section_name(s.last())
    }
}

pub open spec fn list_title(l: ListInfo) -> Seq<char> {
    "\n"@ + shown(l.name@) + " · "@ + shown(l.id@) + "\n"@
}

pub open spec fn list_description(l: ListInfo) -> Seq<char> {
    match l.description {
        Some(d) => shown(d@) + "\n"@,
        None => Seq::empty(),
    }
}

pub open spec fn list_visibility(l: ListInfo) -> Seq<char> {
    match l.visibility {
        Some(ListVisibility::Public) => "Visibility: public\n"@,
        Some(ListVisibility::Private) => "Visibility: private\n"@,
        None => Seq::empty(),
    }
}

pub open spec fn list_owner(l: ListInfo) -> Seq<char> {
    match l.owner {
        Some(o) => "Owner: @"@ + shown(o.handle@) + " · "@ + shown(o.id@) + "\n"@,
        None => Seq::empty(),
    }
}

pub open spec fn list_sections(l: ListInfo) -> Seq<char> {
    if l.management_sections@.len() > 0 {
        "Management sections: "@ + section_names(l.management_sections@) + "\n"@
    } else {
        Seq::empty()
    }
}

/// A list: name and ID, the known details, the viewer's placements, and its URL.
pub open spec fn list_block(l: ListInfo) -> Seq<char> {
    list_title(l) + list_description(l) + list_visibility(l) + list_owner(l) + list_sections(l) + shown(l.url@)
        + "\n"@
}

pub open spec fn post_blocks(ps: Seq<Post>) -> Seq<char>
    decreases ps.len(),
{
    if ps.len() == 0 {
        Seq::empty()
    } else {
        post_blocks(ps.drop_last()) + post_block(ps.last())
    }
}

pub open spec fn user_blocks(us: Seq<Identity>) -> Seq<char>
    decreases us.len(),
{
    if us.len() == 0 {
        Seq::empty()
    } else {
        user_blocks(us.drop_last()) + user_block(us.last())
    }
}

pub open spec fn list_blocks(ls: Seq<ListInfo>) -> Seq<char>
    decreases ls.len(),
{
    if ls.len() == 0 {
        Seq::empty()
    } else {
        list_blocks(ls.drop_last()) + list_block(ls.last())
    }
}

pub open spec fn warning_lines(ws: Seq<String>) -> Seq<char>
    decreases ws.len(),
{
    if ws.len() == 0 {
        Seq::empty()
    } else {
        warning_lines(ws.drop_last()) + "Warning: "@ + shown(ws.last()@) + "\n"@
    }
}

/// The human-readable form of a result: a header with backend, cache status,
/// completeness and stop reason; the posts, users and lists; the resumable cursor; and
/// the warnings.
pub open spec fn rendered(o: Output) -> Seq<char> {
    header(o) + post_blocks(o.posts@) + match o.users {
        Some(us) => user_blocks(us@),
        None => Seq::empty(),
    } + match o.lists {
        Some(ls) => list_blocks(ls@),
        None => Seq::empty(),
    } + match o.next_cursor {
        Some(c) => "\nNext cursor: "@ + shown(c@) + "\n"@,
        None => Seq::empty(),
    } + warning_lines(o.warnings@)
}

proof fn lemma_cat3(a: Seq<char>, b: Seq<char>, c: Seq<char>)
    requires
        terminal_safe(a),
        terminal_safe(b),
        terminal_safe(c),
    ensures
        terminal_safe(a + b + c),
{
    lemma_concat_safe(a, b);
    lemma_concat_safe(a + b, c);
}

proof fn lemma_literals_safe()
    ensures
        terminal_safe("\n"@),
        terminal_safe(" · "@),
        terminal_safe("\n@"@),
        terminal_safe(" · complete="@),
        terminal_safe("true"@),
        terminal_safe("false"@),
        terminal_safe("\nhttps://x.com/"@),
        terminal_safe("Visibility: public\n"@),
        terminal_safe("Visibility: private\n"@),
        terminal_safe("Owner: @"@),
        terminal_safe("Management sections: "@),
        terminal_safe(", "@),
        terminal_safe("pinned"@),
        terminal_safe("owned_subscribed"@),
        terminal_safe("unsectioned"@),
        terminal_safe("\nNext cursor: "@),
        terminal_safe("Warning: "@),
        terminal_safe(Seq::<char>::empty()),
{
    reveal_strlit("\n");
    reveal_strlit(" · ");
    reveal_strlit("\n@");
    reveal_strlit(" · complete=");
    reveal_strlit("true");
    reveal_strlit("false");
    reveal_strlit("\nhttps://x.com/");
    reveal_strlit("Visibility: public\n");
    reveal_strlit("Visibility: private\n");
    reveal_strlit("Owner: @");
    reveal_strlit("Management sections: ");
    reveal_strlit(", ");
    reveal_strlit("pinned");
    reveal_strlit("owned_subscribed");
    reveal_strlit("unsectioned");
    reveal_strlit("\nNext cursor: ");
    reveal_strlit("Warning: ");
}

proof fn lemma_post_blocks_safe(ps: Seq<Post>)
    ensures
        terminal_safe(post_blocks(ps)),
    decreases ps.len(),
{
    lemma_literals_safe();
    if ps.len() > 0 {
        lemma_post_blocks_safe(ps.drop_last());
        let p = ps.last();
        lemma_shown_safe(p.author.handle@);
        lemma_shown_safe(p.id@);
        lemma_shown_safe(p.text@);
        lemma_shown_safe(p.url@);
        lemma_cat3("\n@"@, shown(p.author.handle@), " · "@);
        lemma_cat3("\n@"@ + shown(p.author.handle@) + " · "@, shown(p.id@), "\n"@);
        lemma_cat3("\n@"@ + shown(p.author.handle@) + " · "@ + shown(p.id@) + "\n"@, shown(p.text@), "\n"@);
        lemma_cat3(
            "\n@"@ + shown(p.author.handle@) + " · "@ + shown(p.id@) + "\n"@ + shown(p.text@) + "\n"@,
            shown(p.url@),
            "\n"@,
        );
        lemma_concat_safe(post_blocks(ps.drop_last()), post_block(p));
    }
}

proof fn lemma_user_blocks_safe(us: Seq<Identity>)
    ensures
        terminal_safe(user_blocks(us)),
    decreases us.len(),
{
    lemma_literals_safe();
    if us.len() > 0 {
        lemma_user_blocks_safe(us.drop_last());
        let u = us.last();
        lemma_shown_safe(u.handle@);
        lemma_shown_safe(u.id@);
        lemma_cat3("\n@"@, shown(u.handle@), " · "@);
        lemma_cat3("\n@"@ + shown(u.handle@) + " · "@, shown(u.id@), "\nhttps://x.com/"@);
        lemma_cat3("\n@"@ + shown(u.handle@) + " · "@ + shown(u.id@) + "\nhttps://x.com/"@, shown(u.handle@), "\n"@);
        lemma_concat_safe(user_blocks(us.drop_last()), user_block(u));
    }
}

proof fn lemma_section_names_safe(s: Seq<ListManagementSection>)
    ensures
        terminal_safe(section_names(s)),
    decreases s.len(),
{
    lemma_literals_safe();
    if s.len() > 1 {
        lemma_section_names_safe(s.drop_last());
        lemma_cat3(section_names(s.drop_last()), ", "@, section_name(s.last()));
    }
}

proof fn lemma_list_block_safe(l: ListInfo)
    ensures
        terminal_safe(list_block(l)),
{
    lemma_literals_safe();
    lemma_shown_safe(l.name@);
    lemma_shown_safe(l.id@);
    lemma_shown_safe(l.url@);
    lemma_cat3("\n"@, shown(l.name@), " · "@);
    lemma_cat3("\n"@ + shown(l.name@) + " · "@, shown(l.id@), "\n"@);
    match l.description {
        Some(d) => {
            lemma_shown_safe(d@);
            lemma_concat_safe(shown(d@), "\n"@);
        },
        None => {},
    }
    match l.owner {
        Some(o) => {
            lemma_shown_safe(o.handle@);
            lemma_shown_safe(o.id@);
            lemma_cat3("Owner: @"@, shown(o.handle@), " · "@);
            lemma_cat3("Owner: @"@ + shown(o.handle@) + " · "@, shown(o.id@), "\n"@);
        },
        None => {},
    }
    if l.management_sections@.len() > 0 {
        lemma_section_names_safe(l.management_sections@);
        lemma_cat3("Management sections: "@, section_names(l.management_sections@), "\n"@);
    }
    lemma_cat3(list_title(l), list_description(l), list_visibility(l));
    lemma_cat3(list_title(l) + list_description(l) + list_visibility(l), list_owner(l), list_sections(l));
    lemma_cat3(
        list_title(l) + list_description(l) + list_visibility(l) + list_owner(l) + list_sections(l),
        shown(l.url@),
        "\n"@,
    );
}

proof fn lemma_list_blocks_safe(ls: Seq<ListInfo>)
    ensures
        terminal_safe(list_blocks(ls)),
    decreases ls.len(),
{
    lemma_literals_safe();
    if ls.len() > 0 {
        lemma_list_blocks_safe(ls.drop_last());
        lemma_list_block_safe(ls.last());
        lemma_concat_safe(list_blocks(ls.drop_last()), list_block(ls.last()));
    }
}

proof fn lemma_warning_lines_safe(ws: Seq<String>)
    ensures
        terminal_safe(warning_lines(ws)),
    decreases ws.len(),
{
    lemma_literals_safe();
    if ws.len() > 0 {
        lemma_warning_lines_safe(ws.drop_last());
        lemma_shown_safe(ws.last()@);
        lemma_cat3(warning_lines(ws.drop_last()), "Warning: "@, shown(ws.last()@));
        lemma_concat_safe(warning_lines(ws.drop_last()) + "Warning: "@ + shown(ws.last()@), "\n"@);
    }
}

/// Rendered output never carries a terminal control sequence, whatever upstream text it
/// shows: its only control characters are newlines and tabs.
/// The first line of the rendering reports the backend, the cache state and then the
/// result's completeness: after `{backend} · {cache} · complete=` comes `true` for a
/// complete result and `false` otherwise, followed by ` · {stop reason}`.
pub proof fn lemma_header_reports_completeness(o: Output)
    ensures
        ({
            let p = shown(o.provenance.backend@) + " · "@ + shown(o.provenance.cache@) + " · complete="@;
            let w: Seq<char> = if o.complete { "true"@ } else { "false"@ };
            let a = p.len() as int;
            let b = a + w.len();
            &&& rendered(o).take(a) == p
            &&& rendered(o).subrange(a, b) == w
            &&& rendered(o).subrange(b, b + 3) == " · "@
            &&& o.complete ==> rendered(o).subrange(a, a + 4) == "true"@
            &&& !o.complete ==> rendered(o).subrange(a, a + 5) == "false"@
        }),
{
    reveal_strlit("true");
    reveal_strlit("false");
    reveal_strlit(" · ");
    let p = shown(o.provenance.backend@) + " · "@ + shown(o.provenance.cache@) + " · complete="@;
    let w: Seq<char> = if o.complete { "true"@ } else { "false"@ };
    let rest = shown(o.stop_reason@) + "\n"@;
    let tail = rendered(o).skip(header(o).len() as int);
    assert(header(o) =~= p + w + " · "@ + rest);
    assert(rendered(o) =~= header(o) + tail);
    let whole = p + (w + (" · "@ + (rest + tail)));
    assert((p + w + " · "@ + rest) + tail =~= whole);
    assert(rendered(o) == whole);
    assert(whole.take(p.len() as int) =~= p);
    let a = p.len() as int;
    let b = a + w.len();
    assert(whole.subrange(a, b) =~= w);
    assert(whole.subrange(b, b + 3) =~= " · "@);
}

pub proof fn lemma_rendered_is_terminal_safe(o: Output)
    ensures
        terminal_safe(rendered(o)),
{
    lemma_literals_safe();
    lemma_shown_safe(o.provenance.backend@);
    lemma_shown_safe(o.provenance.cache@);
    lemma_shown_safe(o.stop_reason@);
    lemma_cat3(shown(o.provenance.backend@), " · "@, shown(o.provenance.cache@));
    lemma_cat3(shown(o.provenance.backend@) + " · "@ + shown(o.provenance.cache@), " · complete="@, flag(o.complete));
    lemma_cat3(
        shown(o.provenance.backend@) + " · "@ + shown(o.provenance.cache@) + " · complete="@ + flag(o.complete),
        " · "@,
        shown(o.stop_reason@),
    );
    lemma_concat_safe(
        shown(o.provenance.backend@) + " · "@ + shown(o.provenance.cache@) + " · complete="@ + flag(o.complete) + " · "@
            + shown(o.stop_reason@),
        "\n"@,
    );
    lemma_post_blocks_safe(o.posts@);
    let users = match o.users {
        Some(us) => user_blocks(us@),
        None => Seq::empty(),
    };
    let lists = match o.lists {
        Some(ls) => list_blocks(ls@),
        None => Seq::empty(),
    };
    let cursor = match o.next_cursor {
        Some(c) => "\nNext cursor: "@ + shown(c@) + "\n"@,
        None => Seq::empty(),
    };
    match o.users {
        Some(us) => lemma_user_blocks_safe(us@),
        None => {},
    }
    match o.lists {
        Some(ls) => lemma_list_blocks_safe(ls@),
        None => {},
    }
    match o.next_cursor {
        Some(c) => {
            lemma_shown_safe(c@);
            lemma_cat3("\nNext cursor: "@, shown(c@), "\n"@);
        },
        None => {},
    }
    lemma_warning_lines_safe(o.warnings@);
    lemma_cat3(header(o), post_blocks(o.posts@), users);
    lemma_cat3(header(o) + post_blocks(o.posts@) + users, lists, cursor);
    lemma_concat_safe(header(o) + post_blocks(o.posts@) + users + lists + cursor, warning_lines(o.warnings@));
}

fn push_flag(s: &mut String, b: bool)
    ensures
        final(s)@ == old(s)@ + flag(b),
{
    if b {
        push_all(s, "true");
    } else {
        push_all(s, "false");
    }
}

fn push_post(s: &mut String, p: &Post)
    ensures
        final(s)@ == old(s)@ + post_block(*p),
{
    push_all(s, "\n@");
    push_shown(s, p.author.handle.as_str());
    push_all(s, " · ");
    push_shown(s, p.id.as_str());
    push_all(s, "\n");
    push_shown(s, p.text.as_str());
    push_all(s, "\n");
    push_shown(s, p.url.as_str());
    push_all(s, "\n");
}

fn push_user(s: &mut String, u: &Identity)
    ensures
        final(s)@ == old(s)@ + user_block(*u),
{
    push_all(s, "\n@");
    push_shown(s, u.handle.as_str());
    push_all(s, " · ");
    push_shown(s, u.id.as_str());
    push_all(s, "\nhttps://x.com/");
    push_shown(s, u.handle.as_str());
    push_all(s, "\n");
}

fn push_section(s: &mut String, x: ListManagementSection)
    ensures
        final(s)@ == old(s)@ + section_name(x),
{
    match x {
        ListManagementSection::Pinned => push_all(s, "pinned"),
        ListManagementSection::OwnedSubscribed => push_all(s, "owned_subscribed"),
        ListManagementSection::Unsectioned => push_all(s, "unsectioned"),
    }
}

fn push_list_details(s: &mut String, l: &ListInfo)
    ensures
        final(s)@ == old(s)@ + list_description(*l) + list_visibility(*l) + list_owner(*l),
{
    let ghost s0 = s@;
    match &l.description {
        Some(d) => {
            push_shown(s, d.as_str());
            push_all(s, "\n");
        },
        None => {},
    }
    let ghost s1 = s@;
    assert(s1 == s0 + list_description(*l));
    match l.visibility {
        Some(ListVisibility::Public) => push_all(s, "Visibility: public\n"),
        Some(ListVisibility::Private) => push_all(s, "Visibility: private\n"),
        None => {},
    }
    let ghost s2 = s@;
    assert(s2 == s1 + list_visibility(*l));
    match &l.owner {
        Some(o) => {
            push_all(s, "Owner: @");
            push_shown(s, o.handle.as_str());
            push_all(s, " · ");
            push_shown(s, o.id.as_str());
            push_all(s, "\n");
        },
        None => {},
    }
    assert(s@ == s2 + list_owner(*l));
}

fn push_sections(s: &mut String, l: &ListInfo)
    ensures
        final(s)@ == old(s)@ + list_sections(*l),
{
    if l.management_sections.len() > 0 {
        push_all(s, "Management sections: ");
        let ghost base = s@;
        let mut i: usize = 0;
        while i < l.management_sections.len()
            invariant
                i <= l.management_sections@.len(),
                l.management_sections@.len() > 0,
                s@ == base + section_names(l.management_sections@.take(i as int)),
            decreases l.management_sections@.len() - i,
        {
            assert(l.management_sections@.take(i + 1).drop_last() =~= l.management_sections@.take(i as int));
            if i > 0 {
                push_all(s, ", ");
            } else {
                assert(l.management_sections@.take(1)[0] == l.management_sections@[0]);
            }
            push_section(s, l.management_sections[i]);
            i = i + 1;
        }
        assert(l.management_sections@.take(i as int) =~= l.management_sections@);
        push_all(s, "\n");
    }
}

fn push_list(s: &mut String, l: &ListInfo)
    ensures
        final(s)@ == old(s)@ + list_block(*l),
{
    let ghost s0 = s@;
    push_all(s, "\n");
    push_shown(s, l.name.as_str());
    push_all(s, " · ");
    push_shown(s, l.id.as_str());
    push_all(s, "\n");
    let ghost s1 = s@;
    assert(s1 == s0 + list_title(*l));
    push_list_details(s, l);
    let ghost s2 = s@;
    push_sections(s, l);
    let ghost s3 = s@;
    push_shown(s, l.url.as_str());
    push_all(s, "\n");
    assert(s@ == s3 + shown(l.url@) + "\n"@);
    assert(s@ =~= s0 + list_block(*l));
}

fn push_header(s: &mut String, out: &Output)
    ensures
        final(s)@ == old(s)@ + header(*out),
{
    let ghost s0 = s@;
    push_shown(s, out.provenance.backend.as_str());
    push_all(s, " · ");
    push_shown(s, out.provenance.cache.as_str());
    push_all(s, " · complete=");
    push_flag(s, out.complete);
    push_all(s, " · ");
    push_shown(s, out.stop_reason.as_str());
    push_all(s, "\n");
    assert(s@ =~= s0 + header(*out));
}

fn push_posts(s: &mut String, posts: &Vec<Post>)
    ensures
        final(s)@ == old(s)@ + post_blocks(posts@),
{
    let ghost h = s@;
    let mut i: usize = 0;
    while i < posts.len()
        invariant
            i <= posts@.len(),
            s@ == h + post_blocks(posts@.take(i as int)),
        decreases posts@.len() - i,
    {
        assert(posts@.take(i + 1).drop_last() =~= posts@.take(i as int));
        push_post(s, &posts[i]);
        i = i + 1;
    }
    assert(posts@.take(i as int) =~= posts@);
}

fn push_users(s: &mut String, users: &Option<Vec<Identity>>)
    ensures
        final(s)@ == old(s)@ + match *users {
            Some(us) => user_blocks(us@),
            None => Seq::empty(),
        },
{
    let ghost h = s@;
    match users {
        Some(us) => {
            let mut j: usize = 0;
            while j < us.len()
                invariant
                    j <= us@.len(),
                    s@ == h + user_blocks(us@.take(j as int)),
                decreases us@.len() - j,
            {
                assert(us@.take(j + 1).drop_last() =~= us@.take(j as int));
                push_user(s, &us[j]);
                j = j + 1;
            }
            assert(us@.take(j as int) =~= us@);
        },
        None => {
            assert(s@ =~= h + Seq::<char>::empty());
        },
    }
}

fn push_lists(s: &mut String, lists: &Option<Vec<ListInfo>>)
    ensures
        final(s)@ == old(s)@ + match *lists {
            Some(ls) => list_blocks(ls@),
            None => Seq::empty(),
        },
{
    let ghost h = s@;
    match lists {
        Some(ls) => {
            let mut j: usize = 0;
            while j < ls.len()
                invariant
                    j <= ls@.len(),
                    s@ == h + list_blocks(ls@.take(j as int)),
                decreases ls@.len() - j,
            {
                assert(ls@.take(j + 1).drop_last() =~= ls@.take(j as int));
                push_list(s, &ls[j]);
                j = j + 1;
            }
            assert(ls@.take(j as int) =~= ls@);
        },
        None => {
            assert(s@ =~= h + Seq::<char>::empty());
        },
    }
}

fn push_cursor(s: &mut String, cursor: &Option<String>)
    ensures
        final(s)@ == old(s)@ + match *cursor {
            Some(c) => "\nNext cursor: "@ + shown(c@) + "\n"@,
            None => Seq::empty(),
        },
{
    let ghost h = s@;
    match cursor {
        Some(c) => {
            push_all(s, "\nNext cursor: ");
            push_shown(s, c.as_str());
            push_all(s, "\n");
            assert(s@ =~= h + ("\nNext cursor: "@ + shown(c@) + "\n"@));
        },
        None => {
            assert(s@ =~= h + Seq::<char>::empty());
        },
    }
}

fn push_warnings(s: &mut String, warnings: &Vec<String>)
    ensures
        final(s)@ == old(s)@ + warning_lines(warnings@),
{
    let ghost hc = s@;
    let mut k: usize = 0;
    while k < warnings.len()
        invariant
            k <= warnings@.len(),
            s@ == hc + warning_lines(warnings@.take(k as int)),
        decreases warnings@.len() - k,
    {
        assert(warnings@.take(k + 1).drop_last() =~= warnings@.take(k as int));
        push_all(s, "Warning: ");
        push_shown(s, warnings[k].as_str());
        push_all(s, "\n");
        k = k + 1;
    }
    assert(warnings@.take(k as int) =~= warnings@);
}

/// Renders a result for people (see `rendered`); the text is always terminal-safe
/// (see `lemma_rendered_is_terminal_safe`).
pub fn render_human(out: &Output) -> (s: String)
    ensures
        s@ == rendered(*out),
{
    let mut s = String::new();
    push_header(&mut s, out);
    let ghost a = s@;
    push_posts(&mut s, &out.posts);
    let ghost b = s@;
    push_users(&mut s, &out.users);
    let ghost c = s@;
    push_lists(&mut s, &out.lists);
    let ghost d = s@;
    push_cursor(&mut s, &out.next_cursor);
    let ghost e = s@;
    push_warnings(&mut s, &out.warnings);
    assert(s@ =~= rendered(*out));
    s
}

} // verus!
