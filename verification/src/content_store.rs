//! Content-addressed storage.
//!
//! Content is kept under the digest of its bytes; the manifest of a session maps
//! names and short aliases to such handles. Private content is visible to the
//! session that wrote it, session content to all sessions of the same root, and
//! global content to every session.

use crate::digest;
use crate::order;
use crate::text;
use crate::textmap::TextMap;
use vstd::prelude::*;

verus! {

// ---------------------------------------------------------------------------
// Sessions and paths
// ---------------------------------------------------------------------------

/// The root session id: the part before the first `/`.
pub fn root_session_id(session_id: &str) -> (r: String)
    ensures
        r@ == text::before_char(session_id@, '/'),
{
    text::head_before(session_id, '/')
}

/// Who may see content.
#[derive(Debug, Clone, Copy, PartialEq, Eq, Structural)]
pub enum ContentVisibility {
    /// The session that wrote it.
    Private,
    /// All sessions of the same root.
    Session,
    /// Every session.
    Global,
}

impl Default for ContentVisibility {
    fn default() -> (r: ContentVisibility)
        ensures
            r == ContentVisibility::Session,
    {
        ContentVisibility::Session
    }
}

/// The component of a path that begins at `i`: up to the next slash.
pub open spec fn component_at(s: Seq<char>, i: int) -> Seq<char> {
    text::before_char(s.subrange(i, s.len() as int), '/')
}

/// A component begins at `i`.
pub open spec fn starts_component(s: Seq<char>, i: int) -> bool {
    0 <= i <= s.len() && (i == 0 || s[i - 1] == '/')
}

/// A component that names something below: neither empty nor a dot nor two.
pub open spec fn is_normal(c: Seq<char>) -> bool {
    c.len() > 0 && c != "."@ && c != ".."@
}

/// A path leads to something below the directory that it is joined to: it is
/// relative, never goes up, and has a component that names something.
pub open spec fn stays_below(s: Seq<char>) -> bool {
    &&& s.len() > 0
    &&& s[0] != '/'
    &&& forall|i: int| #[trigger] starts_component(s, i) ==> component_at(s, i) != ".."@
    &&& exists|i: int| #[trigger] starts_component(s, i) && is_normal(component_at(s, i))
}

proof fn lemma_before_char(s: Seq<char>, c: char, n: int)
    requires
        0 <= n <= s.len(),
        forall|k: int| 0 <= k < n ==> s[k] != c,
        n < s.len() ==> s[n] == c,
    ensures
        text::before_char(s, c) == s.subrange(0, n),
    decreases s.len(),
{
    if n == 0 {
        assert(s.subrange(0, 0) =~= Seq::<char>::empty());
    } else {
        let rest = s.subrange(1, s.len() as int);
        assert forall|k: int| 0 <= k < n - 1 implies rest[k] != c by {
            assert(rest[k] == s[k + 1]);
        }
        lemma_before_char(rest, c, n - 1);
        assert(seq![s[0]] + rest.subrange(0, n - 1) =~= s.subrange(0, n));
    }
}

/// Whether a path leads to something below the directory that it is joined to.
pub fn safe_relative_path(s: &str) -> (r: bool)
    ensures
        r == stays_below(s@),
{
    let v = text::chars_of(s);
    if v.len() == 0 || v[0] == '/' {
        return false;
    }
    proof {
        reveal_strlit(".");
        reveal_strlit("..");
    }
    let mut normal = false;
    let mut i: usize = 0;
    let mut done = false;
    while !done
        invariant
            v@ == s@,
            v@.len() > 0,
            v@[0] != '/',
            "."@.len() == 1 && "."@[0] == '.',
            ".."@.len() == 2 && ".."@[0] == '.' && ".."@[1] == '.',
            i <= v@.len(),
            !done ==> starts_component(v@, i as int),
            done ==> i == v@.len(),
            forall|k: int|
                #[trigger] starts_component(v@, k) && (k < i || (done && k <= i)) ==> component_at(
                    v@,
                    k,
                ) != ".."@,
            normal == exists|k: int|
                #[trigger] starts_component(v@, k) && (k < i || (done && k <= i)) && is_normal(
                    component_at(v@, k),
                ),
        decreases v@.len() - i, (if done { 0int } else { 1int }),
    {
        let start: usize = i;
        let mut end: usize = i;
        while end < v.len() && v[end] != '/'
            invariant
                start <= end <= v@.len(),
                forall|k: int| start <= k < end ==> v@[k] != '/',
            decreases v@.len() - end,
        {
            end = end + 1;
        }
        let ghost c = component_at(v@, start as int);
        proof {
            let rest = v@.subrange(start as int, v@.len() as int);
            lemma_before_char(rest, '/', end - start);
            assert(c =~= v@.subrange(start as int, end as int));
            assert forall|k: int| start < k <= end implies !#[trigger] starts_component(v@, k) by {
                assert(v@[k - 1] != '/');
            }
        }
        let n: usize = end - start;
        let dots = (n == 1 && v[start] == '.') || (n == 2 && v[start] == '.' && v[start + 1]
            == '.');
        let up = n == 2 && v[start] == '.' && v[start + 1] == '.';
        proof {
            assert(up == (c == ".."@)) by {
                if up {
                    assert(c =~= ".."@);
                }
            }
            assert((n == 1 && v@[start as int] == '.') == (c == "."@)) by {
                if n == 1 && v@[start as int] == '.' {
                    assert(c =~= "."@);
                }
            }
            assert(is_normal(c) == (n > 0 && !dots));
        }
        if up {
            assert(starts_component(v@, start as int));
            return false;
        }
        let ghost before = normal;
        if n > 0 && !dots {
            normal = true;
        }
        if end < v.len() {
            i = end + 1;
            proof {
                assert(starts_component(v@, i as int));
                assert(starts_component(v@, start as int));
                assert(normal == exists|k: int|
                    #[trigger] starts_component(v@, k) && k < i && is_normal(
                        component_at(v@, k),
                    )) by {
                    if before {
                        let k = choose|k: int|
                            #[trigger] starts_component(v@, k) && k < start && is_normal(
                                component_at(v@, k),
                            );
                        assert(starts_component(v@, k) && k < i && is_normal(component_at(v@, k)));
                    }
                }
            }
        } else {
            i = end;
            done = true;
            proof {
                assert(starts_component(v@, start as int));
                assert(normal == exists|k: int|
                    #[trigger] starts_component(v@, k) && k <= i && is_normal(
                        component_at(v@, k),
                    )) by {
                    if before {
                        let k = choose|k: int|
                            #[trigger] starts_component(v@, k) && k < start && is_normal(
                                component_at(v@, k),
                            );
                        assert(starts_component(v@, k) && k <= i && is_normal(component_at(v@, k)));
                    }
                }
            }
        }
    }
    normal
}

// ---------------------------------------------------------------------------
// Handles
// ---------------------------------------------------------------------------

/// Number of characters of a short alias.
pub const SHORT_ALIAS_LEN: usize = 8;

/// The session under which globally visible content is listed.
pub const GLOBAL_SESSION_ID: &'static str = "__global__";

/// The handle of some bytes.
pub open spec fn handle_of(content: Seq<u8>) -> Seq<char> {
    "sha256:"@ + digest::hex_text(digest::sha256(content))
}

/// A text has the form of a handle: the prefix and 64 hexadecimal digits.
pub open spec fn is_handle(h: Seq<char>) -> bool {
    &&& text::begins_with(h, "sha256:"@)
    &&& h.len() == "sha256:"@.len() + 64
    &&& forall|i: int| "sha256:"@.len() <= i < h.len() ==> is_hex_digit(#[trigger] h[i])
}

/// A handle without its prefix, where it has the prefix.
pub open spec fn bare_hash(handle: Seq<char>) -> Option<Seq<char>> {
    if text::begins_with(handle, "sha256:"@) {
        Some(handle.subrange("sha256:"@.len() as int, handle.len() as int))
    } else {
        None
    }
}

/// The prefix of `s` that takes exactly `n` bytes, where there is one.
pub open spec fn byte_prefix(s: Seq<char>, n: nat) -> Option<Seq<char>> {
    let p = s.subrange(0, text::fitting(s, n) as int);
    if text::byte_len(p) == n {
        Some(p)
    } else {
        None
    }
}

/// The short alias of a handle: the first eight bytes behind its prefix; the
/// whole handle where it has no such part.
pub open spec fn short_alias(handle: Seq<char>) -> Seq<char> {
    match bare_hash(handle) {
        Some(h) => match byte_prefix(h, SHORT_ALIAS_LEN as nat) {
            Some(p) => p,
            None => handle,
        },
        None => handle,
    }
}

/// The text is a short alias: eight hexadecimal digits.
pub open spec fn is_alias(s: Seq<char>) -> bool {
    s.len() == SHORT_ALIAS_LEN && forall|i: int| 0 <= i < s.len() ==> is_hex_digit(#[trigger] s[i])
}

/// A hexadecimal digit in either case.
pub open spec fn is_hex_digit(c: char) -> bool {
    ('0' <= c && c <= '9') || ('a' <= c && c <= 'f') || ('A' <= c && c <= 'F')
}

fn is_alias_exec(s: &str) -> (r: bool)
    ensures
        r == is_alias(s@),
{
    let v = text::chars_of(s);
    if v.len() != SHORT_ALIAS_LEN {
        return false;
    }
    let mut i: usize = 0;
    while i < v.len()
        invariant
            i <= v@.len(),
            v@ == s@,
            forall|k: int| 0 <= k < i ==> is_hex_digit(#[trigger] v@[k]),
        decreases v@.len() - i,
    {
        let c: char = v[i];
        if !(('0' <= c && c <= '9') || ('a' <= c && c <= 'f') || ('A' <= c && c <= 'F')) {
            assert(!is_hex_digit(v@[i as int]));
            return false;
        }
        i = i + 1;
    }
    true
}

/// Handles of different content that digest alike are the same; of content
/// whose digests differ they differ.
pub proof fn handles_tell_digests_apart(a: Seq<u8>, b: Seq<u8>)
    ensures
        handle_of(a) == handle_of(b) <==> digest::sha256(a) == digest::sha256(b),
{
    if handle_of(a) == handle_of(b) {
        let n = "sha256:"@.len() as int;
        let ha = digest::hex_text(digest::sha256(a));
        let hb = digest::hex_text(digest::sha256(b));
        assert(ha =~= handle_of(a).subrange(n, handle_of(a).len() as int));
        assert(hb =~= handle_of(b).subrange(n, handle_of(b).len() as int));
        digest::lemma_hex_injective(digest::sha256(a), digest::sha256(b));
    }
}

/// Why content was not found.
#[derive(Debug)]
pub enum ContentError {
    Missing { handle: String },
    NotText { handle: String },
    NameNotFound { name: String, session_id: String },
    NameNotVisible { name: String, session_id: String },
    AliasNotVisible { alias: String, session_id: String },
    HandleNotVisible { handle: String, session_id: String },
    UnsafeSession { session_id: String },
}

/// An error in words.
pub open spec fn error_text(e: ContentError) -> Seq<char> {
    match e {
        ContentError::Missing { handle } => "Content not found: "@ + handle@,
        ContentError::NotText { handle } => "Content is not valid UTF-8: "@ + handle@,
        ContentError::NameNotFound { name, session_id } => "Content name '"@ + name@
            + "' not found in session '"@ + session_id@ + "'"@,
        ContentError::NameNotVisible { name, session_id } => "Content name '"@ + name@
            + "' not found in session '"@ + session_id@ + "', root session, or siblings"@,
        ContentError::AliasNotVisible { alias, session_id } => "Content alias '"@ + alias@
            + "' not found in session '"@ + session_id@ + "', root session, or global"@,
        ContentError::HandleNotVisible { handle, session_id } => "Content handle '"@ + handle@
            + "' is not visible in session '"@ + session_id@ + "' or its root session"@,
        ContentError::UnsafeSession { session_id } => "unsafe session_id for live projection: "@
            + text::quoted_text(session_id@),
    }
}

impl ContentError {
    /// The error in words.
    pub fn message(&self) -> (r: String)
        ensures
            r@ == error_text(*self),
    {
        if let ContentError::UnsafeSession { session_id } = self {
            let mut s = "unsafe session_id for live projection: ".to_owned();
            s.append(text::quoted(session_id.as_str()).as_str());
            return s;
        }
        let (a, b, c, d, e) = match self {
            ContentError::Missing { handle } => ("Content not found: ", handle.as_str(), "", "", ""),
            ContentError::NotText { handle } => (
                "Content is not valid UTF-8: ",
                handle.as_str(),
                "",
                "",
                "",
            ),
            ContentError::NameNotFound { name, session_id } => (
                "Content name '",
                name.as_str(),
                "' not found in session '",
                session_id.as_str(),
                "'",
            ),
            ContentError::NameNotVisible { name, session_id } => (
                "Content name '",
                name.as_str(),
                "' not found in session '",
                session_id.as_str(),
                "', root session, or siblings",
            ),
            ContentError::AliasNotVisible { alias, session_id } => (
                "Content alias '",
                alias.as_str(),
                "' not found in session '",
                session_id.as_str(),
                "', root session, or global",
            ),
            ContentError::HandleNotVisible { handle, session_id } => (
                "Content handle '",
                handle.as_str(),
                "' is not visible in session '",
                session_id.as_str(),
                "' or its root session",
            ),
            ContentError::UnsafeSession { session_id } => (
                "unsafe session_id for live projection: ",
                session_id.as_str(),
                "",
                "",
                "",
            ),
        };
        proof {
            reveal_strlit("");
        }
        let mut s = a.to_owned();
        s.append(b);
        s.append(c);
        s.append(d);
        s.append(e);
        assert(s@ =~= error_text(*self));
        s
    }
}

// ---------------------------------------------------------------------------
// The store
// ---------------------------------------------------------------------------

/// What a session calls its content.
pub struct SessionManifest {
    /// Handles by name.
    pub names: TextMap<String>,
    /// Handles by short alias.
    pub aliases: TextMap<String>,
    /// The root session, where it is known.
    pub root_session_id: Option<String>,
    /// Visibility by handle.
    pub visibility: TextMap<ContentVisibility>,
}

impl Default for SessionManifest {
    fn default() -> (r: SessionManifest)
        ensures
            r.names@ == Map::<Seq<char>, String>::empty(),
            r.aliases@ == Map::<Seq<char>, String>::empty(),
            r.root_session_id is None,
            r.visibility@ == Map::<Seq<char>, ContentVisibility>::empty(),
    {
        SessionManifest {
            names: TextMap::new(),
            aliases: TextMap::new(),
            root_session_id: None,
            visibility: TextMap::new(),
        }
    }
}

/// Content, and the manifests of the sessions that are loaded. A session whose
/// manifest is not there has an empty one.
pub struct ContentStore {
    /// Content by handle.
    pub blobs: TextMap<Vec<u8>>,
    /// Manifests by session.
    pub manifests: TextMap<SessionManifest>,
}

/// The handles that a session knows by name.
pub open spec fn names_of(s: ContentStore, session: Seq<char>) -> Map<Seq<char>, String> {
    if s.manifests@.dom().contains(session) {
        s.manifests@[session].names@
    } else {
        Map::empty()
    }
}

/// The handles that a session knows by alias.
pub open spec fn aliases_of(s: ContentStore, session: Seq<char>) -> Map<Seq<char>, String> {
    if s.manifests@.dom().contains(session) {
        s.manifests@[session].aliases@
    } else {
        Map::empty()
    }
}

/// The root of a session, where it is known.
pub open spec fn root_of(s: ContentStore, session: Seq<char>) -> Option<Seq<char>> {
    if s.manifests@.dom().contains(session) {
        s.manifests@[session].root_session_id.deep_view()
    } else {
        None
    }
}

/// The visibility of the content that a session registered.
pub open spec fn visibility_of(s: ContentStore, session: Seq<char>) -> Map<
    Seq<char>,
    ContentVisibility,
> {
    if s.manifests@.dom().contains(session) {
        s.manifests@[session].visibility@
    } else {
        Map::empty()
    }
}

/// Two stores agree on a session.
pub open spec fn same_session(a: ContentStore, b: ContentStore, session: Seq<char>) -> bool {
    &&& names_of(a, session) == names_of(b, session)
    &&& aliases_of(a, session) == aliases_of(b, session)
    &&& root_of(a, session) == root_of(b, session)
    &&& visibility_of(a, session) == visibility_of(b, session)
}

/// `b` is `a` with a name registered in a session.
pub open spec fn registered(
    a: ContentStore,
    b: ContentStore,
    session: Seq<char>,
    name: Seq<char>,
    handle: String,
) -> bool {
    &&& b.blobs@ == a.blobs@
    &&& names_of(b, session) == names_of(a, session).insert(name, handle)
    &&& aliases_of(b, session) == aliases_of(a, session).insert(short_alias(handle@), handle)
    &&& root_of(b, session) == root_of(a, session)
    &&& visibility_of(b, session) == visibility_of(a, session)
    &&& forall|s: Seq<char>| s != session ==> #[trigger] same_session(a, b, s)
}

/// The root under which a session's content is shared: a root other than itself.
pub open spec fn shared_root(s: ContentStore, session: Seq<char>) -> Option<Seq<char>> {
    match root_of(s, session) {
        Some(r) => if r != session {
            Some(r)
        } else {
            None
        },
        None => None,
    }
}

/// `b` is `a` with some content stored. What is there already stays as it is.
pub open spec fn stored(a: ContentStore, b: ContentStore, content: Seq<u8>) -> bool {
    let h = handle_of(content);
    &&& b.manifests@ == a.manifests@
    &&& a.blobs@.dom().contains(h) ==> b.blobs@ == a.blobs@
    &&& !a.blobs@.dom().contains(h) ==> {
        &&& b.blobs@.dom() == a.blobs@.dom().insert(h)
        &&& b.blobs@[h]@ == content
        &&& forall|k: Seq<char>| #[trigger]
            a.blobs@.dom().contains(k) ==> b.blobs@[k] == a.blobs@[k]
    }
}

/// All content stands under its own handle.
pub open spec fn intact(s: ContentStore) -> bool {
    forall|h: Seq<char>| #[trigger]
        s.blobs@.dom().contains(h) ==> h == handle_of(s.blobs@[h]@)
}

/// The sessions in which content of a visibility is registered.
pub open spec fn reaches(
    a: ContentStore,
    session: Seq<char>,
    visibility: ContentVisibility,
    s: Seq<char>,
) -> bool {
    s == session || (visibility != ContentVisibility::Private && shared_root(a, session) == Some(s))
        || (visibility == ContentVisibility::Global && s == GLOBAL_SESSION_ID@)
}

/// `b` is `a` with content of a visibility registered: in the session; unless it
/// is private, in the session's root as well; and where it is global, in the
/// global manifest too.
pub open spec fn registered_as(
    a: ContentStore,
    b: ContentStore,
    session: Seq<char>,
    name: Seq<char>,
    handle: String,
    visibility: ContentVisibility,
) -> bool {
    &&& b.blobs@ == a.blobs@
    &&& visibility_of(b, session) == visibility_of(a, session).insert(handle@, visibility)
    &&& forall|s: Seq<char>|
        #![trigger names_of(b, s)]
        names_of(b, s) == (if reaches(a, session, visibility, s) {
            names_of(a, s).insert(name, handle)
        } else {
            names_of(a, s)
        })
    &&& forall|s: Seq<char>|
        #![trigger aliases_of(b, s)]
        aliases_of(b, s) == (if reaches(a, session, visibility, s) {
            aliases_of(a, s).insert(short_alias(handle@), handle)
        } else {
            aliases_of(a, s)
        })
    &&& forall|s: Seq<char>| #[trigger] root_of(b, s) == root_of(a, s)
    &&& forall|s: Seq<char>|
        s != session ==> #[trigger] visibility_of(b, s) == visibility_of(a, s)
}

/// The first of `sessions` that knows `name`, leaving out the root and the caller.
pub open spec fn sibling_handle(
    s: ContentStore,
    sessions: Seq<Seq<char>>,
    root: Seq<char>,
    caller: Seq<char>,
    name: Seq<char>,
) -> Option<Seq<char>>
    decreases sessions.len(),
{
    if sessions.len() == 0 {
        None
    } else {
        let c = sessions[0];
        if c.len() > 0 && c != root && c != caller && names_of(s, c).dom().contains(name) {
            Some(names_of(s, c)[name]@)
        } else {
            sibling_handle(s, sessions.subrange(1, sessions.len() as int), root, caller, name)
        }
    }
}

/// The handle that a name stands for: the session's own, that of its root, that
/// of a sibling, and at last the global one.
pub open spec fn resolved_name(
    s: ContentStore,
    session: Seq<char>,
    name: Seq<char>,
    siblings: Seq<Seq<char>>,
) -> Option<Seq<char>> {
    let global = if session != GLOBAL_SESSION_ID@ && names_of(
        s,
        GLOBAL_SESSION_ID@,
    ).dom().contains(name) {
        Some(names_of(s, GLOBAL_SESSION_ID@)[name]@)
    } else {
        None
    };
    if names_of(s, session).dom().contains(name) {
        Some(names_of(s, session)[name]@)
    } else {
        match shared_root(s, session) {
            Some(root) => if names_of(s, root).dom().contains(name) {
                Some(names_of(s, root)[name]@)
            } else {
                match sibling_handle(s, siblings, root, session, name) {
                    Some(h) => Some(h),
                    None => global,
                }
            },
            None => global,
        }
    }
}

/// The handle that an alias stands for: the session's own, that of its root,
/// and at last the global one.
pub open spec fn resolved_alias(s: ContentStore, session: Seq<char>, alias: Seq<char>) -> Option<
    Seq<char>,
> {
    let global = if session != GLOBAL_SESSION_ID@ && aliases_of(
        s,
        GLOBAL_SESSION_ID@,
    ).dom().contains(alias) {
        Some(aliases_of(s, GLOBAL_SESSION_ID@)[alias]@)
    } else {
        None
    };
    if aliases_of(s, session).dom().contains(alias) {
        Some(aliases_of(s, session)[alias]@)
    } else {
        match shared_root(s, session) {
            Some(root) => if aliases_of(s, root).dom().contains(alias) {
                Some(aliases_of(s, root)[alias]@)
            } else {
                global
            },
            None => global,
        }
    }
}

/// One of the values is `handle`.
pub open spec fn has_value(m: Map<Seq<char>, String>, handle: Seq<char>) -> bool {
    exists|k: Seq<char>| #[trigger] m.dom().contains(k) && m[k]@ == handle
}

/// A session knows a handle, by a name or by an alias.
pub open spec fn knows_handle(s: ContentStore, session: Seq<char>, handle: Seq<char>) -> bool {
    has_value(names_of(s, session), handle) || has_value(aliases_of(s, session), handle)
}

/// A session sees a handle: it, its root or the global manifest knows it.
pub open spec fn sees_handle(s: ContentStore, session: Seq<char>, handle: Seq<char>) -> bool {
    knows_handle(s, session, handle) || (shared_root(s, session) is Some && knows_handle(
        s,
        shared_root(s, session)->Some_0,
        handle,
    )) || (session != GLOBAL_SESSION_ID@ && knows_handle(s, GLOBAL_SESSION_ID@, handle))
}

/// The names under which a session sees a handle.
pub open spec fn names_for(s: ContentStore, session: Seq<char>, handle: Seq<char>) -> Set<Seq<char>> {
    Set::new(
        |n: Seq<char>|
            names_handle(s, session, n, handle) || (shared_root(s, session) is Some
                && names_handle(s, shared_root(s, session)->Some_0, n, handle)) || (session
                != GLOBAL_SESSION_ID@ && names_handle(s, GLOBAL_SESSION_ID@, n, handle)),
    )
}

/// A session calls a handle `name`.
pub open spec fn names_handle(
    s: ContentStore,
    session: Seq<char>,
    name: Seq<char>,
    handle: Seq<char>,
) -> bool {
    names_of(s, session).dom().contains(name) && names_of(s, session)[name]@ == handle
}

/// The alias that a reference is, where it is one: behind `cnt_`, `cnt:` or
/// `sha256:`, or bare.
pub open spec fn alias_in(r: Seq<char>) -> Option<Seq<char>> {
    if text::begins_with(r, "cnt_"@) && is_alias(r.subrange(4, r.len() as int)) {
        Some(r.subrange(4, r.len() as int))
    } else if text::begins_with(r, "cnt:"@) && is_alias(r.subrange(4, r.len() as int)) {
        Some(r.subrange(4, r.len() as int))
    } else if text::begins_with(r, "sha256:"@) {
        if is_alias(r.subrange(7, r.len() as int)) {
            Some(r.subrange(7, r.len() as int))
        } else {
            None
        }
    } else if is_alias(r) {
        Some(r)
    } else {
        None
    }
}

/// The handle that a reference stands for: an alias, a full handle that the
/// session sees, or a name.
pub open spec fn resolved_reference(
    s: ContentStore,
    session: Seq<char>,
    reference: Seq<char>,
    siblings: Seq<Seq<char>>,
) -> Option<Seq<char>> {
    let r = text::trim(reference);
    match alias_in(r) {
        Some(alias) => resolved_alias(s, session, alias),
        None => if text::begins_with(r, "sha256:"@) {
            if sees_handle(s, session, r) {
                Some(r)
            } else {
                None
            }
        } else {
            resolved_name(s, session, r, siblings)
        },
    }
}

/// The error for a reference that stands for nothing a session sees.
pub open spec fn refuses_reference(
    e: ContentError,
    session: Seq<char>,
    reference: Seq<char>,
) -> bool {
    let r = text::trim(reference);
    match alias_in(r) {
        Some(a) => (e matches ContentError::AliasNotVisible { alias, session_id } && alias@ == a
            && session_id@ == session),
        None => if text::begins_with(r, "sha256:"@) {
            (e matches ContentError::HandleNotVisible { handle, session_id } && handle@ == r
                && session_id@ == session)
        } else {
            (e matches ContentError::NameNotVisible { name, session_id } && name@ == r
                && session_id@ == session)
        },
    }
}

/// A name with its handle.
#[derive(Debug)]
pub struct NamedHandle {
    pub name: String,
    pub handle: String,
}

impl ContentStore {
    /// An empty store.
    pub fn new() -> (r: ContentStore)
        ensures
            r.blobs@ == Map::<Seq<char>, Vec<u8>>::empty(),
            r.manifests@ == Map::<Seq<char>, SessionManifest>::empty(),
    {
        ContentStore { blobs: TextMap::new(), manifests: TextMap::new() }
    }

    /// The handle of some bytes.
    pub fn compute_handle(content: &[u8]) -> (r: String)
        ensures
            r@ == handle_of(content@),
            is_handle(r@),
    {
        let mut s = "sha256:".to_owned();
        s.append(digest::hex_of(digest::sha256_of(content).as_slice()).as_str());
        proof {
            lemma_handle(content@);
        }
        s
    }

    /// The short alias of a handle.
    pub fn handle_to_short_alias(handle: &str) -> (r: String)
        ensures
            r@ == short_alias(handle@),
    {
        match text::strip_prefix(handle, "sha256:") {
            Some(h) => {
                let v = text::chars_of(h.as_str());
                let k = text::fitting_count(&v, SHORT_ALIAS_LEN);
                let p = text::string_of(&v, 0, k);
                if text::byte_count(p.as_str()) == SHORT_ALIAS_LEN {
                    p
                } else {
                    handle.to_owned()
                }
            },
            None => handle.to_owned(),
        }
    }

    /// The short alias of a handle.
    pub fn get_short_alias(handle: &str) -> (r: String)
        ensures
            r@ == short_alias(handle@),
    {
        ContentStore::handle_to_short_alias(handle)
    }

    /// The directory and the file that content is kept in: the first two bytes
    /// of the hash, and the rest. There are none for a hash without two such bytes.
    pub fn blob_path(handle: &str) -> (r: Option<(String, String)>)
        ensures
            ({
                let h = match bare_hash(handle@) {
                    Some(h) => h,
                    None => handle@,
                };
                match r {
                    Some(p) => byte_prefix(h, 2) == Some(p.0@) && h == p.0@ + p.1@,
                    None => byte_prefix(h, 2) is None,
                }
            }),
    {
        let h = match text::strip_prefix(handle, "sha256:") {
            Some(h) => h,
            None => handle.to_owned(),
        };
        let v = text::chars_of(h.as_str());
        let k = text::fitting_count(&v, 2);
        let a = text::string_of(&v, 0, k);
        if text::byte_count(a.as_str()) != 2 {
            return None;
        }
        let b = text::string_of(&v, k, v.len());
        assert(h@ =~= a@ + b@);
        Some((a, b))
    }

    /// Stores content and returns its handle. Content that is there already
    /// stays as it is.
    pub fn write(&mut self, content: &[u8]) -> (r: String)
        ensures
            r@ == handle_of(content@),
            is_handle(r@),
            stored(*old(self), *final(self), content@),
    {
        let handle = ContentStore::compute_handle(content);
        if !self.blobs.contains_key(handle.as_str()) {
            let mut copy: Vec<u8> = Vec::new();
            digest::append_bytes(&mut copy, content);
            assert(copy@ =~= content@);
            self.blobs.insert(handle.as_str(), copy);
            assert(self.blobs@.dom() =~= old(self).blobs@.dom().insert(handle@));
        }
        handle
    }

    /// Whether content is stored under a handle.
    pub fn is_stored(&self, handle: &str) -> (r: bool)
        ensures
            r == self.blobs@.dom().contains(handle@),
    {
        self.blobs.contains_key(handle)
    }

    /// The content under a handle.
    pub fn read(&self, handle: &str) -> (r: Result<&Vec<u8>, ContentError>)
        ensures
            match r {
                Ok(v) => self.blobs@.dom().contains(handle@) && *v == self.blobs@[handle@],
                Err(e) => !self.blobs@.dom().contains(handle@) && (e matches ContentError::Missing {
                    handle: h,
                } && h@ == handle@),
            },
    {
        match self.blobs.get(handle) {
            Some(v) => Ok(v),
            None => Err(ContentError::Missing { handle: handle.to_owned() }),
        }
    }

    /// The content under a handle as text.
    pub fn read_string(&self, handle: &str) -> (r: Result<String, ContentError>)
        ensures
            match r {
                Ok(s) => self.blobs@.dom().contains(handle@) && vstd::utf8::valid_utf8(
                    self.blobs@[handle@]@,
                ) && s@ == vstd::utf8::decode_utf8(self.blobs@[handle@]@),
                Err(ContentError::Missing { .. }) => !self.blobs@.dom().contains(handle@),
                Err(ContentError::NotText { .. }) => self.blobs@.dom().contains(handle@)
                    && !vstd::utf8::valid_utf8(self.blobs@[handle@]@),
                Err(_) => false,
            },
    {
        match self.read(handle) {
            Ok(v) => match text::utf8_text(v.as_slice()) {
                Some(s) => Ok(s),
                None => Err(ContentError::NotText { handle: handle.to_owned() }),
            },
            Err(e) => Err(e),
        }
    }

    /// The manifest of a session, where it has one.
    pub fn load_manifest(&self, session_id: &str) -> (r: Option<&SessionManifest>)
        ensures
            match r {
                Some(m) => self.manifests@.dom().contains(session_id@) && *m
                    == self.manifests@[session_id@],
                None => !self.manifests@.dom().contains(session_id@),
            },
    {
        self.manifests.get(session_id)
    }

    fn take_manifest(&mut self, session_id: &str) -> (r: SessionManifest)
        ensures
            final(self).blobs@ == old(self).blobs@,
            final(self).manifests@ == old(self).manifests@.remove(session_id@),
            r.names@ == names_of(*old(self), session_id@),
            r.aliases@ == aliases_of(*old(self), session_id@),
            r.root_session_id.deep_view() == root_of(*old(self), session_id@),
            r.visibility@ == visibility_of(*old(self), session_id@),
    {
        match self.manifests.remove(session_id) {
            Some(m) => m,
            None => SessionManifest::default(),
        }
    }

    /// Registers a name, and the short alias of its handle, in a session.
    pub fn register_name(&mut self, session_id: &str, name: &str, handle: &String)
        ensures
            registered(*old(self), *final(self), session_id@, name@, *handle),
    {
        let mut m = self.take_manifest(session_id);
        m.names.insert(name, handle.clone());
        let alias = ContentStore::handle_to_short_alias(handle.as_str());
        m.aliases.insert(alias.as_str(), handle.clone());
        self.manifests.insert(session_id, m);
        assert forall|s: Seq<char>| s != session_id@ implies #[trigger] same_session(
            *old(self),
            *self,
            s,
        ) by {}
    }

    /// Sets the root under which a session's content is shared.
    pub fn set_root_session(&mut self, session_id: &str, root: &str)
        ensures
            final(self).blobs@ == old(self).blobs@,
            root_of(*final(self), session_id@) == Some(root@),
            names_of(*final(self), session_id@) == names_of(*old(self), session_id@),
            aliases_of(*final(self), session_id@) == aliases_of(*old(self), session_id@),
            visibility_of(*final(self), session_id@) == visibility_of(*old(self), session_id@),
            forall|s: Seq<char>|
                s != session_id@ ==> #[trigger] same_session(*old(self), *final(self), s),
    {
        let mut m = self.take_manifest(session_id);
        m.root_session_id = Some(root.to_owned());
        self.manifests.insert(session_id, m);
        assert forall|s: Seq<char>| s != session_id@ implies #[trigger] same_session(
            *old(self),
            *self,
            s,
        ) by {}
    }

    fn set_visibility(&mut self, session_id: &str, handle: &str, visibility: ContentVisibility)
        ensures
            final(self).blobs@ == old(self).blobs@,
            visibility_of(*final(self), session_id@) == visibility_of(
                *old(self),
                session_id@,
            ).insert(handle@, visibility),
            names_of(*final(self), session_id@) == names_of(*old(self), session_id@),
            aliases_of(*final(self), session_id@) == aliases_of(*old(self), session_id@),
            root_of(*final(self), session_id@) == root_of(*old(self), session_id@),
            forall|s: Seq<char>|
                s != session_id@ ==> #[trigger] same_session(*old(self), *final(self), s),
    {
        let mut m = self.take_manifest(session_id);
        m.visibility.insert(handle, visibility);
        self.manifests.insert(session_id, m);
        assert forall|s: Seq<char>| s != session_id@ implies #[trigger] same_session(
            *old(self),
            *self,
            s,
        ) by {}
    }

    /// Registers content in the session; unless it is private, in the session's
    /// root as well; and where it is global, in the global manifest too.
    pub fn register_name_with_visibility(
        &mut self,
        session_id: &str,
        name: &str,
        handle: &String,
        visibility: ContentVisibility,
    )
        ensures
            registered_as(*old(self), *final(self), session_id@, name@, *handle, visibility),
    {
        let ghost s0 = *self;
        self.register_name(session_id, name, handle);
        let ghost s1 = *self;
        self.set_visibility(session_id, handle.as_str(), visibility);
        let ghost s2 = *self;
        let root: Option<String> = match self.manifests.get(session_id) {
            Some(m) => text::clone_opt(&m.root_session_id),
            None => None,
        };
        proof {
            assert(root.deep_view() == root_of(s2, session_id@));
            assert forall|s: Seq<char>| s != session_id@ implies same_session(s0, s2, s) by {
                assert(same_session(s0, s1, s));
                assert(same_session(s1, s2, s));
            }
        }
        let ghost mut s3 = s2;
        if visibility != ContentVisibility::Private {
            if let Some(r) = &root {
                if !text::text_eq(r.as_str(), session_id) {
                    self.register_name(r.as_str(), name, handle);
                    proof {
                        s3 = *self;
                        assert forall|s: Seq<char>| s != r@ implies same_session(s2, s3, s) by {}
                    }
                }
            }
            if visibility == ContentVisibility::Global {
                self.register_name(GLOBAL_SESSION_ID, name, handle);
                proof {
                    assert forall|s: Seq<char>| s != GLOBAL_SESSION_ID@ implies same_session(
                        s3,
                        *self,
                        s,
                    ) by {}
                }
            }
        }
        proof {
            let g = GLOBAL_SESSION_ID@;
            let fin = *self;
            assert(shared_root(s0, session_id@) == shared_root(s2, session_id@));
            let shared = shared_root(s0, session_id@);
            assert(same_session(s2, s3, session_id@));
            assert(session_id@ != g ==> visibility != ContentVisibility::Global || same_session(
                s3,
                fin,
                session_id@,
            ));
            assert(visibility_of(fin, session_id@) == visibility_of(s2, session_id@));
            assert forall|s: Seq<char>|
                #![trigger names_of(fin, s)]
                names_of(fin, s) == (if reaches(s0, session_id@, visibility, s) {
                    names_of(s0, s).insert(name@, *handle)
                } else {
                    names_of(s0, s)
                }) && aliases_of(fin, s) == (if reaches(s0, session_id@, visibility, s) {
                    aliases_of(s0, s).insert(short_alias(handle@), *handle)
                } else {
                    aliases_of(s0, s)
                }) && root_of(fin, s) == root_of(s0, s) && (s != session_id@ ==> visibility_of(
                    fin,
                    s,
                ) == visibility_of(s0, s)) by {
                if s != session_id@ {
                    assert(same_session(s0, s2, s));
                }
                if visibility != ContentVisibility::Private && shared != Some(s) {
                    assert(same_session(s2, s3, s));
                }
                if visibility == ContentVisibility::Global && s != g {
                    assert(same_session(s3, fin, s));
                }
                let m = names_of(s0, s);
                assert(m.insert(name@, *handle).insert(name@, *handle) =~= m.insert(
                    name@,
                    *handle,
                ));
                let al = aliases_of(s0, s);
                let key = short_alias(handle@);
                assert(al.insert(key, *handle).insert(key, *handle) =~= al.insert(key, *handle));
            }
            assert forall|s: Seq<char>| #[trigger] aliases_of(fin, s) == (if reaches(
                s0,
                session_id@,
                visibility,
                s,
            ) {
                aliases_of(s0, s).insert(short_alias(handle@), *handle)
            } else {
                aliases_of(s0, s)
            }) by {
                assert(names_of(fin, s) == names_of(fin, s));
            }
            assert forall|s: Seq<char>| #[trigger] root_of(fin, s) == root_of(s0, s) by {
                assert(names_of(fin, s) == names_of(fin, s));
            }
            assert forall|s: Seq<char>| s != session_id@ implies #[trigger] visibility_of(fin, s)
                == visibility_of(s0, s) by {
                assert(names_of(fin, s) == names_of(fin, s));
            }
        }
    }

    fn name_in(&self, session_id: &str, name: &str) -> (r: Option<String>)
        ensures
            match r {
                Some(h) => names_of(*self, session_id@).dom().contains(name@) && h == names_of(
                    *self,
                    session_id@,
                )[name@],
                None => !names_of(*self, session_id@).dom().contains(name@),
            },
    {
        match self.manifests.get(session_id) {
            Some(m) => match m.names.get(name) {
                Some(h) => Some(h.clone()),
                None => None,
            },
            None => None,
        }
    }

    fn alias_in_session(&self, session_id: &str, alias: &str) -> (r: Option<String>)
        ensures
            match r {
                Some(h) => aliases_of(*self, session_id@).dom().contains(alias@) && h == aliases_of(
                    *self,
                    session_id@,
                )[alias@],
                None => !aliases_of(*self, session_id@).dom().contains(alias@),
            },
    {
        match self.manifests.get(session_id) {
            Some(m) => match m.aliases.get(alias) {
                Some(h) => Some(h.clone()),
                None => None,
            },
            None => None,
        }
    }

    fn other_root(&self, session_id: &str) -> (r: Option<String>)
        ensures
            r.deep_view() == shared_root(*self, session_id@),
    {
        match self.manifests.get(session_id) {
            Some(m) => match &m.root_session_id {
                Some(r) => if text::text_eq(r.as_str(), session_id) {
                    None
                } else {
                    Some(r.clone())
                },
                None => None,
            },
            None => None,
        }
    }

    /// The handle that a name stands for in a session itself.
    pub fn resolve_name(&self, session_id: &str, name: &str) -> (r: Result<String, ContentError>)
        ensures
            match r {
                Ok(h) => names_of(*self, session_id@).dom().contains(name@) && h == names_of(
                    *self,
                    session_id@,
                )[name@],
                Err(e) => !names_of(*self, session_id@).dom().contains(name@)
                    && (e matches ContentError::NameNotFound { name: n, session_id: s } && n@
                    == name@ && s@ == session_id@),
            },
    {
        match self.name_in(session_id, name) {
            Some(h) => Ok(h),
            None => Err(
                ContentError::NameNotFound {
                    name: name.to_owned(),
                    session_id: session_id.to_owned(),
                },
            ),
        }
    }

    /// The handle that a name stands for in one of the sibling sessions.
    pub fn resolve_name_in_sibling_sessions(
        &self,
        siblings: &Vec<String>,
        root_id: &str,
        name: &str,
        caller_id: &str,
    ) -> (r: Option<String>)
        ensures
            r.deep_view() == sibling_handle(
                *self,
                siblings.deep_view(),
                root_id@,
                caller_id@,
                name@,
            ),
    {
        let ghost all = siblings.deep_view();
        let mut i: usize = 0;
        assert(all.subrange(0, all.len() as int) =~= all);
        while i < siblings.len()
            invariant
                i <= siblings@.len(),
                all == siblings.deep_view(),
                sibling_handle(*self, all, root_id@, caller_id@, name@) == sibling_handle(
                    *self,
                    all.subrange(i as int, all.len() as int),
                    root_id@,
                    caller_id@,
                    name@,
                ),
            decreases siblings@.len() - i,
        {
            proof {
                let rest = all.subrange(i as int, all.len() as int);
                assert(rest[0] == siblings@[i as int]@);
                assert(rest.subrange(1, rest.len() as int) =~= all.subrange(
                    i + 1,
                    all.len() as int,
                ));
            }
            let c = siblings[i].as_str();
            if text::chars_of(c).len() > 0 && !text::text_eq(c, root_id) && !text::text_eq(
                c,
                caller_id,
            ) {
                if let Some(h) = self.name_in(c, name) {
                    return Some(h);
                }
            }
            i = i + 1;
        }
        None
    }

    /// The handle that a name stands for, for a session that shares content
    /// with its root and its siblings. `siblings` are the sessions below the root.
    pub fn resolve_name_with_root(&self, session_id: &str, name: &str, siblings: &Vec<String>) -> (r:
        Result<String, ContentError>)
        ensures
            match r {
                Ok(h) => resolved_name(*self, session_id@, name@, siblings.deep_view()) == Some(h@),
                Err(e) => resolved_name(*self, session_id@, name@, siblings.deep_view()) is None
                    && (e matches ContentError::NameNotVisible { name: n, session_id: s } && n@
                    == name@ && s@ == session_id@),
            },
    {
        if let Some(h) = self.name_in(session_id, name) {
            return Ok(h);
        }
        if let Some(root) = self.other_root(session_id) {
            if let Some(h) = self.name_in(root.as_str(), name) {
                return Ok(h);
            }
            if let Some(h) = self.resolve_name_in_sibling_sessions(
                siblings,
                root.as_str(),
                name,
                session_id,
            ) {
                return Ok(h);
            }
        }
        if !text::text_eq(session_id, GLOBAL_SESSION_ID) {
            if let Some(h) = self.name_in(GLOBAL_SESSION_ID, name) {
                return Ok(h);
            }
        }
        Err(
            ContentError::NameNotVisible {
                name: name.to_owned(),
                session_id: session_id.to_owned(),
            },
        )
    }

    /// The handle that an alias stands for, for a session that shares content
    /// with its root.
    pub fn resolve_alias_with_root(&self, session_id: &str, alias: &str) -> (r: Result<
        String,
        ContentError,
    >)
        ensures
            match r {
                Ok(h) => resolved_alias(*self, session_id@, alias@) == Some(h@),
                Err(e) => resolved_alias(*self, session_id@, alias@) is None
                    && (e matches ContentError::AliasNotVisible { alias: a, session_id: s } && a@
                    == alias@ && s@ == session_id@),
            },
    {
        if let Some(h) = self.alias_in_session(session_id, alias) {
            return Ok(h);
        }
        if let Some(root) = self.other_root(session_id) {
            if let Some(h) = self.alias_in_session(root.as_str(), alias) {
                return Ok(h);
            }
        }
        if !text::text_eq(session_id, GLOBAL_SESSION_ID) {
            if let Some(h) = self.alias_in_session(GLOBAL_SESSION_ID, alias) {
                return Ok(h);
            }
        }
        Err(
            ContentError::AliasNotVisible {
                alias: alias.to_owned(),
                session_id: session_id.to_owned(),
            },
        )
    }

    fn knows(&self, session_id: &str, handle: &str) -> (r: bool)
        ensures
            r == knows_handle(*self, session_id@, handle@),
    {
        match self.manifests.get(session_id) {
            Some(m) => map_has(&m.names, handle) || map_has(&m.aliases, handle),
            None => false,
        }
    }

    /// Whether a session sees a handle: it, its root or the global manifest
    /// knows it by a name or by an alias.
    pub fn is_handle_visible(&self, session_id: &str, handle: &str) -> (r: bool)
        ensures
            r == sees_handle(*self, session_id@, handle@),
    {
        if self.knows(session_id, handle) {
            return true;
        }
        if let Some(root) = self.other_root(session_id) {
            if self.knows(root.as_str(), handle) {
                return true;
            }
        }
        if !text::text_eq(session_id, GLOBAL_SESSION_ID) {
            return self.knows(GLOBAL_SESSION_ID, handle);
        }
        false
    }

    /// The handle that a reference stands for: `cnt_` or `cnt:` with an alias, a
    /// full handle or an alias behind `sha256:`, a bare alias, or a name.
    pub fn resolve_name_or_handle_to_handle(
        &self,
        session_id: &str,
        name_or_handle: &str,
        siblings: &Vec<String>,
    ) -> (r: Result<String, ContentError>)
        ensures
            match r {
                Ok(h) => resolved_reference(
                    *self,
                    session_id@,
                    name_or_handle@,
                    siblings.deep_view(),
                ) == Some(h@),
                Err(e) => resolved_reference(
                    *self,
                    session_id@,
                    name_or_handle@,
                    siblings.deep_view(),
                ) is None && refuses_reference(e, session_id@, name_or_handle@),
            },
    {
        let t = text::trimmed(name_or_handle);
        proof {
            reveal_strlit("cnt_");
            reveal_strlit("cnt:");
            reveal_strlit("sha256:");
        }
        if let Some(rest) = text::strip_prefix(t.as_str(), "cnt_") {
            if is_alias_exec(rest.as_str()) {
                return self.resolve_alias_with_root(session_id, rest.as_str());
            }
        }
        if let Some(rest) = text::strip_prefix(t.as_str(), "cnt:") {
            if is_alias_exec(rest.as_str()) {
                return self.resolve_alias_with_root(session_id, rest.as_str());
            }
        }
        if let Some(rest) = text::strip_prefix(t.as_str(), "sha256:") {
            if is_alias_exec(rest.as_str()) {
                proof {
                    lemma_one_prefix(t@);
                }
                return self.resolve_alias_with_root(session_id, rest.as_str());
            }
            proof {
                lemma_one_prefix(t@);
            }
            if !self.is_handle_visible(session_id, t.as_str()) {
                return Err(
                    ContentError::HandleNotVisible {
                        handle: t,
                        session_id: session_id.to_owned(),
                    },
                );
            }
            return Ok(t);
        }
        if is_alias_exec(t.as_str()) {
            return self.resolve_alias_with_root(session_id, t.as_str());
        }
        self.resolve_name_with_root(session_id, t.as_str(), siblings)
    }

    /// The content that a name stands for in a session itself.
    pub fn read_by_name(&self, session_id: &str, name: &str) -> (r: Result<&Vec<u8>, ContentError>)
        ensures
            r is Ok <==> names_of(*self, session_id@).dom().contains(name@)
                && self.blobs@.dom().contains(names_of(*self, session_id@)[name@]@),
            r matches Ok(v) ==> *v == self.blobs@[names_of(*self, session_id@)[name@]@],
            r matches Err(e) ==> if names_of(*self, session_id@).dom().contains(name@) {
                (e matches ContentError::Missing { handle } && handle@ == names_of(
                    *self,
                    session_id@,
                )[name@]@)
            } else {
                (e matches ContentError::NameNotFound { name: n, session_id: s } && n@ == name@
                    && s@ == session_id@)
            },
    {
        match self.resolve_name(session_id, name) {
            Ok(h) => self.read(h.as_str()),
            Err(e) => Err(e),
        }
    }

    /// The content that a reference stands for.
    pub fn read_by_name_or_handle(
        &self,
        session_id: &str,
        name_or_handle: &str,
        siblings: &Vec<String>,
    ) -> (r: Result<&Vec<u8>, ContentError>)
        ensures
            ({
                let h = resolved_reference(
                    *self,
                    session_id@,
                    name_or_handle@,
                    siblings.deep_view(),
                );
                &&& r is Ok <==> h is Some && self.blobs@.dom().contains(h->Some_0)
                &&& r matches Ok(v) ==> *v == self.blobs@[h->Some_0]
                &&& r matches Err(e) ==> if h is Some {
                    (e matches ContentError::Missing { handle } && handle@ == h->Some_0)
                } else {
                    refuses_reference(e, session_id@, name_or_handle@)
                }
            }),
    {
        match self.resolve_name_or_handle_to_handle(session_id, name_or_handle, siblings) {
            Ok(h) => self.read(h.as_str()),
            Err(e) => Err(e),
        }
    }

    fn add_names(&self, session_id: &str, handle: &str, out: &mut Vec<String>)
        requires
            old(out).deep_view().no_duplicates(),
        ensures
            final(out).deep_view().no_duplicates(),
            forall|n: Seq<char>| #[trigger]
                final(out).deep_view().contains(n) <==> (old(out).deep_view().contains(n)
                    || names_handle(*self, session_id@, n, handle@)),
    {
        let m = match self.manifests.get(session_id) {
            Some(m) => m,
            None => {
                return;
            },
        };
        let ghost before = out.deep_view();
        let ghost keys = m.names.key_seq();
        let n = m.names.len();
        let mut i: usize = 0;
        while i < n
            invariant
                i <= n,
                n == keys.len(),
                keys == m.names.key_seq(),
                self.manifests@.dom().contains(session_id@),
                *m == self.manifests@[session_id@],
                out.deep_view().no_duplicates(),
                forall|t: Seq<char>| #[trigger]
                    out.deep_view().contains(t) <==> (before.contains(t) || exists|k: int|
                        0 <= k < i && #[trigger] keys[k] == t && m.names@[t]@ == handle@),
            decreases n - i,
        {
            let ghost prev = out.deep_view();
            if text::text_eq(m.names.value_at(i).as_str(), handle) {
                let name = m.names.key_at(i).clone();
                text::push_new(out, name);
            }
            proof {
                let now = out.deep_view();
                assert forall|t: Seq<char>| #[trigger] now.contains(t) <==> (before.contains(t)
                    || exists|k: int|
                    0 <= k < i + 1 && #[trigger] keys[k] == t && m.names@[t]@ == handle@) by {
                    assert(now.contains(t) <==> (prev.contains(t) || (t == keys[i as int]
                        && m.names@[t]@ == handle@)));
                    if prev.contains(t) && !before.contains(t) {
                        let k = choose|k: int|
                            0 <= k < i && #[trigger] keys[k] == t && m.names@[t]@ == handle@;
                        assert(0 <= k < i + 1 && keys[k] == t);
                    }
                }
            }
            i = i + 1;
        }
        proof {
            assert forall|t: Seq<char>| #[trigger] out.deep_view().contains(t) <==> (
            before.contains(t) || names_handle(*self, session_id@, t, handle@)) by {
                if names_handle(*self, session_id@, t, handle@) {
                    assert(keys.contains(t));
                    let k = choose|k: int| 0 <= k < keys.len() && keys[k] == t;
                    assert(0 <= k < n && keys[k] == t && m.names@[t]@ == handle@);
                }
                if out.deep_view().contains(t) && !before.contains(t) {
                    let k = choose|k: int|
                        0 <= k < n && #[trigger] keys[k] == t && m.names@[t]@ == handle@;
                    assert(keys.contains(t));
                }
            }
        }
    }

    /// The names under which a session sees a handle, each once and in
    /// ascending order.
    pub fn find_names_for_handle(&self, session_id: &str, handle: &str) -> (r: Vec<String>)
        ensures
            r.deep_view() == order::listing(names_for(*self, session_id@, handle@)),
            order::lists(r.deep_view(), names_for(*self, session_id@, handle@)),
    {
        let mut out: Vec<String> = Vec::new();
        assert(out.deep_view() =~= Seq::<Seq<char>>::empty());
        self.add_names(session_id, handle, &mut out);
        if let Some(root) = self.other_root(session_id) {
            self.add_names(root.as_str(), handle, &mut out);
        }
        if !text::text_eq(session_id, GLOBAL_SESSION_ID) {
            self.add_names(GLOBAL_SESSION_ID, handle, &mut out);
        }
        let r = order::sorted_listing(&out);
        proof {
            let set = names_for(*self, session_id@, handle@);
            assert forall|t: Seq<char>| #[trigger] r.deep_view().contains(t) <==> set.contains(t) by {
                assert(out.deep_view().to_set().contains(t) <==> out.deep_view().contains(t));
            }
            order::lemma_listing(r.deep_view(), set);
        }
        r
    }

    /// The names that a session registered, in ascending order.
    pub fn list_names(&self, session_id: &str) -> (r: Vec<String>)
        ensures
            r.deep_view() == order::listing(names_of(*self, session_id@).dom()),
            order::lists(r.deep_view(), names_of(*self, session_id@).dom()),
    {
        let mut out: Vec<String> = Vec::new();
        assert(out.deep_view() =~= Seq::<Seq<char>>::empty());
        if let Some(m) = self.manifests.get(session_id) {
            let ghost keys = m.names.key_seq();
            let n = m.names.len();
            let mut i: usize = 0;
            assert(out.deep_view() =~= keys.subrange(0, 0));
            while i < n
                invariant
                    i <= n,
                    n == keys.len(),
                    keys == m.names.key_seq(),
                    out.deep_view() == keys.subrange(0, i as int),
                decreases n - i,
            {
                push_text(&mut out, m.names.key_at(i).as_str());
                i = i + 1;
                assert(out.deep_view() =~= keys.subrange(0, i as int));
            }
            assert(keys.subrange(0, i as int) =~= keys);
        }
        let r = order::sorted_listing(&out);
        proof {
            let set = names_of(*self, session_id@).dom();
            assert forall|t: Seq<char>| #[trigger] r.deep_view().contains(t) <==> set.contains(t) by {
                assert(out.deep_view().to_set().contains(t) <==> out.deep_view().contains(t));
            }
            order::lemma_listing(r.deep_view(), set);
        }
        r
    }

    /// The names that a session registered, in ascending order, with their handles.
    pub fn list_names_with_handles(&self, session_id: &str) -> (r: Vec<NamedHandle>)
        ensures
            order::lists(
                order::listing(names_of(*self, session_id@).dom()),
                names_of(*self, session_id@).dom(),
            ),
            r@.len() == order::listing(names_of(*self, session_id@).dom()).len(),
            forall|i: int|
                0 <= i < r@.len() ==> (#[trigger] r@[i]).name@ == order::listing(
                    names_of(*self, session_id@).dom(),
                )[i] && r@[i].handle == names_of(*self, session_id@)[r@[i].name@],
    {
        let names = self.list_names(session_id);
        let mut out: Vec<NamedHandle> = Vec::new();
        let mut i: usize = 0;
        while i < names.len()
            invariant
                i <= names@.len(),
                out@.len() == i,
                names.deep_view() == order::listing(names_of(*self, session_id@).dom()),
                order::lists(names.deep_view(), names_of(*self, session_id@).dom()),
                forall|k: int|
                    0 <= k < i ==> (#[trigger] out@[k]).name@ == names.deep_view()[k]
                        && out@[k].handle == names_of(*self, session_id@)[out@[k].name@],
            decreases names@.len() - i,
        {
            assert(names.deep_view()[i as int] == names@[i as int]@);
            assert(names.deep_view().contains(names@[i as int]@));
            if let Some(h) = self.name_in(session_id, names[i].as_str()) {
                out.push(NamedHandle { name: names[i].clone(), handle: h });
            }
            i = i + 1;
        }
        out
    }

    /// What a live directory of a session shows: the names that stay below it,
    /// in ascending order, with their content. A session id that would lead
    /// elsewhere is refused, and so is a session one of whose shown names has
    /// no content.
    pub fn project_live(&self, session_id: &str, siblings: &Vec<String>) -> (r: Result<
        Vec<LiveFile>,
        ContentError,
    >)
        ensures
            ({
                let names = order::listing(names_of(*self, session_id@).dom());
                &&& order::lists(names, names_of(*self, session_id@).dom())
                &&& r is Ok <==> stays_below(session_id@) && shown_names_read(
                    *self,
                    session_id@,
                    siblings.deep_view(),
                    names,
                )
                &&& r matches Ok(v) ==> shows(*self, session_id@, siblings.deep_view(), v@, names)
                &&& !stays_below(session_id@) ==> (r matches Err(e)
                    && e matches ContentError::UnsafeSession { session_id: s } && s@
                    == session_id@)
                &&& r matches Err(e) ==> stays_below(session_id@) ==> exists|k: int|
                    fails_first(*self, session_id@, siblings.deep_view(), names, k)
                        && is_read_error(
                        *self,
                        session_id@,
                        siblings.deep_view(),
                        #[trigger] names[k],
                        e,
                    )
            }),
    {
        proof {
            lemma_names_listed(*self, session_id@);
        }
        if !safe_relative_path(session_id) {
            return Err(ContentError::UnsafeSession { session_id: session_id.to_owned() });
        }
        let all = self.list_names_with_handles(session_id);
        let ghost names = order::listing(names_of(*self, session_id@).dom());
        let ghost sib = siblings.deep_view();
        let mut out: Vec<LiveFile> = Vec::new();
        let mut i: usize = 0;
        assert(shows(*self, session_id@, sib, out@, names.subrange(0, 0)));
        while i < all.len()
            invariant
                i <= all@.len(),
                all@.len() == names.len(),
                sib == siblings.deep_view(),
                stays_below(session_id@),
                names == order::listing(names_of(*self, session_id@).dom()),
                order::lists(names, names_of(*self, session_id@).dom()),
                forall|k: int|
                    0 <= k < all@.len() ==> (#[trigger] all@[k]).name@ == names[k]
                        && all@[k].handle == names_of(*self, session_id@)[all@[k].name@],
                shown_names_read(*self, session_id@, sib, names.subrange(0, i as int)),
                shows(*self, session_id@, sib, out@, names.subrange(0, i as int)),
            decreases all@.len() - i,
        {
            proof {
                let t = names.subrange(0, i + 1);
                assert(t.drop_last() =~= names.subrange(0, i as int));
                assert(t.last() == all@[i as int].name@);
                assert forall|k: int| 0 <= k < t.len() - 1 implies #[trigger] t[k]
                    == names.subrange(0, i as int)[k] by {}
            }
            if safe_relative_path(all[i].name.as_str()) {
                match self.read_by_name_or_handle(session_id, all[i].handle.as_str(), siblings) {
                    Ok(content) => {
                        let mut copy: Vec<u8> = Vec::new();
                        digest::append_bytes(&mut copy, content.as_slice());
                        assert(copy@ =~= content@);
                        let ghost before = out@;
                        out.push(LiveFile { name: all[i].name.clone(), content: copy });
                        assert(out@.drop_last() =~= before);
                    },
                    Err(e) => {
                        assert(names[i as int] == all@[i as int].name@);
                        assert(!shown_name_reads(*self, session_id@, sib, names[i as int]));
                        proof {
                            assert forall|k: int| 0 <= k < i implies shown_name_reads(
                                *self,
                                session_id@,
                                sib,
                                #[trigger] names[k],
                            ) by {
                                assert(names.subrange(0, i as int)[k] == names[k]);
                            }
                            assert(fails_first(*self, session_id@, sib, names, i as int));
                            assert(is_read_error(*self, session_id@, sib, names[i as int], e));
                        }
                        return Err(e);
                    },
                }
            }
            proof {
                let t = names.subrange(0, i + 1);
                assert forall|k: int| 0 <= k < t.len() implies shown_name_reads(
                    *self,
                    session_id@,
                    sib,
                    #[trigger] t[k],
                ) by {
                    if k < i {
                        assert(t[k] == names.subrange(0, i as int)[k]);
                    }
                }
            }
            i = i + 1;
        }
        assert(names.subrange(0, i as int) =~= names);
        Ok(out)
    }

    /// How much content there is.
    pub fn stats(&self) -> (r: ContentStoreStats)
        requires
            content_bytes(*self, self.blobs.key_seq()) <= u64::MAX,
        ensures
            r.entry_count == self.blobs.key_seq().len(),
            r.total_size_bytes == content_bytes(*self, self.blobs.key_seq()),
    {
        let n = self.blobs.len();
        let ghost keys = self.blobs.key_seq();
        let mut total: u64 = 0;
        let mut i: usize = 0;
        assert(keys.subrange(0, 0) =~= Seq::<Seq<char>>::empty());
        while i < n
            invariant
                i <= n,
                n == keys.len(),
                keys == self.blobs.key_seq(),
                total == content_bytes(*self, keys.subrange(0, i as int)),
                content_bytes(*self, keys) <= u64::MAX,
            decreases n - i,
        {
            proof {
                let t = keys.subrange(0, i + 1);
                assert(t.drop_last() =~= keys.subrange(0, i as int));
                assert(t.last() == keys[i as int]);
                lemma_content_bytes(*self, keys, i + 1);
            }
            total = total + self.blobs.value_at(i).len() as u64;
            i = i + 1;
        }
        assert(keys.subrange(0, i as int) =~= keys);
        ContentStoreStats { entry_count: n as u64, total_size_bytes: total }
    }

    /// Stores a resource of a skill, and registers it in a session under the
    /// path of its directory and its file name.
    pub fn import_resource(
        &mut self,
        session_id: &str,
        prefix: &str,
        file_name: &str,
        content: &[u8],
    ) -> (r: String)
        ensures
            r@ == prefix@ + "/"@ + file_name@,
            exists|m: ContentStore, h: String|
                stored(*old(self), m, content@) && h@ == handle_of(content@)
                    && #[trigger] registered(m, *final(self), session_id@, r@, h),
    {
        let handle = self.write(content);
        let ghost mid = *self;
        let mut name = prefix.to_owned();
        name.append("/");
        name.append(file_name);
        self.register_name(session_id, name.as_str(), &handle);
        assert(registered(mid, *self, session_id@, name@, handle));
        name
    }

    /// Empties the manifest of a session and says how many names it had.
    pub fn cleanup_session(&mut self, session_id: &str) -> (r: usize)
        ensures
            final(self).blobs@ == old(self).blobs@,
            old(self).manifests@.dom().contains(session_id@) ==> r == old(
                self,
            ).manifests@[session_id@].names.key_seq().len(),
            !old(self).manifests@.dom().contains(session_id@) ==> r == 0,
            names_of(*final(self), session_id@) == Map::<Seq<char>, String>::empty(),
            aliases_of(*final(self), session_id@) == Map::<Seq<char>, String>::empty(),
            root_of(*final(self), session_id@) is None,
            visibility_of(*final(self), session_id@) == Map::<
                Seq<char>,
                ContentVisibility,
            >::empty(),
            forall|s: Seq<char>|
                s != session_id@ ==> #[trigger] same_session(*old(self), *final(self), s),
    {
        let n = match self.manifests.get(session_id) {
            Some(m) => m.names.len(),
            None => 0,
        };
        self.manifests.insert(session_id, SessionManifest::default());
        assert forall|s: Seq<char>| s != session_id@ implies #[trigger] same_session(
            *old(self),
            *self,
            s,
        ) by {}
        n
    }
}

/// The directories of a skill whose files are imported.
pub const SKILL_RESOURCE_DIRS: [&'static str; 3] = ["scripts", "references", "assets"];

/// A file of a live directory.
#[derive(Debug)]
pub struct LiveFile {
    pub name: String,
    pub content: Vec<u8>,
}

/// How much content there is.
#[derive(Debug, Clone, Copy)]
pub struct ContentStoreStats {
    pub entry_count: u64,
    pub total_size_bytes: u64,
}

/// The bytes of the content under the handles `keys`.
pub open spec fn content_bytes(s: ContentStore, keys: Seq<Seq<char>>) -> nat
    decreases keys.len(),
{
    if keys.len() == 0 {
        0
    } else {
        content_bytes(s, keys.drop_last()) + s.blobs@[keys.last()]@.len()
    }
}

proof fn lemma_content_bytes(s: ContentStore, keys: Seq<Seq<char>>, i: int)
    requires
        0 <= i <= keys.len(),
    ensures
        content_bytes(s, keys.subrange(0, i)) <= content_bytes(s, keys),
    decreases keys.len() - i,
{
    if i < keys.len() {
        let t = keys.subrange(0, i + 1);
        assert(t.drop_last() =~= keys.subrange(0, i));
        lemma_content_bytes(s, keys, i + 1);
    } else {
        assert(keys.subrange(0, i) =~= keys);
    }
}

/// The content behind a name that a session registered.
pub open spec fn shown_handle(
    s: ContentStore,
    session: Seq<char>,
    siblings: Seq<Seq<char>>,
    name: Seq<char>,
) -> Option<Seq<char>> {
    resolved_reference(s, session, names_of(s, session)[name]@, siblings)
}

/// A name that is shown has content.
pub open spec fn shown_name_reads(
    s: ContentStore,
    session: Seq<char>,
    siblings: Seq<Seq<char>>,
    name: Seq<char>,
) -> bool {
    stays_below(name) ==> shown_handle(s, session, siblings, name) is Some && s.blobs@.dom().contains(
        shown_handle(s, session, siblings, name)->Some_0,
    )
}

/// All names that are shown have content.
pub open spec fn shown_names_read(
    s: ContentStore,
    session: Seq<char>,
    siblings: Seq<Seq<char>>,
    names: Seq<Seq<char>>,
) -> bool {
    forall|k: int|
        0 <= k < names.len() ==> shown_name_reads(s, session, siblings, #[trigger] names[k])
}

/// The name at `k` is the first that is shown and has no content.
pub open spec fn fails_first(
    s: ContentStore,
    session: Seq<char>,
    siblings: Seq<Seq<char>>,
    names: Seq<Seq<char>>,
    k: int,
) -> bool {
    &&& 0 <= k < names.len()
    &&& !shown_name_reads(s, session, siblings, names[k])
    &&& forall|j: int|
        0 <= j < k ==> shown_name_reads(s, session, siblings, #[trigger] names[j])
}

/// The error of reading what stands behind a name: the content is missing, or the
/// handle is none that the session sees.
pub open spec fn is_read_error(
    s: ContentStore,
    session: Seq<char>,
    siblings: Seq<Seq<char>>,
    name: Seq<char>,
    e: ContentError,
) -> bool {
    match shown_handle(s, session, siblings, name) {
        Some(h) => (e matches ContentError::Missing { handle } && handle@ == h),
        None => refuses_reference(e, session, names_of(s, session)[name]@),
    }
}

/// `v` shows those of `names` that stay below their directory, with their content.
pub open spec fn shows(
    s: ContentStore,
    session: Seq<char>,
    siblings: Seq<Seq<char>>,
    v: Seq<LiveFile>,
    names: Seq<Seq<char>>,
) -> bool
    decreases names.len(),
{
    if names.len() == 0 {
        v.len() == 0
    } else if stays_below(names.last()) {
        &&& v.len() > 0
        &&& v.last().name@ == names.last()
        &&& v.last().content@ == s.blobs@[shown_handle(
            s,
            session,
            siblings,
            names.last(),
        )->Some_0]@
        &&& shows(s, session, siblings, v.drop_last(), names.drop_last())
    } else {
        shows(s, session, siblings, v, names.drop_last())
    }
}

/// The names of a session are finitely many, and can be listed.
pub proof fn lemma_names_listed(s: ContentStore, session: Seq<char>)
    ensures
        order::lists(order::listing(names_of(s, session).dom()), names_of(s, session).dom()),
{
    if s.manifests@.dom().contains(session) {
        s.manifests@[session].names.lemma_finite();
    }
    order::lemma_finite_listing(names_of(s, session).dom());
}

fn push_text(v: &mut Vec<String>, s: &str)
    ensures
        final(v).deep_view() == old(v).deep_view().push(s@),
{
    v.push(s.to_owned());
    assert(v.deep_view() =~= old(v).deep_view().push(s@));
}

fn map_has(m: &TextMap<String>, handle: &str) -> (r: bool)
    ensures
        r == has_value(m@, handle@),
{
    let n = m.len();
    let ghost keys = m.key_seq();
    let mut i: usize = 0;
    while i < n
        invariant
            i <= n,
            n == keys.len(),
            keys == m.key_seq(),
            forall|k: int| 0 <= k < i ==> m@[#[trigger] keys[k]]@ != handle@,
        decreases n - i,
    {
        if text::text_eq(m.value_at(i).as_str(), handle) {
            assert(m@.dom().contains(keys[i as int]));
            return true;
        }
        i = i + 1;
    }
    proof {
        if has_value(m@, handle@) {
            let key = choose|k: Seq<char>| #[trigger] m@.dom().contains(k) && m@[k]@ == handle@;
            assert(keys.contains(key));
            let k = choose|k: int| 0 <= k < keys.len() && keys[k] == key;
            assert(m@[keys[k]]@ != handle@);
        }
    }
    false
}

/// A reference has one of the prefixes at most.
proof fn lemma_one_prefix(r: Seq<char>)
    requires
        text::begins_with(r, "sha256:"@),
    ensures
        !text::begins_with(r, "cnt_"@),
        !text::begins_with(r, "cnt:"@),
{
    reveal_strlit("cnt_");
    reveal_strlit("cnt:");
    reveal_strlit("sha256:");
    assert(r.subrange(0, 7)[0] == 's');
    if text::begins_with(r, "cnt_"@) {
        assert(r.subrange(0, 4)[0] == 'c');
    }
    if text::begins_with(r, "cnt:"@) {
        assert(r.subrange(0, 4)[0] == 'c');
    }
}

// ---------------------------------------------------------------------------
// Laws
// ---------------------------------------------------------------------------

proof fn lemma_handle(content: Seq<u8>)
    requires
        digest::sha256(content).len() == 32,
    ensures
        is_handle(handle_of(content)),
{
    let d = digest::sha256(content);
    let h = handle_of(content);
    let n = "sha256:"@.len() as int;
    digest::lemma_hex_len(d);
    digest::lemma_hex_digits(d);
    assert(h.subrange(0, n) =~= "sha256:"@);
    assert forall|i: int| n <= i < h.len() implies is_hex_digit(#[trigger] h[i]) by {
        assert(h[i] == digest::hex_text(d)[i - n]);
    }
}

/// The short alias of a handle is made of eight of its digits.
proof fn lemma_short_alias(h: Seq<char>)
    requires
        is_handle(h),
    ensures
        is_alias(short_alias(h)),
{
    let n = "sha256:"@.len() as int;
    let hash = h.subrange(n, h.len() as int);
    assert forall|i: int| 0 <= i < hash.len() implies is_hex_digit(#[trigger] hash[i]) by {
        assert(hash[i] == h[i + n]);
    }
    assert(text::is_ascii(hash));
    text::lemma_ascii_fitting(hash, 8);
    let p = hash.subrange(0, 8);
    assert forall|i: int| 0 <= i < p.len() implies is_hex_digit(#[trigger] p[i]) by {
        assert(p[i] == hash[i]);
    }
    assert(text::is_ascii(p));
    text::lemma_ascii_byte_len(p);
}

/// The written forms of a reference to content that is registered under a name: the
/// name, the handle, and the alias, bare or behind one of its prefixes.
pub open spec fn is_form(form: Seq<char>, name: Seq<char>, handle: Seq<char>) -> bool {
    let alias = short_alias(handle);
    ||| form == name
    ||| form == handle
    ||| form == alias
    ||| form == "cnt_"@ + alias
    ||| form == "cnt:"@ + alias
    ||| form == "sha256:"@ + alias
}

/// A name that cannot be taken for another form of reference, with no white space
/// around it.
pub open spec fn is_plain_name(name: Seq<char>) -> bool {
    text::is_trimmed(name) && alias_in(name) is None && !text::begins_with(name, "sha256:"@)
}

/// Content that was written and then registered under a name is what every written
/// form of a reference to it stands for and reads, with or without white space around
/// it, unless other content with the same digest was there before.
pub proof fn every_form_of_a_reference_reads_the_content(
    a: ContentStore,
    written: ContentStore,
    b: ContentStore,
    session: Seq<char>,
    name: Seq<char>,
    content: Seq<u8>,
    handle: String,
    form: Seq<char>,
    left: Seq<char>,
    right: Seq<char>,
    siblings: Seq<Seq<char>>,
)
    requires
        stored(a, written, content),
        registered(written, b, session, name, handle),
        handle@ == handle_of(content),
        is_handle(handle@),
        is_plain_name(name),
        is_form(form, name, handle@),
        text::all_white(left),
        text::all_white(right),
        intact(a),
        forall|h: Seq<char>| #[trigger]
            a.blobs@.dom().contains(h) && digest::sha256(a.blobs@[h]@) == digest::sha256(content)
                ==> a.blobs@[h]@ == content,
    ensures
        resolved_reference(b, session, left + form + right, siblings) == Some(handle@),
        b.blobs@.dom().contains(handle@),
        b.blobs@[handle@]@ == content,
{
    let alias = short_alias(handle@);
    reveal_strlit("cnt_");
    reveal_strlit("cnt:");
    reveal_strlit("sha256:");
    lemma_short_alias(handle@);
    reading_gives_back_what_was_written(a, written, content);
    registered_names_resolve(written, b, session, name, handle, siblings);
    assert(handle@.subrange(0, 7)[0] == 's');
    assert(is_hex_digit(handle@[handle@.len() - 1]));
    assert(is_hex_digit(alias[0]) && is_hex_digit(alias[7]));
    assert(form.len() > 0 ==> !text::is_white(form[0]) && !text::is_white(form.last()));
    text::lemma_trim_padded(left, form, right);
    if form == name {
    } else if form == handle@ {
        lemma_one_prefix(form);
        assert(form.subrange(7, form.len() as int).len() == 64);
    } else if form == alias {
        assert(!text::begins_with(form, "cnt_"@)) by {
            if text::begins_with(form, "cnt_"@) {
                assert(form.subrange(0, 4)[1] == 'n');
                assert(is_hex_digit(form[1]));
            }
        }
        assert(!text::begins_with(form, "cnt:"@)) by {
            if text::begins_with(form, "cnt:"@) {
                assert(form.subrange(0, 4)[1] == 'n');
                assert(is_hex_digit(form[1]));
            }
        }
        assert(!text::begins_with(form, "sha256:"@)) by {
            if text::begins_with(form, "sha256:"@) {
                assert(form.subrange(0, 7)[0] == 's');
                assert(is_hex_digit(form[0]));
            }
        }
    } else if form == "sha256:"@ + alias {
        assert(form.subrange(0, 7) =~= "sha256:"@);
        assert(form.subrange(7, form.len() as int) =~= alias);
        lemma_one_prefix(form);
    } else {
        assert(form.subrange(4, form.len() as int) =~= alias);
        if form == "cnt_"@ + alias {
            assert(form.subrange(0, 4) =~= "cnt_"@);
        } else {
            assert(form.subrange(0, 4) =~= "cnt:"@);
            assert(form.subrange(0, 4)[3] == ':');
        }
    }
}

/// What was registered under a name is what the name stands for.
pub proof fn registered_names_resolve(
    a: ContentStore,
    b: ContentStore,
    session: Seq<char>,
    name: Seq<char>,
    handle: String,
    siblings: Seq<Seq<char>>,
)
    requires
        registered(a, b, session, name, handle),
    ensures
        resolved_name(b, session, name, siblings) == Some(handle@),
        resolved_alias(b, session, short_alias(handle@)) == Some(handle@),
        sees_handle(b, session, handle@),
{
    assert(names_of(b, session).dom().contains(name));
    assert(has_value(names_of(b, session), handle@));
}

/// What is read under a handle is what was written, unless other content with
/// the same digest was there before.
pub proof fn reading_gives_back_what_was_written(
    a: ContentStore,
    b: ContentStore,
    content: Seq<u8>,
)
    requires
        stored(a, b, content),
        intact(a),
        forall|h: Seq<char>| #[trigger]
            a.blobs@.dom().contains(h) && digest::sha256(a.blobs@[h]@) == digest::sha256(content)
                ==> a.blobs@[h]@ == content,
    ensures
        intact(b),
        b.blobs@.dom().contains(handle_of(content)),
        b.blobs@[handle_of(content)]@ == content,
{
    let h = handle_of(content);
    if a.blobs@.dom().contains(h) {
        handles_tell_digests_apart(a.blobs@[h]@, content);
    }
    assert forall|k: Seq<char>| #[trigger] b.blobs@.dom().contains(k) implies k == handle_of(
        b.blobs@[k]@,
    ) by {
        if k != h || a.blobs@.dom().contains(h) {
            assert(a.blobs@.dom().contains(k));
        }
    }
}

/// Content is immutable: what a handle gives is never changed by a later write
/// or registration.
pub proof fn content_is_immutable(
    a: ContentStore,
    b: ContentStore,
    content: Seq<u8>,
    handle: Seq<char>,
)
    requires
        stored(a, b, content),
        a.blobs@.dom().contains(handle),
    ensures
        b.blobs@.dom().contains(handle),
        b.blobs@[handle] == a.blobs@[handle],
{
}

/// Content that a session shares is what its root and every other session of
/// that root find under its name, unless the reader has that name itself.
pub proof fn session_content_reaches_siblings(
    a: ContentStore,
    b: ContentStore,
    session: Seq<char>,
    root: Seq<char>,
    reader: Seq<char>,
    name: Seq<char>,
    handle: String,
    visibility: ContentVisibility,
    siblings: Seq<Seq<char>>,
)
    requires
        registered_as(a, b, session, name, handle, visibility),
        visibility != ContentVisibility::Private,
        shared_root(a, session) == Some(root),
        shared_root(a, reader) == Some(root),
        reader != session ==> !names_of(b, reader).dom().contains(name),
    ensures
        resolved_name(b, root, name, siblings) == Some(handle@),
        resolved_name(b, reader, name, siblings) == Some(handle@),
        resolved_alias(b, root, short_alias(handle@)) == Some(handle@),
{
    assert(root_of(b, reader) == root_of(a, reader));
    assert(names_of(b, root).dom().contains(name));
    assert(names_of(b, session).dom().contains(name));
    assert(aliases_of(b, root).dom().contains(short_alias(handle@)));
}

/// The last registration of a name is what the root finds.
pub proof fn the_last_writer_wins(
    a: ContentStore,
    b: ContentStore,
    c: ContentStore,
    first: Seq<char>,
    second: Seq<char>,
    root: Seq<char>,
    name: Seq<char>,
    old_handle: String,
    new_handle: String,
    siblings: Seq<Seq<char>>,
)
    requires
        registered_as(a, b, first, name, old_handle, ContentVisibility::Session),
        registered_as(b, c, second, name, new_handle, ContentVisibility::Session),
        shared_root(a, first) == Some(root),
        shared_root(a, second) == Some(root),
    ensures
        resolved_name(c, root, name, siblings) == Some(new_handle@),
        first != second ==> resolved_name(c, first, name, siblings) == Some(old_handle@),
{
    assert(root_of(b, second) == root_of(a, second));
    assert(root_of(c, root) == root_of(b, root));
    assert(names_of(c, root).dom().contains(name));
    assert(names_of(b, first).dom().contains(name));
    assert(names_of(c, first).dom().contains(name));
}

/// Private content changes nothing for a reader that does not look into the
/// session that registered it.
pub proof fn private_content_stays_private(
    a: ContentStore,
    b: ContentStore,
    session: Seq<char>,
    name: Seq<char>,
    handle: String,
    reader: Seq<char>,
    wanted: Seq<char>,
    siblings: Seq<Seq<char>>,
)
    requires
        registered_as(a, b, session, name, handle, ContentVisibility::Private),
        reader != session,
        shared_root(a, reader) != Some(session),
        session != GLOBAL_SESSION_ID@,
        !siblings.contains(session),
    ensures
        resolved_reference(b, reader, wanted, siblings) == resolved_reference(
            a,
            reader,
            wanted,
            siblings,
        ),
{
    assert(root_of(b, reader) == root_of(a, reader));
    let g = GLOBAL_SESSION_ID@;
    assert(names_of(b, reader) == names_of(a, reader));
    assert(aliases_of(b, reader) == aliases_of(a, reader));
    assert(names_of(b, g) == names_of(a, g));
    assert(aliases_of(b, g) == aliases_of(a, g));
    if shared_root(a, reader) is Some {
        let root = shared_root(a, reader)->Some_0;
        assert(names_of(b, root) == names_of(a, root));
        assert(aliases_of(b, root) == aliases_of(a, root));
        lemma_same_siblings(
            a,
            b,
            session,
            name,
            handle,
            siblings,
            root,
            reader,
            text::trim(wanted),
        );
    }
}

proof fn lemma_same_siblings(
    a: ContentStore,
    b: ContentStore,
    session: Seq<char>,
    name: Seq<char>,
    handle: String,
    siblings: Seq<Seq<char>>,
    root: Seq<char>,
    reader: Seq<char>,
    wanted: Seq<char>,
)
    requires
        registered_as(a, b, session, name, handle, ContentVisibility::Private),
        !siblings.contains(session),
    ensures
        sibling_handle(b, siblings, root, reader, wanted) == sibling_handle(
            a,
            siblings,
            root,
            reader,
            wanted,
        ),
    decreases siblings.len(),
{
    if siblings.len() > 0 {
        let rest = siblings.subrange(1, siblings.len() as int);
        assert(siblings[0] != session);
        assert(names_of(b, siblings[0]) == names_of(a, siblings[0]));
        assert(!rest.contains(session)) by {
            if rest.contains(session) {
                let k = choose|k: int| 0 <= k < rest.len() && rest[k] == session;
                assert(siblings[k + 1] == session);
            }
        }
        lemma_same_siblings(a, b, session, name, handle, rest, root, reader, wanted);
    }
}

/// A name means nothing in a session, its root and the siblings.
pub open spec fn is_unknown_nearby(
    s: ContentStore,
    session: Seq<char>,
    name: Seq<char>,
    siblings: Seq<Seq<char>>,
) -> bool {
    &&& !names_of(s, session).dom().contains(name)
    &&& shared_root(s, session) is Some ==> !names_of(
        s,
        shared_root(s, session)->Some_0,
    ).dom().contains(name)
    &&& forall|i: int|
        0 <= i < siblings.len() ==> !names_of(s, #[trigger] siblings[i]).dom().contains(name)
}

/// Global content is visible to every session, and is what every session finds
/// under its name unless the name means something closer by.
pub proof fn global_content_reaches_everyone(
    a: ContentStore,
    b: ContentStore,
    session: Seq<char>,
    name: Seq<char>,
    handle: String,
    reader: Seq<char>,
    siblings: Seq<Seq<char>>,
)
    requires
        registered_as(a, b, session, name, handle, ContentVisibility::Global),
    ensures
        sees_handle(b, reader, handle@),
        resolved_name(b, reader, name, siblings) is Some,
        is_unknown_nearby(b, reader, name, siblings) ==> resolved_name(b, reader, name, siblings)
            == Some(handle@),
{
    let g = GLOBAL_SESSION_ID@;
    assert(names_of(b, g).dom().contains(name));
    assert(names_of(b, g)[name] == handle);
    assert(has_value(names_of(b, g), handle@));
    if shared_root(b, reader) is Some && is_unknown_nearby(b, reader, name, siblings) {
        lemma_no_sibling(b, siblings, shared_root(b, reader)->Some_0, reader, name);
    }
}

/// Content that is registered in no session that a reader looks into is not
/// found by that reader.
pub proof fn unregistered_content_is_not_found(
    b: ContentStore,
    reader: Seq<char>,
    name: Seq<char>,
    siblings: Seq<Seq<char>>,
)
    requires
        is_unknown_nearby(b, reader, name, siblings),
        !names_of(b, GLOBAL_SESSION_ID@).dom().contains(name),
    ensures
        resolved_name(b, reader, name, siblings) is None,
{
    if shared_root(b, reader) is Some {
        lemma_no_sibling(b, siblings, shared_root(b, reader)->Some_0, reader, name);
    }
}

proof fn lemma_no_sibling(
    b: ContentStore,
    siblings: Seq<Seq<char>>,
    root: Seq<char>,
    reader: Seq<char>,
    name: Seq<char>,
)
    requires
        forall|i: int|
            0 <= i < siblings.len() ==> !names_of(b, #[trigger] siblings[i]).dom().contains(name),
    ensures
        sibling_handle(b, siblings, root, reader, name) is None,
    decreases siblings.len(),
{
    if siblings.len() > 0 {
        let rest = siblings.subrange(1, siblings.len() as int);
        assert forall|i: int| 0 <= i < rest.len() implies !names_of(
            b,
            #[trigger] rest[i],
        ).dom().contains(name) by {
            assert(rest[i] == siblings[i + 1]);
        }
        lemma_no_sibling(b, rest, root, reader, name);
    }
}

// ---------------------------------------------------------------------------
// Laws of resolution
// ---------------------------------------------------------------------------

/// A name stands for what the session itself calls so, else for what its root does, else
/// for what the first sibling does, else for what is global.
pub proof fn names_resolve_from_near_to_far(
    s: ContentStore,
    session: Seq<char>,
    name: Seq<char>,
    siblings: Seq<Seq<char>>,
    root: Seq<char>,
    i: int,
)
    requires
        0 <= i <= siblings.len(),
        forall|k: int|
            0 <= k < i ==> (#[trigger] siblings[k]).len() == 0 || siblings[k] == root || siblings[k]
                == session || !names_of(s, siblings[k]).dom().contains(name),
        i < siblings.len() ==> siblings[i].len() > 0 && siblings[i] != root && siblings[i] != session
            && names_of(s, siblings[i]).dom().contains(name),
    ensures
        names_of(s, session).dom().contains(name) ==> resolved_name(s, session, name, siblings)
            == Some(names_of(s, session)[name]@),
        !names_of(s, session).dom().contains(name) && root_of(s, session) == Some(root) && root
            != session ==> {
            &&& names_of(s, root).dom().contains(name) ==> resolved_name(s, session, name, siblings)
                == Some(names_of(s, root)[name]@)
            &&& !names_of(s, root).dom().contains(name) && i < siblings.len() ==> resolved_name(
                s,
                session,
                name,
                siblings,
            ) == Some(names_of(s, siblings[i])[name]@)
            &&& !names_of(s, root).dom().contains(name) && i == siblings.len() && session
                != GLOBAL_SESSION_ID@ && names_of(s, GLOBAL_SESSION_ID@).dom().contains(name)
                ==> resolved_name(s, session, name, siblings) == Some(
                names_of(s, GLOBAL_SESSION_ID@)[name]@,
            )
            &&& !names_of(s, root).dom().contains(name) && i == siblings.len() && !names_of(
                s,
                GLOBAL_SESSION_ID@,
            ).dom().contains(name) ==> resolved_name(s, session, name, siblings) is None
        },
        !names_of(s, session).dom().contains(name) && (root_of(s, session) is None || root_of(
            s,
            session,
        ) == Some(session)) && session != GLOBAL_SESSION_ID@ ==> {
            &&& names_of(s, GLOBAL_SESSION_ID@).dom().contains(name) ==> resolved_name(
                s,
                session,
                name,
                siblings,
            ) == Some(names_of(s, GLOBAL_SESSION_ID@)[name]@)
            &&& !names_of(s, GLOBAL_SESSION_ID@).dom().contains(name) ==> resolved_name(
                s,
                session,
                name,
                siblings,
            ) is None
        },
{
    lemma_sibling_handle(s, siblings, root, session, name, i);
}

proof fn lemma_sibling_handle(
    s: ContentStore,
    sessions: Seq<Seq<char>>,
    root: Seq<char>,
    caller: Seq<char>,
    name: Seq<char>,
    i: int,
)
    requires
        0 <= i <= sessions.len(),
        forall|k: int|
            0 <= k < i ==> (#[trigger] sessions[k]).len() == 0 || sessions[k] == root || sessions[k]
                == caller || !names_of(s, sessions[k]).dom().contains(name),
        i < sessions.len() ==> sessions[i].len() > 0 && sessions[i] != root && sessions[i] != caller
            && names_of(s, sessions[i]).dom().contains(name),
    ensures
        sibling_handle(s, sessions, root, caller, name) == (if i < sessions.len() {
            Some(names_of(s, sessions[i])[name]@)
        } else {
            None
        }),
    decreases sessions.len(),
{
    if i > 0 {
        let c = sessions[0];
        assert(c.len() == 0 || c == root || c == caller || !names_of(s, c).dom().contains(name));
        let rest = sessions.subrange(1, sessions.len() as int);
        assert forall|k: int| 0 <= k < i - 1 implies (#[trigger] rest[k]).len() == 0 || rest[k] == root
            || rest[k] == caller || !names_of(s, rest[k]).dom().contains(name) by {
            assert(rest[k] == sessions[k + 1]);
        }
        if i < sessions.len() {
            assert(rest[i - 1] == sessions[i]);
        }
        lemma_sibling_handle(s, rest, root, caller, name, i - 1);
    }
}

/// An alias stands for what the session itself, else its root, else the global manifest
/// knows by it.
pub proof fn aliases_resolve_from_near_to_far(
    s: ContentStore,
    session: Seq<char>,
    alias: Seq<char>,
    root: Seq<char>,
)
    ensures
        aliases_of(s, session).dom().contains(alias) ==> resolved_alias(s, session, alias) == Some(
            aliases_of(s, session)[alias]@,
        ),
        !aliases_of(s, session).dom().contains(alias) && root_of(s, session) == Some(root) && root
            != session && aliases_of(s, root).dom().contains(alias) ==> resolved_alias(
            s,
            session,
            alias,
        ) == Some(aliases_of(s, root)[alias]@),
        !aliases_of(s, session).dom().contains(alias) && (root_of(s, session) is None || root_of(
            s,
            session,
        ) == Some(session) || (root_of(s, session) == Some(root) && !aliases_of(
            s,
            root,
        ).dom().contains(alias))) ==> {
            &&& session != GLOBAL_SESSION_ID@ && aliases_of(s, GLOBAL_SESSION_ID@).dom().contains(
                alias,
            ) ==> resolved_alias(s, session, alias) == Some(
                aliases_of(s, GLOBAL_SESSION_ID@)[alias]@,
            )
            &&& !aliases_of(s, GLOBAL_SESSION_ID@).dom().contains(alias) ==> resolved_alias(
                s,
                session,
                alias,
            ) is None
        },
{
}

/// A full handle is read exactly where the session, its root or the global manifest knows
/// it, by a name or by an alias. It begins with `sha256:` and is no alias behind that.
pub proof fn handles_are_read_where_they_are_known(
    s: ContentStore,
    session: Seq<char>,
    h: Seq<char>,
    siblings: Seq<Seq<char>>,
    holder: Seq<char>,
    k: Seq<char>,
)
    requires
        is_handle(h),
        holder == session || (root_of(s, session) == Some(holder) && holder != session) || (holder
            == GLOBAL_SESSION_ID@),
        (names_of(s, holder).dom().contains(k) && names_of(s, holder)[k]@ == h) || (aliases_of(
            s,
            holder,
        ).dom().contains(k) && aliases_of(s, holder)[k]@ == h),
    ensures
        resolved_reference(s, session, h, siblings) == Some(h),
{
    let none = Seq::<char>::empty();
    reveal_strlit("sha256:");
    reveal_strlit("cnt_");
    reveal_strlit("cnt:");
    assert(h.subrange(0, 7)[0] == 's');
    assert(is_hex_digit(h[h.len() - 1]));
    text::lemma_trim_padded(none, h, none);
    assert(none + h + none =~= h);
    lemma_one_prefix(h);
    assert(h.subrange(7, h.len() as int).len() == 64);
    assert(has_value(names_of(s, holder), h) || has_value(aliases_of(s, holder), h));
    assert(knows_handle(s, holder, h));
}

/// A handle that neither the session nor its root nor the global manifest knows is not read.
pub proof fn unknown_handles_are_not_read(
    s: ContentStore,
    session: Seq<char>,
    h: Seq<char>,
    siblings: Seq<Seq<char>>,
)
    requires
        is_handle(h),
        forall|holder: Seq<char>, k: Seq<char>|
            #![trigger names_of(s, holder).dom().contains(k)]
            (holder == session || root_of(s, session) == Some(holder) || holder == GLOBAL_SESSION_ID@)
                && names_of(s, holder).dom().contains(k) ==> names_of(s, holder)[k]@ != h,
        forall|holder: Seq<char>, k: Seq<char>|
            #![trigger aliases_of(s, holder).dom().contains(k)]
            (holder == session || root_of(s, session) == Some(holder) || holder == GLOBAL_SESSION_ID@)
                && aliases_of(s, holder).dom().contains(k) ==> aliases_of(s, holder)[k]@ != h,
    ensures
        resolved_reference(s, session, h, siblings) is None,
{
    let none = Seq::<char>::empty();
    reveal_strlit("sha256:");
    reveal_strlit("cnt_");
    reveal_strlit("cnt:");
    assert(h.subrange(0, 7)[0] == 's');
    assert(is_hex_digit(h[h.len() - 1]));
    text::lemma_trim_padded(none, h, none);
    assert(none + h + none =~= h);
    lemma_one_prefix(h);
    assert(h.subrange(7, h.len() as int).len() == 64);
    assert(!knows_handle(s, session, h));
    assert(!knows_handle(s, GLOBAL_SESSION_ID@, h));
    if shared_root(s, session) is Some {
        assert(!knows_handle(s, shared_root(s, session)->Some_0, h));
    }
}

/// The names under which a session sees a handle are its own, those of its root and the
/// global ones.
pub proof fn names_of_a_handle_are_found(
    s: ContentStore,
    session: Seq<char>,
    h: Seq<char>,
    n: Seq<char>,
)
    ensures
        names_for(s, session, h).contains(n) <==> ({
            ||| names_of(s, session).dom().contains(n) && names_of(s, session)[n]@ == h
            ||| root_of(s, session) is Some && root_of(s, session)->Some_0 != session && names_of(
                s,
                root_of(s, session)->Some_0,
            ).dom().contains(n) && names_of(s, root_of(s, session)->Some_0)[n]@ == h
            ||| session != GLOBAL_SESSION_ID@ && names_of(s, GLOBAL_SESSION_ID@).dom().contains(n)
                && names_of(s, GLOBAL_SESSION_ID@)[n]@ == h
        }),
{
}

/// Content is registered in its session; unless it is private, in the session's root too;
/// and in the global manifest where it is global; nowhere else.
pub proof fn content_is_registered_by_visibility(
    a: ContentStore,
    b: ContentStore,
    session: Seq<char>,
    name: Seq<char>,
    handle: String,
    visibility: ContentVisibility,
    other: Seq<char>,
)
    requires
        registered_as(a, b, session, name, handle, visibility),
    ensures
        ({
            let root = root_of(a, session);
            let there = other == session || (visibility != ContentVisibility::Private && root
                == Some(other) && other != session) || (visibility == ContentVisibility::Global
                && other == GLOBAL_SESSION_ID@);
            &&& there ==> names_of(b, other).dom().contains(name) && names_of(b, other)[name] == handle
            &&& there ==> aliases_of(b, other).dom().contains(short_alias(handle@)) && aliases_of(
                b,
                other,
            )[short_alias(handle@)] == handle
            &&& !there ==> names_of(b, other) == names_of(a, other) && aliases_of(b, other)
                == aliases_of(a, other)
            &&& visibility_of(b, session).dom().contains(handle@) && visibility_of(
                b,
                session,
            )[handle@] == visibility
            &&& b.blobs@ == a.blobs@
        }),
{
    assert(names_of(b, other) == (if reaches(a, session, visibility, other) {
        names_of(a, other).insert(name, handle)
    } else {
        names_of(a, other)
    }));
    assert(aliases_of(b, other) == (if reaches(a, session, visibility, other) {
        aliases_of(a, other).insert(short_alias(handle@), handle)
    } else {
        aliases_of(a, other)
    }));
}

/// Every name of a session that stays below its directory is laid out with its content, in
/// order, and no other name is.
pub proof fn live_files_are_the_safe_names(
    s: ContentStore,
    session: Seq<char>,
    siblings: Seq<Seq<char>>,
    v: Seq<LiveFile>,
    names: Seq<Seq<char>>,
)
    requires
        shows(s, session, siblings, v, names),
    ensures
        v.map_values(|f: LiveFile| f.name@) == names.filter(|n: Seq<char>| stays_below(n)),
        forall|i: int|
            0 <= i < v.len() ==> (#[trigger] v[i]).content@ == s.blobs@[resolved_reference(
                s,
                session,
                names_of(s, session)[v[i].name@]@,
                siblings,
            )->Some_0]@,
    decreases names.len(),
{
    reveal(Seq::filter);
    let safe = |n: Seq<char>| stays_below(n);
    let name = |f: LiveFile| f.name@;
    if names.len() == 0 {
        assert(v.map_values(name) =~= names.filter(safe));
    } else if stays_below(names.last()) {
        live_files_are_the_safe_names(s, session, siblings, v.drop_last(), names.drop_last());
        assert(v.map_values(name) =~= v.drop_last().map_values(name).push(v.last().name@));
        assert forall|i: int| 0 <= i < v.len() implies (#[trigger] v[i]).content@
            == s.blobs@[resolved_reference(
            s,
            session,
            names_of(s, session)[v[i].name@]@,
            siblings,
        )->Some_0]@ by {
            if i < v.len() - 1 {
                assert(v.drop_last()[i] == v[i]);
            }
        }
    } else {
        live_files_are_the_safe_names(s, session, siblings, v, names.drop_last());
    }
}

/// A path that is empty, that begins at the root, or that goes up anywhere does not stay
/// below; one name that is neither a dot nor two does.
pub proof fn paths_that_leave_are_unsafe(a: Seq<char>, b: Seq<char>, name: Seq<char>)
    ensures
        !stays_below(Seq::empty()),
        !stays_below(seq!['/'] + a),
        !stays_below(".."@),
        !stays_below("../"@ + a),
        !stays_below(a + "/.."@),
        !stays_below(a + "/../"@ + b),
        name.len() > 0 && !name.contains('/') && name != "."@ && name != ".."@ ==> stays_below(name),
{
    reveal_strlit("..");
    reveal_strlit("../");
    reveal_strlit("/..");
    reveal_strlit("/../");
    let none = Seq::<char>::empty();
    assert((seq!['/'] + a)[0] == '/');
    let p1 = ".."@;
    assert(p1.subrange(0, 2) =~= p1);
    lemma_component(p1, p1, none);
    assert(p1 + none =~= p1);
    assert(starts_component(p1, 0));
    let p2 = "../"@ + a;
    assert(".."@ + (seq!['/'] + a) =~= p2);
    lemma_component(p2, ".."@, seq!['/'] + a);
    assert(p2.subrange(0, p2.len() as int) =~= p2);
    assert(starts_component(p2, 0));
    let p3 = a + "/.."@;
    let r3 = p3.subrange(a.len() as int + 1, p3.len() as int);
    assert(".."@ + none =~= r3);
    lemma_component(r3, ".."@, none);
    assert(starts_component(p3, a.len() as int + 1));
    let p4 = a + "/../"@ + b;
    let r4 = p4.subrange(a.len() as int + 1, p4.len() as int);
    assert(".."@ + (seq!['/'] + b) =~= r4);
    lemma_component(r4, ".."@, seq!['/'] + b);
    assert(starts_component(p4, a.len() as int + 1));
    if name.len() > 0 && !name.contains('/') && name != "."@ && name != ".."@ {
        lemma_component(name, name, none);
        assert(name + none =~= name);
        assert(name.subrange(0, name.len() as int) =~= name);
        assert(name[0] != '/') by {
            if name[0] == '/' {
                assert(name.contains('/'));
            }
        }
        assert(starts_component(name, 0));
        assert(is_normal(component_at(name, 0)));
        assert forall|i: int| #[trigger] starts_component(name, i) implies component_at(name, i)
            != ".."@ by {
            if i > 0 {
                assert(name[i - 1] == '/');
                assert(name.contains('/'));
            }
        }
    }
}

proof fn lemma_component(s: Seq<char>, c: Seq<char>, rest: Seq<char>)
    requires
        s == c + rest,
        !c.contains('/'),
        rest.len() > 0 ==> rest[0] == '/',
    ensures
        text::before_char(s, '/') == c,
    decreases c.len(),
{
    if c.len() == 0 {
        assert(s =~= rest);
    } else {
        let t = s.subrange(1, s.len() as int);
        let d = c.subrange(1, c.len() as int);
        assert(s[0] == c[0]);
        assert(c.contains(c[0]));
        assert(t =~= d + rest);
        assert forall|i: int| 0 <= i < d.len() implies d[i] != '/' by {
            assert(c[i + 1] == d[i]);
            assert(c.contains(c[i + 1]));
        }
        assert(!d.contains('/'));
        lemma_component(t, d, rest);
        assert(seq![s[0]] + d =~= c);
    }
}

/// What a store holds is counted content by content.
pub proof fn content_is_counted(s: ContentStore, keys: Seq<Seq<char>>, k: Seq<char>)
    ensures
        content_bytes(s, keys.push(k)) == content_bytes(s, keys) + s.blobs@[k]@.len(),
        content_bytes(s, Seq::empty()) == 0,
{
    assert(keys.push(k).drop_last() =~= keys);
}

/// The alias of a handle is its first eight digits.
pub proof fn aliases_are_the_first_digits(h: Seq<char>)
    requires
        is_handle(h),
    ensures
        short_alias(h) == h.subrange(7, 15),
{
    reveal_strlit("sha256:");
    lemma_short_alias(h);
    let hash = h.subrange(7, h.len() as int);
    assert forall|i: int| 0 <= i < hash.len() implies is_hex_digit(#[trigger] hash[i]) by {
        assert(hash[i] == h[i + 7]);
    }
    assert(text::is_ascii(hash));
    text::lemma_ascii_fitting(hash, 8);
    assert(hash.subrange(0, 8) =~= h.subrange(7, 15));
}

/// Every error names what was asked for, and in which session.
pub proof fn errors_name_what_was_asked(name: String, session_id: String)
    ensures
        text::has_text(error_text(ContentError::Missing { handle: name }), name@),
        text::has_text(error_text(ContentError::NotText { handle: name }), name@),
        text::has_text(error_text(ContentError::NameNotFound { name, session_id }), name@),
        text::has_text(error_text(ContentError::NameNotFound { name, session_id }), session_id@),
        text::has_text(error_text(ContentError::NameNotVisible { name, session_id }), name@),
        text::has_text(error_text(ContentError::NameNotVisible { name, session_id }), session_id@),
        text::has_text(
            error_text(ContentError::AliasNotVisible { alias: name, session_id }),
            name@,
        ),
        text::has_text(
            error_text(ContentError::AliasNotVisible { alias: name, session_id }),
            session_id@,
        ),
        text::has_text(
            error_text(ContentError::HandleNotVisible { handle: name, session_id }),
            name@,
        ),
        text::has_text(
            error_text(ContentError::HandleNotVisible { handle: name, session_id }),
            session_id@,
        ),
{
    let none = Seq::<char>::empty();
    let a = "Content not found: "@;
    let b = "Content is not valid UTF-8: "@;
    text::lemma_has_text_around(a, name@, none);
    assert(a + name@ + none =~= a + name@);
    text::lemma_has_text_around(b, name@, none);
    assert(b + name@ + none =~= b + name@);
    lemma_two_named("Content name '"@, name@, "' not found in session '"@, session_id@, "'"@);
    lemma_two_named(
        "Content name '"@,
        name@,
        "' not found in session '"@,
        session_id@,
        "', root session, or siblings"@,
    );
    lemma_two_named(
        "Content alias '"@,
        name@,
        "' not found in session '"@,
        session_id@,
        "', root session, or global"@,
    );
    lemma_two_named(
        "Content handle '"@,
        name@,
        "' is not visible in session '"@,
        session_id@,
        "' or its root session"@,
    );
}

proof fn lemma_two_named(a: Seq<char>, b: Seq<char>, c: Seq<char>, d: Seq<char>, e: Seq<char>)
    ensures
        text::has_text(a + b + c + d + e, b),
        text::has_text(a + b + c + d + e, d),
{
    let x = c + d + e;
    text::lemma_has_text_around(a, b, x);
    assert(a + b + x =~= a + b + c + d + e);
    text::lemma_has_text_around(a + b + c, d, e);
}

/// Among sibling sessions the first that knows the name answers for it; the caller, the root
/// and sessions without a name are passed over.
pub proof fn the_first_sibling_answers(
    s: ContentStore,
    sessions: Seq<Seq<char>>,
    root: Seq<char>,
    caller: Seq<char>,
    name: Seq<char>,
    i: int,
)
    requires
        0 <= i <= sessions.len(),
        forall|k: int|
            0 <= k < i ==> ({
                let c = #[trigger] sessions[k];
                c.len() == 0 || c == root || c == caller || !names_of(s, c).dom().contains(name)
            }),
        i < sessions.len() ==> sessions[i].len() > 0 && sessions[i] != root && sessions[i] != caller
            && names_of(s, sessions[i]).dom().contains(name),
    ensures
        i < sessions.len() ==> sibling_handle(s, sessions, root, caller, name) == Some(
            names_of(s, sessions[i])[name]@,
        ),
        i == sessions.len() ==> sibling_handle(s, sessions, root, caller, name) is None,
    decreases sessions.len(),
{
    if i > 0 {
        let c = sessions[0];
        assert(c.len() == 0 || c == root || c == caller || !names_of(s, c).dom().contains(name));
        let rest = sessions.subrange(1, sessions.len() as int);
        assert forall|k: int| 0 <= k < i - 1 implies ({
            let c = #[trigger] rest[k];
            c.len() == 0 || c == root || c == caller || !names_of(s, c).dom().contains(name)
        }) by {
            assert(rest[k] == sessions[k + 1]);
        }
        the_first_sibling_answers(s, rest, root, caller, name, i - 1);
    }
}

/// A reference means an alias exactly where it is eight hexadecimal digits, alone or behind
/// `cnt_`, `cnt:` or `sha256:`; it means those digits.
pub proof fn aliases_are_eight_digits_in_any_form(a: Seq<char>, r: Seq<char>)
    requires
        a.len() == 8,
        forall|i: int|
            0 <= i < 8 ==> '0' <= #[trigger] a[i] <= '9' || 'a' <= a[i] <= 'f' || 'A' <= a[i] <= 'F',
    ensures
        alias_in(a) == Some(a),
        alias_in("cnt_"@ + a) == Some(a),
        alias_in("cnt:"@ + a) == Some(a),
        alias_in("sha256:"@ + a) == Some(a),
        alias_in(r) matches Some(t) ==> t.len() == 8 && (r == t || r == "cnt_"@ + t || r == "cnt:"@
            + t || r == "sha256:"@ + t),
{
    reveal_strlit("cnt_");
    reveal_strlit("cnt:");
    reveal_strlit("sha256:");
    assert forall|i: int| 0 <= i < 8 implies is_hex_digit(#[trigger] a[i]) by {
    }
    assert(is_alias(a));
    assert(is_hex_digit(a[0]) && is_hex_digit(a[1]));
    assert(!text::begins_with(a, "cnt_"@)) by {
        if text::begins_with(a, "cnt_"@) {
            assert(a.subrange(0, 4)[1] == 'n');
        }
    }
    assert(!text::begins_with(a, "cnt:"@)) by {
        if text::begins_with(a, "cnt:"@) {
            assert(a.subrange(0, 4)[1] == 'n');
        }
    }
    assert(!text::begins_with(a, "sha256:"@)) by {
        if text::begins_with(a, "sha256:"@) {
            assert(a.subrange(0, 7)[0] == 's');
        }
    }
    let x = "cnt_"@ + a;
    assert(x.subrange(0, 4) =~= "cnt_"@ && x.subrange(4, x.len() as int) =~= a);
    let y = "cnt:"@ + a;
    assert(y.subrange(0, 4) =~= "cnt:"@ && y.subrange(4, y.len() as int) =~= a);
    assert(!text::begins_with(y, "cnt_"@)) by {
        if text::begins_with(y, "cnt_"@) {
            assert(y.subrange(0, 4)[3] == '_');
        }
    }
    let z = "sha256:"@ + a;
    assert(z.subrange(0, 7) =~= "sha256:"@ && z.subrange(7, z.len() as int) =~= a);
    assert(!text::begins_with(z, "cnt_"@)) by {
        if text::begins_with(z, "cnt_"@) {
            assert(z.subrange(0, 4)[0] == 'c');
        }
    }
    assert(!text::begins_with(z, "cnt:"@)) by {
        if text::begins_with(z, "cnt:"@) {
            assert(z.subrange(0, 4)[0] == 'c');
        }
    }
    if let Some(t) = alias_in(r) {
        if text::begins_with(r, "cnt_"@) && t == r.subrange(4, r.len() as int) {
            assert(r =~= "cnt_"@ + t);
        } else if text::begins_with(r, "cnt:"@) && t == r.subrange(4, r.len() as int) {
            assert(r =~= "cnt:"@ + t);
        } else if text::begins_with(r, "sha256:"@) {
            assert(r =~= "sha256:"@ + t);
        }
    }
}

} // verus!
