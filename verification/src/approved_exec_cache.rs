//! Approvals of sandboxed commands that may be used again.
//!
//! An approval is kept under a fingerprint of the agent, the hosts that the
//! command reaches, what it runs, and the capabilities under which it was
//! approved. It expires with the grants.

use crate::clock;
use crate::clock::Instant;
use crate::digest;
use crate::order;
use crate::text;
use crate::textmap::TextMap;
use vstd::prelude::*;

verus! {

// ---------------------------------------------------------------------------
// Hosts
// ---------------------------------------------------------------------------

/// What kind of remote access a pattern shows.
#[derive(Debug, Clone, Copy, PartialEq, Eq, Structural)]
pub enum DetectedPatternCategory {
    UrlLiteral,
    IpAddress,
    HostConstant,
    Import,
    Other,
}

/// A sign of remote access in code.
#[derive(Debug)]
pub struct DetectedPattern {
    pub category: DetectedPatternCategory,
    pub pattern: String,
    pub line_number: Option<usize>,
    pub reason: String,
}

/// A letter of a URL's scheme: an ASCII letter, or one of the two characters
/// that count as the same letter when case is ignored.
pub open spec fn is_scheme_letter(c: char) -> bool {
    ('a' <= c && c <= 'z') || ('A' <= c && c <= 'Z') || c == '\u{17f}' || c == '\u{212a}'
}

/// Length of the run of scheme letters at `i`.
pub open spec fn letters_from(s: Seq<char>, i: int) -> nat
    decreases s.len() - i,
{
    if 0 <= i < s.len() && is_scheme_letter(s[i]) {
        1 + letters_from(s, i + 1)
    } else {
        0
    }
}

/// Length of the run of characters at `i` that a host may hold.
pub open spec fn host_chars_from(s: Seq<char>, i: int) -> nat
    decreases s.len() - i,
{
    if 0 <= i < s.len() && s[i] != '/' && s[i] != ':' {
        1 + host_chars_from(s, i + 1)
    } else {
        0
    }
}

/// The host of a URL: behind letters and `://`, the characters up to the next
/// slash or colon, without trailing dots and in lower case.
pub open spec fn url_host(url: Seq<char>) -> Option<Seq<char>> {
    let n = letters_from(url, 0) as int;
    let m = host_chars_from(url, n + 3) as int;
    if n > 0 && text::occurs_at(url, "://"@, n) && m > 0 {
        Some(text::lower_ascii(text::trim_end_char(url.subrange(n + 3, n + 3 + m), '.')))
    } else {
        None
    }
}

proof fn lemma_letters_bound(s: Seq<char>, i: int)
    requires
        0 <= i <= s.len(),
    ensures
        i + letters_from(s, i) <= s.len(),
    decreases s.len() - i,
{
    if i < s.len() && is_scheme_letter(s[i]) {
        lemma_letters_bound(s, i + 1);
    }
}

/// The host of a URL.
pub fn extract_host_from_url(url: &str) -> (r: Option<String>)
    ensures
        r.deep_view() == url_host(url@),
{
    let v = text::chars_of(url);
    let sep = text::chars_of("://");
    proof {
        reveal_strlit("://");
        lemma_letters_bound(v@, 0);
    }
    let mut n: usize = 0;
    while n < v.len() && (('a' <= v[n] && v[n] <= 'z') || ('A' <= v[n] && v[n] <= 'Z') || v[n]
        == '\u{17f}' || v[n] == '\u{212a}')
        invariant
            n <= v@.len(),
            n + letters_from(v@, n as int) == letters_from(v@, 0),
        decreases v@.len() - n,
    {
        n = n + 1;
    }
    if n == 0 || v.len() - n < 3 || !text::occurs_at_exec(&v, &sep, n) {
        return None;
    }
    let start: usize = n + 3;
    let mut end: usize = start;
    while end < v.len() && v[end] != '/' && v[end] != ':'
        invariant
            start <= end <= v@.len(),
            end - start + host_chars_from(v@, end as int) == host_chars_from(v@, start as int),
        decreases v@.len() - end,
    {
        end = end + 1;
    }
    if end == start {
        return None;
    }
    let host = text::string_of(&v, start, end);
    Some(text::ascii_lowered(text::trimmed_end_char(host.as_str(), '.').as_str()))
}

/// The host that a pattern names, where it names one.
pub open spec fn pattern_host(p: DetectedPattern) -> Option<Seq<char>> {
    match p.category {
        DetectedPatternCategory::UrlLiteral => url_host(p.pattern@),
        DetectedPatternCategory::IpAddress => Some(p.pattern@),
        DetectedPatternCategory::HostConstant => {
            let h = text::lower_ascii(text::trim_end_char(text::trim(p.pattern@), '.'));
            if h.len() > 0 {
                Some(h)
            } else {
                None
            }
        },
        _ => None,
    }
}

/// The hosts that the patterns name.
pub open spec fn named_hosts(patterns: Seq<DetectedPattern>) -> Set<Seq<char>> {
    Set::new(
        |h: Seq<char>|
            exists|i: int| 0 <= i < patterns.len() && pattern_host(#[trigger] patterns[i]) == Some(h),
    )
}

fn pattern_host_exec(p: &DetectedPattern) -> (r: Option<String>)
    ensures
        r.deep_view() == pattern_host(*p),
{
    match p.category {
        DetectedPatternCategory::UrlLiteral => extract_host_from_url(p.pattern.as_str()),
        DetectedPatternCategory::IpAddress => Some(p.pattern.clone()),
        DetectedPatternCategory::HostConstant => {
            let t = text::trimmed(p.pattern.as_str());
            let bare = text::trimmed_end_char(t.as_str(), '.');
            let h = text::ascii_lowered(bare.as_str());
            if text::chars_of(h.as_str()).len() > 0 {
                Some(h)
            } else {
                None
            }
        },
        _ => None,
    }
}

/// The hosts that the patterns name, each once and in ascending order.
pub fn normalize_targets(patterns: &[DetectedPattern]) -> (r: Vec<String>)
    ensures
        r.deep_view() == order::listing(named_hosts(patterns@)),
        order::lists(r.deep_view(), named_hosts(patterns@)),
{
    let mut hosts: Vec<String> = Vec::new();
    let mut i: usize = 0;
    assert(hosts.deep_view() =~= Seq::<Seq<char>>::empty());
    while i < patterns.len()
        invariant
            i <= patterns@.len(),
            hosts.deep_view().no_duplicates(),
            forall|h: Seq<char>| #[trigger]
                hosts.deep_view().contains(h) <==> exists|k: int|
                    0 <= k < i && pattern_host(#[trigger] patterns@[k]) == Some(h),
        decreases patterns@.len() - i,
    {
        let ghost before = hosts.deep_view();
        let found = pattern_host_exec(&patterns[i]);
        let ghost at = pattern_host(patterns@[i as int]);
        if let Some(h) = found {
            text::push_new(&mut hosts, h);
        }
        proof {
            let after = hosts.deep_view();
            assert forall|h: Seq<char>| #[trigger] after.contains(h) <==> exists|k: int|
                0 <= k < i + 1 && pattern_host(#[trigger] patterns@[k]) == Some(h) by {
                assert(after.contains(h) <==> (before.contains(h) || at == Some(h)));
                if before.contains(h) {
                    let k = choose|k: int|
                        0 <= k < i && pattern_host(#[trigger] patterns@[k]) == Some(h);
                    assert(0 <= k < i + 1 && pattern_host(patterns@[k]) == Some(h));
                }
            }
        }
        i = i + 1;
    }
    let r = order::sorted_listing(&hosts);
    proof {
        let set = named_hosts(patterns@);
        assert forall|t: Seq<char>| #[trigger] r.deep_view().contains(t) <==> set.contains(t) by {
            assert(hosts.deep_view().to_set().contains(t) <==> hosts.deep_view().contains(t));
        }
        order::lemma_listing(r.deep_view(), set);
    }
    r
}

// ---------------------------------------------------------------------------
// Fingerprints
// ---------------------------------------------------------------------------

/// The bytes of a text.
pub open spec fn bytes(s: Seq<char>) -> Seq<u8> {
    vstd::utf8::encode_utf8(s)
}

/// The `k` lowest bytes of a number, the lowest first.
pub open spec fn little_endian(n: nat, k: nat) -> Seq<u8>
    decreases k,
{
    if k == 0 {
        Seq::empty()
    } else {
        seq![(n % 0x100) as u8] + little_endian(n / 0x100, (k - 1) as nat)
    }
}

/// A length as eight bytes, the lowest first.
pub open spec fn length_prefix(n: u64) -> Seq<u8> {
    little_endian(n as nat, 8)
}

/// The texts one behind the other, each with its length before it.
pub open spec fn framed(parts: Seq<Seq<char>>) -> Seq<u8>
    decreases parts.len(),
{
    if parts.len() == 0 {
        Seq::empty()
    } else {
        framed(parts.drop_last()) + length_prefix(text::byte_len(parts.last()) as u64) + bytes(
            parts.last(),
        )
    }
}

/// The digest of a set of capabilities: of their renderings in ascending order.
pub open spec fn caps_digest(rendered: Seq<Seq<char>>) -> Seq<char> {
    digest::hex_text(digest::sha256(framed(order::ascending(rendered))))
}

fn push_length(out: &mut Vec<u8>, n: u64)
    ensures
        final(out)@ == old(out)@ + length_prefix(n),
{
    let ghost before = out@;
    let mut rest: u64 = n;
    let mut k: usize = 8;
    assert(before + length_prefix(n) =~= out@ + length_prefix(n));
    while k > 0
        invariant
            k <= 8,
            out@ + little_endian(rest as nat, k as nat) == before + length_prefix(n),
        decreases k,
    {
        proof {
            let low = (rest as nat % 0x100) as u8;
            let high = little_endian(rest as nat / 0x100, (k - 1) as nat);
            assert(out@ + (seq![low] + high) =~= out@.push(low) + high);
        }
        out.push((rest % 0x100) as u8);
        rest = rest / 0x100;
        k = k - 1;
    }
    assert(out@ =~= before + length_prefix(n));
}

/// The digest of a set of capabilities, whatever their order. `rendered` holds
/// each of them as text.
pub fn capability_digest(rendered: &Vec<String>) -> (r: String)
    ensures
        r@ == caps_digest(rendered.deep_view()),
{
    let parts = order::ascending_texts(rendered);
    let ghost all = parts.deep_view();
    let mut buf: Vec<u8> = Vec::new();
    let mut i: usize = 0;
    assert(buf@ =~= framed(all.subrange(0, 0)));
    while i < parts.len()
        invariant
            i <= parts@.len(),
            all == parts.deep_view(),
            buf@ == framed(all.subrange(0, i as int)),
        decreases parts@.len() - i,
    {
        proof {
            let t = all.subrange(0, i + 1);
            assert(t.drop_last() =~= all.subrange(0, i as int));
            assert(t.last() == parts@[i as int]@);
        }
        push_length(&mut buf, text::byte_count(parts[i].as_str()) as u64);
        digest::append_bytes(&mut buf, parts[i].as_str().as_bytes());
        i = i + 1;
    }
    assert(all.subrange(0, i as int) =~= all);
    digest::hex_of(digest::sha256_of(buf.as_slice()).as_slice())
}

/// The digest does not depend on the order of the capabilities.
pub proof fn capability_order_is_irrelevant(a: Seq<Seq<char>>, b: Seq<Seq<char>>)
    requires
        a.to_multiset() == b.to_multiset(),
    ensures
        caps_digest(a) == caps_digest(b),
{
    order::lemma_ascending_ignores_order(a, b);
}

/// What is digested stands for one list of renderings alone: no two lists are
/// framed alike, whatever characters the renderings hold.
pub proof fn framing_is_unambiguous(a: Seq<Seq<char>>, b: Seq<Seq<char>>)
    requires
        framed(a) == framed(b),
        forall|i: int| 0 <= i < a.len() ==> text::byte_len(#[trigger] a[i]) <= u64::MAX,
        forall|i: int| 0 <= i < b.len() ==> text::byte_len(#[trigger] b[i]) <= u64::MAX,
    ensures
        a == b,
    decreases a.len() + b.len(),
{
    if a.len() == 0 {
        if b.len() > 0 {
            lemma_prefix_len(text::byte_len(b.last()) as u64 as nat, 8);
            assert(framed(b).len() >= 8);
        }
        assert(a =~= b);
    } else if b.len() == 0 {
        lemma_prefix_len(text::byte_len(a.last()) as u64 as nat, 8);
        assert(framed(a).len() >= 8);
    } else {
        lemma_framed_front(a);
        lemma_framed_front(b);
        let ra = a.subrange(1, a.len() as int);
        let rb = b.subrange(1, b.len() as int);
        let na = text::byte_len(a[0]) as u64;
        let nb = text::byte_len(b[0]) as u64;
        let fa = length_prefix(na) + bytes(a[0]) + framed(ra);
        let fb = length_prefix(nb) + bytes(b[0]) + framed(rb);
        assert(fa == fb);
        lemma_prefix_len(na as nat, 8);
        lemma_prefix_len(nb as nat, 8);
        assert(length_prefix(na) =~= fa.subrange(0, 8));
        assert(length_prefix(nb) =~= fb.subrange(0, 8));
        lemma_length_prefix(na, nb);
        assert(bytes(a[0]) =~= fa.subrange(8, 8 + na as int));
        assert(bytes(b[0]) =~= fb.subrange(8, 8 + nb as int));
        assert(framed(ra) =~= fa.subrange(8 + na as int, fa.len() as int));
        assert(framed(rb) =~= fb.subrange(8 + nb as int, fb.len() as int));
        vstd::utf8::encode_utf8_decode_utf8(a[0]);
        vstd::utf8::encode_utf8_decode_utf8(b[0]);
        assert forall|i: int| 0 <= i < ra.len() implies text::byte_len(#[trigger] ra[i])
            <= u64::MAX by {
            assert(ra[i] == a[i + 1]);
        }
        assert forall|i: int| 0 <= i < rb.len() implies text::byte_len(#[trigger] rb[i])
            <= u64::MAX by {
            assert(rb[i] == b[i + 1]);
        }
        framing_is_unambiguous(ra, rb);
        assert(a =~= seq![a[0]] + ra);
        assert(b =~= seq![b[0]] + rb);
    }
}

spec fn bytes_bound(k: nat) -> nat
    decreases k,
{
    if k == 0 {
        1
    } else {
        0x100 * bytes_bound((k - 1) as nat)
    }
}

proof fn lemma_little_endian(a: nat, b: nat, k: nat)
    requires
        little_endian(a, k) == little_endian(b, k),
        a < bytes_bound(k),
        b < bytes_bound(k),
    ensures
        a == b,
    decreases k,
{
    if k > 0 {
        let ra = little_endian(a / 0x100, (k - 1) as nat);
        let rb = little_endian(b / 0x100, (k - 1) as nat);
        let la = little_endian(a, k);
        let lb = little_endian(b, k);
        assert(la[0] == (a % 0x100) as u8 && lb[0] == (b % 0x100) as u8);
        assert(ra =~= la.subrange(1, la.len() as int));
        assert(rb =~= lb.subrange(1, lb.len() as int));
        lemma_little_endian(a / 0x100, b / 0x100, (k - 1) as nat);
    }
}

proof fn lemma_length_prefix(a: u64, b: u64)
    requires
        length_prefix(a) == length_prefix(b),
    ensures
        a == b,
{
    reveal_with_fuel(bytes_bound, 9);
    assert(bytes_bound(8) == 0x1_0000_0000_0000_0000);
    lemma_little_endian(a as nat, b as nat, 8);
}

proof fn lemma_prefix_len(n: nat, k: nat)
    ensures
        little_endian(n, k).len() == k,
    decreases k,
{
    if k > 0 {
        lemma_prefix_len(n / 0x100, (k - 1) as nat);
    }
}

/// The first text and its length stand at the front.
proof fn lemma_framed_front(a: Seq<Seq<char>>)
    requires
        a.len() > 0,
    ensures
        framed(a) == length_prefix(text::byte_len(a[0]) as u64) + bytes(a[0]) + framed(
            a.subrange(1, a.len() as int),
        ),
    decreases a.len(),
{
    let head = length_prefix(text::byte_len(a[0]) as u64) + bytes(a[0]);
    let rest = a.subrange(1, a.len() as int);
    if a.len() == 1 {
        assert(a.drop_last() =~= Seq::<Seq<char>>::empty());
        assert(rest =~= Seq::<Seq<char>>::empty());
        assert(framed(a) =~= head + framed(rest));
    } else {
        let d = a.drop_last();
        lemma_framed_front(d);
        assert(rest.drop_last() =~= d.subrange(1, d.len() as int));
        assert(rest.last() == a.last());
        assert(framed(a) =~= head + framed(rest));
    }
}

/// What a fingerprint is the digest of.
pub open spec fn fingerprint_input(
    agent_id: Seq<char>,
    targets: Seq<Seq<char>>,
    code: Seq<char>,
    artifact: Option<Seq<char>>,
    caps: Seq<char>,
) -> Seq<u8> {
    bytes(agent_id) + bytes("|"@) + bytes(text::join(targets, ","@)) + bytes("|"@) + (match artifact {
        Some(d) => bytes("artifact:"@) + bytes(d),
        None => bytes("code:"@) + bytes(code),
    }) + bytes("|caps:"@) + bytes(caps)
}

/// The fingerprint of a command.
pub open spec fn fingerprint(
    agent_id: Seq<char>,
    targets: Seq<Seq<char>>,
    code: Seq<char>,
    artifact: Option<Seq<char>>,
    capabilities: Seq<Seq<char>>,
) -> Seq<char> {
    "sha256:"@ + digest::hex_text(
        digest::sha256(
            fingerprint_input(agent_id, targets, code, artifact, caps_digest(capabilities)),
        ),
    )
}

/// The fingerprint of a command. What runs is identified by the digest of the
/// artifact, where there is one, and else by the code.
pub fn compute_fingerprint(
    agent_id: &str,
    targets: &Vec<String>,
    code_to_analyze: &str,
    artifact_canonical_digest: Option<&str>,
    capabilities: &Vec<String>,
) -> (r: String)
    ensures
        r@ == fingerprint(
            agent_id@,
            targets.deep_view(),
            code_to_analyze@,
            match artifact_canonical_digest {
                Some(d) => Some(d@),
                None => None,
            },
            capabilities.deep_view(),
        ),
{
    let ghost artifact = match artifact_canonical_digest {
        Some(d) => Some(d@),
        None => None,
    };
    let caps = capability_digest(capabilities);
    let mut buf: Vec<u8> = Vec::new();
    digest::append_bytes(&mut buf, agent_id.as_bytes());
    digest::append_bytes(&mut buf, "|".as_bytes());
    digest::append_bytes(&mut buf, text::joined(targets, ",").as_str().as_bytes());
    digest::append_bytes(&mut buf, "|".as_bytes());
    match artifact_canonical_digest {
        Some(d) => {
            digest::append_bytes(&mut buf, "artifact:".as_bytes());
            digest::append_bytes(&mut buf, d.as_bytes());
        },
        None => {
            digest::append_bytes(&mut buf, "code:".as_bytes());
            digest::append_bytes(&mut buf, code_to_analyze.as_bytes());
        },
    }
    digest::append_bytes(&mut buf, "|caps:".as_bytes());
    digest::append_bytes(&mut buf, caps.as_str().as_bytes());
    assert(buf@ =~= fingerprint_input(
        agent_id@,
        targets.deep_view(),
        code_to_analyze@,
        artifact,
        caps@,
    ));
    let mut out = "sha256:".to_owned();
    out.append(digest::hex_of(digest::sha256_of(buf.as_slice()).as_slice()).as_str());
    out
}

/// A command that runs an artifact keeps its fingerprint, however the artifact
/// is invoked.
pub proof fn artifacts_outlive_their_wrappers(
    agent_id: Seq<char>,
    targets: Seq<Seq<char>>,
    code: Seq<char>,
    other_code: Seq<char>,
    artifact: Seq<char>,
    capabilities: Seq<Seq<char>>,
)
    ensures
        fingerprint(agent_id, targets, code, Some(artifact), capabilities) == fingerprint(
            agent_id,
            targets,
            other_code,
            Some(artifact),
            capabilities,
        ),
{
}

// ---------------------------------------------------------------------------
// The cache
// ---------------------------------------------------------------------------

/// Seconds for which grants last, unless it is configured.
pub const DEFAULT_GRANT_TTL_SECS: u64 = 86_400;

/// Seconds for which approvals may be used again: as long as grants last.
pub fn cache_ttl_secs(configured: Option<u64>) -> (r: u64)
    ensures
        r == (match configured {
            Some(t) => t,
            None => DEFAULT_GRANT_TTL_SECS,
        }),
{
    match configured {
        Some(t) => t,
        None => DEFAULT_GRANT_TTL_SECS,
    }
}

/// An approval that may be used again.
#[derive(Debug)]
pub struct ApprovedExecEntry {
    pub fingerprint: String,
    pub agent_id: String,
    pub remote_targets: Vec<String>,
    pub code_content: String,
    pub approval_request_id: String,
    pub approved_at: String,
    pub approved_by: String,
    pub last_used_at: String,
}

impl Clone for ApprovedExecEntry {
    fn clone(&self) -> (r: ApprovedExecEntry)
        ensures
            r.fingerprint == self.fingerprint,
            r.agent_id == self.agent_id,
            r.remote_targets@ == self.remote_targets@,
            r.code_content == self.code_content,
            r.approval_request_id == self.approval_request_id,
            r.approved_at == self.approved_at,
            r.approved_by == self.approved_by,
            r.last_used_at == self.last_used_at,
    {
        ApprovedExecEntry {
            fingerprint: self.fingerprint.clone(),
            agent_id: self.agent_id.clone(),
            remote_targets: text::clone_all(&self.remote_targets),
            code_content: self.code_content.clone(),
            approval_request_id: self.approval_request_id.clone(),
            approved_at: self.approved_at.clone(),
            approved_by: self.approved_by.clone(),
            last_used_at: self.last_used_at.clone(),
        }
    }
}

/// Two entries are alike in every field.
pub open spec fn same_entry(a: ApprovedExecEntry, b: ApprovedExecEntry) -> bool {
    &&& a.fingerprint == b.fingerprint
    &&& a.agent_id == b.agent_id
    &&& a.remote_targets@ == b.remote_targets@
    &&& a.code_content == b.code_content
    &&& a.approval_request_id == b.approval_request_id
    &&& a.approved_at == b.approved_at
    &&& a.approved_by == b.approved_by
    &&& a.last_used_at == b.last_used_at
}

/// An approval given at `approved` is no longer good at `now`. A lifetime of
/// zero never ends; an approval whose time is unknown is not good. A leap second
/// counts as the second that it extends.
pub open spec fn expired(approved: Option<Instant>, ttl_secs: u64, now: Instant) -> bool {
    ttl_secs != 0 && match approved {
        None => true,
        Some(a) => {
            let end = a.secs + ttl_secs;
            let nanos = if a.nanos >= 1_000_000_000 {
                a.nanos - 1_000_000_000
            } else {
                a.nanos as int
            };
            end < now.secs || (end == now.secs && nanos <= now.nanos)
        },
    }
}

/// Whether an approval given at `approved` is no longer good at `now`.
pub fn is_expired(approved: Option<Instant>, ttl_secs: u64, now: Instant) -> (r: bool)
    ensures
        r == expired(approved, ttl_secs, now),
{
    if ttl_secs == 0 {
        return false;
    }
    match approved {
        None => true,
        Some(a) => {
            let end: i128 = a.secs as i128 + ttl_secs as i128;
            let nanos: u32 = if a.nanos >= 1_000_000_000 {
                a.nanos - 1_000_000_000
            } else {
                a.nanos
            };
            let at: i128 = now.secs as i128;
            end < at || (end == at && nanos <= now.nanos)
        },
    }
}

/// An approval that has expired stays expired.
pub proof fn expiry_is_final(approved: Option<Instant>, ttl_secs: u64, now: Instant, later: Instant)
    requires
        expired(approved, ttl_secs, now),
        now.secs < later.secs || (now.secs == later.secs && now.nanos <= later.nanos),
    ensures
        expired(approved, ttl_secs, later),
{
}

/// The approvals that may be used again, by fingerprint.
pub struct ApprovedExecCache {
    pub entries: TextMap<ApprovedExecEntry>,
}

impl ApprovedExecCache {
    /// A cache of approvals that were read from disk.
    pub fn new(entries: TextMap<ApprovedExecEntry>) -> (r: ApprovedExecCache)
        ensures
            r.entries@ == entries@,
    {
        ApprovedExecCache { entries }
    }

    /// Keeps an approval under its fingerprint.
    pub fn record(&mut self, entry: ApprovedExecEntry)
        ensures
            final(self).entries@ == old(self).entries@.insert(entry.fingerprint@, entry),
    {
        let key = entry.fingerprint.clone();
        self.entries.insert(key.as_str(), entry);
    }

    /// An approval is good at `now`.
    pub open spec fn live(self, fingerprint: Seq<char>, ttl_secs: u64, now: Instant) -> bool {
        self.entries@.dom().contains(fingerprint) && !expired(
            clock::rfc3339_instant(self.entries@[fingerprint].approved_at@),
            ttl_secs,
            now,
        )
    }

    /// `r` is what a search at `now` gives, and `after` is what it leaves of the
    /// cache: the approval where it is good; where it is not, it is removed.
    pub open spec fn is_found(
        self,
        after: ApprovedExecCache,
        fingerprint: Seq<char>,
        ttl_secs: u64,
        now: Instant,
        r: Option<ApprovedExecEntry>,
    ) -> bool {
        match r {
            Some(e) => self.live(fingerprint, ttl_secs, now) && same_entry(
                e,
                self.entries@[fingerprint],
            ) && after.entries@ == self.entries@,
            None => !self.live(fingerprint, ttl_secs, now) && after.entries@
                == self.entries@.remove(fingerprint),
        }
    }

    /// The time at which an approval was given cannot be read.
    pub open spec fn is_undated(self, fingerprint: Seq<char>) -> bool {
        self.entries@.dom().contains(fingerprint) && clock::rfc3339_instant(
            self.entries@[fingerprint].approved_at@,
        ) is None
    }

    /// The approval under a fingerprint, where it is good at `now`. One that is
    /// no longer good is removed. A lifetime of zero looks at existence alone.
    pub fn find_at(&mut self, fingerprint: &str, ttl_secs: u64, now: Instant) -> (r: Option<
        ApprovedExecEntry,
    >)
        ensures
            old(self).is_found(*final(self), fingerprint@, ttl_secs, now, r),
    {
        let stale = match self.entries.get(fingerprint) {
            None => {
                assert(self.entries@.remove(fingerprint@) =~= self.entries@);
                return None;
            },
            Some(e) => is_expired(clock::parse_rfc3339(e.approved_at.as_str()), ttl_secs, now),
        };
        if stale {
            let _gone = self.entries.remove(fingerprint);
            return None;
        }
        match self.entries.get(fingerprint) {
            Some(e) => Some(e.clone()),
            None => None,
        }
    }

    /// The approval under a fingerprint, where it is good at present. With a lifetime,
    /// one whose time cannot be read is refused and removed, whatever the time is.
    pub fn find(&mut self, fingerprint: &str, ttl_secs: u64) -> (r: Option<ApprovedExecEntry>)
        ensures
            exists|now: Instant| #[trigger]
                old(self).is_found(*final(self), fingerprint@, ttl_secs, now, r),
            ttl_secs != 0 && old(self).is_undated(fingerprint@) ==> r is None
                && !final(self).entries@.dom().contains(fingerprint@),
            ttl_secs == 0 ==> (r is Some <==> old(self).entries@.dom().contains(fingerprint@)),
    {
        let now = clock::now();
        self.find_at(fingerprint, ttl_secs, now)
    }

    /// Removes an approval, so that the next such command needs a new one.
    pub fn remove(&mut self, fingerprint: &str) -> (r: bool)
        ensures
            r == old(self).entries@.dom().contains(fingerprint@),
            final(self).entries@ == old(self).entries@.remove(fingerprint@),
    {
        self.entries.remove(fingerprint).is_some()
    }

    /// Removes all approvals and says how many there were.
    pub fn clear(&mut self) -> (r: usize)
        ensures
            r == old(self).entries.key_seq().len(),
            final(self).entries@ == Map::<Seq<char>, ApprovedExecEntry>::empty(),
    {
        let n = self.entries.len();
        self.entries = TextMap::new();
        n
    }

    /// Notes that an approval was used at `now`.
    pub fn update_last_used_at(&mut self, fingerprint: &str, now: &str)
        ensures
            final(self).entries@.dom() == old(self).entries@.dom(),
            forall|k: Seq<char>| #[trigger]
                old(self).entries@.dom().contains(k) && k != fingerprint@
                    ==> final(self).entries@[k] == old(self).entries@[k],
            old(self).entries@.dom().contains(fingerprint@) ==> {
                let before = old(self).entries@[fingerprint@];
                let after = final(self).entries@[fingerprint@];
                after.last_used_at@ == now@ && same_entry(
                    after,
                    ApprovedExecEntry { last_used_at: after.last_used_at, ..before },
                )
            },
    {
        let entry = match self.entries.get(fingerprint) {
            Some(e) => e.clone(),
            None => {
                return;
            },
        };
        let mut next = entry;
        next.last_used_at = now.to_owned();
        self.entries.insert(fingerprint, next);
        assert(self.entries@.dom() =~= old(self).entries@.dom());
    }

    /// Notes that an approval was used at present.
    pub fn update_last_used(&mut self, fingerprint: &str)
        ensures
            final(self).entries@.dom() == old(self).entries@.dom(),
            forall|k: Seq<char>| #[trigger]
                old(self).entries@.dom().contains(k) && k != fingerprint@
                    ==> final(self).entries@[k] == old(self).entries@[k],
            old(self).entries@.dom().contains(fingerprint@) ==> {
                let before = old(self).entries@[fingerprint@];
                let after = final(self).entries@[fingerprint@];
                clock::is_utc_text(after.last_used_at@) && same_entry(
                    after,
                    ApprovedExecEntry { last_used_at: after.last_used_at, ..before },
                )
            },
    {
        let now = clock::now_rfc3339();
        self.update_last_used_at(fingerprint, now.as_str())
    }

    /// Number of approvals.
    pub fn len(&self) -> (n: usize)
        ensures
            n == self.entries.key_seq().len(),
            self.entries.key_seq().no_duplicates(),
            forall|k: Seq<char>|
                self.entries.key_seq().contains(k) <==> #[trigger] self.entries@.dom().contains(k),
    {
        self.entries.len()
    }

    /// All approvals, by the time at which they were given.
    pub fn all(&self) -> (r: Vec<ApprovedExecEntry>)
        ensures
            r@.len() == self.entries.key_seq().len(),
            forall|i: int, j: int|
                0 <= i < j < r@.len() ==> !order::text_lt(
                    (#[trigger] r@[j]).approved_at@,
                    (#[trigger] r@[i]).approved_at@,
                ),
            exists|by: Seq<usize>|
                by.no_duplicates() && #[trigger] by.len() == r@.len() && forall|i: int|
                    0 <= i < by.len() ==> 0 <= #[trigger] by[i] < self.entries.key_seq().len()
                        && same_entry(
                        r@[i],
                        self.entries@[self.entries.key_seq()[by[i] as int]],
                    ),
    {
        let n = self.entries.len();
        let ghost names = self.entries.key_seq();
        let mut keys: Vec<(u64, String)> = Vec::new();
        let mut i: usize = 0;
        while i < n
            invariant
                i <= n,
                n == names.len(),
                names == self.entries.key_seq(),
                keys@.len() == i,
                forall|k: int|
                    0 <= k < i ==> (#[trigger] keys@[k]).0 == 0 && keys@[k].1@
                        == self.entries@[names[k]].approved_at@,
            decreases n - i,
        {
            keys.push((0, self.entries.value_at(i).approved_at.clone()));
            i = i + 1;
        }
        let ghost ks = keys.deep_view();
        assert forall|k: int| 0 <= k < ks.len() implies #[trigger] ks[k] == (
            0u64,
            self.entries@[names[k]].approved_at@,
        ) by {
            assert(ks[k] == keys@[k].deep_view());
        }
        let by = order::stable_order(&keys);
        let mut out: Vec<ApprovedExecEntry> = Vec::new();
        let mut j: usize = 0;
        while j < by.len()
            invariant
                j <= by@.len(),
                n == names.len(),
                by@.len() == n,
                names == self.entries.key_seq(),
                forall|k: int| 0 <= k < by@.len() ==> 0 <= #[trigger] by@[k] < n,
                out@.len() == j,
                forall|k: int|
                    0 <= k < j ==> same_entry(
                        #[trigger] out@[k],
                        self.entries@[names[by@[k] as int]],
                    ),
            decreases by@.len() - j,
        {
            out.push(self.entries.value_at(by[j]).clone());
            j = j + 1;
        }
        proof {
            order::lemma_stable_order_injective(ks, by@);
            assert forall|x: int, y: int| 0 <= x < y < out@.len() implies !order::text_lt(
                (#[trigger] out@[y]).approved_at@,
                (#[trigger] out@[x]).approved_at@,
            ) by {
                assert(order::precedes(ks, by@[x] as int, by@[y] as int));
                order::lemma_text_total(out@[x].approved_at@, out@[y].approved_at@);
            }
            assert(by@.no_duplicates() && by@.len() == out@.len());
        }
        out
    }
}

/// What is needed to record an approval that cleared a command.
#[derive(Debug)]
pub struct ApprovedExecCacheBackfill {
    pub fingerprint: String,
    pub agent_id: String,
    pub remote_targets: Vec<String>,
    pub code_content: String,
    pub approval_request_id: String,
    pub ttl_secs: u64,
}

impl ApprovedExecCacheBackfill {
    /// An entry records this approval, given at `at`.
    pub open spec fn is_entry(self, e: ApprovedExecEntry, at: Seq<char>) -> bool {
        &&& e.fingerprint@ == self.fingerprint@
        &&& e.agent_id@ == self.agent_id@
        &&& e.remote_targets@ == self.remote_targets@
        &&& e.code_content@ == self.code_content@
        &&& e.approval_request_id@ == self.approval_request_id@
        &&& e.approved_at@ == at
        &&& e.approved_by@ == "operator"@
        &&& e.last_used_at@ == at
    }

    /// `after` is the cache `before` with the approval recorded at `now`, which is
    /// `at` as text, unless one that is still good is there.
    pub open spec fn is_recorded(
        self,
        before: ApprovedExecCache,
        after: ApprovedExecCache,
        now: Instant,
        at: Seq<char>,
    ) -> bool {
        if before.live(self.fingerprint@, self.ttl_secs, now) {
            after.entries@ == before.entries@
        } else {
            &&& after.entries@.dom() == before.entries@.dom().insert(self.fingerprint@)
            &&& self.is_entry(after.entries@[self.fingerprint@], at)
            &&& forall|k: Seq<char>| #[trigger]
                before.entries@.dom().contains(k) && k != self.fingerprint@ ==> after.entries@[k]
                    == before.entries@[k]
        }
    }

    /// Records the approval at `now`, unless one that is still good is there.
    /// One that has expired gives way. `at` is `now` as text.
    pub fn record_if_missing_at(&self, cache: &mut ApprovedExecCache, now: Instant, at: &str)
        ensures
            self.is_recorded(*old(cache), *final(cache), now, at@),
    {
        if cache.find_at(self.fingerprint.as_str(), self.ttl_secs, now).is_some() {
            return;
        }
        cache.record(
            ApprovedExecEntry {
                fingerprint: self.fingerprint.clone(),
                agent_id: self.agent_id.clone(),
                remote_targets: text::clone_all(&self.remote_targets),
                code_content: self.code_content.clone(),
                approval_request_id: self.approval_request_id.clone(),
                approved_at: at.to_owned(),
                approved_by: "operator".to_owned(),
                last_used_at: at.to_owned(),
            },
        );
        assert(cache.entries@.dom() =~= old(cache).entries@.dom().insert(self.fingerprint@));
    }

    /// Records the approval at present, unless one that is still good is there. With a
    /// lifetime, one whose time cannot be read gives way, whatever the time is.
    pub fn record_if_missing(&self, cache: &mut ApprovedExecCache)
        ensures
            exists|now: Instant, at: Seq<char>|
                clock::is_utc_text(at) && #[trigger] self.is_recorded(
                    *old(cache),
                    *final(cache),
                    now,
                    at,
                ),
            !old(cache).entries@.dom().contains(self.fingerprint@) || (self.ttl_secs != 0
                && old(cache).is_undated(self.fingerprint@)) ==> exists|at: Seq<char>|
                clock::is_utc_text(at) && #[trigger] self.is_entry(
                    final(cache).entries@[self.fingerprint@],
                    at,
                ),
            self.ttl_secs == 0 && old(cache).entries@.dom().contains(self.fingerprint@)
                ==> final(cache).entries@ == old(cache).entries@,
    {
        let now = clock::now();
        let at = clock::now_rfc3339();
        self.record_if_missing_at(cache, now, at.as_str());
        assert(self.is_recorded(*old(cache), *cache, now, at@));
    }
}

// ---------------------------------------------------------------------------
// Laws of hosts, fingerprints and approvals
// ---------------------------------------------------------------------------

proof fn lemma_letters_from(s: Seq<char>, n: int, i: int)
    requires
        0 <= i <= n <= s.len(),
        forall|k: int| i <= k < n ==> is_scheme_letter(#[trigger] s[k]),
        n < s.len() ==> !is_scheme_letter(s[n]),
    ensures
        letters_from(s, i) == n - i,
    decreases n - i,
{
    if i < n {
        assert(is_scheme_letter(s[i]));
        lemma_letters_from(s, n, i + 1);
    }
}

proof fn lemma_host_chars_from(s: Seq<char>, n: int, i: int)
    requires
        0 <= i <= n <= s.len(),
        forall|k: int| i <= k < n ==> (#[trigger] s[k]) != '/' && s[k] != ':',
        n < s.len() ==> s[n] == '/' || s[n] == ':',
    ensures
        host_chars_from(s, i) == n - i,
    decreases n - i,
{
    if i < n {
        assert(s[i] != '/' && s[i] != ':');
        lemma_host_chars_from(s, n, i + 1);
    }
}

/// The host of a URL is what stands between `://` and the next slash or colon, in lower
/// case, without a dot at its end; whatever the scheme, the port and the path are.
pub proof fn urls_name_their_host(scheme: Seq<char>, host: Seq<char>, rest: Seq<char>)
    requires
        scheme.len() > 0,
        forall|i: int|
            0 <= i < scheme.len() ==> ('a' <= #[trigger] scheme[i] && scheme[i] <= 'z') || ('A'
                <= scheme[i] && scheme[i] <= 'Z'),
        host.len() > 0,
        !host.contains('/'),
        !host.contains(':'),
        rest.len() == 0 || rest[0] == '/' || rest[0] == ':',
        host.last() != '.',
    ensures
        url_host(scheme + "://"@ + host + rest) == Some(text::lower_ascii(host)),
{
    reveal_strlit("://");
    let url = scheme + "://"@ + host + rest;
    let n = scheme.len() as int;
    let e = n + 3 + host.len();
    assert forall|k: int| 0 <= k < n implies is_scheme_letter(#[trigger] url[k]) by {
        assert(url[k] == scheme[k]);
    }
    assert(url[n] == ':');
    lemma_letters_from(url, n, 0);
    assert forall|k: int| n + 3 <= k < e implies (#[trigger] url[k]) != '/' && url[k] != ':' by {
        assert(url[k] == host[k - n - 3]);
        assert(host.contains(host[k - n - 3]));
    }
    if e < url.len() {
        assert(url[e] == rest[0]);
    }
    lemma_host_chars_from(url, e, n + 3);
    assert(url.subrange(n, n + 3) =~= "://"@);
    assert(url.subrange(n + 3, e) =~= host);
}

/// The hosts that a command reaches are those of its URLs, its addresses as they are, and
/// its host names, trimmed, without trailing dots and in lower case.
pub proof fn detected_patterns_name_their_hosts(patterns: Seq<DetectedPattern>, i: int)
    requires
        0 <= i < patterns.len(),
    ensures
        patterns[i].category is IpAddress ==> named_hosts(patterns).contains(patterns[i].pattern@),
        patterns[i].category is UrlLiteral ==> (url_host(patterns[i].pattern@) matches Some(h)
            ==> named_hosts(patterns).contains(h)),
        patterns[i].category is HostConstant ==> ({
            let h = text::lower_ascii(
                text::trim_end_char(text::trim(patterns[i].pattern@), '.'),
            );
            h.len() > 0 ==> named_hosts(patterns).contains(h)
        }),
{
    let p = patterns[i];
    if let Some(h) = pattern_host(p) {
        assert(pattern_host(patterns[i]) == Some(h));
        assert(named_hosts(patterns).contains(h));
    }
}

/// A host that is named comes from one of the patterns.
pub proof fn named_hosts_come_from_patterns(patterns: Seq<DetectedPattern>, h: Seq<char>)
    requires
        named_hosts(patterns).contains(h),
    ensures
        exists|i: int|
            0 <= i < patterns.len() && ({
                let p = #[trigger] patterns[i];
                ||| p.category is IpAddress && h == p.pattern@
                ||| p.category is UrlLiteral && url_host(p.pattern@) == Some(h)
                ||| p.category is HostConstant && h == text::lower_ascii(
                    text::trim_end_char(text::trim(p.pattern@), '.'),
                )
            }),
{
    let i = choose|i: int| 0 <= i < patterns.len() && pattern_host(#[trigger] patterns[i]) == Some(h);
    assert(patterns[i].category is IpAddress || patterns[i].category is UrlLiteral
        || patterns[i].category is HostConstant);
}

/// What a fingerprint is made from differs with the agent.
pub proof fn fingerprints_depend_on_the_agent(
    agent: Seq<char>,
    other: Seq<char>,
    targets: Seq<Seq<char>>,
    code: Seq<char>,
    artifact: Option<Seq<char>>,
    caps: Seq<char>,
)
    requires
        bytes(agent) != bytes(other),
    ensures
        fingerprint_input(agent, targets, code, artifact, caps) != fingerprint_input(
            other,
            targets,
            code,
            artifact,
            caps,
        ),
{
    let tail = fingerprint_tail(targets, code, artifact, caps);
    lemma_fingerprint_tail(agent, targets, code, artifact, caps);
    lemma_fingerprint_tail(other, targets, code, artifact, caps);
    lemma_same_end(bytes(agent), bytes(other), tail);
}

/// What a fingerprint is made from differs with the hosts that the command reaches.
pub proof fn fingerprints_depend_on_the_targets(
    agent: Seq<char>,
    targets: Seq<Seq<char>>,
    others: Seq<Seq<char>>,
    code: Seq<char>,
    artifact: Option<Seq<char>>,
    caps: Seq<char>,
)
    requires
        bytes(text::join(targets, ","@)) != bytes(text::join(others, ","@)),
    ensures
        fingerprint_input(agent, targets, code, artifact, caps) != fingerprint_input(
            agent,
            others,
            code,
            artifact,
            caps,
        ),
{
    let front = bytes(agent) + bytes("|"@);
    let t = bytes(text::join(targets, ","@));
    let u = bytes(text::join(others, ","@));
    let end = fingerprint_end(code, artifact, caps);
    lemma_fingerprint_end(agent, targets, code, artifact, caps);
    lemma_fingerprint_end(agent, others, code, artifact, caps);
    lemma_same_start(front, t + end, u + end);
    lemma_same_end(t, u, end);
}

spec fn fingerprint_end(code: Seq<char>, artifact: Option<Seq<char>>, caps: Seq<char>) -> Seq<u8> {
    bytes("|"@) + fingerprinted(code, artifact) + bytes("|caps:"@) + bytes(caps)
}

proof fn lemma_fingerprint_end(
    agent: Seq<char>,
    targets: Seq<Seq<char>>,
    code: Seq<char>,
    artifact: Option<Seq<char>>,
    caps: Seq<char>,
)
    ensures
        fingerprint_input(agent, targets, code, artifact, caps) == bytes(agent) + bytes("|"@) + (
        bytes(text::join(targets, ","@)) + fingerprint_end(code, artifact, caps)),
{
    let front = bytes(agent) + bytes("|"@);
    let t = bytes(text::join(targets, ","@));
    let end = fingerprint_end(code, artifact, caps);
    assert(fingerprint_input(agent, targets, code, artifact, caps) =~= front + (t + end));
}

/// What a fingerprint is made from differs with the code, where no artifact is run, with the
/// artifact where one is, and with the capabilities.
pub proof fn fingerprints_depend_on_what_is_run(
    agent: Seq<char>,
    targets: Seq<Seq<char>>,
    code: Seq<char>,
    other: Seq<char>,
    artifact: Option<Seq<char>>,
    caps: Seq<char>,
)
    requires
        bytes(code) != bytes(other),
    ensures
        fingerprint_input(agent, targets, code, None, caps) != fingerprint_input(
            agent,
            targets,
            other,
            None,
            caps,
        ),
        fingerprint_input(agent, targets, caps, Some(code), caps) != fingerprint_input(
            agent,
            targets,
            caps,
            Some(other),
            caps,
        ),
        fingerprint_input(agent, targets, caps, artifact, code) != fingerprint_input(
            agent,
            targets,
            caps,
            artifact,
            other,
        ),
{
    let front = bytes(agent) + bytes("|"@) + bytes(text::join(targets, ","@)) + bytes("|"@);
    let end = bytes("|caps:"@) + bytes(caps);
    let c = bytes("code:"@);
    let a = bytes("artifact:"@);
    let x = bytes(code);
    let y = bytes(other);
    assert(fingerprint_input(agent, targets, code, None, caps) =~= front + (c + x + end));
    assert(fingerprint_input(agent, targets, other, None, caps) =~= front + (c + y + end));
    lemma_same_start(front, c + x + end, c + y + end);
    lemma_same_end(c + x, c + y, end);
    lemma_same_start(c, x, y);
    assert(fingerprint_input(agent, targets, caps, Some(code), caps) =~= front + (a + x + end));
    assert(fingerprint_input(agent, targets, caps, Some(other), caps) =~= front + (a + y + end));
    lemma_same_start(front, a + x + end, a + y + end);
    lemma_same_end(a + x, a + y, end);
    lemma_same_start(a, x, y);
    let all = front + fingerprinted(caps, artifact) + bytes("|caps:"@);
    lemma_same_start(all, x, y);
}

spec fn fingerprinted(code: Seq<char>, artifact: Option<Seq<char>>) -> Seq<u8> {
    match artifact {
        Some(d) => bytes("artifact:"@) + bytes(d),
        None => bytes("code:"@) + bytes(code),
    }
}

spec fn fingerprint_tail(
    targets: Seq<Seq<char>>,
    code: Seq<char>,
    artifact: Option<Seq<char>>,
    caps: Seq<char>,
) -> Seq<u8> {
    bytes("|"@) + bytes(text::join(targets, ","@)) + bytes("|"@) + fingerprinted(code, artifact)
        + bytes("|caps:"@) + bytes(caps)
}

proof fn lemma_fingerprint_tail(
    agent: Seq<char>,
    targets: Seq<Seq<char>>,
    code: Seq<char>,
    artifact: Option<Seq<char>>,
    caps: Seq<char>,
)
    ensures
        fingerprint_input(agent, targets, code, artifact, caps) == bytes(agent) + fingerprint_tail(
            targets,
            code,
            artifact,
            caps,
        ),
{
    assert(fingerprint_input(agent, targets, code, artifact, caps) =~= bytes(agent)
        + fingerprint_tail(targets, code, artifact, caps));
}

proof fn lemma_same_end(x: Seq<u8>, y: Seq<u8>, end: Seq<u8>)
    ensures
        x + end == y + end ==> x == y,
{
    if x + end == y + end {
        assert((x + end).len() == x.len() + end.len());
        assert((y + end).len() == y.len() + end.len());
        assert((x + end).subrange(0, x.len() as int) =~= x);
        assert((y + end).subrange(0, y.len() as int) =~= y);
    }
}

proof fn lemma_same_start(start: Seq<u8>, x: Seq<u8>, y: Seq<u8>)
    ensures
        start + x == start + y ==> x == y,
{
    if start + x == start + y {
        let n = start.len() as int;
        assert((start + x).len() == n + x.len());
        assert((start + y).len() == n + y.len());
        assert((start + x).subrange(n, n + x.len()) =~= x);
        assert((start + y).subrange(n, n + y.len()) =~= y);
    }
}

/// An approval is good until its lifetime has passed since it was given; one without a
/// limit stays good, and one whose time cannot be read is not good.
pub proof fn approvals_last_their_lifetime(a: Instant, ttl_secs: u64, now: Instant)
    requires
        a.nanos < 1_000_000_000,
        now.nanos < 1_000_000_000,
    ensures
        !expired(Some(a), 0, now),
        !expired(None, 0, now),
        ttl_secs > 0 ==> expired(None, ttl_secs, now),
        ttl_secs > 0 ==> (expired(Some(a), ttl_secs, now) <==> (a.secs + ttl_secs) * 1_000_000_000
            + a.nanos <= now.secs * 1_000_000_000 + now.nanos),
{
}

/// A search finds an approval exactly where one is registered under the fingerprint and has
/// not expired, and gives it as it is; an expired one is removed, and every other approval
/// stays.
pub proof fn searches_find_live_approvals(
    cache: ApprovedExecCache,
    after: ApprovedExecCache,
    fingerprint: Seq<char>,
    ttl_secs: u64,
    now: Instant,
    r: Option<ApprovedExecEntry>,
    k: Seq<char>,
)
    requires
        cache.is_found(after, fingerprint, ttl_secs, now, r),
    ensures
        r is Some <==> cache.entries@.dom().contains(fingerprint) && !expired(
            clock::rfc3339_instant(cache.entries@[fingerprint].approved_at@),
            ttl_secs,
            now,
        ),
        r matches Some(e) ==> {
            let x = cache.entries@[fingerprint];
            &&& e.fingerprint == x.fingerprint
            &&& e.agent_id == x.agent_id
            &&& e.remote_targets@ == x.remote_targets@
            &&& e.code_content == x.code_content
            &&& e.approval_request_id == x.approval_request_id
            &&& e.approved_at == x.approved_at
            &&& e.approved_by == x.approved_by
            &&& e.last_used_at == x.last_used_at
        },
        k != fingerprint ==> (after.entries@.dom().contains(k) <==> cache.entries@.dom().contains(k)),
        k != fingerprint && cache.entries@.dom().contains(k) ==> after.entries@[k]
            == cache.entries@[k],
        after.entries@.dom().contains(fingerprint) <==> r is Some,
{
}

/// Recording an approval leaves one that is still good as it is, and else puts the new one
/// in its place, by the operator and with the time as its first use; every other approval
/// stays.
pub proof fn recording_keeps_live_approvals(
    b: ApprovedExecCacheBackfill,
    before: ApprovedExecCache,
    after: ApprovedExecCache,
    now: Instant,
    at: Seq<char>,
    k: Seq<char>,
)
    requires
        b.is_recorded(before, after, now, at),
    ensures
        ({
            let f = b.fingerprint@;
            let good = before.entries@.dom().contains(f) && !expired(
                clock::rfc3339_instant(before.entries@[f].approved_at@),
                b.ttl_secs,
                now,
            );
            &&& after.entries@.dom().contains(f)
            &&& good ==> after.entries@ == before.entries@
            &&& !good ==> {
                let e = after.entries@[f];
                &&& e.fingerprint@ == f
                &&& e.agent_id@ == b.agent_id@
                &&& e.remote_targets@ == b.remote_targets@
                &&& e.code_content@ == b.code_content@
                &&& e.approval_request_id@ == b.approval_request_id@
                &&& e.approved_at@ == at
                &&& e.last_used_at@ == at
                &&& e.approved_by@ == "operator"@
            }
            &&& k != f ==> (after.entries@.dom().contains(k) <==> before.entries@.dom().contains(k))
            &&& k != f && before.entries@.dom().contains(k) ==> after.entries@[k]
                == before.entries@[k]
        }),
{
}

/// The same entry has the same approval in every part.
pub proof fn same_entries_agree_in_every_part(a: ApprovedExecEntry, b: ApprovedExecEntry)
    requires
        same_entry(a, b),
    ensures
        a.fingerprint == b.fingerprint,
        a.agent_id == b.agent_id,
        a.remote_targets@ == b.remote_targets@,
        a.code_content == b.code_content,
        a.approval_request_id == b.approval_request_id,
        a.approved_at == b.approved_at,
        a.approved_by == b.approved_by,
        a.last_used_at == b.last_used_at,
{
}

/// What is recorded of an approval is the approval: its fingerprint, agent, targets, code and
/// request, given by the operator at that time and last used then.
pub proof fn approvals_are_recorded_whole(
    b: ApprovedExecCacheBackfill,
    e: ApprovedExecEntry,
    at: Seq<char>,
)
    requires
        b.is_entry(e, at),
    ensures
        e.fingerprint@ == b.fingerprint@,
        e.agent_id@ == b.agent_id@,
        e.remote_targets@ == b.remote_targets@,
        e.code_content@ == b.code_content@,
        e.approval_request_id@ == b.approval_request_id@,
        e.approved_at@ == at,
        e.approved_by@ == "operator"@,
        e.last_used_at@ == at,
{
}

} // verus!
