//! Which memories of past sessions an agent is reminded of.
//!
//! Memories are ranked by how many words they share with the task; without a
//! task, the most recent ones are taken.

use crate::order;
use crate::text;
use vstd::prelude::*;

verus! {

// ---------------------------------------------------------------------------
// Words
// ---------------------------------------------------------------------------

/// A character is a letter or a digit of some script.
pub uninterp spec fn is_alphanumeric(c: char) -> bool;

/// `char::is_alphanumeric`. The result is a function of the character, named
/// [`is_alphanumeric`]; of the ASCII characters it holds for the letters and the
/// digits alone.
#[verifier::external_body]
fn alphanumeric(c: char) -> (r: bool)
    ensures
        r == is_alphanumeric(c),
        (c as u32) < 128 ==> r == (('a' <= c && c <= 'z') || ('A' <= c && c <= 'Z') || ('0' <= c
            && c <= '9')),
{
    c.is_alphanumeric()
}

/// The pieces of a text between the characters that are neither letters nor digits.
pub open spec fn pieces(s: Seq<char>) -> Seq<Seq<char>>
    decreases s.len(),
{
    if s.len() == 0 {
        seq![Seq::empty()]
    } else {
        let d = pieces(s.drop_last());
        if is_alphanumeric(s.last()) {
            d.drop_last().push(d.last().push(s.last()))
        } else {
            d.push(Seq::empty())
        }
    }
}

/// The words of a text: its pieces of more than one byte, in lower case.
pub open spec fn words(s: Seq<char>) -> Set<Seq<char>> {
    Set::new(|t: Seq<char>| pieces(text::lower_text(s)).contains(t) && text::byte_len(t) > 1)
}

proof fn lemma_no_bytes()
    ensures
        text::byte_len(Seq::empty()) == 0,
{
}

/// The words of a text, each once.
fn word_list(s: &str) -> (r: Vec<String>)
    ensures
        r.deep_view().no_duplicates(),
        r.deep_view().to_set() == words(s@),
        2 * r@.len() <= usize::MAX,
{
    let low = text::lowered(s);
    let v = text::chars_of(low.as_str());
    let mut out: Vec<String> = Vec::new();
    let mut cur: Vec<char> = Vec::new();
    let mut i: usize = 0;
    let bytes = text::byte_count(low.as_str());
    proof {
        lemma_no_bytes();
        assert(cur@ =~= Seq::<char>::empty());
    }
    assert(out.deep_view() =~= Seq::<Seq<char>>::empty());
    assert(pieces(low@.subrange(0, 0)).last() =~= cur@);
    assert(pieces(low@.subrange(0, 0)).drop_last() =~= Seq::<Seq<char>>::empty());
    while i < v.len()
        invariant
            i <= v@.len(),
            v@ == low@,
            pieces(low@.subrange(0, i as int)).len() > 0,
            cur@ == pieces(low@.subrange(0, i as int)).last(),
            out.deep_view().no_duplicates(),
            2 * out@.len() + text::byte_len(cur@) <= text::byte_len(low@.subrange(0, i as int)),
            forall|t: Seq<char>| #[trigger]
                out.deep_view().contains(t) <==> pieces(
                    low@.subrange(0, i as int),
                ).drop_last().contains(t) && text::byte_len(t) > 1,
        decreases v@.len() - i,
    {
        let c: char = v[i];
        let ghost before = low@.subrange(0, i as int);
        let ghost now = low@.subrange(0, i + 1);
        let ghost kept = out.deep_view();
        proof {
            assert(now.drop_last() =~= before);
            assert(now.last() == c);
            assert(now =~= before.push(c));
            text::lemma_byte_len_push(before, c);
            text::lemma_byte_len_push(cur@, c);
            lemma_no_bytes();
        }
        if alphanumeric(c) {
            cur.push(c);
            assert(pieces(now).drop_last() =~= pieces(before).drop_last());
        } else {
            let n = cur.len();
            let word = text::string_of(&cur, 0, n);
            assert(word@ =~= cur@);
            let ghost done = pieces(before);
            proof {
                assert(pieces(now).drop_last() =~= done);
                assert(done =~= done.drop_last().push(word@));
            }
            if text::byte_count(word.as_str()) > 1 {
                text::push_new(&mut out, word);
            }
            proof {
                assert forall|t: Seq<char>| #[trigger] out.deep_view().contains(t) <==> done.contains(
                    t,
                ) && text::byte_len(t) > 1 by {
                    text::lemma_push_contains(done.drop_last(), word@, t);
                    if kept.contains(t) {
                        assert(out.deep_view().contains(t));
                    }
                }
            }
            cur = Vec::new();
            assert(cur@ =~= pieces(now).last());
        }
        i = i + 1;
    }
    let ghost kept = out.deep_view();
    assert(low@.subrange(0, i as int) =~= low@);
    let n = cur.len();
    let word = text::string_of(&cur, 0, n);
    assert(word@ =~= cur@);
    if text::byte_count(word.as_str()) > 1 {
        text::push_new(&mut out, word);
    }
    proof {
        assert(out.deep_view().len() == out@.len());
        assert(2 * out@.len() <= bytes);
        let done = pieces(low@);
        assert(done =~= done.drop_last().push(word@));
        assert forall|t: Seq<char>| #[trigger] out.deep_view().to_set().contains(t) <==> words(s@).contains(
            t,
        ) by {
            text::lemma_push_contains(done.drop_last(), word@, t);
            if kept.contains(t) {
                assert(out.deep_view().contains(t));
            }
        }
        assert(out.deep_view().to_set() =~= words(s@));
    }
    out
}

/// How much two texts have in common: the words that both have, out of those that
/// either has.
#[derive(Debug, Clone, Copy, PartialEq, Eq, Structural)]
pub struct Overlap {
    pub shared: usize,
    /// At least one.
    pub total: usize,
}

/// How much two texts have in common. Where one has no words, that is nothing.
pub open spec fn overlap_of(a: Seq<char>, b: Seq<char>) -> (nat, nat) {
    if words(a).len() == 0 || words(b).len() == 0 {
        (0, 1)
    } else {
        (words(a).intersect(words(b)).len(), words(a).union(words(b)).len())
    }
}

/// How relevant a memory is to a task: the words that both share, out of all
/// their words.
pub fn score_task_relevance(task_text: &str, memory_content: &str) -> (r: Overlap)
    ensures
        (r.shared as nat, r.total as nat) == overlap_of(task_text@, memory_content@),
        r.shared <= r.total,
        r.total >= 1,
{
    let ta = word_list(task_text);
    let tb = word_list(memory_content);
    let ghost a = ta.deep_view();
    let ghost b = tb.deep_view();
    proof {
        a.unique_seq_to_set();
        b.unique_seq_to_set();
    }
    if ta.len() == 0 || tb.len() == 0 {
        return Overlap { shared: 0, total: 1 };
    }
    let mut common: Vec<String> = Vec::new();
    let mut i: usize = 0;
    assert(common.deep_view() =~= Seq::<Seq<char>>::empty());
    while i < ta.len()
        invariant
            i <= ta@.len(),
            a == ta.deep_view(),
            b == tb.deep_view(),
            a.no_duplicates(),
            common@.len() <= i,
            common.deep_view().no_duplicates(),
            forall|t: Seq<char>| #[trigger]
                common.deep_view().contains(t) <==> b.contains(t) && exists|k: int|
                    0 <= k < i && #[trigger] a[k] == t,
        decreases ta@.len() - i,
    {
        let ghost before = common.deep_view();
        assert(a[i as int] == ta@[i as int]@);
        if text::list_has(&tb, ta[i].as_str()) {
            let w = ta[i].clone();
            common.push(w);
            proof {
                assert(common.deep_view() =~= before.push(w@));
                if before.contains(w@) {
                    let k = choose|k: int| 0 <= k < i && #[trigger] a[k] == w@;
                    assert(a[k] != a[i as int]);
                }
                assert forall|t: Seq<char>| #[trigger] common.deep_view().contains(t) <==> b.contains(t)
                    && exists|k: int| 0 <= k < i + 1 && #[trigger] a[k] == t by {
                    text::lemma_push_contains(before, w@, t);
                }
            }
        } else {
            proof {
                assert(!b.contains(a[i as int]));
                assert forall|t: Seq<char>| #[trigger] common.deep_view().contains(t) <==> b.contains(t)
                    && exists|k: int| 0 <= k < i + 1 && #[trigger] a[k] == t by {
                    if b.contains(t) && exists|k: int| 0 <= k < i + 1 && #[trigger] a[k] == t {
                        let k = choose|k: int| 0 <= k < i + 1 && #[trigger] a[k] == t;
                        assert(k < i);
                    }
                }
            }
        }
        i = i + 1;
    }
    proof {
        let c = common.deep_view();
        c.unique_seq_to_set();
        assert(c.to_set() =~= a.to_set().intersect(b.to_set())) by {
            assert forall|t: Seq<char>| c.to_set().contains(t) <==> a.to_set().intersect(
                b.to_set(),
            ).contains(t) by {
                if a.contains(t) {
                    let k = choose|k: int| 0 <= k < a.len() && a[k] == t;
                    assert(0 <= k < i && a[k] == t);
                }
                assert(c.to_set().contains(t) <==> c.contains(t));
            }
        }
        vstd::set_lib::lemma_set_intersect_union_lens(a.to_set(), b.to_set());
        assert(a.to_set() + b.to_set() =~= a.to_set().union(b.to_set()));
        vstd::set_lib::lemma_len_intersect(b.to_set(), a.to_set());
        assert(b.to_set().intersect(a.to_set()) =~= a.to_set().intersect(b.to_set()));
        assert(common@.len() == c.len());
        vstd::set_lib::lemma_len_subset(b.to_set(), a.to_set().union(b.to_set()));
    }
    let shared = common.len();
    Overlap { shared, total: ta.len() - shared + tb.len() }
}

// ---------------------------------------------------------------------------
// Ranks
// ---------------------------------------------------------------------------

/// What a memory is ranked by.
#[derive(Debug)]
pub struct Rank {
    pub overlap: Overlap,
    /// The memory is a lesson from an error.
    pub lesson: bool,
    pub updated_at: String,
}

/// The mathematical model of a [`Rank`].
pub struct RankView {
    pub shared: nat,
    pub total: nat,
    pub lesson: bool,
    pub updated_at: Seq<char>,
}

impl View for Rank {
    type V = RankView;

    open spec fn view(&self) -> RankView {
        RankView {
            shared: self.overlap.shared as nat,
            total: self.overlap.total as nat,
            lesson: self.lesson,
            updated_at: self.updated_at@,
        }
    }
}

/// The models of a list of ranks.
pub open spec fn rank_views(v: Seq<Rank>) -> Seq<RankView> {
    v.map_values(|r: Rank| r@)
}

/// `a` has more in common with the task than `b`.
pub open spec fn more_relevant(a: RankView, b: RankView) -> bool {
    b.shared * a.total < a.shared * b.total
}

/// `a` and `b` have as much in common with the task.
pub open spec fn as_relevant(a: RankView, b: RankView) -> bool {
    b.shared * a.total == a.shared * b.total
}

/// `a` ranks before `b`: it is more relevant, or as relevant and a lesson while
/// the other is none, or else more recent.
pub open spec fn outranks(a: RankView, b: RankView) -> bool {
    more_relevant(a, b) || (as_relevant(a, b) && ((a.lesson && !b.lesson) || (a.lesson == b.lesson
        && order::text_lt(b.updated_at, a.updated_at))))
}

/// In a stable ranking, item `i` stands before item `j`.
pub open spec fn ranked_before(v: Seq<RankView>, i: int, j: int) -> bool {
    outranks(v[i], v[j]) || (!outranks(v[j], v[i]) && i < j)
}

/// `ord` lists the positions of `v` by rank, those of equal rank as they stood.
pub open spec fn is_ranking(v: Seq<RankView>, ord: Seq<usize>) -> bool {
    &&& ord.len() == v.len()
    &&& forall|i: int| 0 <= i < ord.len() ==> 0 <= #[trigger] ord[i] < v.len()
    &&& forall|i: int, j: int|
        0 <= i < j < ord.len() ==> ranked_before(v, #[trigger] ord[i] as int, #[trigger] ord[j] as int)
}

/// All ranks are fractions.
pub open spec fn proper(v: Seq<RankView>) -> bool {
    forall|i: int| 0 <= i < v.len() ==> (#[trigger] v[i]).total >= 1
}

proof fn lemma_relevance_trans(a: RankView, b: RankView, c: RankView)
    requires
        a.total >= 1,
        b.total >= 1,
        c.total >= 1,
    ensures
        !more_relevant(b, a) && !more_relevant(c, b) ==> !more_relevant(c, a),
        !more_relevant(b, a) && !more_relevant(c, b) && (more_relevant(a, b) || more_relevant(b, c))
            ==> more_relevant(a, c),
        as_relevant(a, b) && as_relevant(b, c) ==> as_relevant(a, c),
{
    let (sa, ta) = (a.shared as int, a.total as int);
    let (sb, tb) = (b.shared as int, b.total as int);
    let (sc, tc) = (c.shared as int, c.total as int);
    assert((sa * tb >= sb * ta && sb * tc >= sc * tb ==> sa * tc >= sc * ta) && (sa * tb >= sb * ta
        && sb * tc >= sc * tb && (sa * tb > sb * ta || sb * tc > sc * tb) ==> sa * tc > sc * ta)
        && (sa * tb == sb * ta && sb * tc == sc * tb ==> sa * tc == sc * ta)) by {
        lemma_fractions(sa, ta, sb, tb, sc, tc);
    }
}

proof fn lemma_fractions(sa: int, ta: int, sb: int, tb: int, sc: int, tc: int)
    requires
        ta >= 1,
        tb >= 1,
        tc >= 1,
    ensures
        sa * tb >= sb * ta && sb * tc >= sc * tb ==> sa * tc >= sc * ta,
        sa * tb >= sb * ta && sb * tc >= sc * tb && (sa * tb > sb * ta || sb * tc > sc * tb) ==> sa
            * tc > sc * ta,
        sa * tb == sb * ta && sb * tc == sc * tb ==> sa * tc == sc * ta,
{
    let x = sa * tb;
    let y = sb * ta;
    let z = sb * tc;
    let w = sc * tb;
    assert((sa * tc) * tb == x * tc) by (nonlinear_arith)
        requires
            x == sa * tb,
    ;
    assert(y * tc == z * ta) by (nonlinear_arith)
        requires
            y == sb * ta,
            z == sb * tc,
    ;
    assert((sc * ta) * tb == w * ta) by (nonlinear_arith)
        requires
            w == sc * tb,
    ;
    let p = sa * tc;
    let q = sc * ta;
    if x >= y && z >= w {
        assert(x * tc >= y * tc) by (nonlinear_arith)
            requires
                x >= y,
                tc >= 1,
        ;
        assert(z * ta >= w * ta) by (nonlinear_arith)
            requires
                z >= w,
                ta >= 1,
        ;
        assert(p >= q) by (nonlinear_arith)
            requires
                p * tb >= q * tb,
                tb >= 1,
        ;
        if x > y {
            assert(x * tc > y * tc) by (nonlinear_arith)
                requires
                    x > y,
                    tc >= 1,
            ;
        }
        if z > w {
            assert(z * ta > w * ta) by (nonlinear_arith)
                requires
                    z > w,
                    ta >= 1,
            ;
        }
        if x > y || z > w {
            assert(p > q) by (nonlinear_arith)
                requires
                    p * tb > q * tb,
                    tb >= 1,
            ;
        }
        if x == y && z == w {
            assert(p == q) by (nonlinear_arith)
                requires
                    p * tb == q * tb,
                    tb >= 1,
            ;
        }
    }
}

proof fn lemma_outranks(a: RankView, b: RankView, c: RankView)
    requires
        a.total >= 1,
        b.total >= 1,
        c.total >= 1,
    ensures
        !(outranks(a, b) && outranks(b, a)),
        outranks(a, b) && outranks(b, c) ==> outranks(a, c),
        outranks(a, b) && !outranks(c, b) ==> outranks(a, c),
        !outranks(b, a) && outranks(b, c) ==> outranks(a, c),
        !outranks(b, a) && !outranks(c, b) ==> !outranks(c, a),
{
    lemma_relevance_trans(a, b, c);
    order::lemma_text_total(a.updated_at, b.updated_at);
    order::lemma_text_total(b.updated_at, c.updated_at);
    order::lemma_text_total(a.updated_at, c.updated_at);
    if order::text_lt(b.updated_at, a.updated_at) && order::text_lt(c.updated_at, b.updated_at) {
        order::lemma_text_trans(c.updated_at, b.updated_at, a.updated_at);
    }
    if order::text_lt(a.updated_at, b.updated_at) && order::text_lt(b.updated_at, c.updated_at) {
        order::lemma_text_trans(a.updated_at, b.updated_at, c.updated_at);
    }
    if order::text_lt(c.updated_at, a.updated_at) && order::text_lt(a.updated_at, b.updated_at) {
        order::lemma_text_trans(c.updated_at, a.updated_at, b.updated_at);
    }
}

fn outranks_exec(a: &Rank, b: &Rank) -> (r: bool)
    ensures
        r == outranks(a@, b@),
{
    let (sa, ta) = (a.overlap.shared, a.overlap.total);
    let (sb, tb) = (b.overlap.shared, b.overlap.total);
    assert(sb * ta <= u128::MAX && sa * tb <= u128::MAX) by (nonlinear_arith)
        requires
            sa <= u64::MAX,
            ta <= u64::MAX,
            sb <= u64::MAX,
            tb <= u64::MAX,
    ;
    let x: u128 = sb as u128 * ta as u128;
    let y: u128 = sa as u128 * tb as u128;
    if x != y {
        return x < y;
    }
    if a.lesson != b.lesson {
        return a.lesson;
    }
    order::text_less(b.updated_at.as_str(), a.updated_at.as_str())
}

/// The positions of `v` by rank.
pub fn ranking(v: &Vec<Rank>) -> (ord: Vec<usize>)
    requires
        proper(rank_views(v@)),
    ensures
        is_ranking(rank_views(v@), ord@),
{
    let ghost rs = rank_views(v@);
    let mut ord: Vec<usize> = Vec::new();
    let mut i: usize = 0;
    while i < v.len()
        invariant
            rs == rank_views(v@),
            proper(rs),
            i <= v@.len(),
            ord@.len() == i,
            forall|k: int| 0 <= k < i ==> 0 <= #[trigger] ord@[k] < i,
            forall|k: int, l: int|
                0 <= k < l < i ==> ranked_before(rs, #[trigger] ord@[k] as int, #[trigger] ord@[l] as int),
        decreases v@.len() - i,
    {
        let mut p: usize = ord.len();
        while p > 0 && outranks_exec(&v[i], &v[ord[p - 1]])
            invariant
                rs == rank_views(v@),
                proper(rs),
                i < v@.len(),
                p <= ord@.len(),
                ord@.len() == i,
                forall|k: int| 0 <= k < i ==> 0 <= #[trigger] ord@[k] < i,
                forall|k: int| p <= k < i ==> outranks(rs[i as int], rs[#[trigger] ord@[k] as int]),
            decreases p,
        {
            p = p - 1;
        }
        let ghost before = ord@;
        proof {
            if p > 0 {
                let q = before[p - 1] as int;
                assert(!outranks(rs[i as int], rs[q]));
                assert forall|k: int| 0 <= k < p implies ranked_before(
                    rs,
                    #[trigger] before[k] as int,
                    i as int,
                ) by {
                    let x = before[k] as int;
                    if k < p - 1 {
                        assert(ranked_before(rs, before[k] as int, before[p - 1] as int));
                        lemma_outranks(rs[x], rs[q], rs[i as int]);
                        lemma_outranks(rs[i as int], rs[q], rs[x]);
                    }
                }
            }
            assert forall|k: int| p <= k < i implies ranked_before(
                rs,
                i as int,
                #[trigger] before[k] as int,
            ) by {}
        }
        ord.insert(p, i);
        proof {
            assert forall|k: int, l: int| 0 <= k < l < i + 1 implies ranked_before(
                rs,
                #[trigger] ord@[k] as int,
                #[trigger] ord@[l] as int,
            ) by {
                let a = if k < p {
                    before[k]
                } else if k == p {
                    i
                } else {
                    before[k - 1]
                };
                let b = if l < p {
                    before[l]
                } else if l == p {
                    i
                } else {
                    before[l - 1]
                };
                assert(ord@[k] == a);
                assert(ord@[l] == b);
            }
        }
        i = i + 1;
    }
    ord
}

// ---------------------------------------------------------------------------
// Memories
// ---------------------------------------------------------------------------

/// A memory of a past session.
#[derive(Debug)]
pub struct MemoryObject {
    pub memory_id: String,
    pub scope: String,
    pub content: String,
    /// What the reader of the prompt may see of it: the content, or what stands
    /// in for it where its label withholds it.
    pub shown: String,
    pub tags: Vec<String>,
    pub updated_at: String,
}

/// The mathematical model of a [`MemoryObject`].
pub struct MemoryObjectView {
    pub memory_id: Seq<char>,
    pub scope: Seq<char>,
    pub content: Seq<char>,
    pub shown: Seq<char>,
    pub tags: Seq<Seq<char>>,
    pub updated_at: Seq<char>,
}

impl View for MemoryObject {
    type V = MemoryObjectView;

    open spec fn view(&self) -> MemoryObjectView {
        MemoryObjectView {
            memory_id: self.memory_id@,
            scope: self.scope@,
            content: self.content@,
            shown: self.shown@,
            tags: self.tags.deep_view(),
            updated_at: self.updated_at@,
        }
    }
}

/// The models of a list of memories.
pub open spec fn memory_views(v: Seq<MemoryObject>) -> Seq<MemoryObjectView> {
    v.map_values(|m: MemoryObject| m@)
}

/// The models of a list of memories that are held elsewhere.
pub open spec fn held_views(v: Seq<&MemoryObject>) -> Seq<MemoryObjectView> {
    v.map_values(|m: &MemoryObject| m@)
}

/// Where memories come from.
pub const DIGEST_TAG: &'static str = "source:post_session_digest";

/// Where memories come from.
pub const SIGNAL_TAG: &'static str = "source:quality_signal";

/// How many memories are asked of the store at a time.
pub const MEMORY_CANDIDATE_POOL: usize = 50;

/// A memory has both tags.
pub open spec fn has_both(m: MemoryObjectView, agent_tag: Seq<char>, source: Seq<char>) -> bool {
    m.tags.contains(agent_tag) && m.tags.contains(source)
}

/// `seen` with those of `v` that have both tags and whose id is new.
pub open spec fn gathered(
    seen: Seq<MemoryObjectView>,
    v: Seq<MemoryObjectView>,
    agent_tag: Seq<char>,
    source: Seq<char>,
) -> Seq<MemoryObjectView>
    decreases v.len(),
{
    if v.len() == 0 {
        seen
    } else {
        let before = gathered(seen, v.drop_last(), agent_tag, source);
        let m = v.last();
        if has_both(m, agent_tag, source) && !has_id(before, m.memory_id) {
            before.push(m)
        } else {
            before
        }
    }
}

/// One of the memories has this id.
pub open spec fn has_id(v: Seq<MemoryObjectView>, id: Seq<char>) -> bool {
    exists|i: int| 0 <= i < v.len() && (#[trigger] v[i]).memory_id == id
}

/// The memories that an agent may be reminded of: its own, from digests and from
/// signals, each once; where it has none, the digests of all.
pub open spec fn candidates(
    agent_id: Seq<char>,
    digests: Seq<MemoryObjectView>,
    signals: Seq<MemoryObjectView>,
    fallback: Seq<MemoryObjectView>,
) -> Seq<MemoryObjectView> {
    let tag = "agent:"@ + agent_id;
    let own = gathered(gathered(Seq::empty(), digests, tag, DIGEST_TAG@), signals, tag, SIGNAL_TAG@);
    if own.len() == 0 {
        fallback
    } else {
        own
    }
}

fn gather<'a>(
    seen: &mut Vec<&'a MemoryObject>,
    v: &'a Vec<MemoryObject>,
    agent_tag: &str,
    source: &str,
)
    ensures
        held_views(final(seen)@) == gathered(
            held_views(old(seen)@),
            memory_views(v@),
            agent_tag@,
            source@,
        ),
{
    let ghost start = held_views(seen@);
    let ghost all = memory_views(v@);
    let mut i: usize = 0;
    while i < v.len()
        invariant
            i <= v@.len(),
            all == memory_views(v@),
            held_views(seen@) == gathered(start, all.subrange(0, i as int), agent_tag@, source@),
        decreases v@.len() - i,
    {
        let m: &'a MemoryObject = &v[i];
        proof {
            let t = all.subrange(0, i + 1);
            assert(t.drop_last() =~= all.subrange(0, i as int));
            assert(t.last() == m@);
        }
        let ghost before = seen@;
        if text::list_has(&m.tags, agent_tag) && text::list_has(&m.tags, source) && !holds_id(
            seen,
            m.memory_id.as_str(),
        ) {
            seen.push(m);
            assert(held_views(seen@) =~= held_views(before).push(m@));
        }
        i = i + 1;
    }
    assert(all.subrange(0, i as int) =~= all);
}

fn holds_id(v: &Vec<&MemoryObject>, id: &str) -> (r: bool)
    ensures
        r == has_id(held_views(v@), id@),
{
    let mut i: usize = 0;
    while i < v.len()
        invariant
            i <= v@.len(),
            forall|k: int| 0 <= k < i ==> (#[trigger] v@[k]).memory_id@ != id@,
        decreases v@.len() - i,
    {
        if text::text_eq(v[i].memory_id.as_str(), id) {
            assert(held_views(v@)[i as int].memory_id == id@);
            return true;
        }
        i = i + 1;
    }
    assert forall|k: int| 0 <= k < held_views(v@).len() implies (#[trigger] held_views(
        v@,
    )[k]).memory_id != id@ by {
        assert(held_views(v@)[k] == v@[k]@);
    }
    false
}

/// The scopes of lessons from errors.
pub open spec fn is_error_lesson(scope: Seq<char>) -> bool {
    scope == "digest.error_pattern"@ || scope == "digest.lesson"@
}

/// Whether a scope is one of lessons from errors.
pub fn is_error_lesson_scope(scope: &str) -> (r: bool)
    ensures
        r == is_error_lesson(scope@),
{
    text::text_eq(scope, "digest.error_pattern") || text::text_eq(scope, "digest.lesson")
}

/// The rank of a memory for a task.
pub open spec fn rank_for(task: Seq<char>, m: MemoryObjectView) -> RankView {
    let o = overlap_of(task, m.content);
    RankView {
        shared: o.0,
        total: o.1,
        lesson: is_error_lesson(m.scope),
        updated_at: m.updated_at,
    }
}

/// The ranks of memories for a task.
pub open spec fn ranks_for(task: Seq<char>, v: Seq<MemoryObjectView>) -> Seq<RankView> {
    v.map_values(|m: MemoryObjectView| rank_for(task, m))
}

/// `sel` is what is chosen of `v`: the first `n` by rank for the task, or the
/// first `n` as they stand where there is no task.
pub open spec fn is_selection(
    v: Seq<MemoryObjectView>,
    task: Option<Seq<char>>,
    n: nat,
    sel: Seq<MemoryObjectView>,
) -> bool {
    &&& sel.len() == (if n < v.len() {
        n
    } else {
        v.len()
    })
    &&& match task {
        None => forall|i: int| 0 <= i < sel.len() ==> #[trigger] sel[i] == v[i],
        Some(t) => follows_ranks(sel, v, ranks_for(t, v)),
    }
}

/// `sel` lists items of `v` by the ranks `ranks`.
pub open spec fn follows_ranks(
    sel: Seq<MemoryObjectView>,
    v: Seq<MemoryObjectView>,
    ranks: Seq<RankView>,
) -> bool {
    exists|ord: Seq<usize>| #[trigger] is_ranking(ranks, ord) && follows(sel, v, ord)
}

/// `sel` lists items of `v` in the order `ord`.
pub open spec fn follows(
    sel: Seq<MemoryObjectView>,
    v: Seq<MemoryObjectView>,
    ord: Seq<usize>,
) -> bool {
    forall|i: int| 0 <= i < sel.len() ==> #[trigger] sel[i] == v[ord[i] as int]
}

/// The task by which memories are chosen: one that says something.
pub open spec fn task_of(task: Option<&str>) -> Option<Seq<char>> {
    match task {
        Some(t) => if text::trim(t@).len() == 0 {
            None
        } else {
            Some(t@)
        },
        None => None,
    }
}

/// The text behind the first tag that names a session.
pub open spec fn session_in(tags: Seq<Seq<char>>) -> Option<Seq<char>>
    decreases tags.len(),
{
    if tags.len() == 0 {
        None
    } else if text::begins_with(tags[0], "session:"@) {
        Some(tags[0].subrange("session:"@.len() as int, tags[0].len() as int))
    } else {
        session_in(tags.subrange(1, tags.len() as int))
    }
}

/// The first `n` characters.
pub open spec fn first_chars(s: Seq<char>, n: nat) -> Seq<char> {
    if s.len() <= n {
        s
    } else {
        s.subrange(0, n as int)
    }
}

/// The line by which an agent is reminded of a memory.
pub open spec fn memory_line(m: MemoryObjectView) -> Seq<char> {
    let start = "- "@ + (if is_error_lesson(m.scope) {
        "(error lesson) "@
    } else {
        ""@
    }) + first_chars(m.shown, 500);
    match session_in(m.tags) {
        Some(s) => start + " [from session "@ + first_chars(s, 8) + "]"@,
        None => start,
    }
}

/// The lines by which an agent is reminded of memories.
pub open spec fn memory_lines(v: Seq<MemoryObjectView>) -> Seq<Seq<char>> {
    seq!["---\n\nPrior Knowledge (from past sessions)\n"@] + v.map_values(
        |m: MemoryObjectView| memory_line(m),
    )
}

fn cut_chars(s: &str, n: usize) -> (r: String)
    ensures
        r@ == first_chars(s@, n as nat),
{
    let v = text::chars_of(s);
    if v.len() <= n {
        s.to_owned()
    } else {
        text::string_of(&v, 0, n)
    }
}

fn session_of_tags(tags: &Vec<String>) -> (r: Option<String>)
    ensures
        r.deep_view() == session_in(tags.deep_view()),
{
    let ghost all = tags.deep_view();
    let mut i: usize = 0;
    assert(all.subrange(0, all.len() as int) =~= all);
    while i < tags.len()
        invariant
            i <= tags@.len(),
            all == tags.deep_view(),
            session_in(all) == session_in(all.subrange(i as int, all.len() as int)),
        decreases tags@.len() - i,
    {
        proof {
            let rest = all.subrange(i as int, all.len() as int);
            assert(rest[0] == tags@[i as int]@);
            assert(rest.subrange(1, rest.len() as int) =~= all.subrange(i + 1, all.len() as int));
        }
        if let Some(s) = text::strip_prefix(tags[i].as_str(), "session:") {
            return Some(s);
        }
        i = i + 1;
    }
    None
}

fn line_of(m: &MemoryObject) -> (r: String)
    ensures
        r@ == memory_line(m@),
{
    let mut s = "- ".to_owned();
    if is_error_lesson_scope(m.scope.as_str()) {
        s.append("(error lesson) ");
    } else {
        s.append("");
    }
    s.append(cut_chars(m.shown.as_str(), 500).as_str());
    if let Some(sid) = session_of_tags(&m.tags) {
        s.append(" [from session ");
        s.append(cut_chars(sid.as_str(), 8).as_str());
        s.append("]");
    }
    s
}

proof fn lemma_selected(
    v: Seq<MemoryObjectView>,
    task: Seq<char>,
    n: nat,
    sel: Seq<MemoryObjectView>,
    ord: Seq<usize>,
)
    requires
        is_ranking(ranks_for(task, v), ord),
        sel.len() == (if n < v.len() {
            n
        } else {
            v.len()
        }),
        follows(sel, v, ord),
    ensures
        is_selection(v, Some(task), n, sel),
{
    assert(follows_ranks(sel, v, ranks_for(task, v)));
}

fn choose_memories<'a>(v: &Vec<&'a MemoryObject>, task: Option<&str>, n: usize) -> (r: Vec<
    &'a MemoryObject,
>)
    ensures
        is_selection(held_views(v@), task_of(task), n as nat, held_views(r@)),
{
    let count: usize = if n < v.len() {
        n
    } else {
        v.len()
    };
    let ghost vs = held_views(v@);
    let mut out: Vec<&'a MemoryObject> = Vec::new();
    let wanted: Option<&str> = match task {
        Some(t) => if text::is_blank(t) {
            None
        } else {
            Some(t)
        },
        None => None,
    };
    match wanted {
        None => {
            let mut i: usize = 0;
            while i < count
                invariant
                    i <= count <= v@.len(),
                    out@.len() == i,
                    forall|k: int| 0 <= k < i ==> (#[trigger] out@[k])@ == v@[k]@,
                decreases count - i,
            {
                out.push(v[i]);
                i = i + 1;
            }
            proof {
                let sel = held_views(out@);
                assert forall|k: int| 0 <= k < sel.len() implies #[trigger] sel[k] == vs[k] by {
                    assert(sel[k] == out@[k]@);
                }
                assert(task_of(task) is None);
                assert(is_selection(vs, task_of(task), n as nat, sel));
            }
        },
        Some(t) => {
            let mut ranks: Vec<Rank> = Vec::new();
            let mut i: usize = 0;
            while i < v.len()
                invariant
                    i <= v@.len(),
                    ranks@.len() == i,
                    forall|k: int|
                        0 <= k < i ==> (#[trigger] ranks@[k])@ == rank_for(t@, v@[k]@)
                            && ranks@[k].overlap.total >= 1,
                decreases v@.len() - i,
            {
                let o = score_task_relevance(t, v[i].content.as_str());
                let lesson = is_error_lesson_scope(v[i].scope.as_str());
                ranks.push(Rank { overlap: o, lesson, updated_at: v[i].updated_at.clone() });
                i = i + 1;
            }
            let ghost rs = ranks_for(t@, vs);
            proof {
                assert forall|k: int| 0 <= k < ranks@.len() implies rank_views(ranks@)[k]
                    == #[trigger] rs[k] by {
                    assert(ranks@[k]@ == rank_for(t@, v@[k]@));
                }
                assert(rank_views(ranks@) =~= rs);
                assert forall|k: int| 0 <= k < rs.len() implies (#[trigger] rs[k]).total >= 1 by {
                    assert(rank_views(ranks@)[k] == ranks@[k]@);
                    assert(ranks@[k].overlap.total >= 1);
                }
            }
            let ord = ranking(&ranks);
            let mut i: usize = 0;
            while i < count
                invariant
                    i <= count <= v@.len(),
                    v@.len() == ord@.len(),
                    is_ranking(rs, ord@),
                    rs.len() == v@.len(),
                    out@.len() == i,
                    forall|k: int| 0 <= k < i ==> (#[trigger] out@[k])@ == v@[ord@[k] as int]@,
                decreases count - i,
            {
                let p: usize = ord[i];
                out.push(v[p]);
                i = i + 1;
            }
            proof {
                let sel = held_views(out@);
                assert forall|k: int| 0 <= k < sel.len() implies #[trigger] sel[k]
                    == vs[ord@[k] as int] by {
                    assert(sel[k] == out@[k]@);
                    assert(0 <= ord@[k] < v@.len());
                }
                assert(is_ranking(ranks_for(t@, vs), ord@));
                assert(task_of(task) == Some(t@));
                lemma_selected(vs, t@, n as nat, sel, ord@);
            }
        },
    }
    out
}

/// What an agent is told of past sessions: at most `max_memories` of the memories
/// that the store found, or nothing where there are none.
pub fn build_memory_context_snippet(
    agent_id: &str,
    digests: &Vec<MemoryObject>,
    signals: &Vec<MemoryObject>,
    fallback: &Vec<MemoryObject>,
    max_memories: usize,
    task_text: Option<&str>,
) -> (r: Option<String>)
    ensures
        exists|sel: Seq<MemoryObjectView>| #[trigger]
            is_selection(
                candidates(
                    agent_id@,
                    memory_views(digests@),
                    memory_views(signals@),
                    memory_views(fallback@),
                ),
                task_of(task_text),
                max_memories as nat,
                sel,
            ) && r.deep_view() == (if sel.len() == 0 {
                None
            } else {
                Some(text::join(memory_lines(sel), "\n"@))
            }),
{
    let mut tag = "agent:".to_owned();
    tag.append(agent_id);
    let mut found: Vec<&MemoryObject> = Vec::new();
    assert(held_views(found@) =~= Seq::<MemoryObjectView>::empty());
    gather(&mut found, digests, tag.as_str(), DIGEST_TAG);
    gather(&mut found, signals, tag.as_str(), SIGNAL_TAG);
    assert(held_views(found@).len() == found@.len());
    if found.len() == 0 {
        let mut i: usize = 0;
        while i < fallback.len()
            invariant
                i <= fallback@.len(),
                held_views(found@) == memory_views(fallback@).subrange(0, i as int),
            decreases fallback@.len() - i,
        {
            let ghost before = found@;
            found.push(&fallback[i]);
            i = i + 1;
            proof {
                assert(held_views(found@) =~= held_views(before).push(fallback@[i - 1]@));
                assert(held_views(found@) =~= memory_views(fallback@).subrange(0, i as int));
            }
        }
        assert(memory_views(fallback@).subrange(0, i as int) =~= memory_views(fallback@));
    }
    proof {
        assert(held_views(found@) == candidates(
            agent_id@,
            memory_views(digests@),
            memory_views(signals@),
            memory_views(fallback@),
        ));
    }
    let sel = choose_memories(&found, task_text, max_memories);
    let ghost sv = held_views(sel@);
    assert(sv.len() == sel@.len());
    if sel.len() == 0 {
        return None;
    }
    let mut lines: Vec<String> = Vec::new();
    lines.push("---\n\nPrior Knowledge (from past sessions)\n".to_owned());
    let mut i: usize = 0;
    assert(lines.deep_view() =~= memory_lines(sv.subrange(0, 0)));
    while i < sel.len()
        invariant
            i <= sel@.len(),
            sv == held_views(sel@),
            lines.deep_view() == memory_lines(sv.subrange(0, i as int)),
        decreases sel@.len() - i,
    {
        let ghost before = lines.deep_view();
        let line = line_of(sel[i]);
        lines.push(line);
        i = i + 1;
        proof {
            assert(lines.deep_view() =~= before.push(line@));
            assert(sv[i - 1] == sel@[i - 1]@);
            assert(memory_lines(sv.subrange(0, i as int)) =~= memory_lines(
                sv.subrange(0, i - 1),
            ).push(line@));
        }
    }
    assert(sv.subrange(0, i as int) =~= sv);
    Some(text::joined(&lines, "\n"))
}

// ---------------------------------------------------------------------------
// Laws
// ---------------------------------------------------------------------------

/// Where an agent has memories of its own, it is reminded of no others': each
/// memory that it may be reminded of has its tag.
pub proof fn other_agents_memories_are_left_out(
    agent_id: Seq<char>,
    digests: Seq<MemoryObjectView>,
    signals: Seq<MemoryObjectView>,
    fallback: Seq<MemoryObjectView>,
    own: MemoryObjectView,
    i: int,
)
    requires
        (digests.contains(own) && has_both(own, "agent:"@ + agent_id, DIGEST_TAG@)) || (
        signals.contains(own) && has_both(own, "agent:"@ + agent_id, SIGNAL_TAG@)),
        0 <= i < candidates(agent_id, digests, signals, fallback).len(),
    ensures
        candidates(agent_id, digests, signals, fallback)[i].tags.contains("agent:"@ + agent_id),
{
    let tag = "agent:"@ + agent_id;
    let first = gathered(Seq::empty(), digests, tag, DIGEST_TAG@);
    lemma_gathered_tags(Seq::empty(), digests, tag, DIGEST_TAG@);
    lemma_gathered_tags(first, signals, tag, SIGNAL_TAG@);
    if digests.contains(own) && has_both(own, tag, DIGEST_TAG@) {
        let k = choose|k: int| 0 <= k < digests.len() && digests[k] == own;
        lemma_gathered_has(Seq::empty(), digests, tag, DIGEST_TAG@, k);
    } else {
        let k = choose|k: int| 0 <= k < signals.len() && signals[k] == own;
        lemma_gathered_has(first, signals, tag, SIGNAL_TAG@, k);
    }
}

proof fn lemma_gathered_tags(
    seen: Seq<MemoryObjectView>,
    v: Seq<MemoryObjectView>,
    tag: Seq<char>,
    source: Seq<char>,
)
    requires
        forall|i: int| 0 <= i < seen.len() ==> (#[trigger] seen[i]).tags.contains(tag),
    ensures
        gathered(seen, v, tag, source).len() >= seen.len(),
        forall|i: int|
            0 <= i < gathered(seen, v, tag, source).len() ==> (#[trigger] gathered(
                seen,
                v,
                tag,
                source,
            )[i]).tags.contains(tag),
    decreases v.len(),
{
    if v.len() > 0 {
        lemma_gathered_tags(seen, v.drop_last(), tag, source);
    }
}

proof fn lemma_gathered_has(
    seen: Seq<MemoryObjectView>,
    v: Seq<MemoryObjectView>,
    tag: Seq<char>,
    source: Seq<char>,
    k: int,
)
    requires
        0 <= k < v.len(),
        has_both(v[k], tag, source),
    ensures
        has_id(gathered(seen, v, tag, source), v[k].memory_id),
    decreases v.len(),
{
    let before = gathered(seen, v.drop_last(), tag, source);
    let now = gathered(seen, v, tag, source);
    if k < v.len() - 1 {
        lemma_gathered_has(seen, v.drop_last(), tag, source, k);
        let i = choose|i: int|
            0 <= i < before.len() && (#[trigger] before[i]).memory_id == v[k].memory_id;
        assert(now[i] == before[i]);
    } else if !has_id(before, v[k].memory_id) {
        assert(now[before.len() as int] == v[k]);
    }
}

/// A memory that shares words with the task comes before every memory that
/// shares none.
pub proof fn relevant_memories_come_first(v: Seq<RankView>, ord: Seq<usize>, i: int, j: int)
    requires
        proper(v),
        is_ranking(v, ord),
        0 <= i < ord.len(),
        0 <= j < ord.len(),
        v[ord[i] as int].shared > 0,
        v[ord[j] as int].shared == 0,
    ensures
        i < j,
{
    let a = v[ord[i] as int];
    let b = v[ord[j] as int];
    assert(b.total >= 1);
    assert(a.shared * b.total > 0) by (nonlinear_arith)
        requires
            a.shared > 0,
            b.total >= 1,
    ;
    assert(b.shared * a.total == 0) by (nonlinear_arith)
        requires
            b.shared == 0,
    ;
    if j < i {
        assert(ranked_before(v, ord[j] as int, ord[i] as int));
        assert(more_relevant(a, b));
        assert(a.total >= 1);
        lemma_outranks(a, b, a);
    }
}

/// Every memory of the agent's own, from its digests and from the signals alike, is one
/// that the agent may be reminded of: one of the candidates has its id.
pub proof fn every_own_memory_is_a_candidate(
    agent_id: Seq<char>,
    digests: Seq<MemoryObjectView>,
    signals: Seq<MemoryObjectView>,
    fallback: Seq<MemoryObjectView>,
    m: MemoryObjectView,
)
    requires
        m.tags.contains("agent:"@ + agent_id),
        (digests.contains(m) && m.tags.contains("source:post_session_digest"@)) || (
        signals.contains(m) && m.tags.contains("source:quality_signal"@)),
    ensures
        exists|i: int|
            0 <= i < candidates(agent_id, digests, signals, fallback).len() && (
            #[trigger] candidates(agent_id, digests, signals, fallback)[i]).memory_id
                == m.memory_id,
{
    let tag = "agent:"@ + agent_id;
    let first = gathered(Seq::empty(), digests, tag, DIGEST_TAG@);
    let own = gathered(first, signals, tag, SIGNAL_TAG@);
    if digests.contains(m) && m.tags.contains("source:post_session_digest"@) {
        let k = choose|k: int| 0 <= k < digests.len() && digests[k] == m;
        lemma_gathered_has(Seq::empty(), digests, tag, DIGEST_TAG@, k);
        let i = choose|i: int| 0 <= i < first.len() && (#[trigger] first[i]).memory_id == m.memory_id;
        lemma_gathered_extends(first, signals, tag, SIGNAL_TAG@);
        assert(own[i] == first[i]);
    } else {
        let k = choose|k: int| 0 <= k < signals.len() && signals[k] == m;
        lemma_gathered_has(first, signals, tag, SIGNAL_TAG@, k);
    }
    let i = choose|i: int| 0 <= i < own.len() && (#[trigger] own[i]).memory_id == m.memory_id;
    assert(candidates(agent_id, digests, signals, fallback)[i].memory_id == m.memory_id);
}

proof fn lemma_gathered_extends(
    seen: Seq<MemoryObjectView>,
    v: Seq<MemoryObjectView>,
    tag: Seq<char>,
    source: Seq<char>,
)
    ensures
        gathered(seen, v, tag, source).len() >= seen.len(),
        forall|i: int| 0 <= i < seen.len() ==> #[trigger] gathered(seen, v, tag, source)[i] == seen[i],
        forall|i: int|
            seen.len() <= i < gathered(seen, v, tag, source).len() ==> v.contains(
                #[trigger] gathered(seen, v, tag, source)[i],
            ) && has_both(gathered(seen, v, tag, source)[i], tag, source),
    decreases v.len(),
{
    if v.len() > 0 {
        let d = v.drop_last();
        let now = gathered(seen, v, tag, source);
        let before = gathered(seen, d, tag, source);
        lemma_gathered_extends(seen, d, tag, source);
        assert forall|i: int| seen.len() <= i < now.len() implies v.contains(#[trigger] now[i])
            && has_both(now[i], tag, source) by {
            if i < before.len() {
                assert(now[i] == before[i]);
                let k = choose|k: int| 0 <= k < d.len() && d[k] == before[i];
                assert(v[k] == now[i]);
            } else {
                assert(v[v.len() - 1] == now[i]);
            }
        }
    }
}

proof fn lemma_gathered_once(
    seen: Seq<MemoryObjectView>,
    v: Seq<MemoryObjectView>,
    tag: Seq<char>,
    source: Seq<char>,
)
    requires
        forall|i: int, j: int|
            0 <= i < j < seen.len() ==> (#[trigger] seen[i]).memory_id != (
            #[trigger] seen[j]).memory_id,
    ensures
        forall|i: int, j: int|
            0 <= i < j < gathered(seen, v, tag, source).len() ==> (#[trigger] gathered(
                seen,
                v,
                tag,
                source,
            )[i]).memory_id != (#[trigger] gathered(seen, v, tag, source)[j]).memory_id,
    decreases v.len(),
{
    if v.len() > 0 {
        let before = gathered(seen, v.drop_last(), tag, source);
        let now = gathered(seen, v, tag, source);
        lemma_gathered_once(seen, v.drop_last(), tag, source);
        assert forall|i: int, j: int| 0 <= i < j < now.len() implies (#[trigger] now[i]).memory_id != (
        #[trigger] now[j]).memory_id by {
            assert(now[i] == before[i]);
            if j < before.len() {
                assert(now[j] == before[j]);
            } else {
                assert(before[i].memory_id != now[j].memory_id);
            }
        }
    }
}

/// The memories that an agent may be reminded of are its own digests and signals, each
/// id once; where it has none of its own, they are the digests of all, as they stand.
pub proof fn candidates_are_own_and_distinct(
    agent_id: Seq<char>,
    digests: Seq<MemoryObjectView>,
    signals: Seq<MemoryObjectView>,
    fallback: Seq<MemoryObjectView>,
)
    ensures
        ({
            let c = candidates(agent_id, digests, signals, fallback);
            let tag = "agent:"@ + agent_id;
            ||| c == fallback && (forall|m: MemoryObjectView|
                #[trigger] digests.contains(m) ==> !(m.tags.contains(tag) && m.tags.contains(
                    "source:post_session_digest"@,
                ))) && (forall|m: MemoryObjectView|
                #[trigger] signals.contains(m) ==> !(m.tags.contains(tag) && m.tags.contains(
                    "source:quality_signal"@,
                )))
            ||| (forall|i: int|
                0 <= i < c.len() ==> (#[trigger] c[i]).tags.contains(tag) && ((digests.contains(c[i])
                    && c[i].tags.contains("source:post_session_digest"@)) || (signals.contains(c[i])
                    && c[i].tags.contains("source:quality_signal"@)))) && (forall|i: int, j: int|
                0 <= i < j < c.len() ==> (#[trigger] c[i]).memory_id != (#[trigger] c[j]).memory_id)
        }),
{
    let tag = "agent:"@ + agent_id;
    let none = Seq::<MemoryObjectView>::empty();
    let first = gathered(none, digests, tag, DIGEST_TAG@);
    let own = gathered(first, signals, tag, SIGNAL_TAG@);
    lemma_gathered_extends(none, digests, tag, DIGEST_TAG@);
    lemma_gathered_extends(first, signals, tag, SIGNAL_TAG@);
    lemma_gathered_once(none, digests, tag, DIGEST_TAG@);
    lemma_gathered_once(first, signals, tag, SIGNAL_TAG@);
    if own.len() == 0 {
        assert forall|m: MemoryObjectView| #[trigger] digests.contains(m) implies !(m.tags.contains(
            tag,
        ) && m.tags.contains("source:post_session_digest"@)) by {
            let k = choose|k: int| 0 <= k < digests.len() && digests[k] == m;
            if has_both(m, tag, DIGEST_TAG@) {
                lemma_gathered_has(none, digests, tag, DIGEST_TAG@, k);
            }
        }
        assert forall|m: MemoryObjectView| #[trigger] signals.contains(m) implies !(m.tags.contains(
            tag,
        ) && m.tags.contains("source:quality_signal"@)) by {
            let k = choose|k: int| 0 <= k < signals.len() && signals[k] == m;
            if has_both(m, tag, SIGNAL_TAG@) {
                lemma_gathered_has(first, signals, tag, SIGNAL_TAG@, k);
            }
        }
    } else {
        assert forall|i: int| 0 <= i < own.len() implies (#[trigger] own[i]).tags.contains(tag) && ((
        digests.contains(own[i]) && own[i].tags.contains("source:post_session_digest"@)) || (
        signals.contains(own[i]) && own[i].tags.contains("source:quality_signal"@))) by {
            if i < first.len() {
                assert(own[i] == first[i]);
            }
        }
    }
}

/// Where as many memories are wanted as there are, each is chosen.
pub proof fn every_candidate_is_chosen_where_there_is_room(
    v: Seq<MemoryObjectView>,
    task: Option<Seq<char>>,
    n: nat,
    sel: Seq<MemoryObjectView>,
    p: int,
)
    requires
        is_selection(v, task, n, sel),
        v.len() <= n,
        0 <= p < v.len(),
    ensures
        sel.contains(v[p]),
{
    match task {
        None => {
            assert(sel[p] == v[p]);
        },
        Some(t) => {
            let ranks = ranks_for(t, v);
            let ord = choose|ord: Seq<usize>| #[trigger] is_ranking(ranks, ord) && follows(sel, v, ord);
            assert forall|i: int, j: int| 0 <= i < j < ord.len() implies #[trigger] ord[i]
                != #[trigger] ord[j] by {
                let r = ranks[ord[i] as int];
                if ord[i] == ord[j] {
                    assert(ranked_before(ranks, ord[i] as int, ord[j] as int));
                    order::lemma_text_total(r.updated_at, r.updated_at);
                    assert(r.shared * r.total == r.shared * r.total);
                }
            }
            order::lemma_injective_is_onto(ord, p);
            let i = choose|i: int| 0 <= i < ord.len() && #[trigger] ord[i] == p;
            assert(sel[i] == v[p]);
        },
    }
}

/// As many memories are chosen as are wanted, or all where there are fewer, and each is
/// one that could be.
pub proof fn chosen_memories_are_candidates(
    v: Seq<MemoryObjectView>,
    task: Option<Seq<char>>,
    n: nat,
    sel: Seq<MemoryObjectView>,
    i: int,
)
    requires
        is_selection(v, task, n, sel),
        0 <= i < sel.len(),
    ensures
        v.contains(sel[i]),
        sel.len() <= n,
        sel.len() == n || sel.len() == v.len(),
{
    match task {
        None => {
            assert(v[i] == sel[i]);
        },
        Some(t) => {
            let ranks = ranks_for(t, v);
            let ord = choose|ord: Seq<usize>| #[trigger] is_ranking(ranks, ord) && follows(sel, v, ord);
            assert(v[ord[i] as int] == sel[i]);
        },
    }
}

/// What a chosen memory says is in the snippet: all of it where it has at most 500
/// characters and its first 500 else, behind a mark where it is a lesson from an error.
pub proof fn chosen_memories_are_told(sel: Seq<MemoryObjectView>, i: int, said: Seq<char>)
    requires
        0 <= i < sel.len(),
        said == (if sel[i].shown.len() <= 500 {
            sel[i].shown
        } else {
            sel[i].shown.subrange(0, 500)
        }),
    ensures
        sel[i].scope == "digest.error_pattern"@ || sel[i].scope == "digest.lesson"@
            ==> text::has_text(
            text::join(memory_lines(sel), "\n"@),
            "- "@ + "(error lesson) "@ + said,
        ),
        sel[i].scope != "digest.error_pattern"@ && sel[i].scope != "digest.lesson"@
            ==> text::has_text(text::join(memory_lines(sel), "\n"@), "- "@ + said),
        text::begins_with(
            text::join(memory_lines(sel), "\n"@),
            "---\n\nPrior Knowledge (from past sessions)\n"@,
        ),
{
    let lines = memory_lines(sel);
    let m = sel[i];
    let line = memory_line(m);
    assert(lines[i + 1] == line);
    assert(lines[0] == "---\n\nPrior Knowledge (from past sessions)\n"@);
    text::lemma_join_has(lines, "\n"@, i + 1);
    lemma_join_begins(lines, "\n"@);
    let mark = if is_error_lesson(m.scope) {
        "(error lesson) "@
    } else {
        ""@
    };
    lemma_line_begins(m, mark, said);
    text::lemma_has_text_trans(text::join(lines, "\n"@), line, "- "@ + mark + said);
    if !is_error_lesson(m.scope) {
        reveal_strlit("");
        assert("- "@ + ""@ =~= "- "@);
    }
}

proof fn lemma_line_begins(m: MemoryObjectView, mark: Seq<char>, said: Seq<char>)
    requires
        said == first_chars(m.shown, 500),
        mark == (if is_error_lesson(m.scope) {
            "(error lesson) "@
        } else {
            ""@
        }),
    ensures
        text::has_text(memory_line(m), "- "@ + mark + said),
{
    let none = Seq::<char>::empty();
    let start = "- "@ + mark + said;
    let line = memory_line(m);
    let rest = match session_in(m.tags) {
        Some(s) => " [from session "@ + first_chars(s, 8) + "]"@,
        None => none,
    };
    text::lemma_has_text_around(none, start, rest);
    assert(none + start + rest =~= line);
}

/// A chosen memory that is tagged with a session is told with the first eight
/// characters of the first such tag's session.
pub proof fn chosen_memories_name_their_session(
    sel: Seq<MemoryObjectView>,
    i: int,
    k: int,
    session: Seq<char>,
)
    requires
        0 <= i < sel.len(),
        0 <= k < sel[i].tags.len(),
        sel[i].tags[k] == "session:"@ + session,
        forall|n: int| 0 <= n < k ==> !text::begins_with(#[trigger] sel[i].tags[n], "session:"@),
    ensures
        text::has_text(
            text::join(memory_lines(sel), "\n"@),
            " [from session "@ + (if session.len() <= 8 {
                session
            } else {
                session.subrange(0, 8)
            }) + "]"@,
        ),
{
    let lines = memory_lines(sel);
    let m = sel[i];
    let line = memory_line(m);
    let none = Seq::<char>::empty();
    let tag = m.tags[k];
    let n = "session:"@.len() as int;
    assert(tag.subrange(0, n) =~= "session:"@);
    assert(tag.subrange(n, tag.len() as int) =~= session);
    lemma_session_in(m.tags, k);
    assert(lines[i + 1] == line);
    text::lemma_join_has(lines, "\n"@, i + 1);
    let start = "- "@ + (if is_error_lesson(m.scope) {
        "(error lesson) "@
    } else {
        ""@
    }) + first_chars(m.shown, 500);
    let tail = " [from session "@ + first_chars(session, 8) + "]"@;
    text::lemma_has_text_around(start, tail, none);
    assert(start + tail + none =~= line);
    text::lemma_has_text_trans(text::join(lines, "\n"@), line, tail);
}

proof fn lemma_session_in(tags: Seq<Seq<char>>, k: int)
    requires
        0 <= k < tags.len(),
        text::begins_with(tags[k], "session:"@),
        forall|n: int| 0 <= n < k ==> !text::begins_with(#[trigger] tags[n], "session:"@),
    ensures
        session_in(tags) == Some(
            tags[k].subrange("session:"@.len() as int, tags[k].len() as int),
        ),
    decreases tags.len(),
{
    if k > 0 {
        assert(!text::begins_with(tags[0], "session:"@));
        let rest = tags.subrange(1, tags.len() as int);
        assert forall|n: int| 0 <= n < k - 1 implies !text::begins_with(
            #[trigger] rest[n],
            "session:"@,
        ) by {
            assert(rest[n] == tags[n + 1]);
        }
        lemma_session_in(rest, k - 1);
    }
}

proof fn lemma_join_begins(parts: Seq<Seq<char>>, sep: Seq<char>)
    requires
        parts.len() > 0,
    ensures
        text::begins_with(text::join(parts, sep), parts[0]),
    decreases parts.len(),
{
    let j = text::join(parts, sep);
    let n = parts[0].len() as int;
    if parts.len() == 1 {
        assert(j.subrange(0, n) =~= parts[0]);
    } else {
        let d = parts.drop_last();
        lemma_join_begins(d, sep);
        let k = text::join(d, sep);
        assert(d[0] == parts[0]);
        assert(k.subrange(0, n) == parts[0]);
        assert(j.subrange(0, n) =~= k.subrange(0, n));
    }
}

/// How much two texts have in common does not depend on which comes first, is all of
/// it for a text and itself, and is nothing exactly where they share no word.
pub proof fn relevance_is_the_share_of_common_words(a: Seq<char>, b: Seq<char>)
    ensures
        overlap_of(a, b) == overlap_of(b, a),
        words(a).len() > 0 ==> overlap_of(a, a) == (words(a).len(), words(a).len()),
        (exists|w: Seq<char>| #[trigger] words(a).contains(w) && words(b).contains(w)) <==> overlap_of(
            a,
            b,
        ).0 > 0,
        overlap_of(a, b).0 <= overlap_of(a, b).1,
        overlap_of(a, b).1 >= 1,
{
    let x = words(a);
    let y = words(b);
    texts_have_finitely_many_words(a, a);
    texts_have_finitely_many_words(b, b);
    assert(x.intersect(y) =~= y.intersect(x));
    assert(x.union(y) =~= y.union(x));
    assert(x.intersect(x) =~= x);
    assert(x.union(x) =~= x);
    vstd::set_lib::lemma_len_intersect(x, y);
    vstd::set_lib::lemma_len_subset(x, x.union(y));
    if exists|w: Seq<char>| #[trigger] x.contains(w) && y.contains(w) {
        let w = choose|w: Seq<char>| #[trigger] x.contains(w) && y.contains(w);
        assert(x.intersect(y).contains(w));
        vstd::set::axiom_set_remove_len(x.intersect(y), w);
        vstd::set::axiom_set_remove_len(x, w);
        vstd::set::axiom_set_remove_len(y, w);
    } else {
        assert(x.intersect(y) =~= Set::empty());
    }
}

/// A memory that comes before another in a ranking has no smaller share of common words;
/// with the same share it is a lesson where the other is one, and with both the same it
/// is not older.
pub proof fn rankings_go_by_share_lesson_and_age(v: Seq<RankView>, ord: Seq<usize>, i: int, j: int)
    requires
        is_ranking(v, ord),
        proper(v),
        0 <= i < j < ord.len(),
    ensures
        ({
            let a = v[ord[i] as int];
            let b = v[ord[j] as int];
            &&& a.shared * b.total >= b.shared * a.total
            &&& a.shared * b.total == b.shared * a.total ==> (b.lesson ==> a.lesson)
            &&& a.shared * b.total == b.shared * a.total && a.lesson == b.lesson
                ==> !order::text_lt(a.updated_at, b.updated_at)
            &&& a.shared * b.total == b.shared * a.total && a.lesson == b.lesson && a.updated_at
                == b.updated_at ==> ord[i] < ord[j]
        }),
{
    let a = v[ord[i] as int];
    let b = v[ord[j] as int];
    assert(ranked_before(v, ord[i] as int, ord[j] as int));
    lemma_outranks(a, b, a);
    order::lemma_text_total(a.updated_at, b.updated_at);
}

// ---------------------------------------------------------------------------
// Laws of words
// ---------------------------------------------------------------------------

/// Every longest run of letters and digits in the lower-case text that takes more than one
/// byte is a word of the text.
pub proof fn every_run_of_letters_is_a_word(s: Seq<char>, low: Seq<char>, i: int, j: int)
    requires
        low == text::lower_text(s),
        0 <= i < j <= low.len(),
        forall|k: int| i <= k < j ==> is_alphanumeric(#[trigger] low[k]),
        i > 0 ==> !is_alphanumeric(low[i - 1]),
        j < low.len() ==> !is_alphanumeric(low[j]),
        text::byte_len(low.subrange(i, j)) > 1,
    ensures
        words(s).contains(low.subrange(i, j)),
{
    lemma_run_is_last(low, i, j);
    lemma_run_stays(low, i, j, low.len() as int);
    assert(low.subrange(0, low.len() as int) =~= low);
}

/// The last piece of a text that ends in a run of letters and digits is that run.
proof fn lemma_run_is_last(low: Seq<char>, i: int, j: int)
    requires
        0 <= i <= j <= low.len(),
        forall|k: int| i <= k < j ==> is_alphanumeric(#[trigger] low[k]),
        i > 0 ==> !is_alphanumeric(low[i - 1]),
    ensures
        pieces(low.subrange(0, j)).len() > 0,
        pieces(low.subrange(0, j)).last() == low.subrange(i, j),
    decreases j,
{
    let t = low.subrange(0, j);
    if j == 0 {
        assert(t =~= Seq::empty());
        assert(low.subrange(i, j) =~= Seq::empty());
    } else {
        assert(t.drop_last() =~= low.subrange(0, j - 1));
        assert(t.last() == low[j - 1]);
        if i == j {
            assert(low.subrange(i, j) =~= Seq::empty());
        } else {
            lemma_run_is_last(low, i, j - 1);
            assert(low.subrange(i, j - 1).push(low[j - 1]) =~= low.subrange(i, j));
        }
    }
}

/// A run that another character ends is a piece of every longer text.
proof fn lemma_run_stays(low: Seq<char>, i: int, j: int, n: int)
    requires
        0 <= i < j <= n <= low.len(),
        pieces(low.subrange(0, j)).len() > 0,
        pieces(low.subrange(0, j)).last() == low.subrange(i, j),
        j < low.len() ==> !is_alphanumeric(low[j]),
    ensures
        pieces(low.subrange(0, n)).contains(low.subrange(i, j)),
        n > j ==> exists|k: int|
            0 <= k < pieces(low.subrange(0, n)).len() - 1 && #[trigger] pieces(
                low.subrange(0, n),
            )[k] == low.subrange(i, j),
    decreases n,
{
    let w = low.subrange(i, j);
    let now = pieces(low.subrange(0, n));
    if n == j {
        assert(now[now.len() - 1] == w);
    } else {
        let t = low.subrange(0, n);
        let before = pieces(low.subrange(0, n - 1));
        assert(t.drop_last() =~= low.subrange(0, n - 1));
        assert(t.last() == low[n - 1]);
        lemma_run_stays(low, i, j, n - 1);
        if n - 1 == j {
            assert(now[before.len() - 1] == w);
        } else {
            let k = choose|k: int| 0 <= k < before.len() - 1 && #[trigger] before[k] == w;
            assert(now[k] == w);
        }
    }
}

/// A text has finitely many words, all of more than one byte.
pub proof fn texts_have_finitely_many_words(s: Seq<char>, w: Seq<char>)
    ensures
        words(s).finite(),
        words(s).contains(w) ==> text::byte_len(w) > 1,
{
    let p = pieces(text::lower_text(s));
    vstd::seq_lib::seq_to_set_is_finite(p);
    assert forall|t: Seq<char>| #[trigger] words(s).contains(t) implies p.to_set().contains(t) by {
    }
    vstd::set_lib::lemma_set_subset_finite(p.to_set(), words(s));
}

} // verus!
