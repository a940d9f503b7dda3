//! Which results may be disclosed, and the filter that redacts the others.

use crate::egress;
use crate::order;
use crate::text;
use vstd::prelude::*;

verus! {

/// Whether content may be disclosed.
#[derive(Debug, Clone, Copy, PartialEq, Eq, Structural)]
pub enum DisclosureClass {
    Public,
    Restricted,
}

impl DisclosureClass {
    pub fn is_restricted(self) -> (r: bool)
        ensures
            r == (self == DisclosureClass::Restricted),
    {
        self == DisclosureClass::Restricted
    }
}

/// Content from a source, and from a path where one is given, is of a class.
#[derive(Debug)]
pub struct DisclosureRule {
    pub source: String,
    pub path_pattern: Option<String>,
    pub class: DisclosureClass,
}

/// The rules, of which the first that applies decides, and the class where
/// none does.
#[derive(Debug)]
pub struct DisclosurePolicy {
    pub rules: Vec<DisclosureRule>,
    pub default_class: DisclosureClass,
}

impl Default for DisclosurePolicy {
    fn default() -> (r: DisclosurePolicy)
        ensures
            r.rules@.len() == 0,
            r.default_class == DisclosureClass::Public,
    {
        DisclosurePolicy { rules: Vec::new(), default_class: DisclosureClass::Public }
    }
}

/// A rule applies to content from `source` and `path`.
pub open spec fn rule_covers(rule: DisclosureRule, source: Seq<char>, path: Option<Seq<char>>) -> bool {
    rule.source@ == source && match (rule.path_pattern, path) {
        (Some(pattern), Some(p)) => egress::glob_matches(pattern@, p),
        (None, _) => true,
        (Some(_), None) => false,
    }
}

/// The class that the first applicable rule gives.
pub open spec fn first_class(rules: Seq<DisclosureRule>, source: Seq<char>, path: Option<Seq<char>>) -> Option<
    DisclosureClass,
>
    decreases rules.len(),
{
    if rules.len() == 0 {
        None
    } else if rule_covers(rules[0], source, path) {
        Some(rules[0].class)
    } else {
        first_class(rules.subrange(1, rules.len() as int), source, path)
    }
}

/// The class of content from `source` and `path`.
pub open spec fn class_of(policy: DisclosurePolicy, source: Seq<char>, path: Option<Seq<char>>) -> DisclosureClass {
    match first_class(policy.rules@, source, path) {
        Some(c) => c,
        None => policy.default_class,
    }
}

/// The restricted content that a session has seen.
#[derive(Debug)]
pub struct DisclosureState {
    pub policy: DisclosurePolicy,
    pub taints: Vec<String>,
}

/// The mark that redacted content is replaced by.
pub const MARK: &'static str = "[REDACTED]";

/// A reply with each of `taints`, one after the other, replaced by the mark.
pub open spec fn redacted(reply: Seq<char>, taints: Seq<Seq<char>>) -> Seq<char>
    decreases taints.len(),
{
    if taints.len() == 0 {
        reply
    } else {
        text::replace_text(redacted(reply, taints.drop_last()), taints.last(), MARK@)
    }
}

/// The keys by which the taints are sorted: the longest, in bytes, first.
pub open spec fn length_keys(taints: Seq<Seq<char>>) -> Seq<(u64, Seq<char>)> {
    taints.map_values(|t: Seq<char>| ((u64::MAX - text::byte_len(t)) as u64, Seq::<char>::empty()))
}

/// `from` in the order that `by` lists.
pub open spec fn arranged(from: Seq<Seq<char>>, by: Seq<usize>) -> Seq<Seq<char>> {
    by.map_values(|i: usize| from[i as int])
}

impl DisclosureState {
    /// Nothing seen yet is blank.
    pub open spec fn well_formed(self) -> bool {
        forall|i: int|
            0 <= i < self.taints@.len() ==> text::trim((#[trigger] self.taints@[i])@).len() > 0
    }

    pub fn new(policy: DisclosurePolicy) -> (r: DisclosureState)
        ensures
            r.policy == policy,
            r.taints@.len() == 0,
            r.well_formed(),
    {
        DisclosureState { policy, taints: Vec::new() }
    }

    /// The class of content from `source` and `path`.
    pub fn evaluate_class(&self, source: &str, path: Option<&str>) -> (r: DisclosureClass)
        ensures
            r == class_of(
                self.policy,
                source@,
                match path {
                    Some(p) => Some(p@),
                    None => None,
                },
            ),
    {
        let ghost at = match path {
            Some(p) => Some(p@),
            None => None,
        };
        let rules = &self.policy.rules;
        let mut i: usize = 0;
        assert(rules@.subrange(0, rules@.len() as int) =~= rules@);
        while i < rules.len()
            invariant
                i <= rules@.len(),
                rules == &self.policy.rules,
                at == (match path {
                    Some(p) => Some(p@),
                    None => None,
                }),
                first_class(rules@, source@, at) == first_class(
                    rules@.subrange(i as int, rules@.len() as int),
                    source@,
                    at,
                ),
            decreases rules@.len() - i,
        {
            proof {
                let rest = rules@.subrange(i as int, rules@.len() as int);
                assert(rest.subrange(1, rest.len() as int) =~= rules@.subrange(
                    i + 1,
                    rules@.len() as int,
                ));
            }
            let rule = &rules[i];
            if text::text_eq(rule.source.as_str(), source) {
                match (&rule.path_pattern, path) {
                    (Some(pattern), Some(p)) => {
                        if egress::matches_simple_glob(pattern.as_str(), p) {
                            return rule.class;
                        }
                    },
                    (None, _) => {
                        return rule.class;
                    },
                    _ => {},
                }
            }
            i = i + 1;
        }
        self.policy.default_class
    }

    /// Remembers a result whose class is restricted, unless it is blank.
    pub fn register_result(&mut self, source: &str, path: Option<&str>, result: &str)
        requires
            old(self).well_formed(),
        ensures
            final(self).well_formed(),
            final(self).policy == old(self).policy,
            final(self).taints.deep_view() == (if class_of(
                old(self).policy,
                source@,
                match path {
                    Some(p) => Some(p@),
                    None => None,
                },
            ) == DisclosureClass::Restricted && text::trim(result@).len() > 0 {
                old(self).taints.deep_view().push(result@)
            } else {
                old(self).taints.deep_view()
            }),
    {
        let class = self.evaluate_class(source, path);
        self.register_explicit_taint(result, class);
    }

    /// Remembers content of a given class, unless it is blank.
    pub fn register_explicit_taint(&mut self, result: &str, class: DisclosureClass)
        requires
            old(self).well_formed(),
        ensures
            final(self).well_formed(),
            final(self).policy == old(self).policy,
            final(self).taints.deep_view() == (if class == DisclosureClass::Restricted
                && text::trim(result@).len() > 0 {
                old(self).taints.deep_view().push(result@)
            } else {
                old(self).taints.deep_view()
            }),
    {
        if class.is_restricted() && !text::is_blank(result) {
            let ghost before = self.taints.deep_view();
            egress::push_name(&mut self.taints, result);
            assert(self.taints.deep_view() == before.push(result@));
            assert(self.taints@.len() == self.taints.deep_view().len());
            assert forall|i: int| 0 <= i < self.taints@.len() implies text::trim(
                (#[trigger] self.taints@[i])@,
            ).len() > 0 by {
                assert(self.taints@[i]@ == self.taints.deep_view()[i]);
                if i < before.len() {
                    assert(before[i] == old(self).taints@[i]@);
                    assert(text::trim(old(self).taints@[i]@).len() > 0);
                }
            }
        }
    }

    /// Replaces every verbatim occurrence of remembered content by the mark,
    /// the longest content first, and of equally long content the earlier first.
    /// Content that is clear of the mark does not occur in the result.
    pub fn filter_reply(&self, reply: &str) -> (r: String)
        requires
            self.well_formed(),
        ensures
            exists|by: Seq<usize>|
                #[trigger] order::is_stable_order(length_keys(self.taints.deep_view()), by) && r@
                    == redacted(reply@, arranged(self.taints.deep_view(), by)),
            forall|i: int|
                0 <= i < self.taints@.len() && clear_of((#[trigger] self.taints@[i])@, MARK@)
                    ==> !text::has_text(r@, self.taints@[i]@),
    {
        let ghost all = self.taints.deep_view();
        let mut keys: Vec<(u64, String)> = Vec::new();
        let mut i: usize = 0;
        while i < self.taints.len()
            invariant
                i <= self.taints@.len(),
                all == self.taints.deep_view(),
                keys@.len() == i,
                forall|k: int|
                    0 <= k < i ==> (#[trigger] keys@[k]).deep_view() == length_keys(all)[k],
            decreases self.taints@.len() - i,
        {
            assert(all[i as int] == self.taints@[i as int]@);
            let n: usize = text::byte_count(self.taints[i].as_str());
            let empty = String::new();
            assert(empty@ =~= Seq::<char>::empty());
            keys.push((u64::MAX - n as u64, empty));
            i = i + 1;
        }
        assert(keys.deep_view() =~= length_keys(all));
        let by = order::stable_order(&keys);
        let ghost seq = arranged(all, by@);
        let mut out = reply.to_owned();
        let mut j: usize = 0;
        assert(redacted(reply@, seq.subrange(0, 0)) == reply@);
        while j < by.len()
            invariant
                j <= by@.len(),
                self.well_formed(),
                all == self.taints.deep_view(),
                seq == arranged(all, by@),
                order::is_stable_order(length_keys(all), by@),
                out@ == redacted(reply@, seq.subrange(0, j as int)),
            decreases by@.len() - j,
        {
            proof {
                let t = seq.subrange(0, j + 1);
                assert(t.drop_last() =~= seq.subrange(0, j as int));
                assert(0 <= by@[j as int] < length_keys(all).len());
                assert(t.last() == all[by@[j as int] as int]);
                assert(all[by@[j as int] as int] == self.taints@[by@[j as int] as int]@);
                lemma_not_blank(self.taints@[by@[j as int] as int]@);
            }
            out = text::replaced(out.as_str(), self.taints[by[j]].as_str(), MARK);
            j = j + 1;
        }
        assert(seq.subrange(0, j as int) =~= seq);
        proof {
            assert forall|i: int|
                0 <= i < self.taints@.len() && clear_of(
                    (#[trigger] self.taints@[i])@,
                    MARK@,
                ) implies !text::has_text(out@, self.taints@[i]@) by {
                order::lemma_stable_order_onto(length_keys(all), by@, i);
                let k = choose|k: int| 0 <= k < by@.len() && #[trigger] by@[k] == i;
                assert(seq[k] == all[i]);
                assert(all[i] == self.taints@[i]@);
                assert forall|l: int| 0 <= l < seq.len() implies (#[trigger] seq[l]).len() > 0 by {
                    let o = by@[l] as int;
                    assert(0 <= o < length_keys(all).len());
                    assert(seq[l] == all[o] && all[o] == self.taints@[o]@);
                    lemma_not_blank(self.taints@[o]@);
                }
                redaction_leaves_nothing_verbatim(reply@, seq, k);
            }
        }
        out
    }
}

proof fn lemma_not_blank(s: Seq<char>)
    requires
        text::trim(s).len() > 0,
    ensures
        s.len() > 0,
{
    if s.len() == 0 {
        assert(text::trim(s).len() == 0);
    }
}

// ---------------------------------------------------------------------------
// What the filter leaves
// ---------------------------------------------------------------------------

/// `p`, laid over `m` with its start at `d`, agrees with it where both are.
pub open spec fn fits(p: Seq<char>, m: Seq<char>, d: int) -> bool {
    forall|j: int| 0 <= j < p.len() && 0 <= j + d < m.len() ==> p[j] == #[trigger] m[j + d]
}

/// No part of `p` can coincide with a part of `m`: neither do they overlap at
/// their ends, nor does one hold the other.
pub open spec fn clear_of(p: Seq<char>, m: Seq<char>) -> bool {
    p.len() > 0 && forall|d: int| -p.len() < d < m.len() ==> !#[trigger] fits(p, m, d)
}

/// An occurrence in a text made of three parts, the middle one being clear of
/// the pattern, lies in the first or in the last part.
proof fn lemma_occurrence_in_parts(
    a: Seq<char>,
    m: Seq<char>,
    b: Seq<char>,
    p: Seq<char>,
    i: int,
)
    requires
        clear_of(p, m),
        m.len() > 0,
        text::occurs_at(a + m + b, p, i),
    ensures
        text::occurs_at(a, p, i) || text::occurs_at(b, p, i - a.len() - m.len()),
{
    let s = a + m + b;
    assert(s.subrange(i, i + p.len()) =~= p);
    if i + p.len() <= a.len() {
        assert(a.subrange(i, i + p.len()) =~= p) by {
            assert forall|k: int| 0 <= k < p.len() implies a.subrange(i, i + p.len())[k] == p[k] by {
                assert(s.subrange(i, i + p.len())[k] == s[i + k]);
            }
        }
    } else if i >= a.len() + m.len() {
        let o = i - a.len() - m.len();
        assert(b.subrange(o, o + p.len()) =~= p) by {
            assert forall|k: int| 0 <= k < p.len() implies b.subrange(o, o + p.len())[k] == p[k] by {
                assert(s.subrange(i, i + p.len())[k] == s[i + k]);
            }
        }
    } else {
        let d = i - a.len();
        assert(fits(p, m, d)) by {
            assert forall|j: int| 0 <= j < p.len() && 0 <= j + d < m.len() implies p[j]
                == #[trigger] m[j + d] by {
                assert(s.subrange(i, i + p.len())[j] == s[i + j]);
                assert(s[i + j] == m[j + d]);
            }
        }
    }
}

/// Replacing by a mark that is clear of `p` makes no new occurrence of `p`.
proof fn lemma_replace_adds_nothing(
    s: Seq<char>,
    from: Seq<char>,
    m: Seq<char>,
    p: Seq<char>,
)
    requires
        from.len() > 0,
        m.len() > 0,
        clear_of(p, m),
        !text::has_text(s, p),
    ensures
        !text::has_text(text::replace_text(s, from, m), p),
    decreases s.len(),
{
    text::lemma_find_text(s, from, 0);
    match text::find_text(s, from, 0) {
        None => {},
        Some(k) => {
            let head = s.subrange(0, k);
            let rest = s.subrange(k + from.len(), s.len() as int);
            let tail = text::replace_text(rest, from, m);
            assert forall|i: int| !text::occurs_at(head, p, i) by {
                if text::occurs_at(head, p, i) {
                    assert(s.subrange(i, i + p.len()) =~= head.subrange(i, i + p.len()));
                    assert(text::occurs_at(s, p, i));
                }
            }
            assert(!text::has_text(rest, p)) by {
                if text::has_text(rest, p) {
                    let i = choose|i: int| text::occurs_at(rest, p, i);
                    let o = i + k + from.len();
                    assert(s.subrange(o, o + p.len()) =~= rest.subrange(i, i + p.len()));
                    assert(text::occurs_at(s, p, o));
                }
            }
            lemma_replace_adds_nothing(rest, from, m, p);
            let whole = head + m + tail;
            if text::has_text(whole, p) {
                let i = choose|i: int| text::occurs_at(whole, p, i);
                lemma_occurrence_in_parts(head, m, tail, p, i);
                if text::occurs_at(tail, p, i - head.len() - m.len()) {
                    assert(text::has_text(tail, p));
                }
            }
        },
    }
}

/// Replacing `p` by a mark that is clear of it leaves no occurrence of `p`.
proof fn lemma_replace_removes(s: Seq<char>, p: Seq<char>, m: Seq<char>)
    requires
        m.len() > 0,
        clear_of(p, m),
    ensures
        !text::has_text(text::replace_text(s, p, m), p),
    decreases s.len(),
{
    text::lemma_find_text(s, p, 0);
    match text::find_text(s, p, 0) {
        None => {
            if text::has_text(s, p) {
                let i = choose|i: int| text::occurs_at(s, p, i);
                assert(0 <= i);
            }
        },
        Some(k) => {
            let head = s.subrange(0, k);
            let rest = s.subrange(k + p.len(), s.len() as int);
            let tail = text::replace_text(rest, p, m);
            assert forall|i: int| !text::occurs_at(head, p, i) by {
                if text::occurs_at(head, p, i) {
                    assert(s.subrange(i, i + p.len()) =~= head.subrange(i, i + p.len()));
                    assert(text::occurs_at(s, p, i));
                    assert(i < k);
                }
            }
            lemma_replace_removes(rest, p, m);
            let whole = head + m + tail;
            if text::has_text(whole, p) {
                let i = choose|i: int| text::occurs_at(whole, p, i);
                lemma_occurrence_in_parts(head, m, tail, p, i);
                if text::occurs_at(tail, p, i - head.len() - m.len()) {
                    assert(text::has_text(tail, p));
                }
            }
        },
    }
}

/// A redacted reply holds none of the remembered content that is clear of the
/// mark, in whatever order the content is redacted and whatever else is.
pub proof fn redaction_leaves_nothing_verbatim(reply: Seq<char>, taints: Seq<Seq<char>>, i: int)
    requires
        0 <= i < taints.len(),
        forall|k: int| 0 <= k < taints.len() ==> (#[trigger] taints[k]).len() > 0,
        clear_of(taints[i], MARK@),
    ensures
        !text::has_text(redacted(reply, taints), taints[i]),
    decreases taints.len(),
{
    reveal_strlit("[REDACTED]");
    let before = redacted(reply, taints.drop_last());
    if i == taints.len() - 1 {
        lemma_replace_removes(before, taints[i], MARK@);
    } else {
        let d = taints.drop_last();
        assert(d[i] == taints[i]);
        assert forall|k: int| 0 <= k < d.len() implies (#[trigger] d[k]).len() > 0 by {
            assert(d[k] == taints[k]);
        }
        redaction_leaves_nothing_verbatim(reply, d, i);
        lemma_replace_adds_nothing(before, taints.last(), MARK@, taints[i]);
    }
}

/// Content without brackets that is no part of the mark is clear of it.
pub proof fn ordinary_content_is_clear_of_the_mark(p: Seq<char>)
    requires
        p.len() > 0,
        !p.contains('['),
        !p.contains(']'),
        !text::has_text(MARK@, p),
    ensures
        clear_of(p, MARK@),
{
    reveal_strlit("[REDACTED]");
    let m = MARK@;
    assert(m[0] == '[' && m[m.len() - 1] == ']');
    assert forall|d: int| -p.len() < d < m.len() implies !#[trigger] fits(p, m, d) by {
        if fits(p, m, d) {
            if d <= 0 {
                assert(p[-d] == m[-d + d]);
                assert(p.contains('['));
            } else if d + p.len() >= m.len() {
                let j = m.len() - 1 - d;
                assert(p[j] == m[j + d]);
                assert(p.contains(']'));
            } else {
                assert(m.subrange(d, d + p.len()) =~= p) by {
                    assert forall|j: int| 0 <= j < p.len() implies m.subrange(d, d + p.len())[j]
                        == p[j] by {
                        assert(p[j] == m[j + d]);
                    }
                }
                assert(text::occurs_at(m, p, d));
            }
        }
    }
}

/// A reply that holds none of the content is left as it is.
pub proof fn clean_replies_pass_unchanged(reply: Seq<char>, taints: Seq<Seq<char>>)
    requires
        forall|k: int| 0 <= k < taints.len() ==> !text::has_text(reply, #[trigger] taints[k]),
    ensures
        redacted(reply, taints) == reply,
    decreases taints.len(),
{
    if taints.len() > 0 {
        let d = taints.drop_last();
        assert forall|k: int| 0 <= k < d.len() implies !text::has_text(reply, #[trigger] d[k]) by {
            assert(d[k] == taints[k]);
        }
        clean_replies_pass_unchanged(reply, d);
        let p = taints.last();
        assert(p == taints[taints.len() - 1]);
        text::lemma_find_text(reply, p, 0);
        if text::find_text(reply, p, 0) is Some {
            assert(text::has_text(reply, p));
        }
    }
}

/// The first rule about a source whose pattern, where it has one, matches the path decides
/// the class of content; where there is none, the policy's default does.
pub proof fn the_first_rule_decides_the_class(
    policy: DisclosurePolicy,
    source: Seq<char>,
    path: Option<Seq<char>>,
    i: int,
)
    requires
        0 <= i <= policy.rules@.len(),
        forall|k: int|
            0 <= k < i ==> ({
                let r = #[trigger] policy.rules@[k];
                r.source@ != source || (r.path_pattern is Some && (path is None
                    || !egress::glob_matches(r.path_pattern->Some_0@, path->Some_0)))
            }),
        i < policy.rules@.len() ==> ({
            let r = policy.rules@[i];
            r.source@ == source && (r.path_pattern is None || (path is Some && egress::glob_matches(
                r.path_pattern->Some_0@,
                path->Some_0,
            )))
        }),
    ensures
        i < policy.rules@.len() ==> class_of(policy, source, path) == policy.rules@[i].class,
        i == policy.rules@.len() ==> class_of(policy, source, path) == policy.default_class,
{
    assert forall|k: int| 0 <= k < i implies !rule_covers(
        #[trigger] policy.rules@[k],
        source,
        path,
    ) by {
    }
    lemma_first_class(policy.rules@, source, path, i);
}

proof fn lemma_first_class(
    rules: Seq<DisclosureRule>,
    source: Seq<char>,
    path: Option<Seq<char>>,
    i: int,
)
    requires
        0 <= i <= rules.len(),
        forall|k: int| 0 <= k < i ==> !rule_covers(#[trigger] rules[k], source, path),
        i < rules.len() ==> rule_covers(rules[i], source, path),
    ensures
        first_class(rules, source, path) == (if i < rules.len() {
            Some(rules[i].class)
        } else {
            None
        }),
    decreases rules.len(),
{
    if i > 0 {
        let rest = rules.subrange(1, rules.len() as int);
        assert(!rule_covers(rules[0], source, path));
        assert forall|k: int| 0 <= k < i - 1 implies !rule_covers(#[trigger] rest[k], source, path) by {
            assert(rest[k] == rules[k + 1]);
        }
        lemma_first_class(rest, source, path, i - 1);
    }
}

/// Longer content is redacted before shorter content, so that no piece of it is left.
pub proof fn longer_content_is_redacted_first(
    taints: Seq<Seq<char>>,
    by: Seq<usize>,
    i: int,
    j: int,
)
    requires
        order::is_stable_order(length_keys(taints), by),
        forall|k: int| 0 <= k < taints.len() ==> text::byte_len(#[trigger] taints[k]) <= u64::MAX,
        0 <= i < j < by.len(),
    ensures
        text::byte_len(arranged(taints, by)[i]) >= text::byte_len(arranged(taints, by)[j]),
{
    let keys = length_keys(taints);
    let p = by[i] as int;
    let q = by[j] as int;
    assert(order::precedes(keys, by[i] as int, by[j] as int));
    assert(text::byte_len(taints[p]) <= u64::MAX);
    assert(text::byte_len(taints[q]) <= u64::MAX);
    assert(keys[p].0 == (u64::MAX - text::byte_len(taints[p])) as u64);
    assert(keys[q].0 == (u64::MAX - text::byte_len(taints[q])) as u64);
}

} // verus!
