//! Which model may see which content.
//!
//! A completion must run on a provider that is cleared for the labels of its
//! batch, and a band of history may be summarized only by a model cleared for
//! it. Both decisions are pure functions of the labels involved.

use crate::egress;
use crate::egress::{EgressClass, EgressLabel, Provenance, ProviderConstraint, Sink};
use crate::llm;
use crate::llm::{Message, Role};
use crate::order;
use crate::text;
use crate::textmap::TextMap;
use vstd::prelude::*;

verus! {

// ---------------------------------------------------------------------------
// Messages and their labels
// ---------------------------------------------------------------------------

/// The key under which a message's label is filed: a tool result's call, any
/// other message's id.
pub open spec fn egress_key(m: llm::MessageView) -> Option<Seq<char>> {
    if m.role == Role::Tool {
        m.tool_call_id
    } else {
        m.id
    }
}

/// The key under which a message's label is filed, where it has one.
pub fn message_egress_key(msg: &Message) -> (r: Option<&str>)
    ensures
        match r {
            Some(k) => egress_key(msg@) == Some(k@),
            None => egress_key(msg@) is None,
        },
{
    let o = if msg.role == Role::Tool {
        &msg.tool_call_id
    } else {
        &msg.id
    };
    match o {
        Some(s) => Some(s.as_str()),
        None => None,
    }
}

/// The label of a message; a message without one is unrestricted.
pub open spec fn label_of(m: llm::MessageView, labels: Map<Seq<char>, EgressLabel>) -> EgressLabel {
    match egress_key(m) {
        Some(k) => if labels.dom().contains(k) {
            labels[k]
        } else {
            EgressLabel::top()
        },
        None => EgressLabel::top(),
    }
}

fn label_of_exec(msg: &Message, labels: &TextMap<EgressLabel>) -> (r: EgressLabel)
    ensures
        r == label_of(msg@, labels@),
{
    match message_egress_key(msg) {
        Some(k) => match labels.get(k) {
            Some(l) => *l,
            None => EgressLabel::unrestricted(),
        },
        None => EgressLabel::unrestricted(),
    }
}

/// Every label that the session gathered allows `s`.
pub open spec fn all_allow(labels: Map<Seq<char>, EgressLabel>, s: Sink) -> bool {
    forall|k: Seq<char>| #[trigger] labels.dom().contains(k) ==> labels[k].permits(s)
}

/// The label of everything that a session touched.
pub open spec fn accumulated(labels: Map<Seq<char>, EgressLabel>) -> EgressLabel {
    EgressLabel::from_predicate(|s: Sink| all_allow(labels, s))
}

/// The intersection of the labels of everything that a session touched.
pub fn session_accumulated_taint(labels: &TextMap<EgressLabel>) -> (r: EgressLabel)
    ensures
        r == accumulated(labels@),
{
    let ghost m = labels@;
    let ghost keys = labels.key_seq();
    let n = labels.len();
    let mut acc = EgressLabel::unrestricted();
    let mut i: usize = 0;
    while i < n
        invariant
            m == labels@,
            keys == labels.key_seq(),
            n == keys.len(),
            i <= n,
            forall|k: Seq<char>| keys.contains(k) <==> #[trigger] m.dom().contains(k),
            forall|s: Sink|
                #[trigger] acc.permits(s) <==> forall|k: int|
                    0 <= k < i ==> m[#[trigger] keys[k]].permits(s),
        decreases n - i,
    {
        let ghost before = acc;
        let l = labels.value_at(i);
        acc = acc.restrict(l);
        proof {
            assert forall|s: Sink| #[trigger] acc.permits(s) <==> forall|k: int|
                0 <= k < i + 1 ==> m[#[trigger] keys[k]].permits(s) by {
                assert(acc.permits(s) == (before.permits(s) && m[keys[i as int]].permits(s)));
            }
        }
        i = i + 1;
    }
    proof {
        assert forall|s: Sink| #[trigger] acc.permits(s) == accumulated(m).permits(s) by {
            assert(accumulated(m).permits(s) == all_allow(m, s));
            if acc.permits(s) {
                assert forall|k: Seq<char>| #[trigger] m.dom().contains(k) implies m[k].permits(s) by {
                    assert(keys.contains(k));
                    let j = choose|j: int| 0 <= j < keys.len() && keys[j] == k;
                    assert(m[keys[j]].permits(s));
                }
            }
            if all_allow(m, s) {
                assert forall|k: int| 0 <= k < n implies m[#[trigger] keys[k]].permits(s) by {
                    assert(keys.contains(keys[k]));
                    assert(m.dom().contains(keys[k]));
                }
            }
        }
        acc.lemma_extensional(accumulated(m));
    }
    acc
}

/// What a session hands to another is restricted by everything that it touched.
pub proof fn accumulated_taint_bounds_every_label(labels: Map<Seq<char>, EgressLabel>, k: Seq<char>)
    requires
        labels.dom().contains(k),
    ensures
        accumulated(labels).within(labels[k]),
{
    assert forall|s: Sink| #[trigger] accumulated(labels).permits(s) implies labels[k].permits(s) by {
        assert(accumulated(labels).permits(s) == all_allow(labels, s));
    }
}

// ---------------------------------------------------------------------------
// Summarizing
// ---------------------------------------------------------------------------

/// Whether a model may summarize a band of history.
#[derive(Debug)]
pub enum CompressionEligibility {
    Eligible,
    /// Summarizing would leak the named messages.
    Ineligible { reason: String, leaked_tool_call_ids: Vec<String> },
}

impl CompressionEligibility {
    pub fn is_eligible(&self) -> (r: bool)
        ensures
            r == (self is Eligible),
    {
        match self {
            CompressionEligibility::Eligible => true,
            _ => false,
        }
    }
}

/// The keys of the messages whose labels exclude `s`, in order.
pub open spec fn leaked(
    band: Seq<llm::MessageView>,
    labels: Map<Seq<char>, EgressLabel>,
    s: Sink,
) -> Seq<Seq<char>>
    decreases band.len(),
{
    if band.len() == 0 {
        Seq::empty()
    } else {
        let before = leaked(band.drop_last(), labels, s);
        if label_of(band.last(), labels).permits(s) {
            before
        } else {
            before.push(egress_key(band.last())->0)
        }
    }
}

/// How a class is written in diagnostics.
pub open spec fn class_name(c: EgressClass) -> Seq<char> {
    match c {
        EgressClass::Local => "Local"@,
        EgressClass::Remote => "Remote"@,
    }
}

fn class_str(c: EgressClass) -> (r: &'static str)
    ensures
        r@ == class_name(c),
{
    match c {
        EgressClass::Local => "Local",
        EgressClass::Remote => "Remote",
    }
}

/// Why a model may not summarize a band.
pub open spec fn ineligible_reason(class: EgressClass, n: nat) -> Seq<char> {
    "compression preset (egress_class="@ + class_name(class) + ", sink="@ + egress::sink_name(
        class.spec_sink(),
    ) + ") is not cleared for the band's taint ("@ + text::decimal(n)
        + " labeled result(s) would leak); falling back to token-budget truncation (RFC §5.7 — an incomplete local context beats a remote leak)"@
}

/// Decides whether a model of this class may summarize a band of history. It
/// may where no message of the band carries a label that excludes the model.
pub fn compression_preset_eligible(
    band: &[Message],
    labels: &TextMap<EgressLabel>,
    preset_class: EgressClass,
) -> (r: CompressionEligibility)
    ensures
        ({
            let out = leaked(llm::views(band@), labels@, preset_class.spec_sink());
            match r {
                CompressionEligibility::Eligible => out.len() == 0,
                CompressionEligibility::Ineligible { reason, leaked_tool_call_ids } => {
                    &&& out.len() > 0
                    &&& leaked_tool_call_ids.deep_view() == out
                    &&& reason@ == ineligible_reason(preset_class, out.len())
                },
            }
        }),
{
    let ghost s = llm::views(band@);
    let sink = preset_class.as_sink();
    let mut out: Vec<String> = Vec::new();
    let mut i: usize = 0;
    assert(out.deep_view() =~= Seq::<Seq<char>>::empty());
    while i < band.len()
        invariant
            s == llm::views(band@),
            i <= band@.len(),
            sink == preset_class.spec_sink(),
            out.deep_view() == leaked(s.subrange(0, i as int), labels@, sink),
        decreases band@.len() - i,
    {
        let msg = &band[i];
        proof {
            let t = s.subrange(0, i + 1);
            assert(t.drop_last() =~= s.subrange(0, i as int));
            assert(t.last() == msg@);
        }
        match message_egress_key(msg) {
            Some(k) => match labels.get(k) {
                Some(l) => {
                    if !l.allows(sink) {
                        egress::push_name(&mut out, k);
                    }
                },
                None => {},
            },
            None => {},
        }
        i = i + 1;
    }
    assert(s.subrange(0, i as int) =~= s);
    assert(out.deep_view().len() == out@.len());
    if out.len() == 0 {
        return CompressionEligibility::Eligible;
    }
    let mut reason = "compression preset (egress_class=".to_owned();
    reason.append(class_str(preset_class));
    reason.append(", sink=");
    reason.append(egress::sink_str(sink));
    reason.append(") is not cleared for the band's taint (");
    reason.append(text::decimal_string(out.len() as u64).as_str());
    reason.append(
        " labeled result(s) would leak); falling back to token-budget truncation (RFC §5.7 — an incomplete local context beats a remote leak)",
    );
    CompressionEligibility::Ineligible { reason, leaked_tool_call_ids: out }
}

/// A band is refused exactly where one of its messages carries a label that
/// excludes the model's sink.
pub proof fn a_band_is_refused_exactly_for_a_leak(
    band: Seq<llm::MessageView>,
    labels: Map<Seq<char>, EgressLabel>,
    s: Sink,
)
    ensures
        leaked(band, labels, s).len() > 0 <==> exists|i: int|
            0 <= i < band.len() && !label_of(#[trigger] band[i], labels).permits(s),
    decreases band.len(),
{
    if band.len() > 0 {
        let d = band.drop_last();
        a_band_is_refused_exactly_for_a_leak(d, labels, s);
        if leaked(d, labels, s).len() > 0 {
            let i = choose|i: int| 0 <= i < d.len() && !label_of(#[trigger] d[i], labels).permits(s);
            assert(band[i] == d[i]);
        }
        if exists|i: int| 0 <= i < band.len() && !label_of(#[trigger] band[i], labels).permits(s) {
            let i = choose|i: int|
                0 <= i < band.len() && !label_of(#[trigger] band[i], labels).permits(s);
            if i < d.len() {
                assert(d[i] == band[i]);
            }
        }
        if !label_of(band.last(), labels).permits(s) {
            assert(!label_of(band[band.len() - 1], labels).permits(s));
        }
    }
}

// ---------------------------------------------------------------------------
// Bands
// ---------------------------------------------------------------------------

/// Messages of one label.
#[derive(Debug)]
pub struct LabelBand {
    pub label: EgressLabel,
    pub messages: Vec<Message>,
    /// The keys of the members that have one.
    pub source_ids: Vec<String>,
}

/// The mathematical model of a [`LabelBand`].
pub struct BandView {
    pub label: EgressLabel,
    pub messages: Seq<llm::MessageView>,
    pub source_ids: Seq<Seq<char>>,
}

impl View for LabelBand {
    type V = BandView;

    open spec fn view(&self) -> BandView {
        BandView {
            label: self.label,
            messages: llm::views(self.messages@),
            source_ids: self.source_ids.deep_view(),
        }
    }
}

/// The models of a list of bands.
pub open spec fn band_views(v: Seq<LabelBand>) -> Seq<BandView> {
    v.map_values(|b: LabelBand| b@)
}

/// The message belongs to the band of `label`. System messages belong to none.
pub open spec fn in_band(
    m: llm::MessageView,
    labels: Map<Seq<char>, EgressLabel>,
    label: EgressLabel,
) -> bool {
    m.role != Role::System && label_of(m, labels) == label
}

/// The messages of a band, in order.
pub open spec fn members(
    s: Seq<llm::MessageView>,
    labels: Map<Seq<char>, EgressLabel>,
    label: EgressLabel,
) -> Seq<llm::MessageView>
    decreases s.len(),
{
    if s.len() == 0 {
        Seq::empty()
    } else if in_band(s.last(), labels, label) {
        members(s.drop_last(), labels, label).push(s.last())
    } else {
        members(s.drop_last(), labels, label)
    }
}

/// The keys of the messages of a band, in order.
pub open spec fn member_keys(
    s: Seq<llm::MessageView>,
    labels: Map<Seq<char>, EgressLabel>,
    label: EgressLabel,
) -> Seq<Seq<char>>
    decreases s.len(),
{
    if s.len() == 0 {
        Seq::empty()
    } else if in_band(s.last(), labels, label) && egress_key(s.last()) is Some {
        member_keys(s.drop_last(), labels, label).push(egress_key(s.last())->0)
    } else {
        member_keys(s.drop_last(), labels, label)
    }
}

/// The labels of the messages, each once, in order of first appearance.
pub open spec fn band_labels(
    s: Seq<llm::MessageView>,
    labels: Map<Seq<char>, EgressLabel>,
) -> Seq<EgressLabel>
    decreases s.len(),
{
    if s.len() == 0 {
        Seq::empty()
    } else {
        let before = band_labels(s.drop_last(), labels);
        let l = label_of(s.last(), labels);
        if s.last().role == Role::System || before.contains(l) {
            before
        } else {
            before.push(l)
        }
    }
}

/// The band of a label.
pub open spec fn band_of(
    s: Seq<llm::MessageView>,
    labels: Map<Seq<char>, EgressLabel>,
    label: EgressLabel,
) -> BandView {
    BandView {
        label,
        messages: members(s, labels, label),
        source_ids: member_keys(s, labels, label),
    }
}

/// The bands in order of first appearance.
pub open spec fn bands(
    s: Seq<llm::MessageView>,
    labels: Map<Seq<char>, EgressLabel>,
) -> Seq<BandView> {
    band_labels(s, labels).map_values(|l: EgressLabel| band_of(s, labels, l))
}

/// The order of bands: the unrestricted one first, then by name.
pub open spec fn band_key(l: EgressLabel) -> (u64, Seq<char>) {
    (
        if l == EgressLabel::top() {
            0u64
        } else {
            1u64
        },
        egress::display_name(l),
    )
}

/// The sort keys of some bands' labels.
pub open spec fn band_keys(ls: Seq<EgressLabel>) -> Seq<(u64, Seq<char>)> {
    ls.map_values(|l: EgressLabel| band_key(l))
}

/// The items of `from`, in the order `by`.
pub open spec fn arranged<T>(from: Seq<T>, by: Seq<usize>) -> Seq<T> {
    Seq::new(by.len(), |i: int| from[by[i] as int])
}

proof fn lemma_band_labels_distinct(s: Seq<llm::MessageView>, labels: Map<Seq<char>, EgressLabel>)
    ensures
        band_labels(s, labels).no_duplicates(),
    decreases s.len(),
{
    if s.len() > 0 {
        lemma_band_labels_distinct(s.drop_last(), labels);
        let before = band_labels(s.drop_last(), labels);
        let now = band_labels(s, labels);
        assert forall|i: int, j: int| 0 <= i < now.len() && 0 <= j < now.len() && i != j implies now[i]
            != now[j] by {
            if i < before.len() && j == before.len() {
                assert(before.contains(before[i]));
            }
            if j < before.len() && i == before.len() {
                assert(before.contains(before[j]));
            }
        }
    }
}

fn find_band(v: &Vec<LabelBand>, label: EgressLabel) -> (r: Option<usize>)
    ensures
        match r {
            Some(i) => i < v@.len() && v@[i as int].label == label,
            None => forall|k: int| 0 <= k < v@.len() ==> (#[trigger] v@[k]).label != label,
        },
{
    let mut i: usize = 0;
    while i < v.len()
        invariant
            i <= v@.len(),
            forall|k: int| 0 <= k < i ==> (#[trigger] v@[k]).label != label,
        decreases v@.len() - i,
    {
        if v[i].label == label {
            return Some(i);
        }
        i = i + 1;
    }
    None
}

/// A copy of a band with one more message.
fn extended_band(band: &LabelBand, msg: &Message) -> (r: LabelBand)
    ensures
        r@.label == band@.label,
        r@.messages == band@.messages.push(msg@),
        r@.source_ids == (match egress_key(msg@) {
            Some(k) => band@.source_ids.push(k),
            None => band@.source_ids,
        }),
{
    let mut messages = llm::clone_messages(band.messages.as_slice());
    let ghost before = messages@;
    let m = msg.clone();
    messages.push(m);
    assert(llm::views(messages@) =~= llm::views(before).push(m@));
    let mut source_ids = text::clone_all(&band.source_ids);
    match message_egress_key(msg) {
        Some(k) => egress::push_name(&mut source_ids, k),
        None => {},
    }
    LabelBand { label: band.label, messages, source_ids }
}

fn group_bands(band: &[Message], labels: &TextMap<EgressLabel>) -> (r: Vec<LabelBand>)
    ensures
        band_views(r@) == bands(llm::views(band@), labels@),
{
    let ghost s = llm::views(band@);
    let ghost lm = labels@;
    let mut out: Vec<LabelBand> = Vec::new();
    let mut i: usize = 0;
    while i < band.len()
        invariant
            s == llm::views(band@),
            lm == labels@,
            i <= band@.len(),
            ({
                let part = s.subrange(0, i as int);
                &&& out@.len() == band_labels(part, lm).len()
                &&& forall|k: int|
                    0 <= k < out@.len() ==> (#[trigger] out@[k])@ == band_of(
                        part,
                        lm,
                        band_labels(part, lm)[k],
                    )
            }),
        decreases band@.len() - i,
    {
        let msg = &band[i];
        let ghost part = s.subrange(0, i as int);
        let ghost next = s.subrange(0, i + 1);
        let ghost before = out@;
        proof {
            assert(next.drop_last() =~= part);
            assert(next.last() == msg@);
            lemma_band_labels_distinct(part, lm);
        }
        if msg.role == Role::System {
            proof {
                assert forall|k: int| 0 <= k < out@.len() implies (#[trigger] out@[k])@ == band_of(
                    next,
                    lm,
                    band_labels(next, lm)[k],
                ) by {
                }
            }
        } else {
            let label = label_of_exec(msg, labels);
            match find_band(&out, label) {
                Some(p) => {
                    let b = extended_band(&out[p], msg);
                    out.set(p, b);
                    proof {
                        assert(before[p as int]@.label == band_labels(part, lm)[p as int]);
                        assert(band_labels(part, lm).contains(label));
                        assert forall|k: int| 0 <= k < out@.len() implies (#[trigger] out@[k])@
                            == band_of(next, lm, band_labels(next, lm)[k]) by {
                            if k != p {
                                assert(before[k]@.label == band_labels(part, lm)[k]);
                                assert(band_labels(part, lm)[k] != label);
                            }
                        }
                    }
                },
                None => {
                    let empty = LabelBand { label, messages: Vec::new(), source_ids: Vec::new() };
                    let b = extended_band(&empty, msg);
                    out.push(b);
                    proof {
                        assert forall|k: int| 0 <= k < before.len() implies band_labels(part, lm)[k]
                            != label by {
                            assert(before[k]@ == band_of(part, lm, band_labels(part, lm)[k]));
                            assert(before[k].label != label);
                        }
                        assert(!band_labels(part, lm).contains(label));
                        assert(empty@.messages =~= Seq::<llm::MessageView>::empty());
                        assert(empty@.source_ids =~= Seq::<Seq<char>>::empty());
                        lemma_no_members(part, lm, label);
                        assert(members(part, lm, label) =~= Seq::<llm::MessageView>::empty());
                        assert(member_keys(part, lm, label) =~= Seq::<Seq<char>>::empty());
                        assert forall|k: int| 0 <= k < out@.len() implies (#[trigger] out@[k])@
                            == band_of(next, lm, band_labels(next, lm)[k]) by {
                            if k < before.len() {
                                assert(out@[k] == before[k]);
                                assert(band_labels(part, lm)[k] != label);
                            }
                        }
                    }
                },
            }
        }
        i = i + 1;
    }
    assert(s.subrange(0, i as int) =~= s);
    assert(band_views(out@) =~= bands(s, lm));
    out
}

proof fn lemma_no_members(
    s: Seq<llm::MessageView>,
    labels: Map<Seq<char>, EgressLabel>,
    label: EgressLabel,
)
    requires
        !band_labels(s, labels).contains(label),
    ensures
        members(s, labels, label).len() == 0,
        member_keys(s, labels, label).len() == 0,
    decreases s.len(),
{
    if s.len() > 0 {
        let d = s.drop_last();
        let before = band_labels(d, labels);
        let now = band_labels(s, labels);
        if before.contains(label) {
            let k = choose|k: int| 0 <= k < before.len() && before[k] == label;
            assert(now[k] == label);
        }
        lemma_no_members(d, labels, label);
        if in_band(s.last(), labels, label) {
            if !before.contains(label) {
                assert(now[now.len() - 1] == label);
            }
        }
    }
}

/// Parts the compressible messages into bands of one label each. The
/// unrestricted band comes first, the others by the name of their label.
pub fn partition_by_label(band: &[Message], labels: &TextMap<EgressLabel>) -> (r: Vec<LabelBand>)
    ensures
        exists|by: Seq<usize>|
            #[trigger] order::is_stable_order(
                band_keys(band_labels(llm::views(band@), labels@)),
                by,
            ) && band_views(r@) == arranged(bands(llm::views(band@), labels@), by),
{
    let grouped = group_bands(band, labels);
    let ghost s = llm::views(band@);
    let ghost bl = band_labels(s, labels@);
    let mut keys: Vec<(u64, String)> = Vec::new();
    let mut i: usize = 0;
    while i < grouped.len()
        invariant
            i <= grouped@.len(),
            keys@.len() == i,
            forall|k: int|
                0 <= k < i ==> (#[trigger] keys@[k]).deep_view() == band_key(grouped@[k].label),
        decreases grouped@.len() - i,
    {
        let l = grouped[i].label;
        let class: u64 = if l.is_unrestricted() {
            0
        } else {
            1
        };
        keys.push((class, egress::label_display_name(&l)));
        i = i + 1;
    }
    let by = order::stable_order(&keys);
    proof {
        assert(grouped@.len() == band_views(grouped@).len());
        assert forall|k: int| 0 <= k < grouped@.len() implies #[trigger] grouped@[k].label == bl[k] by {
            assert(band_views(grouped@)[k] == grouped@[k]@);
            assert(bands(s, labels@)[k] == band_of(s, labels@, bl[k]));
        }
        assert(keys.deep_view() =~= band_keys(bl));
    }
    let mut out: Vec<LabelBand> = Vec::new();
    let mut j: usize = 0;
    while j < by.len()
        invariant
            j <= by@.len(),
            by@.len() == grouped@.len(),
            forall|k: int| 0 <= k < by@.len() ==> 0 <= #[trigger] by@[k] < grouped@.len(),
            out@.len() == j,
            forall|k: int| 0 <= k < j ==> (#[trigger] out@[k])@ == grouped@[by@[k] as int]@,
        decreases by@.len() - j,
    {
        let b = &grouped[by[j]];
        out.push(
            LabelBand {
                label: b.label,
                messages: llm::clone_messages(b.messages.as_slice()),
                source_ids: text::clone_all(&b.source_ids),
            },
        );
        j = j + 1;
    }
    proof {
        assert(band_views(out@) =~= arranged(bands(s, labels@), by@)) by {
            assert forall|k: int| 0 <= k < out@.len() implies band_views(out@)[k] == arranged(
                bands(s, labels@),
                by@,
            )[k] by {
                assert(band_views(grouped@)[by@[k] as int] == grouped@[by@[k] as int]@);
            }
        }
    }
    out
}

/// Every message that is not a system message stands in the band of its own
/// label, and no band mixes labels.
pub proof fn bands_never_mix_labels(
    s: Seq<llm::MessageView>,
    labels: Map<Seq<char>, EgressLabel>,
    i: int,
)
    requires
        0 <= i < s.len(),
        s[i].role != Role::System,
    ensures
        band_labels(s, labels).contains(label_of(s[i], labels)),
        members(s, labels, label_of(s[i], labels)).contains(s[i]),
        forall|l: EgressLabel, k: int|
            0 <= k < members(s, labels, l).len() ==> label_of(
                #[trigger] members(s, labels, l)[k],
                labels,
            ) == l,
    decreases s.len(),
{
    let d = s.drop_last();
    let l = label_of(s[i], labels);
    if i < d.len() {
        assert(d[i] == s[i]);
        bands_never_mix_labels(d, labels, i);
        let k = choose|k: int|
            0 <= k < band_labels(d, labels).len() && band_labels(d, labels)[k] == l;
        assert(band_labels(s, labels)[k] == l);
        let k = choose|k: int| 0 <= k < members(d, labels, l).len() && members(d, labels, l)[k] == s[i];
        assert(members(s, labels, l)[k] == s[i]);
    } else {
        let b = band_labels(s, labels);
        if !band_labels(d, labels).contains(l) {
            assert(b[b.len() - 1] == l);
        }
        let m = members(s, labels, l);
        assert(m[m.len() - 1] == s[i]);
    }
    assert forall|l: EgressLabel, k: int| 0 <= k < members(s, labels, l).len() implies label_of(
        #[trigger] members(s, labels, l)[k],
        labels,
    ) == l by {
        lemma_members_labeled(s, labels, l, k);
    }
}

proof fn lemma_members_labeled(
    s: Seq<llm::MessageView>,
    labels: Map<Seq<char>, EgressLabel>,
    l: EgressLabel,
    k: int,
)
    requires
        0 <= k < members(s, labels, l).len(),
    ensures
        label_of(members(s, labels, l)[k], labels) == l,
    decreases s.len(),
{
    if s.len() > 0 {
        let d = s.drop_last();
        if k < members(d, labels, l).len() {
            lemma_members_labeled(d, labels, l, k);
        }
    }
}

/// The label and the provenance of a summary of a band.
pub fn synthesized_band_label(band: &LabelBand) -> (r: (EgressLabel, Provenance))
    ensures
        r.0 == band.label,
        r.1.tool.deep_view() == Some("context.compress"@),
        r.1.args_digest is None,
        r.1.matched_rules@.len() == 0,
        r.1.parent_envelope_ids.deep_view() == band.source_ids.deep_view(),
{
    (
        band.label,
        Provenance {
            tool: Some("context.compress".to_owned()),
            args_digest: None,
            matched_rules: Vec::new(),
            parent_envelope_ids: text::clone_all(&band.source_ids),
        },
    )
}

// ---------------------------------------------------------------------------
// Routing
// ---------------------------------------------------------------------------

/// The sink that a preset's completions land in; an unclassified preset counts
/// as remote.
pub open spec fn sink_of(egress_class: Option<EgressClass>) -> Sink {
    match egress_class {
        Some(c) => c.spec_sink(),
        None => Sink::RemoteModel,
    }
}

/// The sink that a preset's completions land in.
pub fn preset_sink(egress_class: Option<EgressClass>) -> (r: Sink)
    ensures
        r == sink_of(egress_class),
{
    match egress_class {
        Some(c) => c.as_sink(),
        None => Sink::RemoteModel,
    }
}

/// Whether a preset may take a completion of this batch.
pub fn preset_batch_eligible(batch: &EgressLabel, egress_class: Option<EgressClass>) -> (r: bool)
    ensures
        r == batch.permits(sink_of(egress_class)),
{
    batch.allows(preset_sink(egress_class))
}

/// A preset considered for routing.
#[derive(Debug)]
pub struct PresetCandidate {
    pub name: String,
    pub egress_class: Option<EgressClass>,
}

impl Clone for PresetCandidate {
    fn clone(&self) -> (r: PresetCandidate)
        ensures
            r == *self,
    {
        PresetCandidate { name: self.name.clone(), egress_class: self.egress_class }
    }
}

/// The routing decision for one completion.
#[derive(Debug)]
pub struct EgressRoutingPlan {
    /// The batch's label, narrowed by the session's provider constraint.
    pub batch: EgressLabel,
    pub provider_constraint: Option<ProviderConstraint>,
    pub primary_eligible: bool,
    /// The presets that are cleared for the batch; not listed where the batch
    /// is unrestricted.
    pub eligible: Vec<String>,
    /// The preset to run on where the primary is not cleared.
    pub reroute_to: Option<PresetCandidate>,
}

impl EgressRoutingPlan {
    /// Whether the turn must be refused.
    pub fn no_eligible_provider(&self) -> (r: bool)
        ensures
            r == (!self.primary_eligible && self.reroute_to is None),
    {
        !self.primary_eligible && self.reroute_to.is_none()
    }
}

/// The batch's label under a provider constraint.
pub open spec fn effective_batch(
    batch: EgressLabel,
    constraint: Option<ProviderConstraint>,
) -> EgressLabel {
    match constraint {
        Some(ProviderConstraint::LocalOnly) => batch.meet(EgressLabel::stays_local()),
        None => batch,
    }
}

/// The candidates that are cleared for the batch, in order.
pub open spec fn cleared(batch: EgressLabel, presets: Seq<PresetCandidate>) -> Seq<PresetCandidate>
    decreases presets.len(),
{
    if presets.len() == 0 {
        Seq::empty()
    } else {
        let before = cleared(batch, presets.drop_last());
        if batch.permits(sink_of(presets.last().egress_class)) {
            before.push(presets.last())
        } else {
            before
        }
    }
}

/// The order of candidates: local ones first, then by name.
pub open spec fn candidate_key(c: PresetCandidate) -> (u64, Seq<char>) {
    (
        if sink_of(c.egress_class) == Sink::LocalModel {
            0u64
        } else {
            1u64
        },
        c.name@,
    )
}

/// The sort keys of some candidates.
pub open spec fn candidate_keys(s: Seq<PresetCandidate>) -> Seq<(u64, Seq<char>)> {
    s.map_values(|c: PresetCandidate| candidate_key(c))
}

/// The names of some candidates.
pub open spec fn candidate_names(s: Seq<PresetCandidate>) -> Seq<Seq<char>> {
    s.map_values(|c: PresetCandidate| c.name@)
}

/// `ranked` holds the candidates cleared for the batch, local ones first, then by name.
pub open spec fn is_ranking(
    batch: EgressLabel,
    presets: Seq<PresetCandidate>,
    ranked: Seq<PresetCandidate>,
) -> bool {
    exists|by: Seq<usize>|
        #[trigger] order::is_stable_order(candidate_keys(cleared(batch, presets)), by) && ranked
            == arranged(cleared(batch, presets), by)
}

fn cleared_exec(batch: &EgressLabel, presets: &[PresetCandidate]) -> (r: Vec<PresetCandidate>)
    ensures
        r@ == cleared(*batch, presets@),
{
    let mut out: Vec<PresetCandidate> = Vec::new();
    let mut i: usize = 0;
    while i < presets.len()
        invariant
            i <= presets@.len(),
            out@ == cleared(*batch, presets@.subrange(0, i as int)),
        decreases presets@.len() - i,
    {
        proof {
            let t = presets@.subrange(0, i + 1);
            assert(t.drop_last() =~= presets@.subrange(0, i as int));
            assert(t.last() == presets@[i as int]);
        }
        if preset_batch_eligible(batch, presets[i].egress_class) {
            out.push(presets[i].clone());
        }
        i = i + 1;
    }
    assert(presets@.subrange(0, i as int) =~= presets@);
    out
}

fn rank_candidates(batch: &EgressLabel, presets: &[PresetCandidate]) -> (r: Vec<PresetCandidate>)
    ensures
        is_ranking(*batch, presets@, r@),
{
    let all = cleared_exec(batch, presets);
    let mut keys: Vec<(u64, String)> = Vec::new();
    let mut i: usize = 0;
    while i < all.len()
        invariant
            i <= all@.len(),
            keys@.len() == i,
            forall|k: int| 0 <= k < i ==> (#[trigger] keys@[k]).deep_view() == candidate_key(all@[k]),
        decreases all@.len() - i,
    {
        let class: u64 = if preset_sink(all[i].egress_class) == Sink::LocalModel {
            0
        } else {
            1
        };
        keys.push((class, all[i].name.clone()));
        i = i + 1;
    }
    assert(keys.deep_view() =~= candidate_keys(all@));
    let by = order::stable_order(&keys);
    let mut out: Vec<PresetCandidate> = Vec::new();
    let mut j: usize = 0;
    while j < by.len()
        invariant
            j <= by@.len(),
            by@.len() == all@.len(),
            forall|k: int| 0 <= k < by@.len() ==> 0 <= #[trigger] by@[k] < all@.len(),
            out@.len() == j,
            forall|k: int| 0 <= k < j ==> (#[trigger] out@[k]) == all@[by@[k] as int],
        decreases by@.len() - j,
    {
        out.push(all[by[j]].clone());
        j = j + 1;
    }
    assert(out@ =~= arranged(all@, by@));
    out
}

fn names_of(v: &Vec<PresetCandidate>) -> (r: Vec<String>)
    ensures
        r.deep_view() == candidate_names(v@),
{
    let mut out: Vec<String> = Vec::new();
    let mut i: usize = 0;
    assert(out.deep_view() =~= candidate_names(v@.subrange(0, 0)));
    while i < v.len()
        invariant
            i <= v@.len(),
            out.deep_view() == candidate_names(v@.subrange(0, i as int)),
        decreases v@.len() - i,
    {
        egress::push_name(&mut out, v[i].name.as_str());
        i = i + 1;
        assert(out.deep_view() =~= candidate_names(v@.subrange(0, i as int)));
    }
    assert(v@.subrange(0, i as int) =~= v@);
    out
}

/// Plans the routing of one completion. An unrestricted batch needs no
/// filtering. Otherwise the primary keeps it where it is cleared, and else the
/// first cleared preset takes it: local ones before others, then by name.
pub fn plan_taint_following_route(
    batch: &EgressLabel,
    primary_class: Option<EgressClass>,
    presets: &[PresetCandidate],
    provider_constraint: Option<ProviderConstraint>,
) -> (r: EgressRoutingPlan)
    ensures
        r.batch == effective_batch(*batch, provider_constraint),
        r.provider_constraint == provider_constraint,
        r.primary_eligible == (r.batch == EgressLabel::top() || r.batch.permits(
            sink_of(primary_class),
        )),
        r.batch == EgressLabel::top() ==> r.eligible@.len() == 0 && r.reroute_to is None,
        r.batch != EgressLabel::top() ==> exists|ranked: Seq<PresetCandidate>|
            {
                &&& #[trigger] is_ranking(r.batch, presets@, ranked)
                &&& r.eligible.deep_view() == candidate_names(ranked)
                &&& r.reroute_to == (if r.primary_eligible || ranked.len() == 0 {
                    None
                } else {
                    Some(ranked[0])
                })
            },
{
    let effective = match provider_constraint {
        Some(ProviderConstraint::LocalOnly) => batch.restrict(&EgressLabel::local_only()),
        None => *batch,
    };
    if effective.is_unrestricted() {
        return EgressRoutingPlan {
            batch: effective,
            provider_constraint,
            primary_eligible: true,
            eligible: Vec::new(),
            reroute_to: None,
        };
    }
    let primary_eligible = preset_batch_eligible(&effective, primary_class);
    let ranked = rank_candidates(&effective, presets);
    let eligible = names_of(&ranked);
    let reroute_to = if primary_eligible || ranked.len() == 0 {
        None
    } else {
        Some(ranked[0].clone())
    };
    assert(is_ranking(effective, presets@, ranked@));
    EgressRoutingPlan { batch: effective, provider_constraint, primary_eligible, eligible, reroute_to }
}

proof fn lemma_cleared(batch: EgressLabel, presets: Seq<PresetCandidate>, c: PresetCandidate)
    ensures
        cleared(batch, presets).contains(c) <==> presets.contains(c) && batch.permits(
            sink_of(c.egress_class),
        ),
    decreases presets.len(),
{
    if presets.len() > 0 {
        let d = presets.drop_last();
        lemma_cleared(batch, d, c);
        let a = cleared(batch, presets);
        let ad = cleared(batch, d);
        if a.contains(c) {
            let i = choose|i: int| 0 <= i < a.len() && a[i] == c;
            if i < ad.len() {
                assert(ad[i] == c);
                assert(ad.contains(c));
                let k = choose|k: int| 0 <= k < d.len() && d[k] == c;
                assert(presets[k] == c);
            } else {
                assert(presets[presets.len() - 1] == c);
            }
        }
        if presets.contains(c) && batch.permits(sink_of(c.egress_class)) {
            let k = choose|k: int| 0 <= k < presets.len() && presets[k] == c;
            if k < d.len() {
                assert(d[k] == c);
                assert(d.contains(c));
                let i = choose|i: int| 0 <= i < ad.len() && ad[i] == c;
                assert(a[i] == c);
            } else {
                assert(a[a.len() - 1] == c);
            }
        }
    }
}

/// Routing never widens: every preset in the ranking is configured and
/// cleared for the batch, so whatever a completion is rerouted to may see it.
pub proof fn rerouting_never_leaks(
    batch: EgressLabel,
    presets: Seq<PresetCandidate>,
    ranked: Seq<PresetCandidate>,
    i: int,
)
    requires
        is_ranking(batch, presets, ranked),
        0 <= i < ranked.len(),
    ensures
        presets.contains(ranked[i]),
        batch.permits(sink_of(ranked[i].egress_class)),
{
    let by = choose|by: Seq<usize>|
        #[trigger] order::is_stable_order(candidate_keys(cleared(batch, presets)), by) && ranked
            == arranged(cleared(batch, presets), by);
    let all = cleared(batch, presets);
    assert(0 <= by[i] < all.len());
    assert(ranked[i] == all[by[i] as int]);
    assert(all.contains(ranked[i]));
    lemma_cleared(batch, presets, ranked[i]);
}

/// The ranking is empty exactly where no configured preset is cleared for the
/// batch.
pub proof fn refusal_means_no_preset_is_cleared(
    batch: EgressLabel,
    presets: Seq<PresetCandidate>,
    ranked: Seq<PresetCandidate>,
)
    requires
        is_ranking(batch, presets, ranked),
    ensures
        ranked.len() == 0 <==> forall|k: int|
            0 <= k < presets.len() ==> !batch.permits(sink_of((#[trigger] presets[k]).egress_class)),
{
    let all = cleared(batch, presets);
    assert(ranked.len() == all.len());
    if ranked.len() == 0 {
        assert forall|k: int| 0 <= k < presets.len() implies !batch.permits(
            sink_of((#[trigger] presets[k]).egress_class),
        ) by {
            lemma_cleared(batch, presets, presets[k]);
            assert(presets.contains(presets[k]));
        }
    } else {
        assert(all.contains(all[0]));
        lemma_cleared(batch, presets, all[0]);
        let k = choose|k: int| 0 <= k < presets.len() && presets[k] == all[0];
        assert(batch.permits(sink_of(presets[k].egress_class)));
    }
}

/// Under a local-only constraint no remote preset is ever cleared, not even
/// for a clean batch.
pub proof fn local_constraint_excludes_remote_presets(
    batch: EgressLabel,
    egress_class: Option<EgressClass>,
)
    ensures
        effective_batch(batch, Some(ProviderConstraint::LocalOnly)).permits(sink_of(egress_class))
            ==> egress_class == Some(EgressClass::Local),
{
}

// ---------------------------------------------------------------------------
// Laws of bands and routes
// ---------------------------------------------------------------------------

/// A tool result is labeled under its call and any other message under its id; a message
/// of which no label is known is unrestricted.
pub proof fn messages_are_labeled_under_their_key(
    m: llm::MessageView,
    labels: Map<Seq<char>, EgressLabel>,
    k: Seq<char>,
)
    ensures
        m.role == Role::Tool && m.tool_call_id == Some(k) && labels.dom().contains(k) ==> label_of(
            m,
            labels,
        ) == labels[k],
        m.role != Role::Tool && m.id == Some(k) && labels.dom().contains(k) ==> label_of(m, labels)
            == labels[k],
        m.role == Role::Tool && m.tool_call_id == Some(k) && !labels.dom().contains(k) ==> label_of(
            m,
            labels,
        ) == EgressLabel::top(),
        m.role != Role::Tool && m.id == Some(k) && !labels.dom().contains(k) ==> label_of(m, labels)
            == EgressLabel::top(),
        m.role == Role::Tool && m.tool_call_id is None ==> label_of(m, labels) == EgressLabel::top(),
        m.role != Role::Tool && m.id is None ==> label_of(m, labels) == EgressLabel::top(),
{
}

/// What a session touched allows a sink exactly where every label that it gathered does.
pub proof fn accumulated_taint_is_the_intersection(labels: Map<Seq<char>, EgressLabel>, s: Sink)
    ensures
        accumulated(labels).permits(s) <==> forall|k: Seq<char>|
            #[trigger] labels.dom().contains(k) ==> labels[k].permits(s),
{
    assert(accumulated(labels).permits(s) == all_allow(labels, s));
}

/// Every message that would leak is named by its key, and no other is.
pub proof fn every_leak_is_named(
    band: Seq<llm::MessageView>,
    labels: Map<Seq<char>, EgressLabel>,
    s: Sink,
    i: int,
)
    requires
        0 <= i < band.len(),
        !label_of(band[i], labels).permits(s),
    ensures
        band[i].role == Role::Tool ==> band[i].tool_call_id is Some && leaked(band, labels, s).contains(
            band[i].tool_call_id->Some_0,
        ),
        band[i].role != Role::Tool ==> band[i].id is Some && leaked(band, labels, s).contains(
            band[i].id->Some_0,
        ),
    decreases band.len(),
{
    let now = leaked(band, labels, s);
    if i == band.len() - 1 {
        assert(now[now.len() - 1] == egress_key(band[i])->0);
    } else {
        let d = band.drop_last();
        let before = leaked(d, labels, s);
        every_leak_is_named(d, labels, s, i);
        let key = egress_key(band[i])->0;
        assert(before.contains(key));
        let k = choose|k: int| 0 <= k < before.len() && before[k] == key;
        assert(now[k] == key);
    }
}

/// No more messages are counted as leaks than there are messages whose label excludes
/// the sink, and no fewer.
pub proof fn leaks_are_counted(
    band: Seq<llm::MessageView>,
    labels: Map<Seq<char>, EgressLabel>,
    s: Sink,
)
    ensures
        leaked(band, labels, s).len() == band.filter(
            |m: llm::MessageView| !label_of(m, labels).permits(s),
        ).len(),
    decreases band.len(),
{
    reveal(Seq::filter);
    if band.len() > 0 {
        leaks_are_counted(band.drop_last(), labels, s);
    }
}

/// A band holds exactly the messages of its label that are no system messages, in the
/// order of the history, and its sources are the keys of those that have one.
pub proof fn bands_hold_the_messages_of_their_label(
    s: Seq<llm::MessageView>,
    labels: Map<Seq<char>, EgressLabel>,
    l: EgressLabel,
)
    ensures
        band_of(s, labels, l).messages == s.filter(
            |m: llm::MessageView| m.role != Role::System && label_of(m, labels) == l,
        ),
        band_of(s, labels, l).label == l,
        forall|i: int|
            0 <= i < s.len() && (#[trigger] s[i]).role == Role::Tool && s[i].tool_call_id is Some
                && label_of(s[i], labels) == l ==> band_of(s, labels, l).source_ids.contains(
                s[i].tool_call_id->Some_0,
            ),
        forall|i: int|
            0 <= i < s.len() && (#[trigger] s[i]).role != Role::Tool && s[i].role != Role::System
                && s[i].id is Some && label_of(s[i], labels) == l ==> band_of(
                s,
                labels,
                l,
            ).source_ids.contains(s[i].id->Some_0),
    decreases s.len(),
{
    reveal(Seq::filter);
    let mine = |m: llm::MessageView| m.role != Role::System && label_of(m, labels) == l;
    if s.len() == 0 {
        assert(s.filter(mine) =~= Seq::empty());
    } else {
        let d = s.drop_last();
        bands_hold_the_messages_of_their_label(d, labels, l);
        let before = member_keys(d, labels, l);
        let now = member_keys(s, labels, l);
        assert forall|i: int|
            0 <= i < s.len() && in_band(#[trigger] s[i], labels, l) && egress_key(s[i]) is Some implies now.contains(
            egress_key(s[i])->0,
        ) by {
            if i == s.len() - 1 {
                assert(now[now.len() - 1] == egress_key(s[i])->0);
            } else {
                assert(d[i] == s[i]);
                assert(before.contains(egress_key(s[i])->0));
                let k = choose|k: int| 0 <= k < before.len() && before[k] == egress_key(s[i])->0;
                assert(now[k] == before[k]);
            }
        }
        assert forall|i: int|
            0 <= i < s.len() && (#[trigger] s[i]).role == Role::Tool && s[i].tool_call_id is Some
                && label_of(s[i], labels) == l implies band_of(s, labels, l).source_ids.contains(
            s[i].tool_call_id->Some_0,
        ) by {
            assert(in_band(s[i], labels, l));
        }
        assert forall|i: int|
            0 <= i < s.len() && (#[trigger] s[i]).role != Role::Tool && s[i].role != Role::System
                && s[i].id is Some && label_of(s[i], labels) == l implies band_of(
            s,
            labels,
            l,
        ).source_ids.contains(s[i].id->Some_0) by {
            assert(in_band(s[i], labels, l));
        }
    }
}

/// There is one band for each label that a message other than a system message has, and
/// for no other.
pub proof fn there_is_one_band_for_each_label(
    s: Seq<llm::MessageView>,
    labels: Map<Seq<char>, EgressLabel>,
    l: EgressLabel,
)
    ensures
        band_labels(s, labels).contains(l) <==> exists|i: int|
            0 <= i < s.len() && (#[trigger] s[i]).role != Role::System && label_of(s[i], labels) == l,
        band_labels(s, labels).no_duplicates(),
    decreases s.len(),
{
    if s.len() > 0 {
        let d = s.drop_last();
        let before = band_labels(d, labels);
        let now = band_labels(s, labels);
        let last = label_of(s.last(), labels);
        there_is_one_band_for_each_label(d, labels, l);
        if now.contains(l) {
            let k = choose|k: int| 0 <= k < now.len() && now[k] == l;
            if k < before.len() {
                assert(before[k] == l);
                let i = choose|i: int|
                    0 <= i < d.len() && (#[trigger] d[i]).role != Role::System && label_of(
                        d[i],
                        labels,
                    ) == l;
                assert(s[i] == d[i]);
            } else {
                assert(s[s.len() - 1].role != Role::System);
            }
        }
        if exists|i: int|
            0 <= i < s.len() && (#[trigger] s[i]).role != Role::System && label_of(s[i], labels) == l {
            let i = choose|i: int|
                0 <= i < s.len() && (#[trigger] s[i]).role != Role::System && label_of(s[i], labels)
                    == l;
            if i < d.len() {
                assert(d[i] == s[i]);
                assert(before.contains(l));
                let k = choose|k: int| 0 <= k < before.len() && before[k] == l;
                assert(now[k] == l);
            } else if before.contains(l) {
                let k = choose|k: int| 0 <= k < before.len() && before[k] == l;
                assert(now[k] == l);
            } else {
                assert(now[before.len() as int] == l);
            }
        }
    }
}

/// Of the bands of a history, the unrestricted one comes first and the others by the name
/// of their label.
pub proof fn bands_are_sorted(
    s: Seq<llm::MessageView>,
    labels: Map<Seq<char>, EgressLabel>,
    by: Seq<usize>,
    i: int,
    j: int,
)
    requires
        order::is_stable_order(band_keys(band_labels(s, labels)), by),
        0 <= i < j < by.len(),
    ensures
        ({
            let a = arranged(bands(s, labels), by)[i].label;
            let b = arranged(bands(s, labels), by)[j].label;
            &&& b != EgressLabel::top()
            &&& a != EgressLabel::top() ==> !order::text_lt(
                egress::display_name(b),
                egress::display_name(a),
            )
        }),
{
    let ls = band_labels(s, labels);
    let keys = band_keys(ls);
    let p = by[i] as int;
    let q = by[j] as int;
    assert(order::precedes(keys, by[i] as int, by[j] as int));
    assert(keys[p] == band_key(ls[p]));
    assert(keys[q] == band_key(ls[q]));
    there_is_one_band_for_each_label(s, labels, ls[p]);
    order::lemma_text_total(egress::display_name(ls[p]), egress::display_name(ls[q]));
    order::lemma_stable_order_injective(keys, by);
    assert(by[i] != by[j]);
    assert(ls[p] != ls[q]);
}

/// A preset that is not classified counts as remote, one that is classified as what it
/// says.
pub proof fn unclassified_presets_count_as_remote()
    ensures
        sink_of(None) == Sink::RemoteModel,
        sink_of(Some(EgressClass::Remote)) == Sink::RemoteModel,
        sink_of(Some(EgressClass::Local)) == Sink::LocalModel,
{
}

/// A constraint to local providers takes remote models, federated agents and the network
/// from a batch and nothing else; without a constraint the batch stays as it is.
pub proof fn constraints_narrow_the_batch(batch: EgressLabel, s: Sink)
    ensures
        effective_batch(batch, None) == batch,
        effective_batch(batch, Some(ProviderConstraint::LocalOnly)).permits(s) <==> batch.permits(s)
            && s != Sink::RemoteModel && s != Sink::FederatedAgent && s != Sink::Network,
{
}

/// Every configured preset that is cleared for the batch is in the ranking.
pub proof fn every_cleared_preset_is_ranked(
    batch: EgressLabel,
    presets: Seq<PresetCandidate>,
    ranked: Seq<PresetCandidate>,
    k: int,
)
    requires
        is_ranking(batch, presets, ranked),
        0 <= k < presets.len(),
        presets[k].egress_class == Some(EgressClass::Local) ==> batch.permits(Sink::LocalModel),
        presets[k].egress_class != Some(EgressClass::Local) ==> batch.permits(Sink::RemoteModel),
    ensures
        ranked.contains(presets[k]),
{
    let ok = cleared(batch, presets);
    let by = choose|by: Seq<usize>|
        #[trigger] order::is_stable_order(candidate_keys(ok), by) && ranked == arranged(ok, by);
    lemma_cleared(batch, presets, presets[k]);
    assert(presets.contains(presets[k]));
    let p = choose|p: int| 0 <= p < ok.len() && ok[p] == presets[k];
    order::lemma_stable_order_onto(candidate_keys(ok), by, p);
    let i = choose|i: int| 0 <= i < by.len() && #[trigger] by[i] == p;
    assert(ranked[i] == presets[k]);
}

/// Local presets come before others in the ranking, and presets of the same kind by name.
pub proof fn local_presets_come_first(
    batch: EgressLabel,
    presets: Seq<PresetCandidate>,
    ranked: Seq<PresetCandidate>,
    i: int,
    j: int,
)
    requires
        is_ranking(batch, presets, ranked),
        0 <= i < j < ranked.len(),
    ensures
        ranked[j].egress_class == Some(EgressClass::Local) ==> ranked[i].egress_class == Some(
            EgressClass::Local,
        ),
        (ranked[j].egress_class == Some(EgressClass::Local)) == (ranked[i].egress_class == Some(
            EgressClass::Local,
        )) ==> !order::text_lt(ranked[j].name@, ranked[i].name@),
{
    let ok = cleared(batch, presets);
    let keys = candidate_keys(ok);
    let by = choose|by: Seq<usize>|
        #[trigger] order::is_stable_order(candidate_keys(ok), by) && ranked == arranged(ok, by);
    let p = by[i] as int;
    let q = by[j] as int;
    assert(order::precedes(keys, by[i] as int, by[j] as int));
    assert(keys[p] == candidate_key(ok[p]));
    assert(keys[q] == candidate_key(ok[q]));
    order::lemma_text_total(ok[p].name@, ok[q].name@);
    order::lemma_text_total(ok[q].name@, ok[p].name@);
}

/// What is said of a preset that is not cleared names its class, its sink and how many
/// results would leak.
pub proof fn uncleared_presets_are_explained(class: EgressClass, n: nat)
    ensures
        class is Local ==> text::has_text(ineligible_reason(class, n), "Local"@),
        class is Remote ==> text::has_text(ineligible_reason(class, n), "Remote"@),
        text::has_text(ineligible_reason(class, n), egress::sink_name(class.spec_sink())),
        text::has_text(ineligible_reason(class, n), text::decimal(n)),
{
    let a = "compression preset (egress_class="@;
    let c = class_name(class);
    let b = ", sink="@;
    let s = egress::sink_name(class.spec_sink());
    let d = ") is not cleared for the band's taint ("@;
    let e =
        " labeled result(s) would leak); falling back to token-budget truncation (RFC §5.7 — an incomplete local context beats a remote leak)"@;
    let m = ineligible_reason(class, n);
    let k = text::decimal(n);
    let x = b + s + d + k + e;
    let y = d + k + e;
    text::lemma_has_text_around(a, c, x);
    assert(a + c + x =~= m);
    text::lemma_has_text_around(a + c + b, s, y);
    assert(a + c + b + s + y =~= m);
    text::lemma_has_text_around(a + c + b + s + d, k, e);
}

} // verus!
