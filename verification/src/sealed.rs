//! Signed envelopes.
//!
//! Suspended work is kept in files. Each holds a payload and the HMAC-SHA256
//! signature of the payload's bytes; a file whose signature does not fit is
//! refused before its payload is trusted.

use crate::digest;
use crate::json;
use crate::json::{Fields, Json, JsonView};
use crate::text;
use vstd::prelude::*;

verus! {

/// The envelope around a payload.
pub open spec fn envelope(payload: Seq<char>, tag: Seq<char>) -> JsonView {
    JsonView::Object(
        json::no_fields().push(json::entry("payload_json"@, JsonView::Text(payload))).push(
            json::entry("hmac_hex"@, JsonView::Text(tag)),
        ),
    )
}

/// The payload and the tag in a tree, where it is an envelope: an object with
/// two text fields, or a list of two texts.
pub open spec fn envelope_in(tree: JsonView) -> Option<(Seq<char>, Seq<char>)> {
    match tree {
        JsonView::List(s) => if s.len() == 2 {
            match (s[0], s[1]) {
                (JsonView::Text(p), JsonView::Text(t)) => Some((p, t)),
                _ => None,
            }
        } else {
            None
        },
        _ => match (json::text_field(tree, "payload_json"@), json::text_field(tree, "hmac_hex"@)) {
            (Some(p), Some(t)) => Some((p, t)),
            _ => None,
        },
    }
}

/// The signature of a payload.
pub open spec fn payload_tag(key: Seq<char>, payload: Seq<char>) -> Seq<char> {
    digest::signature(key, vstd::utf8::encode_utf8(payload))
}

/// What a file holds.
#[derive(Debug)]
pub enum Opened {
    /// An envelope whose signature fits, with this payload.
    Payload(String),
    /// An envelope whose signature does not fit.
    Tampered,
    /// No envelope: a file from before envelopes were signed.
    Unsigned,
}

/// The mathematical model of an [`Opened`].
pub enum OpenedView {
    Payload(Seq<char>),
    Tampered,
    Unsigned,
}

impl View for Opened {
    type V = OpenedView;

    open spec fn view(&self) -> OpenedView {
        match self {
            Opened::Payload(p) => OpenedView::Payload(p@),
            Opened::Tampered => OpenedView::Tampered,
            Opened::Unsigned => OpenedView::Unsigned,
        }
    }
}

/// What a tree holds under a key.
pub open spec fn opened_tree(key: Seq<char>, tree: JsonView) -> OpenedView {
    match envelope_in(tree) {
        Some((p, t)) => if t == payload_tag(key, p) {
            OpenedView::Payload(p)
        } else {
            OpenedView::Tampered
        },
        None => OpenedView::Unsigned,
    }
}

/// What a file with these characters holds under a key. A text that names a part
/// of an envelope twice is none.
pub open spec fn opened(key: Seq<char>, text: Seq<char>) -> OpenedView {
    match json::parsed_json(text) {
        Some(tree) => if json::names_twice(text, "payload_json"@) || json::names_twice(
            text,
            "hmac_hex"@,
        ) {
            OpenedView::Unsigned
        } else {
            opened_tree(key, tree)
        },
        None => OpenedView::Unsigned,
    }
}

/// The canonical form of a JSON text: compact, with its keys in order.
pub open spec fn canonical(text: Seq<char>) -> Option<Seq<char>> {
    match json::parsed_json(text) {
        Some(tree) => Some(json::json_text(tree)),
        None => None,
    }
}

/// The canonical form of a JSON text.
pub fn canonical_json(text: &str) -> (r: Option<String>)
    ensures
        r.deep_view() == canonical(text@),
{
    match json::parse_json(text) {
        Some(tree) => Some(json::render_json(&tree)),
        None => None,
    }
}

/// A file is the envelope of a payload, signed and written out.
pub open spec fn is_sealed(key: Seq<char>, payload: Seq<char>, file: Seq<char>) -> bool {
    file == json::pretty_json_text(envelope(payload, payload_tag(key, payload)))
}

/// The file that keeps a JSON text: its canonical form, signed. Opened under the
/// same key, the file gives that form back.
pub fn seal(key: &str, payload: &str) -> (r: Option<String>)
    ensures
        match r {
            Some(file) => canonical(payload@) is Some && is_sealed(
                key@,
                canonical(payload@)->Some_0,
                file@,
            ) && opened(key@, file@) == OpenedView::Payload(canonical(payload@)->Some_0),
            None => canonical(payload@) is None,
        },
{
    let form = match canonical_json(payload) {
        Some(f) => f,
        None => {
            return None;
        },
    };
    let tag = digest::hmac_sign(key, form.as_str().as_bytes());
    let mut f = Fields::new();
    f.text("payload_json", form.as_str());
    f.text("hmac_hex", tag.as_str());
    let tree = f.object();
    let file = json::render_pretty_json(&tree);
    proof {
        let m = json::no_fields().push(json::entry("payload_json"@, JsonView::Text(form@))).push(
            json::entry("hmac_hex"@, JsonView::Text(tag@)),
        );
        assert(tree@ == JsonView::Object(m));
        reveal_strlit("payload_json");
        reveal_strlit("hmac_hex");
        assert("payload_json"@.len() != "hmac_hex"@.len());
        assert(json::distinct_keys(m));
        assert forall|i: int| 0 <= i < m.len() implies json::rereadable(
            (#[trigger] m[i]).value,
            99,
        ) by {
            assert(m[i].value is Text);
        }
        assert(json::rereadable(tree@, 100));
        let read = json::parsed_json(file@)->Some_0;
        json::lemma_field_reads_back(tree@, read, "payload_json"@);
        json::lemma_field_reads_back(tree@, read, "hmac_hex"@);
        assert(m.subrange(1, 2)[0] == m[1]);
        assert(json::first_field(m, "payload_json"@) == Some(JsonView::Text(form@)));
        assert(json::first_field(m.subrange(1, 2), "hmac_hex"@) == Some(JsonView::Text(tag@)));
        assert(json::first_field(m, "hmac_hex"@) == Some(JsonView::Text(tag@)));
    }
    Some(file)
}

/// What a file holds under a key.
pub fn open_file(key: &str, file: &str) -> (r: Opened)
    ensures
        r@ == opened(key@, file@),
{
    match json::parse_json(file) {
        Some(tree) => {
            if json::names_key_twice(file, "payload_json") || json::names_key_twice(
                file,
                "hmac_hex",
            ) {
                return Opened::Unsigned;
            }
            open_tree(key, &tree)
        },
        None => Opened::Unsigned,
    }
}

/// What a tree holds under a key.
pub fn open_tree(key: &str, tree: &Json) -> (r: Opened)
    ensures
        r@ == opened_tree(key@, tree@),
{
    match tree {
        Json::List(s) => {
            if s.len() == 2 {
                assert(tree@->List_0[0] == s@[0]@);
                assert(tree@->List_0[1] == s@[1]@);
                if let (Json::Text(p), Json::Text(t)) = (&s[0], &s[1]) {
                    return judge(key, p, t.as_str());
                }
            }
            Opened::Unsigned
        },
        _ => match (tree.get_text("payload_json"), tree.get_text("hmac_hex")) {
            (Some(p), Some(t)) => judge(key, p, t.as_str()),
            _ => Opened::Unsigned,
        },
    }
}

fn judge(key: &str, payload: &String, tag: &str) -> (r: Opened)
    ensures
        r@ == (if tag@ == payload_tag(key@, payload@) {
            OpenedView::Payload(payload@)
        } else {
            OpenedView::Tampered
        }),
{
    if digest::hmac_verify(key, payload.as_str().as_bytes(), tag) {
        Opened::Payload(payload.clone())
    } else {
        Opened::Tampered
    }
}

/// The payload of a file that may be trusted: that of an envelope whose
/// signature fits, or the whole of a file without an envelope.
pub open spec fn trusted_payload(key: Seq<char>, file: Seq<char>) -> Option<Seq<char>> {
    match opened(key, file) {
        OpenedView::Payload(p) => Some(p),
        OpenedView::Tampered => None,
        OpenedView::Unsigned => Some(file),
    }
}

/// The key that a configuration gives, or one made from the name of the node.
pub open spec fn key_or(key: Option<Seq<char>>, prefix: Seq<char>, node_id: Seq<char>) -> Seq<char> {
    match key {
        Some(k) => k,
        None => prefix + node_id,
    }
}

/// The key that a configuration gives, or one made from the name of the node.
pub fn signing_key(key: &Option<String>, prefix: &str, node_id: &str) -> (r: String)
    ensures
        r@ == key_or(key.deep_view(), prefix@, node_id@),
{
    match key {
        Some(k) => k.clone(),
        None => {
            let mut s = prefix.to_owned();
            s.append(node_id);
            s
        },
    }
}

/// The payload of an envelope is trusted exactly where its tag is the signature
/// of that payload, so an envelope with another tag is refused, and a payload
/// with the tag of another is refused unless the two have the same signature.
pub proof fn only_the_signed_payload_is_trusted(
    key: Seq<char>,
    payload: Seq<char>,
    other: Seq<char>,
    tag: Seq<char>,
)
    ensures
        opened_tree(key, envelope(payload, tag)) == OpenedView::Payload(payload) <==> tag
            == payload_tag(key, payload),
        opened_tree(key, envelope(payload, tag)) == OpenedView::Tampered <==> tag != payload_tag(
            key,
            payload,
        ),
        payload_tag(key, other) != payload_tag(key, payload) ==> opened_tree(
            key,
            envelope(other, payload_tag(key, payload)),
        ) == OpenedView::Tampered,
{
    lemma_envelope(payload, tag);
    lemma_envelope(other, payload_tag(key, payload));
}

proof fn lemma_envelope(payload: Seq<char>, tag: Seq<char>)
    ensures
        envelope_in(envelope(payload, tag)) == Some((payload, tag)),
{
    let m = envelope(payload, tag)->Object_0;
    reveal_strlit("payload_json");
    reveal_strlit("hmac_hex");
    assert("payload_json"@.len() != "hmac_hex"@.len());
    assert(m.subrange(1, 2)[0] == m[1]);
    assert(json::first_field(m, "payload_json"@) == Some(JsonView::Text(payload)));
    assert(json::first_field(m.subrange(1, 2), "hmac_hex"@) == Some(JsonView::Text(tag)));
    assert(json::first_field(m, "hmac_hex"@) == Some(JsonView::Text(tag)));
}

/// What may be trusted of a file: the payload of an envelope whose tag is the signature of
/// the payload, nothing of an envelope with another tag, and a file without an envelope as
/// it is.
pub proof fn trust_follows_the_tag(
    key: Seq<char>,
    file: Seq<char>,
    tree: JsonView,
    payload: Seq<char>,
    tag: Seq<char>,
)
    requires
        json::parsed_json(file) == Some(tree),
        !json::names_twice(file, "payload_json"@),
        !json::names_twice(file, "hmac_hex"@),
        tree is Object,
        json::field(tree, "payload_json"@) == Some(JsonView::Text(payload)),
        json::field(tree, "hmac_hex"@) == Some(JsonView::Text(tag)),
    ensures
        tag == payload_tag(key, payload) ==> trusted_payload(key, file) == Some(payload),
        tag != payload_tag(key, payload) ==> trusted_payload(key, file) is None,
{
}

/// A file that is no JSON, or no object with both parts of an envelope as texts and no list
/// of two texts, is trusted as it is.
pub proof fn unsigned_files_are_taken_as_they_are(key: Seq<char>, file: Seq<char>)
    requires
        json::parsed_json(file) matches Some(tree) ==> (tree is Object && (json::text_field(
            tree,
            "payload_json"@,
        ) is None || json::text_field(tree, "hmac_hex"@) is None)) || (tree is List
            && tree->List_0.len() != 2),
    ensures
        trusted_payload(key, file) == Some(file),
{
}

/// A key that is configured is used; without one the key is made from the node's name.
pub proof fn configured_keys_are_used(k: Seq<char>, prefix: Seq<char>, node: Seq<char>)
    ensures
        key_or(Some(k), prefix, node) == k,
        key_or(None, prefix, node) == prefix + node,
{
}

/// A file that names either part of an envelope twice is no envelope.
pub proof fn doubled_parts_are_no_envelope(key: Seq<char>, file: Seq<char>)
    requires
        json::names_twice(file, "payload_json"@) || json::names_twice(file, "hmac_hex"@),
    ensures
        trusted_payload(key, file) == Some(file),
{
}

} // verus!
