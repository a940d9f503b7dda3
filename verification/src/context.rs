//! What a model is told before a turn: the system prompt and the notes beside it.

use crate::causal::CausalEventRecord;
use crate::checkpoint::SessionState;
use crate::content_store;
use crate::continuation::ScheduledAction;
use crate::egress::{EgressLabel, Sink};
use crate::json;
use crate::json::{Fields, Json, JsonField, JsonView};
use crate::text;
use vstd::prelude::*;

verus! {

// ---------------------------------------------------------------------------
// Agents
// ---------------------------------------------------------------------------

/// What an agent may do.
#[derive(Debug)]
pub enum Capability {
    AgentSpawn { max_children: u32, max_spawn_depth: u32 },
    WriteAccess { scopes: Vec<String> },
    CodeExecution,
    ArtifactExecution,
    /// Any other capability, by its name.
    Other { name: String },
}

/// How an agent is run.
#[derive(Debug, Clone, Copy, PartialEq, Eq, Structural)]
pub enum ExecutionMode {
    Reasoning,
    Script,
}

/// The parts of an agent's manifest that shape its prompt.
#[derive(Debug)]
pub struct AgentManifest {
    pub agent_id: String,
    pub capabilities: Vec<Capability>,
    pub execution_mode: ExecutionMode,
    /// The agent was imported from another format, and whether its tools have
    /// other names there.
    pub needs_tool_bridging: Option<bool>,
    /// The schema of the agent's answers.
    pub io_returns: Option<Json>,
}

/// The bounds on what an agent hands back.
#[derive(Debug)]
pub struct OutputPolicy {
    pub required_artifacts: Vec<String>,
    pub max_artifacts: Option<u64>,
    pub max_total_size_mb: Option<u64>,
    pub max_reply_length_chars: Option<u64>,
    pub min_artifact_builds: Option<u64>,
    pub prohibited_text_patterns: Vec<String>,
    pub validation_max_loops: u64,
}

// ---------------------------------------------------------------------------
// Foundation
// ---------------------------------------------------------------------------

/// The texts of the foundation.
#[derive(Debug)]
pub struct FoundationLayers {
    pub core: String,
    pub workflow: String,
    pub artifact: String,
    pub script: String,
    pub digest: String,
    pub sdk: String,
}

/// The agent may start others.
pub open spec fn spawns(c: Capability) -> bool {
    c is AgentSpawn
}

/// The agent may write.
pub open spec fn writes(c: Capability) -> bool {
    c is WriteAccess
}

/// The agent may run code.
pub open spec fn runs_code(c: Capability) -> bool {
    c is CodeExecution || c is ArtifactExecution
}

/// A scope covers the digests.
pub open spec fn covers_digests(scope: Seq<char>) -> bool {
    text::begins_with(scope, "digest"@) || scope == "*"@
}

/// The agent may write digests.
pub open spec fn writes_digests(c: Capability) -> bool {
    c matches Capability::WriteAccess { scopes } && exists|i: int|
        0 <= i < scopes@.len() && covers_digests(#[trigger] scopes@[i]@)
}

/// Some capability of the agent spawns, writes, runs code or writes digests.
pub open spec fn any_spawns(v: Seq<Capability>) -> bool {
    exists|i: int| 0 <= i < v.len() && spawns(#[trigger] v[i])
}

pub open spec fn any_writes(v: Seq<Capability>) -> bool {
    exists|i: int| 0 <= i < v.len() && writes(#[trigger] v[i])
}

pub open spec fn any_runs_code(v: Seq<Capability>) -> bool {
    exists|i: int| 0 <= i < v.len() && runs_code(#[trigger] v[i])
}

pub open spec fn any_writes_digests(v: Seq<Capability>) -> bool {
    exists|i: int| 0 <= i < v.len() && writes_digests(#[trigger] v[i])
}

/// The role in an agent's id: what stands before the first dot, unless that is
/// nothing.
pub open spec fn role_in(id: Seq<char>) -> Option<Seq<char>> {
    let head = text::before_char(id, '.');
    if head.len() == 0 {
        None
    } else {
        Some(head)
    }
}

/// The agent is told about the library for scripts: it runs code, starts others,
/// or judges code.
pub open spec fn needs_sdk(m: AgentManifest) -> bool {
    any_runs_code(m.capabilities@) || any_spawns(m.capabilities@) || role_in(m.agent_id@) == Some(
        "architect"@,
    ) || role_in(m.agent_id@) == Some("static_evaluator"@)
}

/// `parts` with one more part, where `b` holds.
pub open spec fn part_if(parts: Seq<Seq<char>>, b: bool, p: Seq<char>) -> Seq<Seq<char>> {
    if b {
        parts.push(p)
    } else {
        parts
    }
}

/// `parts` with one more part, where there is one.
pub open spec fn part_opt(parts: Seq<Seq<char>>, p: Option<Seq<char>>) -> Seq<Seq<char>> {
    match p {
        Some(s) => parts.push(s),
        None => parts,
    }
}

/// The layers of the foundation that an agent is told.
pub open spec fn foundation_parts(m: AgentManifest, l: FoundationLayers) -> Seq<Seq<char>> {
    let script = m.execution_mode == ExecutionMode::Script;
    let p0 = seq![text::trim(l.core@)];
    let p1 = part_if(p0, any_spawns(m.capabilities@) || !script, text::trim(l.workflow@));
    let p2 = part_if(p1, any_writes(m.capabilities@), text::trim(l.artifact@));
    let p3 = part_if(p2, script, text::trim(l.script@));
    let p4 = part_if(p3, any_writes_digests(m.capabilities@), text::trim(l.digest@));
    part_if(p4, needs_sdk(m), text::trim(l.sdk@))
}

/// The foundation that an agent is told.
pub open spec fn foundation(m: AgentManifest, l: FoundationLayers) -> Seq<char> {
    text::join(foundation_parts(m, l), "\n\n---\n\n"@)
}

fn scopes_cover_digests(scopes: &Vec<String>) -> (r: bool)
    ensures
        r == exists|i: int| 0 <= i < scopes@.len() && covers_digests(#[trigger] scopes@[i]@),
{
    let mut i: usize = 0;
    while i < scopes.len()
        invariant
            i <= scopes@.len(),
            forall|k: int| 0 <= k < i ==> !covers_digests(#[trigger] scopes@[k]@),
        decreases scopes@.len() - i,
    {
        if text::starts_with(scopes[i].as_str(), "digest") || text::text_eq(
            scopes[i].as_str(),
            "*",
        ) {
            assert(covers_digests(scopes@[i as int]@));
            return true;
        }
        i = i + 1;
    }
    false
}

/// What the capabilities of an agent come to.
struct Abilities {
    spawns: bool,
    writes: bool,
    runs_code: bool,
    writes_digests: bool,
}

fn abilities(v: &Vec<Capability>) -> (r: Abilities)
    ensures
        r.spawns == any_spawns(v@),
        r.writes == any_writes(v@),
        r.runs_code == any_runs_code(v@),
        r.writes_digests == any_writes_digests(v@),
{
    let mut a = Abilities { spawns: false, writes: false, runs_code: false, writes_digests: false };
    let mut i: usize = 0;
    while i < v.len()
        invariant
            i <= v@.len(),
            a.spawns == exists|k: int| 0 <= k < i && spawns(#[trigger] v@[k]),
            a.writes == exists|k: int| 0 <= k < i && writes(#[trigger] v@[k]),
            a.runs_code == exists|k: int| 0 <= k < i && runs_code(#[trigger] v@[k]),
            a.writes_digests == exists|k: int| 0 <= k < i && writes_digests(#[trigger] v@[k]),
        decreases v@.len() - i,
    {
        let ghost c = v@[i as int];
        match &v[i] {
            Capability::AgentSpawn { .. } => {
                a.spawns = true;
                assert(spawns(c));
            },
            Capability::WriteAccess { scopes } => {
                a.writes = true;
                assert(writes(c));
                let covers = scopes_cover_digests(scopes);
                assert(covers == writes_digests(c));
                if covers {
                    a.writes_digests = true;
                }
            },
            Capability::CodeExecution => {
                a.runs_code = true;
                assert(runs_code(c));
            },
            Capability::ArtifactExecution => {
                a.runs_code = true;
                assert(runs_code(c));
            },
            Capability::Other { .. } => {},
        }
        i = i + 1;
    }
    a
}

/// Adds a text to a list.
fn push_part(parts: &mut Vec<String>, p: String)
    ensures
        final(parts).deep_view() == old(parts).deep_view().push(p@),
{
    parts.push(p);
    assert(parts.deep_view() =~= old(parts).deep_view().push(p@));
}

/// The role in an agent's id.
pub fn role_from_manifest(agent_id: &str) -> (r: Option<String>)
    ensures
        r.deep_view() == role_in(agent_id@),
{
    let head = text::head_before(agent_id, '.');
    if text::chars_of(head.as_str()).len() == 0 {
        None
    } else {
        Some(head)
    }
}

/// The foundation that an agent is told: the core always, the other layers by
/// what the agent can do.
pub fn compose_foundation(manifest: &AgentManifest, layers: &FoundationLayers) -> (r: String)
    ensures
        r@ == foundation(*manifest, *layers),
{
    let a = abilities(&manifest.capabilities);
    let script = manifest.execution_mode == ExecutionMode::Script;
    let reviews = match role_from_manifest(manifest.agent_id.as_str()) {
        Some(role) => text::text_eq(role.as_str(), "architect") || text::text_eq(
            role.as_str(),
            "static_evaluator",
        ),
        None => false,
    };
    let mut parts: Vec<String> = Vec::new();
    push_part(&mut parts, text::trimmed(layers.core.as_str()));
    assert(parts.deep_view() =~= seq![text::trim(layers.core@)]);
    if a.spawns || !script {
        push_part(&mut parts, text::trimmed(layers.workflow.as_str()));
    }
    if a.writes {
        push_part(&mut parts, text::trimmed(layers.artifact.as_str()));
    }
    if script {
        push_part(&mut parts, text::trimmed(layers.script.as_str()));
    }
    if a.writes_digests {
        push_part(&mut parts, text::trimmed(layers.digest.as_str()));
    }
    if a.runs_code || a.spawns || reviews {
        push_part(&mut parts, text::trimmed(layers.sdk.as_str()));
    }
    text::joined(&parts, "\n\n---\n\n")
}

// ---------------------------------------------------------------------------
// Answers
// ---------------------------------------------------------------------------

/// The type that a schema names, or else a text.
pub open spec fn schema_type(s: JsonView) -> Seq<char> {
    match json::text_field(s, "type"@) {
        Some(t) => t,
        None => "string"@,
    }
}

/// What stands for a value of a schema in a template.
pub open spec fn placeholder(s: JsonView, optional: bool) -> JsonView {
    let t = schema_type(s);
    if t == "string"@ {
        JsonView::Text(
            if optional {
                "..."@
            } else {
                "(required)"@
            },
        )
    } else if t == "boolean"@ {
        JsonView::Bool(false)
    } else if t == "integer"@ || t == "number"@ {
        JsonView::Number("0"@)
    } else if t == "array"@ {
        JsonView::List(Seq::empty())
    } else if t == "object"@ {
        JsonView::Object(Seq::empty())
    } else {
        JsonView::Text("("@ + t + ")"@)
    }
}

/// A schema requires the property `key`.
pub open spec fn requires_key(schema: JsonView, key: Seq<char>) -> bool {
    match json::field(schema, "required"@) {
        Some(JsonView::List(s)) => exists|i: int|
            0 <= i < s.len() && #[trigger] s[i] == JsonView::Text(key),
        _ => false,
    }
}

/// The properties of a schema, where it is one of objects.
pub open spec fn properties(schema: JsonView) -> Option<Seq<json::JsonFieldView>> {
    match json::field(schema, "properties"@) {
        Some(JsonView::Object(m)) => Some(m),
        _ => None,
    }
}

/// The template of a schema.
pub open spec fn template_tree(schema: JsonView, props: Seq<json::JsonFieldView>) -> JsonView {
    JsonView::Object(
        props.map_values(
            |f: json::JsonFieldView|
                json::entry(f.key, placeholder(f.value, !requires_key(schema, f.key))),
        ),
    )
}

/// The template of a schema, as it is shown.
pub open spec fn template_text(schema: JsonView) -> Seq<char> {
    match properties(schema) {
        Some(p) => json::pretty_json_text(template_tree(schema, p)),
        None => "{}"@,
    }
}

/// What stands for a value of a schema in a template.
pub fn json_placeholder(prop_schema: &Json, optional: bool) -> (r: Json)
    ensures
        r@ == placeholder(prop_schema@, optional),
{
    let named = prop_schema.get_text("type");
    let t: &str = match named {
        Some(s) => s.as_str(),
        None => "string",
    };
    if text::text_eq(t, "string") {
        if optional {
            Json::Text("...".to_owned())
        } else {
            Json::Text("(required)".to_owned())
        }
    } else if text::text_eq(t, "boolean") {
        Json::Bool(false)
    } else if text::text_eq(t, "integer") || text::text_eq(t, "number") {
        Json::Number("0".to_owned())
    } else if text::text_eq(t, "array") {
        let r = Json::List(Vec::new());
        assert(r@->List_0 =~= Seq::<JsonView>::empty());
        r
    } else if text::text_eq(t, "object") {
        let r = Json::Object(Vec::new());
        assert(r@->Object_0 =~= Seq::<json::JsonFieldView>::empty());
        r
    } else {
        let mut s = "(".to_owned();
        s.append(t);
        s.append(")");
        Json::Text(s)
    }
}

fn is_required(schema: &Json, key: &str) -> (r: bool)
    ensures
        r == requires_key(schema@, key@),
{
    match schema.get("required") {
        Some(list) => {
            let ghost views = list@;
            match list {
                Json::List(v) => {
                    let mut i: usize = 0;
                    while i < v.len()
                        invariant
                            i <= v@.len(),
                            views == Json::List(*v)@,
                            json::field(schema@, "required"@) == Some(views),
                            forall|k: int|
                                0 <= k < i ==> (#[trigger] v@[k])@ != JsonView::Text(key@),
                        decreases v@.len() - i,
                    {
                        assert(views->List_0[i as int] == v@[i as int]@);
                        if let Json::Text(s) = &v[i] {
                            if text::text_eq(s.as_str(), key) {
                                return true;
                            }
                        }
                        i = i + 1;
                    }
                    proof {
                        let s = views->List_0;
                        assert forall|k: int| 0 <= k < s.len() implies #[trigger] s[k]
                            != JsonView::Text(key@) by {
                            assert(s[k] == v@[k]@);
                        }
                    }
                    false
                },
                _ => false,
            }
        },
        None => false,
    }
}

/// A template for the answers that a schema allows: a stand-in for each property.
pub fn generate_json_template(schema: &Json) -> (r: String)
    ensures
        r@ == template_text(schema@),
{
    match schema.get("properties") {
        Some(p) => {
            let ghost pv = p@;
            match p {
                Json::Object(m) => {
                    proof {
                        json::lemma_object_view(*m);
                    }
                    let ghost props = m@.map_values(|e: JsonField| e@);
                    let mut f = Fields::new();
                    let mut i: usize = 0;
                    let ghost part = |g: json::JsonFieldView|
                        json::entry(g.key, placeholder(g.value, !requires_key(schema@, g.key)));
                    assert(f@ =~= props.subrange(0, 0).map_values(part));
                    while i < m.len()
                        invariant
                            i <= m@.len(),
                            props == m@.map_values(|e: JsonField| e@),
                            part == (|g: json::JsonFieldView|
                                json::entry(
                                    g.key,
                                    placeholder(g.value, !requires_key(schema@, g.key)),
                                )),
                            f@ == props.subrange(0, i as int).map_values(part),
                        decreases m@.len() - i,
                    {
                        let required = is_required(schema, m[i].key.as_str());
                        let ghost before = f@;
                        f.put(m[i].key.as_str(), json_placeholder(&m[i].value, !required));
                        i = i + 1;
                        proof {
                            assert(props[i - 1] == m@[i - 1]@);
                            assert(f@ =~= props.subrange(0, i as int).map_values(part));
                        }
                    }
                    assert(props.subrange(0, i as int) =~= props);
                    assert(f@ == template_tree(schema@, props)->Object_0);
                    json::render_pretty_json(&f.object())
                },
                _ => "{}".to_owned(),
            }
        },
        None => "{}".to_owned(),
    }
}

/// A schema says something of the answers: it requires or names properties.
pub open spec fn says_something(schema: JsonView) -> bool {
    (json::field(schema, "required"@) matches Some(JsonView::List(s)) && s.len() > 0) || (properties(
        schema,
    ) matches Some(p) && p.len() > 0)
}

/// A schema has the property by which an agent reports what it did not expect.
pub open spec fn has_anomalies(schema: JsonView) -> bool {
    properties(schema) is Some && json::first_field(
        properties(schema)->Some_0,
        "anomalies"@,
    ) is Some
}

/// What an agent is told of the schema of its answers.
pub open spec fn schema_lines(schema: JsonView) -> Seq<Seq<char>> {
    let compact = json::json_text(schema);
    if says_something(schema) {
        let line =
            "- **io.returns** — your ENTIRE final reply must be a single raw JSON object matching this schema. No prose before or after the JSON, and no markdown code fences (no ```json blocks).\n  Schema: `"@
            + compact + "`\n  Template:\n  ```json\n  "@ + template_text(schema) + "\n  ```"@;
        part_if(
            seq![line],
            has_anomalies(schema),
            "  The `anomalies` field is a standing witness contract — report anything unexpected you observed, or [] if nothing."@,
        )
    } else {
        seq![
            "- **io.returns** — your final reply should be a single raw JSON object matching this schema, with no markdown code fences. Schema: `"@
                + compact + "`"@,
        ]
    }
}

/// A line that names a bound, where there is one.
pub open spec fn bound_line(
    lines: Seq<Seq<char>>,
    before: Seq<char>,
    n: Option<u64>,
    after: Seq<char>,
) -> Seq<Seq<char>> {
    match n {
        Some(k) => lines.push(before + text::decimal(k as nat) + after),
        None => lines,
    }
}

/// `lines` with what an agent is told of the bounds on what it hands back.
pub open spec fn policy_lines(lines: Seq<Seq<char>>, p: OutputPolicy) -> Seq<Seq<char>> {
    let l0 = part_if(
        lines,
        p.required_artifacts@.len() > 0,
        "- **required_artifacts**: "@ + text::join(p.required_artifacts.deep_view(), ", "@),
    );
    let l1 = bound_line(l0, "- **max_artifacts**: "@, p.max_artifacts, ""@);
    let l2 = bound_line(l1, "- **max_total_size_mb**: "@, p.max_total_size_mb, ""@);
    let l3 = bound_line(l2, "- **max_reply_length_chars**: "@, p.max_reply_length_chars, ""@);
    let l4 = bound_line(
        l3,
        "- **min_artifact_builds**: "@,
        p.min_artifact_builds,
        " (durable `artifact.build` trace required)"@,
    );
    let l5 = part_if(
        l4,
        p.prohibited_text_patterns@.len() > 0,
        "- **prohibited_text_patterns**: "@ + text::join(
            p.prohibited_text_patterns.deep_view(),
            ", "@,
        ),
    );
    l5.push("- **validation_max_loops**: "@ + text::decimal(p.validation_max_loops as nat))
}

/// All that an agent is told of its answers.
pub open spec fn contract_lines(schema: Option<Json>, policy: Option<&OutputPolicy>) -> Seq<
    Seq<char>,
> {
    let lines = match schema {
        Some(s) => schema_lines(s@),
        None => Seq::empty(),
    };
    match policy {
        Some(p) => policy_lines(lines, *p),
        None => lines,
    }
}

/// The section on an agent's answers, where there is anything to say.
pub open spec fn contract_section(lines: Seq<Seq<char>>) -> Option<Seq<char>> {
    if lines.len() == 0 {
        None
    } else {
        Some(
            "---\n\nYour Output Contract\n\nThe gateway will validate your final output against these constraints before returning it to the caller. Violating constraints triggers a repair prompt; repairs are bounded by the declared policy.\n\n"@
                + text::join(lines, "\n"@),
        )
    }
}

fn schema_says_something(schema: &Json) -> (r: bool)
    ensures
        r == says_something(schema@),
{
    if let Some(list) = schema.get("required") {
        if let Json::List(v) = list {
            assert(list@->List_0.len() == v@.len());
            if v.len() > 0 {
                return true;
            }
        }
    }
    if let Some(p) = schema.get("properties") {
        if let Json::Object(m) = p {
            assert(p@->Object_0.len() == m@.len());
            return m.len() > 0;
        }
    }
    false
}

fn schema_has_anomalies(schema: &Json) -> (r: bool)
    ensures
        r == has_anomalies(schema@),
{
    match schema.get("properties") {
        Some(p) => {
            let found = p.get("anomalies");
            match p {
                Json::Object(_) => match found {
                    Some(_) => true,
                    None => false,
                },
                _ => false,
            }
        },
        None => false,
    }
}

fn push_schema_lines(lines: &mut Vec<String>, schema: &Json)
    requires
        old(lines)@.len() == 0,
    ensures
        final(lines).deep_view() == schema_lines(schema@),
{
    let compact = json::render_json(schema);
    if schema_says_something(schema) {
        let mut s =
            "- **io.returns** — your ENTIRE final reply must be a single raw JSON object matching this schema. No prose before or after the JSON, and no markdown code fences (no ```json blocks).\n  Schema: `".to_owned();
        s.append(compact.as_str());
        s.append("`\n  Template:\n  ```json\n  ");
        s.append(generate_json_template(schema).as_str());
        s.append("\n  ```");
        push_part(lines, s);
        assert(lines.deep_view() =~= seq![s@]);
        if schema_has_anomalies(schema) {
            push_part(
                lines,
                "  The `anomalies` field is a standing witness contract — report anything unexpected you observed, or [] if nothing.".to_owned(),
            );
        }
    } else {
        let mut s =
            "- **io.returns** — your final reply should be a single raw JSON object matching this schema, with no markdown code fences. Schema: `".to_owned();
        s.append(compact.as_str());
        s.append("`");
        push_part(lines, s);
        assert(lines.deep_view() =~= seq![s@]);
    }
}

fn push_bound(lines: &mut Vec<String>, before: &str, n: Option<u64>, after: &str)
    ensures
        final(lines).deep_view() == bound_line(old(lines).deep_view(), before@, n, after@),
{
    if let Some(k) = n {
        let mut s = before.to_owned();
        s.append(text::decimal_string(k).as_str());
        s.append(after);
        push_part(lines, s);
    }
}

fn push_policy_lines(lines: &mut Vec<String>, p: &OutputPolicy)
    ensures
        final(lines).deep_view() == policy_lines(old(lines).deep_view(), *p),
{
    if p.required_artifacts.len() > 0 {
        let mut s = "- **required_artifacts**: ".to_owned();
        s.append(text::joined(&p.required_artifacts, ", ").as_str());
        push_part(lines, s);
    }
    push_bound(lines, "- **max_artifacts**: ", p.max_artifacts, "");
    push_bound(lines, "- **max_total_size_mb**: ", p.max_total_size_mb, "");
    push_bound(lines, "- **max_reply_length_chars**: ", p.max_reply_length_chars, "");
    push_bound(
        lines,
        "- **min_artifact_builds**: ",
        p.min_artifact_builds,
        " (durable `artifact.build` trace required)",
    );
    if p.prohibited_text_patterns.len() > 0 {
        let mut s = "- **prohibited_text_patterns**: ".to_owned();
        s.append(text::joined(&p.prohibited_text_patterns, ", ").as_str());
        push_part(lines, s);
    }
    let mut s = "- **validation_max_loops**: ".to_owned();
    s.append(text::decimal_string(p.validation_max_loops).as_str());
    push_part(lines, s);
}

// ---------------------------------------------------------------------------
// The system prompt
// ---------------------------------------------------------------------------

/// The note for agents from a format in which tools have other names.
pub const TOOL_BRIDGING_APPENDIX: &'static str = "---

Tool Compatibility Notes (auto-generated from AgentSkills import)

This skill was imported from the Agent Skills (agentskills.io) format.
The following tool mappings apply:

| Skill references | Autonoetic equivalent |
|---|---|
| `Bash(command)` | `sandbox_exec({\"command\": \"command\"})` |
| `Read(path)` | `resolve(ref, include=\"content\")` — files must be loaded via content store |
| `Write(path, content)` | `content_write(name, content)` |
| `WebSearch(query)` | `web_search({\"query\": \"query\"})` |
| `WebFetch(url)` | `web_fetch({\"url\": \"url\"})` |

File paths referenced by the skill are available in the agent directory.
Use resolve/content_write or sandbox paths relative to the agent working directory.";

/// What is said besides the foundation and the agent's own instructions.
#[derive(Debug)]
pub struct PromptExtras<'a> {
    pub user_context: Option<&'a str>,
    pub persona: Option<&'a str>,
    pub guidance: Option<&'a str>,
}

/// The section of guidance, where there is any.
pub open spec fn guidance_section(g: Option<&str>) -> Option<Seq<char>> {
    match g {
        Some(s) => if text::trim(s@).len() > 0 {
            Some("---\n\nGuidance\n\n"@ + text::trim(s@))
        } else {
            None
        },
        None => None,
    }
}

/// The section on the user's persona, where there is one.
pub open spec fn persona_section(p: Option<&str>) -> Option<Seq<char>> {
    match p {
        Some(s) => Some(
            "---\n\nUser Persona\n\nThe operator has provided the following context about themselves. Adapt your communication style and assumptions accordingly, but never violate constitutional rules or agent-specific constraints.\n\n"@
                + s@,
        ),
        None => None,
    }
}

/// The parts of a system prompt before the section on answers.
pub open spec fn prompt_parts(
    instructions: Seq<char>,
    m: AgentManifest,
    l: FoundationLayers,
    x: PromptExtras<'_>,
) -> Seq<Seq<char>> {
    let own = text::trim(instructions);
    let p0 = seq![foundation(m, l)];
    let p1 = part_opt(p0, guidance_section(x.guidance));
    let p2 = part_if(p1, m.needs_tool_bridging == Some(true), TOOL_BRIDGING_APPENDIX@);
    let p3 = part_opt(p2, persona_section(x.persona));
    let p4 = part_opt(
        p3,
        match x.user_context {
            Some(s) => Some(s@),
            None => None,
        },
    );
    if own.len() > 0 {
        p4.push("---\n\nAgent-Specific Instructions\n\n"@).push(own)
    } else {
        p4
    }
}

/// A system prompt.
pub open spec fn system_prompt(
    instructions: Seq<char>,
    m: AgentManifest,
    l: FoundationLayers,
    policy: Option<&OutputPolicy>,
    x: PromptExtras<'_>,
) -> Seq<char> {
    let base = text::join(prompt_parts(instructions, m, l, x), "\n\n"@);
    match contract_section(contract_lines(m.io_returns, policy)) {
        Some(s) => base + "\n\n"@ + s,
        None => base,
    }
}

/// The system prompt of an agent. Its layers come in a fixed order, so that none
/// overrides one before it: the foundation, guidance, the names of tools, the
/// user's persona and profile, the agent's own instructions, and the bounds on
/// its answers.
pub fn compose_system_instructions_full(
    agent_instructions: &str,
    manifest: &AgentManifest,
    layers: &FoundationLayers,
    output_policy: Option<&OutputPolicy>,
    extras: &PromptExtras<'_>,
) -> (r: String)
    ensures
        r@ == system_prompt(agent_instructions@, *manifest, *layers, output_policy, *extras),
{
    let mut parts: Vec<String> = Vec::new();
    push_part(&mut parts, compose_foundation(manifest, layers));
    assert(parts.deep_view() =~= seq![foundation(*manifest, *layers)]);
    if let Some(g) = extras.guidance {
        let t = text::trimmed(g);
        if text::chars_of(t.as_str()).len() > 0 {
            let mut s = "---\n\nGuidance\n\n".to_owned();
            s.append(t.as_str());
            push_part(&mut parts, s);
        }
    }
    if let Some(b) = manifest.needs_tool_bridging {
        if b {
            push_part(&mut parts, TOOL_BRIDGING_APPENDIX.to_owned());
        }
    }
    if let Some(p) = extras.persona {
        let mut s =
            "---\n\nUser Persona\n\nThe operator has provided the following context about themselves. Adapt your communication style and assumptions accordingly, but never violate constitutional rules or agent-specific constraints.\n\n".to_owned();
        s.append(p);
        push_part(&mut parts, s);
    }
    if let Some(u) = extras.user_context {
        push_part(&mut parts, u.to_owned());
    }
    let own = text::trimmed(agent_instructions);
    if text::chars_of(own.as_str()).len() > 0 {
        push_part(&mut parts, "---\n\nAgent-Specific Instructions\n\n".to_owned());
        push_part(&mut parts, own);
    }
    let mut base = text::joined(&parts, "\n\n");

    let mut lines: Vec<String> = Vec::new();
    assert(lines.deep_view() =~= Seq::<Seq<char>>::empty());
    if let Some(schema) = &manifest.io_returns {
        push_schema_lines(&mut lines, schema);
    }
    if let Some(p) = output_policy {
        push_policy_lines(&mut lines, p);
    }
    assert(lines.deep_view() == contract_lines(manifest.io_returns, output_policy));
    assert(lines.deep_view().len() == lines@.len());
    if lines.len() > 0 {
        let mut s =
            "---\n\nYour Output Contract\n\nThe gateway will validate your final output against these constraints before returning it to the caller. Violating constraints triggers a repair prompt; repairs are bounded by the declared policy.\n\n".to_owned();
        s.append(text::joined(&lines, "\n").as_str());
        base.append("\n\n");
        base.append(s.as_str());
    }
    base
}

/// The system prompt of an agent without anything on its user.
pub fn compose_system_instructions_with_metadata(
    agent_instructions: &str,
    manifest: &AgentManifest,
    layers: &FoundationLayers,
    output_policy: Option<&OutputPolicy>,
) -> (r: String)
    ensures
        r@ == system_prompt(
            agent_instructions@,
            *manifest,
            *layers,
            output_policy,
            (PromptExtras { user_context: None, persona: None, guidance: None }),
        ),
{
    let extras = PromptExtras { user_context: None, persona: None, guidance: None };
    compose_system_instructions_full(agent_instructions, manifest, layers, output_policy, &extras)
}

/// The system prompt of an agent with what is known of its user.
pub fn compose_system_instructions_with_user_context<'a>(
    agent_instructions: &str,
    manifest: &AgentManifest,
    layers: &FoundationLayers,
    output_policy: Option<&OutputPolicy>,
    user_context: Option<&'a str>,
) -> (r: String)
    ensures
        r@ == system_prompt(
            agent_instructions@,
            *manifest,
            *layers,
            output_policy,
            (PromptExtras { user_context, persona: None, guidance: None }),
        ),
{
    let extras = PromptExtras { user_context, persona: None, guidance: None };
    compose_system_instructions_full(agent_instructions, manifest, layers, output_policy, &extras)
}

/// The two halves of an agent's instructions, once the second is loaded.
pub fn inline_extended(core: &str, extended: Option<&str>) -> (r: String)
    ensures
        r@ == match extended {
            Some(e) => if e@.len() > 0 {
                core@ + "\n\n"@ + e@
            } else {
                core@
            },
            None => core@,
        },
{
    match extended {
        Some(e) => if text::chars_of(e).len() > 0 {
            let mut s = core.to_owned();
            s.append("\n\n");
            s.append(e);
            s
        } else {
            core.to_owned()
        },
        None => core.to_owned(),
    }
}

// ---------------------------------------------------------------------------
// Users
// ---------------------------------------------------------------------------

/// How much of a user's profile an agent sees.
#[derive(Debug, Clone, Copy, PartialEq, Eq, Structural)]
pub enum BindingScope {
    Full,
    Restricted,
    TaskOnly,
}

/// The name of a scope.
pub open spec fn scope_name(s: BindingScope) -> Seq<char> {
    match s {
        BindingScope::Full => "full"@,
        BindingScope::Restricted => "restricted"@,
        BindingScope::TaskOnly => "task_only"@,
    }
}

/// The longest prefix of `s` that takes at most `n` bytes.
pub open spec fn byte_bounded(s: Seq<char>, n: nat) -> Seq<char> {
    s.subrange(0, text::fitting(s, n) as int)
}

/// The longest prefix that takes at most `max_bytes` bytes.
pub fn safe_prefix_by_bytes(s: &str, max_bytes: usize) -> (r: String)
    ensures
        r@ == byte_bounded(s@, max_bytes as nat),
{
    let v = text::chars_of(s);
    let k = text::fitting_count(&v, max_bytes);
    text::string_of(&v, 0, k)
}

/// What an agent of a restricted scope sees of a profile.
pub open spec fn restricted_profile(p: JsonView) -> JsonView {
    let a = match json::field(p, "preferences"@) {
        Some(v) => json::no_fields().push(json::entry("preferences"@, v)),
        None => json::no_fields(),
    };
    JsonView::Object(
        match json::field(p, "constraints"@) {
            Some(v) => a.push(json::entry("constraints"@, v)),
            None => a,
        },
    )
}

/// `s`, cut to `n` bytes and marked where it is longer.
pub open spec fn shortened(s: Seq<char>, n: nat, mark: Seq<char>) -> Seq<char> {
    if text::byte_len(s) > n {
        byte_bounded(s, n) + mark
    } else {
        s
    }
}

/// What an agent is told of a user.
pub open spec fn user_context(profile: Option<Seq<char>>, scope: BindingScope) -> Option<Seq<char>> {
    let seen = match profile {
        Some(p) => match json::parsed_json(p) {
            Some(t) => if scope == BindingScope::Restricted {
                Some(restricted_profile(t))
            } else {
                Some(t)
            },
            None => None,
        },
        None => None,
    };
    match seen {
        Some(t) => if scope == BindingScope::TaskOnly || t is Null || t == JsonView::Object(
            Seq::empty(),
        ) {
            None
        } else {
            Some(
                "---\n\nUser Profile Context\n\nYou have access to this user's profile data (scope: "@
                    + scope_name(scope)
                    + "). Use it to personalize your behavior.\n\n```json\n"@ + shortened(
                    json::json_text(t),
                    2000,
                    "..."@,
                ) + "\n```"@,
            )
        },
        None => None,
    }
}

fn shorten(s: &str, n: usize, mark: &str) -> (r: String)
    ensures
        r@ == shortened(s@, n as nat, mark@),
{
    if text::byte_count(s) > n {
        let mut p = safe_prefix_by_bytes(s, n);
        p.append(mark);
        p
    } else {
        s.to_owned()
    }
}

fn put_found(f: &mut Fields, key: &str, p: &Json)
    ensures
        final(f)@ == match json::field(p@, key@) {
            Some(v) => old(f)@.push(json::entry(key@, v)),
            None => old(f)@,
        },
{
    if let Some(v) = p.get(key) {
        f.put(key, v.copy());
    }
}

/// What an agent is told of a user: nothing for a scope that leaves the profile
/// out, the preferences and constraints for a restricted one, and else the whole
/// profile, cut to a bounded length.
pub fn render_user_context_snippet(profile_json: &Option<String>, scope: BindingScope) -> (r: Option<
    String,
>)
    ensures
        r.deep_view() == user_context(profile_json.deep_view(), scope),
{
    if scope == BindingScope::TaskOnly {
        return None;
    }
    let parsed = match profile_json {
        Some(s) => match json::parse_json(s.as_str()) {
            Some(t) => t,
            None => {
                return None;
            },
        },
        None => {
            return None;
        },
    };
    let seen: Json = if scope == BindingScope::Restricted {
        let mut f = Fields::new();
        put_found(&mut f, "preferences", &parsed);
        put_found(&mut f, "constraints", &parsed);
        f.object()
    } else {
        parsed
    };
    match &seen {
        Json::Null => {
            return None;
        },
        Json::Object(m) => {
            assert(seen@->Object_0.len() == m@.len());
            if m.len() == 0 {
                assert(seen@->Object_0 =~= Seq::<json::JsonFieldView>::empty());
                return None;
            }
        },
        _ => {},
    }
    let compact = json::render_json(&seen);
    let mut s =
        "---\n\nUser Profile Context\n\nYou have access to this user's profile data (scope: ".to_owned();
    s.append(
        match scope {
            BindingScope::Full => "full",
            BindingScope::Restricted => "restricted",
            BindingScope::TaskOnly => "task_only",
        },
    );
    s.append("). Use it to personalize your behavior.\n\n```json\n");
    s.append(shorten(compact.as_str(), 2000, "...").as_str());
    s.append("\n```");
    Some(s)
}

// ---------------------------------------------------------------------------
// Workflows
// ---------------------------------------------------------------------------

/// The headline of a workflow's summary: its first line.
pub open spec fn headline(summary: Seq<char>) -> Seq<char> {
    let first = text::trim(text::before_char(summary, '\n'));
    if first.len() == 0 {
        "Workflow updated."@
    } else {
        first
    }
}

/// The last intent that a summary reports, where it reports one.
pub open spec fn last_intent(summary: Seq<char>) -> Option<Seq<char>> {
    match text::find_text(summary, "last intent"@, 0) {
        Some(p) => {
            let tail = summary.subrange(p, summary.len() as int);
            match text::find_text(tail, ":"@, 0) {
                Some(c) => {
                    let body = text::trim(tail.subrange(c + 1, tail.len() as int));
                    if body.len() == 0 {
                        None
                    } else {
                        Some(body)
                    }
                },
                None => None,
            }
        },
        None => None,
    }
}

/// What a user is shown of a workflow.
pub open spec fn workflow_message(summary: Seq<char>, planner_text_empty: bool) -> Seq<char> {
    let head = "**Workflow status:** "@ + headline(summary);
    match last_intent(summary) {
        Some(body) => if planner_text_empty {
            head + "\n\n"@ + shortened(body, 1200, "…"@)
        } else {
            head
        },
        None => head,
    }
}

/// What a user is shown of a workflow: its headline, and its last intent where
/// the model itself said nothing.
pub fn workflow_status_user_message_for_chat(summary: &str, planner_text_empty: bool) -> (r: String)
    ensures
        r@ == workflow_message(summary@, planner_text_empty),
{
    let first = text::trimmed(text::head_before(summary, '\n').as_str());
    let mut out = "**Workflow status:** ".to_owned();
    if text::chars_of(first.as_str()).len() == 0 {
        out.append("Workflow updated.");
    } else {
        out.append(first.as_str());
    }
    if !planner_text_empty {
        return out;
    }
    let v = text::chars_of(summary);
    let mark = text::chars_of("last intent");
    let colon = text::chars_of(":");
    proof {
        reveal_strlit("last intent");
        reveal_strlit(":");
        text::lemma_find_text(summary@, "last intent"@, 0);
    }
    if let Some(p) = text::find_in(&v, &mark, 0) {
        let tail = text::string_of(&v, p, v.len());
        let t = text::chars_of(tail.as_str());
        proof {
            text::lemma_find_text(tail@, ":"@, 0);
        }
        if let Some(c) = text::find_in(&t, &colon, 0) {
            let body = text::trimmed(text::string_of(&t, c + 1, t.len()).as_str());
            if text::chars_of(body.as_str()).len() > 0 {
                out.append("\n\n");
                out.append(shorten(body.as_str(), 1200, "…").as_str());
            }
        }
    }
    out
}

// ---------------------------------------------------------------------------
// Degraded sessions
// ---------------------------------------------------------------------------

/// An event says that a session was degraded.
pub open spec fn is_degradation(e: CausalEventRecord) -> bool {
    e.category@ == "session"@ && e.action@ == "session.degraded"@
}

/// The first of the events that says that a session was degraded.
pub open spec fn first_degradation(v: Seq<CausalEventRecord>) -> Option<CausalEventRecord>
    decreases v.len(),
{
    if v.len() == 0 {
        None
    } else if is_degradation(v[0]) {
        Some(v[0])
    } else {
        first_degradation(v.subrange(1, v.len() as int))
    }
}

/// The evidence of an event: its payload, or else its reason.
pub open spec fn evidence(e: CausalEventRecord) -> Option<Seq<char>> {
    match e.payload.deep_view() {
        Some(p) => Some(p),
        None => match e.reason.deep_view() {
            Some(r) => Some(
                json::json_text(
                    JsonView::Object(
                        json::no_fields().push(json::entry("reason"@, JsonView::Text(r))),
                    ),
                ),
            ),
            None => None,
        },
    }
}

/// The event by which a session was degraded: one of its own, or else one of its
/// root.
pub open spec fn degradation_of(
    session_id: Seq<char>,
    own: Seq<CausalEventRecord>,
    root: Option<Seq<CausalEventRecord>>,
) -> Option<CausalEventRecord> {
    match first_degradation(own) {
        Some(e) => Some(e),
        None => if text::before_char(session_id, '/') != session_id && root is Some {
            first_degradation(root->Some_0)
        } else {
            None
        },
    }
}

/// What an agent is told of an event by which its session was degraded, or why it
/// cannot be told.
pub open spec fn degradation_notice(e: CausalEventRecord) -> Result<Seq<char>, Seq<char>> {
    if e.enforced_rules@.len() == 0 {
        Err(
            "Ri-0.5 violation: session.degraded event '"@ + e.event_id@
                + "' has no enforced rule IDs"@,
        )
    } else {
        match evidence(e) {
            None => Err(
                "Ri-0.5 violation: session.degraded event '"@ + e.event_id@
                    + "' has no evidence payload"@,
            ),
            Some(v) => Ok(
                "---\n\nDegradation Notice (Ri-0.5)\n\nThis session is in degraded mode before this turn executes.\nRule IDs: "@
                    + text::join(e.enforced_rules.deep_view(), ", "@) + "\nEvidence Event: "@
                    + e.event_id@ + "\nEvidence: "@ + v + "\n"@,
            ),
        }
    }
}

/// What the store says of the events of a session and of its root.
#[derive(Debug)]
pub struct DegradationEvents {
    pub own: Vec<CausalEventRecord>,
    /// The events of the root, where they could be read.
    pub root: Option<Vec<CausalEventRecord>>,
}

/// What an agent is told before a turn of a degraded session.
pub open spec fn degradation_tail(
    state: SessionState,
    session_id: Seq<char>,
    events: Option<DegradationEvents>,
) -> Result<Option<Seq<char>>, Seq<char>> {
    if state != SessionState::Degraded {
        Ok(None)
    } else {
        let start = "[Ri-0.5 DEGRADED NOTICE] Session '"@ + session_id;
        match events {
            None => Ok(
                Some(
                    start
                        + "' is in degraded mode. Trigger evidence unavailable (no gateway store)."@,
                ),
            ),
            Some(ev) => match degradation_of(
                session_id,
                ev.own@,
                match ev.root {
                    Some(v) => Some(v@),
                    None => None,
                },
            ) {
                None => Ok(
                    Some(
                        start
                            + "' is in degraded mode. session.degraded causal event not found."@,
                    ),
                ),
                Some(e) => match degradation_notice(e) {
                    Ok(s) => Ok(Some(s)),
                    Err(s) => Err(s),
                },
            },
        }
    }
}

fn find_degradation(v: &Vec<CausalEventRecord>) -> (r: Option<usize>)
    ensures
        match r {
            Some(i) => i < v@.len() && first_degradation(v@) == Some(v@[i as int]),
            None => first_degradation(v@) is None,
        },
{
    let mut i: usize = 0;
    assert(v@.subrange(0, v@.len() as int) =~= v@);
    while i < v.len()
        invariant
            i <= v@.len(),
            first_degradation(v@) == first_degradation(v@.subrange(i as int, v@.len() as int)),
        decreases v@.len() - i,
    {
        proof {
            let rest = v@.subrange(i as int, v@.len() as int);
            assert(rest.subrange(1, rest.len() as int) =~= v@.subrange(i + 1, v@.len() as int));
        }
        if text::text_eq(v[i].category.as_str(), "session") && text::text_eq(
            v[i].action.as_str(),
            "session.degraded",
        ) {
            return Some(i);
        }
        i = i + 1;
    }
    None
}

fn notice_of(e: &CausalEventRecord) -> (r: Result<String, String>)
    ensures
        match r {
            Ok(s) => degradation_notice(*e) == Ok::<Seq<char>, Seq<char>>(s@),
            Err(s) => degradation_notice(*e) == Err::<Seq<char>, Seq<char>>(s@),
        },
{
    if e.enforced_rules.len() == 0 {
        let mut s = "Ri-0.5 violation: session.degraded event '".to_owned();
        s.append(e.event_id.as_str());
        s.append("' has no enforced rule IDs");
        return Err(s);
    }
    let found: Option<String> = match &e.payload {
        Some(p) => Some(p.clone()),
        None => match &e.reason {
            Some(r) => {
                let mut f = Fields::new();
                f.text("reason", r.as_str());
                Some(json::render_json(&f.object()))
            },
            None => None,
        },
    };
    match found {
        None => {
            let mut s = "Ri-0.5 violation: session.degraded event '".to_owned();
            s.append(e.event_id.as_str());
            s.append("' has no evidence payload");
            Err(s)
        },
        Some(v) => {
            let mut s =
                "---\n\nDegradation Notice (Ri-0.5)\n\nThis session is in degraded mode before this turn executes.\nRule IDs: ".to_owned();
            s.append(text::joined(&e.enforced_rules, ", ").as_str());
            s.append("\nEvidence Event: ");
            s.append(e.event_id.as_str());
            s.append("\nEvidence: ");
            s.append(v.as_str());
            s.append("\n");
            Ok(s)
        },
    }
}

/// What an agent is told before a turn of a degraded session: which rules were
/// enforced, and the evidence. Without a store there are no events.
pub fn build_degradation_notice_tail(
    state: SessionState,
    session_id: &str,
    events: &Option<DegradationEvents>,
) -> (r: Result<Option<String>, String>)
    ensures
        match r {
            Ok(o) => degradation_tail(state, session_id@, *events) == Ok::<
                Option<Seq<char>>,
                Seq<char>,
            >(o.deep_view()),
            Err(s) => degradation_tail(state, session_id@, *events) == Err::<
                Option<Seq<char>>,
                Seq<char>,
            >(s@),
        },
{
    if state != SessionState::Degraded {
        return Ok(None);
    }
    let mut start = "[Ri-0.5 DEGRADED NOTICE] Session '".to_owned();
    start.append(session_id);
    match events {
        None => {
            start.append(
                "' is in degraded mode. Trigger evidence unavailable (no gateway store).",
            );
            Ok(Some(start))
        },
        Some(ev) => {
            if let Some(i) = find_degradation(&ev.own) {
                return match notice_of(&ev.own[i]) {
                    Ok(s) => Ok(Some(s)),
                    Err(s) => Err(s),
                };
            }
            let root = content_store::root_session_id(session_id);
            if !text::text_eq(root.as_str(), session_id) {
                if let Some(v) = &ev.root {
                    if let Some(i) = find_degradation(v) {
                        return match notice_of(&v[i]) {
                            Ok(s) => Ok(Some(s)),
                            Err(s) => Err(s),
                        };
                    }
                }
            }
            start.append("' is in degraded mode. session.degraded causal event not found.");
            Ok(Some(start))
        },
    }
}

// ---------------------------------------------------------------------------
// Attestations
// ---------------------------------------------------------------------------

/// A request that waits for an approval.
#[derive(Debug)]
pub struct PendingRequest {
    pub request_id: String,
    pub action: ScheduledAction,
}

/// The ids of the requests that are escalations.
pub open spec fn escalations(v: Seq<PendingRequest>) -> Seq<Seq<char>>
    decreases v.len(),
{
    if v.len() == 0 {
        Seq::empty()
    } else if v.last().action is SessionEscalate {
        escalations(v.drop_last()).push(v.last().request_id@)
    } else {
        escalations(v.drop_last())
    }
}

/// The ids of the pending requests that are escalations.
pub fn pending_escalation_ids(v: &Vec<PendingRequest>) -> (r: Vec<String>)
    ensures
        r.deep_view() == escalations(v@),
{
    let mut out: Vec<String> = Vec::new();
    let mut i: usize = 0;
    assert(out.deep_view() =~= escalations(v@.subrange(0, 0)));
    while i < v.len()
        invariant
            i <= v@.len(),
            out.deep_view() == escalations(v@.subrange(0, i as int)),
        decreases v@.len() - i,
    {
        proof {
            let t = v@.subrange(0, i + 1);
            assert(t.drop_last() =~= v@.subrange(0, i as int));
            assert(t.last() == v@[i as int]);
        }
        if let ScheduledAction::SessionEscalate = v[i].action {
            push_part(&mut out, v[i].request_id.clone());
        }
        i = i + 1;
    }
    assert(v@.subrange(0, i as int) =~= v@);
    out
}

/// What has been used of a budget, and its limit where it has one. Rounds and tokens
/// are whole numbers. A price in dollars is the bit pattern of a double, which is
/// carried as it is.
#[derive(Debug)]
pub struct BudgetMeter {
    pub name: String,
    pub used: u64,
    pub limit: Option<u64>,
}

/// A ratio of two whole numbers.
#[derive(Debug, Clone, Copy, PartialEq, Eq, Structural)]
pub struct Ratio {
    pub numerator: u128,
    pub denominator: u64,
}

/// How fast a session uses its tokens.
#[derive(Debug, Clone, Copy, PartialEq, Eq, Structural)]
pub struct BurnRateForecast {
    pub tokens_per_turn: Ratio,
    pub remaining_tokens: Option<u64>,
    pub projected_turns_remaining: Option<Ratio>,
}

/// The first meter of tokens.
pub open spec fn token_meter(v: Seq<BudgetMeter>) -> Option<BudgetMeter>
    decreases v.len(),
{
    if v.len() == 0 {
        None
    } else if v[0].name@ == "llm_tokens"@ {
        Some(v[0])
    } else {
        token_meter(v.subrange(1, v.len() as int))
    }
}

/// What is left of a budget, where it has a limit.
pub open spec fn remaining(m: BudgetMeter) -> Option<u64> {
    match m.limit {
        Some(l) => Some(
            if l >= m.used {
                (l - m.used) as u64
            } else {
                0
            },
        ),
        None => None,
    }
}

/// The forecast of a session: the tokens used divided by the turns, and what is
/// left divided by that. There is none before the first turn or without a meter
/// of tokens, and no projection without a limit or before any token was used.
pub open spec fn burn_rate(v: Seq<BudgetMeter>, turns: u64) -> Option<BurnRateForecast> {
    if turns == 0 {
        None
    } else {
        match token_meter(v) {
            Some(m) => Some(
                BurnRateForecast {
                    tokens_per_turn: Ratio { numerator: m.used as u128, denominator: turns },
                    remaining_tokens: remaining(m),
                    projected_turns_remaining: match remaining(m) {
                        Some(rem) => if m.used > 0 {
                            Some(
                                Ratio { numerator: (rem * turns) as u128, denominator: m.used },
                            )
                        } else {
                            None
                        },
                        None => None,
                    },
                },
            ),
            None => None,
        }
    }
}

/// The forecast of a session.
pub fn compute_burn_rate(budget_meters: &Vec<BudgetMeter>, turn_counter: u64) -> (r: Option<
    BurnRateForecast,
>)
    ensures
        r == burn_rate(budget_meters@, turn_counter),
{
    if turn_counter == 0 {
        return None;
    }
    let ghost all = budget_meters@;
    let mut i: usize = 0;
    assert(all.subrange(0, all.len() as int) =~= all);
    while i < budget_meters.len()
        invariant
            i <= budget_meters@.len(),
            all == budget_meters@,
            turn_counter > 0,
            token_meter(all) == token_meter(all.subrange(i as int, all.len() as int)),
        decreases budget_meters@.len() - i,
    {
        proof {
            let rest = all.subrange(i as int, all.len() as int);
            assert(rest.subrange(1, rest.len() as int) =~= all.subrange(i + 1, all.len() as int));
        }
        let m = &budget_meters[i];
        if text::text_eq(m.name.as_str(), "llm_tokens") {
            let left: Option<u64> = match m.limit {
                Some(l) => Some(
                    if l >= m.used {
                        l - m.used
                    } else {
                        0
                    },
                ),
                None => None,
            };
            let projected: Option<Ratio> = match left {
                Some(rem) => if m.used > 0 {
                    assert(rem * turn_counter <= u128::MAX) by (nonlinear_arith)
                        requires
                            rem <= u64::MAX,
                            turn_counter <= u64::MAX,
                    ;
                    Some(
                        Ratio {
                            numerator: rem as u128 * turn_counter as u128,
                            denominator: m.used,
                        },
                    )
                } else {
                    None
                },
                None => None,
            };
            return Some(
                BurnRateForecast {
                    tokens_per_turn: Ratio {
                        numerator: m.used as u128,
                        denominator: turn_counter,
                    },
                    remaining_tokens: left,
                    projected_turns_remaining: projected,
                },
            );
        }
        i = i + 1;
    }
    None
}

/// An invitation to propose a change of a rule.
#[derive(Debug)]
pub struct InvitationSummary {
    pub invitation_id: String,
    pub rule_id: String,
    pub denial_count: u64,
}

/// What is pending between an agent and those who govern it.
#[derive(Debug)]
pub struct CivicItems {
    pub proposal_ids: Vec<String>,
    pub flag_ids: Vec<String>,
    pub invitations: Vec<InvitationSummary>,
}

/// What the stores say of a session.
#[derive(Debug)]
pub struct AttestationReads {
    /// Requests that wait for an approval, where there is a session to ask for.
    pub requests: Option<Vec<PendingRequest>>,
    /// Questions to the user, where there are a session and a store.
    pub interaction_ids: Option<Vec<String>>,
    /// What is pending in the agent's name, where there is a store.
    pub civic: Option<CivicItems>,
}

/// Whom an attestation is about.
#[derive(Debug)]
pub struct AttestationSubject {
    pub agent_id: String,
    pub session_id: Option<String>,
    pub turn_counter: u64,
    pub gateway_node_id: String,
    pub constitution_version: String,
    pub constitution_digest: String,
    /// The model that runs, and nothing of where it runs.
    pub model_id: String,
}

/// What the gateway attests to an agent before a turn.
#[derive(Debug)]
pub struct AttestationInputs {
    pub subject: AttestationSubject,
    pub root_session_id: Option<String>,
    pub pending_approval_ids: Vec<String>,
    pub pending_user_interaction_ids: Vec<String>,
    pub pending_escalation_ids: Vec<String>,
    pub pending_proposal_ids: Vec<String>,
    pub pending_flag_ids: Vec<String>,
    pub pending_invitations: Vec<InvitationSummary>,
    pub budget_meters: Vec<BudgetMeter>,
    pub burn_rate: Option<BurnRateForecast>,
}

/// The ids of requests.
pub open spec fn request_ids(v: Seq<PendingRequest>) -> Seq<Seq<char>> {
    v.map_values(|p: PendingRequest| p.request_id@)
}

/// `a` attests what the stores said of `subject`: what could not be asked is
/// empty.
pub open spec fn attests(
    a: AttestationInputs,
    subject: AttestationSubject,
    reads: AttestationReads,
    meters: Vec<BudgetMeter>,
) -> bool {
    &&& a.subject == subject
    &&& a.root_session_id.deep_view() == match subject.session_id.deep_view() {
        Some(s) => Some(text::before_char(s, '/')),
        None => None,
    }
    &&& a.pending_approval_ids.deep_view() == match reads.requests {
        Some(v) => request_ids(v@),
        None => Seq::empty(),
    }
    &&& a.pending_escalation_ids.deep_view() == match reads.requests {
        Some(v) => escalations(v@),
        None => Seq::empty(),
    }
    &&& match reads.interaction_ids {
        Some(v) => a.pending_user_interaction_ids == v,
        None => a.pending_user_interaction_ids@.len() == 0,
    }
    &&& match reads.civic {
        Some(c) => a.pending_proposal_ids == c.proposal_ids && a.pending_flag_ids == c.flag_ids
            && a.pending_invitations == c.invitations,
        None => a.pending_proposal_ids@.len() == 0 && a.pending_flag_ids@.len() == 0
            && a.pending_invitations@.len() == 0,
    }
    &&& a.budget_meters == meters
    &&& a.burn_rate == burn_rate(meters@, subject.turn_counter)
}

fn ids_of(v: &Vec<PendingRequest>) -> (r: Vec<String>)
    ensures
        r.deep_view() == request_ids(v@),
{
    let mut out: Vec<String> = Vec::new();
    let mut i: usize = 0;
    while i < v.len()
        invariant
            i <= v@.len(),
            out@.len() == i,
            forall|k: int| 0 <= k < i ==> (#[trigger] out@[k])@ == v@[k].request_id@,
        decreases v@.len() - i,
    {
        out.push(v[i].request_id.clone());
        i = i + 1;
    }
    assert(out.deep_view() =~= request_ids(v@));
    out
}

/// What the gateway attests to an agent before a turn. A gateway without a
/// directory of its own has no key to sign with, and attests nothing.
pub fn build_state_attestation(
    has_gateway_dir: bool,
    subject: AttestationSubject,
    reads: AttestationReads,
    budget_meters: Vec<BudgetMeter>,
) -> (r: Option<AttestationInputs>)
    ensures
        r is Some <==> has_gateway_dir,
        r matches Some(a) ==> attests(a, subject, reads, budget_meters),
{
    if !has_gateway_dir {
        return None;
    }
    let root: Option<String> = match &subject.session_id {
        Some(s) => Some(content_store::root_session_id(s.as_str())),
        None => None,
    };
    let burn = compute_burn_rate(&budget_meters, subject.turn_counter);
    let mut approvals: Vec<String> = Vec::new();
    let mut escalated: Vec<String> = Vec::new();
    assert(approvals.deep_view() =~= Seq::<Seq<char>>::empty());
    if let Some(v) = &reads.requests {
        approvals = ids_of(v);
        escalated = pending_escalation_ids(v);
    }
    let interactions: Vec<String> = match reads.interaction_ids {
        Some(v) => v,
        None => Vec::new(),
    };
    let civic: CivicItems = match reads.civic {
        Some(c) => c,
        None => CivicItems {
            proposal_ids: Vec::new(),
            flag_ids: Vec::new(),
            invitations: Vec::new(),
        },
    };
    Some(
        AttestationInputs {
            subject,
            root_session_id: root,
            pending_approval_ids: approvals,
            pending_user_interaction_ids: interactions,
            pending_escalation_ids: escalated,
            pending_proposal_ids: civic.proposal_ids,
            pending_flag_ids: civic.flag_ids,
            pending_invitations: civic.invitations,
            budget_meters,
            burn_rate: burn,
        },
    )
}

/// The limits of a session's budget. That on the price, in dollars, is the bit
/// pattern of a double.
#[derive(Debug, Clone, Copy)]
pub struct BudgetLimits {
    pub max_llm_rounds: Option<u64>,
    pub max_llm_tokens: Option<u64>,
    pub max_session_price_usd_bits: Option<u64>,
}

/// What a session has used of its budget. The cost, in dollars, is the bit pattern
/// of a double.
#[derive(Debug, Clone, Copy)]
pub struct BudgetCounters {
    pub rounds: u64,
    pub tokens: u64,
    pub cost_usd_bits: u64,
}

/// `m` is the meter `name` with these figures.
pub open spec fn is_meter(m: BudgetMeter, name: Seq<char>, used: u64, limit: Option<u64>) -> bool {
    m.name@ == name && m.used == used && m.limit == limit
}

/// The meters of the rounds, the tokens and the price of a session. There are none
/// without a session, or where nothing was counted for it yet.
pub fn snapshot_budget_meters(
    session_id: Option<&str>,
    counters: Option<BudgetCounters>,
    limits: BudgetLimits,
) -> (r: Vec<BudgetMeter>)
    ensures
        match (session_id, counters) {
            (Some(s), Some(c)) => if s@.len() == 0 {
                r@.len() == 0
            } else {
                r@.len() == 3 && is_meter(
                    r@[0],
                    "llm_rounds"@,
                    c.rounds,
                    limits.max_llm_rounds,
                ) && is_meter(r@[1], "llm_tokens"@, c.tokens, limits.max_llm_tokens) && is_meter(
                    r@[2],
                    "session_price_usd"@,
                    c.cost_usd_bits,
                    limits.max_session_price_usd_bits,
                )
            },
            _ => r@.len() == 0,
        },
{
    let mut meters: Vec<BudgetMeter> = Vec::new();
    if let Some(s) = session_id {
        if text::chars_of(s).len() > 0 {
            if let Some(c) = counters {
                meters.push(
                    BudgetMeter {
                        name: "llm_rounds".to_owned(),
                        used: c.rounds,
                        limit: limits.max_llm_rounds,
                    },
                );
                meters.push(
                    BudgetMeter {
                        name: "llm_tokens".to_owned(),
                        used: c.tokens,
                        limit: limits.max_llm_tokens,
                    },
                );
                meters.push(
                    BudgetMeter {
                        name: "session_price_usd".to_owned(),
                        used: c.cost_usd_bits,
                        limit: limits.max_session_price_usd_bits,
                    },
                );
            }
        }
    }
    meters
}

/// The sink for which memories are chosen: the remote model unless the session
/// already holds what may not go there.
pub fn memory_query_sink(session_taint: EgressLabel) -> (r: Option<Sink>)
    ensures
        r == (if session_taint.permits(Sink::RemoteModel) {
            None
        } else {
            Some(Sink::LocalModel)
        }),
{
    if session_taint.allows(Sink::RemoteModel) {
        None
    } else {
        Some(Sink::LocalModel)
    }
}

// ---------------------------------------------------------------------------
// Laws
// ---------------------------------------------------------------------------

/// What joins texts begins with the first of them.
proof fn lemma_join_prefix(parts: Seq<Seq<char>>, sep: Seq<char>)
    requires
        parts.len() > 0,
    ensures
        text::begins_with(text::join(parts, sep), parts[0]),
    decreases parts.len(),
{
    let j = text::join(parts, sep);
    if parts.len() == 1 {
        reveal_with_fuel(text::join, 2);
        assert(j.subrange(0, parts[0].len() as int) =~= parts[0]);
    } else {
        let d = parts.drop_last();
        lemma_join_prefix(d, sep);
        assert(d[0] == parts[0]);
        let k = text::join(d, sep);
        assert(j == k + sep + parts.last());
        assert(k.subrange(0, parts[0].len() as int) == parts[0]);
        assert(j.subrange(0, parts[0].len() as int) =~= k.subrange(0, parts[0].len() as int));
    }
}

/// Every system prompt begins with the foundation of the agent, and so with its
/// core: nothing that is said later stands before it.
pub proof fn prompts_begin_with_the_foundation(
    instructions: Seq<char>,
    m: AgentManifest,
    l: FoundationLayers,
    policy: Option<&OutputPolicy>,
    x: PromptExtras<'_>,
)
    ensures
        text::begins_with(system_prompt(instructions, m, l, policy, x), foundation(m, l)),
        text::begins_with(system_prompt(instructions, m, l, policy, x), text::trim(l.core@)),
{
    let parts = prompt_parts(instructions, m, l, x);
    let f = foundation(m, l);
    lemma_join_prefix(parts, "\n\n"@);
    assert(parts[0] == f);
    let base = text::join(parts, "\n\n"@);
    let p = system_prompt(instructions, m, l, policy, x);
    assert(base.subrange(0, f.len() as int) == f);
    assert(p.subrange(0, base.len() as int) =~= base);
    assert(p.subrange(0, f.len() as int) =~= base.subrange(0, f.len() as int));
    let fp = foundation_parts(m, l);
    lemma_join_prefix(fp, "\n\n---\n\n"@);
    let c = text::trim(l.core@);
    assert(fp[0] == c);
    assert(f.subrange(0, c.len() as int) == c);
    assert(p.subrange(0, c.len() as int) =~= f.subrange(0, c.len() as int));
}

/// The projection times the tokens used is what is left times the turns: the
/// projected turns at the rate so far use up exactly what is left.
pub proof fn projections_use_up_the_budget(v: Seq<BudgetMeter>, turns: u64)
    ensures
        burn_rate(v, turns) matches Some(f) ==> {
            &&& f.tokens_per_turn.denominator == turns
            &&& (f.projected_turns_remaining is Some <==> f.remaining_tokens is Some
                && f.tokens_per_turn.numerator > 0)
            &&& f.projected_turns_remaining is Some ==> f.projected_turns_remaining->Some_0.numerator
                == f.remaining_tokens->Some_0 * turns
                && f.projected_turns_remaining->Some_0.denominator == f.tokens_per_turn.numerator
        },
{
    if let Some(f) = burn_rate(v, turns) {
        let m = token_meter(v)->Some_0;
        if let Some(rem) = remaining(m) {
            assert(0 <= rem * turns <= u128::MAX) by (nonlinear_arith)
                requires
                    0 <= rem <= u64::MAX,
                    0 <= turns <= u64::MAX,
            ;
        }
    }
}

proof fn lemma_part_if(parts: Seq<Seq<char>>, b: bool, p: Seq<char>, x: Seq<char>)
    ensures
        part_if(parts, b, p).contains(x) <==> parts.contains(x) || (b && x == p),
        part_if(parts, b, p).len() == parts.len() + (if b {
            1int
        } else {
            0
        }),
{
    text::lemma_push_contains(parts, p, x);
}

proof fn lemma_part_opt(parts: Seq<Seq<char>>, p: Option<Seq<char>>, x: Seq<char>)
    ensures
        part_opt(parts, p).contains(x) <==> parts.contains(x) || p == Some(x),
{
    if let Some(s) = p {
        text::lemma_push_contains(parts, s, x);
    }
}

/// An agent is told the layers that fit what it may do: workflows where it starts others or
/// is no script, artifacts where it writes, the rules of scripts where it is one, digests
/// where it writes them, and the library for scripts where it runs code, starts others or
/// judges code; and no more layers than these.
pub proof fn agents_are_told_the_layers_that_fit(
    m: AgentManifest,
    l: FoundationLayers,
    spawns_any: bool,
    writes_any: bool,
    digests_any: bool,
    runs_any: bool,
    judges: bool,
)
    requires
        spawns_any <==> exists|i: int|
            0 <= i < m.capabilities@.len() && (#[trigger] m.capabilities@[i]) is AgentSpawn,
        writes_any <==> exists|i: int|
            0 <= i < m.capabilities@.len() && (#[trigger] m.capabilities@[i]) is WriteAccess,
        digests_any <==> exists|i: int, k: int|
            0 <= i < m.capabilities@.len() && m.capabilities@[i] is WriteAccess && 0 <= k
                < m.capabilities@[i]->WriteAccess_scopes@.len() && (text::begins_with(
                (#[trigger] m.capabilities@[i]->WriteAccess_scopes@[k])@,
                "digest"@,
            ) || m.capabilities@[i]->WriteAccess_scopes@[k]@ == "*"@),
        runs_any <==> exists|i: int|
            0 <= i < m.capabilities@.len() && ((#[trigger] m.capabilities@[i]) is CodeExecution
                || m.capabilities@[i] is ArtifactExecution),
        judges <==> text::before_char(m.agent_id@, '.') == "architect"@ || text::before_char(
            m.agent_id@,
            '.',
        ) == "static_evaluator"@,
    ensures
        ({
            let script = m.execution_mode == ExecutionMode::Script;
            let f = foundation(m, l);
            &&& text::has_text(f, text::trim(l.core@))
            &&& spawns_any || !script ==> text::has_text(f, text::trim(l.workflow@))
            &&& writes_any ==> text::has_text(f, text::trim(l.artifact@))
            &&& script ==> text::has_text(f, text::trim(l.script@))
            &&& digests_any ==> text::has_text(f, text::trim(l.digest@))
            &&& runs_any || spawns_any || judges ==> text::has_text(f, text::trim(l.sdk@))
            &&& foundation_parts(m, l).len() == 1 + (if spawns_any || !script {
                1int
            } else {
                0
            }) + (if writes_any {
                1int
            } else {
                0
            }) + (if script {
                1int
            } else {
                0
            }) + (if digests_any {
                1int
            } else {
                0
            }) + (if runs_any || spawns_any || judges {
                1int
            } else {
                0
            })
        }),
{
    let caps = m.capabilities@;
    let script = m.execution_mode == ExecutionMode::Script;
    reveal_strlit("architect");
    reveal_strlit("static_evaluator");
    assert("architect"@.len() > 0 && "static_evaluator"@.len() > 0);
    assert(any_spawns(caps) == spawns_any) by {
        if spawns_any {
            let i = choose|i: int| 0 <= i < caps.len() && (#[trigger] caps[i]) is AgentSpawn;
            assert(spawns(caps[i]));
        }
        if any_spawns(caps) {
            let i = choose|i: int| 0 <= i < caps.len() && spawns(#[trigger] caps[i]);
            assert(caps[i] is AgentSpawn);
        }
    }
    assert(any_writes(caps) == writes_any) by {
        if writes_any {
            let i = choose|i: int| 0 <= i < caps.len() && (#[trigger] caps[i]) is WriteAccess;
            assert(writes(caps[i]));
        }
        if any_writes(caps) {
            let i = choose|i: int| 0 <= i < caps.len() && writes(#[trigger] caps[i]);
            assert(caps[i] is WriteAccess);
        }
    }
    assert(any_runs_code(caps) == runs_any) by {
        if runs_any {
            let i = choose|i: int|
                0 <= i < caps.len() && ((#[trigger] caps[i]) is CodeExecution
                    || caps[i] is ArtifactExecution);
            assert(runs_code(caps[i]));
        }
        if any_runs_code(caps) {
            let i = choose|i: int| 0 <= i < caps.len() && runs_code(#[trigger] caps[i]);
            assert(caps[i] is CodeExecution || caps[i] is ArtifactExecution);
        }
    }
    assert(any_writes_digests(caps) == digests_any) by {
        if digests_any {
            let (i, k) = choose|i: int, k: int|
                0 <= i < caps.len() && caps[i] is WriteAccess && 0 <= k
                    < caps[i]->WriteAccess_scopes@.len() && (text::begins_with(
                    (#[trigger] caps[i]->WriteAccess_scopes@[k])@,
                    "digest"@,
                ) || caps[i]->WriteAccess_scopes@[k]@ == "*"@);
            assert(covers_digests(caps[i]->WriteAccess_scopes@[k]@));
            assert(writes_digests(caps[i]));
        }
        if any_writes_digests(caps) {
            let i = choose|i: int| 0 <= i < caps.len() && writes_digests(#[trigger] caps[i]);
            let scopes = caps[i]->WriteAccess_scopes;
            let k = choose|k: int| 0 <= k < scopes@.len() && covers_digests(#[trigger] scopes@[k]@);
            assert(covers_digests(caps[i]->WriteAccess_scopes@[k]@));
        }
    }
    let core = text::trim(l.core@);
    let workflow = text::trim(l.workflow@);
    let artifact = text::trim(l.artifact@);
    let scr = text::trim(l.script@);
    let dig = text::trim(l.digest@);
    let sdk = text::trim(l.sdk@);
    let p0 = seq![core];
    let p1 = part_if(p0, spawns_any || !script, workflow);
    let p2 = part_if(p1, writes_any, artifact);
    let p3 = part_if(p2, script, scr);
    let p4 = part_if(p3, digests_any, dig);
    let p5 = part_if(p4, needs_sdk(m), sdk);
    assert(p5 == foundation_parts(m, l));
    assert(p0[0] == core);
    assert(p0.contains(core));
    assert forall|x: Seq<char>| #[trigger] p5.contains(x) == (p0.contains(x) || ((spawns_any || !script)
        && x == workflow) || (writes_any && x == artifact) || (script && x == scr) || (digests_any && x
        == dig) || (needs_sdk(m) && x == sdk)) by {
        lemma_part_if(p0, spawns_any || !script, workflow, x);
        lemma_part_if(p1, writes_any, artifact, x);
        lemma_part_if(p2, script, scr, x);
        lemma_part_if(p3, digests_any, dig, x);
        lemma_part_if(p4, needs_sdk(m), sdk, x);
    }
    lemma_part_if(p0, spawns_any || !script, workflow, core);
    lemma_part_if(p1, writes_any, artifact, core);
    lemma_part_if(p2, script, scr, core);
    lemma_part_if(p3, digests_any, dig, core);
    lemma_part_if(p4, needs_sdk(m), sdk, core);
    let sep = "\n\n---\n\n"@;
    assert(p5.contains(core));
    text::lemma_join_contains(p5, sep, core);
    if spawns_any || !script {
        assert(p5.contains(workflow));
        text::lemma_join_contains(p5, sep, workflow);
    }
    if writes_any {
        assert(p5.contains(artifact));
        text::lemma_join_contains(p5, sep, artifact);
    }
    if script {
        assert(p5.contains(scr));
        text::lemma_join_contains(p5, sep, scr);
    }
    if digests_any {
        assert(p5.contains(dig));
        text::lemma_join_contains(p5, sep, dig);
    }
    if needs_sdk(m) {
        assert(p5.contains(sdk));
        text::lemma_join_contains(p5, sep, sdk);
    }
}

/// A system prompt holds everything that there is to say: the agent's own instructions
/// where they are not blank, guidance that is not blank, the operator's persona and the
/// user's context, and how tools are bridged where the model needs it.
pub proof fn prompts_hold_everything_there_is_to_say(
    instructions: Seq<char>,
    m: AgentManifest,
    l: FoundationLayers,
    policy: Option<&OutputPolicy>,
    x: PromptExtras<'_>,
)
    ensures
        ({
            let p = system_prompt(instructions, m, l, policy, x);
            &&& !text::all_white(instructions) ==> text::has_text(p, text::trim(instructions))
                && text::has_text(p, "---\n\nAgent-Specific Instructions\n\n"@)
            &&& x.guidance matches Some(g) ==> !text::all_white(g@) ==> text::has_text(
                p,
                "---\n\nGuidance\n\n"@ + text::trim(g@),
            )
            &&& x.persona matches Some(g) ==> text::has_text(p, g@)
            &&& x.user_context matches Some(g) ==> text::has_text(p, g@)
            &&& m.needs_tool_bridging == Some(true) ==> text::has_text(p, TOOL_BRIDGING_APPENDIX@)
        }),
{
    let own = text::trim(instructions);
    let none = Seq::<char>::empty();
    text::lemma_trim_blank(instructions);
    let f = foundation(m, l);
    let g = guidance_section(x.guidance);
    let bridging = m.needs_tool_bridging == Some(true);
    let per = persona_section(x.persona);
    let ctx = match x.user_context {
        Some(s) => Some(s@),
        None => None,
    };
    let p0 = seq![f];
    let p1 = part_opt(p0, g);
    let p2 = part_if(p1, bridging, TOOL_BRIDGING_APPENDIX@);
    let p3 = part_opt(p2, per);
    let p4 = part_opt(p3, ctx);
    let head = "---\n\nAgent-Specific Instructions\n\n"@;
    let all = prompt_parts(instructions, m, l, x);
    assert forall|y: Seq<char>| #[trigger] all.contains(y) <== (g == Some(y) || (bridging && y
        == TOOL_BRIDGING_APPENDIX@) || per == Some(y) || ctx == Some(y) || (own.len() > 0 && (y == own
        || y == head))) by {
        lemma_part_opt(p0, g, y);
        lemma_part_if(p1, bridging, TOOL_BRIDGING_APPENDIX@, y);
        lemma_part_opt(p2, per, y);
        lemma_part_opt(p3, ctx, y);
        text::lemma_push_contains(p4, head, y);
        text::lemma_push_contains(p4.push(head), own, y);
    }
    if own.len() > 0 {
        assert(all.contains(own));
        assert(all.contains(head));
        lemma_in_prompt(instructions, m, l, policy, x, own);
        lemma_in_prompt(instructions, m, l, policy, x, head);
    }
    if let Some(s) = x.guidance {
        text::lemma_trim_blank(s@);
        if text::trim(s@).len() > 0 {
            let y = "---\n\nGuidance\n\n"@ + text::trim(s@);
            assert(all.contains(y));
            lemma_in_prompt(instructions, m, l, policy, x, y);
        }
    }
    if let Some(s) = x.persona {
        let y = per->Some_0;
        assert(all.contains(y));
        lemma_in_prompt(instructions, m, l, policy, x, y);
        let before =
            "---\n\nUser Persona\n\nThe operator has provided the following context about themselves. Adapt your communication style and assumptions accordingly, but never violate constitutional rules or agent-specific constraints.\n\n"@;
        text::lemma_has_text_around(before, s@, none);
        assert(before + s@ + none =~= y);
        text::lemma_has_text_trans(system_prompt(instructions, m, l, policy, x), y, s@);
    }
    if let Some(s) = x.user_context {
        assert(all.contains(s@));
        lemma_in_prompt(instructions, m, l, policy, x, s@);
    }
    if bridging {
        assert(all.contains(TOOL_BRIDGING_APPENDIX@));
        lemma_in_prompt(instructions, m, l, policy, x, TOOL_BRIDGING_APPENDIX@);
    }
}

proof fn lemma_in_prompt(
    instructions: Seq<char>,
    m: AgentManifest,
    l: FoundationLayers,
    policy: Option<&OutputPolicy>,
    x: PromptExtras<'_>,
    y: Seq<char>,
)
    requires
        prompt_parts(instructions, m, l, x).contains(y),
    ensures
        text::has_text(system_prompt(instructions, m, l, policy, x), y),
{
    let none = Seq::<char>::empty();
    let base = text::join(prompt_parts(instructions, m, l, x), "\n\n"@);
    text::lemma_join_contains(prompt_parts(instructions, m, l, x), "\n\n"@, y);
    if let Some(s) = contract_section(contract_lines(m.io_returns, policy)) {
        text::lemma_has_text_inside(base, y, none, "\n\n"@ + s);
        assert(none + base + ("\n\n"@ + s) =~= system_prompt(instructions, m, l, policy, x));
    }
}

/// A bound that an agent's answers must keep is told, with its figure, wherever the policy
/// sets it, and the schema of its answers is told in full.
pub proof fn prompts_tell_the_bounds_on_answers(
    instructions: Seq<char>,
    m: AgentManifest,
    l: FoundationLayers,
    policy: OutputPolicy,
    x: PromptExtras<'_>,
)
    ensures
        ({
            let p = system_prompt(instructions, m, l, Some(&policy), x);
            &&& policy.max_artifacts matches Some(n) ==> text::has_text(
                p,
                "- **max_artifacts**: "@ + text::decimal(n as nat),
            )
            &&& policy.max_total_size_mb matches Some(n) ==> text::has_text(
                p,
                "- **max_total_size_mb**: "@ + text::decimal(n as nat),
            )
            &&& policy.max_reply_length_chars matches Some(n) ==> text::has_text(
                p,
                "- **max_reply_length_chars**: "@ + text::decimal(n as nat),
            )
            &&& policy.min_artifact_builds matches Some(n) ==> text::has_text(
                p,
                "- **min_artifact_builds**: "@ + text::decimal(n as nat)
                    + " (durable `artifact.build` trace required)"@,
            )
            &&& policy.required_artifacts@.len() > 0 ==> text::has_text(
                p,
                "- **required_artifacts**: "@ + text::join(
                    policy.required_artifacts.deep_view(),
                    ", "@,
                ),
            )
            &&& policy.prohibited_text_patterns@.len() > 0 ==> text::has_text(
                p,
                "- **prohibited_text_patterns**: "@ + text::join(
                    policy.prohibited_text_patterns.deep_view(),
                    ", "@,
                ),
            )
            &&& text::has_text(
                p,
                "- **validation_max_loops**: "@ + text::decimal(policy.validation_max_loops as nat),
            )
        }),
{
    let lines = match m.io_returns {
        Some(s) => schema_lines(s@),
        None => Seq::empty(),
    };
    let c1 = policy.required_artifacts@.len() > 0;
    let s1 = "- **required_artifacts**: "@ + text::join(policy.required_artifacts.deep_view(), ", "@);
    let l0 = part_if(lines, c1, s1);
    let l1 = bound_line(l0, "- **max_artifacts**: "@, policy.max_artifacts, ""@);
    let l2 = bound_line(l1, "- **max_total_size_mb**: "@, policy.max_total_size_mb, ""@);
    let l3 = bound_line(l2, "- **max_reply_length_chars**: "@, policy.max_reply_length_chars, ""@);
    let t = " (durable `artifact.build` trace required)"@;
    let l4 = bound_line(l3, "- **min_artifact_builds**: "@, policy.min_artifact_builds, t);
    let c5 = policy.prohibited_text_patterns@.len() > 0;
    let s5 = "- **prohibited_text_patterns**: "@ + text::join(
        policy.prohibited_text_patterns.deep_view(),
        ", "@,
    );
    let l5 = part_if(l4, c5, s5);
    let s6 = "- **validation_max_loops**: "@ + text::decimal(policy.validation_max_loops as nat);
    let all = contract_lines(m.io_returns, Some(&policy));
    assert(all == l5.push(s6));
    assert forall|y: Seq<char>| #[trigger] all.contains(y) <== ((c1 && y == s1) || is_bound(
        y,
        "- **max_artifacts**: "@,
        policy.max_artifacts,
        ""@,
    ) || is_bound(y, "- **max_total_size_mb**: "@, policy.max_total_size_mb, ""@) || is_bound(
        y,
        "- **max_reply_length_chars**: "@,
        policy.max_reply_length_chars,
        ""@,
    ) || is_bound(y, "- **min_artifact_builds**: "@, policy.min_artifact_builds, t) || (c5 && y == s5)
        || y == s6) by {
        lemma_part_if(lines, c1, s1, y);
        lemma_bound_line(l0, "- **max_artifacts**: "@, policy.max_artifacts, ""@, y);
        lemma_bound_line(l1, "- **max_total_size_mb**: "@, policy.max_total_size_mb, ""@, y);
        lemma_bound_line(l2, "- **max_reply_length_chars**: "@, policy.max_reply_length_chars, ""@, y);
        lemma_bound_line(l3, "- **min_artifact_builds**: "@, policy.min_artifact_builds, t, y);
        lemma_part_if(l4, c5, s5, y);
        text::lemma_push_contains(l5, s6, y);
    }
    reveal_strlit("");
    if c1 {
        assert(all.contains(s1));
        lemma_in_contract(instructions, m, l, policy, x, s1);
    }
    if let Some(n) = policy.max_artifacts {
        let y = "- **max_artifacts**: "@ + text::decimal(n as nat);
        assert(y + ""@ =~= y);
        assert(all.contains(y));
        lemma_in_contract(instructions, m, l, policy, x, y);
    }
    if let Some(n) = policy.max_total_size_mb {
        let y = "- **max_total_size_mb**: "@ + text::decimal(n as nat);
        assert(y + ""@ =~= y);
        assert(all.contains(y));
        lemma_in_contract(instructions, m, l, policy, x, y);
    }
    if let Some(n) = policy.max_reply_length_chars {
        let y = "- **max_reply_length_chars**: "@ + text::decimal(n as nat);
        assert(y + ""@ =~= y);
        assert(all.contains(y));
        lemma_in_contract(instructions, m, l, policy, x, y);
    }
    if let Some(n) = policy.min_artifact_builds {
        let y = "- **min_artifact_builds**: "@ + text::decimal(n as nat) + t;
        assert(all.contains(y));
        lemma_in_contract(instructions, m, l, policy, x, y);
    }
    if c5 {
        assert(all.contains(s5));
        lemma_in_contract(instructions, m, l, policy, x, s5);
    }
    assert(all.contains(s6));
    lemma_in_contract(instructions, m, l, policy, x, s6);
}

spec fn is_bound(y: Seq<char>, before: Seq<char>, n: Option<u64>, after: Seq<char>) -> bool {
    n is Some && y == before + text::decimal(n->Some_0 as nat) + after
}

proof fn lemma_bound_line(
    lines: Seq<Seq<char>>,
    before: Seq<char>,
    n: Option<u64>,
    after: Seq<char>,
    y: Seq<char>,
)
    ensures
        bound_line(lines, before, n, after).contains(y) <==> lines.contains(y) || is_bound(
            y,
            before,
            n,
            after,
        ),
{
    if let Some(k) = n {
        text::lemma_push_contains(lines, before + text::decimal(k as nat) + after, y);
    }
}

proof fn lemma_in_contract(
    instructions: Seq<char>,
    m: AgentManifest,
    l: FoundationLayers,
    policy: OutputPolicy,
    x: PromptExtras<'_>,
    y: Seq<char>,
)
    requires
        contract_lines(m.io_returns, Some(&policy)).contains(y),
    ensures
        text::has_text(system_prompt(instructions, m, l, Some(&policy), x), y),
{
    let none = Seq::<char>::empty();
    let lines = contract_lines(m.io_returns, Some(&policy));
    let base = text::join(prompt_parts(instructions, m, l, x), "\n\n"@);
    let s = contract_section(lines)->Some_0;
    assert(lines.len() > 0);
    text::lemma_join_contains(lines, "\n"@, y);
    let head =
        "---\n\nYour Output Contract\n\nThe gateway will validate your final output against these constraints before returning it to the caller. Violating constraints triggers a repair prompt; repairs are bounded by the declared policy.\n\n"@;
    text::lemma_has_text_inside(text::join(lines, "\n"@), y, head, none);
    assert(head + text::join(lines, "\n"@) + none =~= s);
    text::lemma_has_text_inside(s, y, base + "\n\n"@, none);
    assert(base + "\n\n"@ + s + none =~= system_prompt(instructions, m, l, Some(&policy), x));
}

/// The schema of an agent's answers is told in full; where it requires or names properties,
/// so is a template of it.
pub proof fn prompts_tell_the_schema_of_answers(schema: JsonView)
    ensures
        schema_lines(schema).len() > 0,
        text::has_text(schema_lines(schema)[0], json::json_text(schema)),
        (json::field(schema, "required"@) matches Some(JsonView::List(s)) && s.len() > 0) || (
        json::field(schema, "properties"@) matches Some(JsonView::Object(p)) && p.len() > 0)
            ==> text::has_text(schema_lines(schema)[0], template_text(schema)),
{
    let compact = json::json_text(schema);
    let t = template_text(schema);
    let line = schema_lines(schema)[0];
    if says_something(schema) {
        let a =
            "- **io.returns** — your ENTIRE final reply must be a single raw JSON object matching this schema. No prose before or after the JSON, and no markdown code fences (no ```json blocks).\n  Schema: `"@;
        let b = "`\n  Template:\n  ```json\n  "@;
        let c = "\n  ```"@;
        assert(line == a + compact + b + t + c);
        text::lemma_has_text_around(a, compact, b + t + c);
        assert(a + compact + (b + t + c) =~= line);
        text::lemma_has_text_around(a + compact + b, t, c);
    } else {
        let a =
            "- **io.returns** — your final reply should be a single raw JSON object matching this schema, with no markdown code fences. Schema: `"@;
        text::lemma_has_text_around(a, compact, "`"@);
    }
}

/// A template has every property of its schema, under its name and in order, with what
/// stands for a value of its type: texts that are required say so.
pub proof fn templates_show_every_property(
    schema: JsonView,
    props: Seq<json::JsonFieldView>,
    i: int,
)
    requires
        0 <= i < props.len(),
    ensures
        ({
            let t = template_tree(schema, props);
            let ty = match json::text_field(props[i].value, "type"@) {
                Some(t) => t,
                None => "string"@,
            };
            let required = match json::field(schema, "required"@) {
                Some(JsonView::List(s)) => s.contains(JsonView::Text(props[i].key)),
                _ => false,
            };
            &&& t is Object
            &&& t->Object_0.len() == props.len()
            &&& t->Object_0[i].key == props[i].key
            &&& ty == "string"@ && required ==> t->Object_0[i].value == JsonView::Text(
                "(required)"@,
            )
            &&& ty == "string"@ && !required ==> t->Object_0[i].value == JsonView::Text("..."@)
            &&& ty == "boolean"@ ==> t->Object_0[i].value == JsonView::Bool(false)
            &&& ty == "integer"@ || ty == "number"@ ==> t->Object_0[i].value == JsonView::Number(
                "0"@,
            )
            &&& ty == "array"@ ==> t->Object_0[i].value == JsonView::List(Seq::empty())
            &&& ty == "object"@ ==> t->Object_0[i].value == JsonView::Object(Seq::empty())
        }),
{
    reveal_strlit("string");
    reveal_strlit("boolean");
    reveal_strlit("integer");
    reveal_strlit("number");
    reveal_strlit("array");
    reveal_strlit("object");
    assert("string"@.len() == 6 && "boolean"@.len() == 7 && "integer"@.len() == 7 && "number"@.len()
        == 6 && "array"@.len() == 5 && "object"@.len() == 6);
    assert("string"@[0] == 's');
    assert("number"@[0] == 'n');
    assert("object"@[0] == 'o');
    assert("boolean"@[0] == 'b');
    assert("integer"@[0] == 'i');
}

/// An agent of a restricted scope sees the user's preferences and constraints and nothing
/// else of the profile.
pub proof fn restricted_scopes_see_preferences_and_constraints(p: JsonView, key: Seq<char>)
    ensures
        json::field(restricted_profile(p), "preferences"@) == json::field(p, "preferences"@),
        json::field(restricted_profile(p), "constraints"@) == json::field(p, "constraints"@),
        key != "preferences"@ && key != "constraints"@ ==> json::field(restricted_profile(p), key) is None,
{
    reveal_strlit("preferences");
    reveal_strlit("constraints");
    assert("preferences"@[0] == 'p');
    assert("constraints"@[0] == 'c');
    reveal_with_fuel(json::first_field, 4);
}

/// The user's profile is told, within 2000 bytes and with the name of the scope, to an agent
/// whose scope covers it: not where the scope is the task alone, nor where nothing is left
/// to tell.
pub proof fn profiles_are_told_by_scope(profile: Seq<char>, scope: BindingScope, t: JsonView)
    requires
        json::parsed_json(profile) == Some(t),
    ensures
        scope == BindingScope::TaskOnly ==> user_context(Some(profile), scope) is None,
        scope == BindingScope::Full && !(t is Null) && t != JsonView::Object(Seq::empty()) ==> ({
            let c = user_context(Some(profile), scope);
            &&& c is Some
            &&& text::has_text(c->Some_0, "full"@)
            &&& text::byte_len(json::json_text(t)) <= 2000 ==> text::has_text(
                c->Some_0,
                json::json_text(t),
            )
        }),
        scope == BindingScope::Restricted && (json::field(t, "preferences"@) is Some || json::field(
            t,
            "constraints"@,
        ) is Some) ==> user_context(Some(profile), scope) is Some && text::has_text(
            user_context(Some(profile), scope)->Some_0,
            "restricted"@,
        ),
        user_context(None, scope) is None,
{
    let none = Seq::<char>::empty();
    restricted_scopes_see_preferences_and_constraints(t, none);
    let a = "---\n\nUser Profile Context\n\nYou have access to this user's profile data (scope: "@;
    let b = "). Use it to personalize your behavior.\n\n```json\n"@;
    let e = "\n```"@;
    if scope == BindingScope::Restricted && (json::field(t, "preferences"@) is Some || json::field(
        t,
        "constraints"@,
    ) is Some) {
        let r = restricted_profile(t);
        if r == JsonView::Object(Seq::empty()) {
            assert(json::field(r, "preferences"@) is None);
            assert(json::field(r, "constraints"@) is None);
        }
        let s = shortened(json::json_text(r), 2000, "..."@);
        text::lemma_has_text_around(a, "restricted"@, b + s + e);
        assert(a + "restricted"@ + (b + s + e) =~= a + "restricted"@ + b + s + e);
    }
    if scope == BindingScope::Full && !(t is Null) && t != JsonView::Object(Seq::empty()) {
        let s = shortened(json::json_text(t), 2000, "..."@);
        let all = a + "full"@ + b + s + e;
        assert(user_context(Some(profile), scope) == Some(all));
        text::lemma_has_text_around(a, "full"@, b + s + e);
        assert(a + "full"@ + (b + s + e) =~= all);
        text::lemma_has_text_around(a + "full"@ + b, s, e);
    }
}

/// The notice of a degraded session names every rule, the event and its evidence, which is
/// the event's payload where it has one; without a rule or evidence there is none.
pub proof fn degradation_notices_name_their_cause(e: CausalEventRecord)
    ensures
        e.enforced_rules@.len() == 0 || (e.payload is None && e.reason is None) <==> degradation_notice(
            e,
        ) is Err,
        degradation_notice(e) matches Ok(s) ==> {
            &&& text::has_text(s, "\nEvidence Event: "@ + e.event_id@)
            &&& e.payload matches Some(p) ==> text::has_text(s, "\nEvidence: "@ + p@ + "\n"@)
            &&& forall|i: int|
                0 <= i < e.enforced_rules@.len() ==> text::has_text(
                    s,
                    (#[trigger] e.enforced_rules@[i])@,
                )
        },
        degradation_notice(e) matches Err(s) ==> text::has_text(s, e.event_id@),
{
    let none = Seq::<char>::empty();
    if let Ok(s) = degradation_notice(e) {
        let v = evidence(e)->Some_0;
        let a =
            "---\n\nDegradation Notice (Ri-0.5)\n\nThis session is in degraded mode before this turn executes.\nRule IDs: "@;
        let rules = e.enforced_rules.deep_view();
        let r = text::join(rules, ", "@);
        let ev = "\nEvidence Event: "@ + e.event_id@;
        let evd = "\nEvidence: "@ + v + "\n"@;
        assert(s == a + r + "\nEvidence Event: "@ + e.event_id@ + "\nEvidence: "@ + v + "\n"@);
        text::lemma_has_text_around(a + r, ev, evd);
        assert(a + r + ev + evd =~= s);
        text::lemma_has_text_around(a + r + ev, evd, none);
        assert(a + r + ev + evd + none =~= s);
        assert forall|i: int| 0 <= i < e.enforced_rules@.len() implies text::has_text(
            s,
            (#[trigger] e.enforced_rules@[i])@,
        ) by {
            assert(rules[i] == e.enforced_rules@[i]@);
            text::lemma_join_has(rules, ", "@, i);
            text::lemma_has_text_inside(r, rules[i], a, ev + evd);
            assert(a + r + (ev + evd) =~= s);
        }
    } else {
        let a = "Ri-0.5 violation: session.degraded event '"@;
        let b = "' has no enforced rule IDs"@;
        let c = "' has no evidence payload"@;
        text::lemma_has_text_around(a, e.event_id@, b);
        text::lemma_has_text_around(a, e.event_id@, c);
    }
}

/// A session is degraded by the first of its own events that says so, or else by the first
/// of its root's.
pub proof fn sessions_are_degraded_by_the_first_event(
    session_id: Seq<char>,
    own: Seq<CausalEventRecord>,
    root: Option<Seq<CausalEventRecord>>,
    i: int,
)
    requires
        0 <= i < own.len(),
        own[i].category@ == "session"@,
        own[i].action@ == "session.degraded"@,
        forall|k: int|
            0 <= k < i ==> !((#[trigger] own[k]).category@ == "session"@ && own[k].action@
                == "session.degraded"@),
    ensures
        degradation_of(session_id, own, root) == Some(own[i]),
{
    lemma_first_degradation(own, i);
}

/// A session that has no such event of its own and is no root takes that of its root.
pub proof fn sessions_are_degraded_with_their_root(
    session_id: Seq<char>,
    own: Seq<CausalEventRecord>,
    root: Seq<CausalEventRecord>,
    i: int,
)
    requires
        0 <= i < root.len(),
        root[i].category@ == "session"@,
        root[i].action@ == "session.degraded"@,
        forall|k: int|
            0 <= k < i ==> !((#[trigger] root[k]).category@ == "session"@ && root[k].action@
                == "session.degraded"@),
        forall|k: int|
            0 <= k < own.len() ==> !((#[trigger] own[k]).category@ == "session"@ && own[k].action@
                == "session.degraded"@),
        session_id.contains('/'),
    ensures
        degradation_of(session_id, own, Some(root)) == Some(root[i]),
{
    lemma_first_degradation(root, i);
    lemma_no_degradation(own);
    lemma_before_char_shorter(session_id, '/');
}

proof fn lemma_before_char_shorter(s: Seq<char>, c: char)
    requires
        s.contains(c),
    ensures
        text::before_char(s, c).len() < s.len(),
    decreases s.len(),
{
    if s[0] != c {
        let rest = s.subrange(1, s.len() as int);
        let i = choose|i: int| 0 <= i < s.len() && s[i] == c;
        assert(rest[i - 1] == c);
        lemma_before_char_shorter(rest, c);
    }
}

proof fn lemma_first_degradation(v: Seq<CausalEventRecord>, i: int)
    requires
        0 <= i < v.len(),
        is_degradation(v[i]),
        forall|k: int|
            0 <= k < i ==> !((#[trigger] v[k]).category@ == "session"@ && v[k].action@
                == "session.degraded"@),
    ensures
        first_degradation(v) == Some(v[i]),
    decreases v.len(),
{
    if i > 0 {
        assert(!is_degradation(v[0]));
        let rest = v.subrange(1, v.len() as int);
        assert forall|k: int| 0 <= k < i - 1 implies !((#[trigger] rest[k]).category@ == "session"@
            && rest[k].action@ == "session.degraded"@) by {
            assert(rest[k] == v[k + 1]);
        }
        lemma_first_degradation(rest, i - 1);
    }
}

proof fn lemma_no_degradation(v: Seq<CausalEventRecord>)
    requires
        forall|k: int|
            0 <= k < v.len() ==> !((#[trigger] v[k]).category@ == "session"@ && v[k].action@
                == "session.degraded"@),
    ensures
        first_degradation(v) is None,
    decreases v.len(),
{
    if v.len() > 0 {
        assert(!is_degradation(v[0]));
        let rest = v.subrange(1, v.len() as int);
        assert forall|k: int| 0 <= k < rest.len() implies !((#[trigger] rest[k]).category@
            == "session"@ && rest[k].action@ == "session.degraded"@) by {
            assert(rest[k] == v[k + 1]);
        }
        lemma_no_degradation(rest);
    }
}

/// A degraded session is always told so, and a session that is not is told nothing.
pub proof fn degraded_sessions_are_told(
    state: SessionState,
    session_id: Seq<char>,
    events: Option<DegradationEvents>,
)
    ensures
        state != SessionState::Degraded ==> degradation_tail(state, session_id, events) == Ok::<
            Option<Seq<char>>,
            Seq<char>,
        >(None),
        state == SessionState::Degraded ==> degradation_tail(state, session_id, events) != Ok::<
            Option<Seq<char>>,
            Seq<char>,
        >(None),
        state == SessionState::Degraded && events is None ==> text::has_text(
            degradation_tail(state, session_id, events)->Ok_0->Some_0,
            session_id,
        ),
{
    if state == SessionState::Degraded && events is None {
        text::lemma_has_text_around(
            "[Ri-0.5 DEGRADED NOTICE] Session '"@,
            session_id,
            "' is in degraded mode. Trigger evidence unavailable (no gateway store)."@,
        );
    }
}

/// The requests that are attested as escalations are exactly those that ask for one, in
/// order; all requests are attested as pending approvals.
pub proof fn escalations_are_attested(v: Seq<PendingRequest>)
    ensures
        escalations(v) == v.filter(|p: PendingRequest| p.action is SessionEscalate).map_values(
            |p: PendingRequest| p.request_id@,
        ),
        request_ids(v).len() == v.len(),
        forall|i: int| 0 <= i < v.len() ==> request_ids(v)[i] == (#[trigger] v[i]).request_id@,
    decreases v.len(),
{
    reveal(Seq::filter);
    let esc = |p: PendingRequest| p.action is SessionEscalate;
    let id = |p: PendingRequest| p.request_id@;
    if v.len() > 0 {
        escalations_are_attested(v.drop_last());
        assert(escalations(v) =~= v.filter(esc).map_values(id));
    } else {
        assert(escalations(v) =~= v.filter(esc).map_values(id));
    }
}

/// The forecast of a session goes by its first meter of tokens: the tokens that it counts
/// over the turns so far, and what its limit leaves, which is nothing where it is exceeded.
pub proof fn forecasts_go_by_the_token_meter(v: Seq<BudgetMeter>, turns: u64, i: int)
    requires
        turns > 0,
        0 <= i < v.len(),
        v[i].name@ == "llm_tokens"@,
        forall|k: int| 0 <= k < i ==> (#[trigger] v[k]).name@ != "llm_tokens"@,
    ensures
        burn_rate(v, turns) matches Some(f) && {
            &&& f.tokens_per_turn.numerator == v[i].used
            &&& f.tokens_per_turn.denominator == turns
            &&& v[i].limit is None ==> f.remaining_tokens is None
            &&& v[i].limit matches Some(l) ==> f.remaining_tokens == Some(
                if l >= v[i].used {
                    (l - v[i].used) as u64
                } else {
                    0
                },
            )
        },
{
    lemma_token_meter(v, i);
}

proof fn lemma_token_meter(v: Seq<BudgetMeter>, i: int)
    requires
        0 <= i < v.len(),
        v[i].name@ == "llm_tokens"@,
        forall|k: int| 0 <= k < i ==> (#[trigger] v[k]).name@ != "llm_tokens"@,
    ensures
        token_meter(v) == Some(v[i]),
    decreases v.len(),
{
    if i > 0 {
        assert(v[0].name@ != "llm_tokens"@);
        let rest = v.subrange(1, v.len() as int);
        assert forall|k: int| 0 <= k < i - 1 implies (#[trigger] rest[k]).name@ != "llm_tokens"@ by {
            assert(rest[k] == v[k + 1]);
        }
        lemma_token_meter(rest, i - 1);
    }
}

/// What a user is shown of a workflow begins with its status, which is the first line of
/// the summary where that is not blank.
pub proof fn workflow_messages_begin_with_the_status(summary: Seq<char>, quiet: bool)
    ensures
        text::begins_with(workflow_message(summary, quiet), "**Workflow status:** "@),
        !text::all_white(text::before_char(summary, '\n')) ==> text::has_text(
            workflow_message(summary, quiet),
            "**Workflow status:** "@ + text::trim(text::before_char(summary, '\n')),
        ),
        text::all_white(text::before_char(summary, '\n')) ==> text::has_text(
            workflow_message(summary, quiet),
            "**Workflow status:** "@ + "Workflow updated."@,
        ),
{
    let none = Seq::<char>::empty();
    let first = text::before_char(summary, '\n');
    text::lemma_trim_blank(first);
    let m = workflow_message(summary, quiet);
    let head = "**Workflow status:** "@ + headline(summary);
    let rest = m.subrange(head.len() as int, m.len() as int);
    text::lemma_has_text_around(none, head, rest);
    assert(none + head + rest =~= m);
    let n = "**Workflow status:** "@.len() as int;
    assert(m.subrange(0, n) =~= "**Workflow status:** "@);
}

/// An attestation tells its subject, the root of its session, everything that is pending,
/// the meters, and the forecast that goes by them; what could not be asked is empty.
pub proof fn attestations_tell_what_is_pending(
    a: AttestationInputs,
    subject: AttestationSubject,
    reads: AttestationReads,
    meters: Vec<BudgetMeter>,
    i: int,
)
    requires
        attests(a, subject, reads, meters),
    ensures
        a.subject == subject,
        a.budget_meters == meters,
        a.burn_rate == burn_rate(meters@, subject.turn_counter),
        subject.session_id matches Some(s) ==> a.root_session_id is Some
            && a.root_session_id->Some_0@ == text::before_char(s@, '/'),
        reads.requests matches Some(v) ==> a.pending_approval_ids@.len() == v@.len() && (0 <= i
            < v@.len() ==> a.pending_approval_ids@[i]@ == v@[i].request_id@ && (
        v@[i].action is SessionEscalate ==> a.pending_escalation_ids.deep_view().contains(
            v@[i].request_id@,
        ))),
        reads.requests is None ==> a.pending_approval_ids@.len() == 0
            && a.pending_escalation_ids@.len() == 0,
        reads.interaction_ids matches Some(v) ==> a.pending_user_interaction_ids == v,
        reads.civic matches Some(c) ==> a.pending_proposal_ids == c.proposal_ids
            && a.pending_flag_ids == c.flag_ids && a.pending_invitations == c.invitations,
        reads.civic is None ==> a.pending_proposal_ids@.len() == 0 && a.pending_flag_ids@.len() == 0
            && a.pending_invitations@.len() == 0,
{
    let ids = a.pending_approval_ids.deep_view();
    let esc = a.pending_escalation_ids.deep_view();
    assert(ids.len() == a.pending_approval_ids@.len());
    assert(esc.len() == a.pending_escalation_ids@.len());
    if let Some(v) = reads.requests {
        escalations_are_attested(v@);
        if 0 <= i < v@.len() {
            assert(ids[i] == request_ids(v@)[i]);
            if v@[i].action is SessionEscalate {
                lemma_escalation(v@, i);
            }
        }
    }
}

proof fn lemma_escalation(v: Seq<PendingRequest>, i: int)
    requires
        0 <= i < v.len(),
        v[i].action is SessionEscalate,
    ensures
        escalations(v).contains(v[i].request_id@),
    decreases v.len(),
{
    let d = v.drop_last();
    let before = escalations(d);
    let now = escalations(v);
    if i == v.len() - 1 {
        assert(now[before.len() as int] == v[i].request_id@);
    } else {
        assert(d[i] == v[i]);
        lemma_escalation(d, i);
        let k = choose|k: int| 0 <= k < before.len() && before[k] == v[i].request_id@;
        assert(now[k] == v[i].request_id@);
    }
}

} // verus!
