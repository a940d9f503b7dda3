//! Excerpts of code, and a summary of its risks, for the operator to judge by.

use crate::text;
use vstd::prelude::*;

verus! {

/// Bytes that all excerpts together may take.
pub const MAX_TOTAL_BYTES: usize = 131_072;

/// Bytes that one excerpt may take.
pub const MAX_PER_FILE_BYTES: usize = 32_768;

/// Bytes that the head of a cut body may take.
pub const HEAD_BYTES: usize = 16_384;

/// Bytes that the tail of a cut body takes, up to a character.
pub const TAIL_BYTES: usize = 8_192;

/// Number of excerpts.
pub const MAX_FILES: usize = 5;

// ---------------------------------------------------------------------------
// Languages
// ---------------------------------------------------------------------------

/// The language of a file, by the ending of its name.
pub open spec fn language_of(path: Seq<char>) -> Seq<char> {
    if text::finishes_with(path, ".py"@) || text::finishes_with(path, ".python"@) {
        "python"@
    } else if text::finishes_with(path, ".js"@) || text::finishes_with(path, ".mjs"@)
        || text::finishes_with(path, ".cjs"@) {
        "javascript"@
    } else if text::finishes_with(path, ".ts"@) || text::finishes_with(path, ".tsx"@) {
        "typescript"@
    } else if text::finishes_with(path, ".rs"@) {
        "rust"@
    } else if text::finishes_with(path, ".go"@) {
        "go"@
    } else if text::finishes_with(path, ".sh"@) || text::finishes_with(path, ".bash"@)
        || text::finishes_with(path, ".zsh"@) {
        "bash"@
    } else if text::finishes_with(path, ".yaml"@) || text::finishes_with(path, ".yml"@) {
        "yaml"@
    } else if text::finishes_with(path, ".json"@) {
        "json"@
    } else if text::finishes_with(path, ".md"@) || text::finishes_with(path, ".markdown"@) {
        "markdown"@
    } else if text::finishes_with(path, ".html"@) || text::finishes_with(path, ".htm"@) {
        "html"@
    } else if text::finishes_with(path, ".css"@) {
        "css"@
    } else if text::finishes_with(path, ".toml"@) {
        "toml"@
    } else {
        "text"@
    }
}

/// The language of a file, by the ending of its name.
pub fn language_from_path(path: &str) -> (r: String)
    ensures
        r@ == language_of(path@),
{
    let name = if text::ends_with(path, ".py") || text::ends_with(path, ".python") {
        "python"
    } else if text::ends_with(path, ".js") || text::ends_with(path, ".mjs") || text::ends_with(
        path,
        ".cjs",
    ) {
        "javascript"
    } else if text::ends_with(path, ".ts") || text::ends_with(path, ".tsx") {
        "typescript"
    } else if text::ends_with(path, ".rs") {
        "rust"
    } else if text::ends_with(path, ".go") {
        "go"
    } else if text::ends_with(path, ".sh") || text::ends_with(path, ".bash") || text::ends_with(
        path,
        ".zsh",
    ) {
        "bash"
    } else if text::ends_with(path, ".yaml") || text::ends_with(path, ".yml") {
        "yaml"
    } else if text::ends_with(path, ".json") {
        "json"
    } else if text::ends_with(path, ".md") || text::ends_with(path, ".markdown") {
        "markdown"
    } else if text::ends_with(path, ".html") || text::ends_with(path, ".htm") {
        "html"
    } else if text::ends_with(path, ".css") {
        "css"
    } else if text::ends_with(path, ".toml") {
        "toml"
    } else {
        "text"
    };
    name.to_owned()
}

/// A file is source that runs, by its name in lower case: no test, fixture, spec
/// or lock file, and not hidden.
pub open spec fn is_source(lowered: Seq<char>) -> bool {
    !text::has_text(lowered, "test"@) && !text::has_text(lowered, "fixture"@) && !text::has_text(
        lowered,
        "spec"@,
    ) && !text::has_text(lowered, "lock"@) && !text::begins_with(lowered, "."@)
}

/// Whether a file is source that runs. `lowered` is its name in lower case.
pub fn is_executable_name(lowered: &str) -> (r: bool)
    ensures
        r == is_source(lowered@),
{
    !text::contains(lowered, "test") && !text::contains(lowered, "fixture") && !text::contains(
        lowered,
        "spec",
    ) && !text::contains(lowered, "lock") && !text::starts_with(lowered, ".")
}

/// Whether a file is source that runs.
pub fn is_executable_source(name: &str) -> (r: bool)
    ensures
        r == is_source(text::lower_text(name@)),
        text::is_ascii(name@) ==> r == is_source(text::lower_ascii(name@)),
{
    is_executable_name(text::lowered(name).as_str())
}

// ---------------------------------------------------------------------------
// Bounds
// ---------------------------------------------------------------------------

/// A body cut to its head and its tail, with a mark between them.
pub open spec fn cut(content: Seq<char>) -> Seq<char> {
    let size = text::byte_len(content);
    let head = text::fitting(content, HEAD_BYTES as nat) as int;
    let tail = text::fitting(content, (size - TAIL_BYTES) as nat) as int;
    content.subrange(0, head) + "…\n/* --- truncated "@ + text::decimal(
        (size - MAX_PER_FILE_BYTES) as nat,
    ) + " bytes --- */\n\n"@ + content.subrange(tail, content.len() as int)
}

/// A body that is too long for an excerpt.
pub open spec fn too_long(content: Seq<char>) -> bool {
    text::byte_len(content) > MAX_PER_FILE_BYTES
}

/// A body as an excerpt shows it.
pub open spec fn bounded(content: Seq<char>) -> Seq<char> {
    if too_long(content) {
        cut(content)
    } else {
        content
    }
}

/// Cuts a body that is too long to its head and its tail. Returns it with
/// whether it was cut, and its size where it was.
pub fn bound_content(content: &str) -> (r: (String, bool, Option<usize>))
    ensures
        r.0@ == bounded(content@),
        r.1 == too_long(content@),
        r.2 == (if too_long(content@) {
            Some(text::byte_len(content@) as usize)
        } else {
            None
        }),
{
    let size = text::byte_count(content);
    if size <= MAX_PER_FILE_BYTES {
        return (content.to_owned(), false, None);
    }
    let v = text::chars_of(content);
    let head = text::fitting_count(&v, HEAD_BYTES);
    let tail = text::fitting_count(&v, size - TAIL_BYTES);
    let mut out = text::string_of(&v, 0, head);
    out.append("…\n/* --- truncated ");
    out.append(text::decimal_string((size - MAX_PER_FILE_BYTES) as u64).as_str());
    out.append(" bytes --- */\n\n");
    out.append(text::string_of(&v, tail, v.len()).as_str());
    (out, true, Some(size))
}

proof fn lemma_concat_len(a: Seq<char>, b: Seq<char>)
    ensures
        text::byte_len(a + b) == text::byte_len(a) + text::byte_len(b),
{
    text::lemma_encode_concat(a, b);
}

/// An excerpt never takes more bytes than one may.
pub proof fn excerpts_stay_within_the_file_limit(content: Seq<char>)
    requires
        text::byte_len(content) <= u64::MAX,
    ensures
        text::byte_len(bounded(content)) <= MAX_PER_FILE_BYTES,
{
    if too_long(content) {
        let size = text::byte_len(content);
        let n = (size - TAIL_BYTES) as nat;
        let head = content.subrange(0, text::fitting(content, HEAD_BYTES as nat) as int);
        let k = text::fitting(content, n) as int;
        let tail = content.subrange(k, content.len() as int);
        let digits = text::decimal((size - MAX_PER_FILE_BYTES) as nat);
        text::lemma_fitting_bounds(content, HEAD_BYTES as nat);
        text::lemma_fitting_bounds(content, n);
        text::lemma_fitting_tight(content, n);
        let before = content.subrange(0, k);
        lemma_concat_len(before, tail);
        assert(before + tail =~= content);
        let a = "…\n/* --- truncated "@;
        let b = " bytes --- */\n\n"@;
        reveal_strlit("…\n/* --- truncated ");
        reveal_strlit(" bytes --- */\n\n");
        text::lemma_byte_len_bound(a);
        text::lemma_byte_len_bound(b);
        text::lemma_byte_len_bound(digits);
        text::lemma_decimal_len((size - MAX_PER_FILE_BYTES) as nat);
        lemma_concat_len(head, a);
        lemma_concat_len(head + a, digits);
        lemma_concat_len(head + a + digits, b);
        lemma_concat_len(head + a + digits + b, tail);
    }
}

// ---------------------------------------------------------------------------
// Excerpts
// ---------------------------------------------------------------------------

/// Code that an approval shows.
#[derive(Debug)]
pub struct CodeExcerpt {
    pub file_name: String,
    pub content: String,
    pub language: String,
    pub size_bytes: usize,
    pub truncated: bool,
    pub truncated_from_bytes: Option<usize>,
}

/// The mathematical model of a [`CodeExcerpt`].
pub struct ExcerptView {
    pub file_name: Seq<char>,
    pub content: Seq<char>,
    pub language: Seq<char>,
    pub size_bytes: usize,
    pub truncated: bool,
    pub truncated_from_bytes: Option<usize>,
}

impl View for CodeExcerpt {
    type V = ExcerptView;

    open spec fn view(&self) -> ExcerptView {
        ExcerptView {
            file_name: self.file_name@,
            content: self.content@,
            language: self.language@,
            size_bytes: self.size_bytes,
            truncated: self.truncated,
            truncated_from_bytes: self.truncated_from_bytes,
        }
    }
}

/// The excerpt of a body.
pub open spec fn excerpt_of(
    name: Seq<char>,
    language: Seq<char>,
    size: usize,
    body: Seq<char>,
) -> ExcerptView {
    ExcerptView {
        file_name: name,
        content: bounded(body),
        language,
        size_bytes: size,
        truncated: too_long(body),
        truncated_from_bytes: if too_long(body) {
            Some(text::byte_len(body) as usize)
        } else {
            None
        },
    }
}

/// The language of a script: by its name where that tells, else as hinted.
pub open spec fn script_language(file_name: Option<&str>, hint: Seq<char>) -> Seq<char> {
    match file_name {
        Some(n) => if language_of(n@) != "text"@ {
            language_of(n@)
        } else {
            hint
        },
        None => hint,
    }
}

/// The excerpt of a script that runs without an artifact: nothing where the
/// script is blank.
pub fn script_code_excerpt(file_name: Option<&str>, content: &str, language_hint: &str) -> (r: Option<
    CodeExcerpt,
>)
    ensures
        match r {
            Some(e) => text::trim(content@).len() > 0 && e@ == excerpt_of(
                match file_name {
                    Some(n) => n@,
                    None => "<inline>"@,
                },
                script_language(file_name, language_hint@),
                text::byte_len(text::trim(content@)) as usize,
                text::trim(content@),
            ),
            None => text::trim(content@).len() == 0,
        },
{
    let body = text::trimmed(content);
    if text::is_blank(content) {
        return None;
    }
    let language = match file_name {
        Some(n) => {
            let l = language_from_path(n);
            if text::text_eq(l.as_str(), "text") {
                language_hint.to_owned()
            } else {
                l
            }
        },
        None => language_hint.to_owned(),
    };
    let size = text::byte_count(body.as_str());
    let (bounded, truncated, truncated_from_bytes) = bound_content(body.as_str());
    Some(
        CodeExcerpt {
            file_name: match file_name {
                Some(n) => n.to_owned(),
                None => "<inline>".to_owned(),
            },
            content: bounded,
            language,
            size_bytes: size,
            truncated,
            truncated_from_bytes,
        },
    )
}

/// A file of an artifact.
#[derive(Debug)]
pub struct ArtifactFile {
    pub name: String,
    pub content: Vec<u8>,
}

/// A file of an artifact that was read as text.
#[derive(Debug)]
pub struct ReadFile {
    pub name: String,
    /// The name in lower case.
    pub lowered_name: String,
    /// The size of the file as it is stored.
    pub size_bytes: usize,
    pub text: String,
}

/// The mathematical model of a [`ReadFile`].
pub struct ReadFileView {
    pub name: Seq<char>,
    pub lowered_name: Seq<char>,
    pub size_bytes: usize,
    pub text: Seq<char>,
}

impl View for ReadFile {
    type V = ReadFileView;

    open spec fn view(&self) -> ReadFileView {
        ReadFileView {
            name: self.name@,
            lowered_name: self.lowered_name@,
            size_bytes: self.size_bytes,
            text: self.text@,
        }
    }
}

/// The models of a list of files.
pub open spec fn read_views(v: Seq<ReadFile>) -> Seq<ReadFileView> {
    v.map_values(|f: ReadFile| f@)
}

/// A stored file, read as text.
pub open spec fn read_as(f: ArtifactFile) -> ReadFileView {
    ReadFileView {
        name: f.name@,
        lowered_name: text::lower_text(f.name@),
        size_bytes: f.content@.len() as usize,
        text: text::lossy_text(f.content@),
    }
}

/// Stored files, read as text.
pub open spec fn all_read(files: Seq<ArtifactFile>) -> Seq<ReadFileView> {
    files.map_values(|f: ArtifactFile| read_as(f))
}

/// The models of a list of excerpts.
pub open spec fn excerpt_views(v: Seq<CodeExcerpt>) -> Seq<ExcerptView> {
    v.map_values(|e: CodeExcerpt| e@)
}

/// The excerpts of the files from the first on, where `taken` excerpts of
/// `total` bytes stand already: of source files alone, up to the number and the
/// size that excerpts may have. The first that would be too much ends the list.
pub open spec fn excerpts_from(files: Seq<ReadFileView>, taken: nat, total: nat) -> Seq<ExcerptView>
    decreases files.len(),
{
    if files.len() == 0 || taken >= MAX_FILES {
        Seq::empty()
    } else {
        let f = files[0];
        let rest = files.subrange(1, files.len() as int);
        let size = text::byte_len(bounded(f.text));
        if !is_source(f.lowered_name) {
            excerpts_from(rest, taken, total)
        } else if total + size > MAX_TOTAL_BYTES {
            Seq::empty()
        } else {
            seq![excerpt_of(f.name, language_of(f.name), f.size_bytes, f.text)] + excerpts_from(
                rest,
                taken + 1,
                total + size,
            )
        }
    }
}

/// The excerpts of files that were read as text; nothing where there is none.
pub fn excerpts_of_files(files: &Vec<ReadFile>) -> (r: Option<Vec<CodeExcerpt>>)
    ensures
        match r {
            Some(v) => v@.len() > 0 && excerpt_views(v@) == excerpts_from(
                read_views(files@),
                0,
                0,
            ),
            None => excerpts_from(read_views(files@), 0, 0).len() == 0,
        },
{
    let ghost all = read_views(files@);
    let ghost whole = excerpts_from(all, 0, 0);
    let mut out: Vec<CodeExcerpt> = Vec::new();
    let mut total: usize = 0;
    let mut i: usize = 0;
    assert(all.subrange(0, all.len() as int) =~= all);
    assert(excerpt_views(out@) + whole =~= whole);
    while i < files.len()
        invariant_except_break
            excerpt_views(out@) + excerpts_from(
                all.subrange(i as int, all.len() as int),
                out@.len(),
                total as nat,
            ) == whole,
        invariant
            i <= files@.len(),
            all == read_views(files@),
            total <= MAX_TOTAL_BYTES,
        ensures
            excerpt_views(out@) == whole,
        decreases files@.len() - i,
    {
        let ghost rest = all.subrange(i as int, all.len() as int);
        let ghost before = out@;
        proof {
            assert(rest[0] == files@[i as int]@);
            assert(rest.subrange(1, rest.len() as int) =~= all.subrange(i + 1, all.len() as int));
        }
        if out.len() >= MAX_FILES {
            assert(excerpt_views(out@) + Seq::<ExcerptView>::empty() =~= excerpt_views(out@));
            break ;
        }
        let f = &files[i];
        if !is_executable_name(f.lowered_name.as_str()) {
            i = i + 1;
            continue ;
        }
        let (bounded_text, truncated, truncated_from_bytes) = bound_content(f.text.as_str());
        let size = text::byte_count(bounded_text.as_str());
        if size > MAX_TOTAL_BYTES - total {
            assert(excerpt_views(out@) + Seq::<ExcerptView>::empty() =~= excerpt_views(out@));
            break ;
        }
        let e = CodeExcerpt {
            file_name: f.name.clone(),
            content: bounded_text,
            language: language_from_path(f.name.as_str()),
            size_bytes: f.size_bytes,
            truncated,
            truncated_from_bytes,
        };
        out.push(e);
        proof {
            let tail = excerpts_from(
                rest.subrange(1, rest.len() as int),
                out@.len(),
                (total + size) as nat,
            );
            assert(excerpt_views(out@) =~= excerpt_views(before).push(e@));
            assert(excerpt_views(out@) + tail =~= excerpt_views(before) + (seq![e@] + tail));
        }
        total = total + size;
        i = i + 1;
        proof {
            if i == files@.len() {
                assert(excerpt_views(out@) + Seq::<ExcerptView>::empty() =~= excerpt_views(out@));
            }
        }
    }
    assert(out@.len() == excerpt_views(out@).len());
    if out.len() == 0 {
        None
    } else {
        Some(out)
    }
}

/// Reads stored files as text.
fn read_files(files: &Vec<ArtifactFile>) -> (r: Vec<ReadFile>)
    ensures
        read_views(r@) == all_read(files@),
{
    let mut read: Vec<ReadFile> = Vec::new();
    let mut i: usize = 0;
    while i < files.len()
        invariant
            i <= files@.len(),
            read@.len() == i,
            forall|k: int| 0 <= k < i ==> (#[trigger] read@[k])@ == read_as(files@[k]),
        decreases files@.len() - i,
    {
        read.push(
            ReadFile {
                name: files[i].name.clone(),
                lowered_name: text::lowered(files[i].name.as_str()),
                size_bytes: files[i].content.len(),
                text: text::lossy(files[i].content.as_slice()),
            },
        );
        i = i + 1;
    }
    assert(read_views(read@) =~= all_read(files@));
    read
}

/// The excerpts of an artifact's files; nothing where none of them is source.
pub fn build_code_excerpts(files: &Vec<ArtifactFile>) -> (r: Option<Vec<CodeExcerpt>>)
    ensures
        ({
            let read = all_read(files@);
            match r {
                Some(v) => v@.len() > 0 && excerpt_views(v@) == excerpts_from(read, 0, 0),
                None => excerpts_from(read, 0, 0).len() == 0,
            }
        }),
{
    excerpts_of_files(&read_files(files))
}

/// Bytes that a list of excerpts takes.
pub open spec fn total_bytes(es: Seq<ExcerptView>) -> nat
    decreases es.len(),
{
    if es.len() == 0 {
        0
    } else {
        text::byte_len(es[0].content) + total_bytes(es.subrange(1, es.len() as int))
    }
}

/// The excerpts of an artifact keep within the number and the size that they
/// may have together.
pub proof fn excerpts_stay_within_the_total_limits(
    files: Seq<ReadFileView>,
    taken: nat,
    total: nat,
)
    requires
        taken <= MAX_FILES,
        total <= MAX_TOTAL_BYTES,
    ensures
        taken + excerpts_from(files, taken, total).len() <= MAX_FILES,
        total + total_bytes(excerpts_from(files, taken, total)) <= MAX_TOTAL_BYTES,
    decreases files.len(),
{
    if files.len() == 0 || taken >= MAX_FILES {
    } else {
        let f = files[0];
        let rest = files.subrange(1, files.len() as int);
        let size = text::byte_len(bounded(f.text));
        if !is_source(f.lowered_name) {
            excerpts_stay_within_the_total_limits(rest, taken, total);
        } else if total + size > MAX_TOTAL_BYTES {
        } else {
            excerpts_stay_within_the_total_limits(rest, taken + 1, total + size);
            let e = excerpt_of(f.name, language_of(f.name), f.size_bytes, f.text);
            let tail = excerpts_from(rest, taken + 1, total + size);
            let es = excerpts_from(files, taken, total);
            assert(es == seq![e] + tail);
            assert(es.subrange(1, es.len() as int) =~= tail);
        }
    }
}

// ---------------------------------------------------------------------------
// Risks
// ---------------------------------------------------------------------------

/// What the auditor found of an artifact.
#[derive(Debug)]
pub struct PromotionRecord {
    pub auditor_pass: bool,
    pub has_auditor_findings: bool,
}

/// The risks of what is to be approved.
#[derive(Debug)]
pub struct RiskSummary {
    pub host_count: usize,
    pub protocol_mix: Vec<String>,
    pub dangerous_patterns: Vec<String>,
    pub auditor_verdict: Option<String>,
    pub auditor_findings_link: Option<String>,
}

/// `s` at the end of `v`, unless it is there already.
pub open spec fn with_new(v: Seq<Seq<char>>, s: Seq<char>) -> Seq<Seq<char>> {
    if v.contains(s) {
        v
    } else {
        v.push(s)
    }
}

/// One of the texts mentions `name`.
pub open spec fn mentions(v: Seq<Seq<char>>, name: Seq<char>) -> bool {
    exists|i: int| 0 <= i < v.len() && text::has_text(#[trigger] v[i], name)
}

/// The dangerous patterns after one more file.
pub open spec fn dangers_with(v: Seq<Seq<char>>, name: Seq<char>, code: Seq<char>) -> Seq<Seq<char>> {
    let a = if text::has_text(code, "base64"@) && text::byte_len(code) > 1024 {
        with_new(v, "base64 literal >1 KiB in "@ + name)
    } else {
        v
    };
    let b = if text::has_text(code, "eval("@) || text::has_text(code, "exec("@) {
        with_new(a, "eval/exec in "@ + name)
    } else {
        a
    };
    if text::has_text(code, "subprocess"@) && text::has_text(code, "base64"@) && !mentions(b, name) {
        b.push("subprocess+base64 combo in "@ + name)
    } else {
        b
    }
}

/// The protocols after one more file.
pub open spec fn protocols_with(v: Seq<Seq<char>>, code: Seq<char>) -> Seq<Seq<char>> {
    let a = if text::has_text(code, "http://"@) {
        with_new(v, "http"@)
    } else {
        v
    };
    if text::has_text(code, "https://"@) {
        with_new(a, "https"@)
    } else {
        a
    }
}

/// The dangerous patterns of all files.
pub open spec fn dangers(files: Seq<ReadFileView>) -> Seq<Seq<char>>
    decreases files.len(),
{
    if files.len() == 0 {
        Seq::empty()
    } else {
        dangers_with(dangers(files.drop_last()), files.last().name, files.last().text)
    }
}

/// The protocols of all files.
pub open spec fn protocols(files: Seq<ReadFileView>) -> Seq<Seq<char>>
    decreases files.len(),
{
    if files.len() == 0 {
        Seq::empty()
    } else {
        protocols_with(protocols(files.drop_last()), files.last().text)
    }
}

/// One of the hosts names a port.
pub open spec fn names_port(hosts: Seq<Seq<char>>) -> bool {
    exists|i: int| 0 <= i < hosts.len() && text::has_text(#[trigger] hosts[i], ":"@)
}

/// The protocols with what the detected hosts add.
pub open spec fn protocol_mix(files: Seq<ReadFileView>, hosts: Seq<Seq<char>>) -> Seq<Seq<char>> {
    let a = if names_port(hosts) {
        with_new(protocols(files), "custom_port"@)
    } else {
        protocols(files)
    };
    if hosts.len() > 1 {
        with_new(a, "multi_host"@)
    } else {
        a
    }
}

/// What the auditor's record comes to.
pub open spec fn verdict_of(record: Option<PromotionRecord>) -> Option<Seq<char>> {
    match record {
        Some(p) => Some(
            if p.auditor_pass {
                "pass"@
            } else if !p.has_auditor_findings {
                "unable_to_evaluate"@
            } else {
                "fail"@
            },
        ),
        None => None,
    }
}

/// Where the auditor's findings are.
pub open spec fn findings_link(record: Option<PromotionRecord>, artifact_id: Seq<char>) -> Option<
    Seq<char>,
> {
    match record {
        Some(p) => if p.has_auditor_findings {
            Some("audit:"@ + artifact_id)
        } else {
            None
        },
        None => None,
    }
}

fn add_dangers(v: &mut Vec<String>, name: &str, code: &str)
    ensures
        final(v).deep_view() == dangers_with(old(v).deep_view(), name@, code@),
{
    if text::contains(code, "base64") && text::byte_count(code) > 1024 {
        let mut s = "base64 literal >1 KiB in ".to_owned();
        s.append(name);
        text::push_new(v, s);
    }
    if text::contains(code, "eval(") || text::contains(code, "exec(") {
        let mut s = "eval/exec in ".to_owned();
        s.append(name);
        text::push_new(v, s);
    }
    if text::contains(code, "subprocess") && text::contains(code, "base64") {
        let mut found = false;
        let mut i: usize = 0;
        let ghost seen = v.deep_view();
        while i < v.len()
            invariant
                i <= v@.len(),
                seen == v.deep_view(),
                found == exists|k: int| 0 <= k < i && text::has_text(#[trigger] seen[k], name@),
            decreases v@.len() - i,
        {
            assert(seen[i as int] == v@[i as int]@);
            if text::contains(v[i].as_str(), name) {
                found = true;
            }
            i = i + 1;
        }
        if !found {
            let mut s = "subprocess+base64 combo in ".to_owned();
            s.append(name);
            let ghost before = v.deep_view();
            v.push(s);
            assert(v.deep_view() =~= before.push(s@));
        }
    }
}

fn add_protocols(v: &mut Vec<String>, code: &str)
    ensures
        final(v).deep_view() == protocols_with(old(v).deep_view(), code@),
{
    if text::contains(code, "http://") {
        text::push_new(v, "http".to_owned());
    }
    if text::contains(code, "https://") {
        text::push_new(v, "https".to_owned());
    }
}

/// The detected hosts; none where none were detected.
pub open spec fn hosts_view(detected: Option<&Vec<String>>) -> Seq<Seq<char>> {
    match detected {
        Some(h) => h.deep_view(),
        None => Seq::empty(),
    }
}

/// A summary says nothing.
pub open spec fn nothing_to_report(
    files: Seq<ReadFileView>,
    hosts: Seq<Seq<char>>,
    record: Option<PromotionRecord>,
) -> bool {
    hosts.len() == 0 && dangers(files).len() == 0 && protocol_mix(files, hosts).len() == 0
        && record is None
}

/// `r` sums up the risks of an artifact with these files and hosts and this record
/// of the auditor, where there is anything to report.
pub open spec fn is_summary(
    r: Option<RiskSummary>,
    files: Seq<ReadFileView>,
    hosts: Seq<Seq<char>>,
    record: Option<PromotionRecord>,
    artifact_id: Seq<char>,
) -> bool {
    &&& r is None <==> nothing_to_report(files, hosts, record)
    &&& r matches Some(s) ==> {
        &&& s.host_count == hosts.len()
        &&& s.protocol_mix.deep_view() == protocol_mix(files, hosts)
        &&& s.dangerous_patterns.deep_view() == dangers(files)
        &&& s.auditor_verdict.deep_view() == verdict_of(record)
        &&& s.auditor_findings_link.deep_view() == findings_link(record, artifact_id)
    }
}

/// The risks of an artifact whose files were read as text.
pub fn risks_of_files(
    detected_hosts: Option<&Vec<String>>,
    record: Option<PromotionRecord>,
    artifact_id: &str,
    files: &Vec<ReadFile>,
) -> (r: Option<RiskSummary>)
    ensures
        is_summary(r, read_views(files@), hosts_view(detected_hosts), record, artifact_id@),
{
    let ghost all = read_views(files@);
    let ghost hosts = hosts_view(detected_hosts);
    let host_count: usize = match detected_hosts {
        Some(h) => h.len(),
        None => 0,
    };
    let mut dangerous_patterns: Vec<String> = Vec::new();
    let mut protocol_mix: Vec<String> = Vec::new();
    assert(dangerous_patterns.deep_view() =~= dangers(all.subrange(0, 0)));
    assert(protocol_mix.deep_view() =~= protocols(all.subrange(0, 0)));
    let mut i: usize = 0;
    while i < files.len()
        invariant
            i <= files@.len(),
            all == read_views(files@),
            dangerous_patterns.deep_view() == dangers(all.subrange(0, i as int)),
            protocol_mix.deep_view() == protocols(all.subrange(0, i as int)),
        decreases files@.len() - i,
    {
        proof {
            let t = all.subrange(0, i + 1);
            assert(t.drop_last() =~= all.subrange(0, i as int));
            assert(t.last() == files@[i as int]@);
        }
        add_dangers(&mut dangerous_patterns, files[i].name.as_str(), files[i].text.as_str());
        add_protocols(&mut protocol_mix, files[i].text.as_str());
        i = i + 1;
    }
    assert(all.subrange(0, i as int) =~= all);
    if let Some(h) = detected_hosts {
        let mut port = false;
        let mut j: usize = 0;
        while j < h.len()
            invariant
                j <= h@.len(),
                hosts == h.deep_view(),
                port == exists|k: int| 0 <= k < j && text::has_text(#[trigger] hosts[k], ":"@),
            decreases h@.len() - j,
        {
            assert(hosts[j as int] == h@[j as int]@);
            if text::contains(h[j].as_str(), ":") {
                port = true;
            }
            j = j + 1;
        }
        if port {
            text::push_new(&mut protocol_mix, "custom_port".to_owned());
        }
        if h.len() > 1 {
            text::push_new(&mut protocol_mix, "multi_host".to_owned());
        }
    }
    let has_record = record.is_some();
    let (auditor_verdict, auditor_findings_link) = match &record {
        Some(p) => {
            let verdict = if p.auditor_pass {
                "pass"
            } else if !p.has_auditor_findings {
                "unable_to_evaluate"
            } else {
                "fail"
            };
            let link = if p.has_auditor_findings {
                let mut s = "audit:".to_owned();
                s.append(artifact_id);
                Some(s)
            } else {
                None
            };
            (Some(verdict.to_owned()), link)
        },
        None => (None, None),
    };
    assert(dangerous_patterns@.len() == dangerous_patterns.deep_view().len());
    assert(protocol_mix@.len() == protocol_mix.deep_view().len());
    if host_count == 0 && dangerous_patterns.len() == 0 && protocol_mix.len() == 0 && !has_record {
        return None;
    }
    Some(
        RiskSummary {
            host_count,
            protocol_mix,
            dangerous_patterns,
            auditor_verdict,
            auditor_findings_link,
        },
    )
}

/// The risks of an artifact, from the hosts that it reaches, its files and the
/// auditor's record; nothing where there is nothing to report.
pub fn build_risk_summary(
    detected_hosts: Option<&Vec<String>>,
    record: Option<PromotionRecord>,
    artifact_id: &str,
    files: &Vec<ArtifactFile>,
) -> (r: Option<RiskSummary>)
    ensures
        is_summary(r, all_read(files@), hosts_view(detected_hosts), record, artifact_id@),
{
    risks_of_files(detected_hosts, record, artifact_id, &read_files(files))
}

// ---------------------------------------------------------------------------
// Laws of risks
// ---------------------------------------------------------------------------

proof fn lemma_dangers_stay(v: Seq<Seq<char>>, name: Seq<char>, code: Seq<char>, x: Seq<char>)
    requires
        v.contains(x),
    ensures
        dangers_with(v, name, code).contains(x),
{
    let s1 = "base64 literal >1 KiB in "@ + name;
    let s2 = "eval/exec in "@ + name;
    let s3 = "subprocess+base64 combo in "@ + name;
    let a = if text::has_text(code, "base64"@) && text::byte_len(code) > 1024 {
        with_new(v, s1)
    } else {
        v
    };
    text::lemma_push_contains(v, s1, x);
    let runs = text::has_text(code, "eval("@) || text::has_text(code, "exec("@);
    let b = if runs {
        with_new(a, s2)
    } else {
        a
    };
    text::lemma_push_contains(a, s2, x);
    text::lemma_push_contains(b, s3, x);
}

proof fn lemma_danger_reported(v: Seq<Seq<char>>, name: Seq<char>, code: Seq<char>)
    ensures
        text::has_text(code, "eval("@) || text::has_text(code, "exec("@) ==> dangers_with(
            v,
            name,
            code,
        ).contains("eval/exec in "@ + name),
        text::has_text(code, "base64"@) && text::byte_len(code) > 1024 ==> dangers_with(
            v,
            name,
            code,
        ).contains("base64 literal >1 KiB in "@ + name),
        text::has_text(code, "subprocess"@) && text::has_text(code, "base64"@) ==> exists|i: int|
            0 <= i < dangers_with(v, name, code).len() && text::has_text(
                #[trigger] dangers_with(v, name, code)[i],
                name,
            ),
{
    let none = Seq::<char>::empty();
    let s1 = "base64 literal >1 KiB in "@ + name;
    let s2 = "eval/exec in "@ + name;
    let s3 = "subprocess+base64 combo in "@ + name;
    let a = if text::has_text(code, "base64"@) && text::byte_len(code) > 1024 {
        with_new(v, s1)
    } else {
        v
    };
    text::lemma_push_contains(v, s1, s1);
    let runs = text::has_text(code, "eval("@) || text::has_text(code, "exec("@);
    let b = if runs {
        with_new(a, s2)
    } else {
        a
    };
    text::lemma_push_contains(a, s2, s2);
    text::lemma_push_contains(a, s2, s1);
    text::lemma_push_contains(b, s3, s1);
    text::lemma_push_contains(b, s3, s2);
    let c = dangers_with(v, name, code);
    if text::has_text(code, "subprocess"@) && text::has_text(code, "base64"@) {
        if mentions(b, name) {
            let i = choose|i: int| 0 <= i < b.len() && text::has_text(#[trigger] b[i], name);
            assert(c[i] == b[i]);
        } else {
            assert(c == b.push(s3));
            assert(c[b.len() as int] == s3);
            text::lemma_has_text_around("subprocess+base64 combo in "@, name, none);
            assert("subprocess+base64 combo in "@ + name + none =~= s3);
        }
    }
}

proof fn lemma_dangers(files: Seq<ReadFileView>, i: int)
    requires
        0 <= i < files.len(),
    ensures
        text::has_text(files[i].text, "eval("@) || text::has_text(files[i].text, "exec("@)
            ==> dangers(files).contains("eval/exec in "@ + files[i].name),
        text::has_text(files[i].text, "base64"@) && text::byte_len(files[i].text) > 1024 ==> dangers(
            files,
        ).contains("base64 literal >1 KiB in "@ + files[i].name),
        text::has_text(files[i].text, "subprocess"@) && text::has_text(files[i].text, "base64"@)
            ==> exists|k: int|
            0 <= k < dangers(files).len() && text::has_text(
                #[trigger] dangers(files)[k],
                files[i].name,
            ),
    decreases files.len(),
{
    let d = files.drop_last();
    let before = dangers(d);
    let f = files.last();
    assert(dangers(files) == dangers_with(before, f.name, f.text));
    if i == files.len() - 1 {
        lemma_danger_reported(before, f.name, f.text);
    } else {
        lemma_dangers(d, i);
        assert(d[i] == files[i]);
        let s1 = "base64 literal >1 KiB in "@ + files[i].name;
        let s2 = "eval/exec in "@ + files[i].name;
        if before.contains(s1) {
            lemma_dangers_stay(before, f.name, f.text, s1);
        }
        if before.contains(s2) {
            lemma_dangers_stay(before, f.name, f.text, s2);
        }
        if text::has_text(files[i].text, "subprocess"@) && text::has_text(files[i].text, "base64"@) {
            let k = choose|k: int|
                0 <= k < before.len() && text::has_text(#[trigger] before[k], files[i].name);
            let x = before[k];
            lemma_dangers_stay(before, f.name, f.text, x);
            let n = choose|n: int| 0 <= n < dangers(files).len() && dangers(files)[n] == x;
            assert(text::has_text(dangers(files)[n], files[i].name));
        }
    }
}

/// A file that calls `eval` or `exec` is reported by name: there is a summary, and it
/// lists the file among the dangerous patterns.
pub proof fn eval_and_exec_are_reported(
    r: Option<RiskSummary>,
    files: Seq<ReadFileView>,
    hosts: Seq<Seq<char>>,
    record: Option<PromotionRecord>,
    artifact_id: Seq<char>,
    i: int,
)
    requires
        is_summary(r, files, hosts, record, artifact_id),
        0 <= i < files.len(),
        text::has_text(files[i].text, "eval("@) || text::has_text(files[i].text, "exec("@),
    ensures
        r is Some,
        r->Some_0.dangerous_patterns.deep_view().contains("eval/exec in "@ + files[i].name),
{
    lemma_dangers(files, i);
}

/// A file of more than 1024 bytes that mentions base64 is reported by name, and one that
/// also starts processes is named in some pattern whatever its size.
pub proof fn encoded_payloads_are_reported(
    r: Option<RiskSummary>,
    files: Seq<ReadFileView>,
    hosts: Seq<Seq<char>>,
    record: Option<PromotionRecord>,
    artifact_id: Seq<char>,
    i: int,
)
    requires
        is_summary(r, files, hosts, record, artifact_id),
        0 <= i < files.len(),
        text::has_text(files[i].text, "base64"@),
    ensures
        text::byte_len(files[i].text) > 1024 ==> r is Some
            && r->Some_0.dangerous_patterns.deep_view().contains(
            "base64 literal >1 KiB in "@ + files[i].name,
        ),
        text::has_text(files[i].text, "subprocess"@) ==> r is Some && exists|k: int|
            0 <= k < r->Some_0.dangerous_patterns.deep_view().len() && text::has_text(
                #[trigger] r->Some_0.dangerous_patterns.deep_view()[k],
                files[i].name,
            ),
{
    lemma_dangers(files, i);
}

proof fn lemma_dangers_sound(files: Seq<ReadFileView>)
    ensures
        forall|k: int|
            0 <= k < dangers(files).len() ==> exists|i: int|
                0 <= i < files.len() && is_danger(#[trigger] dangers(files)[k], #[trigger] files[i]),
    decreases files.len(),
{
    if files.len() > 0 {
        let d = files.drop_last();
        let f = files.last();
        let before = dangers(d);
        let now = dangers(files);
        lemma_dangers_sound(d);
        assert forall|k: int| 0 <= k < now.len() implies exists|i: int|
            0 <= i < files.len() && is_danger(#[trigger] now[k], #[trigger] files[i]) by {
            if k < before.len() {
                assert(now[k] == before[k]);
                let i = choose|i: int|
                    0 <= i < d.len() && is_danger(#[trigger] before[k], #[trigger] d[i]);
                assert(files[i] == d[i]);
            } else {
                assert(files[files.len() - 1] == f);
                assert(is_danger(now[k], f));
            }
        }
    }
}

/// `x` reports a pattern that the file shows.
spec fn is_danger(x: Seq<char>, f: ReadFileView) -> bool {
    ||| x == "eval/exec in "@ + f.name && (text::has_text(f.text, "eval("@) || text::has_text(
        f.text,
        "exec("@,
    ))
    ||| x == "base64 literal >1 KiB in "@ + f.name && text::has_text(f.text, "base64"@)
        && text::byte_len(f.text) > 1024
    ||| x == "subprocess+base64 combo in "@ + f.name && text::has_text(f.text, "subprocess"@)
        && text::has_text(f.text, "base64"@)
}

/// Nothing is reported that no file shows: each dangerous pattern names a file that
/// shows it.
pub proof fn only_what_files_show_is_reported(
    r: Option<RiskSummary>,
    files: Seq<ReadFileView>,
    hosts: Seq<Seq<char>>,
    record: Option<PromotionRecord>,
    artifact_id: Seq<char>,
    k: int,
)
    requires
        is_summary(r, files, hosts, record, artifact_id),
        r is Some,
        0 <= k < r->Some_0.dangerous_patterns.deep_view().len(),
    ensures
        exists|i: int|
            0 <= i < files.len() && ({
                let f = #[trigger] files[i];
                let x = r->Some_0.dangerous_patterns.deep_view()[k];
                ||| x == "eval/exec in "@ + f.name && (text::has_text(f.text, "eval("@)
                    || text::has_text(f.text, "exec("@))
                ||| x == "base64 literal >1 KiB in "@ + f.name && text::has_text(f.text, "base64"@)
                    && text::byte_len(f.text) > 1024
                ||| x == "subprocess+base64 combo in "@ + f.name && text::has_text(
                    f.text,
                    "subprocess"@,
                ) && text::has_text(f.text, "base64"@)
            }),
{
    lemma_dangers_sound(files);
    assert(is_danger(dangers(files)[k], files[choose|i: int|
        0 <= i < files.len() && is_danger(#[trigger] dangers(files)[k], #[trigger] files[i])]));
}

proof fn lemma_protocols(files: Seq<ReadFileView>, x: Seq<char>)
    ensures
        protocols(files).contains("http"@) <==> exists|i: int|
            0 <= i < files.len() && text::has_text(#[trigger] files[i].text, "http://"@),
        protocols(files).contains("https"@) <==> exists|i: int|
            0 <= i < files.len() && text::has_text(#[trigger] files[i].text, "https://"@),
        protocols(files).contains(x) ==> x == "http"@ || x == "https"@,
    decreases files.len(),
{
    reveal_strlit("http");
    reveal_strlit("https");
    assert("http"@.len() != "https"@.len());
    if files.len() > 0 {
        let d = files.drop_last();
        let f = files.last();
        let v = protocols(d);
        let a = if text::has_text(f.text, "http://"@) {
            with_new(v, "http"@)
        } else {
            v
        };
        lemma_protocols(d, x);
        text::lemma_push_contains(v, "http"@, "http"@);
        text::lemma_push_contains(v, "http"@, "https"@);
        text::lemma_push_contains(v, "http"@, x);
        text::lemma_push_contains(a, "https"@, "http"@);
        text::lemma_push_contains(a, "https"@, "https"@);
        text::lemma_push_contains(a, "https"@, x);
        assert(f == files[files.len() - 1]);
        assert forall|p: Seq<char>| (exists|i: int|
            0 <= i < files.len() && #[trigger] text::has_text(files[i].text, p)) <==> (
        text::has_text(f.text, p) || exists|i: int|
            0 <= i < d.len() && #[trigger] text::has_text(d[i].text, p)) by {
            if exists|i: int| 0 <= i < files.len() && #[trigger] text::has_text(files[i].text, p) {
                let i = choose|i: int|
                    0 <= i < files.len() && #[trigger] text::has_text(files[i].text, p);
                if i < d.len() {
                    assert(text::has_text(d[i].text, p));
                }
            }
            if exists|i: int| 0 <= i < d.len() && #[trigger] text::has_text(d[i].text, p) {
                let i = choose|i: int| 0 <= i < d.len() && #[trigger] text::has_text(d[i].text, p);
                assert(text::has_text(files[i].text, p));
            }
            if text::has_text(f.text, p) {
                assert(text::has_text(files[files.len() - 1].text, p));
            }
        }
    }
}

/// The protocols that are reported are `http` and `https` where a file mentions such an
/// address, `custom_port` where a host names a port, and `multi_host` where there is more
/// than one host; nothing else.
pub proof fn protocols_are_those_seen(
    r: Option<RiskSummary>,
    files: Seq<ReadFileView>,
    hosts: Seq<Seq<char>>,
    record: Option<PromotionRecord>,
    artifact_id: Seq<char>,
    x: Seq<char>,
)
    requires
        is_summary(r, files, hosts, record, artifact_id),
    ensures
        ({
            let mix = match r {
                Some(s) => s.protocol_mix.deep_view(),
                None => Seq::empty(),
            };
            &&& mix.contains("http"@) <==> exists|i: int|
                0 <= i < files.len() && text::has_text(#[trigger] files[i].text, "http://"@)
            &&& mix.contains("https"@) <==> exists|i: int|
                0 <= i < files.len() && text::has_text(#[trigger] files[i].text, "https://"@)
            &&& mix.contains("custom_port"@) <==> exists|i: int|
                0 <= i < hosts.len() && text::has_text(#[trigger] hosts[i], ":"@)
            &&& mix.contains("multi_host"@) <==> hosts.len() > 1
            &&& mix.contains(x) ==> x == "http"@ || x == "https"@ || x == "custom_port"@ || x
                == "multi_host"@
        }),
{
    reveal_strlit("http");
    reveal_strlit("https");
    reveal_strlit("custom_port");
    reveal_strlit("multi_host");
    assert("http"@.len() == 4 && "https"@.len() == 5 && "custom_port"@.len() == 11
        && "multi_host"@.len() == 10);
    let p = protocols(files);
    lemma_protocols(files, x);
    lemma_protocols(files, "custom_port"@);
    lemma_protocols(files, "multi_host"@);
    let a = if names_port(hosts) {
        with_new(p, "custom_port"@)
    } else {
        p
    };
    text::lemma_push_contains(p, "custom_port"@, x);
    text::lemma_push_contains(p, "custom_port"@, "http"@);
    text::lemma_push_contains(p, "custom_port"@, "https"@);
    text::lemma_push_contains(p, "custom_port"@, "custom_port"@);
    text::lemma_push_contains(p, "custom_port"@, "multi_host"@);
    text::lemma_push_contains(a, "multi_host"@, x);
    text::lemma_push_contains(a, "multi_host"@, "http"@);
    text::lemma_push_contains(a, "multi_host"@, "https"@);
    text::lemma_push_contains(a, "multi_host"@, "custom_port"@);
    text::lemma_push_contains(a, "multi_host"@, "multi_host"@);
    assert(protocol_mix(files, hosts) == (if hosts.len() > 1 {
        with_new(a, "multi_host"@)
    } else {
        a
    }));
    if r is None {
        assert(protocol_mix(files, hosts) =~= Seq::empty());
    }
}

/// Hosts that were detected and a record of the auditor are always reported: the number
/// of hosts, whether the auditor passed the artifact, failed it or could not tell, and
/// where the findings are.
pub proof fn hosts_and_verdicts_are_reported(
    r: Option<RiskSummary>,
    files: Seq<ReadFileView>,
    hosts: Seq<Seq<char>>,
    record: Option<PromotionRecord>,
    artifact_id: Seq<char>,
)
    requires
        is_summary(r, files, hosts, record, artifact_id),
    ensures
        hosts.len() > 0 || record is Some ==> r is Some,
        r matches Some(s) ==> s.host_count == hosts.len(),
        record matches Some(p) ==> ({
            let s = r->Some_0;
            &&& p.auditor_pass ==> s.auditor_verdict.deep_view() == Some("pass"@)
            &&& !p.auditor_pass && p.has_auditor_findings ==> s.auditor_verdict.deep_view() == Some(
                "fail"@,
            )
            &&& !p.auditor_pass && !p.has_auditor_findings ==> s.auditor_verdict.deep_view() == Some(
                "unable_to_evaluate"@,
            )
            &&& p.has_auditor_findings ==> s.auditor_findings_link.deep_view() == Some(
                "audit:"@ + artifact_id,
            )
            &&& !p.has_auditor_findings ==> s.auditor_findings_link is None
        }),
        record is None && r is Some ==> r->Some_0.auditor_verdict is None
            && r->Some_0.auditor_findings_link is None,
{
    if let Some(s) = r {
        assert(s.auditor_findings_link.deep_view() == findings_link(record, artifact_id));
        assert(s.auditor_verdict.deep_view() == verdict_of(record));
    }
}

// ---------------------------------------------------------------------------
// Laws of excerpts
// ---------------------------------------------------------------------------

/// Every excerpt is of a source file of the artifact, by its name: not of a hidden file
/// nor of one whose name in lower case mentions a test, a fixture, a spec or a lock. It
/// shows the whole file where that has at most 32768 bytes, and says so where it was cut.
pub proof fn excerpts_are_of_source_files(
    files: Seq<ReadFileView>,
    taken: nat,
    total: nat,
    k: int,
)
    requires
        0 <= k < excerpts_from(files, taken, total).len(),
    ensures
        ({
            let e = excerpts_from(files, taken, total)[k];
            exists|i: int|
                0 <= i < files.len() && ({
                    let f = #[trigger] files[i];
                    &&& e.file_name == f.name
                    &&& e.size_bytes == f.size_bytes
                    &&& !text::has_text(f.lowered_name, "test"@)
                    &&& !text::has_text(f.lowered_name, "fixture"@)
                    &&& !text::has_text(f.lowered_name, "spec"@)
                    &&& !text::has_text(f.lowered_name, "lock"@)
                    &&& !text::begins_with(f.lowered_name, "."@)
                    &&& text::byte_len(f.text) <= 32_768 ==> e.content == f.text && !e.truncated
                        && e.truncated_from_bytes is None
                    &&& text::byte_len(f.text) > 32_768 ==> e.truncated
                })
        }),
        excerpts_from(files, taken, total).len() <= 5,
    decreases files.len(),
{
    let f = files[0];
    let rest = files.subrange(1, files.len() as int);
    let size = text::byte_len(bounded(f.text));
    let es = excerpts_from(files, taken, total);
    if !is_source(f.lowered_name) {
        excerpts_are_of_source_files(rest, taken, total, k);
        let e = excerpts_from(rest, taken, total)[k];
        let i = choose|i: int|
            0 <= i < rest.len() && ({
                let f = #[trigger] rest[i];
                &&& e.file_name == f.name
                &&& e.size_bytes == f.size_bytes
                &&& !text::has_text(f.lowered_name, "test"@)
                &&& !text::has_text(f.lowered_name, "fixture"@)
                &&& !text::has_text(f.lowered_name, "spec"@)
                &&& !text::has_text(f.lowered_name, "lock"@)
                &&& !text::begins_with(f.lowered_name, "."@)
                &&& text::byte_len(f.text) <= 32_768 ==> e.content == f.text && !e.truncated
                    && e.truncated_from_bytes is None
                &&& text::byte_len(f.text) > 32_768 ==> e.truncated
            });
        assert(files[i + 1] == rest[i]);
    } else {
        let tail = excerpts_from(rest, taken + 1, total + size);
        assert(es == seq![excerpt_of(f.name, language_of(f.name), f.size_bytes, f.text)] + tail);
        lemma_excerpt_count(rest, taken + 1, total + size);
        if k == 0 {
            assert(files[0] == f);
        } else {
            excerpts_are_of_source_files(rest, taken + 1, total + size, k - 1);
            let e = tail[k - 1];
            let i = choose|i: int|
                0 <= i < rest.len() && ({
                    let f = #[trigger] rest[i];
                    &&& e.file_name == f.name
                    &&& e.size_bytes == f.size_bytes
                    &&& !text::has_text(f.lowered_name, "test"@)
                    &&& !text::has_text(f.lowered_name, "fixture"@)
                    &&& !text::has_text(f.lowered_name, "spec"@)
                    &&& !text::has_text(f.lowered_name, "lock"@)
                    &&& !text::begins_with(f.lowered_name, "."@)
                    &&& text::byte_len(f.text) <= 32_768 ==> e.content == f.text && !e.truncated
                        && e.truncated_from_bytes is None
                    &&& text::byte_len(f.text) > 32_768 ==> e.truncated
                });
            assert(files[i + 1] == rest[i]);
        }
    }
}

proof fn lemma_excerpt_count(files: Seq<ReadFileView>, taken: nat, total: nat)
    ensures
        excerpts_from(files, taken, total).len() + (if taken < 5 {
            taken as int
        } else {
            5
        }) <= 5,
    decreases files.len(),
{
    if files.len() > 0 && taken < 5 {
        let f = files[0];
        let rest = files.subrange(1, files.len() as int);
        let size = text::byte_len(bounded(f.text));
        lemma_excerpt_count(rest, taken, total);
        lemma_excerpt_count(rest, taken + 1, total + size);
    }
}

/// Of an artifact of at most five files, of at most 24 KiB each, every source file is
/// shown whole.
pub proof fn small_artifacts_are_shown_whole(files: Seq<ReadFileView>, taken: nat, total: nat, i: int)
    requires
        taken + files.len() <= 5,
        total <= taken * 24_576,
        forall|k: int| 0 <= k < files.len() ==> text::byte_len(#[trigger] files[k].text) <= 24_576,
        0 <= i < files.len(),
        !text::has_text(files[i].lowered_name, "test"@),
        !text::has_text(files[i].lowered_name, "fixture"@),
        !text::has_text(files[i].lowered_name, "spec"@),
        !text::has_text(files[i].lowered_name, "lock"@),
        !text::begins_with(files[i].lowered_name, "."@),
    ensures
        exists|k: int|
            0 <= k < excerpts_from(files, taken, total).len() && ({
                let e = #[trigger] excerpts_from(files, taken, total)[k];
                e.file_name == files[i].name && e.content == files[i].text
            }),
    decreases files.len(),
{
    let f = files[0];
    let rest = files.subrange(1, files.len() as int);
    let size = text::byte_len(bounded(f.text));
    let es = excerpts_from(files, taken, total);
    assert(text::byte_len(files[0].text) <= 24_576);
    assert forall|k: int| 0 <= k < rest.len() implies text::byte_len(#[trigger] rest[k].text)
        <= 24_576 by {
        assert(rest[k] == files[k + 1]);
    }
    if !is_source(f.lowered_name) {
        assert(i > 0);
        assert(rest[i - 1] == files[i]);
        assert(total <= taken * 24_576);
        small_artifacts_are_shown_whole(rest, taken, total, i - 1);
    } else {
        let tail = excerpts_from(rest, taken + 1, total + size);
        let e = excerpt_of(f.name, language_of(f.name), f.size_bytes, f.text);
        assert(es == seq![e] + tail);
        if i == 0 {
            assert(es[0] == e);
        } else {
            assert(rest[i - 1] == files[i]);
            small_artifacts_are_shown_whole(rest, taken + 1, total + size, i - 1);
            let k = choose|k: int|
                0 <= k < tail.len() && ({
                    let e = #[trigger] tail[k];
                    e.file_name == files[i].name && e.content == files[i].text
                });
            assert(es[k + 1] == tail[k]);
        }
    }
}

/// An excerpt that is cut shows the beginning and the end of its file, with a mark
/// between them that tells how much is over the limit.
pub proof fn cut_excerpts_show_head_and_tail(content: Seq<char>)
    requires
        text::byte_len(content) > 32_768,
    ensures
        exists|h: int, t: int|
            0 <= h <= content.len() && 0 <= t <= content.len() && bounded(content)
                == #[trigger] content.subrange(0, h) + "…\n/* --- truncated "@ + text::decimal(
                (text::byte_len(content) - 32_768) as nat,
            ) + " bytes --- */\n\n"@ + #[trigger] content.subrange(t, content.len() as int)
                && text::byte_len(content.subrange(0, h)) <= 16_384 && text::byte_len(
                content.subrange(t, content.len() as int),
            ) >= 8_192,
{
    let size = text::byte_len(content);
    let n = (size - TAIL_BYTES) as nat;
    let h = text::fitting(content, HEAD_BYTES as nat) as int;
    let t = text::fitting(content, n) as int;
    text::lemma_fitting_bounds(content, HEAD_BYTES as nat);
    text::lemma_fitting_bounds(content, n);
    let before = content.subrange(0, t);
    let tail = content.subrange(t, content.len() as int);
    lemma_concat_len(before, tail);
    assert(before + tail =~= content);
    assert(bounded(content) == content.subrange(0, h) + "…\n/* --- truncated "@ + text::decimal(
        (size - 32_768) as nat,
    ) + " bytes --- */\n\n"@ + tail);
}

// ---------------------------------------------------------------------------
// Laws of languages
// ---------------------------------------------------------------------------

proof fn lemma_ends(stem: Seq<char>, e: Seq<char>)
    ensures
        text::finishes_with(stem + e, e),
{
    let s = stem + e;
    assert(s.subrange(s.len() - e.len(), s.len() as int) =~= e);
}

proof fn lemma_ends_otherwise(stem: Seq<char>, e: Seq<char>, p: Seq<char>, k: int)
    requires
        0 <= k < e.len(),
        k < p.len(),
        e[e.len() - 1 - k] != p[p.len() - 1 - k],
    ensures
        !text::finishes_with(stem + e, p),
{
    let s = stem + e;
    if text::finishes_with(s, p) {
        let from = s.len() - p.len();
        assert(s.subrange(from, from + p.len())[p.len() - 1 - k] == s[from + p.len() - 1 - k]);
        assert(s[stem.len() + (e.len() - 1 - k)] == e[e.len() - 1 - k]);
    }
}

proof fn lemma_language_py(stem: Seq<char>)
    ensures
        language_of(stem + ".py"@) == "python"@,
{
    reveal_strlit(".py");
    lemma_ends(stem, ".py"@);
}

proof fn lemma_language_python(stem: Seq<char>)
    ensures
        language_of(stem + ".python"@) == "python"@,
{
    reveal_strlit(".python");
    lemma_ends(stem, ".python"@);
}

proof fn lemma_language_js(stem: Seq<char>)
    ensures
        language_of(stem + ".js"@) == "javascript"@,
{
    reveal_strlit(".js");
    reveal_strlit(".py");
    reveal_strlit(".python");
    lemma_ends(stem, ".js"@);
    assert(".js"@[2] == 's' && ".py"@[2] == 'y');
    lemma_ends_otherwise(stem, ".js"@, ".py"@, 0);
    assert(".js"@[2] == 's' && ".python"@[6] == 'n');
    lemma_ends_otherwise(stem, ".js"@, ".python"@, 0);
}

proof fn lemma_language_mjs(stem: Seq<char>)
    ensures
        language_of(stem + ".mjs"@) == "javascript"@,
{
    reveal_strlit(".mjs");
    reveal_strlit(".py");
    reveal_strlit(".python");
    lemma_ends(stem, ".mjs"@);
    assert(".mjs"@[3] == 's' && ".py"@[2] == 'y');
    lemma_ends_otherwise(stem, ".mjs"@, ".py"@, 0);
    assert(".mjs"@[3] == 's' && ".python"@[6] == 'n');
    lemma_ends_otherwise(stem, ".mjs"@, ".python"@, 0);
}

proof fn lemma_language_cjs(stem: Seq<char>)
    ensures
        language_of(stem + ".cjs"@) == "javascript"@,
{
    reveal_strlit(".cjs");
    reveal_strlit(".py");
    reveal_strlit(".python");
    lemma_ends(stem, ".cjs"@);
    assert(".cjs"@[3] == 's' && ".py"@[2] == 'y');
    lemma_ends_otherwise(stem, ".cjs"@, ".py"@, 0);
    assert(".cjs"@[3] == 's' && ".python"@[6] == 'n');
    lemma_ends_otherwise(stem, ".cjs"@, ".python"@, 0);
}

proof fn lemma_language_ts(stem: Seq<char>)
    ensures
        language_of(stem + ".ts"@) == "typescript"@,
{
    reveal_strlit(".ts");
    reveal_strlit(".py");
    reveal_strlit(".python");
    reveal_strlit(".js");
    reveal_strlit(".mjs");
    reveal_strlit(".cjs");
    lemma_ends(stem, ".ts"@);
    assert(".ts"@[2] == 's' && ".py"@[2] == 'y');
    lemma_ends_otherwise(stem, ".ts"@, ".py"@, 0);
    assert(".ts"@[2] == 's' && ".python"@[6] == 'n');
    lemma_ends_otherwise(stem, ".ts"@, ".python"@, 0);
    assert(".ts"@[1] == 't' && ".js"@[1] == 'j');
    lemma_ends_otherwise(stem, ".ts"@, ".js"@, 1);
    assert(".ts"@[1] == 't' && ".mjs"@[2] == 'j');
    lemma_ends_otherwise(stem, ".ts"@, ".mjs"@, 1);
    assert(".ts"@[1] == 't' && ".cjs"@[2] == 'j');
    lemma_ends_otherwise(stem, ".ts"@, ".cjs"@, 1);
}

proof fn lemma_language_tsx(stem: Seq<char>)
    ensures
        language_of(stem + ".tsx"@) == "typescript"@,
{
    reveal_strlit(".tsx");
    reveal_strlit(".py");
    reveal_strlit(".python");
    reveal_strlit(".js");
    reveal_strlit(".mjs");
    reveal_strlit(".cjs");
    lemma_ends(stem, ".tsx"@);
    assert(".tsx"@[3] == 'x' && ".py"@[2] == 'y');
    lemma_ends_otherwise(stem, ".tsx"@, ".py"@, 0);
    assert(".tsx"@[3] == 'x' && ".python"@[6] == 'n');
    lemma_ends_otherwise(stem, ".tsx"@, ".python"@, 0);
    assert(".tsx"@[3] == 'x' && ".js"@[2] == 's');
    lemma_ends_otherwise(stem, ".tsx"@, ".js"@, 0);
    assert(".tsx"@[3] == 'x' && ".mjs"@[3] == 's');
    lemma_ends_otherwise(stem, ".tsx"@, ".mjs"@, 0);
    assert(".tsx"@[3] == 'x' && ".cjs"@[3] == 's');
    lemma_ends_otherwise(stem, ".tsx"@, ".cjs"@, 0);
}

proof fn lemma_language_rs(stem: Seq<char>)
    ensures
        language_of(stem + ".rs"@) == "rust"@,
{
    reveal_strlit(".rs");
    reveal_strlit(".py");
    reveal_strlit(".python");
    reveal_strlit(".js");
    reveal_strlit(".mjs");
    reveal_strlit(".cjs");
    reveal_strlit(".ts");
    reveal_strlit(".tsx");
    lemma_ends(stem, ".rs"@);
    assert(".rs"@[2] == 's' && ".py"@[2] == 'y');
    lemma_ends_otherwise(stem, ".rs"@, ".py"@, 0);
    assert(".rs"@[2] == 's' && ".python"@[6] == 'n');
    lemma_ends_otherwise(stem, ".rs"@, ".python"@, 0);
    assert(".rs"@[1] == 'r' && ".js"@[1] == 'j');
    lemma_ends_otherwise(stem, ".rs"@, ".js"@, 1);
    assert(".rs"@[1] == 'r' && ".mjs"@[2] == 'j');
    lemma_ends_otherwise(stem, ".rs"@, ".mjs"@, 1);
    assert(".rs"@[1] == 'r' && ".cjs"@[2] == 'j');
    lemma_ends_otherwise(stem, ".rs"@, ".cjs"@, 1);
    assert(".rs"@[1] == 'r' && ".ts"@[1] == 't');
    lemma_ends_otherwise(stem, ".rs"@, ".ts"@, 1);
    assert(".rs"@[2] == 's' && ".tsx"@[3] == 'x');
    lemma_ends_otherwise(stem, ".rs"@, ".tsx"@, 0);
}

proof fn lemma_language_go(stem: Seq<char>)
    ensures
        language_of(stem + ".go"@) == "go"@,
{
    reveal_strlit(".go");
    reveal_strlit(".py");
    reveal_strlit(".python");
    reveal_strlit(".js");
    reveal_strlit(".mjs");
    reveal_strlit(".cjs");
    reveal_strlit(".ts");
    reveal_strlit(".tsx");
    reveal_strlit(".rs");
    lemma_ends(stem, ".go"@);
    assert(".go"@[2] == 'o' && ".py"@[2] == 'y');
    lemma_ends_otherwise(stem, ".go"@, ".py"@, 0);
    assert(".go"@[2] == 'o' && ".python"@[6] == 'n');
    lemma_ends_otherwise(stem, ".go"@, ".python"@, 0);
    assert(".go"@[2] == 'o' && ".js"@[2] == 's');
    lemma_ends_otherwise(stem, ".go"@, ".js"@, 0);
    assert(".go"@[2] == 'o' && ".mjs"@[3] == 's');
    lemma_ends_otherwise(stem, ".go"@, ".mjs"@, 0);
    assert(".go"@[2] == 'o' && ".cjs"@[3] == 's');
    lemma_ends_otherwise(stem, ".go"@, ".cjs"@, 0);
    assert(".go"@[2] == 'o' && ".ts"@[2] == 's');
    lemma_ends_otherwise(stem, ".go"@, ".ts"@, 0);
    assert(".go"@[2] == 'o' && ".tsx"@[3] == 'x');
    lemma_ends_otherwise(stem, ".go"@, ".tsx"@, 0);
    assert(".go"@[2] == 'o' && ".rs"@[2] == 's');
    lemma_ends_otherwise(stem, ".go"@, ".rs"@, 0);
}

proof fn lemma_language_sh(stem: Seq<char>)
    ensures
        language_of(stem + ".sh"@) == "bash"@,
{
    reveal_strlit(".sh");
    reveal_strlit(".py");
    reveal_strlit(".python");
    reveal_strlit(".js");
    reveal_strlit(".mjs");
    reveal_strlit(".cjs");
    reveal_strlit(".ts");
    reveal_strlit(".tsx");
    reveal_strlit(".rs");
    reveal_strlit(".go");
    lemma_ends(stem, ".sh"@);
    assert(".sh"@[2] == 'h' && ".py"@[2] == 'y');
    lemma_ends_otherwise(stem, ".sh"@, ".py"@, 0);
    assert(".sh"@[2] == 'h' && ".python"@[6] == 'n');
    lemma_ends_otherwise(stem, ".sh"@, ".python"@, 0);
    assert(".sh"@[2] == 'h' && ".js"@[2] == 's');
    lemma_ends_otherwise(stem, ".sh"@, ".js"@, 0);
    assert(".sh"@[2] == 'h' && ".mjs"@[3] == 's');
    lemma_ends_otherwise(stem, ".sh"@, ".mjs"@, 0);
    assert(".sh"@[2] == 'h' && ".cjs"@[3] == 's');
    lemma_ends_otherwise(stem, ".sh"@, ".cjs"@, 0);
    assert(".sh"@[2] == 'h' && ".ts"@[2] == 's');
    lemma_ends_otherwise(stem, ".sh"@, ".ts"@, 0);
    assert(".sh"@[2] == 'h' && ".tsx"@[3] == 'x');
    lemma_ends_otherwise(stem, ".sh"@, ".tsx"@, 0);
    assert(".sh"@[2] == 'h' && ".rs"@[2] == 's');
    lemma_ends_otherwise(stem, ".sh"@, ".rs"@, 0);
    assert(".sh"@[2] == 'h' && ".go"@[2] == 'o');
    lemma_ends_otherwise(stem, ".sh"@, ".go"@, 0);
}

proof fn lemma_language_bash(stem: Seq<char>)
    ensures
        language_of(stem + ".bash"@) == "bash"@,
{
    reveal_strlit(".bash");
    reveal_strlit(".py");
    reveal_strlit(".python");
    reveal_strlit(".js");
    reveal_strlit(".mjs");
    reveal_strlit(".cjs");
    reveal_strlit(".ts");
    reveal_strlit(".tsx");
    reveal_strlit(".rs");
    reveal_strlit(".go");
    lemma_ends(stem, ".bash"@);
    assert(".bash"@[4] == 'h' && ".py"@[2] == 'y');
    lemma_ends_otherwise(stem, ".bash"@, ".py"@, 0);
    assert(".bash"@[4] == 'h' && ".python"@[6] == 'n');
    lemma_ends_otherwise(stem, ".bash"@, ".python"@, 0);
    assert(".bash"@[4] == 'h' && ".js"@[2] == 's');
    lemma_ends_otherwise(stem, ".bash"@, ".js"@, 0);
    assert(".bash"@[4] == 'h' && ".mjs"@[3] == 's');
    lemma_ends_otherwise(stem, ".bash"@, ".mjs"@, 0);
    assert(".bash"@[4] == 'h' && ".cjs"@[3] == 's');
    lemma_ends_otherwise(stem, ".bash"@, ".cjs"@, 0);
    assert(".bash"@[4] == 'h' && ".ts"@[2] == 's');
    lemma_ends_otherwise(stem, ".bash"@, ".ts"@, 0);
    assert(".bash"@[4] == 'h' && ".tsx"@[3] == 'x');
    lemma_ends_otherwise(stem, ".bash"@, ".tsx"@, 0);
    assert(".bash"@[4] == 'h' && ".rs"@[2] == 's');
    lemma_ends_otherwise(stem, ".bash"@, ".rs"@, 0);
    assert(".bash"@[4] == 'h' && ".go"@[2] == 'o');
    lemma_ends_otherwise(stem, ".bash"@, ".go"@, 0);
}

proof fn lemma_language_zsh(stem: Seq<char>)
    ensures
        language_of(stem + ".zsh"@) == "bash"@,
{
    reveal_strlit(".zsh");
    reveal_strlit(".py");
    reveal_strlit(".python");
    reveal_strlit(".js");
    reveal_strlit(".mjs");
    reveal_strlit(".cjs");
    reveal_strlit(".ts");
    reveal_strlit(".tsx");
    reveal_strlit(".rs");
    reveal_strlit(".go");
    lemma_ends(stem, ".zsh"@);
    assert(".zsh"@[3] == 'h' && ".py"@[2] == 'y');
    lemma_ends_otherwise(stem, ".zsh"@, ".py"@, 0);
    assert(".zsh"@[3] == 'h' && ".python"@[6] == 'n');
    lemma_ends_otherwise(stem, ".zsh"@, ".python"@, 0);
    assert(".zsh"@[3] == 'h' && ".js"@[2] == 's');
    lemma_ends_otherwise(stem, ".zsh"@, ".js"@, 0);
    assert(".zsh"@[3] == 'h' && ".mjs"@[3] == 's');
    lemma_ends_otherwise(stem, ".zsh"@, ".mjs"@, 0);
    assert(".zsh"@[3] == 'h' && ".cjs"@[3] == 's');
    lemma_ends_otherwise(stem, ".zsh"@, ".cjs"@, 0);
    assert(".zsh"@[3] == 'h' && ".ts"@[2] == 's');
    lemma_ends_otherwise(stem, ".zsh"@, ".ts"@, 0);
    assert(".zsh"@[3] == 'h' && ".tsx"@[3] == 'x');
    lemma_ends_otherwise(stem, ".zsh"@, ".tsx"@, 0);
    assert(".zsh"@[3] == 'h' && ".rs"@[2] == 's');
    lemma_ends_otherwise(stem, ".zsh"@, ".rs"@, 0);
    assert(".zsh"@[3] == 'h' && ".go"@[2] == 'o');
    lemma_ends_otherwise(stem, ".zsh"@, ".go"@, 0);
}

proof fn lemma_language_yaml(stem: Seq<char>)
    ensures
        language_of(stem + ".yaml"@) == "yaml"@,
{
    reveal_strlit(".yaml");
    reveal_strlit(".py");
    reveal_strlit(".python");
    reveal_strlit(".js");
    reveal_strlit(".mjs");
    reveal_strlit(".cjs");
    reveal_strlit(".ts");
    reveal_strlit(".tsx");
    reveal_strlit(".rs");
    reveal_strlit(".go");
    reveal_strlit(".sh");
    reveal_strlit(".bash");
    reveal_strlit(".zsh");
    lemma_ends(stem, ".yaml"@);
    assert(".yaml"@[4] == 'l' && ".py"@[2] == 'y');
    lemma_ends_otherwise(stem, ".yaml"@, ".py"@, 0);
    assert(".yaml"@[4] == 'l' && ".python"@[6] == 'n');
    lemma_ends_otherwise(stem, ".yaml"@, ".python"@, 0);
    assert(".yaml"@[4] == 'l' && ".js"@[2] == 's');
    lemma_ends_otherwise(stem, ".yaml"@, ".js"@, 0);
    assert(".yaml"@[4] == 'l' && ".mjs"@[3] == 's');
    lemma_ends_otherwise(stem, ".yaml"@, ".mjs"@, 0);
    assert(".yaml"@[4] == 'l' && ".cjs"@[3] == 's');
    lemma_ends_otherwise(stem, ".yaml"@, ".cjs"@, 0);
    assert(".yaml"@[4] == 'l' && ".ts"@[2] == 's');
    lemma_ends_otherwise(stem, ".yaml"@, ".ts"@, 0);
    assert(".yaml"@[4] == 'l' && ".tsx"@[3] == 'x');
    lemma_ends_otherwise(stem, ".yaml"@, ".tsx"@, 0);
    assert(".yaml"@[4] == 'l' && ".rs"@[2] == 's');
    lemma_ends_otherwise(stem, ".yaml"@, ".rs"@, 0);
    assert(".yaml"@[4] == 'l' && ".go"@[2] == 'o');
    lemma_ends_otherwise(stem, ".yaml"@, ".go"@, 0);
    assert(".yaml"@[4] == 'l' && ".sh"@[2] == 'h');
    lemma_ends_otherwise(stem, ".yaml"@, ".sh"@, 0);
    assert(".yaml"@[4] == 'l' && ".bash"@[4] == 'h');
    lemma_ends_otherwise(stem, ".yaml"@, ".bash"@, 0);
    assert(".yaml"@[4] == 'l' && ".zsh"@[3] == 'h');
    lemma_ends_otherwise(stem, ".yaml"@, ".zsh"@, 0);
}

proof fn lemma_language_yml(stem: Seq<char>)
    ensures
        language_of(stem + ".yml"@) == "yaml"@,
{
    reveal_strlit(".yml");
    reveal_strlit(".py");
    reveal_strlit(".python");
    reveal_strlit(".js");
    reveal_strlit(".mjs");
    reveal_strlit(".cjs");
    reveal_strlit(".ts");
    reveal_strlit(".tsx");
    reveal_strlit(".rs");
    reveal_strlit(".go");
    reveal_strlit(".sh");
    reveal_strlit(".bash");
    reveal_strlit(".zsh");
    lemma_ends(stem, ".yml"@);
    assert(".yml"@[3] == 'l' && ".py"@[2] == 'y');
    lemma_ends_otherwise(stem, ".yml"@, ".py"@, 0);
    assert(".yml"@[3] == 'l' && ".python"@[6] == 'n');
    lemma_ends_otherwise(stem, ".yml"@, ".python"@, 0);
    assert(".yml"@[3] == 'l' && ".js"@[2] == 's');
    lemma_ends_otherwise(stem, ".yml"@, ".js"@, 0);
    assert(".yml"@[3] == 'l' && ".mjs"@[3] == 's');
    lemma_ends_otherwise(stem, ".yml"@, ".mjs"@, 0);
    assert(".yml"@[3] == 'l' && ".cjs"@[3] == 's');
    lemma_ends_otherwise(stem, ".yml"@, ".cjs"@, 0);
    assert(".yml"@[3] == 'l' && ".ts"@[2] == 's');
    lemma_ends_otherwise(stem, ".yml"@, ".ts"@, 0);
    assert(".yml"@[3] == 'l' && ".tsx"@[3] == 'x');
    lemma_ends_otherwise(stem, ".yml"@, ".tsx"@, 0);
    assert(".yml"@[3] == 'l' && ".rs"@[2] == 's');
    lemma_ends_otherwise(stem, ".yml"@, ".rs"@, 0);
    assert(".yml"@[3] == 'l' && ".go"@[2] == 'o');
    lemma_ends_otherwise(stem, ".yml"@, ".go"@, 0);
    assert(".yml"@[3] == 'l' && ".sh"@[2] == 'h');
    lemma_ends_otherwise(stem, ".yml"@, ".sh"@, 0);
    assert(".yml"@[3] == 'l' && ".bash"@[4] == 'h');
    lemma_ends_otherwise(stem, ".yml"@, ".bash"@, 0);
    assert(".yml"@[3] == 'l' && ".zsh"@[3] == 'h');
    lemma_ends_otherwise(stem, ".yml"@, ".zsh"@, 0);
}

proof fn lemma_language_json(stem: Seq<char>)
    ensures
        language_of(stem + ".json"@) == "json"@,
{
    reveal_strlit(".json");
    reveal_strlit(".py");
    reveal_strlit(".python");
    reveal_strlit(".js");
    reveal_strlit(".mjs");
    reveal_strlit(".cjs");
    reveal_strlit(".ts");
    reveal_strlit(".tsx");
    reveal_strlit(".rs");
    reveal_strlit(".go");
    reveal_strlit(".sh");
    reveal_strlit(".bash");
    reveal_strlit(".zsh");
    reveal_strlit(".yaml");
    reveal_strlit(".yml");
    lemma_ends(stem, ".json"@);
    assert(".json"@[4] == 'n' && ".py"@[2] == 'y');
    lemma_ends_otherwise(stem, ".json"@, ".py"@, 0);
    assert(".json"@[2] == 's' && ".python"@[4] == 'h');
    lemma_ends_otherwise(stem, ".json"@, ".python"@, 2);
    assert(".json"@[4] == 'n' && ".js"@[2] == 's');
    lemma_ends_otherwise(stem, ".json"@, ".js"@, 0);
    assert(".json"@[4] == 'n' && ".mjs"@[3] == 's');
    lemma_ends_otherwise(stem, ".json"@, ".mjs"@, 0);
    assert(".json"@[4] == 'n' && ".cjs"@[3] == 's');
    lemma_ends_otherwise(stem, ".json"@, ".cjs"@, 0);
    assert(".json"@[4] == 'n' && ".ts"@[2] == 's');
    lemma_ends_otherwise(stem, ".json"@, ".ts"@, 0);
    assert(".json"@[4] == 'n' && ".tsx"@[3] == 'x');
    lemma_ends_otherwise(stem, ".json"@, ".tsx"@, 0);
    assert(".json"@[4] == 'n' && ".rs"@[2] == 's');
    lemma_ends_otherwise(stem, ".json"@, ".rs"@, 0);
    assert(".json"@[4] == 'n' && ".go"@[2] == 'o');
    lemma_ends_otherwise(stem, ".json"@, ".go"@, 0);
    assert(".json"@[4] == 'n' && ".sh"@[2] == 'h');
    lemma_ends_otherwise(stem, ".json"@, ".sh"@, 0);
    assert(".json"@[4] == 'n' && ".bash"@[4] == 'h');
    lemma_ends_otherwise(stem, ".json"@, ".bash"@, 0);
    assert(".json"@[4] == 'n' && ".zsh"@[3] == 'h');
    lemma_ends_otherwise(stem, ".json"@, ".zsh"@, 0);
    assert(".json"@[4] == 'n' && ".yaml"@[4] == 'l');
    lemma_ends_otherwise(stem, ".json"@, ".yaml"@, 0);
    assert(".json"@[4] == 'n' && ".yml"@[3] == 'l');
    lemma_ends_otherwise(stem, ".json"@, ".yml"@, 0);
}

proof fn lemma_language_md(stem: Seq<char>)
    ensures
        language_of(stem + ".md"@) == "markdown"@,
{
    reveal_strlit(".md");
    reveal_strlit(".py");
    reveal_strlit(".python");
    reveal_strlit(".js");
    reveal_strlit(".mjs");
    reveal_strlit(".cjs");
    reveal_strlit(".ts");
    reveal_strlit(".tsx");
    reveal_strlit(".rs");
    reveal_strlit(".go");
    reveal_strlit(".sh");
    reveal_strlit(".bash");
    reveal_strlit(".zsh");
    reveal_strlit(".yaml");
    reveal_strlit(".yml");
    reveal_strlit(".json");
    lemma_ends(stem, ".md"@);
    assert(".md"@[2] == 'd' && ".py"@[2] == 'y');
    lemma_ends_otherwise(stem, ".md"@, ".py"@, 0);
    assert(".md"@[2] == 'd' && ".python"@[6] == 'n');
    lemma_ends_otherwise(stem, ".md"@, ".python"@, 0);
    assert(".md"@[2] == 'd' && ".js"@[2] == 's');
    lemma_ends_otherwise(stem, ".md"@, ".js"@, 0);
    assert(".md"@[2] == 'd' && ".mjs"@[3] == 's');
    lemma_ends_otherwise(stem, ".md"@, ".mjs"@, 0);
    assert(".md"@[2] == 'd' && ".cjs"@[3] == 's');
    lemma_ends_otherwise(stem, ".md"@, ".cjs"@, 0);
    assert(".md"@[2] == 'd' && ".ts"@[2] == 's');
    lemma_ends_otherwise(stem, ".md"@, ".ts"@, 0);
    assert(".md"@[2] == 'd' && ".tsx"@[3] == 'x');
    lemma_ends_otherwise(stem, ".md"@, ".tsx"@, 0);
    assert(".md"@[2] == 'd' && ".rs"@[2] == 's');
    lemma_ends_otherwise(stem, ".md"@, ".rs"@, 0);
    assert(".md"@[2] == 'd' && ".go"@[2] == 'o');
    lemma_ends_otherwise(stem, ".md"@, ".go"@, 0);
    assert(".md"@[2] == 'd' && ".sh"@[2] == 'h');
    lemma_ends_otherwise(stem, ".md"@, ".sh"@, 0);
    assert(".md"@[2] == 'd' && ".bash"@[4] == 'h');
    lemma_ends_otherwise(stem, ".md"@, ".bash"@, 0);
    assert(".md"@[2] == 'd' && ".zsh"@[3] == 'h');
    lemma_ends_otherwise(stem, ".md"@, ".zsh"@, 0);
    assert(".md"@[2] == 'd' && ".yaml"@[4] == 'l');
    lemma_ends_otherwise(stem, ".md"@, ".yaml"@, 0);
    assert(".md"@[2] == 'd' && ".yml"@[3] == 'l');
    lemma_ends_otherwise(stem, ".md"@, ".yml"@, 0);
    assert(".md"@[2] == 'd' && ".json"@[4] == 'n');
    lemma_ends_otherwise(stem, ".md"@, ".json"@, 0);
}

proof fn lemma_language_markdown(stem: Seq<char>)
    ensures
        language_of(stem + ".markdown"@) == "markdown"@,
{
    reveal_strlit(".markdown");
    reveal_strlit(".py");
    reveal_strlit(".python");
    reveal_strlit(".js");
    reveal_strlit(".mjs");
    reveal_strlit(".cjs");
    reveal_strlit(".ts");
    reveal_strlit(".tsx");
    reveal_strlit(".rs");
    reveal_strlit(".go");
    reveal_strlit(".sh");
    reveal_strlit(".bash");
    reveal_strlit(".zsh");
    reveal_strlit(".yaml");
    reveal_strlit(".yml");
    reveal_strlit(".json");
    lemma_ends(stem, ".markdown"@);
    assert(".markdown"@[8] == 'n' && ".py"@[2] == 'y');
    lemma_ends_otherwise(stem, ".markdown"@, ".py"@, 0);
    assert(".markdown"@[7] == 'w' && ".python"@[5] == 'o');
    lemma_ends_otherwise(stem, ".markdown"@, ".python"@, 1);
    assert(".markdown"@[8] == 'n' && ".js"@[2] == 's');
    lemma_ends_otherwise(stem, ".markdown"@, ".js"@, 0);
    assert(".markdown"@[8] == 'n' && ".mjs"@[3] == 's');
    lemma_ends_otherwise(stem, ".markdown"@, ".mjs"@, 0);
    assert(".markdown"@[8] == 'n' && ".cjs"@[3] == 's');
    lemma_ends_otherwise(stem, ".markdown"@, ".cjs"@, 0);
    assert(".markdown"@[8] == 'n' && ".ts"@[2] == 's');
    lemma_ends_otherwise(stem, ".markdown"@, ".ts"@, 0);
    assert(".markdown"@[8] == 'n' && ".tsx"@[3] == 'x');
    lemma_ends_otherwise(stem, ".markdown"@, ".tsx"@, 0);
    assert(".markdown"@[8] == 'n' && ".rs"@[2] == 's');
    lemma_ends_otherwise(stem, ".markdown"@, ".rs"@, 0);
    assert(".markdown"@[8] == 'n' && ".go"@[2] == 'o');
    lemma_ends_otherwise(stem, ".markdown"@, ".go"@, 0);
    assert(".markdown"@[8] == 'n' && ".sh"@[2] == 'h');
    lemma_ends_otherwise(stem, ".markdown"@, ".sh"@, 0);
    assert(".markdown"@[8] == 'n' && ".bash"@[4] == 'h');
    lemma_ends_otherwise(stem, ".markdown"@, ".bash"@, 0);
    assert(".markdown"@[8] == 'n' && ".zsh"@[3] == 'h');
    lemma_ends_otherwise(stem, ".markdown"@, ".zsh"@, 0);
    assert(".markdown"@[8] == 'n' && ".yaml"@[4] == 'l');
    lemma_ends_otherwise(stem, ".markdown"@, ".yaml"@, 0);
    assert(".markdown"@[8] == 'n' && ".yml"@[3] == 'l');
    lemma_ends_otherwise(stem, ".markdown"@, ".yml"@, 0);
    assert(".markdown"@[7] == 'w' && ".json"@[3] == 'o');
    lemma_ends_otherwise(stem, ".markdown"@, ".json"@, 1);
}

proof fn lemma_language_html(stem: Seq<char>)
    ensures
        language_of(stem + ".html"@) == "html"@,
{
    reveal_strlit(".html");
    reveal_strlit(".py");
    reveal_strlit(".python");
    reveal_strlit(".js");
    reveal_strlit(".mjs");
    reveal_strlit(".cjs");
    reveal_strlit(".ts");
    reveal_strlit(".tsx");
    reveal_strlit(".rs");
    reveal_strlit(".go");
    reveal_strlit(".sh");
    reveal_strlit(".bash");
    reveal_strlit(".zsh");
    reveal_strlit(".yaml");
    reveal_strlit(".yml");
    reveal_strlit(".json");
    reveal_strlit(".md");
    reveal_strlit(".markdown");
    lemma_ends(stem, ".html"@);
    assert(".html"@[4] == 'l' && ".py"@[2] == 'y');
    lemma_ends_otherwise(stem, ".html"@, ".py"@, 0);
    assert(".html"@[4] == 'l' && ".python"@[6] == 'n');
    lemma_ends_otherwise(stem, ".html"@, ".python"@, 0);
    assert(".html"@[4] == 'l' && ".js"@[2] == 's');
    lemma_ends_otherwise(stem, ".html"@, ".js"@, 0);
    assert(".html"@[4] == 'l' && ".mjs"@[3] == 's');
    lemma_ends_otherwise(stem, ".html"@, ".mjs"@, 0);
    assert(".html"@[4] == 'l' && ".cjs"@[3] == 's');
    lemma_ends_otherwise(stem, ".html"@, ".cjs"@, 0);
    assert(".html"@[4] == 'l' && ".ts"@[2] == 's');
    lemma_ends_otherwise(stem, ".html"@, ".ts"@, 0);
    assert(".html"@[4] == 'l' && ".tsx"@[3] == 'x');
    lemma_ends_otherwise(stem, ".html"@, ".tsx"@, 0);
    assert(".html"@[4] == 'l' && ".rs"@[2] == 's');
    lemma_ends_otherwise(stem, ".html"@, ".rs"@, 0);
    assert(".html"@[4] == 'l' && ".go"@[2] == 'o');
    lemma_ends_otherwise(stem, ".html"@, ".go"@, 0);
    assert(".html"@[4] == 'l' && ".sh"@[2] == 'h');
    lemma_ends_otherwise(stem, ".html"@, ".sh"@, 0);
    assert(".html"@[4] == 'l' && ".bash"@[4] == 'h');
    lemma_ends_otherwise(stem, ".html"@, ".bash"@, 0);
    assert(".html"@[4] == 'l' && ".zsh"@[3] == 'h');
    lemma_ends_otherwise(stem, ".html"@, ".zsh"@, 0);
    assert(".html"@[2] == 't' && ".yaml"@[2] == 'a');
    lemma_ends_otherwise(stem, ".html"@, ".yaml"@, 2);
    assert(".html"@[2] == 't' && ".yml"@[1] == 'y');
    lemma_ends_otherwise(stem, ".html"@, ".yml"@, 2);
    assert(".html"@[4] == 'l' && ".json"@[4] == 'n');
    lemma_ends_otherwise(stem, ".html"@, ".json"@, 0);
    assert(".html"@[4] == 'l' && ".md"@[2] == 'd');
    lemma_ends_otherwise(stem, ".html"@, ".md"@, 0);
    assert(".html"@[4] == 'l' && ".markdown"@[8] == 'n');
    lemma_ends_otherwise(stem, ".html"@, ".markdown"@, 0);
}

proof fn lemma_language_htm(stem: Seq<char>)
    ensures
        language_of(stem + ".htm"@) == "html"@,
{
    reveal_strlit(".htm");
    reveal_strlit(".py");
    reveal_strlit(".python");
    reveal_strlit(".js");
    reveal_strlit(".mjs");
    reveal_strlit(".cjs");
    reveal_strlit(".ts");
    reveal_strlit(".tsx");
    reveal_strlit(".rs");
    reveal_strlit(".go");
    reveal_strlit(".sh");
    reveal_strlit(".bash");
    reveal_strlit(".zsh");
    reveal_strlit(".yaml");
    reveal_strlit(".yml");
    reveal_strlit(".json");
    reveal_strlit(".md");
    reveal_strlit(".markdown");
    lemma_ends(stem, ".htm"@);
    assert(".htm"@[3] == 'm' && ".py"@[2] == 'y');
    lemma_ends_otherwise(stem, ".htm"@, ".py"@, 0);
    assert(".htm"@[3] == 'm' && ".python"@[6] == 'n');
    lemma_ends_otherwise(stem, ".htm"@, ".python"@, 0);
    assert(".htm"@[3] == 'm' && ".js"@[2] == 's');
    lemma_ends_otherwise(stem, ".htm"@, ".js"@, 0);
    assert(".htm"@[3] == 'm' && ".mjs"@[3] == 's');
    lemma_ends_otherwise(stem, ".htm"@, ".mjs"@, 0);
    assert(".htm"@[3] == 'm' && ".cjs"@[3] == 's');
    lemma_ends_otherwise(stem, ".htm"@, ".cjs"@, 0);
    assert(".htm"@[3] == 'm' && ".ts"@[2] == 's');
    lemma_ends_otherwise(stem, ".htm"@, ".ts"@, 0);
    assert(".htm"@[3] == 'm' && ".tsx"@[3] == 'x');
    lemma_ends_otherwise(stem, ".htm"@, ".tsx"@, 0);
    assert(".htm"@[3] == 'm' && ".rs"@[2] == 's');
    lemma_ends_otherwise(stem, ".htm"@, ".rs"@, 0);
    assert(".htm"@[3] == 'm' && ".go"@[2] == 'o');
    lemma_ends_otherwise(stem, ".htm"@, ".go"@, 0);
    assert(".htm"@[3] == 'm' && ".sh"@[2] == 'h');
    lemma_ends_otherwise(stem, ".htm"@, ".sh"@, 0);
    assert(".htm"@[3] == 'm' && ".bash"@[4] == 'h');
    lemma_ends_otherwise(stem, ".htm"@, ".bash"@, 0);
    assert(".htm"@[3] == 'm' && ".zsh"@[3] == 'h');
    lemma_ends_otherwise(stem, ".htm"@, ".zsh"@, 0);
    assert(".htm"@[3] == 'm' && ".yaml"@[4] == 'l');
    lemma_ends_otherwise(stem, ".htm"@, ".yaml"@, 0);
    assert(".htm"@[3] == 'm' && ".yml"@[3] == 'l');
    lemma_ends_otherwise(stem, ".htm"@, ".yml"@, 0);
    assert(".htm"@[3] == 'm' && ".json"@[4] == 'n');
    lemma_ends_otherwise(stem, ".htm"@, ".json"@, 0);
    assert(".htm"@[3] == 'm' && ".md"@[2] == 'd');
    lemma_ends_otherwise(stem, ".htm"@, ".md"@, 0);
    assert(".htm"@[3] == 'm' && ".markdown"@[8] == 'n');
    lemma_ends_otherwise(stem, ".htm"@, ".markdown"@, 0);
}

proof fn lemma_language_css(stem: Seq<char>)
    ensures
        language_of(stem + ".css"@) == "css"@,
{
    reveal_strlit(".css");
    reveal_strlit(".py");
    reveal_strlit(".python");
    reveal_strlit(".js");
    reveal_strlit(".mjs");
    reveal_strlit(".cjs");
    reveal_strlit(".ts");
    reveal_strlit(".tsx");
    reveal_strlit(".rs");
    reveal_strlit(".go");
    reveal_strlit(".sh");
    reveal_strlit(".bash");
    reveal_strlit(".zsh");
    reveal_strlit(".yaml");
    reveal_strlit(".yml");
    reveal_strlit(".json");
    reveal_strlit(".md");
    reveal_strlit(".markdown");
    reveal_strlit(".html");
    reveal_strlit(".htm");
    lemma_ends(stem, ".css"@);
    assert(".css"@[3] == 's' && ".py"@[2] == 'y');
    lemma_ends_otherwise(stem, ".css"@, ".py"@, 0);
    assert(".css"@[3] == 's' && ".python"@[6] == 'n');
    lemma_ends_otherwise(stem, ".css"@, ".python"@, 0);
    assert(".css"@[2] == 's' && ".js"@[1] == 'j');
    lemma_ends_otherwise(stem, ".css"@, ".js"@, 1);
    assert(".css"@[2] == 's' && ".mjs"@[2] == 'j');
    lemma_ends_otherwise(stem, ".css"@, ".mjs"@, 1);
    assert(".css"@[2] == 's' && ".cjs"@[2] == 'j');
    lemma_ends_otherwise(stem, ".css"@, ".cjs"@, 1);
    assert(".css"@[2] == 's' && ".ts"@[1] == 't');
    lemma_ends_otherwise(stem, ".css"@, ".ts"@, 1);
    assert(".css"@[3] == 's' && ".tsx"@[3] == 'x');
    lemma_ends_otherwise(stem, ".css"@, ".tsx"@, 0);
    assert(".css"@[2] == 's' && ".rs"@[1] == 'r');
    lemma_ends_otherwise(stem, ".css"@, ".rs"@, 1);
    assert(".css"@[3] == 's' && ".go"@[2] == 'o');
    lemma_ends_otherwise(stem, ".css"@, ".go"@, 0);
    assert(".css"@[3] == 's' && ".sh"@[2] == 'h');
    lemma_ends_otherwise(stem, ".css"@, ".sh"@, 0);
    assert(".css"@[3] == 's' && ".bash"@[4] == 'h');
    lemma_ends_otherwise(stem, ".css"@, ".bash"@, 0);
    assert(".css"@[3] == 's' && ".zsh"@[3] == 'h');
    lemma_ends_otherwise(stem, ".css"@, ".zsh"@, 0);
    assert(".css"@[3] == 's' && ".yaml"@[4] == 'l');
    lemma_ends_otherwise(stem, ".css"@, ".yaml"@, 0);
    assert(".css"@[3] == 's' && ".yml"@[3] == 'l');
    lemma_ends_otherwise(stem, ".css"@, ".yml"@, 0);
    assert(".css"@[3] == 's' && ".json"@[4] == 'n');
    lemma_ends_otherwise(stem, ".css"@, ".json"@, 0);
    assert(".css"@[3] == 's' && ".md"@[2] == 'd');
    lemma_ends_otherwise(stem, ".css"@, ".md"@, 0);
    assert(".css"@[3] == 's' && ".markdown"@[8] == 'n');
    lemma_ends_otherwise(stem, ".css"@, ".markdown"@, 0);
    assert(".css"@[3] == 's' && ".html"@[4] == 'l');
    lemma_ends_otherwise(stem, ".css"@, ".html"@, 0);
    assert(".css"@[3] == 's' && ".htm"@[3] == 'm');
    lemma_ends_otherwise(stem, ".css"@, ".htm"@, 0);
}

proof fn lemma_language_toml(stem: Seq<char>)
    ensures
        language_of(stem + ".toml"@) == "toml"@,
{
    reveal_strlit(".toml");
    reveal_strlit(".py");
    reveal_strlit(".python");
    reveal_strlit(".js");
    reveal_strlit(".mjs");
    reveal_strlit(".cjs");
    reveal_strlit(".ts");
    reveal_strlit(".tsx");
    reveal_strlit(".rs");
    reveal_strlit(".go");
    reveal_strlit(".sh");
    reveal_strlit(".bash");
    reveal_strlit(".zsh");
    reveal_strlit(".yaml");
    reveal_strlit(".yml");
    reveal_strlit(".json");
    reveal_strlit(".md");
    reveal_strlit(".markdown");
    reveal_strlit(".html");
    reveal_strlit(".htm");
    reveal_strlit(".css");
    lemma_ends(stem, ".toml"@);
    assert(".toml"@[4] == 'l' && ".py"@[2] == 'y');
    lemma_ends_otherwise(stem, ".toml"@, ".py"@, 0);
    assert(".toml"@[4] == 'l' && ".python"@[6] == 'n');
    lemma_ends_otherwise(stem, ".toml"@, ".python"@, 0);
    assert(".toml"@[4] == 'l' && ".js"@[2] == 's');
    lemma_ends_otherwise(stem, ".toml"@, ".js"@, 0);
    assert(".toml"@[4] == 'l' && ".mjs"@[3] == 's');
    lemma_ends_otherwise(stem, ".toml"@, ".mjs"@, 0);
    assert(".toml"@[4] == 'l' && ".cjs"@[3] == 's');
    lemma_ends_otherwise(stem, ".toml"@, ".cjs"@, 0);
    assert(".toml"@[4] == 'l' && ".ts"@[2] == 's');
    lemma_ends_otherwise(stem, ".toml"@, ".ts"@, 0);
    assert(".toml"@[4] == 'l' && ".tsx"@[3] == 'x');
    lemma_ends_otherwise(stem, ".toml"@, ".tsx"@, 0);
    assert(".toml"@[4] == 'l' && ".rs"@[2] == 's');
    lemma_ends_otherwise(stem, ".toml"@, ".rs"@, 0);
    assert(".toml"@[4] == 'l' && ".go"@[2] == 'o');
    lemma_ends_otherwise(stem, ".toml"@, ".go"@, 0);
    assert(".toml"@[4] == 'l' && ".sh"@[2] == 'h');
    lemma_ends_otherwise(stem, ".toml"@, ".sh"@, 0);
    assert(".toml"@[4] == 'l' && ".bash"@[4] == 'h');
    lemma_ends_otherwise(stem, ".toml"@, ".bash"@, 0);
    assert(".toml"@[4] == 'l' && ".zsh"@[3] == 'h');
    lemma_ends_otherwise(stem, ".toml"@, ".zsh"@, 0);
    assert(".toml"@[2] == 'o' && ".yaml"@[2] == 'a');
    lemma_ends_otherwise(stem, ".toml"@, ".yaml"@, 2);
    assert(".toml"@[2] == 'o' && ".yml"@[1] == 'y');
    lemma_ends_otherwise(stem, ".toml"@, ".yml"@, 2);
    assert(".toml"@[4] == 'l' && ".json"@[4] == 'n');
    lemma_ends_otherwise(stem, ".toml"@, ".json"@, 0);
    assert(".toml"@[4] == 'l' && ".md"@[2] == 'd');
    lemma_ends_otherwise(stem, ".toml"@, ".md"@, 0);
    assert(".toml"@[4] == 'l' && ".markdown"@[8] == 'n');
    lemma_ends_otherwise(stem, ".toml"@, ".markdown"@, 0);
    assert(".toml"@[2] == 'o' && ".html"@[2] == 't');
    lemma_ends_otherwise(stem, ".toml"@, ".html"@, 2);
    assert(".toml"@[4] == 'l' && ".htm"@[3] == 'm');
    lemma_ends_otherwise(stem, ".toml"@, ".htm"@, 0);
    assert(".toml"@[4] == 'l' && ".css"@[3] == 's');
    lemma_ends_otherwise(stem, ".toml"@, ".css"@, 0);
}

/// The ending of a file's name tells its language.
pub proof fn endings_tell_the_language(stem: Seq<char>)
    ensures
        language_of(stem + ".py"@) == "python"@,
        language_of(stem + ".python"@) == "python"@,
        language_of(stem + ".js"@) == "javascript"@,
        language_of(stem + ".mjs"@) == "javascript"@,
        language_of(stem + ".cjs"@) == "javascript"@,
        language_of(stem + ".ts"@) == "typescript"@,
        language_of(stem + ".tsx"@) == "typescript"@,
        language_of(stem + ".rs"@) == "rust"@,
        language_of(stem + ".go"@) == "go"@,
        language_of(stem + ".sh"@) == "bash"@,
        language_of(stem + ".bash"@) == "bash"@,
        language_of(stem + ".zsh"@) == "bash"@,
        language_of(stem + ".yaml"@) == "yaml"@,
        language_of(stem + ".yml"@) == "yaml"@,
        language_of(stem + ".json"@) == "json"@,
        language_of(stem + ".md"@) == "markdown"@,
        language_of(stem + ".markdown"@) == "markdown"@,
        language_of(stem + ".html"@) == "html"@,
        language_of(stem + ".htm"@) == "html"@,
        language_of(stem + ".css"@) == "css"@,
        language_of(stem + ".toml"@) == "toml"@,
{
    lemma_language_py(stem);
    lemma_language_python(stem);
    lemma_language_js(stem);
    lemma_language_mjs(stem);
    lemma_language_cjs(stem);
    lemma_language_ts(stem);
    lemma_language_tsx(stem);
    lemma_language_rs(stem);
    lemma_language_go(stem);
    lemma_language_sh(stem);
    lemma_language_bash(stem);
    lemma_language_zsh(stem);
    lemma_language_yaml(stem);
    lemma_language_yml(stem);
    lemma_language_json(stem);
    lemma_language_md(stem);
    lemma_language_markdown(stem);
    lemma_language_html(stem);
    lemma_language_htm(stem);
    lemma_language_css(stem);
    lemma_language_toml(stem);
}

/// A script is shown in the language of its file's name, and in the hinted one where the
/// name tells none.
pub proof fn scripts_go_by_their_file_name(name: &str, hint: Seq<char>)
    ensures
        script_language(None, hint) == hint,
        language_of(name@) == "text"@ ==> script_language(Some(name), hint) == hint,
        language_of(name@) != "text"@ ==> script_language(Some(name), hint) == language_of(name@),
{
}

} // verus!
