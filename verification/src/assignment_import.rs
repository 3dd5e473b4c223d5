//! The built-in assignment-import module: its providers (Gemini among
//! them), its configuration checks, and how prompts migrate.
use vstd::prelude::*;
use crate::ai::{check_capability_for_extensions, json_string, push_json, plausible_extensions, unit_result_matches, capability_verdict, FileKind, ProviderConfig};
use crate::text::{
    blank, chars_of, has_prefix, is_blank, owned, push_text, same_text, string_of_range, trim,
    trimmed,
};

pub use crate::ai::{resolve_course_ids, AiDraft, AiRequest, AiResult, MaterialSuggestion};
use crate::modules::ModuleDescriptor;

verus! {

/// The module's identifier.
pub const ID: &'static str = "builtin.ai.assignment-import";

/// The capability the module offers.
pub const CAPABILITY: &'static str = "assignment.extract";

/// A provider as the module's settings show it.
#[derive(Debug)]
pub struct Provider {
    pub id: String,
    pub name: String,
    pub kind: String,
    pub base_url: String,
    pub model: String,
    pub has_key: bool,
}

/// A provider as the user submits it.
#[derive(Debug)]
pub struct ProviderInput {
    pub id: String,
    pub name: String,
    pub kind: String,
    pub base_url: String,
    pub model: String,
    pub api_key: String,
}

/// The module's configuration as its settings card shows it.
#[derive(Debug)]
pub struct ModuleConfig {
    pub providers: Vec<Provider>,
    pub assignment_provider_id: String,
    pub material_provider_id: String,
    pub prompt_directory: String,
}

/// Which provider each task uses.
#[derive(Debug)]
pub struct RoutingInput {
    pub assignment_provider_id: String,
    pub material_provider_id: String,
}

/// The module's descriptor from the fields read out of its bundled
/// manifest; a field the manifest lacks falls back to the module's own
/// id, its default name, or the application's version.
pub fn descriptor(
    id: Option<String>,
    name: Option<String>,
    version: Option<String>,
    package_version: &str,
) -> (d: ModuleDescriptor)
    ensures
        d.id@ == (match id {
            Some(i) => i@,
            None => ID@,
        }),
        d.name@ == (match name {
            Some(n) => n@,
            None => "AI 作业导入"@,
        }),
        d.version@ == (match version {
            Some(v) => v@,
            None => package_version@,
        }),
        d.capabilities@.len() == 1,
        d.capabilities@[0]@ == CAPABILITY@,
        d.builtin,
{
    let mut caps: Vec<String> = Vec::new();
    caps.push(owned(CAPABILITY));
    ModuleDescriptor {
        id: match id {
            Some(i) => i,
            None => owned(ID),
        },
        name: match name {
            Some(n) => n,
            None => owned("AI 作业导入"),
        },
        version: match version {
            Some(v) => v,
            None => owned(package_version),
        },
        capabilities: caps,
        builtin: true,
    }
}

/// Checks whether a provider, Gemini included, can take the chosen files.
pub fn check_capability(provider: &ProviderConfig, paths: &[String]) -> (r: Result<(), String>)
    ensures
        exists|exts: Seq<Seq<char>>|
            plausible_extensions(paths@, exts) && unit_result_matches(
                r,
                capability_verdict(true, provider.kind@, provider.model@, exts),
            ),
{
    let mut exts: Vec<String> = Vec::new();
    let mut i: usize = 0;
    while i < paths.len()
        invariant
            i <= paths.len(),
            exts@.len() == i,
            forall|k: int|
                0 <= k < i ==> crate::ai::plausible_extension(paths@[k]@, #[trigger] exts@[k]@),
        decreases paths.len() - i,
    {
        exts.push(crate::ai::file_extension(paths[i].as_str()));
        i += 1;
    }
    let r = check_capability_for_extensions(true, provider, &exts);
    assert(plausible_extensions(paths@, crate::text::texts(exts@)));
    r
}

// ---------------------------------------------------------------- Gemini

/// A byte allowed in a Gemini model name.
pub open spec fn gemini_model_char(c: char) -> bool {
    ('a' <= c && c <= 'z') || ('A' <= c && c <= 'Z') || ('0' <= c && c <= '9') || c == '-' || c
        == '_' || c == '.'
}

/// A Gemini model name: non-empty, of ASCII letters, digits, `-`, `_`, `.`.
pub open spec fn valid_gemini_model_spec(model: Seq<char>) -> bool {
    model.len() > 0 && forall|i: int| 0 <= i < model.len() ==> gemini_model_char(#[trigger] model[i])
}

/// Checks a Gemini model name before it is put into a URL path.
pub fn check_gemini_model(model: &str) -> (r: Result<(), String>)
    ensures
        r is Ok <==> valid_gemini_model_spec(model@),
        r matches Err(e) ==> e@ == "Gemini 模型名称只能包含字母、数字、连字符、下划线和点"@,
{
    let v = chars_of(model);
    let mut i: usize = 0;
    while i < v.len()
        invariant
            i <= v.len(),
            v@ == model@,
            forall|k: int| 0 <= k < i ==> gemini_model_char(#[trigger] v@[k]),
        decreases v.len() - i,
    {
        let c = v[i];
        if !(('a' <= c && c <= 'z') || ('A' <= c && c <= 'Z') || ('0' <= c && c <= '9') || c == '-'
            || c == '_' || c == '.') {
            return Err(owned("Gemini 模型名称只能包含字母、数字、连字符、下划线和点"));
        }
        i += 1;
    }
    if v.len() == 0 {
        return Err(owned("Gemini 模型名称只能包含字母、数字、连字符、下划线和点"));
    }
    Ok(())
}

/// `trim_end_matches('/')`: every trailing slash removed.
pub open spec fn strip_trailing_slashes(s: Seq<char>) -> Seq<char>
    decreases s.len(),
{
    if s.len() > 0 && s.last() == '/' {
        strip_trailing_slashes(s.drop_last())
    } else {
        s
    }
}

/// Removes trailing slashes.
pub fn without_trailing_slashes(s: &str) -> (r: String)
    ensures
        r@ == strip_trailing_slashes(s@),
{
    let v = chars_of(s);
    let mut e = v.len();
    assert(v@.take(e as int) =~= v@);
    while e > 0 && v[e - 1] == '/'
        invariant
            e <= v.len(),
            strip_trailing_slashes(v@) == strip_trailing_slashes(v@.take(e as int)),
        decreases e,
    {
        assert(v@.take(e as int).drop_last() =~= v@.take(e - 1));
        e -= 1;
    }
    assert(v@.take(e as int) =~= v@.subrange(0, e as int));
    string_of_range(&v, 0, e)
}

/// The Gemini endpoint that generates content with `model`.
pub fn gemini_endpoint(base_url: &str, model: &str) -> (r: String)
    ensures
        r@ == strip_trailing_slashes(base_url@) + "/models/"@ + model@ + ":generateContent"@,
{
    let mut r = without_trailing_slashes(base_url);
    push_text(&mut r, "/models/");
    push_text(&mut r, model);
    push_text(&mut r, ":generateContent");
    r
}

/// The concatenation of the texts that are present.
pub open spec fn joined_texts(parts: Seq<Option<String>>) -> Seq<char>
    decreases parts.len(),
{
    if parts.len() == 0 {
        Seq::empty()
    } else {
        joined_texts(parts.drop_last()) + match parts.last() {
            Some(t) => t@,
            None => Seq::empty(),
        }
    }
}

/// The text of a Gemini answer: `parts` holds the text of each part of the
/// first candidate (`None` for a part without text), or is `None` when
/// there is no candidate; `block_reason` is the prompt feedback's reason.
pub fn gemini_text(parts: Option<Vec<Option<String>>>, block_reason: Option<String>) -> (r: Result<
    String,
    String,
>)
    ensures
        parts is None ==> (r matches Err(e) && e@ == "Gemini 未返回识别结果："@ + match block_reason {
            Some(b) => b@,
            None => "没有返回候选结果"@,
        }),
        parts matches Some(ps) ==> (if joined_texts(ps@).len() == 0 {
            r matches Err(e) && e@ == "Gemini 没有返回文字内容"@
        } else {
            r matches Ok(t) && t@ == joined_texts(ps@)
        }),
{
    let ps = match parts {
        None => {
            let mut m = owned("Gemini 未返回识别结果：");
            match block_reason {
                Some(b) => push_text(&mut m, b.as_str()),
                None => push_text(&mut m, "没有返回候选结果"),
            }
            return Err(m);
        },
        Some(ps) => ps,
    };
    let mut text = String::new();
    let mut i: usize = 0;
    assert(ps@.take(0) =~= Seq::<Option<String>>::empty());
    while i < ps.len()
        invariant
            i <= ps@.len(),
            text@ == joined_texts(ps@.take(i as int)),
        decreases ps.len() - i,
    {
        assert(ps@.take(i + 1).drop_last() =~= ps@.take(i as int));
        match &ps[i] {
            Some(t) => push_text(&mut text, t.as_str()),
            None => {
                assert(text@ =~= text@ + Seq::<char>::empty());
            },
        }
        i += 1;
    }
    assert(ps@.take(i as int) =~= ps@);
    if text.as_str().is_empty() {
        return Err(owned("Gemini 没有返回文字内容"));
    }
    Ok(text)
}

/// The inline parts after the prompt, one per file (MIME type, base64
/// data), each after a comma.
pub open spec fn inline_parts(files: Seq<(String, String)>) -> Seq<char>
    decreases files.len(),
{
    if files.len() == 0 {
        Seq::empty()
    } else {
        inline_parts(files.drop_last()) + ",{\"inline_data\":{\"mime_type\":"@ + json_string(
            files.last().0@,
        ) + ",\"data\":"@ + json_string(files.last().1@) + "}}"@
    }
}

/// The Gemini `generateContent` request: the system instruction, the
/// prompt followed by the inline files, and a JSON answer asked for.
pub open spec fn gemini_request_spec(system: Seq<char>, prompt: Seq<char>, files: Seq<(String, String)>) -> Seq<
    char,
> {
    "{\"systemInstruction\":{\"parts\":[{\"text\":"@ + json_string(system)
        + "}]},\"contents\":[{\"role\":\"user\",\"parts\":[{\"text\":"@ + json_string(prompt) + "}"@
        + inline_parts(files)
        + "]}],\"generationConfig\":{\"responseMimeType\":\"application/json\",\"temperature\":0.1}}"@
}

/// The JSON text of a Gemini request.
pub fn gemini_request(system: &str, prompt: &str, files: &[(String, String)]) -> (r: String)
    ensures
        r@ == gemini_request_spec(system@, prompt@, files@),
{
    let mut r = owned("{\"systemInstruction\":{\"parts\":[{\"text\":");
    push_json(&mut r, system);
    push_text(&mut r, "}]},\"contents\":[{\"role\":\"user\",\"parts\":[{\"text\":");
    push_json(&mut r, prompt);
    push_text(&mut r, "}");
    let ghost head = r@;
    let mut i: usize = 0;
    assert(files@.take(0) =~= Seq::<(String, String)>::empty());
    assert(r@ =~= head + inline_parts(files@.take(0)));
    while i < files.len()
        invariant
            i <= files@.len(),
            r@ == head + inline_parts(files@.take(i as int)),
        decreases files.len() - i,
    {
        push_text(&mut r, ",{\"inline_data\":{\"mime_type\":");
        push_json(&mut r, files[i].0.as_str());
        push_text(&mut r, ",\"data\":");
        push_json(&mut r, files[i].1.as_str());
        push_text(&mut r, "}}");
        assert(files@.take(i + 1).drop_last() =~= files@.take(i as int));
        assert(files@.take(i + 1).last() == files@[i as int]);
        assert(r@ =~= head + inline_parts(files@.take(i + 1)));
        i += 1;
    }
    assert(files@.take(i as int) =~= files@);
    push_text(
        &mut r,
        "]}],\"generationConfig\":{\"responseMimeType\":\"application/json\",\"temperature\":0.1}}",
    );
    assert(r@ =~= gemini_request_spec(system@, prompt@, files@));
    r
}

/// A file as Gemini takes it inline: its MIME type and its bytes in
/// standard base64.
pub fn inline_file(mime: &str, bytes: &[u8]) -> (r: (String, String))
    ensures
        r.0@ == mime@,
        r.1@ == crate::ai::base64_standard(bytes@),
{
    (owned(mime), crate::ai::encode_base64(bytes))
}

/// The MIME type of a file sent inline to Gemini.
pub fn gemini_mime(kind: FileKind, ext: &str) -> (r: &'static str)
    ensures
        r@ == (if kind == FileKind::Pdf {
            "application/pdf"@
        } else {
            crate::ai::image_mime_spec(crate::text::lowercase(ext@))
        }),
{
    match kind {
        FileKind::Pdf => "application/pdf",
        _ => crate::ai::image_mime_for_extension(ext),
    }
}

// ------------------------------------------------------------- providers

/// What `reqwest::Url::parse` gives for a text: the scheme, the host and
/// the serialized URL, or `None` when it does not parse. It depends on the
/// text alone.
pub uninterp spec fn parsed_service_url(s: Seq<char>) -> Option<(Seq<char>, Option<Seq<char>>, Seq<char>)>;

/// The text view of a parsed URL.
pub open spec fn url_parts_view(r: Option<(String, Option<String>, String)>) -> Option<
    (Seq<char>, Option<Seq<char>>, Seq<char>),
> {
    match r {
        Some((a, b, c)) => Some(
            (
                a@,
                match b {
                    Some(h) => Some(h@),
                    None => None,
                },
                c@,
            ),
        ),
        None => None,
    }
}

/// `reqwest::Url::parse` with its scheme, host and serialization read
/// out; the result is named `parsed_service_url`.
#[verifier::external_body]
pub(crate) fn parse_service_url(s: &str) -> (r: Option<(String, Option<String>, String)>)
    ensures
        url_parts_view(r) == parsed_service_url(s@),
{
    match reqwest::Url::parse(s) {
        Ok(u) => {
            let host = match u.host_str() {
                Some(h) => Some(h.to_owned()),
                None => None,
            };
            Some((u.scheme().to_owned(), host, u.as_str().to_owned()))
        },
        Err(_) => None,
    }
}

/// The provider kinds the module knows.
pub open spec fn is_provider_kind(kind: Seq<char>) -> bool {
    kind == "bailian"@ || kind == "deepseek"@ || kind == "gemini"@ || kind == "custom"@
}

/// The import module knows four provider kinds, `bailian`, `deepseek`,
/// `gemini` and `custom`, and no other.
pub proof fn lemma_module_provider_kinds(kind: Seq<char>)
    ensures
        is_provider_kind(kind) <==> kind == "bailian"@ || kind == "deepseek"@ || kind == "gemini"@
            || kind == "custom"@,
        is_provider_kind("bailian"@) && is_provider_kind("deepseek"@) && is_provider_kind("gemini"@)
            && is_provider_kind("custom"@),
{
}

/// A URL the module may call: HTTPS, or HTTP to this machine.
pub open spec fn secure_url(scheme: Seq<char>, host: Option<Seq<char>>) -> bool {
    scheme == "https"@ || (scheme == "http"@ && (host == Some("localhost"@) || host == Some(
        "127.0.0.1"@,
    )))
}

/// The fields of a provider as they are stored.
#[derive(Debug)]
pub struct StoredProvider {
    pub name: String,
    pub kind: String,
    pub base_url: String,
    pub model: String,
}

/// The checks on a submitted provider, in order, given how its trimmed
/// address parses; on success the stored name, kind, address and model.
pub open spec fn provider_verdict(
    input: ProviderInput,
    parsed: Option<(Seq<char>, Option<Seq<char>>, Seq<char>)>,
) -> Result<(Seq<char>, Seq<char>, Seq<char>, Seq<char>), Seq<char>> {
    if !is_provider_kind(input.kind@) {
        Err("无效的服务商类型"@)
    } else if is_blank(input.name@) || is_blank(input.model@) {
        Err("请填写服务商名称和模型"@)
    } else {
        match parsed {
            None => Err("服务地址无效"@),
            Some((scheme, host, serialized)) => if !secure_url(scheme, host) {
                Err("服务地址必须使用 HTTPS"@)
            } else {
                Ok((trim(input.name@), input.kind@, strip_trailing_slashes(serialized), trim(input.model@)))
            },
        }
    }
}

/// Checks a submitted provider and gives the fields to store.
pub fn check_provider(input: &ProviderInput) -> (r: Result<StoredProvider, String>)
    ensures
        match (r, provider_verdict(*input, parsed_service_url(trim(input.base_url@)))) {
            (Ok(p), Ok(v)) => v == (p.name@, p.kind@, p.base_url@, p.model@),
            (Err(e), Err(m)) => e@ == m,
            _ => false,
        },
{
    let kind = input.kind.as_str();
    if !(same_text(kind, "bailian") || same_text(kind, "deepseek") || same_text(kind, "gemini")
        || same_text(kind, "custom")) {
        return Err(owned("无效的服务商类型"));
    }
    if blank(input.name.as_str()) || blank(input.model.as_str()) {
        return Err(owned("请填写服务商名称和模型"));
    }
    let address = trimmed(input.base_url.as_str());
    let parsed = parse_service_url(address.as_str());
    let (scheme, host, serialized) = match parsed {
        Some(p) => p,
        None => return Err(owned("服务地址无效")),
    };
    let https = same_text(scheme.as_str(), "https");
    let local = same_text(scheme.as_str(), "http") && match &host {
        Some(h) => same_text(h.as_str(), "localhost") || same_text(h.as_str(), "127.0.0.1"),
        None => false,
    };
    if !https && !local {
        return Err(owned("服务地址必须使用 HTTPS"));
    }
    Ok(
        StoredProvider {
            name: trimmed(input.name.as_str()),
            kind: owned(kind),
            base_url: without_trailing_slashes(serialized.as_str()),
            model: trimmed(input.model.as_str()),
        },
    )
}

/// A new key must be given unless one is stored already.
pub fn require_api_key(api_key: &str, key_stored: bool) -> (r: Result<(), String>)
    ensures
        r is Err <==> is_blank(api_key@) && !key_stored,
        r matches Err(e) ==> e@ == "请填写 API Key"@,
{
    if blank(api_key) && !key_stored {
        return Err(owned("请填写 API Key"));
    }
    Ok(())
}

/// Checks a provider chosen for a task: none, or one that exists.
pub fn check_routing_target(provider_id: &str, provider_exists: bool) -> (r: Result<(), String>)
    ensures
        r is Ok <==> provider_id@.len() == 0 || provider_exists,
        r matches Err(e) ==> e@ == "服务商不存在"@,
{
    if !provider_id.is_empty() && !provider_exists {
        return Err(owned("服务商不存在"));
    }
    Ok(())
}

// ------------------------------------------------------- prompt migration

/// What to do with one prompt file when the module starts.
#[derive(Debug)]
pub enum PromptAction {
    /// Write the bundled prompt.
    WriteBundled,
    /// Copy the user's prompt from the old location.
    Migrate(String),
    /// Leave the file as it is.
    Keep,
}

/// The prompt action: the file's own text, else the old location's, is
/// the user's prompt; with none, or with the untouched old default, the
/// bundled prompt is written; a prompt found only in the old location is
/// copied over; otherwise nothing changes.
pub fn prompt_action(
    existing: Option<String>,
    old: Option<String>,
    legacy: &str,
    destination_exists: bool,
) -> (r: PromptAction)
    ensures
        ({
            let replacement = if existing is Some {
                existing
            } else {
                old
            };
            match replacement {
                None => r is WriteBundled,
                Some(t) => if t@ == legacy@ {
                    r is WriteBundled
                } else if !destination_exists {
                    r matches PromptAction::Migrate(m) && m@ == t@
                } else {
                    r is Keep
                },
            }
        }),
{
    let replacement = match existing {
        Some(e) => Some(e),
        None => old,
    };
    match replacement {
        None => PromptAction::WriteBundled,
        Some(t) => if same_text(t.as_str(), legacy) {
            PromptAction::WriteBundled
        } else if !destination_exists {
            PromptAction::Migrate(t)
        } else {
            PromptAction::Keep
        },
    }
}

/// A path segment of lower-case ASCII letters and hyphens: relative on
/// every platform, with no separator or drive prefix.
pub open spec fn plain_segment(part: Seq<char>) -> bool {
    part.len() > 0 && forall|i: int| 0 <= i < part.len() ==> ('a' <= #[trigger] part[i] && part[i] <= 'z') || part[i] == '-'
}

/// A path with the Windows verbatim prefix `\\?\`, in which `Path::join`
/// rewrites the base path's components.
pub open spec fn verbatim_path(p: Seq<char>) -> bool {
    &&& p.len() >= 4
    &&& p[0] == '\\'
    &&& p[1] == '\\'
    &&& p[2] == '?'
    &&& p[3] == '\\'
}

/// `r` is `base` followed by `part`, directly or with one separator between.
pub open spec fn joined(base: Seq<char>, part: Seq<char>, r: Seq<char>) -> bool {
    ||| r == base + part
    ||| r == base + seq!['/'] + part
    ||| r == base + seq!['\\'] + part
}

/// `Path::join` from std for a plain segment `part`. Whether a separator is
/// put between depends on the platform and on how `base` ends, so the
/// result is not named; what holds everywhere is that it ends with `part`
/// and, unless `base` is a verbatim path, is `base` and `part` joined
/// directly or with one separator.
#[verifier::external_body]
fn join_path(base: &str, part: &str) -> (r: String)
    requires
        plain_segment(part@),
    ensures
        !verbatim_path(base@) ==> joined(base@, part@, r@),
        crate::text::has_suffix(r@, part@),
{
    std::path::Path::new(base).join(part).to_string_lossy().into_owned()
}

/// A path that starts like a verbatim prefix (`\\?`).
pub open spec fn verbatim_start(p: Seq<char>) -> bool {
    &&& p.len() >= 3
    &&& p[0] == '\\'
    &&& p[1] == '\\'
    &&& p[2] == '?'
}

proof fn lemma_joined_start(base: Seq<char>, part: Seq<char>, r: Seq<char>)
    requires
        joined(base, part, r),
    ensures
        r.len() >= base.len() + part.len(),
        forall|i: int| 0 <= i < base.len() ==> r[i] == base[i],
        r.len() == base.len() + part.len() ==> forall|i: int| 0 <= i < part.len() ==> r[base.len() + i] == part[i],
        r.len() > base.len() + part.len() ==> (r[base.len() as int] == '/' || r[base.len() as int] == '\\')
            && forall|i: int| 0 <= i < part.len() ==> r[base.len() + 1 + i] == part[i],
{
}

/// The folder holding the module's editable prompts under the data folder:
/// the data folder, `modules`, `assignment-import` and `prompts`, in this
/// order, each joined to the one before directly or with one separator (for
/// a data folder that does not start like a verbatim path).
pub fn prompt_dir(data_dir: &str) -> (r: String)
    ensures
        !verbatim_start(data_dir@) ==> exists|a: Seq<char>, b: Seq<char>|
            joined(data_dir@, "modules"@, a) && joined(a, "assignment-import"@, b) && joined(b, "prompts"@, r@),
        crate::text::has_suffix(r@, "prompts"@),
{
    proof {
        reveal_strlit("modules");
        reveal_strlit("assignment-import");
        reveal_strlit("prompts");
        assert(plain_segment("modules"@));
        assert(plain_segment("assignment-import"@));
        assert(plain_segment("prompts"@));
    }
    let a = join_path(data_dir, "modules");
    let b = join_path(a.as_str(), "assignment-import");
    let r = join_path(b.as_str(), "prompts");
    proof {
        if !verbatim_start(data_dir@) {
            let d = data_dir@;
            lemma_joined_start(d, "modules"@, a@);
            if verbatim_path(a@) {
                if d.len() >= 3 {
                    assert(d[0] == a@[0] && d[1] == a@[1] && d[2] == a@[2]);
                } else {
                    assert(a@[2] == '?');
                    assert(false);
                }
            }
            lemma_joined_start(a@, "assignment-import"@, b@);
            if verbatim_path(b@) {
                assert(b@[0] == a@[0] && b@[1] == a@[1] && b@[2] == a@[2] && b@[3] == a@[3]);
            }
            lemma_joined_start(b@, "prompts"@, r@);
        }
    }
    r
}

} // verus!
