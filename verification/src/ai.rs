//! AI assignment import: which files a model may receive, how its answer
//! is framed and cleaned, how courses are matched, and how prompts are
//! filled in.
use base64::Engine;
use vstd::prelude::*;
use crate::text::{
    blank, brace_token, chars_of, contains, contains_text, eq_ignore_ascii_case,
    equal_ignoring_ascii_case, has_char, has_prefix, is_blank, lemma_replace_inserts,
    lemma_replace_keeps_token, lowercase, occurs_at, owned, push_text, replace_all, replace_text,
    same_text, starts_with, string_of_range, to_lowercase, trim, trim_bounds,
};

verus! {

/// What the user hands to the import: pasted text and chosen files.
#[derive(Debug)]
pub struct AiRequest {
    pub text: String,
    pub paths: Vec<String>,
}

/// One assignment proposed by a model, before the user reviews it.
#[derive(Debug)]
pub struct AiDraft {
    pub course_name: String,
    pub course_id: String,
    pub title: String,
    pub description: String,
    pub due_at: Option<String>,
    pub submission_label: String,
    pub submission_url: String,
    pub submission_notes: String,
    pub evidence: String,
}

/// The drafts a model proposed.
#[derive(Debug)]
pub struct AiResult {
    pub assignments: Vec<AiDraft>,
}

/// Reviewed drafts to be saved, with the files to link to each.
#[derive(Debug)]
pub struct SaveImportRequest {
    pub drafts: Vec<AiDraft>,
    pub paths: Vec<String>,
    pub source_name: String,
    pub source_text: String,
}

/// Where in a course file an assignment's material was found.
#[derive(Debug)]
pub struct MaterialSuggestion {
    pub assignment_id: String,
    pub file_id: String,
    pub page: Option<String>,
    pub chapter: Option<String>,
    pub problem: Option<String>,
    pub evidence: String,
}

/// A configured model provider.
#[derive(Debug)]
pub struct ProviderConfig {
    pub id: String,
    pub kind: String,
    pub base_url: String,
    pub model: String,
}

/// The kinds of file the import accepts.
#[derive(Debug, Clone, Copy, PartialEq, Eq, Structural)]
pub enum FileKind {
    Pdf,
    Docx,
    Image,
}

// ----------------------------------------------------------- file kinds

/// The kind named by a lower-cased extension.
pub open spec fn kind_of_extension(lower: Seq<char>) -> Option<FileKind> {
    if lower == "pdf"@ {
        Some(FileKind::Pdf)
    } else if lower == "docx"@ {
        Some(FileKind::Docx)
    } else if lower == "png"@ || lower == "jpg"@ || lower == "jpeg"@ || lower == "gif"@ || lower
        == "webp"@ {
        Some(FileKind::Image)
    } else {
        None
    }
}

/// The kind of a file with extension `ext`, or the message for an
/// unsupported format, which names the lower-cased extension.
pub open spec fn classify_spec(ext: Seq<char>) -> Result<FileKind, Seq<char>> {
    match kind_of_extension(lowercase(ext)) {
        Some(k) => Ok(k),
        None => Err("不支持的导入文件格式："@ + lowercase(ext)),
    }
}

/// Whether a classification result agrees with its description.
pub open spec fn kind_result_matches(r: Result<FileKind, String>, s: Result<FileKind, Seq<char>>) -> bool {
    match r {
        Ok(k) => s == Ok::<FileKind, Seq<char>>(k),
        Err(e) => s == Err::<FileKind, Seq<char>>(e@),
    }
}

/// Classifies a file by its extension.
pub fn classify_extension(ext: &str) -> (r: Result<FileKind, String>)
    ensures
        kind_result_matches(r, classify_spec(ext@)),
{
    let lower = to_lowercase(ext);
    let l = lower.as_str();
    if same_text(l, "pdf") {
        Ok(FileKind::Pdf)
    } else if same_text(l, "docx") {
        Ok(FileKind::Docx)
    } else if same_text(l, "png") || same_text(l, "jpg") || same_text(l, "jpeg") || same_text(
        l,
        "gif",
    ) || same_text(l, "webp") {
        Ok(FileKind::Image)
    } else {
        let mut m = owned("不支持的导入文件格式：");
        push_text(&mut m, l);
        Err(m)
    }
}

/// A character that separates path components, or ends a drive prefix, on
/// some platform.
pub open spec fn path_mark(c: char) -> bool {
    c == '/' || c == '\\' || c == ':'
}

/// A path that starts with two slashes: a network or device prefix on
/// some platforms.
pub open spec fn prefixed_path(path: Seq<char>) -> bool {
    &&& path.len() >= 2
    &&& (path[0] == '/' || path[0] == '\\')
    &&& (path[1] == '/' || path[1] == '\\')
}

/// `d` is the last dot of `path`, inside its last component and after
/// the first character of the file name: what follows it is the extension
/// on every platform.
pub open spec fn extension_dot(path: Seq<char>, d: int) -> bool {
    &&& 0 < d < path.len()
    &&& path[d] == '.'
    &&& !path_mark(path[d - 1])
    &&& forall|k: int| d < k < path.len() ==> path[k] != '.' && !path_mark(#[trigger] path[k])
}

/// `k` is the last `/` of `path`, and what follows it holds no dot and
/// something other than a backslash: the file name lies there and has no
/// extension on every platform.
pub open spec fn dotless_tail(path: Seq<char>, k: int) -> bool {
    &&& 0 <= k < path.len()
    &&& path[k] == '/'
    &&& forall|j: int| k < j < path.len() ==> #[trigger] path[j] != '.' && path[j] != '/'
    &&& exists|j: int| k < j < path.len() && #[trigger] path[j] != '\\'
}

/// `d` is the last dot of `path`, it starts the path or follows a `/`, and
/// something other than a separator follows it: the file name starts with
/// its only dot, which gives no extension on every platform.
pub open spec fn leading_dot(path: Seq<char>, d: int) -> bool {
    &&& 0 <= d
    &&& d + 1 < path.len()
    &&& path[d] == '.'
    &&& (d == 0 || path[d - 1] == '/')
    &&& path[d + 1] != '\\'
    &&& forall|j: int| d < j < path.len() ==> #[trigger] path[j] != '.' && path[j] != '/'
}

/// `Path::extension` of `path` as text, empty when there is none. Which
/// characters separate components depends on the platform, so the result
/// is not named; what holds everywhere is stated: it contains no dot and
/// occurs in the path, it is empty when the path holds no dot, and for a
/// path without a network prefix: when the last dot follows a file-name
/// character with no separator after it, it is what follows that dot; when
/// the file name after the last `/` holds no dot, or starts with its only
/// dot, it is empty.
#[verifier::external_body]
pub(crate) fn file_extension(path: &str) -> (r: String)
    ensures
        plausible_extension(path@, r@),
{
    std::path::Path::new(path).extension().and_then(|e| e.to_str()).unwrap_or("").to_owned()
}

/// An extension as the file-extension reading may give it.
pub open spec fn plausible_extension(path: Seq<char>, ext: Seq<char>) -> bool {
    &&& !has_char(ext, '.')
    &&& contains_text(path, ext)
    &&& (!has_char(path, '.') ==> ext.len() == 0)
    &&& (!prefixed_path(path) ==> forall|d: int| #[trigger] extension_dot(path, d) ==> ext == path.skip(d + 1))
    &&& (!prefixed_path(path) ==> forall|k: int| #[trigger] dotless_tail(path, k) ==> ext.len() == 0)
    &&& (!prefixed_path(path) ==> forall|d: int| #[trigger] leading_dot(path, d) ==> ext.len() == 0)
}

/// Classifies a file by the extension of its path.
pub fn classify(path: &str) -> (r: Result<FileKind, String>)
    ensures
        exists|ext: Seq<char>| plausible_extension(path@, ext) && kind_result_matches(r, classify_spec(ext)),
{
    let ext = file_extension(path);
    let r = classify_extension(ext.as_str());
    assert(plausible_extension(path@, ext@));
    r
}

/// The image MIME type named by a lower-cased extension (JPEG otherwise).
pub open spec fn image_mime_spec(lower: Seq<char>) -> Seq<char> {
    if lower == "png"@ {
        "image/png"@
    } else if lower == "gif"@ {
        "image/gif"@
    } else if lower == "webp"@ {
        "image/webp"@
    } else {
        "image/jpeg"@
    }
}

/// The image MIME type for an extension.
pub fn image_mime_for_extension(ext: &str) -> (r: &'static str)
    ensures
        r@ == image_mime_spec(lowercase(ext@)),
{
    let lower = to_lowercase(ext);
    let l = lower.as_str();
    if same_text(l, "png") {
        "image/png"
    } else if same_text(l, "gif") {
        "image/gif"
    } else if same_text(l, "webp") {
        "image/webp"
    } else {
        "image/jpeg"
    }
}

/// The image MIME type for a file path.
pub fn image_mime(path: &str) -> (r: &'static str)
    ensures
        exists|ext: Seq<char>| plausible_extension(path@, ext) && r@ == image_mime_spec(lowercase(ext)),
{
    let ext = file_extension(path);
    let r = image_mime_for_extension(ext.as_str());
    assert(plausible_extension(path@, ext@));
    r
}

/// The MIME type of an uploaded file of a given kind.
pub open spec fn upload_mime_spec(kind: FileKind, lower_ext: Seq<char>) -> Seq<char> {
    match kind {
        FileKind::Pdf => "application/pdf"@,
        FileKind::Docx => "application/vnd.openxmlformats-officedocument.wordprocessingml.document"@,
        FileKind::Image => image_mime_spec(lower_ext),
    }
}

/// The MIME type of an uploaded file, from its kind and extension.
pub fn upload_mime(kind: FileKind, ext: &str) -> (r: &'static str)
    ensures
        r@ == upload_mime_spec(kind, lowercase(ext@)),
{
    match kind {
        FileKind::Pdf => "application/pdf",
        FileKind::Docx => "application/vnd.openxmlformats-officedocument.wordprocessingml.document",
        FileKind::Image => image_mime_for_extension(ext),
    }
}

// --------------------------------------------------- provider capabilities

/// Whether the provider takes files through its file interface.
pub open spec fn is_file_model(kind: Seq<char>, model_lower: Seq<char>) -> bool {
    kind == "bailian"@ && (has_prefix(model_lower, "qwen-long"@) || model_lower == "qwen-doc-turbo"@)
}

/// Whether a model marked for images accepts an image.
pub open spec fn image_model(gemini: bool, kind: Seq<char>, model_lower: Seq<char>) -> bool {
    ||| (gemini && kind == "gemini"@)
    ||| (kind == "deepseek"@ && model_lower == "deepseek-flash"@)
    ||| (kind == "bailian"@ && (has_prefix(model_lower, "qwen3.8-"@) || contains_text(model_lower, "vl"@)))
}

/// The verdict on one file for a provider. `gemini` says whether Gemini
/// providers are known (the assignment-import module knows them).
pub open spec fn file_verdict(
    gemini: bool,
    kind: Seq<char>,
    model_lower: Seq<char>,
    ext: Seq<char>,
) -> Result<(), Seq<char>> {
    let file_model = is_file_model(kind, model_lower);
    match classify_spec(ext) {
        Err(e) => Err(e),
        Ok(FileKind::Pdf) => if kind != "bailian"@ && !(gemini && kind == "gemini"@) {
            if gemini {
                Err("所选服务商不支持直接传入 PDF。请切换到支持 PDF 文件输入的百炼或 Gemini 模型。"@)
            } else {
                Err("所选服务商不支持直接传入 PDF。请切换到支持 PDF 文件输入的百炼模型。"@)
            }
        } else if kind == "bailian"@ && !has_prefix(model_lower, "qwen3.8-"@) && !file_model {
            Err("此百炼模型未标记为支持 PDF。请选择 qwen3.8 系列、qwen-long 或 qwen-doc-turbo。"@)
        } else {
            Ok(())
        },
        Ok(FileKind::Docx) => if !file_model {
            Err("所选模型不支持直接传入 DOCX。请选择百炼 qwen-long 或 qwen-doc-turbo。"@)
        } else {
            Ok(())
        },
        Ok(FileKind::Image) => if !file_model && !image_model(gemini, kind, model_lower) {
            Err("所选模型未标记为支持图片。请使用百炼视觉模型、qwen-long、qwen-doc-turbo 或 deepseek-flash。"@)
        } else {
            Ok(())
        },
    }
}

/// The verdict on the files in order: the first refusal, if any.
pub open spec fn files_verdict(
    gemini: bool,
    kind: Seq<char>,
    model_lower: Seq<char>,
    exts: Seq<Seq<char>>,
) -> Result<(), Seq<char>>
    decreases exts.len(),
{
    if exts.len() == 0 {
        Ok(())
    } else {
        match file_verdict(gemini, kind, model_lower, exts[0]) {
            Err(e) => Err(e),
            Ok(_) => files_verdict(gemini, kind, model_lower, exts.drop_first()),
        }
    }
}

/// Whether a provider can take files with the given extensions:
/// `qwen-doc-turbo` takes one file at a time, then each file is checked.
pub open spec fn capability_verdict(
    gemini: bool,
    kind: Seq<char>,
    model: Seq<char>,
    exts: Seq<Seq<char>>,
) -> Result<(), Seq<char>> {
    let m = lowercase(model);
    if m == "qwen-doc-turbo"@ && exts.len() > 1 {
        Err("qwen-doc-turbo 一次只支持一个文件，请分批导入或切换 qwen-long"@)
    } else {
        files_verdict(gemini, kind, m, exts)
    }
}

/// Whether a unit result agrees with its description.
pub open spec fn unit_result_matches(r: Result<(), String>, s: Result<(), Seq<char>>) -> bool {
    match r {
        Ok(_) => s is Ok,
        Err(e) => s == Err::<(), Seq<char>>(e@),
    }
}

fn file_model_of(kind: &str, model_lower: &Vec<char>) -> (b: bool)
    ensures
        b == is_file_model(kind@, model_lower@),
{
    same_text(kind, "bailian") && (starts_with(model_lower, &chars_of("qwen-long")) || crate::text::seq_equal(
        model_lower,
        &chars_of("qwen-doc-turbo"),
    ))
}

fn check_one_file(gemini: bool, kind: &str, model_lower: &Vec<char>, ext: &str) -> (r: Result<(), String>)
    ensures
        unit_result_matches(r, file_verdict(gemini, kind@, model_lower@, ext@)),
{
    let file_model = file_model_of(kind, model_lower);
    let k = classify_extension(ext)?;
    let bailian = same_text(kind, "bailian");
    let is_gemini = gemini && same_text(kind, "gemini");
    match k {
        FileKind::Pdf => {
            if !bailian && !is_gemini {
                if gemini {
                    return Err(
                        owned(
                            "所选服务商不支持直接传入 PDF。请切换到支持 PDF 文件输入的百炼或 Gemini 模型。",
                        ),
                    );
                } else {
                    return Err(
                        owned("所选服务商不支持直接传入 PDF。请切换到支持 PDF 文件输入的百炼模型。"),
                    );
                }
            }
            if bailian && !starts_with(model_lower, &chars_of("qwen3.8-")) && !file_model {
                return Err(
                    owned(
                        "此百炼模型未标记为支持 PDF。请选择 qwen3.8 系列、qwen-long 或 qwen-doc-turbo。",
                    ),
                );
            }
            Ok(())
        },
        FileKind::Docx => {
            if !file_model {
                return Err(
                    owned("所选模型不支持直接传入 DOCX。请选择百炼 qwen-long 或 qwen-doc-turbo。"),
                );
            }
            Ok(())
        },
        FileKind::Image => {
            let vision = is_gemini || (same_text(kind, "deepseek") && crate::text::seq_equal(
                model_lower,
                &chars_of("deepseek-flash"),
            )) || (bailian && (starts_with(model_lower, &chars_of("qwen3.8-")) || contains(
                model_lower,
                &chars_of("vl"),
            )));
            if !file_model && !vision {
                return Err(
                    owned(
                        "所选模型未标记为支持图片。请使用百炼视觉模型、qwen-long、qwen-doc-turbo 或 deepseek-flash。",
                    ),
                );
            }
            Ok(())
        },
    }
}

/// Checks whether a provider can take files with the given extensions.
pub fn check_capability_for_extensions(
    gemini: bool,
    provider: &ProviderConfig,
    exts: &Vec<String>,
) -> (r: Result<(), String>)
    ensures
        unit_result_matches(
            r,
            capability_verdict(gemini, provider.kind@, provider.model@, crate::text::texts(exts@)),
        ),
{
    let ghost es = crate::text::texts(exts@);
    let lower = to_lowercase(provider.model.as_str());
    let m = chars_of(lower.as_str());
    if crate::text::seq_equal(&m, &chars_of("qwen-doc-turbo")) && exts.len() > 1 {
        return Err(owned("qwen-doc-turbo 一次只支持一个文件，请分批导入或切换 qwen-long"));
    }
    assert(capability_verdict(gemini, provider.kind@, provider.model@, es) == files_verdict(
        gemini,
        provider.kind@,
        m@,
        es,
    ));
    let mut i: usize = 0;
    assert(es.skip(0) =~= es);
    while i < exts.len()
        invariant
            i <= exts.len(),
            es == crate::text::texts(exts@),
            m@ == lowercase(provider.model@),
            capability_verdict(gemini, provider.kind@, provider.model@, es) == files_verdict(
                gemini,
                provider.kind@,
                m@,
                es,
            ),
            files_verdict(gemini, provider.kind@, m@, es) == files_verdict(
                gemini,
                provider.kind@,
                m@,
                es.skip(i as int),
            ),
        decreases exts.len() - i,
    {
        assert(es.skip(i as int).drop_first() =~= es.skip(i + 1));
        assert(es.skip(i as int)[0] == exts@[i as int]@);
        let one = check_one_file(gemini, provider.kind.as_str(), &m, exts[i].as_str());
        if let Err(e) = one {
            assert(es.skip(i as int).len() > 0);
            assert(files_verdict(gemini, provider.kind@, m@, es.skip(i as int)) == Err::<(), Seq<char>>(
                e@,
            ));
            return Err(e);
        }
        i += 1;
    }
    assert(es.skip(i as int) =~= Seq::<Seq<char>>::empty());
    Ok(())
}

/// The extensions of the given paths, in order.
fn extensions_of(paths: &[String]) -> (r: Vec<String>)
    ensures
        r@.len() == paths@.len(),
        forall|i: int| 0 <= i < r@.len() ==> plausible_extension(paths@[i]@, #[trigger] r@[i]@),
{
    let mut r: Vec<String> = Vec::new();
    let mut i: usize = 0;
    while i < paths.len()
        invariant
            i <= paths.len(),
            r@.len() == i,
            forall|k: int| 0 <= k < i ==> plausible_extension(paths@[k]@, #[trigger] r@[k]@),
        decreases paths.len() - i,
    {
        r.push(file_extension(paths[i].as_str()));
        i += 1;
    }
    r
}

/// Extensions that the file-extension reading may give for `paths`.
pub open spec fn plausible_extensions(paths: Seq<String>, exts: Seq<Seq<char>>) -> bool {
    &&& exts.len() == paths.len()
    &&& forall|i: int| 0 <= i < exts.len() ==> plausible_extension(paths[i]@, #[trigger] exts[i])
}

/// Checks whether the configured provider can take the chosen files.
pub fn check_capability(provider: &ProviderConfig, paths: &[String]) -> (r: Result<(), String>)
    ensures
        exists|exts: Seq<Seq<char>>|
            plausible_extensions(paths@, exts) && unit_result_matches(
                r,
                capability_verdict(false, provider.kind@, provider.model@, exts),
            ),
{
    let exts = extensions_of(paths);
    let r = check_capability_for_extensions(false, provider, &exts);
    assert(plausible_extensions(paths@, crate::text::texts(exts@)));
    r
}

// ------------------------------------------------------- model answers

/// The position of the first `c` in `s`.
pub open spec fn find_char(s: Seq<char>, c: char) -> Option<int>
    decreases s.len(),
{
    if s.len() == 0 {
        None
    } else if s[0] == c {
        Some(0)
    } else {
        match find_char(s.drop_first(), c) {
            Some(i) => Some(i + 1),
            None => None,
        }
    }
}

/// The position of the last `c` in `s`.
pub open spec fn rfind_char(s: Seq<char>, c: char) -> Option<int>
    decreases s.len(),
{
    if s.len() == 0 {
        None
    } else if s.last() == c {
        Some(s.len() - 1)
    } else {
        rfind_char(s.drop_last(), c)
    }
}

/// The part of a model's answer that should hold the JSON object: the
/// trimmed answer if it starts with `{`, else the span from its first `{`
/// to its last `}`.
pub open spec fn json_region_spec(content: Seq<char>) -> Result<Seq<char>, Seq<char>> {
    let t = trim(content);
    if has_prefix(t, "{"@) {
        Ok(t)
    } else {
        match find_char(t, '{') {
            None => Err("模型未返回可解析的作业数据"@),
            Some(a) => match rfind_char(t, '}') {
                None => Err("模型未返回完整的作业数据"@),
                Some(b) => if b + 1 < a {
                    Err("模型返回格式无效，请重试或改用手动录入"@)
                } else {
                    Ok(t.subrange(a, b + 1))
                },
            },
        }
    }
}

fn find_first(v: &Vec<char>, from: usize, to: usize, c: char) -> (r: Option<usize>)
    requires
        from <= to <= v.len(),
    ensures
        match r {
            Some(i) => find_char(v@.subrange(from as int, to as int), c) == Some((i - from) as int) && from
                <= i < to,
            None => find_char(v@.subrange(from as int, to as int), c) is None,
        },
{
    let mut i = from;
    while i < to
        invariant
            from <= i <= to <= v.len(),
            forall|k: int| from <= k < i ==> v@[k] != c,
        decreases to - i,
    {
        if v[i] == c {
            proof {
                lemma_find_char_at(v@.subrange(from as int, to as int), c, (i - from) as int);
            }
            return Some(i);
        }
        i += 1;
    }
    proof {
        lemma_find_char_none(v@.subrange(from as int, to as int), c);
    }
    None
}

proof fn lemma_find_char_at(s: Seq<char>, c: char, i: int)
    requires
        0 <= i < s.len(),
        s[i] == c,
        forall|k: int| 0 <= k < i ==> s[k] != c,
    ensures
        find_char(s, c) == Some(i),
    decreases i,
{
    if i > 0 {
        lemma_find_char_at(s.drop_first(), c, i - 1);
    }
}

proof fn lemma_find_char_none(s: Seq<char>, c: char)
    requires
        forall|k: int| 0 <= k < s.len() ==> s[k] != c,
    ensures
        find_char(s, c) is None,
    decreases s.len(),
{
    if s.len() > 0 {
        lemma_find_char_none(s.drop_first(), c);
    }
}

proof fn lemma_rfind_char(s: Seq<char>, c: char, j: int)
    requires
        0 <= j <= s.len(),
        forall|k: int| j <= k < s.len() ==> s[k] != c,
    ensures
        rfind_char(s, c) == rfind_char(s.take(j), c),
    decreases s.len() - j,
{
    if j < s.len() {
        assert(s.drop_last() =~= s.take(s.len() - 1));
        lemma_rfind_char(s.drop_last(), c, j);
        assert(s.drop_last().take(j) =~= s.take(j));
    } else {
        assert(s.take(j) =~= s);
    }
}

fn find_last(v: &Vec<char>, from: usize, to: usize, c: char) -> (r: Option<usize>)
    requires
        from <= to <= v.len(),
    ensures
        match r {
            Some(i) => rfind_char(v@.subrange(from as int, to as int), c) == Some((i - from) as int) && from
                <= i < to,
            None => rfind_char(v@.subrange(from as int, to as int), c) is None,
        },
{
    let ghost s = v@.subrange(from as int, to as int);
    let mut j = to;
    while j > from
        invariant
            from <= j <= to <= v.len(),
            s == v@.subrange(from as int, to as int),
            forall|k: int| j <= k < to ==> v@[k] != c,
        decreases j - from,
    {
        if v[j - 1] == c {
            proof {
                lemma_rfind_char(s, c, j - from);
                assert(s.take(j - from).last() == c);
            }
            return Some(j - 1);
        }
        j -= 1;
    }
    proof {
        lemma_rfind_char(s, c, 0);
    }
    None
}

fn opens_object(v: &Vec<char>, a: usize, b: usize) -> (r: bool)
    requires
        a <= b <= v.len(),
    ensures
        r == has_prefix(v@.subrange(a as int, b as int), "{"@),
{
    let r = a < b && v[a] == '{';
    proof {
        reveal_strlit("{");
        let t = v@.subrange(a as int, b as int);
        assert("{"@.len() == 1);
        assert("{"@[0] == '{');
        if a < b {
            assert(t.take(1)[0] == v@[a as int]);
            if v@[a as int] == '{' {
                assert(t.take(1) =~= "{"@);
            } else {
                assert(t.take(1) != "{"@);
            }
        }
    }
    r
}

/// The part of a model's answer that holds the JSON object; an answer
/// whose last `}` comes before its first `{` is refused as invalid.
pub fn json_region(content: &str) -> (r: Result<String, String>)
    ensures
        crate::files::result_matches(r, json_region_spec(content@)),
{
    let v = chars_of(content);
    let (a, b) = trim_bounds(&v);
    let ghost t = v@.subrange(a as int, b as int);
    if opens_object(&v, a, b) {
        return Ok(string_of_range(&v, a, b));
    }
    let x = match find_first(&v, a, b, '{') {
        Some(x) => x,
        None => return Err(owned("模型未返回可解析的作业数据")),
    };
    let y = match find_last(&v, a, b, '}') {
        Some(y) => y,
        None => return Err(owned("模型未返回完整的作业数据")),
    };
    if y + 1 < x {
        return Err(owned("模型返回格式无效，请重试或改用手动录入"));
    }
    if y + 1 == x {
        assert(t.subrange(x - a, y + 1 - a) =~= Seq::<char>::empty());
        return Ok(String::new());
    }
    assert(t.subrange(x - a, y + 1 - a) =~= v@.subrange(x as int, y + 1));
    Ok(string_of_range(&v, x, y + 1))
}

/// What chrono's `NaiveDateTime::parse_from_str(s, "%Y-%m-%dT%H:%M:%S")`
/// accepts: a local date and time in that format. It depends on `s` alone.
pub uninterp spec fn local_datetime_parses(s: Seq<char>) -> bool;

/// chrono's `NaiveDateTime::parse_from_str` with the fixed local format;
/// whether it succeeds is named `local_datetime_parses`.
#[verifier::external_body]
fn is_local_datetime(s: &str) -> (b: bool)
    ensures
        b == local_datetime_parses(s@),
{
    chrono::NaiveDateTime::parse_from_str(s, "%Y-%m-%dT%H:%M:%S").is_ok()
}

/// The drafts whose title is not blank, in order.
pub open spec fn titled(ds: Seq<AiDraft>) -> Seq<AiDraft>
    decreases ds.len(),
{
    if ds.len() == 0 {
        Seq::empty()
    } else {
        let rest = titled(ds.drop_last());
        if is_blank(ds.last().title@) {
            rest
        } else {
            rest.push(ds.last())
        }
    }
}

/// A draft with a due time that does not parse cleared to `None`.
pub open spec fn due_checked(d: AiDraft) -> AiDraft {
    match d.due_at {
        Some(s) => if local_datetime_parses(s@) {
            d
        } else {
            AiDraft { due_at: None, ..d }
        },
        None => d,
    }
}

/// The drafts kept from a model's answer, each with its due time checked.
pub open spec fn finished_drafts(ds: Seq<AiDraft>) -> Seq<AiDraft> {
    titled(ds).map_values(|d: AiDraft| due_checked(d))
}

/// Cleans a parsed model answer: drafts without a title are dropped, an
/// answer with none left is refused, and due times that are not a local
/// date and time become `None`.
pub fn finish_drafts(result: AiResult) -> (r: Result<AiResult, String>)
    ensures
        r is Err <==> titled(result.assignments@).len() == 0,
        r matches Err(e) ==> e@ == "未识别出独立作业，请检查输入内容"@,
        r matches Ok(res) ==> res.assignments@ == finished_drafts(result.assignments@),
{
    let ghost ds = result.assignments@;
    let total = result.assignments.len();
    let mut kept: Vec<AiDraft> = Vec::new();
    let mut input = result.assignments;
    let mut rev: Vec<AiDraft> = Vec::new();
    // Reverse once so that popping visits the drafts in their order.
    while input.len() > 0
        invariant
            rev@.len() + input@.len() == ds.len(),
            input@ == ds.take(input@.len() as int),
            forall|k: int| 0 <= k < rev@.len() ==> #[trigger] rev@[k] == ds[ds.len() - 1 - k],
        decreases input.len(),
    {
        let d = input.pop().unwrap();
        rev.push(d);
        assert(input@ =~= ds.take(input@.len() as int));
    }
    let mut i: usize = 0;
    assert(ds.take(0) =~= Seq::<AiDraft>::empty());
    assert(kept@ =~= finished_drafts(ds.take(0)));
    while rev.len() > 0
        invariant
            total == ds.len(),
            i + rev@.len() == ds.len(),
            forall|k: int| 0 <= k < rev@.len() ==> #[trigger] rev@[k] == ds[ds.len() - 1 - k],
            kept@ == finished_drafts(ds.take(i as int)),
            kept@.len() == titled(ds.take(i as int)).len(),
        decreases rev.len(),
    {
        let d = rev.pop().unwrap();
        assert(d == ds[i as int]);
        let ghost prefix = ds.take(i + 1);
        assert(prefix.drop_last() =~= ds.take(i as int));
        if !blank(d.title.as_str()) {
            let due = match d.due_at {
                Some(s) => if is_local_datetime(s.as_str()) {
                    Some(s)
                } else {
                    None
                },
                None => None,
            };
            let kept_draft = AiDraft {
                course_name: d.course_name,
                course_id: d.course_id,
                title: d.title,
                description: d.description,
                due_at: due,
                submission_label: d.submission_label,
                submission_url: d.submission_url,
                submission_notes: d.submission_notes,
                evidence: d.evidence,
            };
            assert(kept_draft == due_checked(ds[i as int]));
            kept.push(kept_draft);
            assert(kept@ =~= finished_drafts(prefix));
        } else {
            assert(kept@ =~= finished_drafts(prefix));
        }
        i += 1;
    }
    assert(ds.take(i as int) =~= ds);
    if kept.len() == 0 {
        return Err(owned("未识别出独立作业，请检查输入内容"));
    }
    Ok(AiResult { assignments: kept })
}

// ------------------------------------------------------- course matching

/// Whether a course (id, name, code) matches a course name from a model:
/// by name, or by a non-empty code, ignoring ASCII case.
pub open spec fn course_matches(c: (String, String, String), key: Seq<char>) -> bool {
    eq_ignore_ascii_case(c.1@, key) || (c.2@.len() > 0 && eq_ignore_ascii_case(c.2@, key))
}

/// The ids of the matching courses, in order.
pub open spec fn matching_ids(cs: Seq<(String, String, String)>, key: Seq<char>) -> Seq<Seq<char>>
    decreases cs.len(),
{
    if cs.len() == 0 {
        Seq::empty()
    } else {
        let rest = matching_ids(cs.drop_last(), key);
        if course_matches(cs.last(), key) {
            rest.push(cs.last().0@)
        } else {
            rest
        }
    }
}

/// The course id a draft gets: the one matching course's id, or empty when
/// no course or several courses match the trimmed course name.
pub open spec fn resolved_course_id(cs: Seq<(String, String, String)>, name: Seq<char>) -> Seq<char> {
    let m = matching_ids(cs, trim(name));
    if m.len() == 1 {
        m[0]
    } else {
        Seq::empty()
    }
}

/// `b` is `a` with only the course id possibly changed.
pub open spec fn same_but_course_id(a: AiDraft, b: AiDraft) -> bool {
    &&& b.course_name == a.course_name
    &&& b.title == a.title
    &&& b.description == a.description
    &&& b.due_at == a.due_at
    &&& b.submission_label == a.submission_label
    &&& b.submission_url == a.submission_url
    &&& b.submission_notes == a.submission_notes
    &&& b.evidence == a.evidence
}

fn matching_course_id(courses: &[(String, String, String)], name: &str) -> (r: String)
    ensures
        r@ == resolved_course_id(courses@, name@),
{
    let key = crate::text::trim_chars(&chars_of(name));
    let mut count: usize = 0;
    let mut first = String::new();
    let mut k: usize = 0;
    assert(courses@.take(0) =~= Seq::<(String, String, String)>::empty());
    while k < courses.len()
        invariant
            k <= courses@.len(),
            key@ == trim(name@),
            count == matching_ids(courses@.take(k as int), key@).len(),
            count <= k,
            count >= 1 ==> first@ == matching_ids(courses@.take(k as int), key@)[0],
        decreases courses.len() - k,
    {
        let c = &courses[k];
        let by_name = equal_ignoring_ascii_case(&chars_of(c.1.as_str()), &key);
        let by_code = !c.2.as_str().is_empty() && equal_ignoring_ascii_case(&chars_of(c.2.as_str()), &key);
        let ghost prefix = courses@.take(k + 1);
        assert(prefix.drop_last() =~= courses@.take(k as int));
        assert(prefix.last() == courses@[k as int]);
        if by_name || by_code {
            if count == 0 {
                first = c.0.clone();
            }
            count += 1;
        }
        k += 1;
    }
    assert(courses@.take(k as int) =~= courses@);
    if count == 1 {
        first
    } else {
        String::new()
    }
}

/// Fills in each draft's course id from the local courses (id, name,
/// code): a draft gets an id only when exactly one course matches its
/// course name, otherwise its id is cleared for the user to choose.
pub fn resolve_course_ids(result: &mut AiResult, courses: &[(String, String, String)])
    ensures
        final(result).assignments@.len() == old(result).assignments@.len(),
        forall|i: int|
            0 <= i < final(result).assignments@.len() ==> {
                &&& same_but_course_id(
                    old(result).assignments@[i],
                    #[trigger] final(result).assignments@[i],
                )
                &&& final(result).assignments@[i].course_id@ == resolved_course_id(
                    courses@,
                    old(result).assignments@[i].course_name@,
                )
            },
{
    let ghost ds = result.assignments@;
    let mut taken: Vec<AiDraft> = Vec::new();
    std::mem::swap(&mut taken, &mut result.assignments);
    let n = taken.len();
    let mut rev: Vec<AiDraft> = Vec::new();
    while taken.len() > 0
        invariant
            rev@.len() + taken@.len() == ds.len(),
            taken@ == ds.take(taken@.len() as int),
            forall|k: int| 0 <= k < rev@.len() ==> #[trigger] rev@[k] == ds[ds.len() - 1 - k],
        decreases taken.len(),
    {
        let d = taken.pop().unwrap();
        rev.push(d);
        assert(taken@ =~= ds.take(taken@.len() as int));
    }
    let mut out: Vec<AiDraft> = Vec::new();
    while rev.len() > 0
        invariant
            n == ds.len(),
            out@.len() + rev@.len() == ds.len(),
            forall|k: int| 0 <= k < rev@.len() ==> #[trigger] rev@[k] == ds[ds.len() - 1 - k],
            forall|k: int|
                0 <= k < out@.len() ==> {
                    &&& same_but_course_id(ds[k], #[trigger] out@[k])
                    &&& out@[k].course_id@ == resolved_course_id(courses@, ds[k].course_name@)
                },
        decreases rev.len(),
    {
        let d = rev.pop().unwrap();
        let id = matching_course_id(courses, d.course_name.as_str());
        out.push(
            AiDraft {
                course_name: d.course_name,
                course_id: id,
                title: d.title,
                description: d.description,
                due_at: d.due_at,
                submission_label: d.submission_label,
                submission_url: d.submission_url,
                submission_notes: d.submission_notes,
                evidence: d.evidence,
            },
        );
    }
    result.assignments = out;
}

// ------------------------------------------------------------- prompts

/// The user prompt: the template must hold `{content}`; then `{date}`,
/// `{courses}` and `{content}` are replaced, in this order.
pub open spec fn user_prompt_spec(
    template: Seq<char>,
    date: Seq<char>,
    courses: Seq<char>,
    content: Seq<char>,
) -> Result<Seq<char>, Seq<char>> {
    if !contains_text(template, "{content}"@) {
        Err("assignment_user.txt 必须包含 {content} 占位符"@)
    } else {
        Ok(
            replace_all(
                replace_all(replace_all(template, "{date}"@, date), "{courses}"@, courses),
                "{content}"@,
                content,
            ),
        )
    }
}

/// Fills in the user prompt template.
pub fn render_user_prompt(template: &str, date: &str, courses: &str, content: &str) -> (r: Result<
    String,
    String,
>)
    ensures
        crate::files::result_matches(r, user_prompt_spec(template@, date@, courses@, content@)),
{
    let tv = chars_of(template);
    if !contains(&tv, &chars_of("{content}")) {
        return Err(owned("assignment_user.txt 必须包含 {content} 占位符"));
    }
    let a = replace_text(template, "{date}", date);
    let b = replace_text(a.as_str(), "{courses}", courses);
    Ok(replace_text(b.as_str(), "{content}", content))
}

/// The largest prompt file read, in bytes.
pub const PROMPT_FILE_LIMIT: u64 = 65536;

/// Checks the size of a prompt file before it is read.
pub fn check_prompt_size(len: u64) -> (r: Result<(), String>)
    ensures
        r is Ok <==> len <= PROMPT_FILE_LIMIT,
        r matches Err(e) ==> e@ == "单个提示词文件不能超过 64 KB"@,
{
    if len > PROMPT_FILE_LIMIT {
        return Err(owned("单个提示词文件不能超过 64 KB"));
    }
    Ok(())
}

/// Checks the text of a prompt file; `shown_path` names it in the error.
pub fn check_prompt_content(content: String, shown_path: &str) -> (r: Result<String, String>)
    ensures
        r is Ok <==> !is_blank(content@),
        r matches Ok(c) ==> c@ == content@,
        r matches Err(e) ==> e@ == "提示词文件不能为空："@ + shown_path@,
{
    if blank(content.as_str()) {
        let mut m = owned("提示词文件不能为空：");
        push_text(&mut m, shown_path);
        return Err(m);
    }
    Ok(content)
}

// ------------------------------------------------------- import requests

/// Refuses an import with neither text nor files.
pub fn check_import_request(request: &AiRequest) -> (r: Result<(), String>)
    ensures
        r is Err <==> is_blank(request.text@) && request.paths@.len() == 0,
        r matches Err(e) ==> e@ == "请粘贴内容或选择文件"@,
{
    if blank(request.text.as_str()) && request.paths.len() == 0 {
        return Err(owned("请粘贴内容或选择文件"));
    }
    Ok(())
}

/// Refuses an import when no provider is chosen for it.
pub fn check_selected_provider(selected: &str) -> (r: Result<(), String>)
    ensures
        r is Err <==> selected@.len() == 0,
        r matches Err(e) ==> e@ == "请先在设置中为“作业识别”指定 AI 服务商"@,
{
    if selected.is_empty() {
        return Err(owned("请先在设置中为“作业识别”指定 AI 服务商"));
    }
    Ok(())
}

/// A service address the import may call: it parses as a URL whose scheme
/// is `https`, or `http` with host exactly `localhost` or `127.0.0.1`.
pub open spec fn allowed_base_url(url: Seq<char>) -> bool {
    match crate::assignment_import::parsed_service_url(url) {
        Some((scheme, host, _)) => crate::assignment_import::secure_url(scheme, host),
        None => false,
    }
}

/// Refuses a service address that is neither HTTPS nor plain HTTP to this
/// machine.
pub fn check_base_url(url: &str) -> (r: Result<(), String>)
    ensures
        r is Ok <==> allowed_base_url(url@),
        r matches Err(e) ==> e@ == "服务地址必须使用 HTTPS"@,
{
    match crate::assignment_import::parse_service_url(url) {
        Some((scheme, host, _)) => {
            let https = same_text(scheme.as_str(), "https");
            let local = same_text(scheme.as_str(), "http") && match &host {
                Some(h) => same_text(h.as_str(), "localhost") || same_text(h.as_str(), "127.0.0.1"),
                None => false,
            };
            if https || local {
                Ok(())
            } else {
                Err(owned("服务地址必须使用 HTTPS"))
            }
        },
        None => Err(owned("服务地址必须使用 HTTPS")),
    }
}

/// Whether the import sends files through the provider's file interface
/// (`qwen-long*` or `qwen-doc-turbo` on Bailian).
pub open spec fn uses_file_interface(kind: Seq<char>, model: Seq<char>) -> bool {
    kind == "bailian"@ && (has_prefix(lowercase(model), "qwen-long"@) || eq_ignore_ascii_case(
        model,
        "qwen-doc-turbo"@,
    ))
}

/// Whether the import uploads files for this provider.
pub fn file_interface(provider: &ProviderConfig) -> (b: bool)
    ensures
        b == uses_file_interface(provider.kind@, provider.model@),
{
    let lower = chars_of(to_lowercase(provider.model.as_str()).as_str());
    same_text(provider.kind.as_str(), "bailian") && (starts_with(&lower, &chars_of("qwen-long"))
        || equal_ignoring_ascii_case(&chars_of(provider.model.as_str()), &chars_of("qwen-doc-turbo")))
}

/// Seconds an import may take: longer when a PDF is among the files.
pub open spec fn timeout_for(any_pdf: bool) -> u64 {
    if any_pdf {
        360
    } else {
        120
    }
}

/// How long an import may take.
pub fn import_timeout_secs(paths: &[String]) -> (r: u64)
    ensures
        exists|exts: Seq<Seq<char>>|
            plausible_extensions(paths@, exts) && r == timeout_for(
                exists|i: int| 0 <= i < exts.len() && classify_spec(#[trigger] exts[i]) == Ok::<FileKind, Seq<char>>(FileKind::Pdf),
            ),
{
    let exts = extensions_of(paths);
    let ghost es = crate::text::texts(exts@);
    assert(plausible_extensions(paths@, es));
    let mut i: usize = 0;
    while i < exts.len()
        invariant
            i <= exts.len(),
            es == crate::text::texts(exts@),
            plausible_extensions(paths@, es),
            forall|k: int| 0 <= k < i ==> classify_spec(#[trigger] es[k]) != Ok::<FileKind, Seq<char>>(FileKind::Pdf),
        decreases exts.len() - i,
    {
        match classify_extension(exts[i].as_str()) {
            Ok(FileKind::Pdf) => {
                assert(classify_spec(es[i as int]) == Ok::<FileKind, Seq<char>>(FileKind::Pdf));
                return 360;
            },
            _ => {},
        }
        i += 1;
    }
    120
}

/// The largest file an import sends, in bytes.
pub const IMPORT_FILE_LIMIT: u64 = 20971520;

/// Checks one file before it is sent: it must exist and be small enough.
/// `size` is the result of reading its size.
pub fn check_import_file(path: &str, is_file: bool, size: Result<u64, String>) -> (r: Result<(), String>)
    ensures
        !is_file ==> (r matches Err(e) && e@ == "导入文件不存在："@ + path@),
        is_file ==> match size {
            Err(e) => r matches Err(m) && m@ == e@,
            Ok(n) => if n > IMPORT_FILE_LIMIT {
                r matches Err(m) && m@ == "单个导入文件不能超过 20 MB"@
            } else {
                r is Ok
            },
        },
{
    if !is_file {
        let mut m = owned("导入文件不存在：");
        push_text(&mut m, path);
        return Err(m);
    }
    let n = size?;
    if n > IMPORT_FILE_LIMIT {
        return Err(owned("单个导入文件不能超过 20 MB"));
    }
    Ok(())
}

/// Checks the size of a file read for upload.
pub fn check_upload_size(len: usize) -> (r: Result<(), String>)
    ensures
        r is Ok <==> len <= IMPORT_FILE_LIMIT,
        r matches Err(e) ==> e@ == "文件超过首版 20 MB 上传限制"@,
{
    if len as u64 > IMPORT_FILE_LIMIT {
        return Err(owned("文件超过首版 20 MB 上传限制"));
    }
    Ok(())
}

/// The symbol of a six-bit value in the standard base64 alphabet
/// (`A`–`Z`, `a`–`z`, `0`–`9`, `+`, `/`).
pub open spec fn base64_symbol(v: int) -> char {
    if v < 26 {
        (65 + v) as char
    } else if v < 52 {
        (97 + (v - 26)) as char
    } else if v < 62 {
        (48 + (v - 52)) as char
    } else if v == 62 {
        '+'
    } else {
        '/'
    }
}

/// Standard base64 with padding (RFC 4648): each three bytes give four
/// symbols; a final one or two bytes give two or three symbols and `=`
/// padding up to four.
pub open spec fn base64_standard(bytes: Seq<u8>) -> Seq<char>
    decreases bytes.len(),
{
    if bytes.len() == 0 {
        Seq::empty()
    } else if bytes.len() == 1 {
        let a = bytes[0] as int;
        seq![base64_symbol(a / 4), base64_symbol((a % 4) * 16), '=', '=']
    } else if bytes.len() == 2 {
        let a = bytes[0] as int;
        let b = bytes[1] as int;
        seq![base64_symbol(a / 4), base64_symbol((a % 4) * 16 + b / 16), base64_symbol((b % 16) * 4), '=']
    } else {
        let a = bytes[0] as int;
        let b = bytes[1] as int;
        let c = bytes[2] as int;
        seq![
            base64_symbol(a / 4),
            base64_symbol((a % 4) * 16 + b / 16),
            base64_symbol((b % 16) * 4 + c / 64),
            base64_symbol(c % 64),
        ] + base64_standard(bytes.skip(3))
    }
}

/// `base64::engine::general_purpose::STANDARD.encode`: the standard
/// alphabet with padding, as `base64_standard` spells out.
#[verifier::external_body]
pub(crate) fn encode_base64(bytes: &[u8]) -> (r: String)
    ensures
        r@ == base64_standard(bytes@),
{
    base64::engine::general_purpose::STANDARD.encode(bytes)
}

/// A `data:` URL carrying `bytes` with the given MIME type.
pub fn data_url(mime: &str, bytes: &[u8]) -> (r: String)
    ensures
        r@ == "data:"@ + mime@ + ";base64,"@ + base64_standard(bytes@),
{
    let mut r = owned("data:");
    push_text(&mut r, mime);
    push_text(&mut r, ";base64,");
    let encoded = encode_base64(bytes);
    push_text(&mut r, encoded.as_str());
    r
}

// ---------------------------------------------------------- chat requests

/// A lower-case hexadecimal digit for a value below sixteen.
pub open spec fn hex_symbol(n: int) -> char {
    if n < 10 {
        (48 + n) as char
    } else {
        (87 + n) as char
    }
}

/// How serde_json writes one character inside a string: `"` and `\` get a
/// backslash; backspace, tab, newline, form feed and carriage return get
/// their short escapes; the other characters below U+0020 become `\u00XX`
/// with lower-case hex digits; every other character stands as it is.
pub open spec fn json_escape(c: char) -> Seq<char> {
    if c == '"' {
        seq!['\\', '"']
    } else if c == '\\' {
        seq!['\\', '\\']
    } else if c == '\u{8}' {
        seq!['\\', 'b']
    } else if c == '\t' {
        seq!['\\', 't']
    } else if c == '\n' {
        seq!['\\', 'n']
    } else if c == '\u{c}' {
        seq!['\\', 'f']
    } else if c == '\r' {
        seq!['\\', 'r']
    } else if (c as u32) < 0x20 {
        seq!['\\', 'u', '0', '0', hex_symbol((c as int) / 16), hex_symbol((c as int) % 16)]
    } else {
        seq![c]
    }
}

/// The characters of a text, each written as `json_escape` says.
pub open spec fn json_escaped(s: Seq<char>) -> Seq<char>
    decreases s.len(),
{
    if s.len() == 0 {
        Seq::empty()
    } else {
        json_escaped(s.drop_last()) + json_escape(s.last())
    }
}

/// What serde_json writes for a string value: the escaped text in double
/// quotes.
pub open spec fn json_string(s: Seq<char>) -> Seq<char> {
    seq!['"'] + json_escaped(s) + seq!['"']
}

/// `serde_json::Value::String(..).to_string()`, the JSON form of a text,
/// as `json_string` spells out.
#[verifier::external_body]
pub(crate) fn json_quote(s: &str) -> (r: String)
    ensures
        r@ == json_string(s@),
{
    serde_json::Value::String(s.to_owned()).to_string()
}

/// Appends the JSON form of `s`.
pub(crate) fn push_json(out: &mut String, s: &str)
    ensures
        final(out)@ == old(out)@ + json_string(s@),
{
    let q = json_quote(s);
    push_text(out, q.as_str());
}

/// A file sent inside a chat request.
#[derive(Debug)]
pub enum Attachment {
    /// A PDF, as a `data:` URL, with its file name.
    Pdf { data: String, filename: String },
    /// An image, as a `data:` URL.
    Image { url: String },
}

/// The JSON content part of one attachment.
pub open spec fn attachment_json(a: Attachment) -> Seq<char> {
    match a {
        Attachment::Pdf { data, filename } => "{\"type\":\"file\",\"file\":{\"file_data\":"@ + json_string(data@)
            + ",\"filename\":"@ + json_string(filename@) + "}}"@,
        Attachment::Image { url } => "{\"type\":\"image_url\",\"image_url\":{\"url\":"@ + json_string(url@)
            + "}}"@,
    }
}

/// The content parts of the attachments, each after a comma.
pub open spec fn attachments_json(atts: Seq<Attachment>) -> Seq<char>
    decreases atts.len(),
{
    if atts.len() == 0 {
        Seq::empty()
    } else {
        attachments_json(atts.drop_last()) + ","@ + attachment_json(atts.last())
    }
}

/// The system messages naming uploaded files, each after a comma.
pub open spec fn file_messages(ids: Seq<String>) -> Seq<char>
    decreases ids.len(),
{
    if ids.len() == 0 {
        Seq::empty()
    } else {
        file_messages(ids.drop_last()) + ",{\"role\":\"system\",\"content\":"@ + json_string(
            "fileid://"@ + ids.last()@,
        ) + "}"@
    }
}

/// The user message's content: the prompt alone when files were uploaded,
/// else the prompt as a text part followed by the attachments.
pub open spec fn user_content(prompt: Seq<char>, file_model: bool, atts: Seq<Attachment>) -> Seq<char> {
    if file_model {
        json_string(prompt)
    } else {
        "[{\"type\":\"text\",\"text\":"@ + json_string(prompt) + "}"@ + attachments_json(atts) + "]"@
    }
}

/// The chat-completions request: the model, the system prompt, a system
/// message per uploaded file, the user message, and a low temperature.
pub open spec fn chat_request_spec(
    model: Seq<char>,
    system: Seq<char>,
    prompt: Seq<char>,
    file_model: bool,
    atts: Seq<Attachment>,
    ids: Seq<String>,
) -> Seq<char> {
    "{\"model\":"@ + json_string(model) + ",\"messages\":[{\"role\":\"system\",\"content\":"@ + json_string(
        system,
    ) + "}"@ + file_messages(ids) + ",{\"role\":\"user\",\"content\":"@ + user_content(
        prompt,
        file_model,
        atts,
    ) + "}],\"temperature\":0.1}"@
}

/// The JSON text of a chat-completions request.
pub fn chat_request(
    model: &str,
    system: &str,
    prompt: &str,
    file_model: bool,
    atts: &[Attachment],
    uploaded: &[String],
) -> (r: String)
    ensures
        r@ == chat_request_spec(model@, system@, prompt@, file_model, atts@, uploaded@),
{
    let mut r = owned("{\"model\":");
    push_json(&mut r, model);
    push_text(&mut r, ",\"messages\":[{\"role\":\"system\",\"content\":");
    push_json(&mut r, system);
    push_text(&mut r, "}");
    let ghost head = r@;
    let mut i: usize = 0;
    assert(uploaded@.take(0) =~= Seq::<String>::empty());
    assert(r@ =~= head + file_messages(uploaded@.take(0)));
    while i < uploaded.len()
        invariant
            i <= uploaded@.len(),
            r@ == head + file_messages(uploaded@.take(i as int)),
        decreases uploaded.len() - i,
    {
        let ghost before = r@;
        push_text(&mut r, ",{\"role\":\"system\",\"content\":");
        let mut name = owned("fileid://");
        push_text(&mut name, uploaded[i].as_str());
        push_json(&mut r, name.as_str());
        push_text(&mut r, "}");
        assert(uploaded@.take(i + 1).drop_last() =~= uploaded@.take(i as int));
        assert(r@ =~= head + file_messages(uploaded@.take(i + 1)));
        i += 1;
    }
    assert(uploaded@.take(i as int) =~= uploaded@);
    let ghost mid = r@;
    push_text(&mut r, ",{\"role\":\"user\",\"content\":");
    let ghost before_content = r@;
    if file_model {
        push_json(&mut r, prompt);
    } else {
        push_text(&mut r, "[{\"type\":\"text\",\"text\":");
        push_json(&mut r, prompt);
        push_text(&mut r, "}");
        let ghost start = r@;
        let mut k: usize = 0;
        assert(atts@.take(0) =~= Seq::<Attachment>::empty());
        assert(r@ =~= start + attachments_json(atts@.take(0)));
        while k < atts.len()
            invariant
                k <= atts@.len(),
                r@ == start + attachments_json(atts@.take(k as int)),
            decreases atts.len() - k,
        {
            push_text(&mut r, ",");
            match &atts[k] {
                Attachment::Pdf { data, filename } => {
                    push_text(&mut r, "{\"type\":\"file\",\"file\":{\"file_data\":");
                    push_json(&mut r, data.as_str());
                    push_text(&mut r, ",\"filename\":");
                    push_json(&mut r, filename.as_str());
                    push_text(&mut r, "}}");
                },
                Attachment::Image { url } => {
                    push_text(&mut r, "{\"type\":\"image_url\",\"image_url\":{\"url\":");
                    push_json(&mut r, url.as_str());
                    push_text(&mut r, "}}");
                },
            }
            assert(atts@.take(k + 1).drop_last() =~= atts@.take(k as int));
            assert(atts@.take(k + 1).last() == atts@[k as int]);
            assert(r@ =~= start + attachments_json(atts@.take(k + 1)));
            k += 1;
        }
        assert(atts@.take(k as int) =~= atts@);
        push_text(&mut r, "]");
    }
    assert(r@ =~= before_content + user_content(prompt@, file_model, atts@));
    push_text(&mut r, "}],\"temperature\":0.1}");
    assert(r@ =~= chat_request_spec(model@, system@, prompt@, file_model, atts@, uploaded@));
    r
}

/// One course as the prompt lists it.
pub open spec fn course_json(c: (String, String, String)) -> Seq<char> {
    "{\"code\":"@ + json_string(c.2@) + ",\"name\":"@ + json_string(c.1@) + "}"@
}

/// The courses as the prompt lists them, separated by commas.
pub open spec fn course_items(cs: Seq<(String, String, String)>) -> Seq<char>
    decreases cs.len(),
{
    if cs.len() == 0 {
        Seq::empty()
    } else if cs.len() == 1 {
        course_json(cs[0])
    } else {
        course_items(cs.drop_last()) + ","@ + course_json(cs.last())
    }
}

/// The JSON list of the local courses' names and codes given to the model.
pub fn courses_json(courses: &[(String, String, String)]) -> (r: String)
    ensures
        r@ == "["@ + course_items(courses@) + "]"@,
{
    let mut r = owned("[");
    let ghost head = r@;
    let mut i: usize = 0;
    assert(courses@.take(0) =~= Seq::<(String, String, String)>::empty());
    assert(r@ =~= head + course_items(courses@.take(0)));
    while i < courses.len()
        invariant
            i <= courses@.len(),
            r@ == head + course_items(courses@.take(i as int)),
        decreases courses.len() - i,
    {
        if i > 0 {
            push_text(&mut r, ",");
        }
        push_text(&mut r, "{\"code\":");
        push_json(&mut r, courses[i].2.as_str());
        push_text(&mut r, ",\"name\":");
        push_json(&mut r, courses[i].1.as_str());
        push_text(&mut r, "}");
        assert(courses@.take(i + 1).drop_last() =~= courses@.take(i as int));
        assert(courses@.take(i + 1).last() == courses@[i as int]);
        if i == 0 {
            assert(courses@.take(1)[0] == courses@[0]);
        }
        assert(r@ =~= head + course_items(courses@.take(i + 1)));
        i += 1;
    }
    assert(courses@.take(i as int) =~= courses@);
    push_text(&mut r, "]");
    r
}

/// The text of a chat answer: the first choice's message content, when
/// the answer has one as a string.
pub fn chat_answer_text(content: Option<String>) -> (r: Result<String, String>)
    ensures
        match content {
            Some(c) => r matches Ok(t) && t == c,
            None => r matches Err(e) && e@ == "服务商没有返回文字内容"@,
        },
{
    match content {
        Some(c) => Ok(c),
        None => Err(owned("服务商没有返回文字内容")),
    }
}

// ------------------------------------------------------- saving drafts

/// A reviewed draft that can be saved: it has a title and a course.
pub open spec fn draft_ready(d: AiDraft) -> bool {
    !is_blank(d.title@) && !is_blank(d.course_id@)
}

/// Checks reviewed drafts before they are saved: there must be some, and
/// each must have a title and a course.
pub fn check_import_drafts(drafts: &Vec<AiDraft>) -> (r: Result<(), String>)
    ensures
        drafts@.len() == 0 ==> (r matches Err(e) && e@ == "没有可创建的作业"@),
        drafts@.len() > 0 ==> (r is Ok <==> forall|i: int|
            0 <= i < drafts@.len() ==> draft_ready(#[trigger] drafts@[i])),
        drafts@.len() > 0 && r is Err ==> (r matches Err(e) && e@ == "请为每条作业确认课程和标题"@),
{
    if drafts.len() == 0 {
        return Err(owned("没有可创建的作业"));
    }
    let mut i: usize = 0;
    while i < drafts.len()
        invariant
            i <= drafts@.len(),
            forall|k: int| 0 <= k < i ==> draft_ready(#[trigger] drafts@[k]),
        decreases drafts.len() - i,
    {
        let d = &drafts[i];
        if blank(d.title.as_str()) || blank(d.course_id.as_str()) {
            assert(!draft_ready(drafts@[i as int]));
            return Err(owned("请为每条作业确认课程和标题"));
        }
        i += 1;
    }
    Ok(())
}

// ------------------------------------------------------------------ laws

proof fn lemma_placeholder_tokens()
    ensures
        brace_token("{date}"@),
        brace_token("{courses}"@),
        brace_token("{content}"@),
        "{date}"@ != "{content}"@,
        "{courses}"@ != "{content}"@,
{
    reveal_strlit("{date}");
    reveal_strlit("{courses}");
    reveal_strlit("{content}");
    assert("{date}"@[1] != "{content}"@[1]);
    assert("{courses}"@[3] != "{content}"@[3]);
}

/// Whatever the template, once it is accepted the announcement text
/// reaches the prompt: the filled user prompt contains the content.
pub proof fn lemma_user_prompt_contains_content(
    template: Seq<char>,
    date: Seq<char>,
    courses: Seq<char>,
    content: Seq<char>,
)
    requires
        user_prompt_spec(template, date, courses, content) is Ok,
    ensures
        contains_text(user_prompt_spec(template, date, courses, content)->Ok_0, content),
{
    lemma_placeholder_tokens();
    let t1 = replace_all(template, "{date}"@, date);
    lemma_replace_keeps_token(template, "{date}"@, date, "{content}"@);
    let t2 = replace_all(t1, "{courses}"@, courses);
    lemma_replace_keeps_token(t1, "{courses}"@, courses, "{content}"@);
    let i = choose|i: int| occurs_at(t2, "{content}"@, i);
    lemma_replace_inserts(t2, "{content}"@, content, i);
}

proof fn lemma_titled_have_titles(ds: Seq<AiDraft>)
    ensures
        forall|i: int| 0 <= i < titled(ds).len() ==> !is_blank((#[trigger] titled(ds)[i]).title@),
    decreases ds.len(),
{
    if ds.len() > 0 {
        lemma_titled_have_titles(ds.drop_last());
    }
}

/// Every draft an import returns has a title, and its due time is either
/// absent or a local date and time.
pub proof fn lemma_finished_drafts_clean(ds: Seq<AiDraft>)
    ensures
        forall|i: int|
            0 <= i < finished_drafts(ds).len() ==> {
                &&& !is_blank((#[trigger] finished_drafts(ds)[i]).title@)
                &&& (finished_drafts(ds)[i].due_at matches Some(s) ==> local_datetime_parses(s@))
            },
{
    lemma_titled_have_titles(ds);
    assert forall|i: int| 0 <= i < finished_drafts(ds).len() implies {
        &&& !is_blank((#[trigger] finished_drafts(ds)[i]).title@)
        &&& (finished_drafts(ds)[i].due_at matches Some(s) ==> local_datetime_parses(s@))
    } by {
        assert(finished_drafts(ds)[i] == due_checked(titled(ds)[i]));
    }
}

/// `id` is the id of a course that matches `key`.
pub open spec fn id_of_match(cs: Seq<(String, String, String)>, key: Seq<char>, id: Seq<char>) -> bool {
    exists|k: int| 0 <= k < cs.len() && course_matches(#[trigger] cs[k], key) && cs[k].0@ == id
}

proof fn lemma_matching_ids_match(cs: Seq<(String, String, String)>, key: Seq<char>)
    ensures
        forall|m: int|
            0 <= m < matching_ids(cs, key).len() ==> id_of_match(cs, key, #[trigger] matching_ids(cs, key)[m]),
    decreases cs.len(),
{
    if cs.len() > 0 {
        let rest = cs.drop_last();
        lemma_matching_ids_match(rest, key);
        assert forall|m: int| 0 <= m < matching_ids(cs, key).len() implies id_of_match(
            cs,
            key,
            #[trigger] matching_ids(cs, key)[m],
        ) by {
            if m < matching_ids(rest, key).len() {
                assert(id_of_match(rest, key, matching_ids(rest, key)[m]));
                let k = choose|k: int|
                    0 <= k < rest.len() && course_matches(#[trigger] rest[k], key) && rest[k].0@
                        == matching_ids(rest, key)[m];
                assert(cs[k] == rest[k]);
            } else {
                assert(course_matches(cs[cs.len() - 1], key));
            }
        }
    }
}

/// A draft gets a course id only from the single course that matches its
/// course name: a non-empty resolved id is the id of a matching course,
/// and no other course matches.
pub proof fn lemma_resolved_id_is_unique_match(cs: Seq<(String, String, String)>, name: Seq<char>)
    requires
        resolved_course_id(cs, name).len() > 0,
    ensures
        matching_ids(cs, trim(name)).len() == 1,
        id_of_match(cs, trim(name), resolved_course_id(cs, name)),
{
    lemma_matching_ids_match(cs, trim(name));
    assert(matching_ids(cs, trim(name)).len() == 1);
    assert(resolved_course_id(cs, name) == matching_ids(cs, trim(name))[0]);
}

proof fn lemma_files_verdict_refuses(
    gemini: bool,
    kind: Seq<char>,
    m: Seq<char>,
    exts: Seq<Seq<char>>,
    i: int,
)
    requires
        0 <= i < exts.len(),
        file_verdict(gemini, kind, m, exts[i]) is Err,
    ensures
        files_verdict(gemini, kind, m, exts) is Err,
    decreases i,
{
    if i > 0 && file_verdict(gemini, kind, m, exts[0]) is Ok {
        lemma_files_verdict_refuses(gemini, kind, m, exts.drop_first(), i - 1);
    }
}

/// A provider that does not take PDF files (anything but Bailian, or
/// Gemini in the import module) is refused whenever a PDF is among the
/// files; a model without the file interface is refused whenever a DOCX
/// is among them.
pub proof fn lemma_unsupported_files_refused(
    gemini: bool,
    kind: Seq<char>,
    model: Seq<char>,
    exts: Seq<Seq<char>>,
    i: int,
)
    requires
        0 <= i < exts.len(),
        (classify_spec(exts[i]) == Ok::<FileKind, Seq<char>>(FileKind::Pdf) && kind != "bailian"@ && !(
        gemini && kind == "gemini"@)) || (classify_spec(exts[i]) == Ok::<FileKind, Seq<char>>(
            FileKind::Docx,
        ) && !is_file_model(kind, lowercase(model))),
    ensures
        capability_verdict(gemini, kind, model, exts) is Err,
{
    let m = lowercase(model);
    if !(m == "qwen-doc-turbo"@ && exts.len() > 1) {
        lemma_files_verdict_refuses(gemini, kind, m, exts, i);
    }
}

proof fn lemma_files_verdict_all(gemini: bool, kind: Seq<char>, m: Seq<char>, exts: Seq<Seq<char>>)
    ensures
        files_verdict(gemini, kind, m, exts) is Ok <==> forall|i: int|
            0 <= i < exts.len() ==> #[trigger] file_verdict(gemini, kind, m, exts[i]) is Ok,
    decreases exts.len(),
{
    if exts.len() > 0 {
        lemma_files_verdict_all(gemini, kind, m, exts.drop_first());
        assert forall|i: int| 1 <= i < exts.len() implies #[trigger] exts[i] == exts.drop_first()[i - 1] by {}
        if files_verdict(gemini, kind, m, exts) is Ok {
            assert forall|i: int| 0 <= i < exts.len() implies #[trigger] file_verdict(gemini, kind, m, exts[i]) is Ok by {
                if i > 0 {
                    assert(file_verdict(gemini, kind, m, exts.drop_first()[i - 1]) is Ok);
                }
            }
        } else if file_verdict(gemini, kind, m, exts[0]) is Ok {
            let j = choose|j: int|
                0 <= j < exts.drop_first().len() && !(#[trigger] file_verdict(gemini, kind, m, exts.drop_first()[j]) is Ok);
            assert(exts.drop_first()[j] == exts[j + 1]);
        }
    }
}

/// Files are judged one by one: a set of files is taken exactly when the
/// `qwen-doc-turbo` one-file limit does not apply and each file would be
/// taken on its own.
pub proof fn lemma_capability_is_per_file(gemini: bool, kind: Seq<char>, model: Seq<char>, exts: Seq<Seq<char>>)
    ensures
        capability_verdict(gemini, kind, model, exts) is Ok <==> {
            &&& !(lowercase(model) == "qwen-doc-turbo"@ && exts.len() > 1)
            &&& forall|i: int|
                0 <= i < exts.len() ==> #[trigger] file_verdict(gemini, kind, lowercase(model), exts[i]) is Ok
        },
{
    lemma_files_verdict_all(gemini, kind, lowercase(model), exts);
}

/// Dropping or reordering files never turns an accepted request into a
/// refused one: if a provider takes the files with extensions `exts`, it
/// takes any list of no more of them drawn from `exts`.
pub proof fn lemma_fewer_files_still_taken(
    gemini: bool,
    kind: Seq<char>,
    model: Seq<char>,
    exts: Seq<Seq<char>>,
    sub: Seq<Seq<char>>,
)
    requires
        capability_verdict(gemini, kind, model, exts) is Ok,
        sub.len() <= exts.len(),
        forall|i: int| 0 <= i < sub.len() ==> exts.contains(#[trigger] sub[i]),
    ensures
        capability_verdict(gemini, kind, model, sub) is Ok,
{
    lemma_capability_is_per_file(gemini, kind, model, exts);
    lemma_capability_is_per_file(gemini, kind, model, sub);
    assert forall|i: int| 0 <= i < sub.len() implies #[trigger] file_verdict(gemini, kind, lowercase(model), sub[i]) is Ok by {
        assert(exts.contains(sub[i]));
        let j = choose|j: int| 0 <= j < exts.len() && exts[j] == sub[i];
        assert(file_verdict(gemini, kind, lowercase(model), exts[j]) is Ok);
    }
}

/// A path whose extension the reading fixes on every platform: it has no
/// network prefix and either holds no dot, ends in a clear extension, has
/// a dot-less file name after its last `/`, or has a file name that
/// starts with its only dot.
pub open spec fn fixed_extension(path: Seq<char>) -> bool {
    &&& !prefixed_path(path)
    &&& {
        ||| !has_char(path, '.')
        ||| (exists|d: int| extension_dot(path, d))
        ||| (exists|k: int| dotless_tail(path, k))
        ||| (exists|d: int| leading_dot(path, d))
    }
}

proof fn lemma_fixed_extension_unique(path: Seq<char>, e1: Seq<char>, e2: Seq<char>)
    requires
        fixed_extension(path),
        plausible_extension(path, e1),
        plausible_extension(path, e2),
    ensures
        e1 == e2,
{
    if !has_char(path, '.') {
        assert(e1 =~= e2);
    } else if exists|d: int| extension_dot(path, d) {
        let d = choose|d: int| extension_dot(path, d);
        assert(e1 == path.skip(d + 1));
        assert(e2 == path.skip(d + 1));
    } else if exists|k: int| dotless_tail(path, k) {
        let k = choose|k: int| dotless_tail(path, k);
        assert(e1.len() == 0 && e2.len() == 0);
        assert(e1 =~= e2);
    } else {
        let d = choose|d: int| leading_dot(path, d);
        assert(e1.len() == 0 && e2.len() == 0);
        assert(e1 =~= e2);
    }
}

/// Dropping or reordering files never turns an accepted request into a
/// refused one, stated over paths: when every path's extension is fixed
/// by the reading, a provider that takes `paths` (read as `exts`) takes
/// any list `sub` of no more of those paths (however it is read).
pub proof fn lemma_fewer_paths_still_taken(
    gemini: bool,
    kind: Seq<char>,
    model: Seq<char>,
    paths: Seq<String>,
    exts: Seq<Seq<char>>,
    sub: Seq<String>,
    sub_exts: Seq<Seq<char>>,
)
    requires
        forall|i: int| 0 <= i < paths.len() ==> fixed_extension(#[trigger] paths[i]@),
        plausible_extensions(paths, exts),
        plausible_extensions(sub, sub_exts),
        capability_verdict(gemini, kind, model, exts) is Ok,
        sub.len() <= paths.len(),
        forall|i: int| 0 <= i < sub.len() ==> paths.contains(#[trigger] sub[i]),
    ensures
        capability_verdict(gemini, kind, model, sub_exts) is Ok,
{
    assert forall|i: int| 0 <= i < sub_exts.len() implies exts.contains(#[trigger] sub_exts[i]) by {
        assert(paths.contains(sub[i]));
        let j = choose|j: int| 0 <= j < paths.len() && paths[j] == sub[i];
        assert(fixed_extension(paths[j]@));
        assert(plausible_extension(paths[j]@, exts[j]));
        assert(plausible_extension(sub[i]@, sub_exts[i]));
        lemma_fixed_extension_unique(paths[j]@, exts[j], sub_exts[i]);
    }
    lemma_fewer_files_still_taken(gemini, kind, model, exts, sub_exts);
}

/// The provider table, file by file, for every model name: DeepSeek never
/// takes PDF or DOCX and takes images only with `deepseek-flash`; a custom
/// service takes none of them; Gemini (known to the import module) takes
/// PDF and images but not DOCX; Bailian `qwen3.8-*` takes PDF and images,
/// and its file-interface models take all three.
pub proof fn lemma_provider_table(gemini: bool, m: Seq<char>, ext: Seq<char>)
    ensures
        classify_spec(ext) == Ok::<FileKind, Seq<char>>(FileKind::Pdf) ==> {
            &&& file_verdict(gemini, "deepseek"@, m, ext) is Err
            &&& file_verdict(gemini, "custom"@, m, ext) is Err
            &&& file_verdict(true, "gemini"@, m, ext) is Ok
            &&& (has_prefix(m, "qwen3.8-"@) || is_file_model("bailian"@, m) ==> file_verdict(gemini, "bailian"@, m, ext) is Ok)
        },
        classify_spec(ext) == Ok::<FileKind, Seq<char>>(FileKind::Docx) ==> {
            &&& file_verdict(gemini, "deepseek"@, m, ext) is Err
            &&& file_verdict(gemini, "custom"@, m, ext) is Err
            &&& file_verdict(true, "gemini"@, m, ext) is Err
            &&& (is_file_model("bailian"@, m) ==> file_verdict(gemini, "bailian"@, m, ext) is Ok)
        },
        classify_spec(ext) == Ok::<FileKind, Seq<char>>(FileKind::Image) ==> {
            &&& (file_verdict(gemini, "deepseek"@, m, ext) is Ok <==> m == "deepseek-flash"@)
            &&& file_verdict(gemini, "custom"@, m, ext) is Err
            &&& file_verdict(true, "gemini"@, m, ext) is Ok
            &&& (has_prefix(m, "qwen3.8-"@) || is_file_model("bailian"@, m) ==> file_verdict(gemini, "bailian"@, m, ext) is Ok)
        },
{
    reveal_strlit("deepseek");
    reveal_strlit("custom");
    reveal_strlit("gemini");
    reveal_strlit("bailian");
    assert("deepseek"@ != "bailian"@) by {
        assert("deepseek"@[0] != "bailian"@[0]);
    }
    assert("deepseek"@ != "gemini"@) by {
        assert("deepseek"@[0] != "gemini"@[0]);
    }
    assert("custom"@ != "bailian"@) by {
        assert("custom"@[0] != "bailian"@[0]);
    }
    assert("custom"@ != "gemini"@) by {
        assert("custom"@[0] != "gemini"@[0]);
    }
    assert("custom"@ != "deepseek"@) by {
        assert("custom"@[0] != "deepseek"@[0]);
    }
    assert("gemini"@ != "bailian"@) by {
        assert("gemini"@[0] != "bailian"@[0]);
    }
    assert("gemini"@ != "deepseek"@) by {
        assert("gemini"@[0] != "deepseek"@[0]);
    }
}

/// The import's extension table, ignoring letter case: `png`, `jpg`,
/// `jpeg`, `gif` and `webp` are images, `pdf` is a PDF, `docx` is a Word
/// document, and every other extension is refused with a message that
/// names it lower-cased.
pub proof fn lemma_extension_table(ext: Seq<char>)
    ensures
        classify_spec(ext) == Ok::<FileKind, Seq<char>>(FileKind::Image) <==> {
            ||| lowercase(ext) == "png"@
            ||| lowercase(ext) == "jpg"@
            ||| lowercase(ext) == "jpeg"@
            ||| lowercase(ext) == "gif"@
            ||| lowercase(ext) == "webp"@
        },
        classify_spec(ext) == Ok::<FileKind, Seq<char>>(FileKind::Pdf) <==> lowercase(ext) == "pdf"@,
        classify_spec(ext) == Ok::<FileKind, Seq<char>>(FileKind::Docx) <==> lowercase(ext) == "docx"@,
        classify_spec(ext) is Err <==> {
            &&& lowercase(ext) != "pdf"@
            &&& lowercase(ext) != "docx"@
            &&& lowercase(ext) != "png"@
            &&& lowercase(ext) != "jpg"@
            &&& lowercase(ext) != "jpeg"@
            &&& lowercase(ext) != "gif"@
            &&& lowercase(ext) != "webp"@
        },
        classify_spec(ext) is Err ==> classify_spec(ext)->Err_0 == "不支持的导入文件格式："@ + lowercase(ext),
{
    reveal_strlit("pdf");
    reveal_strlit("docx");
    reveal_strlit("png");
    reveal_strlit("jpg");
    reveal_strlit("jpeg");
    reveal_strlit("gif");
    reveal_strlit("webp");
    let l = lowercase(ext);
    assert("docx"@ != "pdf"@) by {
        assert("docx"@.len() != "pdf"@.len());
    }
    if l == "png"@ || l == "jpg"@ || l == "jpeg"@ || l == "gif"@ || l == "webp"@ {
        assert(l != "pdf"@) by {
            if l == "pdf"@ {
                assert(l[0] == 'p' && l.len() == 3);
                assert(l[1] == 'd');
            }
        }
        assert(l != "docx"@) by {
            if l == "docx"@ {
                assert(l[0] == 'd');
            }
        }
    }
}

/// Photos reach the vision models: a single image file (`png`, `jpg`,
/// `jpeg`, `gif` or `webp`, in any letter case) is taken by Gemini in the
/// import module, whatever its model, and by DeepSeek's `deepseek-flash`.
pub proof fn lemma_single_image_taken(gemini: bool, model: Seq<char>, ext: Seq<char>)
    requires
        lowercase(ext) == "png"@ || lowercase(ext) == "jpg"@ || lowercase(ext) == "jpeg"@
            || lowercase(ext) == "gif"@ || lowercase(ext) == "webp"@,
    ensures
        capability_verdict(true, "gemini"@, model, seq![ext]) is Ok,
        lowercase(model) == "deepseek-flash"@ ==> capability_verdict(gemini, "deepseek"@, model, seq![ext]) is Ok,
{
    let m = lowercase(model);
    lemma_extension_table(ext);
    lemma_provider_table(true, m, ext);
    lemma_provider_table(gemini, m, ext);
    let one = seq![ext];
    assert(one[0] == ext);
    lemma_capability_is_per_file(true, "gemini"@, model, one);
    lemma_capability_is_per_file(gemini, "deepseek"@, model, one);
    assert forall|i: int| 0 <= i < one.len() implies #[trigger] file_verdict(true, "gemini"@, m, one[i]) is Ok by {
        assert(one[i] == ext);
    }
    if m == "deepseek-flash"@ {
        assert forall|i: int| 0 <= i < one.len() implies #[trigger] file_verdict(gemini, "deepseek"@, m, one[i]) is Ok by {
            assert(one[i] == ext);
        }
    }
}

/// `qwen-doc-turbo` never takes more than one file at a time.
pub proof fn lemma_doc_turbo_one_file(gemini: bool, kind: Seq<char>, model: Seq<char>, exts: Seq<Seq<char>>)
    requires
        lowercase(model) == "qwen-doc-turbo"@,
        exts.len() > 1,
    ensures
        capability_verdict(gemini, kind, model, exts) is Err,
{
}

proof fn lemma_find_char_found(s: Seq<char>, c: char)
    requires
        find_char(s, c) is Some,
    ensures
        0 <= find_char(s, c)->0 < s.len(),
        s[find_char(s, c)->0] == c,
    decreases s.len(),
{
    if s.len() > 0 && s[0] != c {
        lemma_find_char_found(s.drop_first(), c);
    }
}

proof fn lemma_rfind_char_found(s: Seq<char>, c: char)
    requires
        rfind_char(s, c) is Some,
    ensures
        0 <= rfind_char(s, c)->0 < s.len(),
        s[rfind_char(s, c)->0] == c,
    decreases s.len(),
{
    if s.len() > 0 && s.last() != c {
        lemma_rfind_char_found(s.drop_last(), c);
    }
}

/// The part of an answer taken as JSON, when not empty, opens an object.
pub proof fn lemma_json_region_opens_object(content: Seq<char>)
    requires
        json_region_spec(content) is Ok,
        json_region_spec(content)->Ok_0.len() > 0,
    ensures
        json_region_spec(content)->Ok_0[0] == '{',
{
    let t = trim(content);
    reveal_strlit("{");
    if has_prefix(t, "{"@) {
        assert(t.take(1)[0] == "{"@[0]);
    } else {
        lemma_find_char_found(t, '{');
        lemma_rfind_char_found(t, '}');
        let a = find_char(t, '{')->0;
        let b = rfind_char(t, '}')->0;
        assert(t.subrange(a, b + 1)[0] == t[a]);
    }
}

} // verus!
