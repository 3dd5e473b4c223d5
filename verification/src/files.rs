//! File links, naming, browsing and rename history rules.
use vstd::prelude::*;
use crate::order::{keys_sorted, lemma_text_le_total, sort_by_text_key, text_le, with_key, TextKeyed};
use crate::text::{
    blank, extend_chars, texts, chars_of, contains, contains_text, has_char, has_prefix, is_blank, lowercase, occurs_at, owned, push_text, replace_all,
    replace_text, same_text, starts_with, string_of, string_of_range, to_lowercase, trim, trim_bounds, trimmed,
};

verus! {

/// A request to link one file to an assignment.
#[derive(Debug)]
pub struct LinkInput {
    pub id: String,
    pub assignment_id: String,
    pub path: String,
    pub role: String,
    pub page: String,
    pub chapter: String,
    pub problem: String,
    pub note: String,
}

/// A request to link several files to one assignment with one role.
#[derive(Debug)]
pub struct LinkBatchInput {
    pub assignment_id: String,
    pub paths: Vec<String>,
    pub role: String,
    pub page: String,
    pub chapter: String,
    pub problem: String,
    pub note: String,
}

/// One entry of a course folder listing or search.
#[derive(Debug)]
pub struct DirectoryEntry {
    pub name: String,
    pub path: String,
    pub is_dir: bool,
}

/// What a rename would do, computed before anything is changed.
#[derive(Debug)]
pub struct RenamePreview {
    pub file_id: String,
    pub old_path: String,
    pub new_path: String,
    pub conflict: bool,
    pub unchanged: bool,
}

/// The user's choices for a naming template.
#[derive(Debug)]
pub struct NamingInput {
    pub material: String,
    pub sections: String,
    pub version: String,
    pub scope_kind: String,
}

/// A request to mark a file as a common file of a course.
#[derive(Debug)]
pub struct CommonFileInput {
    pub course_id: String,
    pub path: String,
    pub kind: String,
    pub label: String,
}

// ---------------------------------------------------------------- segments

/// `char::is_control`: general category Cc.
pub open spec fn is_control(c: char) -> bool {
    (c as u32) <= 0x1f || (0x7f <= (c as u32) && (c as u32) <= 0x9f)
}

/// Characters that may not stand in a Windows file name segment.
pub open spec fn is_forbidden(c: char) -> bool {
    ||| c == '<'
    ||| c == '>'
    ||| c == ':'
    ||| c == '"'
    ||| c == '/'
    ||| c == '\\'
    ||| c == '|'
    ||| c == '?'
    ||| c == '*'
    ||| is_control(c)
}

/// Each forbidden character replaced by `-`.
pub open spec fn sanitized(s: Seq<char>) -> Seq<char> {
    Seq::new(s.len(), |i: int| if is_forbidden(s[i]) { '-' } else { s[i] })
}

/// Trailing dots and spaces removed (`trim_end_matches(['.', ' '])`).
pub open spec fn trim_end_dots(s: Seq<char>) -> Seq<char>
    decreases s.len(),
{
    if s.len() > 0 && (s.last() == '.' || s.last() == ' ') {
        trim_end_dots(s.drop_last())
    } else {
        s
    }
}

/// The name used for a segment that cleans to nothing.
pub open spec fn unnamed() -> Seq<char> {
    "未命名"@
}

/// The most characters a cleaned segment keeps.
pub const SEGMENT_LIMIT: usize = 100;

/// A file-name segment made safe: forbidden characters become `-`, the
/// text is trimmed and loses trailing dots and spaces, an empty result
/// becomes `未命名`, and at most the first hundred characters are kept.
pub open spec fn clean_segment_spec(raw: Seq<char>) -> Seq<char> {
    let t = trim_end_dots(trim(sanitized(raw)));
    if t.len() == 0 {
        unnamed()
    } else if t.len() <= SEGMENT_LIMIT {
        t
    } else {
        t.take(SEGMENT_LIMIT as int)
    }
}

fn forbidden_char(c: char) -> (b: bool)
    ensures
        b == is_forbidden(c),
{
    let n: u32 = c as u32;
    c == '<' || c == '>' || c == ':' || c == '"' || c == '/' || c == '\\' || c == '|' || c == '?'
        || c == '*' || n <= 0x1f || (0x7f <= n && n <= 0x9f)
}

proof fn lemma_unnamed_len()
    ensures
        unnamed().len() == 3,
{
    reveal_strlit("未命名");
}

/// Makes one segment of a generated file name safe to use.
pub fn clean_segment(raw: &str) -> (r: String)
    ensures
        r@ == clean_segment_spec(raw@),
{
    let v = chars_of(raw);
    let mut mapped: Vec<char> = Vec::new();
    let mut i: usize = 0;
    while i < v.len()
        invariant
            i <= v.len(),
            v@ == raw@,
            mapped@ == sanitized(v@).take(i as int),
        decreases v.len() - i,
    {
        let c = v[i];
        if forbidden_char(c) {
            mapped.push('-');
        } else {
            mapped.push(c);
        }
        assert(mapped@ =~= sanitized(v@).take(i + 1));
        i += 1;
    }
    assert(mapped@ =~= sanitized(v@));
    let (a, b) = trim_bounds(&mapped);
    let ghost t0 = mapped@.subrange(a as int, b as int);
    let mut e = b;
    assert(t0.take((e - a) as int) =~= t0);
    while e > a && (mapped[e - 1] == '.' || mapped[e - 1] == ' ')
        invariant
            a <= e <= b <= mapped.len(),
            t0 == mapped@.subrange(a as int, b as int),
            trim_end_dots(t0) == trim_end_dots(t0.take((e - a) as int)),
        decreases e - a,
    {
        assert(t0.take((e - a) as int).drop_last() =~= t0.take((e - 1 - a) as int));
        e -= 1;
    }
    assert(t0.take((e - a) as int) =~= mapped@.subrange(a as int, e as int));
    if e == a {
        return owned("未命名");
    }
    let end = if e - a <= SEGMENT_LIMIT { e } else { a + SEGMENT_LIMIT };
    if e - a > SEGMENT_LIMIT {
        assert(mapped@.subrange(a as int, e as int).take(SEGMENT_LIMIT as int) =~= mapped@.subrange(
            a as int,
            a + SEGMENT_LIMIT,
        ));
    }
    string_of_range(&mapped, a, end)
}

// ------------------------------------------------------------ link details

/// The display name of a file role in history entries.
pub open spec fn role_display(role: Seq<char>) -> Seq<char> {
    if role == "prompt"@ {
        "题目材料"@
    } else if role == "reference"@ {
        "教材参考"@
    } else if role == "solution"@ {
        "我的解答"@
    } else {
        role
    }
}

/// One optional part of a link description: nothing for a blank value,
/// otherwise the separator, the label, a colon and the trimmed value.
pub open spec fn detail_part(label: Seq<char>, value: Seq<char>) -> Seq<char> {
    if is_blank(value) {
        Seq::empty()
    } else {
        " · "@ + label + "："@ + trim(value)
    }
}

/// The description recorded in file history for a link: the role, then
/// page, chapter, problem and note where they are not blank.
pub open spec fn link_details_spec(
    role: Seq<char>,
    page: Seq<char>,
    chapter: Seq<char>,
    problem: Seq<char>,
    note: Seq<char>,
) -> Seq<char> {
    "角色："@ + role_display(role) + detail_part("页码"@, page) + detail_part("章节"@, chapter)
        + detail_part("题号"@, problem) + detail_part("备注"@, note)
}

fn push_detail(out: &mut String, label: &str, value: &str)
    ensures
        final(out)@ == old(out)@ + detail_part(label@, value@),
{
    let t = trimmed(value);
    if t.as_str().is_empty() {
        assert(detail_part(label@, value@) =~= Seq::<char>::empty());
        assert(old(out)@ + Seq::<char>::empty() =~= old(out)@);
    } else {
        push_text(out, " · ");
        push_text(out, label);
        push_text(out, "：");
        push_text(out, t.as_str());
        assert(final(out)@ =~= old(out)@ + detail_part(label@, value@));
    }
}

/// The history description of a file link.
pub fn link_details(role: &str, page: &str, chapter: &str, problem: &str, note: &str) -> (r: String)
    ensures
        r@ == link_details_spec(role@, page@, chapter@, problem@, note@),
{
    let mut out = owned("角色：");
    if same_text(role, "prompt") {
        push_text(&mut out, "题目材料");
    } else if same_text(role, "reference") {
        push_text(&mut out, "教材参考");
    } else if same_text(role, "solution") {
        push_text(&mut out, "我的解答");
    } else {
        push_text(&mut out, role);
    }
    push_detail(&mut out, "页码", page);
    push_detail(&mut out, "章节", chapter);
    push_detail(&mut out, "题号", problem);
    push_detail(&mut out, "备注", note);
    out
}

// ------------------------------------------------------------ normal paths

/// A path with the Windows verbatim prefix removed: `\\?\UNC\server\x`
/// becomes `\\server\x`, `\\?\C:\x` becomes `C:\x`, anything else stays.
pub open spec fn normal_path_spec(raw: Seq<char>) -> Seq<char> {
    if has_prefix(raw, "\\\\?\\UNC\\"@) {
        "\\\\"@ + raw.skip(8)
    } else if has_prefix(raw, "\\\\?\\"@) {
        raw.skip(4)
    } else {
        raw
    }
}

/// The form in which a canonical path is stored.
pub fn normal_path(raw: &str) -> (r: String)
    ensures
        r@ == normal_path_spec(raw@),
{
    let v = chars_of(raw);
    let unc = chars_of("\\\\?\\UNC\\");
    let verbatim = chars_of("\\\\?\\");
    proof {
        reveal_strlit("\\\\?\\UNC\\");
        reveal_strlit("\\\\?\\");
    }
    if starts_with(&v, &unc) {
        let mut r = owned("\\\\");
        let rest = string_of_range(&v, 8, v.len());
        push_text(&mut r, rest.as_str());
        assert(v@.subrange(8, v@.len() as int) =~= v@.skip(8));
        r
    } else if starts_with(&v, &verbatim) {
        let r = string_of_range(&v, 4, v.len());
        assert(v@.subrange(4, v@.len() as int) =~= v@.skip(4));
        r
    } else {
        owned(raw)
    }
}

// ---------------------------------------------------------------- renaming

/// The role word that `{role}` stands for in a naming template.
pub open spec fn role_word(role: Seq<char>) -> Seq<char> {
    if role == "prompt"@ {
        "题目"@
    } else if role == "reference"@ {
        "参考"@
    } else {
        "解答"@
    }
}

/// The material guessed from the lower-cased path and the link role when
/// the user gives none.
pub open spec fn default_material(path_lower: Seq<char>, role: Seq<char>) -> Seq<char> {
    if contains_text(path_lower, "extra"@) || contains_text(path_lower, "supplement"@) {
        "extra"@
    } else if contains_text(path_lower, "textbook"@) || role == "reference"@ {
        "textbook"@
    } else if role == "solution"@ {
        "solution"@
    } else {
        "assignment"@
    }
}

/// The material written into the name.
pub open spec fn chosen_material(given: Seq<char>, path_lower: Seq<char>, role: Seq<char>) -> Seq<char> {
    if is_blank(given) {
        default_material(path_lower, role)
    } else {
        trim(given)
    }
}

/// Where the scope comes from: the user's sections, else the link chapter.
pub open spec fn section_source(sections: Seq<char>, chapter: Seq<char>) -> Seq<char> {
    if is_blank(sections) {
        chapter
    } else {
        trim(sections)
    }
}

/// The scope kind: the user's choice, else guessed from a leading `ch`.
pub open spec fn chosen_scope_kind(kind: Seq<char>, source: Seq<char>) -> Seq<char> {
    if kind.len() == 0 {
        if has_prefix(source, "ch"@) {
            "chapter"@
        } else {
            "section"@
        }
    } else {
        kind
    }
}

/// `trim_start_matches(p)`: every leading repetition of `p` removed.
pub open spec fn strip_leading(s: Seq<char>, p: Seq<char>) -> Seq<char>
    decreases s.len(),
{
    if p.len() > 0 && has_prefix(s, p) {
        strip_leading(s.skip(p.len() as int), p)
    } else {
        s
    }
}

/// The scope with its `ch` or `s` prefix.
pub open spec fn scope_text(source: Seq<char>, kind: Seq<char>) -> Seq<char> {
    let prefix = if kind == "chapter"@ {
        "ch"@
    } else {
        "s"@
    };
    if has_prefix(source, prefix) {
        source
    } else {
        prefix + strip_leading(strip_leading(source, "ch"@), "s"@)
    }
}

/// The text that `{course_code}` stands for: the code, else the course name.
pub open spec fn course_label(course: Seq<char>, code: Seq<char>) -> Seq<char> {
    if is_blank(code) {
        course
    } else {
        code
    }
}

/// The template with its placeholders replaced, in this order.
pub open spec fn filled_template(
    template: Seq<char>,
    course: Seq<char>,
    code: Seq<char>,
    semester: Seq<char>,
    assignment: Seq<char>,
    role: Seq<char>,
    version: Seq<char>,
    material: Seq<char>,
    scope: Seq<char>,
) -> Seq<char> {
    let t1 = replace_all(template, "{course_code}"@, clean_segment_spec(course_label(course, code)));
    let t2 = replace_all(t1, "{material}"@, clean_segment_spec(material));
    let t3 = replace_all(t2, "{scope}"@, clean_segment_spec(scope));
    let t4 = replace_all(t3, "{sections}"@, clean_segment_spec(scope));
    let t5 = replace_all(t4, "{semester}"@, clean_segment_spec(semester));
    let t6 = replace_all(t5, "{course}"@, clean_segment_spec(course));
    let t7 = replace_all(t6, "{assignment}"@, clean_segment_spec(assignment));
    let t8 = replace_all(t7, "{role}"@, role_word(role));
    replace_all(t8, "{version}"@, clean_segment_spec(version))
}

/// The facts about a linked file that a rename target is computed from.
#[derive(Debug)]
pub struct RenameSource {
    pub old_path: String,
    pub course: String,
    pub code: String,
    pub assignment: String,
    pub role: String,
    pub chapter: String,
    /// The old file's extension, without the dot, if it has one.
    pub extension: Option<String>,
}

/// The new file name a rename produces, or the message of the first check
/// that fails: the file must exist, the template and semester must have
/// been read, a template that uses the scope needs one, the scope kind
/// must be `chapter` or `section`, and no unknown placeholder may remain.
pub open spec fn rename_name_spec(
    is_file: bool,
    template: Result<Seq<char>, Seq<char>>,
    semester: Result<Seq<char>, Seq<char>>,
    src: RenameSource,
    naming: NamingInput,
) -> Result<Seq<char>, Seq<char>> {
    if !is_file {
        Err("原文件不存在，请先重新定位"@)
    } else if template is Err {
        Err(template->Err_0)
    } else if semester is Err {
        Err(semester->Err_0)
    } else {
        let template = template->Ok_0;
        let semester = semester->Ok_0;
        let material = chosen_material(naming.material@, lowercase(src.old_path@), src.role@);
        let source = section_source(naming.sections@, src.chapter@);
        if (contains_text(template, "{scope}"@) || contains_text(template, "{sections}"@)) && is_blank(
            source,
        ) {
            Err("请填写范围，例如 s2.5&s2.6 或 ch3"@)
        } else {
            let kind = chosen_scope_kind(naming.scope_kind@, source);
            if kind != "chapter"@ && kind != "section"@ {
                Err("范围类型无效"@)
            } else {
                let base = filled_template(
                    template,
                    src.course@,
                    src.code@,
                    semester,
                    src.assignment@,
                    src.role@,
                    naming.version@,
                    material,
                    scope_text(source, kind),
                );
                if has_char(base, '{') || has_char(base, '}') {
                    Err("命名模板包含未知占位符"@)
                } else {
                    Ok(
                        clean_segment_spec(base) + match src.extension {
                            Some(e) => "."@ + e@,
                            None => Seq::empty(),
                        },
                    )
                }
            }
        }
    }
}

/// Whether `r` holds the text that `s` describes.
pub open spec fn result_matches(r: Result<String, String>, s: Result<Seq<char>, Seq<char>>) -> bool {
    match r {
        Ok(v) => s == Ok::<Seq<char>, Seq<char>>(v@),
        Err(e) => s == Err::<Seq<char>, Seq<char>>(e@),
    }
}

fn strip_leading_text(s: &Vec<char>, p: &Vec<char>) -> (r: Vec<char>)
    requires
        p.len() > 0,
    ensures
        r@ == strip_leading(s@, p@),
{
    let mut i: usize = 0;
    assert(s@.skip(0) =~= s@);
    while matches_prefix_at(s, p, i)
        invariant
            p.len() > 0,
            i <= s.len(),
            strip_leading(s@, p@) == strip_leading(s@.skip(i as int), p@),
        decreases s.len() - i,
    {
        assert(s@.skip(i as int).skip(p@.len() as int) =~= s@.skip(i + p@.len()));
        i += p.len();
    }
    let mut r: Vec<char> = Vec::new();
    let mut k = i;
    while k < s.len()
        invariant
            i <= k <= s.len(),
            r@ == s@.subrange(i as int, k as int),
        decreases s.len() - k,
    {
        r.push(s[k]);
        assert(s@.subrange(i as int, k + 1) =~= s@.subrange(i as int, k as int).push(s@[k as int]));
        k += 1;
    }
    assert(s@.subrange(i as int, s@.len() as int) =~= s@.skip(i as int));
    r
}

/// Whether `p` is a prefix of `s[i..]` (and `i` is within `s`).
fn matches_prefix_at(s: &Vec<char>, p: &Vec<char>, i: usize) -> (b: bool)
    requires
        i <= s.len(),
    ensures
        b == has_prefix(s@.skip(i as int), p@),
        b ==> i + p.len() <= s.len(),
{
    let b = crate::text::matches_at(s, p, i);
    proof {
        if i + p@.len() <= s@.len() {
            assert(s@.skip(i as int).take(p@.len() as int) =~= s@.subrange(i as int, i + p@.len()));
        }
    }
    b
}

fn scope_of(source: &Vec<char>, chapter_kind: bool) -> (r: Vec<char>)
    ensures
        r@ == scope_text(source@, if chapter_kind { "chapter"@ } else { "section"@ }),
{
    let prefix = if chapter_kind { chars_of("ch") } else { chars_of("s") };
    proof {
        reveal_strlit("chapter");
        reveal_strlit("section");
        assert("chapter"@ != "section"@) by {
            assert("chapter"@[0] != "section"@[0]);
        }
    }
    if starts_with(source, &prefix) {
        let mut r: Vec<char> = Vec::new();
        crate::text::extend_chars(&mut r, source);
        assert(r@ =~= source@);
        return r;
    }
    let ch = chars_of("ch");
    let s = chars_of("s");
    proof {
        reveal_strlit("ch");
        reveal_strlit("s");
    }
    let once = strip_leading_text(source, &ch);
    let twice = strip_leading_text(&once, &s);
    let mut r: Vec<char> = Vec::new();
    crate::text::extend_chars(&mut r, &prefix);
    crate::text::extend_chars(&mut r, &twice);
    r
}

/// Replaces `placeholder` in `t` by the cleaned form of `value`.
fn fill_clean(t: &String, placeholder: &str, value: &str) -> (r: String)
    ensures
        r@ == replace_all(t@, placeholder@, clean_segment_spec(value@)),
{
    let v = clean_segment(value);
    replace_text(t.as_str(), placeholder, v.as_str())
}

/// The new file name for a rename, computed from the linked file, the
/// naming template, the semester and the user's naming choices.
pub fn rename_file_name(
    is_file: bool,
    template: Result<String, String>,
    semester: Result<String, String>,
    src: &RenameSource,
    naming: &NamingInput,
) -> (r: Result<String, String>)
    ensures
        result_matches(
            r,
            rename_name_spec(
                is_file,
                match template {
                    Ok(t) => Ok(t@),
                    Err(e) => Err(e@),
                },
                match semester {
                    Ok(t) => Ok(t@),
                    Err(e) => Err(e@),
                },
                *src,
                *naming,
            ),
        ),
{
    if !is_file {
        return Err(owned("原文件不存在，请先重新定位"));
    }
    let template = match template {
        Ok(t) => t,
        Err(e) => return Err(e),
    };
    let semester = match semester {
        Ok(t) => t,
        Err(e) => return Err(e),
    };
    let path_lower = to_lowercase(src.old_path.as_str());
    let lower = chars_of(path_lower.as_str());
    let material: String = if blank(naming.material.as_str()) {
        if contains(&lower, &chars_of("extra")) || contains(&lower, &chars_of("supplement")) {
            owned("extra")
        } else if contains(&lower, &chars_of("textbook")) || same_text(src.role.as_str(), "reference") {
            owned("textbook")
        } else if same_text(src.role.as_str(), "solution") {
            owned("solution")
        } else {
            owned("assignment")
        }
    } else {
        trimmed(naming.material.as_str())
    };
    let source: String = if blank(naming.sections.as_str()) {
        src.chapter.clone()
    } else {
        trimmed(naming.sections.as_str())
    };
    let tv = chars_of(template.as_str());
    let uses_scope = contains(&tv, &chars_of("{scope}")) || contains(&tv, &chars_of("{sections}"));
    if uses_scope && blank(source.as_str()) {
        return Err(owned("请填写范围，例如 s2.5&s2.6 或 ch3"));
    }
    let sv = chars_of(source.as_str());
    let chapter_kind: bool;
    if naming.scope_kind.as_str().is_empty() {
        chapter_kind = starts_with(&sv, &chars_of("ch"));
        proof {
            reveal_strlit("ch");
        }
    } else if same_text(naming.scope_kind.as_str(), "chapter") {
        chapter_kind = true;
    } else if same_text(naming.scope_kind.as_str(), "section") {
        chapter_kind = false;
    } else {
        return Err(owned("范围类型无效"));
    }
    proof {
        reveal_strlit("chapter");
        reveal_strlit("section");
    }
    let scope = string_of(&scope_of(&sv, chapter_kind));
    let label: &str = if blank(src.code.as_str()) {
        src.course.as_str()
    } else {
        src.code.as_str()
    };
    let t1 = fill_clean(&template, "{course_code}", label);
    let t2 = fill_clean(&t1, "{material}", material.as_str());
    let t3 = fill_clean(&t2, "{scope}", scope.as_str());
    let t4 = fill_clean(&t3, "{sections}", scope.as_str());
    let t5 = fill_clean(&t4, "{semester}", semester.as_str());
    let t6 = fill_clean(&t5, "{course}", src.course.as_str());
    let t7 = fill_clean(&t6, "{assignment}", src.assignment.as_str());
    let word: &str = if same_text(src.role.as_str(), "prompt") {
        "题目"
    } else if same_text(src.role.as_str(), "reference") {
        "参考"
    } else {
        "解答"
    };
    let t8 = replace_text(t7.as_str(), "{role}", word);
    let base = fill_clean(&t8, "{version}", naming.version.as_str());
    let bv = chars_of(base.as_str());
    if crate::text::contains_char(&bv, '{') || crate::text::contains_char(&bv, '}') {
        return Err(owned("命名模板包含未知占位符"));
    }
    let ghost kind = chosen_scope_kind(naming.scope_kind@, source@);
    assert(scope@ == scope_text(source@, kind));
    assert(material@ == chosen_material(naming.material@, lowercase(src.old_path@), src.role@));
    assert(base@ == filled_template(
        template@,
        src.course@,
        src.code@,
        semester@,
        src.assignment@,
        src.role@,
        naming.version@,
        material@,
        scope@,
    ));
    let mut name = clean_segment(base.as_str());
    let ghost cleaned = name@;
    match &src.extension {
        Some(e) => {
            push_text(&mut name, ".");
            push_text(&mut name, e.as_str());
            assert(name@ =~= cleaned + ("."@ + e@));
        },
        None => {
            assert(name@ =~= cleaned + Seq::<char>::empty());
        },
    }
    Ok(name)
}

// ------------------------------------------------------------- link checks

/// The roles a file can have for an assignment.
pub open spec fn is_link_role(role: Seq<char>) -> bool {
    role == "prompt"@ || role == "reference"@ || role == "solution"@
}

/// Whether `role` is `prompt`, `reference` or `solution`.
pub fn valid_link_role(role: &str) -> (b: bool)
    ensures
        b == is_link_role(role@),
{
    same_text(role, "prompt") || same_text(role, "reference") || same_text(role, "solution")
}

/// Checks the role of a single link.
pub fn check_link_role(role: &str) -> (r: Result<(), String>)
    ensures
        r is Ok <==> is_link_role(role@),
        r matches Err(e) ==> e@ == "无效的文件角色"@,
{
    if valid_link_role(role) {
        Ok(())
    } else {
        Err(owned("无效的文件角色"))
    }
}

/// Checks a batch link request before any path is resolved: the role
/// must be valid and at least one path must be given.
pub fn check_link_batch(role: &str, path_count: usize) -> (r: Result<(), String>)
    ensures
        r is Ok <==> is_link_role(role@) && path_count > 0,
        !is_link_role(role@) ==> (r matches Err(e) && e@ == "无效的文件角色"@),
        is_link_role(role@) && path_count == 0 ==> (r matches Err(e) && e@ == "请至少选择一个文件"@),
{
    check_link_role(role)?;
    if path_count == 0 {
        return Err(owned("请至少选择一个文件"));
    }
    Ok(())
}

/// Whether the path at `i` is the first with its lower-cased form.
pub open spec fn first_of_key(ps: Seq<Seq<char>>, i: int) -> bool {
    forall|j: int| 0 <= j < i ==> lowercase(ps[j]) != lowercase(#[trigger] ps[i])
}

/// The paths in order, keeping only the first of those that are equal
/// after lower-casing.
pub open spec fn unique_paths_spec(ps: Seq<Seq<char>>) -> Seq<Seq<char>>
    decreases ps.len(),
{
    if ps.len() == 0 {
        Seq::empty()
    } else {
        let rest = unique_paths_spec(ps.drop_last());
        if first_of_key(ps, ps.len() - 1) {
            rest.push(ps.last())
        } else {
            rest
        }
    }
}

/// Removes paths that repeat an earlier one up to letter case.
pub fn unique_paths(paths: &Vec<String>) -> (r: Vec<String>)
    ensures
        texts(r@) == unique_paths_spec(texts(paths@)),
{
    let ghost ps = texts(paths@);
    let mut keys: Vec<Vec<char>> = Vec::new();
    let mut out: Vec<String> = Vec::new();
    let mut i: usize = 0;
    assert(ps.take(0) =~= Seq::<Seq<char>>::empty());
    assert(texts(out@) =~= Seq::<Seq<char>>::empty());
    while i < paths.len()
        invariant
            i <= paths.len(),
            ps == texts(paths@),
            keys@.len() == i,
            forall|k: int| 0 <= k < i ==> (#[trigger] keys@[k])@ == lowercase(ps[k]),
            texts(out@) == unique_paths_spec(ps.take(i as int)),
        decreases paths.len() - i,
    {
        let key = chars_of(to_lowercase(paths[i].as_str()).as_str());
        let mut seen = false;
        let mut k: usize = 0;
        while k < keys.len()
            invariant
                k <= keys.len(),
                keys@.len() == i,
                key@ == lowercase(ps[i as int]),
                seen <==> exists|m: int| 0 <= m < k && (#[trigger] keys@[m])@ == key@,
            decreases keys.len() - k,
        {
            if crate::text::seq_equal(&keys[k], &key) {
                seen = true;
            }
            k += 1;
        }
        let ghost prefix = ps.take(i + 1);
        assert(prefix.drop_last() =~= ps.take(i as int));
        assert(prefix.last() == ps[i as int]);
        assert(first_of_key(prefix, i as int) <==> !seen) by {
            if !seen {
                assert forall|j: int| 0 <= j < i implies lowercase(prefix[j]) != lowercase(
                    #[trigger] prefix[i as int],
                ) by {
                    assert(keys@[j]@ == lowercase(ps[j]));
                }
            } else {
                let m = choose|m: int| 0 <= m < i && (#[trigger] keys@[m])@ == key@;
                assert(lowercase(prefix[m]) == lowercase(prefix[i as int]));
            }
        }
        if !seen {
            let ghost before = out@;
            out.push(paths[i].clone());
            assert(texts(out@) =~= texts(before).push(ps[i as int]));
        }
        keys.push(key);
        i += 1;
    }
    assert(ps.take(paths.len() as int) =~= ps);
    out
}

// ---------------------------------------------------------- folder listing

/// Folder entries that listings and searches skip: hidden names and
/// `node_modules`.
pub open spec fn is_hidden_entry(name: Seq<char>) -> bool {
    has_prefix(name, "."@) || name == "node_modules"@
}

/// A folder entry is hidden exactly when its name starts with a dot or is
/// `node_modules`; every other name, one with a dot inside such as
/// `report.pdf` among them, is shown.
pub proof fn lemma_hidden_entries(name: Seq<char>)
    ensures
        is_hidden_entry(name) <==> (name.len() > 0 && name[0] == '.') || name == "node_modules"@,
{
    reveal_strlit(".");
    if name.len() > 0 && name[0] == '.' {
        assert(name.take(1) =~= "."@);
    }
    if has_prefix(name, "."@) {
        assert(name.take(1)[0] == name[0]);
    }
}

/// Whether a folder entry is shown.
pub fn visible_entry(name: &str) -> (b: bool)
    ensures
        b == !is_hidden_entry(name@),
{
    let v = chars_of(name);
    !(starts_with(&v, &chars_of(".")) || same_text(name, "node_modules"))
}

impl TextKeyed for DirectoryEntry {
    /// Folders before files, then by lower-cased name.
    open spec fn sort_key(&self) -> Seq<char> {
        seq![if self.is_dir { '0' } else { '1' }] + lowercase(self.name@)
    }

    fn text_key(&self) -> (r: Vec<char>) {
        let mut r: Vec<char> = Vec::new();
        r.push(if self.is_dir { '0' } else { '1' });
        let lower = chars_of(to_lowercase(self.name.as_str()).as_str());
        extend_chars(&mut r, &lower);
        r
    }
}

/// Orders a folder listing: folders first, then by lower-cased name;
/// entries that compare equal keep their order.
pub fn sort_entries(entries: Vec<DirectoryEntry>) -> (r: Vec<DirectoryEntry>)
    ensures
        r@.to_multiset() == entries@.to_multiset(),
        keys_sorted(r@),
        forall|k: Seq<char>| #[trigger] with_key(r@, k) == with_key(entries@, k),
        forall|i: int, j: int| 0 <= i < j < r@.len() && (#[trigger] r@[j]).is_dir ==> (#[trigger] r@[i]).is_dir,
{
    let r = sort_by_text_key(entries);
    assert forall|i: int, j: int| 0 <= i < j < r@.len() && (#[trigger] r@[j]).is_dir implies (
    #[trigger] r@[i]).is_dir by {
        let a = r@[i].sort_key();
        let b = r@[j].sort_key();
        assert(text_le(a, b));
        assert(a[0] == (if r@[i].is_dir { '0' } else { '1' }));
        assert(b[0] == '0');
    }
    r
}

/// Whether a search query is too short to run: under two characters once
/// trimmed (a search needs at least two).
pub open spec fn query_too_short(query: Seq<char>) -> bool {
    trim(query).len() < 2
}

/// Whether a search query is too short to run.
pub fn search_query_too_short(query: &str) -> (b: bool)
    ensures
        b == query_too_short(query@),
{
    let t = crate::text::trim_chars(&chars_of(query));
    t.len() < 2
}

/// The most files a search returns.
pub const SEARCH_RESULT_LIMIT: usize = 100;

/// The deepest folder level a search descends to.
pub const SEARCH_DEPTH_LIMIT: usize = 12;

/// Whether a file name matches a search query, ignoring letter case.
pub fn name_matches_query(name: &str, query: &str) -> (b: bool)
    ensures
        b == contains_text(lowercase(name@), lowercase(query@)),
{
    let n = chars_of(to_lowercase(name).as_str());
    let q = chars_of(to_lowercase(query).as_str());
    contains(&n, &q)
}

/// The error when a course has no folder.
pub fn check_course_folder(root: &str) -> (r: Result<(), String>)
    ensures
        r is Ok <==> root@.len() > 0,
        r matches Err(e) ==> e@ == "此课程尚未关联文件夹"@,
{
    if root.is_empty() {
        Err(owned("此课程尚未关联文件夹"))
    } else {
        Ok(())
    }
}

// ------------------------------------------------------------ common files

/// The kinds a course's common file can have.
pub open spec fn is_common_kind(kind: Seq<char>) -> bool {
    kind == "textbook"@ || kind == "extra"@ || kind == "other"@
}

/// A common file is a textbook, an extra (supplementary) file or another
/// file: exactly the kinds `textbook`, `extra` and `other` are accepted.
pub proof fn lemma_common_kinds(kind: Seq<char>)
    ensures
        is_common_kind(kind) <==> kind == "textbook"@ || kind == "extra"@ || kind == "other"@,
        is_common_kind("textbook"@) && is_common_kind("extra"@) && is_common_kind("other"@),
{
}

/// Checks the kind of a common file.
pub fn check_common_kind(kind: &str) -> (r: Result<(), String>)
    ensures
        r is Ok <==> is_common_kind(kind@),
        r matches Err(e) ==> e@ == "无效的常用文件类型"@,
{
    if same_text(kind, "textbook") || same_text(kind, "extra") || same_text(kind, "other") {
        Ok(())
    } else {
        Err(owned("无效的常用文件类型"))
    }
}

/// The label of a common file: the trimmed label, else the file name.
pub fn common_file_label(label: &str, file_name: &str) -> (r: String)
    ensures
        r@ == (if is_blank(label@) {
            file_name@
        } else {
            trim(label@)
        }),
{
    if blank(label) {
        owned(file_name)
    } else {
        trimmed(label)
    }
}

// ------------------------------------------------------- rename and undo

/// Checks a preview before a rename is carried out.
pub fn check_rename_preview(preview: &RenamePreview) -> (r: Result<(), String>)
    ensures
        r is Ok <==> !preview.unchanged && !preview.conflict,
        preview.unchanged ==> (r matches Err(e) && e@ == "文件名已经符合模板"@),
        !preview.unchanged && preview.conflict ==> (r matches Err(e) && e@ == "目标文件名已经存在"@),
{
    if preview.unchanged {
        return Err(owned("文件名已经符合模板"));
    }
    if preview.conflict {
        return Err(owned("目标文件名已经存在"));
    }
    Ok(())
}

/// The history description of a rename.
pub fn rename_details(role: &str, old_path: &str) -> (r: String)
    ensures
        r@ == link_details_spec(role@, ""@, ""@, ""@, ""@) + " · 原路径："@ + old_path@,
{
    let mut d = link_details(role, "", "", "", "");
    push_text(&mut d, " · 原路径：");
    push_text(&mut d, old_path);
    d
}

/// A file signature: size in bytes and modification time in milliseconds.
pub type Signature = (i64, i64);

/// Whether an undo may go ahead, given what was recorded and what the
/// database and the file system show now; each read is passed as its
/// result, and the first check that fails gives the answer.
pub open spec fn undo_verdict_spec(
    id: Seq<char>,
    undone: bool,
    latest: Result<Seq<char>, Seq<char>>,
    current: Result<Seq<char>, Seq<char>>,
    new_path: Seq<char>,
    new_is_file: bool,
    old_exists: bool,
    signature: Result<Signature, Seq<char>>,
    recorded: Signature,
) -> Result<(), Seq<char>> {
    if undone {
        Err("这次改名已经撤回"@)
    } else if latest is Err {
        Err(latest->Err_0)
    } else if latest->Ok_0 != id {
        Err("请先撤回此文件较新的改名"@)
    } else if current is Err {
        Err(current->Err_0)
    } else if current->Ok_0 != new_path || !new_is_file {
        Err("文件已在应用外移动或改名，无法安全撤回"@)
    } else if old_exists {
        Err("原文件名已被占用"@)
    } else if signature is Err {
        Err(signature->Err_0)
    } else if signature->Ok_0 != recorded {
        Err("文件内容或修改时间已变化，无法安全撤回"@)
    } else {
        Ok(())
    }
}

/// The text view of a read that may have failed.
pub open spec fn text_read(r: Result<String, String>) -> Result<Seq<char>, Seq<char>> {
    match r {
        Ok(t) => Ok(t@),
        Err(e) => Err(e@),
    }
}

/// Decides whether a recorded rename may be undone.
pub fn undo_rename_verdict(
    id: &str,
    undone: bool,
    latest: Result<String, String>,
    current: Result<String, String>,
    new_path: &str,
    new_is_file: bool,
    old_exists: bool,
    signature: Result<Signature, String>,
    recorded: Signature,
) -> (r: Result<(), String>)
    ensures
        match (r, undo_verdict_spec(
            id@,
            undone,
            text_read(latest),
            text_read(current),
            new_path@,
            new_is_file,
            old_exists,
            match signature {
                Ok(s) => Ok(s),
                Err(e) => Err(e@),
            },
            recorded,
        )) {
            (Ok(_), Ok(_)) => true,
            (Err(a), Err(b)) => a@ == b,
            _ => false,
        },
{
    if undone {
        return Err(owned("这次改名已经撤回"));
    }
    let latest = match latest {
        Ok(l) => l,
        Err(e) => return Err(e),
    };
    if !same_text(latest.as_str(), id) {
        return Err(owned("请先撤回此文件较新的改名"));
    }
    let current = match current {
        Ok(c) => c,
        Err(e) => return Err(e),
    };
    if !same_text(current.as_str(), new_path) || !new_is_file {
        return Err(owned("文件已在应用外移动或改名，无法安全撤回"));
    }
    if old_exists {
        return Err(owned("原文件名已被占用"));
    }
    let now = match signature {
        Ok(s) => s,
        Err(e) => return Err(e),
    };
    if now.0 != recorded.0 || now.1 != recorded.1 {
        return Err(owned("文件内容或修改时间已变化，无法安全撤回"));
    }
    Ok(())
}

// -------------------------------------------------------------------- laws

/// No character of `s` is forbidden in a file name segment.
pub open spec fn segment_safe(s: Seq<char>) -> bool {
    forall|i: int| 0 <= i < s.len() ==> !is_forbidden(#[trigger] s[i])
}

proof fn lemma_trim_start_safe(s: Seq<char>)
    requires
        segment_safe(s),
    ensures
        segment_safe(crate::text::trim_start(s)),
        crate::text::trim_start(s).len() <= s.len(),
    decreases s.len(),
{
    if s.len() > 0 && crate::text::is_whitespace(s[0]) {
        assert forall|i: int| 0 <= i < s.drop_first().len() implies !is_forbidden(
            #[trigger] s.drop_first()[i],
        ) by {
            assert(s.drop_first()[i] == s[i + 1]);
        }
        lemma_trim_start_safe(s.drop_first());
    }
}

proof fn lemma_trim_end_safe(s: Seq<char>)
    requires
        segment_safe(s),
    ensures
        segment_safe(crate::text::trim_end(s)),
    decreases s.len(),
{
    if s.len() > 0 && crate::text::is_whitespace(s.last()) {
        assert forall|i: int| 0 <= i < s.drop_last().len() implies !is_forbidden(
            #[trigger] s.drop_last()[i],
        ) by {
            assert(s.drop_last()[i] == s[i]);
        }
        lemma_trim_end_safe(s.drop_last());
    }
}

proof fn lemma_trim_end_dots_safe(s: Seq<char>)
    requires
        segment_safe(s),
    ensures
        segment_safe(trim_end_dots(s)),
    decreases s.len(),
{
    if s.len() > 0 && (s.last() == '.' || s.last() == ' ') {
        assert forall|i: int| 0 <= i < s.drop_last().len() implies !is_forbidden(
            #[trigger] s.drop_last()[i],
        ) by {
            assert(s.drop_last()[i] == s[i]);
        }
        lemma_trim_end_dots_safe(s.drop_last());
    }
}

/// A cleaned segment is safe to use as a file name: it is never empty,
/// has at most a hundred characters, and holds none of the characters
/// Windows forbids in names (`<>:"/\|?*` and control characters).
pub proof fn lemma_clean_segment_safe(raw: Seq<char>)
    ensures
        0 < clean_segment_spec(raw).len() <= SEGMENT_LIMIT,
        segment_safe(clean_segment_spec(raw)),
{
    let m = sanitized(raw);
    assert(segment_safe(m));
    lemma_trim_start_safe(m);
    lemma_trim_end_safe(crate::text::trim_start(m));
    lemma_trim_end_dots_safe(trim(m));
    let t = trim_end_dots(trim(m));
    if t.len() == 0 {
        lemma_unnamed_len();
        reveal_strlit("未命名");
        assert(segment_safe(unnamed())) by {
            assert forall|i: int| 0 <= i < unnamed().len() implies !is_forbidden(#[trigger] unnamed()[i]) by {
                assert(unnamed()[i] == '未' || unnamed()[i] == '命' || unnamed()[i] == '名');
            }
        }
    } else if t.len() > SEGMENT_LIMIT {
        assert forall|i: int| 0 <= i < t.take(SEGMENT_LIMIT as int).len() implies !is_forbidden(
            #[trigger] t.take(SEGMENT_LIMIT as int)[i],
        ) by {
            assert(t.take(SEGMENT_LIMIT as int)[i] == t[i]);
        }
    }
}

/// The rename target is a single file name in the original folder: when
/// the old file's extension holds no path separator, the new name holds
/// none either (the stem is a cleaned segment), and it is never empty; the
/// old extension is always kept.
pub proof fn lemma_rename_name_is_segment(
    is_file: bool,
    template: Result<Seq<char>, Seq<char>>,
    semester: Result<Seq<char>, Seq<char>>,
    src: RenameSource,
    naming: NamingInput,
)
    requires
        rename_name_spec(is_file, template, semester, src, naming) is Ok,
        src.extension matches Some(e) ==> !has_char(e@, '/') && !has_char(e@, '\\'),
    ensures
        rename_name_spec(is_file, template, semester, src, naming)->Ok_0.len() > 0,
        !has_char(rename_name_spec(is_file, template, semester, src, naming)->Ok_0, '/'),
        !has_char(rename_name_spec(is_file, template, semester, src, naming)->Ok_0, '\\'),
        src.extension matches Some(e) ==> crate::text::has_suffix(
            rename_name_spec(is_file, template, semester, src, naming)->Ok_0,
            "."@ + e@,
        ),
{
    let template = template->Ok_0;
    let semester = semester->Ok_0;
    let material = chosen_material(naming.material@, lowercase(src.old_path@), src.role@);
    let source = section_source(naming.sections@, src.chapter@);
    let kind = chosen_scope_kind(naming.scope_kind@, source);
    let base = filled_template(
        template,
        src.course@,
        src.code@,
        semester,
        src.assignment@,
        src.role@,
        naming.version@,
        material,
        scope_text(source, kind),
    );
    let stem = clean_segment_spec(base);
    lemma_clean_segment_safe(base);
    let ext: Seq<char> = match src.extension {
        Some(e) => "."@ + e@,
        None => Seq::empty(),
    };
    let name = stem + ext;
    assert(name == rename_name_spec(is_file, Ok(template), Ok(semester), src, naming)->Ok_0);
    reveal_strlit(".");
    if src.extension is Some {
        assert(name.skip(name.len() - ext.len()) =~= ext);
    }
    assert forall|i: int| 0 <= i < name.len() implies name[i] != '/' && name[i] != '\\' by {
        if i < stem.len() {
            assert(name[i] == stem[i]);
            assert(!is_forbidden(stem[i]));
        } else {
            let e = src.extension->Some_0;
            assert(ext == "."@ + e@);
            if i == stem.len() {
                assert(name[i] == '.');
            } else {
                assert(name[i] == e@[i - stem.len() - 1]);
            }
        }
    }
}

proof fn lemma_drop_first_lacks(s: Seq<char>, c: char)
    requires
        s.len() > 0,
        !has_char(s, c),
    ensures
        !has_char(s.drop_first(), c),
{
    assert forall|i: int| 0 <= i < s.drop_first().len() implies #[trigger] s.drop_first()[i] != c by {
        assert(s.drop_first()[i] == s[i + 1]);
    }
}

proof fn lemma_drop_last_lacks(s: Seq<char>, c: char)
    requires
        s.len() > 0,
        !has_char(s, c),
    ensures
        !has_char(s.drop_last(), c),
{
    assert forall|i: int| 0 <= i < s.drop_last().len() implies #[trigger] s.drop_last()[i] != c by {
        assert(s.drop_last()[i] == s[i]);
    }
}

proof fn lemma_trim_start_lacks(s: Seq<char>, c: char)
    requires
        !has_char(s, c),
    ensures
        !has_char(crate::text::trim_start(s), c),
    decreases s.len(),
{
    if s.len() > 0 && crate::text::is_whitespace(s[0]) {
        lemma_drop_first_lacks(s, c);
        lemma_trim_start_lacks(s.drop_first(), c);
    }
}

proof fn lemma_trim_end_lacks(s: Seq<char>, c: char)
    requires
        !has_char(s, c),
    ensures
        !has_char(crate::text::trim_end(s), c),
    decreases s.len(),
{
    if s.len() > 0 && crate::text::is_whitespace(s.last()) {
        lemma_drop_last_lacks(s, c);
        lemma_trim_end_lacks(s.drop_last(), c);
    }
}

proof fn lemma_trim_end_dots_lacks(s: Seq<char>, c: char)
    requires
        !has_char(s, c),
    ensures
        !has_char(trim_end_dots(s), c),
    decreases s.len(),
{
    if s.len() > 0 && (s.last() == '.' || s.last() == ' ') {
        lemma_drop_last_lacks(s, c);
        lemma_trim_end_dots_lacks(s.drop_last(), c);
    }
}

/// Cleaning a segment brings in no brace that was not there.
proof fn lemma_clean_adds_no_brace(raw: Seq<char>, c: char)
    requires
        c == '{' || c == '}',
        !has_char(raw, c),
    ensures
        !has_char(clean_segment_spec(raw), c),
{
    let m = sanitized(raw);
    assert forall|i: int| 0 <= i < m.len() implies #[trigger] m[i] != c by {
        assert(raw[i] != c);
    }
    lemma_trim_start_lacks(m, c);
    lemma_trim_end_lacks(crate::text::trim_start(m), c);
    lemma_trim_end_dots_lacks(trim(m), c);
    let t = trim_end_dots(trim(m));
    if t.len() == 0 {
        reveal_strlit("未命名");
        assert forall|i: int| 0 <= i < unnamed().len() implies #[trigger] unnamed()[i] != c by {
            assert(unnamed()[i] == '未' || unnamed()[i] == '命' || unnamed()[i] == '名');
        }
    } else if t.len() > SEGMENT_LIMIT {
        assert forall|i: int| 0 <= i < t.take(SEGMENT_LIMIT as int).len() implies #[trigger] t.take(
            SEGMENT_LIMIT as int,
        )[i] != c by {
            assert(t.take(SEGMENT_LIMIT as int)[i] == t[i]);
        }
    }
}

/// A placeholder standing alone is replaced by its value.
proof fn lemma_replace_whole(p: Seq<char>, to: Seq<char>)
    requires
        p.len() > 0,
    ensures
        replace_all(p, p, to) == to,
{
    assert(p.take(p.len() as int) =~= p);
    assert(p.skip(p.len() as int) =~= Seq::<char>::empty());
    assert(replace_all(Seq::<char>::empty(), p, to) == Seq::<char>::empty());
    assert(to + Seq::<char>::empty() =~= to);
}

/// A text without `{` holds no placeholder to replace.
proof fn lemma_replace_braceless(s: Seq<char>, p: Seq<char>, to: Seq<char>)
    requires
        p.len() > 0,
        p[0] == '{',
        !has_char(s, '{'),
    ensures
        replace_all(s, p, to) == s,
    decreases s.len(),
{
    if s.len() > 0 {
        assert(s[0] != '{');
        assert(!has_prefix(s, p)) by {
            if has_prefix(s, p) {
                assert(s.take(p.len() as int)[0] == s[0]);
            }
        }
        lemma_drop_first_lacks(s, '{');
        lemma_replace_braceless(s.drop_first(), p, to);
        assert(seq![s[0]] + s.drop_first() =~= s);
    }
}

/// A text whose only `{` stands first, followed by a character other than
/// the pattern's second, does not contain a pattern that opens with `{`.
proof fn lemma_braced_not_contained(s: Seq<char>, p: Seq<char>)
    requires
        p.len() > 1,
        s.len() > 1,
        p[0] == '{',
        s[1] != p[1],
        forall|i: int| 0 < i < s.len() ==> s[i] != '{',
    ensures
        !contains_text(s, p),
{
    assert forall|i: int| !occurs_at(s, p, i) by {
        if occurs_at(s, p, i) {
            assert(s.subrange(i, i + p.len())[0] == s[i]);
            assert(s.subrange(i, i + p.len())[1] == s[i + 1]);
        }
    }
}

/// `{course_code}` stands for the course code, and for the course name
/// when the code is blank: with the template `{course_code}`, the file is
/// named after the cleaned course name when the code is blank and after
/// the cleaned code otherwise (the whole name is then cleaned once more
/// and keeps the old extension).
pub proof fn lemma_course_code_slot(semester: Seq<char>, src: RenameSource, naming: NamingInput)
    requires
        naming.scope_kind@.len() == 0 || naming.scope_kind@ == "chapter"@ || naming.scope_kind@
            == "section"@,
        is_blank(src.code@) ==> !has_char(src.course@, '{') && !has_char(src.course@, '}'),
        !is_blank(src.code@) ==> !has_char(src.code@, '{') && !has_char(src.code@, '}'),
    ensures
        is_blank(src.code@) ==> rename_name_spec(true, Ok("{course_code}"@), Ok(semester), src, naming)
            == Ok::<Seq<char>, Seq<char>>(
            clean_segment_spec(clean_segment_spec(src.course@)) + match src.extension {
                Some(e) => "."@ + e@,
                None => Seq::empty(),
            },
        ),
        !is_blank(src.code@) ==> rename_name_spec(true, Ok("{course_code}"@), Ok(semester), src, naming)
            == Ok::<Seq<char>, Seq<char>>(
            clean_segment_spec(clean_segment_spec(src.code@)) + match src.extension {
                Some(e) => "."@ + e@,
                None => Seq::empty(),
            },
        ),
{
    let t = "{course_code}"@;
    reveal_strlit("{course_code}");
    reveal_strlit("{scope}");
    reveal_strlit("{sections}");
    reveal_strlit("{material}");
    reveal_strlit("{semester}");
    reveal_strlit("{course}");
    reveal_strlit("{assignment}");
    reveal_strlit("{role}");
    reveal_strlit("{version}");
    lemma_braced_not_contained(t, "{scope}"@);
    lemma_braced_not_contained(t, "{sections}"@);
    let label = if is_blank(src.code@) {
        src.course@
    } else {
        src.code@
    };
    let v = clean_segment_spec(label);
    lemma_clean_adds_no_brace(label, '{');
    lemma_clean_adds_no_brace(label, '}');
    let material = chosen_material(naming.material@, lowercase(src.old_path@), src.role@);
    let source = section_source(naming.sections@, src.chapter@);
    let kind = chosen_scope_kind(naming.scope_kind@, source);
    let scope = scope_text(source, kind);
    lemma_replace_whole(t, v);
    assert(replace_all(t, "{course_code}"@, clean_segment_spec(course_label(src.course@, src.code@))) == v);
    lemma_replace_braceless(v, "{material}"@, clean_segment_spec(material));
    lemma_replace_braceless(v, "{scope}"@, clean_segment_spec(scope));
    lemma_replace_braceless(v, "{sections}"@, clean_segment_spec(scope));
    lemma_replace_braceless(v, "{semester}"@, clean_segment_spec(semester));
    lemma_replace_braceless(v, "{course}"@, clean_segment_spec(src.course@));
    lemma_replace_braceless(v, "{assignment}"@, clean_segment_spec(src.assignment@));
    lemma_replace_braceless(v, "{role}"@, role_word(src.role@));
    lemma_replace_braceless(v, "{version}"@, clean_segment_spec(naming.version@));
    assert(filled_template(
        t,
        src.course@,
        src.code@,
        semester,
        src.assignment@,
        src.role@,
        naming.version@,
        material,
        scope,
    ) == v);
}

/// A file whose course has a blank code is named exactly as if the course
/// name were its code.
pub proof fn lemma_blank_code_uses_course_name(
    is_file: bool,
    template: Result<Seq<char>, Seq<char>>,
    semester: Result<Seq<char>, Seq<char>>,
    src: RenameSource,
    naming: NamingInput,
)
    requires
        is_blank(src.code@),
    ensures
        rename_name_spec(is_file, template, semester, src, naming) == rename_name_spec(
            is_file,
            template,
            semester,
            (RenameSource { code: src.course, ..src }),
            naming,
        ),
{
}

/// Every kept path is one of the given paths.
pub open spec fn kept_from(r: Seq<Seq<char>>, ps: Seq<Seq<char>>) -> bool {
    forall|i: int| 0 <= i < r.len() ==> exists|k: int| 0 <= k < ps.len() && #[trigger] r[i] == ps[k]
}

/// No two kept paths are equal up to letter case.
pub open spec fn distinct_keys(r: Seq<Seq<char>>) -> bool {
    forall|i: int, j: int| 0 <= i < j < r.len() ==> lowercase(#[trigger] r[i]) != lowercase(#[trigger] r[j])
}

/// Every given path is represented, up to letter case, by a kept one.
pub open spec fn represented(r: Seq<Seq<char>>, ps: Seq<Seq<char>>) -> bool {
    forall|k: int|
        0 <= k < ps.len() ==> exists|j: int| 0 <= j < r.len() && lowercase(#[trigger] r[j]) == lowercase(#[trigger] ps[k])
}

proof fn lemma_unique_paths_kept(ps: Seq<Seq<char>>)
    ensures
        kept_from(unique_paths_spec(ps), ps),
    decreases ps.len(),
{
    if ps.len() > 0 {
        let init = ps.drop_last();
        lemma_unique_paths_kept(init);
        let rest = unique_paths_spec(init);
        let r = unique_paths_spec(ps);
        assert forall|i: int| 0 <= i < r.len() implies exists|k: int|
            0 <= k < ps.len() && #[trigger] r[i] == ps[k] by {
            if i < rest.len() {
                let k = choose|k: int| 0 <= k < init.len() && #[trigger] rest[i] == init[k];
                assert(r[i] == rest[i]);
                assert(init[k] == ps[k]);
            } else {
                assert(r[i] == ps[ps.len() - 1]);
            }
        }
    }
}

proof fn lemma_unique_paths_distinct(ps: Seq<Seq<char>>)
    ensures
        distinct_keys(unique_paths_spec(ps)),
    decreases ps.len(),
{
    if ps.len() > 0 {
        let init = ps.drop_last();
        lemma_unique_paths_distinct(init);
        lemma_unique_paths_kept(init);
        let rest = unique_paths_spec(init);
        let r = unique_paths_spec(ps);
        let last = ps.len() - 1;
        if first_of_key(ps, last) {
            assert forall|i: int, j: int| 0 <= i < j < r.len() implies lowercase(#[trigger] r[i])
                != lowercase(#[trigger] r[j]) by {
                assert(r[i] == rest[i]);
                if j < rest.len() {
                    assert(r[j] == rest[j]);
                } else {
                    let k = choose|k: int| 0 <= k < init.len() && #[trigger] rest[i] == init[k];
                    assert(init[k] == ps[k]);
                    assert(r[j] == ps[last]);
                    assert(lowercase(ps[k]) != lowercase(ps[last]));
                }
            }
        }
    }
}

proof fn lemma_unique_paths_represented(ps: Seq<Seq<char>>)
    ensures
        represented(unique_paths_spec(ps), ps),
    decreases ps.len(),
{
    if ps.len() > 0 {
        let init = ps.drop_last();
        lemma_unique_paths_represented(init);
        let rest = unique_paths_spec(init);
        let r = unique_paths_spec(ps);
        let last = ps.len() - 1;
        assert forall|k: int| 0 <= k < ps.len() implies exists|j: int|
            0 <= j < r.len() && lowercase(#[trigger] r[j]) == lowercase(#[trigger] ps[k]) by {
            if k < last {
                assert(init[k] == ps[k]);
                let j = choose|j: int|
                    0 <= j < rest.len() && lowercase(#[trigger] rest[j]) == lowercase(#[trigger] init[k]);
                assert(r[j] == rest[j]);
            } else if first_of_key(ps, last) {
                assert(r[rest.len() as int] == ps[k]);
            } else {
                let m = choose|m: int| 0 <= m < last && lowercase(ps[m]) == lowercase(#[trigger] ps[last]);
                assert(init[m] == ps[m]);
                let j = choose|j: int|
                    0 <= j < rest.len() && lowercase(#[trigger] rest[j]) == lowercase(#[trigger] init[m]);
                assert(r[j] == rest[j]);
            }
        }
    }
}

/// Linking a batch of paths links each file once: the kept paths are
/// among the given ones, no two of them are equal up to letter case, and
/// every given path is represented by a kept one.
pub proof fn lemma_unique_paths_once_each(ps: Seq<Seq<char>>)
    ensures
        kept_from(unique_paths_spec(ps), ps),
        distinct_keys(unique_paths_spec(ps)),
        represented(unique_paths_spec(ps), ps),
{
    lemma_unique_paths_kept(ps);
    lemma_unique_paths_distinct(ps);
    lemma_unique_paths_represented(ps);
}

/// A rename is undone only when it is the file's latest rename, has not
/// been undone, the file is still where the rename put it, the old name is
/// free and the file's size and modification time are those recorded; and
/// then it always is.
pub proof fn lemma_undo_only_when_untouched(
    id: Seq<char>,
    undone: bool,
    latest: Result<Seq<char>, Seq<char>>,
    current: Result<Seq<char>, Seq<char>>,
    new_path: Seq<char>,
    new_is_file: bool,
    old_exists: bool,
    signature: Result<Signature, Seq<char>>,
    recorded: Signature,
)
    ensures
        undo_verdict_spec(
            id,
            undone,
            latest,
            current,
            new_path,
            new_is_file,
            old_exists,
            signature,
            recorded,
        ) is Ok <==> {
            &&& !undone
            &&& latest == Ok::<Seq<char>, Seq<char>>(id)
            &&& current == Ok::<Seq<char>, Seq<char>>(new_path)
            &&& new_is_file
            &&& !old_exists
            &&& signature == Ok::<Signature, Seq<char>>(recorded)
        },
{
}

} // verus!
