use homework_manager::files::{
    check_common_kind, check_course_folder, check_link_batch, check_link_role, check_rename_preview,
    clean_segment, common_file_label, link_details, name_matches_query, normal_path, rename_details,
    rename_file_name, search_query_too_short, sort_entries, undo_rename_verdict, unique_paths,
    valid_link_role, visible_entry, DirectoryEntry, NamingInput, RenamePreview, RenameSource,
    SEARCH_RESULT_LIMIT, SEGMENT_LIMIT,
};

fn source(old_path: &str, role: &str, chapter: &str) -> RenameSource {
    RenameSource {
        old_path: old_path.into(),
        course: "Calculus".into(),
        code: "MA117".into(),
        assignment: "作业一".into(),
        role: role.into(),
        chapter: chapter.into(),
        extension: Some("txt".into()),
    }
}

fn naming(material: &str, sections: &str, scope_kind: &str) -> NamingInput {
    NamingInput { material: material.into(), sections: sections.into(), version: "1".into(), scope_kind: scope_kind.into() }
}

const TEMPLATE: &str = "{course_code}-{material}-hw-{scope}";

fn name(src: &RenameSource, n: &NamingInput) -> Result<String, String> {
    rename_file_name(true, Ok(TEMPLATE.into()), Ok("2026 秋季".into()), src, n)
}

#[test]
fn rename_names_follow_the_template() {
    let answer = source("/tmp/answer.txt", "solution", "");
    assert_eq!(name(&answer, &naming("extra", "3", "chapter")).unwrap(), "MA117-extra-hw-ch3.txt");
    assert_eq!(name(&answer, &naming("textbook", "2.5&s2.6", "section")).unwrap(), "MA117-textbook-hw-s2.5&s2.6.txt");
}

#[test]
fn rename_guesses_material_and_scope() {
    let reference = source("/tmp/Textbook/ch2.txt", "reference", "ch4");
    assert_eq!(name(&reference, &naming("", "", "")).unwrap(), "MA117-textbook-hw-ch4.txt");
    let extra = source("/tmp/Supplement.txt", "prompt", "s1.2");
    assert_eq!(name(&extra, &naming(" ", "", "")).unwrap(), "MA117-extra-hw-s1.2.txt");
    let solution = source("/tmp/a.txt", "solution", "1.1");
    assert_eq!(name(&solution, &naming("", "", "")).unwrap(), "MA117-solution-hw-s1.1.txt");
    let prompt = source("/tmp/a.txt", "prompt", "ch7");
    assert_eq!(name(&prompt, &naming("", "", "section")).unwrap(), "MA117-assignment-hw-s7.txt");
}

#[test]
fn rename_refusals() {
    let src = source("/tmp/a.txt", "prompt", "");
    assert_eq!(
        rename_file_name(false, Ok(TEMPLATE.into()), Ok("s".into()), &src, &naming("", "1", "")).unwrap_err(),
        "原文件不存在，请先重新定位"
    );
    assert_eq!(
        rename_file_name(true, Err("no settings".into()), Ok("s".into()), &src, &naming("", "1", "")).unwrap_err(),
        "no settings"
    );
    assert_eq!(name(&src, &naming("", "", "")).unwrap_err(), "请填写范围，例如 s2.5&s2.6 或 ch3");
    assert_eq!(name(&src, &naming("", "1", "page")).unwrap_err(), "范围类型无效");
    assert_eq!(
        rename_file_name(true, Ok("{course}-{unknown}".into()), Ok("s".into()), &src, &naming("", "", "")).unwrap_err(),
        "命名模板包含未知占位符"
    );
    let other = rename_file_name(
        true,
        Ok("{semester}-{course}-{assignment}-{role}-v{version}".into()),
        Ok("2026 秋季".into()),
        &RenameSource { extension: None, ..source("/tmp/a", "reference", "") },
        &naming("", "", ""),
    );
    assert_eq!(other.unwrap(), "2026 秋季-Calculus-作业一-参考-v1");
}

#[test]
fn segments_are_cleaned() {
    assert_eq!(clean_segment("a<b>:c"), "a-b--c");
    assert_eq!(clean_segment("  ..  "), "未命名");
    assert_eq!(clean_segment(""), "未命名");
    assert_eq!(clean_segment(" x. "), "x");
    assert_eq!(clean_segment("a/b\\c|d?e*f\"g\u{7}"), "a-b-c-d-e-f-g-");
    let long = "a".repeat(150);
    assert_eq!(clean_segment(&long).chars().count(), SEGMENT_LIMIT);
    let cleaned = clean_segment("<<>>::");
    assert!(!cleaned.is_empty() && cleaned.chars().count() <= SEGMENT_LIMIT);
    assert!(!cleaned.contains(['<', '>', ':', '"', '/', '\\', '|', '?', '*']));
}

#[test]
fn link_descriptions() {
    assert_eq!(link_details("solution", " 12 ", "", "3", "  "), "角色：我的解答 · 页码：12 · 题号：3");
    assert_eq!(link_details("prompt", "", "ch2", "", "看背面"), "角色：题目材料 · 章节：ch2 · 备注：看背面");
    assert_eq!(link_details("other", "", "", "", ""), "角色：other");
    assert_eq!(rename_details("reference", "/old.txt"), "角色：教材参考 · 原路径：/old.txt");
}

#[test]
fn paths_lose_verbatim_prefixes() {
    assert_eq!(normal_path(r"\\?\C:\a\b.txt"), r"C:\a\b.txt");
    assert_eq!(normal_path(r"\\?\UNC\server\share\x"), r"\\server\share\x");
    assert_eq!(normal_path(r"D:\x"), r"D:\x");
    assert_eq!(normal_path("/home/a"), "/home/a");
}

#[test]
fn link_roles_and_batches() {
    assert!(valid_link_role("prompt") && valid_link_role("reference") && valid_link_role("solution"));
    assert!(!valid_link_role("Prompt"));
    assert_eq!(check_link_role("x").unwrap_err(), "无效的文件角色");
    assert_eq!(check_link_batch("x", 2).unwrap_err(), "无效的文件角色");
    assert_eq!(check_link_batch("reference", 0).unwrap_err(), "请至少选择一个文件");
    assert!(check_link_batch("reference", 1).is_ok());
}

#[test]
fn batch_paths_are_linked_once() {
    let paths = vec!["/t/A.txt".to_string(), "/t/b.txt".to_string(), "/t/a.TXT".to_string(), "/t/b.txt".to_string()];
    assert_eq!(unique_paths(&paths), vec!["/t/A.txt".to_string(), "/t/b.txt".to_string()]);
    assert!(unique_paths(&vec![]).is_empty());
}

#[test]
fn listings_hide_and_order() {
    assert!(!visible_entry(".git"));
    assert!(!visible_entry("node_modules"));
    assert!(visible_entry("notes"));
    let entry = |name: &str, is_dir: bool| DirectoryEntry { name: name.into(), path: format!("/c/{name}"), is_dir };
    let sorted = sort_entries(vec![entry("b.pdf", false), entry("Zeta", true), entry("A.pdf", false), entry("alpha", true)]);
    let names: Vec<&str> = sorted.iter().map(|e| e.name.as_str()).collect();
    assert_eq!(names, vec!["alpha", "Zeta", "A.pdf", "b.pdf"]);
    let same = sort_entries(vec![entry("b.txt", false), entry("a.TXT", false), entry("A.txt", false)]);
    let names: Vec<&str> = same.iter().map(|e| e.name.as_str()).collect();
    assert_eq!(names, vec!["a.TXT", "A.txt", "b.txt"]);
}

#[test]
fn searches() {
    assert!(search_query_too_short(" a "));
    assert!(!search_query_too_short("ab"));
    assert!(search_query_too_short("中"));
    assert!(!search_query_too_short(" 中文 "));
    assert!(name_matches_query("Report.PDF", "pdf"));
    assert!(!name_matches_query("Report.PDF", "doc"));
    assert_eq!(SEARCH_RESULT_LIMIT, 100);
    assert_eq!(check_course_folder("").unwrap_err(), "此课程尚未关联文件夹");
    assert!(check_course_folder("/c").is_ok());
}

#[test]
fn common_files() {
    assert!(check_common_kind("textbook").is_ok());
    assert_eq!(check_common_kind("answer").unwrap_err(), "无效的常用文件类型");
    assert_eq!(common_file_label("  ", "a.pdf"), "a.pdf");
    assert_eq!(common_file_label(" 课本 ", "a.pdf"), "课本");
}

#[test]
fn rename_previews_are_checked() {
    let preview = |unchanged: bool, conflict: bool| RenamePreview {
        file_id: "f".into(),
        old_path: "/a".into(),
        new_path: "/b".into(),
        conflict,
        unchanged,
    };
    assert_eq!(check_rename_preview(&preview(true, true)).unwrap_err(), "文件名已经符合模板");
    assert_eq!(check_rename_preview(&preview(false, true)).unwrap_err(), "目标文件名已经存在");
    assert!(check_rename_preview(&preview(false, false)).is_ok());
}

#[test]
fn undo_only_when_untouched() {
    let ok = |latest: &str, current: &str, is_file: bool, old_exists: bool, sig: (i64, i64)| {
        undo_rename_verdict("r1", false, Ok(latest.into()), Ok(current.into()), "/new", is_file, old_exists, Ok(sig), (10, 20))
    };
    assert!(ok("r1", "/new", true, false, (10, 20)).is_ok());
    assert_eq!(
        undo_rename_verdict("r1", true, Ok("r1".into()), Ok("/new".into()), "/new", true, false, Ok((10, 20)), (10, 20)).unwrap_err(),
        "这次改名已经撤回"
    );
    assert_eq!(ok("r2", "/new", true, false, (10, 20)).unwrap_err(), "请先撤回此文件较新的改名");
    assert_eq!(ok("r1", "/elsewhere", true, false, (10, 20)).unwrap_err(), "文件已在应用外移动或改名，无法安全撤回");
    assert_eq!(ok("r1", "/new", false, false, (10, 20)).unwrap_err(), "文件已在应用外移动或改名，无法安全撤回");
    assert_eq!(ok("r1", "/new", true, true, (10, 20)).unwrap_err(), "原文件名已被占用");
    assert_eq!(ok("r1", "/new", true, false, (11, 20)).unwrap_err(), "文件内容或修改时间已变化，无法安全撤回");
    assert_eq!(
        undo_rename_verdict("r1", false, Err("db".into()), Ok("/new".into()), "/new", true, false, Ok((10, 20)), (10, 20)).unwrap_err(),
        "db"
    );
}
