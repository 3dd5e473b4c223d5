use homework_manager::db::{
    attach_custom_fields, check_backup_integrity, check_backup_path, check_backup_version,
    check_provider_input, default_prompt_due, group_recent_values, id_or_new, key_from_store, key_location,
    prepare_assignment, prepare_course, prepare_semester, recent_value, seed_course_code,
    settings_with_defaults, Assignment, Course, ProviderInput, Semester, RECENT_VALUES_SHOWN,
};

fn assignment(id: &str, title: &str, status: &str) -> Assignment {
    Assignment {
        id: id.into(),
        course_id: "c".into(),
        title: title.into(),
        description: String::new(),
        due_at: None,
        status: status.into(),
        submission_label: String::new(),
        submission_url: String::new(),
        submission_notes: String::new(),
        source_name: String::new(),
        source_text: String::new(),
        created_at: String::new(),
        updated_at: String::new(),
        custom_fields: vec![],
    }
}

fn is_uuid(s: &str) -> bool {
    s.len() == 36
        && s.chars().enumerate().all(|(i, c)| {
            if [8, 13, 18, 23].contains(&i) { c == '-' } else { c.is_ascii_hexdigit() && !c.is_ascii_uppercase() }
        })
}

#[test]
fn ids_are_kept_or_made() {
    assert_eq!(id_or_new("abc"), "abc");
    assert_eq!(id_or_new(" abc "), " abc ");
    let fresh = id_or_new("  ");
    assert!(is_uuid(&fresh), "{fresh}");
    assert_eq!(fresh.as_bytes()[14], b'4');
    assert!(matches!(fresh.as_bytes()[19], b'8' | b'9' | b'a' | b'b'));
    assert!(!fresh.trim().is_empty());
    assert_ne!(id_or_new(""), id_or_new(""));
}

#[test]
fn semesters_and_courses_are_prepared() {
    let s = prepare_semester(&Semester { id: "s1".into(), name: " 2026 秋季 ".into(), source_root: " D:\\x ".into() }).unwrap();
    assert_eq!((s.id.as_str(), s.name.as_str(), s.source_root.as_str()), ("s1", "2026 秋季", "D:\\x"));
    assert_eq!(
        prepare_semester(&Semester { id: String::new(), name: " ".into(), source_root: String::new() }).unwrap_err(),
        "学期名称不能为空"
    );
    let c = prepare_course(&Course {
        id: String::new(),
        semester_id: "s1".into(),
        name: " Calculus ".into(),
        code: " MA117 ".into(),
        folder_path: String::new(),
    })
    .unwrap();
    assert!(is_uuid(&c.id));
    assert_eq!((c.name.as_str(), c.code.as_str(), c.semester_id.as_str()), ("Calculus", "MA117", "s1"));
    assert_eq!(
        prepare_course(&Course { id: "c".into(), semester_id: "s".into(), name: "".into(), code: "".into(), folder_path: "".into() })
            .unwrap_err(),
        "课程名称不能为空"
    );
}

#[test]
fn assignments_are_checked() {
    let mut a = assignment("a1", " 作业一 ", "doing");
    a.due_at = Some(String::new());
    a.custom_fields = vec![(" 教学周 ".into(), "第 3 周".into())];
    let u = prepare_assignment(&a).unwrap();
    assert_eq!(u.id, "a1");
    assert_eq!(u.title, "作业一");
    assert_eq!(u.due_at, None);
    assert_eq!(u.custom_fields, vec![("教学周".to_string(), "第 3 周".to_string())]);
    let mut dated = assignment("", "T", "submitted");
    dated.due_at = Some("2026-09-25T23:59:00".into());
    let u = prepare_assignment(&dated).unwrap();
    assert!(is_uuid(&u.id));
    assert_eq!(u.due_at.as_deref(), Some("2026-09-25T23:59:00"));
    assert_eq!(prepare_assignment(&assignment("a", " ", "todo")).unwrap_err(), "作业标题不能为空");
    assert_eq!(prepare_assignment(&assignment("a", "T", "late")).unwrap_err(), "无效的作业状态");
    let mut blank_key = assignment("a", "T", "done");
    blank_key.custom_fields = vec![("  ".into(), "v".into())];
    assert_eq!(prepare_assignment(&blank_key).unwrap_err(), "自定义字段数量或长度超出限制");
    let mut long_value = assignment("a", "T", "done");
    long_value.custom_fields = vec![("k".into(), "v".repeat(4001))];
    assert!(prepare_assignment(&long_value).is_err());
    let mut wide = assignment("a", "T", "done");
    wide.custom_fields = vec![("键".repeat(80), "值".repeat(4000))];
    assert!(prepare_assignment(&wide).is_ok());
    wide.custom_fields = vec![("键".repeat(81), String::new())];
    assert!(prepare_assignment(&wide).is_err());
    let mut many = assignment("a", "T", "done");
    many.custom_fields = (0..41).map(|i| (format!("k{i}"), String::new())).collect();
    assert!(prepare_assignment(&many).is_err());
    many.custom_fields.pop();
    assert!(prepare_assignment(&many).is_ok());
}

#[test]
fn remembered_values() {
    assert_eq!(recent_value("  Canvas  ").as_deref(), Some("Canvas"));
    assert_eq!(recent_value("   "), None);
    assert_eq!(recent_value(&"字".repeat(167)), None);
    assert_eq!(recent_value(&"字".repeat(166)).map(|s| s.len()), Some(498));
}

#[test]
fn remembered_values_group_by_field() {
    let mut rows: Vec<(String, String)> = (0..15).map(|i| ("title".to_string(), format!("t{i}"))).collect();
    rows.insert(3, ("submission_label".into(), "Canvas".into()));
    let groups = group_recent_values(&rows);
    assert_eq!(groups.len(), 2);
    assert_eq!(groups[0].0, "title");
    assert_eq!(groups[0].1.len(), RECENT_VALUES_SHOWN);
    assert_eq!(groups[0].1[0], "t0");
    assert_eq!(groups[0].1[11], "t11");
    assert_eq!(groups[1], ("submission_label".to_string(), vec!["Canvas".to_string()]));
    assert!(group_recent_values(&vec![]).is_empty());
}

#[test]
fn custom_fields_join_their_assignment() {
    let rows = vec![
        ("a1".to_string(), "周".to_string(), "3".to_string()),
        ("a2".to_string(), "k".to_string(), "v".to_string()),
        ("a1".to_string(), "页".to_string(), "12".to_string()),
    ];
    let out = attach_custom_fields(vec![assignment("a1", "A", "todo"), assignment("a3", "C", "todo"), assignment("a2", "B", "todo")], &rows);
    assert_eq!(out[0].custom_fields, vec![("周".to_string(), "3".to_string()), ("页".to_string(), "12".to_string())]);
    assert!(out[1].custom_fields.is_empty());
    assert_eq!(out[2].custom_fields, vec![("k".to_string(), "v".to_string())]);
    assert_eq!(out[2].title, "B");
}

#[test]
fn settings_defaults() {
    let s = settings_with_defaults(None, None, None, Some("p2".into()));
    assert_eq!(s.theme, "light");
    assert_eq!(s.naming_template, "{course_code}-{material}-hw-{scope}");
    assert_eq!(s.assignment_provider_id, "");
    assert_eq!(s.material_provider_id, "p2");
    assert_eq!(settings_with_defaults(Some("dark".into()), None, None, None).theme, "dark");
}

#[test]
fn first_start_and_prompts() {
    assert_eq!(seed_course_code("Calculus"), "MA117");
    assert_eq!(seed_course_code("Linear Algebra"), "MA113");
    assert_eq!(seed_course_code("Physics"), "PHY105");
    assert_eq!(seed_course_code("思政"), "");
    assert!(default_prompt_due(false, None, "old"));
    assert!(default_prompt_due(true, Some("old".into()), "old"));
    assert!(!default_prompt_due(true, Some("my custom system".into()), "old"));
    assert!(!default_prompt_due(true, None, "old"));
}

#[test]
fn providers_and_keys() {
    let input = |kind: &str, name: &str, model: &str| ProviderInput {
        id: String::new(),
        name: name.into(),
        kind: kind.into(),
        base_url: "https://x/".into(),
        model: model.into(),
        api_key: String::new(),
    };
    assert!(check_provider_input(&input("deepseek", "D", "m")).is_ok());
    assert_eq!(check_provider_input(&input("gemini", "G", "m")).unwrap_err(), "无效的服务商类型");
    assert_eq!(check_provider_input(&input("custom", " ", "m")).unwrap_err(), "请填写服务商名称和模型");
    assert_eq!(key_from_store(Ok("secret".into())).unwrap(), "secret");
    assert_eq!(key_from_store(Err(())).unwrap_err(), "此服务商尚未保存 API Key");
    assert_eq!(key_location("p1"), ("app.homeworkbook.local".to_string(), "p1".to_string()));
}

#[test]
fn backups_are_checked() {
    assert_eq!(check_backup_path(" ").unwrap_err(), "请选择备份路径");
    assert!(check_backup_path("/b.db").is_ok());
    assert!(check_backup_integrity("ok").is_ok());
    assert_eq!(check_backup_integrity("corrupt").unwrap_err(), "备份数据库完整性检查失败");
    assert!(check_backup_version(1).is_ok() && check_backup_version(2).is_ok());
    assert!(check_backup_version(3).is_ok() && check_backup_version(4).is_ok());
    assert_eq!(check_backup_version(5).unwrap_err(), "备份数据库版本不兼容");
    assert!(check_backup_version(0).is_err());
}
