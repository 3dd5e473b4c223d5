use homework_manager::ai::{
    chat_answer_text, chat_request, check_base_url, check_capability, check_import_drafts,
    check_import_file, check_import_request, check_prompt_content, check_prompt_size,
    check_selected_provider, check_upload_size, classify, courses_json, data_url, file_interface,
    finish_drafts, image_mime, import_timeout_secs, json_region,
    render_user_prompt, resolve_course_ids, upload_mime, AiDraft, AiRequest, AiResult, Attachment,
    FileKind, ProviderConfig,
};
use serde_json::Value;

fn draft(course_name: &str, title: &str, due_at: Option<&str>) -> AiDraft {
    AiDraft {
        course_name: course_name.to_string(),
        course_id: String::new(),
        title: title.to_string(),
        description: String::new(),
        due_at: due_at.map(|d| d.to_string()),
        submission_label: String::new(),
        submission_url: String::new(),
        submission_notes: String::new(),
        evidence: String::new(),
    }
}

fn text_field(v: &Value, key: &str) -> String {
    v.get(key).and_then(Value::as_str).unwrap_or("").to_string()
}

/// A model answer read as the import reads it: the JSON part is framed,
/// parsed, and the drafts are cleaned.
fn extract_json(content: &str) -> Result<AiResult, String> {
    let data = json_region(content)?;
    let invalid = || "模型返回格式无效，请重试或改用手动录入".to_string();
    let value: Value = serde_json::from_str(&data).map_err(|_| invalid())?;
    let items = value.get("assignments").and_then(Value::as_array).ok_or_else(invalid)?;
    let assignments = items
        .iter()
        .map(|v| AiDraft {
            course_name: text_field(v, "course_name"),
            course_id: text_field(v, "course_id"),
            title: text_field(v, "title"),
            description: text_field(v, "description"),
            due_at: v.get("due_at").and_then(Value::as_str).map(|s| s.to_string()),
            submission_label: text_field(v, "submission_label"),
            submission_url: text_field(v, "submission_url"),
            submission_notes: text_field(v, "submission_notes"),
            evidence: text_field(v, "evidence"),
        })
        .collect();
    finish_drafts(AiResult { assignments })
}

fn provider(kind: &str, base_url: &str, model: &str) -> ProviderConfig {
    ProviderConfig {
        id: "x".into(),
        kind: kind.into(),
        base_url: base_url.into(),
        model: model.into(),
    }
}

#[test]
fn ai_parses_multiple_assignments_and_unknown_due() {
    let result = extract_json(r#"{"assignments":[{"title":"A","due_at":"2026-09-25T23:59:00"},{"title":"B","due_at":null}]}"#).unwrap();
    assert_eq!(result.assignments.len(), 2);
    assert_eq!(result.assignments[1].due_at, None);
}

#[test]
fn ai_deepseek_rejects_pdf() {
    let config = provider("deepseek", "https://api.deepseek.com", "deepseek-flash");
    assert!(check_capability(&config, &["hw.pdf".into()]).is_err());
    assert!(check_capability(&config, &["board.png".into()]).is_ok());
    assert!(check_capability(&config, &["old.doc".into()]).is_err());
}

#[test]
fn ai_rejects_invalid_model_output_and_clears_bad_date() {
    assert!(extract_json("not JSON").is_err());
    assert!(extract_json(r#"{"assignments":[]}"#).is_err());
    let parsed = extract_json(r#"{"assignments":[{"title":"题目","due_at":"下周"}]}"#).unwrap();
    assert!(parsed.assignments[0].due_at.is_none());
}

#[test]
fn ai_qwen_doc_only_accepts_one_file() {
    let config = provider("bailian", "https://dashscope.aliyuncs.com/compatible-mode/v1", "qwen-doc-turbo");
    assert!(check_capability(&config, &["hw.docx".into()]).is_ok());
    assert!(check_capability(&config, &["one.pdf".into(), "two.pdf".into()]).is_err());
}

#[test]
fn ai_unknown_course_requires_review() {
    let mut parsed = extract_json(r#"{"assignments":[{"course_name":"Calculus","title":"A"},{"course_name":"Imaginary","title":"B"},{"course_name":"MA117","title":"C"}]}"#).unwrap();
    resolve_course_ids(&mut parsed, &[("course-1".into(), "Calculus".into(), "MA117".into())]);
    assert_eq!(parsed.assignments[0].course_id, "course-1");
    assert!(parsed.assignments[1].course_id.is_empty());
    assert_eq!(parsed.assignments[2].course_id, "course-1");
}

#[test]
fn capability_messages_name_the_refusal() {
    let deepseek = provider("deepseek", "https://api.deepseek.com", "deepseek-flash");
    assert_eq!(
        check_capability(&deepseek, &["hw.pdf".into()]).unwrap_err(),
        "所选服务商不支持直接传入 PDF。请切换到支持 PDF 文件输入的百炼模型。"
    );
    assert_eq!(
        check_capability(&deepseek, &["notes.docx".into()]).unwrap_err(),
        "所选模型不支持直接传入 DOCX。请选择百炼 qwen-long 或 qwen-doc-turbo。"
    );
    assert_eq!(check_capability(&deepseek, &["old.DOC".into()]).unwrap_err(), "不支持的导入文件格式：doc");
    let plain = provider("bailian", "https://dashscope.aliyuncs.com", "qwen-plus");
    assert_eq!(
        check_capability(&plain, &["a.pdf".into()]).unwrap_err(),
        "此百炼模型未标记为支持 PDF。请选择 qwen3.8 系列、qwen-long 或 qwen-doc-turbo。"
    );
    assert_eq!(
        check_capability(&plain, &["a.png".into()]).unwrap_err(),
        "所选模型未标记为支持图片。请使用百炼视觉模型、qwen-long、qwen-doc-turbo 或 deepseek-flash。"
    );
    let vision = provider("bailian", "https://dashscope.aliyuncs.com", "Qwen-VL-Max");
    assert!(check_capability(&vision, &["a.webp".into()]).is_ok());
    let turbo = provider("bailian", "https://dashscope.aliyuncs.com", "QWEN-DOC-TURBO");
    assert_eq!(
        check_capability(&turbo, &["a.docx".into(), "b.docx".into()]).unwrap_err(),
        "qwen-doc-turbo 一次只支持一个文件，请分批导入或切换 qwen-long"
    );
    let custom = provider("custom", "http://localhost:1234", "any");
    assert!(check_capability(&custom, &[]).is_ok());
}

#[test]
fn classification_reads_the_extension() {
    assert_eq!(classify("dir/Photo.JPEG"), Ok(FileKind::Image));
    assert_eq!(classify("sheet.PDF"), Ok(FileKind::Pdf));
    assert_eq!(classify("a.b/notes.docx"), Ok(FileKind::Docx));
    assert_eq!(classify("old.doc"), Err("不支持的导入文件格式：doc".to_string()));
    assert_eq!(classify("README"), Err("不支持的导入文件格式：".to_string()));
    assert_eq!(classify(".pdf"), Err("不支持的导入文件格式：".to_string()));
    assert_eq!(classify("notes/.pdf"), Err("不支持的导入文件格式：".to_string()));
    assert_eq!(classify("pdf.d/x"), Err("不支持的导入文件格式：".to_string()));
    assert_eq!(image_mime("a.GIF"), "image/gif");
    assert_eq!(image_mime("a.png"), "image/png");
    assert_eq!(image_mime("a.webp"), "image/webp");
    assert_eq!(image_mime("a.jpg"), "image/jpeg");
    assert_eq!(upload_mime(FileKind::Pdf, "pdf"), "application/pdf");
    assert_eq!(
        upload_mime(FileKind::Docx, "docx"),
        "application/vnd.openxmlformats-officedocument.wordprocessingml.document"
    );
    assert_eq!(upload_mime(FileKind::Image, "PNG"), "image/png");
}

#[test]
fn json_region_frames_the_object() {
    assert_eq!(json_region("  {\"a\":1}  ").unwrap(), "{\"a\":1}");
    assert_eq!(json_region("```json\n{\"a\":1}\n```").unwrap(), "{\"a\":1}");
    assert_eq!(json_region("no braces").unwrap_err(), "模型未返回可解析的作业数据");
    assert_eq!(json_region("only { open").unwrap_err(), "模型未返回完整的作业数据");
    assert_eq!(json_region("x } y { z").unwrap_err(), "模型返回格式无效，请重试或改用手动录入");
    assert_eq!(json_region("x { y } z").unwrap(), "{ y }");
    assert_eq!(json_region("}{").unwrap(), "");
    assert!(extract_json("} x {").is_err());
}

#[test]
fn finished_drafts_keep_titled_ones_with_valid_dates() {
    let result = AiResult {
        assignments: vec![
            draft("", "  ", Some("2026-01-01T00:00:00")),
            draft("C", "Keep", Some("2026-02-30T00:00:00")),
            draft("C", "Also", Some("2026-03-01T08:30:00")),
        ],
    };
    let done = finish_drafts(result).unwrap();
    assert_eq!(done.assignments.len(), 2);
    assert_eq!(done.assignments[0].title, "Keep");
    assert_eq!(done.assignments[0].due_at, None);
    assert_eq!(done.assignments[1].due_at.as_deref(), Some("2026-03-01T08:30:00"));
    let empty = finish_drafts(AiResult { assignments: vec![draft("", "", None)] });
    assert_eq!(empty.unwrap_err(), "未识别出独立作业，请检查输入内容");
}

#[test]
fn course_ids_resolve_only_on_a_single_match() {
    let courses = vec![
        ("c1".to_string(), "Physics".to_string(), "PHY105".to_string()),
        ("c2".to_string(), "physics".to_string(), String::new()),
        ("c3".to_string(), "Calculus".to_string(), "MA117".to_string()),
    ];
    let mut result = AiResult {
        assignments: vec![draft(" physics ", "A", None), draft("ma117", "B", None), draft("", "C", None)],
    };
    result.assignments[2].course_id = "stale".into();
    resolve_course_ids(&mut result, &courses);
    assert_eq!(result.assignments[0].course_id, "");
    assert_eq!(result.assignments[1].course_id, "c3");
    assert_eq!(result.assignments[2].course_id, "");
    assert_eq!(result.assignments[1].title, "B");
}

#[test]
fn user_prompt_requires_content_placeholder() {
    let user = render_user_prompt("课程 {courses}，内容 {content}", "2026-09-01", "Calculus", "A 和 B").unwrap();
    assert!(user.contains("A 和 B"));
    assert_eq!(user, "课程 Calculus，内容 A 和 B");
    assert_eq!(
        render_user_prompt("missing placeholder", "2026-09-01", "Calculus", "A 和 B").unwrap_err(),
        "assignment_user.txt 必须包含 {content} 占位符"
    );
}

#[test]
fn user_prompt_replaces_in_order() {
    assert_eq!(
        render_user_prompt("{date}|{courses}|{content}", "2026-01-01", "[c]", "x").unwrap(),
        "2026-01-01|[c]|x"
    );
    assert_eq!(render_user_prompt("{content}", "d", "c", "{date}").unwrap(), "{date}");
    assert_eq!(render_user_prompt("{courses} {content}", "d", "{content}", "X").unwrap(), "X X");
}

#[test]
fn prompt_files_are_checked() {
    assert!(check_prompt_size(65536).is_ok());
    assert_eq!(check_prompt_size(65537).unwrap_err(), "单个提示词文件不能超过 64 KB");
    assert_eq!(check_prompt_content("  \n".into(), "p/a.txt").unwrap_err(), "提示词文件不能为空：p/a.txt");
    assert_eq!(check_prompt_content("rules".into(), "p").unwrap(), "rules");
}

#[test]
fn import_requests_are_checked() {
    let empty = AiRequest { text: "  ".into(), paths: vec![] };
    assert_eq!(check_import_request(&empty).unwrap_err(), "请粘贴内容或选择文件");
    let with_file = AiRequest { text: String::new(), paths: vec!["a.pdf".into()] };
    assert!(check_import_request(&with_file).is_ok());
    assert_eq!(check_selected_provider("").unwrap_err(), "请先在设置中为“作业识别”指定 AI 服务商");
    assert!(check_selected_provider("p1").is_ok());
    assert!(check_base_url("https://api.deepseek.com").is_ok());
    assert!(check_base_url("http://127.0.0.1:8080").is_ok());
    assert!(check_base_url("http://localhost").is_ok());
    assert!(check_base_url("http://localhost:11434/v1").is_ok());
    assert_eq!(check_base_url("http://example.com").unwrap_err(), "服务地址必须使用 HTTPS");
    assert_eq!(check_base_url("http://localhost.evil.com").unwrap_err(), "服务地址必须使用 HTTPS");
    assert_eq!(check_base_url("http://127.0.0.1.evil.com").unwrap_err(), "服务地址必须使用 HTTPS");
    assert_eq!(check_base_url("not a url").unwrap_err(), "服务地址必须使用 HTTPS");
}

#[test]
fn file_interface_and_timeouts() {
    assert!(file_interface(&provider("bailian", "https://d", "QWEN-LONG-latest")));
    assert!(file_interface(&provider("bailian", "https://d", "Qwen-Doc-Turbo")));
    assert!(!file_interface(&provider("deepseek", "https://d", "qwen-long")));
    assert_eq!(import_timeout_secs(&["a.png".into(), "b.PDF".into()]), 360);
    assert_eq!(import_timeout_secs(&["a.png".into()]), 120);
    assert_eq!(import_timeout_secs(&[]), 120);
}

#[test]
fn import_files_are_checked() {
    assert_eq!(check_import_file("x.pdf", false, Ok(1)).unwrap_err(), "导入文件不存在：x.pdf");
    assert_eq!(check_import_file("x.pdf", true, Err("denied".into())).unwrap_err(), "denied");
    assert_eq!(check_import_file("x.pdf", true, Ok(20971521)).unwrap_err(), "单个导入文件不能超过 20 MB");
    assert!(check_import_file("x.pdf", true, Ok(20971520)).is_ok());
    assert!(check_upload_size(20971520).is_ok());
    assert_eq!(check_upload_size(20971521).unwrap_err(), "文件超过首版 20 MB 上传限制");
}

#[test]
fn data_urls_carry_base64() {
    assert_eq!(data_url("image/png", b"abc"), "data:image/png;base64,YWJj");
    assert_eq!(data_url("application/pdf", b"pdf"), "data:application/pdf;base64,cGRm");
    assert_eq!(data_url("text/plain", b"a"), "data:text/plain;base64,YQ==");
    assert_eq!(data_url("text/plain", b"ab"), "data:text/plain;base64,YWI=");
    assert_eq!(data_url("text/plain", &[0xff, 0xfe, 0x00, 0x3e]), "data:text/plain;base64,//4APg==");
    assert_eq!(data_url("text/plain", b""), "data:text/plain;base64,");
}

#[test]
fn chat_requests_are_valid_json() {
    let atts = vec![
        Attachment::Pdf { data: "data:application/pdf;base64,cGRm".into(), filename: "hw \"1\".pdf".into() },
        Attachment::Image { url: "data:image/png;base64,YWJj".into() },
    ];
    let text = chat_request("m", "sys", "say \"hi\"\n", false, &atts, &[]);
    let v: Value = serde_json::from_str(&text).unwrap();
    assert_eq!(v["model"], "m");
    assert_eq!(v["temperature"], 0.1);
    assert_eq!(v["messages"][0]["role"], "system");
    assert_eq!(v["messages"][0]["content"], "sys");
    assert_eq!(v["messages"][1]["role"], "user");
    assert_eq!(v["messages"][1]["content"][0]["type"], "text");
    assert_eq!(v["messages"][1]["content"][0]["text"], "say \"hi\"\n");
    assert_eq!(v["messages"][1]["content"][1]["file"]["filename"], "hw \"1\".pdf");
    assert_eq!(v["messages"][1]["content"][2]["image_url"]["url"], "data:image/png;base64,YWJj");
    let uploaded = chat_request("qwen-long", "sys", "p", true, &[], &["f1".into(), "f2".into()]);
    let v: Value = serde_json::from_str(&uploaded).unwrap();
    assert_eq!(v["messages"][1]["content"], "fileid://f1");
    assert_eq!(v["messages"][2]["content"], "fileid://f2");
    assert_eq!(v["messages"][3]["content"], "p");
    assert_eq!(v["messages"].as_array().unwrap().len(), 4);
}

#[test]
fn course_list_json() {
    let courses = vec![
        ("c1".to_string(), "Calculus".to_string(), "MA117".to_string()),
        ("c2".to_string(), "思政".to_string(), String::new()),
    ];
    assert_eq!(courses_json(&courses), r#"[{"code":"MA117","name":"Calculus"},{"code":"","name":"思政"}]"#);
    assert_eq!(courses_json(&[]), "[]");
}

#[test]
fn chat_answers_need_text() {
    assert_eq!(chat_answer_text(Some("{}".into())).unwrap(), "{}");
    assert_eq!(chat_answer_text(None).unwrap_err(), "服务商没有返回文字内容");
}

#[test]
fn reviewed_drafts_need_course_and_title() {
    assert_eq!(check_import_drafts(&vec![]).unwrap_err(), "没有可创建的作业");
    let mut ready = draft("C", "T", None);
    ready.course_id = "c1".into();
    assert!(check_import_drafts(&vec![ready]).is_ok());
    assert_eq!(check_import_drafts(&vec![draft("C", "T", None)]).unwrap_err(), "请为每条作业确认课程和标题");
}
