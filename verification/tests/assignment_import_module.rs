use homework_manager::ai::{finish_drafts, json_region, AiDraft, FileKind, ProviderConfig};
use homework_manager::assignment_import::{
    check_capability, check_gemini_model, check_provider, check_routing_target, descriptor,
    gemini_endpoint, gemini_mime, inline_file, gemini_request, gemini_text, prompt_action, prompt_dir,
    require_api_key, resolve_course_ids, without_trailing_slashes, AiResult, PromptAction,
    ProviderInput, CAPABILITY, ID,
};
use serde_json::Value;

fn parse(text: &str) -> Value {
    serde_json::from_str(text).unwrap()
}

fn text_field(v: &Value, key: &str) -> String {
    v.get(key).and_then(Value::as_str).unwrap_or("").to_string()
}

/// A model answer read as the module reads it.
fn extract_json(content: &str) -> Result<AiResult, String> {
    let data = json_region(content)?;
    let invalid = || "模型返回格式无效，请重试或改用手动录入".to_string();
    let value: Value = serde_json::from_str(&data).map_err(|_| invalid())?;
    let items = value.get("assignments").and_then(Value::as_array).ok_or_else(invalid)?;
    let assignments = items
        .iter()
        .map(|v| AiDraft {
            course_name: text_field(v, "course_name"),
            course_id: text_field(v, "course_id"),
            title: text_field(v, "title"),
            description: text_field(v, "description"),
            due_at: v.get("due_at").and_then(Value::as_str).map(|s| s.to_string()),
            submission_label: text_field(v, "submission_label"),
            submission_url: text_field(v, "submission_url"),
            submission_notes: text_field(v, "submission_notes"),
            evidence: text_field(v, "evidence"),
        })
        .collect();
    finish_drafts(AiResult { assignments })
}

/// The text of a Gemini answer, read out of its JSON as the module does.
fn gemini_response(value: &Value) -> Result<String, String> {
    let parts = value.pointer("/candidates/0/content/parts").and_then(Value::as_array).map(|parts| {
        parts.iter().map(|p| p.get("text").and_then(Value::as_str).map(|s| s.to_string())).collect::<Vec<_>>()
    });
    let reason = value.pointer("/promptFeedback/blockReason").and_then(Value::as_str).map(|s| s.to_string());
    gemini_text(parts, reason)
}

fn provider(kind: &str, base_url: &str, model: &str) -> ProviderConfig {
    ProviderConfig { id: "x".into(), kind: kind.into(), base_url: base_url.into(), model: model.into() }
}

fn input(kind: &str, base_url: &str) -> ProviderInput {
    ProviderInput {
        id: String::new(),
        name: " Gemini ".into(),
        kind: kind.into(),
        base_url: base_url.into(),
        model: " gemini-2.5-flash ".into(),
        api_key: String::new(),
    }
}

#[test]
fn backend_parses_multiple_assignments_and_unknown_due() {
    let result = extract_json(r#"{"assignments":[{"title":"A","due_at":"2026-09-25T23:59:00"},{"title":"B","due_at":null}]}"#).unwrap();
    assert_eq!(result.assignments.len(), 2);
    assert_eq!(result.assignments[1].due_at, None);
}

#[test]
fn backend_deepseek_rejects_pdf() {
    let config = provider("deepseek", "https://api.deepseek.com", "deepseek-flash");
    assert!(check_capability(&config, &["hw.pdf".into()]).is_err());
    assert!(check_capability(&config, &["board.png".into()]).is_ok());
    assert!(check_capability(&config, &["old.doc".into()]).is_err());
}

#[test]
fn gemini_accepts_pdf_and_images_but_rejects_docx() {
    let config = provider("gemini", "https://generativelanguage.googleapis.com/v1beta", "gemini-2.5-flash");
    assert!(check_capability(&config, &["sheet.pdf".into(), "photo.png".into()]).is_ok());
    assert!(check_capability(&config, &["sheet.docx".into()]).is_err());
    let request: Value =
        serde_json::from_str(&gemini_request("rules", "homework", &[("application/pdf".into(), "cGRm".into())])).unwrap();
    assert_eq!(request["systemInstruction"]["parts"][0]["text"], "rules");
    assert_eq!(request["contents"][0]["parts"][1]["inline_data"]["mime_type"], "application/pdf");
    assert_eq!(request["generationConfig"]["responseMimeType"], "application/json");
    let response = parse(r#"{"candidates":[{"content":{"parts":[{"text":"{\"assignments\":[{\"title\":\"A\"}]}"}]}}]}"#);
    assert_eq!(extract_json(&gemini_response(&response).unwrap()).unwrap().assignments[0].title, "A");
}

#[test]
fn backend_rejects_invalid_model_output_and_clears_bad_date() {
    assert!(extract_json("not JSON").is_err());
    assert!(extract_json(r#"{"assignments":[]}"#).is_err());
    let parsed = extract_json(r#"{"assignments":[{"title":"题目","due_at":"下周"}]}"#).unwrap();
    assert!(parsed.assignments[0].due_at.is_none());
}

#[test]
fn backend_qwen_doc_only_accepts_one_file() {
    let config = provider("bailian", "https://dashscope.aliyuncs.com/compatible-mode/v1", "qwen-doc-turbo");
    assert!(check_capability(&config, &["hw.docx".into()]).is_ok());
    assert!(check_capability(&config, &["one.pdf".into(), "two.pdf".into()]).is_err());
}

#[test]
fn backend_unknown_course_requires_review() {
    let mut parsed = extract_json(r#"{"assignments":[{"course_name":"Calculus","title":"A"},{"course_name":"Imaginary","title":"B"},{"course_name":"MA117","title":"C"}]}"#).unwrap();
    resolve_course_ids(&mut parsed, &[("course-1".into(), "Calculus".into(), "MA117".into())]);
    assert_eq!(parsed.assignments[0].course_id, "course-1");
    assert!(parsed.assignments[1].course_id.is_empty());
    assert_eq!(parsed.assignments[2].course_id, "course-1");
}

#[test]
fn gemini_pdf_message_names_gemini() {
    let deepseek = provider("deepseek", "https://api.deepseek.com", "deepseek-flash");
    assert_eq!(
        check_capability(&deepseek, &["hw.pdf".into()]).unwrap_err(),
        "所选服务商不支持直接传入 PDF。请切换到支持 PDF 文件输入的百炼或 Gemini 模型。"
    );
}

#[test]
fn gemini_requests_escape_text() {
    let text = gemini_request("a \"b\"", "line1\nline2", &[]);
    let request: Value = serde_json::from_str(&text).unwrap();
    assert_eq!(request["systemInstruction"]["parts"][0]["text"], "a \"b\"");
    assert_eq!(request["contents"][0]["parts"][0]["text"], "line1\nline2");
    assert_eq!(request["contents"][0]["parts"].as_array().unwrap().len(), 1);
    assert_eq!(request["contents"][0]["role"], "user");
    let control = gemini_request("\u{1}\t\\", "p", &[]);
    assert!(control.starts_with("{\"systemInstruction\":{\"parts\":[{\"text\":\"\\u0001\\t\\\\\"}]}"));
}

#[test]
fn gemini_answers() {
    let blocked = parse(r#"{"promptFeedback":{"blockReason":"SAFETY"}}"#);
    assert_eq!(gemini_response(&blocked).unwrap_err(), "Gemini 未返回识别结果：SAFETY");
    assert_eq!(gemini_response(&parse("{}")).unwrap_err(), "Gemini 未返回识别结果：没有返回候选结果");
    let empty = parse(r#"{"candidates":[{"content":{"parts":[{"inline_data":{}}]}}]}"#);
    assert_eq!(gemini_response(&empty).unwrap_err(), "Gemini 没有返回文字内容");
    let split = parse(r#"{"candidates":[{"content":{"parts":[{"text":"{\"a\""},{"x":1},{"text":":1}"}]}}]}"#);
    assert_eq!(gemini_response(&split).unwrap(), "{\"a\":1}");
}

#[test]
fn gemini_models_and_endpoints() {
    assert!(check_gemini_model("gemini-2.5-flash").is_ok());
    assert!(check_gemini_model("Gemini_2.5").is_ok());
    assert_eq!(
        check_gemini_model("bad/model").unwrap_err(),
        "Gemini 模型名称只能包含字母、数字、连字符、下划线和点"
    );
    assert!(check_gemini_model("").is_err());
    assert!(check_gemini_model("模型").is_err());
    assert_eq!(
        gemini_endpoint("https://generativelanguage.googleapis.com/v1beta//", "gemini-2.5-flash"),
        "https://generativelanguage.googleapis.com/v1beta/models/gemini-2.5-flash:generateContent"
    );
    assert_eq!(without_trailing_slashes("a///"), "a");
    assert_eq!(without_trailing_slashes("///"), "");
    assert_eq!(gemini_mime(FileKind::Pdf, "pdf"), "application/pdf");
    assert_eq!(inline_file("application/pdf", b"pdf"), ("application/pdf".to_string(), "cGRm".to_string()));
    assert_eq!(gemini_mime(FileKind::Image, "JPG"), "image/jpeg");
    assert_eq!(gemini_mime(FileKind::Image, "webp"), "image/webp");
}

#[test]
fn providers_are_checked_and_normalized() {
    let stored = check_provider(&input("gemini", " HTTPS://Example.COM/v1/ ")).unwrap();
    assert_eq!(stored.name, "Gemini");
    assert_eq!(stored.kind, "gemini");
    assert_eq!(stored.base_url, "https://example.com/v1");
    assert_eq!(stored.model, "gemini-2.5-flash");
    let local = check_provider(&input("custom", "http://localhost:8080")).unwrap();
    assert_eq!(local.base_url, "http://localhost:8080");
    assert_eq!(check_provider(&input("custom", "http://example.com")).unwrap_err(), "服务地址必须使用 HTTPS");
    assert_eq!(check_provider(&input("custom", "not a url")).unwrap_err(), "服务地址无效");
    assert_eq!(check_provider(&input("openai", "https://x")).unwrap_err(), "无效的服务商类型");
    let mut nameless = input("gemini", "https://x");
    nameless.name = "  ".into();
    assert_eq!(check_provider(&nameless).unwrap_err(), "请填写服务商名称和模型");
    assert_eq!(require_api_key(" ", false).unwrap_err(), "请填写 API Key");
    assert!(require_api_key(" ", true).is_ok());
    assert!(require_api_key("k", false).is_ok());
    assert_eq!(check_routing_target("p9", false).unwrap_err(), "服务商不存在");
    assert!(check_routing_target("", false).is_ok());
    assert!(check_routing_target("p1", true).is_ok());
}

#[test]
fn prompts_migrate_once() {
    assert!(matches!(prompt_action(None, None, "legacy", false), PromptAction::WriteBundled));
    assert!(matches!(prompt_action(Some("legacy".into()), None, "legacy", true), PromptAction::WriteBundled));
    assert!(matches!(prompt_action(None, Some("legacy".into()), "legacy", false), PromptAction::WriteBundled));
    match prompt_action(None, Some("my custom rules".into()), "legacy", false) {
        PromptAction::Migrate(t) => assert_eq!(t, "my custom rules"),
        other => panic!("unexpected {:?}", other),
    }
    assert!(matches!(prompt_action(Some("mine".into()), Some("old".into()), "legacy", true), PromptAction::Keep));
}

#[test]
fn module_descriptor_and_prompt_folder() {
    let d = descriptor(None, None, None, "0.4.0");
    assert_eq!(d.id, ID);
    assert_eq!(d.name, "AI 作业导入");
    assert_eq!(d.version, "0.4.0");
    assert_eq!(d.capabilities, vec![CAPABILITY.to_string()]);
    assert!(d.builtin);
    let named = descriptor(Some("builtin.ai.assignment-import".into()), Some("导入".into()), Some("1.2.0".into()), "0.4.0");
    assert_eq!(named.name, "导入");
    assert_eq!(named.version, "1.2.0");
    assert_eq!(prompt_dir("/data"), "/data/modules/assignment-import/prompts");
    assert_eq!(prompt_dir("/data/"), "/data/modules/assignment-import/prompts");
    let dir = prompt_dir("/data");
    assert!(dir.starts_with("/data"));
    assert!(dir.ends_with("prompts"));
    assert!(dir.contains("assignment-import"));
}
