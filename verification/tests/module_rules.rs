use homework_manager::modules::{
    accept_manifest, builtin_descriptor, check_answer, check_builtin_capability, check_declared,
    check_output_size, check_request_size, descriptor_of, failure_message, find_module, module_list,
    sort_modules, valid_token, InstalledModule, ModuleManifest, AI_CAPABILITY, AI_ID, OUTPUT_LIMIT,
    REQUEST_LIMIT,
};

fn manifest(id: &str, name: &str, caps: &[&str]) -> ModuleManifest {
    ModuleManifest {
        id: id.into(),
        name: name.into(),
        version: "1.0.0".into(),
        capabilities: caps.iter().map(|c| c.to_string()).collect(),
        executable: "sample.exe".into(),
    }
}

fn installed(id: &str, name: &str) -> InstalledModule {
    InstalledModule { descriptor: descriptor_of(manifest(id, name, &["file.print"])), executable: format!("/m/{id}") }
}

#[test]
fn tokens() {
    assert!(valid_token("example.document-tools"));
    assert!(valid_token("a1"));
    assert!(!valid_token(""));
    assert!(!valid_token("Bad"));
    assert!(!valid_token("a_b"));
    assert!(!valid_token("模块"));
    assert!(valid_token(&"a".repeat(100)));
    assert!(!valid_token(&"a".repeat(101)));
}

#[test]
fn manifests_with_invalid_ids_and_paths_are_ignored() {
    assert!(!accept_manifest(&manifest("builtin.evil", "bad", &["file.print"]), false));
    assert!(!accept_manifest(&manifest("builtin.evil", "bad", &["file.print"]), true));
    assert!(!accept_manifest(&manifest(AI_ID, "fake", &["assignment.extract"]), true));
    assert!(!accept_manifest(&manifest("example.documents", "Documents", &["document.parse"]), false));
    assert!(!accept_manifest(&manifest("example.documents", "  ", &["document.parse"]), true));
    assert!(!accept_manifest(&manifest("example.documents", "Documents", &[]), true));
    assert!(!accept_manifest(&manifest("example.documents", "Documents", &["Document.Parse"]), true));
}

#[test]
fn manifests_with_declared_capabilities_are_accepted() {
    let m = manifest("example.documents", "Documents", &["document.parse", "file.print"]);
    assert!(accept_manifest(&m, true));
    let d = descriptor_of(m);
    assert_eq!(d.capabilities, vec!["document.parse", "file.print"]);
    assert_eq!(d.id, "example.documents");
    assert!(!d.builtin);
}

#[test]
fn module_list_puts_the_builtin_first() {
    let sorted = sort_modules(vec![installed("z.mod", "Zeta"), installed("a.mod", "Alpha"), installed("b.mod", "alpha")]);
    let names: Vec<&str> = sorted.iter().map(|m| m.descriptor.name.as_str()).collect();
    assert_eq!(names, vec!["Alpha", "Zeta", "alpha"]);
    let list = module_list("0.4.0", sorted);
    assert_eq!(list.len(), 4);
    assert_eq!(list[0].id, AI_ID);
    assert_eq!(list[0].name, "AI 作业识别");
    assert_eq!(list[0].version, "0.4.0");
    assert_eq!(list[0].capabilities, vec![AI_CAPABILITY.to_string()]);
    assert!(list[0].builtin);
    assert_eq!(list[1].id, "a.mod");
    assert_eq!(list[3].id, "b.mod");
    let b = builtin_descriptor("9");
    assert_eq!(b.version, "9");
}

#[test]
fn invocation_checks() {
    let modules = vec![installed("a.mod", "A"), installed("b.mod", "B")];
    assert_eq!(find_module(&modules, "b.mod").unwrap(), 1);
    assert_eq!(find_module(&modules, "c.mod").unwrap_err(), "模块未安装或清单无效");
    assert!(check_declared(&modules[0].descriptor, "file.print").is_ok());
    assert_eq!(check_declared(&modules[0].descriptor, "document.parse").unwrap_err(), "模块未声明此功能");
    assert!(check_builtin_capability("assignment.extract").is_ok());
    assert_eq!(check_builtin_capability("file.print").unwrap_err(), "模块不支持此功能");
    assert!(check_request_size(REQUEST_LIMIT).is_ok());
    assert_eq!(check_request_size(REQUEST_LIMIT + 1).unwrap_err(), "模块输入过大");
    assert!(check_output_size(OUTPUT_LIMIT).is_ok());
    assert_eq!(check_output_size(OUTPUT_LIMIT + 1).unwrap_err(), "模块输出过大");
}

#[test]
fn module_answers() {
    assert_eq!(failure_message("boom"), "模块运行失败：boom");
    let long = "错".repeat(500);
    assert_eq!(failure_message(&long), format!("模块运行失败：{}", "错".repeat(400)));
    assert_eq!(check_answer(None, Some(true), None, true).unwrap_err(), "模块协议版本不兼容");
    assert_eq!(check_answer(Some(2), Some(true), None, true).unwrap_err(), "模块协议版本不兼容");
    assert_eq!(check_answer(Some(1), Some(false), Some("无法解析此文件".into()), true).unwrap_err(), "无法解析此文件");
    assert_eq!(check_answer(Some(1), Some(false), None, true).unwrap_err(), "模块执行失败");
    assert_eq!(check_answer(Some(1), None, None, false).unwrap_err(), "模块缺少 result 字段");
    assert!(check_answer(Some(1), None, None, true).is_ok());
    assert!(check_answer(Some(1), Some(true), Some("ignored".into()), true).is_ok());
}
