use driver_doctor::ai::{
    connection_test_success_message, keep_paths, native_search_profile_label, need_paths_reply,
    parse_health_check_reply, provider_host, reply_in_order, AiConfig, HealthCheckReply,
};
use driver_doctor::json::{deep_merge_map, find_key, obj_put_exec, Json};
use driver_doctor::request::{
    api_error_text, append_array_field, apply_custom_request_json, apply_custom_request_value, build_chat_body, chat_request, chat_url,
    choice_text, merge_object, reject_protected_fields, reply_text, Choice, Message,
    ResponseMessage,
};

fn to_json(v: &serde_json::Value) -> Json {
    match v {
        serde_json::Value::Null => Json::Null,
        serde_json::Value::Bool(b) => Json::Bool(*b),
        serde_json::Value::Number(n) => Json::Number(n.to_string()),
        serde_json::Value::String(s) => Json::Str(s.clone()),
        serde_json::Value::Array(a) => Json::Array(a.iter().map(to_json).collect()),
        serde_json::Value::Object(m) => {
            Json::Object(m.iter().map(|(k, x)| (k.clone(), to_json(x))).collect())
        }
    }
}

fn parse(text: &str) -> Result<Json, String> {
    serde_json::from_str::<serde_json::Value>(text)
        .map(|v| to_json(&v))
        .map_err(|e| e.to_string())
}

fn get<'a>(j: &'a Json, key: &str) -> &'a Json {
    match j {
        Json::Object(m) => &m.iter().find(|(k, _)| k == key).expect("member").1,
        _ => panic!("not an object"),
    }
}

fn at(j: &Json, i: usize) -> &Json {
    match j {
        Json::Array(a) => &a[i],
        _ => panic!("not an array"),
    }
}

fn is_str(j: &Json, s: &str) -> bool {
    matches!(j, Json::Str(x) if x == s)
}

fn config(base_url: &str, model: &str, web_search_enabled: bool, custom: &str) -> AiConfig {
    AiConfig {
        base_url: base_url.into(),
        api_key: "key".into(),
        model: model.into(),
        web_search_enabled,
        custom_request_json: custom.into(),
    }
}

fn test_message() -> Vec<Message> {
    vec![Message {
        role: "user".into(),
        content: "search".into(),
    }]
}

#[test]
fn mimo_profile_adds_web_search_tool_when_enabled() {
    let config = config("https://mimo.mi.com/v1", "mimo-v2.5-pro", true, "");

    let body = build_chat_body(&config, test_message()).unwrap();

    assert!(is_str(get(at(get(&body, "tools"), 0), "type"), "web_search"));
    assert!(matches!(get(at(get(&body, "tools"), 0), "force_search"), Json::Bool(true)));
    assert!(is_str(get(&body, "tool_choice"), "auto"));
}

#[test]
fn mimo_profile_adds_web_search_tool_even_without_checkbox() {
    let config = config("https://api.xiaomimimo.com/v1", "mimo-v2.5-pro", false, "");

    let body = build_chat_body(&config, test_message()).unwrap();

    assert!(is_str(get(at(get(&body, "tools"), 0), "type"), "web_search"));
    assert!(matches!(get(at(get(&body, "tools"), 0), "force_search"), Json::Bool(true)));
}

#[test]
fn custom_request_json_sets_and_appends_without_replacing_messages() {
    let config = config(
        "https://relay.example.com/v1",
        "relay-model",
        true,
        r#"{
              "$set": { "reasoning_effort": "low" },
              "$append": { "tools": [{ "type": "web_search" }] }
            }"#,
    );

    let body = build_chat_body(&config, test_message()).unwrap();

    assert!(is_str(get(&body, "reasoning_effort"), "low"));
    assert!(is_str(get(at(get(&body, "tools"), 0), "type"), "web_search"));
    assert!(is_str(get(at(get(&body, "messages"), 1), "content"), "search"));
}

#[test]
fn custom_request_json_cannot_override_messages() {
    let config = config(
        "https://relay.example.com/v1",
        "relay-model",
        true,
        r#"{ "$set": { "messages": [] } }"#,
    );

    let err = build_chat_body(&config, Vec::new()).unwrap_err();

    assert!(err.contains("messages"));
}

#[test]
fn connection_test_mentions_web_params_for_native_search_provider() {
    let config = config("https://api.xiaomimimo.com/v1", "mimo-v2.5-pro", false, "");

    let message = connection_test_success_message("连接成功".into(), &config);

    assert!(message.contains("联网参数"));
}

#[test]
fn connection_test_stays_plain_without_search_params() {
    let config = config("https://api.deepseek.com/v1", "deepseek-chat", false, "");

    let message = connection_test_success_message("连接成功".into(), &config);

    assert_eq!(message, "连接成功");
}

#[test]
fn empty_choice_content_reports_finish_reason_and_tool_calls() {
    let choice = Choice {
        message: ResponseMessage {
            content: String::new(),
            tool_calls: Some(parse(r#"[{"type": "web_search"}]"#).unwrap()),
        },
        finish_reason: Some("tool_calls".into()),
    };

    let err = choice_text(&choice).unwrap_err();

    assert!(err.contains("finish_reason: tool_calls"));
    assert!(err.contains("tool_calls: true"));
}

#[test]
fn parses_need_paths_reply() {
    let reply =
        parse_health_check_reply("NEED_PATHS\n[\"C:\\\\Users\", \"C:\\\\ProgramData\"]").unwrap();

    assert_eq!(
        reply,
        HealthCheckReply::NeedPaths(vec!["C:\\Users".to_string(), "C:\\ProgramData".to_string()])
    );
}

#[test]
fn parses_report_reply() {
    let reply = parse_health_check_reply("REPORT\n## 占用报告\n内容").unwrap();

    assert_eq!(reply, HealthCheckReply::Report("## 占用报告\n内容".to_string()));
}

#[test]
fn rejects_empty_health_check_reply() {
    let err = parse_health_check_reply("  \n ").unwrap_err();

    assert!(err.contains("空"));
}

#[test]
fn rejects_empty_report_reply() {
    let err = parse_health_check_reply("REPORT\n\n").unwrap_err();

    assert!(err.contains("空"));
}

#[test]
fn need_paths_reply_keeps_six_trimmed_nonblank_paths() {
    let paths: Vec<String> = vec![" a ", "", "b", "  ", "c", "d", "e", "f", "g"]
        .into_iter()
        .map(String::from)
        .collect();
    let reply = need_paths_reply(Ok(paths)).unwrap();
    assert_eq!(
        reply,
        HealthCheckReply::NeedPaths(
            vec!["a", "b", "c", "d", "e", "f"].into_iter().map(String::from).collect()
        )
    );
    let err = need_paths_reply(Err("bad".into())).unwrap_err();
    assert_eq!(err, "解析 NEED_PATHS 失败: bad");
    assert_eq!(keep_paths(&vec![" x ".to_string()]), vec!["x".to_string()]);
}

#[test]
fn need_paths_reply_without_array_is_refused() {
    assert_eq!(
        parse_health_check_reply("NEED_PATHS please").unwrap_err(),
        "NEED_PATHS 缺少 JSON 数组"
    );
    assert_eq!(
        parse_health_check_reply("NEED_PATHS [").unwrap_err(),
        "NEED_PATHS 缺少 JSON 数组结束"
    );
    assert!(parse_health_check_reply("NEED_PATHS [1]").unwrap_err().starts_with("解析 NEED_PATHS 失败: "));
    assert!(parse_health_check_reply("NEED_PATHS ][").unwrap_err().starts_with("解析 NEED_PATHS 失败: "));
    assert!(!reply_in_order("NEED_PATHS ] x ["));
    assert!(reply_in_order("NEED_PATHS ]["));
    assert_eq!(
        parse_health_check_reply("  plain text  ").unwrap(),
        HealthCheckReply::Report("plain text".into())
    );
}

#[test]
fn provider_hosts_and_profiles() {
    assert_eq!(provider_host("  https://Api.X.AI/v1 "), "api.x.ai");
    assert_eq!(provider_host("HTTPS://Api.X.AI/v1"), "https:");
    assert_eq!(native_search_profile_label("https://openrouter.ai/api/v1"), "OpenRouter web 插件");
    assert_eq!(native_search_profile_label("https://api.deepseek.com"), "DeepSeek API 未检测到原生联网模板");
    assert_eq!(chat_url("https://api.deepseek.com/v1//"), "https://api.deepseek.com/v1/chat/completions");
}

#[test]
fn append_array_field_skips_items_already_there() {
    let mut body = parse(r#"{"tools": [{"type": "web_search"}]}"#).unwrap();
    let items = vec![
        parse(r#"{"type": "web_search"}"#).unwrap(),
        parse(r#"{"id": "web"}"#).unwrap(),
        parse(r#"{"id": "web"}"#).unwrap(),
    ];
    append_array_field(&mut body, "tools", items).unwrap();
    match get(&body, "tools") {
        Json::Array(a) => assert_eq!(a.len(), 2),
        _ => panic!("tools"),
    }
    let mut not_array = parse(r#"{"tools": 3}"#).unwrap();
    assert_eq!(
        append_array_field(&mut not_array, "tools", Vec::new()).unwrap_err(),
        "tools 已存在但不是数组"
    );
    let mut scalar = Json::Null;
    assert_eq!(append_array_field(&mut scalar, "tools", Vec::new()).unwrap_err(), "请求体不是对象");
}

#[test]
fn merge_object_merges_nested_objects_and_replaces_others() {
    let mut body = parse(r#"{"a": {"x": 1, "y": 2}, "b": [1]}"#).unwrap();
    let source = parse(r#"{"a": {"y": 3, "z": 4}, "b": {"k": true}}"#).unwrap();
    merge_object(&mut body, &source).unwrap();
    let expected = parse(r#"{"a": {"x": 1, "y": 3, "z": 4}, "b": {"k": true}}"#).unwrap();
    assert_eq!(format!("{:?}", body), format!("{:?}", expected));
    assert_eq!(
        merge_object(&mut body, &parse(r#"{"model": "x"}"#).unwrap()).unwrap_err(),
        "自定义请求 JSON 不允许覆盖 model"
    );
    assert_eq!(
        merge_object(&mut body, &parse("[1]").unwrap()).unwrap_err(),
        "自定义请求 JSON 顶层必须是对象"
    );
    assert!(reject_protected_fields(&parse(r#"{"messages": 1, "model": 2}"#).unwrap())
        .unwrap_err()
        .ends_with("messages"));
    let mut m = vec![("b".to_string(), Json::Null)];
    deep_merge_map(&mut m, &vec![("a".to_string(), Json::Bool(true))]);
    assert_eq!(m[0].0, "a");
    assert_eq!(m[1].0, "b");
}

#[test]
fn custom_request_settings_edge_cases() {
    let mut body = parse(r#"{"model": "m"}"#).unwrap();
    apply_custom_request_value(&mut body, "   ", Err("ignored".into())).unwrap();
    assert_eq!(
        apply_custom_request_value(&mut body, "{", Err("EOF".into())).unwrap_err(),
        "自定义请求 JSON 无效: EOF"
    );
    assert_eq!(
        apply_custom_request_value(&mut body, "x", parse(r#"{"$append": 1}"#)).unwrap_err(),
        "$append 必须是对象"
    );
    assert_eq!(
        apply_custom_request_value(&mut body, "x", parse(r#"{"$append": {"tools": 1}}"#)).unwrap_err(),
        "$append.tools 必须是数组"
    );
    apply_custom_request_value(&mut body, "x", parse(r#"{"temperature": 1}"#)).unwrap();
    assert!(matches!(get(&body, "temperature"), Json::Number(n) if n == "1"));
}

#[test]
fn custom_request_json_is_read_from_its_text() {
    let mut body = parse(r#"{"model": "m"}"#).unwrap();
    apply_custom_request_json(&mut body, "  \n ").unwrap();
    assert_eq!(format!("{:?}", body), format!("{:?}", parse(r#"{"model": "m"}"#).unwrap()));
    let err = apply_custom_request_json(&mut body, "{").unwrap_err();
    assert!(err.starts_with("自定义请求 JSON 无效: "));
    assert_eq!(err, format!("自定义请求 JSON 无效: {}", serde_json::from_str::<serde_json::Value>("{").unwrap_err()));
    apply_custom_request_json(&mut body, r#"{"temperature": 0.7, "extra": {"k": [true, null]}}"#).unwrap();
    assert!(matches!(get(&body, "temperature"), Json::Number(n) if n == "0.7"));
    assert!(matches!(at(get(get(&body, "extra"), "k"), 0), Json::Bool(true)));
    assert!(matches!(at(get(get(&body, "extra"), "k"), 1), Json::Null));
    assert_eq!(
        apply_custom_request_json(&mut body, r#"{"$set": {"model": "x"}}"#).unwrap_err(),
        "自定义请求 JSON 不允许覆盖 model"
    );
}

#[test]
fn api_errors_name_the_service_message_or_the_status() {
    assert_eq!(api_error_text("401 Unauthorized", Some("bad key"), "{}"), "API 错误: bad key");
    assert_eq!(
        api_error_text("502 Bad Gateway", None, "<html>oops</html>"),
        "API 返回 502 Bad Gateway: <html>oops</html>"
    );
}

#[test]
fn chat_request_needs_an_api_key() {
    let mut config = config("https://api.deepseek.com/v1", "deepseek-chat", false, "");
    config.api_key = "  ".into();
    assert_eq!(chat_request(&config, "s", "u").unwrap_err(), "请先在设置中配置 API Key");
    config.api_key = "k".into();
    let body = chat_request(&config, "s", "u").unwrap();
    assert!(is_str(get(at(get(&body, "messages"), 0), "role"), "system"));
    assert!(is_str(get(at(get(&body, "messages"), 1), "content"), "u"));
    assert!(matches!(get(&body, "temperature"), Json::Number(n) if n == "0.3"));
    assert_eq!(reply_text(&Vec::new()).unwrap_err(), "API 未返回内容");
    let ok = Choice {
        message: ResponseMessage { content: " hi ".into(), tool_calls: None },
        finish_reason: None,
    };
    assert_eq!(reply_text(&vec![ok]).unwrap(), " hi ");
    let empty = Choice {
        message: ResponseMessage { content: "".into(), tool_calls: Some(Json::Null) },
        finish_reason: None,
    };
    assert_eq!(
        choice_text(&empty).unwrap_err(),
        "API 未返回文本内容（finish_reason: unknown, tool_calls: false）"
    );
}

#[test]
fn a_member_reads_back_what_was_put() {
    let mut m: Vec<(String, Json)> = vec![
        ("a".into(), Json::Number("1".into())),
        ("c".into(), Json::Bool(true)),
    ];
    obj_put_exec(&mut m, "b".into(), Json::Str("x".into()));
    let keys: Vec<&str> = m.iter().map(|(k, _)| k.as_str()).collect();
    assert_eq!(keys, ["a", "b", "c"]);
    let i = find_key(&m, "b").unwrap();
    assert!(matches!(&m[i].1, Json::Str(s) if s == "x"));
    obj_put_exec(&mut m, "a".into(), Json::Null);
    assert!(matches!(&m[find_key(&m, "a").unwrap()].1, Json::Null));
    assert!(matches!(&m[find_key(&m, "c").unwrap()].1, Json::Bool(true)));
    assert_eq!(m.len(), 3);
    assert!(find_key(&m, "d").is_none());
}

#[test]
fn appending_the_same_items_twice_changes_nothing_more() {
    let mut body = parse(r#"{"tools": [{"type": "web_search"}], "model": "m"}"#).unwrap();
    let items = || vec![parse(r#"{"id": "web"}"#).unwrap(), parse(r#"{"type": "web_search"}"#).unwrap()];
    append_array_field(&mut body, "tools", items()).unwrap();
    let once = format!("{:?}", body);
    append_array_field(&mut body, "tools", items()).unwrap();
    assert_eq!(format!("{:?}", body), once);
    let mut fresh = parse(r#"{"model": "m"}"#).unwrap();
    append_array_field(&mut fresh, "plugins", items()).unwrap();
    let first = format!("{:?}", fresh);
    append_array_field(&mut fresh, "plugins", items()).unwrap();
    assert_eq!(format!("{:?}", fresh), first);
}

#[test]
fn requested_paths_are_trimmed_non_blank_and_at_most_six() {
    let reply = parse_health_check_reply(
        "  NEED_PATHS [\" C:\\\\a \", \"\", \"  \", \"C:\\\\b\", \"C:\\\\c\", \"C:\\\\d\", \"C:\\\\e\", \"C:\\\\f\", \"C:\\\\g\"]  ",
    )
    .unwrap();
    let expected: Vec<String> =
        ["C:\\a", "C:\\b", "C:\\c", "C:\\d", "C:\\e", "C:\\f"].iter().map(|s| s.to_string()).collect();
    assert_eq!(reply, HealthCheckReply::NeedPaths(expected));
    let report = parse_health_check_reply("\n REPORT   text with spaces  \n").unwrap();
    assert_eq!(report, HealthCheckReply::Report("text with spaces".to_string()));
}
