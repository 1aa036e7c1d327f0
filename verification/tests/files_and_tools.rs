use ai_client::audio::{split_count, OPENAI_MAXIMUM_CONTENT_SIZE_BYTES};
use ai_client::chat::{plan_chat, ContentPart};
use ai_client::config::{
    apply_api_key, authorization_value, settings_from_config, Config, Keys, Settings,
};
use ai_client::data_url::{
    decode_file_body, get_file_base64, make_data_url, prepare_upload, Base64Error, FileBodyError,
};
use ai_client::models::{
    attach_html, listed_file_data, listed_vector_data, title_entry, ChatApiMessage,
    ChatApiMessageWithHtml, OpenAIFileData, OpenAIVectorData,
};
use ai_client::search::{from_u8_to_str, search_hit, utf8_or_empty};
use ai_client::thread::{
    open_thread, plan_thread_steps, posts_all, thread_texts, ThreadOpen, ThreadStep,
};
use ai_client::tools::{
    call_fn, deletion_error_ignored, get_current_weather, poll_stops, tool_outputs, RunStatus,
    ToolCall,
};

fn msg(role: &str, content: &str) -> ChatApiMessage {
    ChatApiMessage { role: role.to_string(), content: content.to_string() }
}

#[test]
fn file_becomes_data_url_and_back() {
    let url = get_file_base64("/tmp/photo.png", b"hello");
    assert_eq!(url, "data:image/png;base64,aGVsbG8=");
    assert_eq!(decode_file_body(&url).unwrap(), b"hello".to_vec());
    let other = get_file_base64("notes", &[0u8, 255, 16]);
    assert_eq!(other, "data:application/octet-stream;base64,AP8Q");
    assert_eq!(decode_file_body(&other).unwrap(), vec![0u8, 255, 16]);
    assert_eq!(make_data_url("text/plain", b""), "data:text/plain;base64,");
}

#[test]
fn file_body_errors() {
    assert!(matches!(decode_file_body("no marker here"), Err(FileBodyError::InvalidFormat)));
    assert!(matches!(decode_file_body("data:x;base64,@@@"), Err(FileBodyError::InvalidBase64(_))));
}

#[test]
fn upload_reads_name_and_bytes() {
    let f = vec!["data:text/plain;base64,QUJD".to_string(), "abc.txt".to_string()];
    let u = prepare_upload(&f).unwrap();
    assert_eq!(u.name, "abc.txt");
    assert_eq!(u.bytes, b"ABC".to_vec());
    let bad = vec!["QUJD".to_string(), "abc.txt".to_string()];
    assert!(matches!(prepare_upload(&bad), Err(FileBodyError::InvalidFormat)));
}

#[test]
fn chat_plan_orders_parts() {
    let messages = vec![msg("user", "first"), msg("assistant", "second")];
    let plan = plan_chat(
        None,
        None,
        &messages,
        &Some("https://x/img.png".to_string()),
        "a.png",
        "data:image/png;base64,AAAA",
    );
    assert_eq!(plan.model, "gpt-4o-mini");
    assert_eq!(plan.max_tokens, 1024);
    let kinds: Vec<String> = plan
        .parts
        .iter()
        .map(|p| match p {
            ContentPart::ImageUrl(u) => format!("img:{}", u),
            ContentPart::Text(t) => format!("txt:{}", t),
        })
        .collect();
    assert_eq!(
        kinds,
        vec![
            "img:https://x/img.png",
            "img:data:image/png;base64,AAAA",
            "txt:first",
            "img:https://x/img.png",
            "img:data:image/png;base64,AAAA",
            "txt:second",
        ]
    );
    let plain = plan_chat(Some("gpt-4o".to_string()), Some(7), &messages, &Some(String::new()), "", "x");
    assert_eq!(plain.model, "gpt-4o");
    assert_eq!(plain.max_tokens, 7);
    assert_eq!(plain.parts.len(), 2);
}

#[test]
fn thread_texts_and_steps() {
    let messages = vec![msg("user", "a"), msg("assistant", "b"), msg("user", "c")];
    assert_eq!(thread_texts(&messages, true), vec!["a", "b", "c"]);
    assert_eq!(thread_texts(&messages, false), vec!["c"]);
    assert!(matches!(open_thread(""), ThreadOpen::Create));
    assert!(matches!(open_thread("thread_1"), ThreadOpen::Retrieve(ref t) if t == "thread_1"));

    let texts = vec!["x".to_string(), "y".to_string()];
    let (steps, err) = plan_thread_steps(&texts, "https://i", "data:a;base64,QUJD");
    assert!(err.is_none());
    assert_eq!(steps.len(), 6);
    assert!(matches!(&steps[0], ThreadStep::PostImageUrl(u) if u == "https://i"));
    assert!(matches!(&steps[1], ThreadStep::PostImageFile(b) if b == b"ABC"));
    assert!(matches!(&steps[2], ThreadStep::PostText(t) if t == "x"));
    assert!(matches!(&steps[5], ThreadStep::PostText(t) if t == "y"));

    let (steps, err) = plan_thread_steps(&texts, "https://i", "not a data url");
    assert!(matches!(err, Some(FileBodyError::InvalidFormat)));
    assert_eq!(steps.len(), 1);

    let (steps, err) = plan_thread_steps(&texts, "", "");
    assert!(err.is_none());
    assert_eq!(steps.len(), 2);

    let (steps, err) = plan_thread_steps(&Vec::new(), "https://i", "bad");
    assert!(err.is_none() && steps.is_empty());
}

#[test]
fn tool_outputs_answer_known_functions() {
    let calls = vec![
        ToolCall { id: "c1".to_string(), name: "get_current_temperature".to_string() },
        ToolCall { id: "c2".to_string(), name: "unknown".to_string() },
        ToolCall { id: "c3".to_string(), name: "get_rain_probability".to_string() },
    ];
    let outs = tool_outputs(&calls);
    assert_eq!(outs.len(), 2);
    assert_eq!((outs[0].tool_call_id.as_str(), outs[0].output.as_str()), ("c1", "57"));
    assert_eq!((outs[1].tool_call_id.as_str(), outs[1].output.as_str()), ("c3", "0.06"));
}

#[test]
fn weather_is_in_range() {
    let forecasts = ["sunny", "cloudy", "overcast", "rainy", "windy", "foggy", "snowy"];
    for _ in 0..20 {
        let w = get_current_weather("Boston, MA", "celsius");
        assert!((20..=55).contains(&w.temperature));
        assert!(forecasts.contains(&w.forecast.as_str()));
        assert_eq!(w.location, "Boston, MA");
        assert_eq!(w.unit, "celsius");
    }
    let w = call_fn("get_current_weather", "Atlanta, GA", None);
    assert_eq!(w.unit, "fahrenheit");
    assert_eq!(w.location, "Atlanta, GA");
}

#[test]
fn polling_stops() {
    assert!(poll_stops(RunStatus::Completed, true));
    assert!(poll_stops(RunStatus::Failed, false));
    assert!(!poll_stops(RunStatus::Cancelled, true));
    assert!(poll_stops(RunStatus::Cancelled, false));
    assert!(poll_stops(RunStatus::Expired, false));
    assert!(!poll_stops(RunStatus::Queued, false));
    assert!(!poll_stops(RunStatus::InProgress, false));
    assert!(!poll_stops(RunStatus::RequiresAction, false));
}

#[test]
fn deleting_a_missing_assistant_is_ignored() {
    assert!(deletion_error_ignored("failed to delete assistant: ApiError(No assistant found with id 'x')"));
    assert!(!deletion_error_ignored("failed to delete assistant: timeout"));
}

#[test]
fn config_saves_and_loads_back() {
    let session = Settings { api_key: "old".to_string(), saving_directory: "/old".to_string() };
    let (config, now) = apply_api_key(Config::default(), session, "sk-1".to_string(), "/data".to_string());
    assert_eq!(config.keys.chatgpt.as_deref(), Some("sk-1"));
    assert_eq!(config.saving_directory.as_deref(), Some("/data"));
    assert_eq!(now.saving_directory, "/data");
    let loaded = settings_from_config(&config);
    assert_eq!((loaded.api_key.as_str(), loaded.saving_directory.as_str()), ("sk-1", "/data"));

    let session = Settings { api_key: "old".to_string(), saving_directory: "/old".to_string() };
    let c = Config { keys: Keys { chatgpt: None }, saving_directory: Some("/x".to_string()) };
    let (config, now) = apply_api_key(c, session, "sk-2".to_string(), String::new());
    assert_eq!(config.saving_directory, None);
    assert_eq!(now.saving_directory, "/old");
    assert_eq!(now.api_key, "sk-2");
    let loaded = settings_from_config(&config);
    assert_eq!(loaded.saving_directory, "");
    assert_eq!(authorization_value("sk-1"), "Bearer sk-1");
}

#[test]
fn search_hits() {
    let hit = search_hit("[{\"content\":\"rust is fun\"}]".as_bytes(), b"id-1", "rust").unwrap();
    assert_eq!(hit.id, "id-1");
    assert_eq!(hit.body, "[{\"content\":\"rust is fun\"}]");
    assert!(search_hit(b"nothing", b"id-2", "rust").is_none());
    assert!(search_hit(&[0xff, 0xfe], b"id-3", "rust").is_none());
    assert!(search_hit(&[0xff, 0xfe], b"id-3", "").is_some());
    assert_eq!(utf8_or_empty(&[0xc3, 0x28]), "");
    assert_eq!(utf8_or_empty("日本".as_bytes()), "日本");
    assert_eq!(from_u8_to_str("abc".as_bytes()), "abc");
}

#[test]
fn audio_split_counts() {
    assert_eq!(split_count(0), None);
    assert_eq!(split_count(OPENAI_MAXIMUM_CONTENT_SIZE_BYTES), None);
    assert_eq!(split_count(OPENAI_MAXIMUM_CONTENT_SIZE_BYTES + 1), Some(2));
    assert_eq!(split_count(3 * OPENAI_MAXIMUM_CONTENT_SIZE_BYTES), Some(4));
}

#[test]
fn records_are_completed_for_listing() {
    let d = listed_file_data(None, "file-1".to_string(), 0);
    assert_eq!(d.id.as_deref(), Some("file-1"));
    assert_eq!(d.time.as_deref(), Some("1970-01-01 00:00:00"));
    let given = OpenAIFileData { id: Some("file-9".to_string()), filename: Some("a.pdf".to_string()), ..Default::default() };
    let d = listed_file_data(Some(given), "ignored".to_string(), 1_000_000_000);
    assert_eq!(d.id.as_deref(), Some("file-9"));
    assert_eq!(d.filename.as_deref(), Some("a.pdf"));
    assert_eq!(d.time.as_deref(), Some("1970-01-01 00:00:01"));

    let v = OpenAIVectorData { created: Some(1723108843), ..Default::default() };
    let v = listed_vector_data(Some(v), "vs_1".to_string(), 0);
    assert_eq!(v.time.as_deref(), Some("2024-08-08 09:20:43"));
    assert_eq!(v.id.as_deref(), Some("vs_1"));
    let v = listed_vector_data(None, "vs_2".to_string(), 0);
    assert_eq!(v.time.as_deref(), Some("1970-01-01 00:00:00"));
    let far = OpenAIVectorData { created: Some(9_000_000_000_000_000), time: Some("kept".to_string()), ..Default::default() };
    let v = listed_vector_data(Some(far), "vs_3".to_string(), 0);
    assert_eq!(v.time.as_deref(), Some("kept"));

    let t = title_entry("id-1".to_string(), "A title".to_string(), 86_400_000_000_000);
    assert_eq!((t.id.as_str(), t.name.as_str(), t.time.as_str()), ("id-1", "A title", "1970-01-02 00:00:00"));
}

#[test]
fn messages_get_html() {
    let m = ChatApiMessage { role: "user".to_string(), content: "# Hi".to_string() };
    let h = m.convert_with_html();
    assert_eq!((h.role.as_str(), h.content.as_str(), h.content_html.clone()), ("user", "# Hi", None));
    let out = attach_html(vec![h, ChatApiMessageWithHtml { role: "assistant".to_string(), content: "*a*".to_string(), content_html: None }]);
    assert_eq!(out[0].content_html.as_deref(), Some("<h1>Hi</h1>"));
    assert_eq!(out[1].content_html.as_deref(), Some("<p><em>a</em></p>"));
    assert_eq!(out[1].content, "*a*");
}

#[test]
fn base64_errors_are_told_apart() {
    assert_eq!(
        decode_file_body("data:x;base64,@@@@"),
        Err(FileBodyError::InvalidBase64(Base64Error::InvalidByte(0, b'@')))
    );
    assert_eq!(
        decode_file_body("data:x;base64,QUJDR"),
        Err(FileBodyError::InvalidBase64(Base64Error::InvalidLength(5)))
    );
}

#[test]
fn uploaded_file_keeps_name_and_bytes() {
    let bytes = vec![1u8, 2, 3, 44, 250];
    let f = vec![get_file_base64("/x/report.csv", &bytes), "report.csv".to_string()];
    let u = prepare_upload(&f).unwrap();
    assert_eq!(u.name, "report.csv");
    assert_eq!(u.bytes, bytes);
}

#[test]
fn new_or_lost_threads_get_every_message() {
    assert!(posts_all(&ThreadOpen::Create, false));
    assert!(posts_all(&ThreadOpen::Create, true));
    assert!(posts_all(&ThreadOpen::Retrieve("thread_1".to_string()), false));
    assert!(!posts_all(&ThreadOpen::Retrieve("thread_1".to_string()), true));
}
