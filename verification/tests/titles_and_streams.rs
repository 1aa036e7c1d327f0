use ai_client::models::ChatApiMessage;
use ai_client::stream::{chunk_payloads_of, now_nanos, text_payloads, StreamState};
use ai_client::title::{
    clean_title, plan_title, title_from_response, title_prompt, title_request_settings, title_text,
    TitleError, TitlePlan,
};

fn msg(role: &str, content: &str) -> ChatApiMessage {
    ChatApiMessage { role: role.to_string(), content: content.to_string() }
}

#[test]
fn title_prompt_prefixes_instruction() {
    assert_eq!(
        title_prompt("hello"),
        "Give it a simple title bellow text by own language. *Conditions=[Length<=20]. text>hello"
    );
}

#[test]
fn title_is_cleaned() {
    assert_eq!(clean_title("Title: 「東京の天気」。"), "東京の天気");
    assert_eq!(clean_title("  \"Weather in Tokyo\"\n"), "Weather in Tokyo");
    assert_eq!(clean_title("Plain"), "Plain");
}

#[test]
fn title_text_is_first_user_or_assistant_message() {
    let messages = vec![msg("system", "be nice"), msg("assistant", "hi"), msg("user", "q")];
    assert_eq!(title_text(&messages), "hi");
    assert_eq!(title_text(&vec![msg("system", "x")]), "");
    assert_eq!(title_text(&vec![]), "");
}

#[test]
fn long_titles_go_to_the_model() {
    let short = vec![msg("user", "What is Rust?")];
    match plan_title(&short) {
        TitlePlan::UseAsIs(t) => assert_eq!(t, "What is Rust?"),
        TitlePlan::AskModel(_) => panic!("short text is its own title"),
    }
    let exactly = vec![msg("user", "123456789012345678901234567890")];
    assert!(matches!(plan_title(&exactly), TitlePlan::UseAsIs(_)));
    let long = vec![msg("user", "1234567890123456789012345678901")];
    assert!(matches!(plan_title(&long), TitlePlan::AskModel(_)));
    // counted in UTF-8 bytes: 18 characters, 54 bytes
    let japanese = vec![msg("user", "こんにちは世界、今日はいい天気ですね")];
    assert!(matches!(plan_title(&japanese), TitlePlan::AskModel(_)));
}

#[test]
fn title_from_response_cases() {
    assert_eq!(title_from_response(200, Some("Title: Rust".to_string())), Ok("Rust".to_string()));
    assert_eq!(title_from_response(200, None), Err(TitleError::ServerError));
    assert_eq!(title_from_response(500, Some("x".to_string())), Err(TitleError::ServerError));
}

#[test]
fn stream_payloads_are_split_and_trimmed() {
    let chunk = "data: {\"a\":1}\n\ndata: {\"b\":2}\n\ndata: [DONE]\n\n";
    assert_eq!(text_payloads(chunk), vec!["{\"a\":1}", "{\"b\":2}"]);
    assert_eq!(text_payloads(""), Vec::<String>::new());
    assert_eq!(text_payloads("data: {\"c\":3}[DONE]"), vec!["{\"c\":3}"]);
    assert_eq!(chunk_payloads_of(chunk.as_bytes()), vec!["{\"a\":1}", "{\"b\":2}"]);
}

#[test]
fn stream_state_throttles_chunks() {
    let mut s = StreamState::new_at(0);
    assert!(s.on_delta("Hel", 100_000_000).is_none());
    assert!(s.on_delta("lo", 200_000_000).is_none());
    let c = s.on_delta(" *world*", 200_000_001).expect("more than 200 ms passed");
    assert_eq!(c.response, "Hello *world*");
    assert_eq!(c.response_html, "<p>Hello <em>world</em></p>");
    assert!(s.on_delta("!", 300_000_000).is_none());
    let c = s.on_delta("?", 400_000_002).expect("more than 200 ms passed");
    assert_eq!(c.response, "Hello *world*!?");
}

#[test]
fn stream_state_finishes() {
    let mut s = StreamState::new_at(0);
    let (chunk, finish) = s.on_choice(Some("Hi".to_string()), true, 1);
    assert!(chunk.is_none());
    assert_eq!(finish.expect("finished").response, "Hi");
    let (chunk, finish) = s.on_choice(None, false, 1_000_000_000);
    assert!(chunk.is_none() && finish.is_none());
    assert_eq!(s.on_end().expect("no error").response, "Hi");
    s.on_error();
    assert!(s.on_end().is_none());
    let mut t = StreamState::start();
    t.on_delta_now("x");
    assert_eq!(t.snapshot().response, "x");
}

#[test]
fn now_is_after_2020_and_moves_forward() {
    // 2020-01-01T00:00:00Z in nanoseconds
    let start_of_2020: i128 = 1_577_836_800_000_000_000;
    let a = now_nanos();
    let b = now_nanos();
    assert!(a > start_of_2020);
    assert!(b >= a);
}

#[test]
fn title_request_uses_small_model() {
    assert_eq!(title_request_settings(), ("gpt-4o-mini".to_string(), 1024));
}

#[test]
fn streaming_now_is_throttled() {
    // long after a start at the epoch: the text is sent on
    let mut s = StreamState::new_at(0);
    let c = s.on_delta_now("a").expect("more than 200 ms passed");
    assert_eq!(c.response, "a");
    // a start in the far future: no 200 ms have passed yet
    let mut t = StreamState::new_at(i128::MAX);
    assert!(t.on_delta_now("b").is_none());
    assert_eq!(t.snapshot().response, "b");
}
