use ai_client::ids::{
    get_thread_and_assistant_id, is_thread, pick_conversation_id, resolve_conversation_id,
    retain_thread, ThreadRetention,
};
use ai_client::text::{
    concat_str, str_contains, str_remove_all, str_split_all, str_split_once, str_starts_with, str_trim,
};

#[test]
fn split_all_gives_every_piece() {
    assert_eq!(str_split_all("a,b,,c", ","), vec!["a", "b", "", "c"]);
    assert_eq!(str_split_all("", ","), vec![""]);
    assert_eq!(str_split_all(",", ","), vec!["", ""]);
    assert_eq!(str_split_all("data: x data: y", "data:"), vec!["", " x ", " y"]);
}

#[test]
fn remove_all_matches_replace() {
    assert_eq!(str_remove_all("aaa", "aa"), "a");
    assert_eq!(str_remove_all("x[DONE]y[DONE]", "[DONE]"), "xy");
    assert_eq!(str_remove_all("abc", ""), "abc");
    assert_eq!(str_remove_all("「題名」", "「"), "題名」");
}

#[test]
fn trim_strips_unicode_white_space() {
    assert_eq!(str_trim("  \t hello world \n"), "hello world");
    assert_eq!(str_trim("\u{3000}全角\u{3000}"), "全角");
    assert_eq!(str_trim("   "), "");
    assert_eq!(str_trim(""), "");
}

#[test]
fn find_and_split_once() {
    assert!(str_contains("data:image/png;base64,AAAA", "base64,"));
    assert!(!str_contains("plain", "base64,"));
    assert!(str_contains("anything", ""));
    assert!(str_starts_with("thread_abc", "thread_"));
    assert!(!str_starts_with("thread", "thread_"));
    assert_eq!(
        str_split_once("data:a;base64,QUJD", "base64,"),
        Some(("data:a;".to_string(), "QUJD".to_string()))
    );
    assert_eq!(str_split_once("abc", ","), None);
    assert_eq!(concat_str("ab", "cd"), "abcd");
}

#[test]
fn thread_ids_are_recognised() {
    assert!(is_thread("thread_abc"));
    assert!(!is_thread("3f0c-uuid"));
    assert!(!is_thread(""));
}

#[test]
fn key_with_assistant_splits_into_both_ids() {
    let (t, a) = get_thread_and_assistant_id("thread_abc123asst_xyz789");
    assert_eq!(t, "thread_abc123");
    assert_eq!(a, "asst_xyz789");
}

#[test]
fn key_without_assistant_gives_bare_prefix() {
    let (t, a) = get_thread_and_assistant_id("thread_abc123");
    assert_eq!(t, "thread_abc123");
    assert_eq!(a, "asst_");
}

#[test]
fn non_thread_key_gives_nothing() {
    let (t, a) = get_thread_and_assistant_id("0b5e2c1a-uuid");
    assert_eq!(t, "");
    assert_eq!(a, "");
}

#[test]
fn key_with_repeated_markers_takes_first_pieces() {
    let (t, a) = get_thread_and_assistant_id("thread_aasst_basst_cthread_d");
    assert_eq!(t, "thread_a");
    assert_eq!(a, "asst_b");
}

#[test]
fn saved_key_round_trips() {
    let kept = retain_thread(
        Some("thread_Q1w2".to_string()),
        Some("asst_Z9y8".to_string()),
        Some(true),
    );
    let key = match kept {
        ThreadRetention::Keep(k) => k,
        other => panic!("unexpected {:?}", matches!(other, ThreadRetention::NoThread)),
    };
    assert_eq!(key, "thread_Q1w2asst_Z9y8");
    assert!(is_thread(&key));
    assert_eq!(
        get_thread_and_assistant_id(&key),
        ("thread_Q1w2".to_string(), "asst_Z9y8".to_string())
    );
}

#[test]
fn thread_retention_cases() {
    assert!(matches!(retain_thread(None, None, Some(true)), ThreadRetention::NoThread));
    assert!(matches!(
        retain_thread(Some(String::new()), None, Some(true)),
        ThreadRetention::NoThread
    ));
    match retain_thread(Some("thread_x".to_string()), Some(String::new()), Some(true)) {
        ThreadRetention::Keep(k) => assert_eq!(k, "thread_x"),
        _ => panic!("kept thread expected"),
    }
    match retain_thread(Some("thread_x".to_string()), Some("asst_y".to_string()), Some(false)) {
        ThreadRetention::Discard(t) => assert_eq!(t, "thread_x"),
        _ => panic!("discarded thread expected"),
    }
    match retain_thread(Some("thread_x".to_string()), None, None) {
        ThreadRetention::Discard(t) => assert_eq!(t, "thread_x"),
        _ => panic!("discarded thread expected"),
    }
}

#[test]
fn conversation_id_choice() {
    assert_eq!(
        pick_conversation_id("thread_k".to_string(), Some("old".to_string()), "fresh".to_string()),
        "thread_k"
    );
    assert_eq!(
        pick_conversation_id(String::new(), Some("old".to_string()), "fresh".to_string()),
        "old"
    );
    assert_eq!(pick_conversation_id(String::new(), None, "fresh".to_string()), "fresh");
    assert_eq!(resolve_conversation_id(String::new(), Some("old".to_string())), "old");
    let fresh = resolve_conversation_id(String::new(), None);
    assert_eq!(fresh.len(), 36);
    assert_eq!(fresh.matches('-').count(), 4);
    assert_ne!(fresh, resolve_conversation_id(String::new(), None));
}

#[test]
fn fresh_id_has_uuid_v4_form() {
    let fresh = resolve_conversation_id(String::new(), None);
    let chars: Vec<char> = fresh.chars().collect();
    assert_eq!(chars.len(), 36);
    for (i, c) in chars.iter().enumerate() {
        if i == 8 || i == 13 || i == 18 || i == 23 {
            assert_eq!(*c, '-');
        } else {
            assert!(c.is_ascii_digit() || ('a'..='f').contains(c));
        }
    }
    assert_eq!(chars[14], '4');
    assert!(matches!(chars[19], '8' | '9' | 'a' | 'b'));
    assert!(!is_thread(&fresh));
}
