use circuit_rooms::chat::{clean_chat_text, push_chat, ChatLine, CHAT_SCROLLBACK, MAX_CHAT_LEN};
use circuit_rooms::messages::{
    chat_fields, chat_msg, gone_msg, meta_msg, netmap_msg, presence_msg, reject_msg, sensors_msg,
    Datum,
};
use circuit_rooms::probes::{NetMap, ProbeName};
use circuit_rooms::room::{Context, Reject};
use circuit_rooms::sensors::Shown;
use circuit_rooms::text::{capitals, clean_name, is_before, numbered};

/// The cap is characters, not bytes.
#[test]
fn chat_length_is_capped_in_characters() {
    let long: String = std::iter::repeat('x').take(1000).collect();
    assert_eq!(clean_chat_text(&long).chars().count(), MAX_CHAT_LEN);
    let wide: String = std::iter::repeat('é').take(300).collect();
    let cleaned = clean_chat_text(&wide);
    assert_eq!(cleaned.chars().count(), MAX_CHAT_LEN);
    assert!(cleaned.chars().all(|c| c == 'é'));
}

#[test]
fn chat_strips_control_and_bidi_override() {
    assert_eq!(clean_chat_text("hi\u{7}the\nre\r"), "hithere");
    assert_eq!(clean_chat_text("a\u{202E}b\u{202A}c\u{2066}d\u{200F}e"), "abcde");
    // ...and the same hole is closed for every named thing on the sheet.
    assert_eq!(clean_name("EVIL\u{202E}LIVE", 28), "EVILLIVE");
    // ZWJ survives: stripping it would break emoji sequences and Persian.
    assert_eq!(clean_chat_text("👨\u{200D}👩\u{200D}👧"), "👨\u{200D}👩\u{200D}👧");
}

#[test]
fn chat_whitespace_and_control_only_lines_clean_to_empty() {
    assert_eq!(clean_chat_text("   \t  "), "");
    assert_eq!(clean_chat_text("\u{202E}\u{7}\n"), "");
    assert_eq!(clean_chat_text(""), "");
}

#[test]
fn chat_scrollback_is_bounded_and_keeps_the_tail() {
    let mut chat = std::collections::VecDeque::new();
    for i in 0..(CHAT_SCROLLBACK as u32 + 20) {
        push_chat(&mut chat, ChatLine { who: 1, text: format!("line {i}") });
    }
    assert_eq!(chat.len(), CHAT_SCROLLBACK);
    assert_eq!(chat.back().unwrap().text, format!("line {}", CHAT_SCROLLBACK + 19));
    assert_eq!(chat.front().unwrap().text, "line 20");
}

#[test]
fn chat_msg_is_who_plus_text_and_nothing_else() {
    let m = chat_msg(&ChatLine { who: 7, text: "hi".into() });
    let v: serde_json::Value = serde_json::from_str(&m).unwrap();
    assert_eq!(v["t"], "chat");
    assert_eq!(v["who"], 7);
    assert_eq!(v["text"], "hi");
    assert_eq!(v.as_object().unwrap().len(), 3);
}

#[test]
fn chat_fields_are_in_order() {
    let f = chat_fields(&ChatLine { who: 7, text: "a \"quote\"".into() });
    assert_eq!(f.len(), 3);
    assert_eq!(f[0].key, "t");
    assert_eq!(f[1].key, "who");
    assert!(matches!(f[1].datum, Datum::Number(7)));
    assert!(matches!(&f[2].datum, Datum::Text(s) if s == "a \"quote\""));
}

/// A refusal names the player, the op, the code and every part at fault.
#[test]
fn reject_msg_is_machine_readable() {
    let r = Reject {
        code: "unsolvable_switched".into(),
        id: None,
        ids: vec![],
        hint: "with that switch closed the circuit has no solution".into(),
    };
    let v: serde_json::Value = serde_json::from_str(&reject_msg(3, Context::Edit, &r)).unwrap();
    assert_eq!(v["t"], "reject");
    assert_eq!(v["who"], 3);
    assert_eq!(v["ctx"], "edit");
    assert_eq!(v["code"], "unsolvable_switched");
    assert!(v["id"].is_null());
    assert_eq!(v["ids"].as_array().unwrap().len(), 0);
    assert!(v["hint"].as_str().is_some_and(|h| !h.is_empty()));

    // A named refusal carries EVERY implicated part, so the client can flash both halves of
    // a conflict rather than guessing.
    let r = Reject {
        code: "conflicting_sources".into(),
        id: Some(1),
        ids: vec![1, 5003],
        hint: "9 V and 5 V on the same two points".into(),
    };
    let v: serde_json::Value = serde_json::from_str(&reject_msg(3, Context::Edit, &r)).unwrap();
    assert_eq!(v["code"], "conflicting_sources");
    assert_eq!(v["id"], 1);
    assert_eq!(v["ids"], serde_json::Value::from(vec![1, 5003]));
    let hint = v["hint"].as_str().unwrap();
    assert!(hint.contains("9 V") && hint.contains("5 V"), "{hint}");
    assert_eq!(v.as_object().unwrap().len(), 7);
}

#[test]
fn a_refusal_says_what_was_asked() {
    let r = Reject { code: "too-big".into(), id: None, ids: vec![], hint: String::new() };
    let ctx = |c| {
        let v: serde_json::Value = serde_json::from_str(&reject_msg(1, c, &r)).unwrap();
        v["ctx"].as_str().unwrap().to_string()
    };
    assert_eq!(ctx(Context::Interact), "interact");
    assert_eq!(ctx(Context::Repair), "repair");
    assert_eq!(ctx(Context::MachineMove), "machinemove");
}

#[test]
fn the_other_messages_carry_what_they_say() {
    let v: serde_json::Value = serde_json::from_str(&gone_msg("ABC234", true)).unwrap();
    assert_eq!((v["t"].as_str(), v["id"].as_str()), (Some("roomgone"), Some("ABC234")));
    assert_eq!(v["reason"], "deleted");
    let v: serde_json::Value = serde_json::from_str(&gone_msg("nope", false)).unwrap();
    assert_eq!(v["reason"], "unknown");
    let v: serde_json::Value = serde_json::from_str(&meta_msg("ABC234", "Lab")).unwrap();
    assert_eq!((v["t"].as_str(), v["name"].as_str()), (Some("roommeta"), Some("Lab")));
    let v: serde_json::Value = serde_json::from_str(&presence_msg(5)).unwrap();
    assert_eq!((v["t"].as_str(), v["n"].as_u64()), (Some("presence"), Some(5)));
    let map = NetMap { live: vec![2, 9], probes: vec![ProbeName { pid: 1, nlid: 9 }] };
    let v: serde_json::Value = serde_json::from_str(&netmap_msg(&map)).unwrap();
    assert_eq!(v["live"], serde_json::Value::from(vec![2, 9]));
    assert_eq!(v["probes"][0], serde_json::Value::from(vec![1, 9]));
    assert!(sensors_msg(&vec![]).is_none());
    let m = sensors_msg(&vec![Shown { id: 4, q: 65_535 }]).unwrap();
    let v: serde_json::Value = serde_json::from_str(&m).unwrap();
    assert_eq!(v["s"][0], serde_json::Value::from(vec![4, 65_535]));
}

/// Cleaning once is enough, and what comes out is bounded.
#[test]
fn cleaning_twice_is_cleaning_once() {
    for s in ["  a\u{7}b  ", "\u{202E}x", "   ", "é é é", "a\u{a0}"] {
        let once = clean_name(s, 3);
        assert_eq!(clean_name(&once, 3), once);
        assert!(once.chars().count() <= 3);
    }
    assert_eq!(clean_name("ab cd", 3), "ab");
}

#[test]
fn texts_are_ordered_and_capitalised() {
    assert!(is_before("ABC", "ABD"));
    assert!(is_before("AB", "ABA"));
    assert!(!is_before("ABC", "ABC"));
    assert!(!is_before("b", "A"));
    let up: String = capitals(&"abZ9é".chars().collect()).into_iter().collect();
    assert_eq!(up, "ABZ9é");
    assert_eq!(numbered("PANEL ", 4_294_967_295), "PANEL 4294967295");
    assert_eq!(numbered("", 0), "0");
}
