use cthulhu_core::action::Action;
use cthulhu_core::board::{
    led_command_bytes, module_request_bytes, parse_board_line, presence_request_bytes, BoardReply,
};
use cthulhu_core::discovery::{parse_identity_line, usb_accepts};
use cthulhu_core::expect::ExpectEngine;
use cthulhu_core::machine::Transition;
use cthulhu_core::rx::RegexNeedle;
use cthulhu_core::topics::{parse_update_topic, topic_command, topic_update};
use cthulhu_core::trigger::Trigger;

fn needle(t: Trigger) -> Transition {
    Transition {
        trigger: t,
        target: "EndJob".to_string(),
        actions: vec![],
    }
}

#[test]
fn board_presence_and_module_lines_parse() {
    assert_eq!(
        parse_board_line("P10000001"),
        Some(BoardReply::Presence([
            true, false, false, false, false, false, false, true
        ]))
    );
    assert_eq!(
        parse_board_line("M01100000"),
        Some(BoardReply::Module([
            false, true, true, false, false, false, false, false
        ]))
    );
    // Extra characters beyond the eight bits are ignored.
    assert_eq!(
        parse_board_line("P11111111xyz"),
        Some(BoardReply::Presence([true; 8]))
    );
}

#[test]
fn board_truncated_and_foreign_lines() {
    assert_eq!(parse_board_line(""), None);
    assert_eq!(parse_board_line("P1010"), None);
    assert_eq!(parse_board_line("M"), None);
    assert_eq!(
        parse_board_line("X123"),
        Some(BoardReply::Unknown("X123".to_string()))
    );
}

#[test]
fn board_request_and_led_framing() {
    assert_eq!(presence_request_bytes(), b"P\r\n".to_vec());
    assert_eq!(module_request_bytes(), b"M\r\n".to_vec());
    assert_eq!(
        led_command_bytes(1, 0xff, 0x99, 0x33),
        b"S01FF9933\r\nF\r\n".to_vec()
    );
    assert_eq!(
        led_command_bytes(0x0a, 0, 0x15, 0x85),
        b"S0A001585\r\nF\r\n".to_vec()
    );
}

#[test]
fn expect_empty_buffer_matches_nothing() {
    let mut engine = ExpectEngine::new();
    let trans = vec![needle(Trigger::Literal("x".to_string()))];
    assert!(engine.try_expect(&trans).is_none());
    assert_eq!(engine.buffered(), 0);
}

#[test]
fn expect_needle_at_buffer_start() {
    let mut engine = ExpectEngine::new();
    engine.feed(b"promptrest");
    let trans = vec![needle(Trigger::Literal("prompt".to_string()))];
    let m = engine.try_expect(&trans).unwrap();
    assert_eq!(m.consumed, b"prompt".to_vec());
    assert_eq!(m.matched, b"prompt".to_vec());
    assert_eq!(m.winner, 0);
    // The remainder stays buffered for the next call.
    assert_eq!(engine.buffered(), 4);
}

#[test]
fn expect_earliest_end_wins_and_ties_go_to_set_order() {
    let mut engine = ExpectEngine::new();
    engine.feed(b"abcdef");
    // "cd" ends at 4, "abcde" at 5: the earlier end wins though it is
    // second in the set.
    let trans = vec![
        needle(Trigger::Literal("abcde".to_string())),
        needle(Trigger::Literal("cd".to_string())),
    ];
    let m = engine.try_expect(&trans).unwrap();
    assert_eq!(m.winner, 1);
    assert_eq!(m.consumed, b"abcd".to_vec());
    assert_eq!(m.matched, b"cd".to_vec());
    assert_eq!(engine.buffered(), 2);

    // On an exact tie, the first needle in the set wins.
    let mut engine = ExpectEngine::new();
    engine.feed(b"xyz");
    let trans = vec![
        needle(Trigger::Literal("xy".to_string())),
        needle(Trigger::Literal("y".to_string())),
    ];
    let m = engine.try_expect(&trans).unwrap();
    assert_eq!(m.winner, 0);
}

#[test]
fn expect_regex_needle_earliest_end() {
    let re = RegexNeedle::new("[0-9]+%".to_string()).unwrap();
    let mut engine = ExpectEngine::new();
    engine.feed(b"loading 42% done");
    let trans = vec![needle(Trigger::Regex(re))];
    let m = engine.try_expect(&trans).unwrap();
    assert_eq!(m.matched, b"42%".to_vec());
    assert_eq!(m.consumed, b"loading 42%".to_vec());
    assert_eq!(engine.buffered(), b" done".len());
}

#[test]
fn expect_feed_accumulates_across_reads() {
    let mut engine = ExpectEngine::new();
    let trans = vec![needle(Trigger::Literal("login:".to_string()))];
    engine.feed(b"log");
    assert!(engine.try_expect(&trans).is_none());
    engine.feed(b"in:");
    let m = engine.try_expect(&trans).unwrap();
    assert_eq!(m.matched, b"login:".to_vec());
}

#[test]
fn trigger_matches_credits_the_right_needle() {
    let lit = Trigger::Literal("ok".to_string());
    assert!(lit.matches_bytes(b"ok"));
    assert!(!lit.matches_bytes(b"ok\r\n"));
    let re = Trigger::Regex(RegexNeedle::new("^o+k$".to_string()).unwrap());
    assert!(re.matches_bytes(b"oook"));
    assert!(!re.matches_bytes(b"ko"));
    assert!(!Trigger::Immediate.matches_bytes(b"ok"));
    assert!(!Trigger::Timeout(5).matches_bytes(b"ok"));
}

#[test]
fn invalid_regex_is_rejected_at_build_time() {
    assert!(RegexNeedle::new("(unclosed".to_string()).is_none());
    let n = RegexNeedle::new("closed".to_string()).unwrap();
    assert_eq!(n.pattern().as_str(), "closed");
}

#[test]
fn topics_round_trip() {
    assert_eq!(topic_update("p7"), "cthulhu/p7/update");
    assert_eq!(topic_command("p7"), "cthulhu/p7/command");
    assert_eq!(
        parse_update_topic("cthulhu/p7/update"),
        Some("p7".to_string())
    );
    assert_eq!(
        parse_update_topic(topic_update("rack2-port03").as_str()),
        Some("rack2-port03".to_string())
    );
    assert_eq!(parse_update_topic("cthulhu//update"), None);
    assert_eq!(parse_update_topic("cthulhu/a/b/update"), None);
    assert_eq!(parse_update_topic("cthulhu/p7/command"), None);
    assert_eq!(parse_update_topic("other/p7/update"), None);
    assert_eq!(parse_update_topic(""), None);
}

#[test]
fn usb_filter_accepts_only_known_boards() {
    assert!(usb_accepts(0x16c0, 0x27dd, "Cthulhu", "Octhulhu", true));
    assert!(usb_accepts(0x05a6, 0x0009, "Cthulhu", "Octhulhu", true));
    assert!(!usb_accepts(0x16c0, 0x27dd, "Cthulhu", "Octhulhu", false));
    assert!(!usb_accepts(0x16c0, 0x27de, "Cthulhu", "Octhulhu", true));
    assert!(!usb_accepts(0x16c0, 0x27dd, "Other", "Octhulhu", true));
    assert!(!usb_accepts(0x16c0, 0x27dd, "Cthulhu", "Board", true));
}

#[test]
fn identity_line_yields_the_serial() {
    assert_eq!(parse_identity_line("I12345"), Some("12345".to_string()));
    assert_eq!(parse_identity_line("I"), Some("".to_string()));
    assert_eq!(parse_identity_line("X12345"), None);
    assert_eq!(parse_identity_line(""), None);
}

#[test]
fn actions_compare_structurally() {
    assert_eq!(
        Action::Send {
            text: "a".to_string()
        },
        Action::Send {
            text: "a".to_string()
        }
    );
    assert_ne!(Action::Flush, Action::FinishJob);
}

#[test]
fn overlapping_regex_and_literal_earliest_end_wins() {
    // The regex could match the longer span, but the literal ends first.
    let re = RegexNeedle::new("a.*z".to_string()).unwrap();
    let mut engine = ExpectEngine::new();
    engine.feed(b"abc..z tail");
    let trans = vec![
        needle(Trigger::Regex(re)),
        needle(Trigger::Literal("bc".to_string())),
    ];
    let m = engine.try_expect(&trans).unwrap();
    assert_eq!(m.winner, 1);
    assert_eq!(m.matched, b"bc".to_vec());
}
