use cthulhu_core::codec::{decode_command, decode_update, encode_command, encode_update};
use cthulhu_core::devinfo::DeviceInformation;
use cthulhu_core::job::JobData;
use cthulhu_core::status::{JobCommand, JobUpdate};

fn round_trip(u: JobUpdate) {
    let text = encode_update(&u);
    let back = decode_update(text.as_str()).expect("an encoded message must decode");
    assert_eq!(back, u);
}

#[test]
fn job_start_exact_text_and_round_trip() {
    let u = JobUpdate::JobStart(1717171717000);
    assert_eq!(encode_update(&u), "{\"JobStart\":1717171717000}");
    round_trip(u);
}

#[test]
fn job_end_negative_timestamp() {
    let u = JobUpdate::JobEnd(-12345);
    assert_eq!(encode_update(&u), "{\"JobEnd\":-12345}");
    round_trip(u);
}

#[test]
fn stage_transition_exact_text() {
    let u = JobUpdate::JobStageTransition(42, "AwaitPass".to_string());
    assert_eq!(
        encode_update(&u),
        "{\"JobStageTransition\":[42,\"AwaitPass\"]}"
    );
    round_trip(u);
}

#[test]
fn info_item_variants_round_trip() {
    round_trip(JobUpdate::JobNewInfoItem(DeviceInformation::Vendor(
        "AcmeNet".to_string(),
    )));
    round_trip(JobUpdate::JobNewInfoItem(DeviceInformation::Model(
        "AX-3000".to_string(),
    )));
    round_trip(JobUpdate::JobNewInfoItem(DeviceInformation::SerialNumber(
        "SN0012".to_string(),
    )));
    round_trip(JobUpdate::JobNewInfoItem(DeviceInformation::LoopDetected));
    round_trip(JobUpdate::JobNewInfoItem(DeviceInformation::SuccessEnd));
    round_trip(JobUpdate::JobNewInfoItem(DeviceInformation::ErrorEnd));
    assert_eq!(
        encode_update(&JobUpdate::JobNewInfoItem(DeviceInformation::LoopDetected)),
        "{\"JobNewInfoItem\":\"LoopDetected\"}"
    );
}

#[test]
fn strings_with_escapes_round_trip() {
    for name in [
        "plain",
        "with \"quotes\"",
        "back\\slash",
        "line\r\nbreak",
        "tab\tand null\u{0}",
        "unicode: żółć 🦑",
        "",
    ] {
        round_trip(JobUpdate::JobStageTransition(7, name.to_string()));
    }
}

#[test]
fn timestamp_extremes_round_trip() {
    round_trip(JobUpdate::JobStart(i64::MAX));
    round_trip(JobUpdate::JobStart(i64::MIN));
    round_trip(JobUpdate::JobStart(0));
    round_trip(JobUpdate::JobEnd(-1));
}

#[test]
fn full_data_round_trip() {
    let mut d = JobData::with_label("port-\"7\"");
    d.update(JobUpdate::JobStart(100));
    d.update(JobUpdate::JobStageTransition(101, "Init".to_string()));
    d.update(JobUpdate::JobStageTransition(150, "Fetch\\Image".to_string()));
    d.update(JobUpdate::JobNewInfoItem(DeviceInformation::Vendor(
        "AcmeNet".to_string(),
    )));
    d.update(JobUpdate::JobNewInfoItem(DeviceInformation::LoopDetected));
    d.update(JobUpdate::JobEnd(-5));
    round_trip(JobUpdate::JobFullData(d));
}

#[test]
fn empty_full_data_exact_text() {
    let d = JobData::with_label("p");
    let u = JobUpdate::JobFullData(d);
    assert_eq!(
        encode_update(&u),
        "{\"JobFullData\":{\"label\":\"p\",\"job_started\":null,\"job_ended\":null,\"state_history\":[],\"info_items\":[],\"fatal\":false}}"
    );
    round_trip(u);
}

#[test]
fn decoder_rejects_trailing_garbage_and_foreign_tags() {
    assert_eq!(decode_update("{\"JobStart\":1} "), None);
    assert_eq!(decode_update("{\"JobStart\":1}x"), None);
    assert_eq!(decode_update("{\"JobLaunch\":1}"), None);
    assert_eq!(decode_update(""), None);
    assert_eq!(decode_update("{\"JobStart\":}"), None);
    assert_eq!(decode_update("{\"JobStart\":12"), None);
    assert_eq!(decode_update("{\"JobStageTransition\":[1,\"x\"]"), None);
}

#[test]
fn decoder_rejects_out_of_range_timestamps() {
    assert_eq!(decode_update("{\"JobStart\":9223372036854775808}"), None);
    assert_eq!(
        decode_update("{\"JobStart\":-9223372036854775809}"),
        None
    );
    assert_eq!(
        decode_update("{\"JobStart\":9223372036854775807}"),
        Some(JobUpdate::JobStart(i64::MAX))
    );
    assert_eq!(
        decode_update("{\"JobStart\":-9223372036854775808}"),
        Some(JobUpdate::JobStart(i64::MIN))
    );
}

#[test]
fn commands_round_trip_with_exact_text() {
    for (c, text) in [
        (JobCommand::ResetJob, "\"ResetJob\""),
        (JobCommand::RestartAngel, "\"RestartAngel\""),
        (JobCommand::GetJobData, "\"GetJobData\""),
    ] {
        assert_eq!(encode_command(&c), text);
        assert_eq!(decode_command(text), Some(c));
    }
    assert_eq!(decode_command("\"ResetJob\"x"), None);
    assert_eq!(decode_command("ResetJob"), None);
}

#[test]
fn encoded_messages_are_well_formed_json() {
    // The payloads must stay interchangeable with any JSON reader.
    let mut d = JobData::with_label("p0");
    d.update(JobUpdate::JobStart(5));
    d.update(JobUpdate::JobStageTransition(6, "A \"quoted\"\nname".to_string()));
    let samples = vec![
        encode_update(&JobUpdate::JobStart(12)),
        encode_update(&JobUpdate::JobStageTransition(-3, "Init".to_string())),
        encode_update(&JobUpdate::JobNewInfoItem(DeviceInformation::ErrorEnd)),
        encode_update(&JobUpdate::JobFullData(d)),
        encode_command(&JobCommand::ResetJob),
    ];
    for s in samples {
        let v: Result<serde_json::Value, _> = serde_json::from_str(s.as_str());
        assert!(v.is_ok(), "not JSON: {s}");
    }
}

#[test]
fn encoding_agrees_with_serde_for_simple_tags() {
    // serde's externally tagged form is the wire format the fleet speaks.
    let v: serde_json::Value =
        serde_json::from_str(encode_update(&JobUpdate::JobStart(77)).as_str()).unwrap();
    assert_eq!(v["JobStart"], serde_json::Value::from(77));
    let v: serde_json::Value =
        serde_json::from_str(encode_update(&JobUpdate::JobStageTransition(8, "S1".to_string())).as_str())
            .unwrap();
    assert_eq!(v["JobStageTransition"][0], serde_json::Value::from(8));
    assert_eq!(v["JobStageTransition"][1], serde_json::Value::from("S1"));
}
