use cthulhu_core::devinfo::DeviceInformation;
use cthulhu_core::job::JobStatus;
use cthulhu_core::status::JobUpdate;
use cthulhu_core::tracker::{status_color, PortTracker, TrackerEffect};

fn resets_of(effects: &[TrackerEffect]) -> Vec<String> {
    effects
        .iter()
        .filter_map(|e| match e {
            TrackerEffect::PublishReset { label } => Some(label.clone()),
            _ => None,
        })
        .collect()
}

fn leds_of(effects: &[TrackerEffect]) -> Vec<(String, u8, u8, u8, u8)> {
    effects
        .iter()
        .filter_map(|e| match e {
            TrackerEffect::Led {
                board_sn,
                port_idx,
                red,
                green,
                blue,
            } => Some((board_sn.clone(), *port_idx, *red, *green, *blue)),
            _ => None,
        })
        .collect()
}

#[test]
fn reset_on_plug_fires_exactly_once() {
    // The S5 scenario: module present, switch seen absent, then present.
    let mut t = PortTracker::new();
    assert!(t.add_port("label0", 0, "b0"));
    let mut all_resets: Vec<String> = Vec::new();
    let e1 = t.serial_module_presence_update("b0", 0, true, 10);
    all_resets.extend(resets_of(&e1));
    let e2 = t.serial_switch_presence_update("b0", 0, false, 20);
    all_resets.extend(resets_of(&e2));
    let e3 = t.serial_switch_presence_update("b0", 0, true, 30);
    all_resets.extend(resets_of(&e3));
    assert_eq!(all_resets, vec!["label0".to_string()]);
    // The reset follows that call's LED refresh.
    assert_eq!(leds_of(&e3).len(), 1);
    assert!(matches!(e3.last(), Some(TrackerEffect::PublishReset { .. })));
}

#[test]
fn first_observation_does_not_fire() {
    // The S6 scenario: the very first switch observation is no edge.
    let mut t = PortTracker::new();
    assert!(t.add_port("label0", 0, "b0"));
    let e1 = t.serial_module_presence_update("b0", 0, true, 10);
    let e2 = t.serial_switch_presence_update("b0", 0, true, 20);
    assert!(resets_of(&e1).is_empty());
    assert!(resets_of(&e2).is_empty());
    // Both present, job idle: the LED shows the Idle color.
    let leds = leds_of(&e2);
    assert_eq!(leds, vec![("b0".to_string(), 0, 127, 127, 127)]);
}

#[test]
fn module_edges_never_fire_resets() {
    let mut t = PortTracker::new();
    assert!(t.add_port("label0", 3, "b0"));
    t.serial_switch_presence_update("b0", 3, false, 1);
    let e1 = t.serial_module_presence_update("b0", 3, true, 2);
    let e2 = t.serial_module_presence_update("b0", 3, false, 3);
    let e3 = t.serial_module_presence_update("b0", 3, true, 4);
    assert!(resets_of(&e1).is_empty());
    assert!(resets_of(&e2).is_empty());
    assert!(resets_of(&e3).is_empty());
}

#[test]
fn reset_needs_module_present_throughout() {
    let mut t = PortTracker::new();
    assert!(t.add_port("label0", 0, "b0"));
    // Module absent: the plug edge must not fire.
    t.serial_module_presence_update("b0", 0, false, 1);
    t.serial_switch_presence_update("b0", 0, false, 2);
    let e = t.serial_switch_presence_update("b0", 0, true, 3);
    assert!(resets_of(&e).is_empty());
    // Unplug and replug with the module now present: fires.
    t.serial_module_presence_update("b0", 0, true, 4);
    t.serial_switch_presence_update("b0", 0, false, 5);
    let e = t.serial_switch_presence_update("b0", 0, true, 6);
    assert_eq!(resets_of(&e), vec!["label0".to_string()]);
}

#[test]
fn led_shows_not_ready_until_both_present() {
    let mut t = PortTracker::new();
    assert!(t.add_port("label0", 2, "b7"));
    let e = t.serial_module_presence_update("b7", 2, true, 1);
    // Switch still unknown: magenta "not ready".
    assert_eq!(leds_of(&e), vec![("b7".to_string(), 2, 0xc7, 0x15, 0x85)]);
    let e = t.serial_switch_presence_update("b7", 2, true, 2);
    assert_eq!(leds_of(&e), vec![("b7".to_string(), 2, 127, 127, 127)]);
}

#[test]
fn led_color_follows_the_status_table() {
    // The color table, one row per status.
    assert_eq!(status_color(JobStatus::Idle), (127, 127, 127));
    assert_eq!(status_color(JobStatus::FinishSuccess), (0, 255, 0));
    assert_eq!(status_color(JobStatus::FinishWarning), (0xff, 0x99, 0x33));
    assert_eq!(status_color(JobStatus::FinishError), (255, 0, 0));
    assert_eq!(status_color(JobStatus::Busy), (0, 0, 0xff));
    assert_eq!(status_color(JobStatus::RunningLong), (0xbb, 0x33, 0xff));
    assert_eq!(status_color(JobStatus::Fatal), (0xff, 0x33, 0xdd));
}

#[test]
fn telemetry_drives_the_led_color() {
    let mut t = PortTracker::new();
    assert!(t.add_port("label0", 0, "b0"));
    t.serial_module_presence_update("b0", 0, true, 1);
    t.serial_switch_presence_update("b0", 0, true, 2);
    // A started job is busy: blue.
    let e = t.mqtt_update("label0", JobUpdate::JobStart(1000), 1500);
    assert_eq!(leds_of(&e), vec![("b0".to_string(), 0, 0, 0, 0xff)]);
    // Ended with an error fact: red.
    let e = t.mqtt_update(
        "label0",
        JobUpdate::JobNewInfoItem(DeviceInformation::ErrorEnd),
        1600,
    );
    assert!(resets_of(&e).is_empty());
    let e = t.mqtt_update("label0", JobUpdate::JobEnd(2000), 2500);
    assert_eq!(leds_of(&e), vec![("b0".to_string(), 0, 255, 0, 0)]);
}

#[test]
fn unknown_labels_and_ports_do_nothing() {
    let mut t = PortTracker::new();
    assert!(t.add_port("label0", 0, "b0"));
    let e = t.mqtt_update("other", JobUpdate::JobStart(1), 2);
    assert!(e.is_empty());
    let e = t.serial_switch_presence_update("b1", 0, true, 3);
    assert!(e.is_empty());
    let e = t.serial_switch_presence_update("b0", 1, true, 4);
    assert!(e.is_empty());
}

#[test]
fn add_port_keeps_the_bijection() {
    let mut t = PortTracker::new();
    assert!(t.add_port("label0", 0, "b0"));
    assert!(t.add_port("label1", 1, "b0"));
    // A duplicate label is rejected, and so is a duplicate port slot.
    assert!(!t.add_port("label0", 2, "b0"));
    assert!(!t.add_port("label2", 1, "b0"));
    assert!(t.add_port("label2", 0, "b1"));
    assert_eq!(t.entries.len(), 3);
}
