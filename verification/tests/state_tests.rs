use cthulhu_core::config::OcthulhuConfig;
use cthulhu_core::config::OcthulhuHeavenConfig;
use cthulhu_core::devinfo::DeviceInformation;
use cthulhu_core::helpers::{get_dev_manuf, get_dev_model, get_dev_sn, PortStatusExt};
use cthulhu_core::job::{JobData, JobStatus, LONG_RUNNING_MS};
use cthulhu_core::manager::JobManager;
use cthulhu_core::status::JobUpdate;

#[test]
fn status_is_idle_before_start() {
    let d = JobData::with_label("p");
    assert_eq!(d.get_status(0), JobStatus::Idle);
    assert!(d.get_status(0).is_idle());
}

#[test]
fn status_turns_long_after_the_threshold() {
    let mut d = JobData::with_label("p");
    d.update(JobUpdate::JobStart(1000));
    assert_eq!(d.get_status(1000 + LONG_RUNNING_MS), JobStatus::Busy);
    assert_eq!(d.get_status(1000 + LONG_RUNNING_MS + 1), JobStatus::RunningLong);
    assert!(!d.get_status(2000).is_idle());
}

#[test]
fn status_after_the_end_follows_the_facts() {
    let mut d = JobData::with_label("p");
    d.update(JobUpdate::JobStart(0));
    d.update(JobUpdate::JobEnd(10));
    assert_eq!(d.get_status(20), JobStatus::FinishSuccess);
    d.update(JobUpdate::JobNewInfoItem(DeviceInformation::ErrorEnd));
    assert_eq!(d.get_status(20), JobStatus::FinishError);
    d.update(JobUpdate::JobNewInfoItem(DeviceInformation::LoopDetected));
    assert_eq!(d.get_status(20), JobStatus::FinishWarning);
    d.fatal = true;
    assert_eq!(d.get_status(20), JobStatus::Fatal);
}

#[test]
fn reaching_end_job_counts_as_finished() {
    let mut d = JobData::with_label("p");
    d.update(JobUpdate::JobStart(0));
    d.update(JobUpdate::JobStageTransition(5, "EndJob".to_string()));
    assert_eq!(d.get_status(6), JobStatus::FinishSuccess);
}

#[test]
fn a_fresh_start_clears_the_record() {
    let mut d = JobData::with_label("p");
    d.update(JobUpdate::JobStart(0));
    d.update(JobUpdate::JobStageTransition(1, "A".to_string()));
    d.update(JobUpdate::JobNewInfoItem(DeviceInformation::LoopDetected));
    d.update(JobUpdate::JobEnd(2));
    d.update(JobUpdate::JobStart(50));
    assert_eq!(d.label, "p".to_string());
    assert_eq!(d.job_started, Some(50));
    assert_eq!(d.job_ended, None);
    assert!(d.state_history.is_empty());
    assert!(d.info_items.is_empty());
}

#[test]
fn full_data_replaces_the_record() {
    let mut d = JobData::with_label("p");
    let mut incoming = JobData::with_label("p");
    incoming.update(JobUpdate::JobStart(7));
    d.update(JobUpdate::JobFullData(incoming.clone()));
    assert_eq!(d, incoming);
}

#[test]
fn device_fact_getters_take_the_first_match() {
    let mut d = JobData::with_label("p");
    assert_eq!(get_dev_manuf(&d), "UNKN".to_string());
    assert_eq!(get_dev_model(&d), "UNKN".to_string());
    assert_eq!(get_dev_sn(&d), "UNKN".to_string());
    d.update(JobUpdate::JobNewInfoItem(DeviceInformation::Model(
        "AX-3000".to_string(),
    )));
    d.update(JobUpdate::JobNewInfoItem(DeviceInformation::Vendor(
        "AcmeNet".to_string(),
    )));
    d.update(JobUpdate::JobNewInfoItem(DeviceInformation::Vendor(
        "Second".to_string(),
    )));
    d.update(JobUpdate::JobNewInfoItem(DeviceInformation::SerialNumber(
        "SN1".to_string(),
    )));
    assert_eq!(get_dev_manuf(&d), "AcmeNet".to_string());
    assert_eq!(get_dev_model(&d), "AX-3000".to_string());
    assert_eq!(get_dev_sn(&d), "SN1".to_string());
}

#[test]
fn css_colors_per_status() {
    assert_eq!(
        JobStatus::Idle.get_css_backgroundcolor(),
        "var(--primary-background)".to_string()
    );
    assert_eq!(
        JobStatus::FinishSuccess.get_css_backgroundcolor(),
        "#00ff00".to_string()
    );
    assert_eq!(
        JobStatus::Fatal.get_css_backgroundcolor(),
        "#ff33dd".to_string()
    );
}

#[test]
fn manager_creates_entries_on_demand() {
    let mut m = JobManager::new();
    let i = m.get_port_mut("p0");
    assert_eq!(i, 0);
    let j = m.get_port_mut("p1");
    assert_eq!(j, 1);
    // Asking again finds the first entry rather than adding one.
    assert_eq!(m.get_port_mut("p0"), 0);
    assert_eq!(m.ports.len(), 2);
}

#[test]
fn manager_accepts_updates_and_logs() {
    let mut m = JobManager::new();
    m.append_log_data("p0", b"boot banner\r\n");
    m.accept_update("p0", JobUpdate::JobStageTransition(4, "A".to_string()));
    let e = m.get_port("p0").unwrap();
    assert_eq!(e.log_buffer, b"boot banner\r\n".to_vec());
    assert_eq!(e.data.state_history.len(), 1);
    // A fresh start clears the captured log.
    m.accept_update("p0", JobUpdate::JobStart(9));
    let e = m.get_port("p0").unwrap();
    assert!(e.log_buffer.is_empty());
    assert_eq!(e.data.job_started, Some(9));
    assert!(m.get_port("p9").is_none());
    let all = m.get_ports();
    assert_eq!(all.len(), 1);
}

#[test]
fn octhulhu_mapping_lookup() {
    let conf = OcthulhuConfig {
        heaven: OcthulhuHeavenConfig {
            id: "oct".to_string(),
            host: "broker".to_string(),
            port: 1883,
        },
        network_serials: vec![],
        port_mapping: vec![
            (
                "b0".to_string(),
                vec!["p0".to_string(), "p1".to_string()],
            ),
            ("b1".to_string(), vec!["p2".to_string()]),
        ],
    };
    assert!(conf.has_mapping("b0"));
    assert!(!conf.has_mapping("b9"));
    assert_eq!(
        conf.mapping_for("b1"),
        Some(&vec!["p2".to_string()])
    );
}
