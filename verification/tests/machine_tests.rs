use cthulhu_core::action::{control_byte, Action, ActionError, DeviceInfoArg, Effect, WireCommand};
use cthulhu_core::devinfo::DeviceInformation;
use cthulhu_core::job::JobStatus;
use cthulhu_core::machine::{
    BuildError, JobRuntime, RestartDecision, State, StateFile, StateMachineBuilder,
    StateMachineSpec, StepError, StepEvent, StepPlan, Transition,
};
use cthulhu_core::status::JobUpdate;
use cthulhu_core::trigger::{parse_duration, Trigger};

fn lit(s: &str) -> Trigger {
    Trigger::Literal(s.to_string())
}

fn tr(trigger: Trigger, target: &str, actions: Vec<Action>) -> Transition {
    Transition {
        trigger,
        target: target.to_string(),
        actions,
    }
}

fn state(transitions: Vec<Transition>) -> State {
    State { transitions }
}

fn file(name: &str, states: Vec<(&str, State)>) -> StateFile {
    StateFile {
        name: name.to_string(),
        states: states
            .into_iter()
            .map(|(n, s)| (n.to_string(), s))
            .collect(),
    }
}

fn build(files: Vec<StateFile>, registry: Vec<&str>) -> Result<StateMachineSpec, BuildError> {
    let mut b = StateMachineBuilder::new();
    for f in files {
        b.add_file(f);
    }
    let reg: Vec<String> = registry.into_iter().map(|s| s.to_string()).collect();
    b.build(&reg)
}

fn updates_of(effects: &[Effect]) -> Vec<&JobUpdate> {
    effects
        .iter()
        .filter_map(|e| match e {
            Effect::Update(u) => Some(u),
            _ => None,
        })
        .collect()
}

fn wires_of(effects: &[Effect]) -> Vec<&WireCommand> {
    effects
        .iter()
        .filter_map(|e| match e {
            Effect::Wire(w) => Some(w),
            _ => None,
        })
        .collect()
}

#[test]
fn basic_prompt_match_runs_one_transition() {
    // The S1 scenario: a literal prompt fires one transition that sends a
    // line.
    let sm = build(
        vec![file(
            "base",
            vec![
                (
                    "Init",
                    state(vec![tr(
                        lit("login: "),
                        "AwaitPass",
                        vec![Action::SendLine {
                            line: "admin".to_string(),
                        }],
                    )]),
                ),
                ("AwaitPass", state(vec![])),
                ("EndJob", state(vec![])),
            ],
        )],
        vec![],
    )
    .unwrap();
    let mut engine = cthulhu_core::expect::ExpectEngine::new();
    let mut rt = JobRuntime::new(sm, "p1", vec![]);
    rt.reset(1000);
    engine.feed(b"Welcome\r\nlogin: ");
    let idx = rt.sm.state_index(rt.current.as_str()).unwrap();
    let m = {
        let trans = &rt.sm.states[idx].1.transitions;
        engine.try_expect(trans).expect("the prompt must match")
    };
    assert_eq!(m.consumed, b"Welcome\r\nlogin: ".to_vec());
    assert_eq!(m.matched, b"login: ".to_vec());
    assert_eq!(m.winner, 0);
    let effects = rt
        .step_event(
            &StepEvent::Matched {
                data: m.consumed,
                matched: m.matched,
            },
            2000,
        )
        .unwrap();
    assert_eq!(rt.current, "AwaitPass".to_string());
    let wires = wires_of(&effects);
    assert_eq!(wires.len(), 1);
    assert_eq!(*wires[0], WireCommand::SendLine("admin".to_string()));
    let ups = updates_of(&effects);
    assert_eq!(ups.len(), 1);
    assert_eq!(
        *ups[0],
        JobUpdate::JobStageTransition(2000, "AwaitPass".to_string())
    );
    assert_eq!(engine.buffered(), 0);
}

#[test]
fn loop_detection_forces_end_job() {
    // The S2 scenario: a self-loop on Init trips loop detection at the
    // sixth step and the seventh step is a no-op.
    let sm = build(
        vec![file(
            "base",
            vec![
                ("Init", state(vec![tr(Trigger::Immediate, "Init", vec![])])),
                ("EndJob", state(vec![])),
            ],
        )],
        vec![],
    )
    .unwrap();
    let mut rt = JobRuntime::new(sm, "p1", vec![]);
    rt.reset(0);
    for step in 1..=7u32 {
        let effects = rt.step_event(&StepEvent::Immediate, step as i64).unwrap();
        // No state name ever occurs more than six times in the history:
        // five re-entries plus the forced transition.
        for name in ["Init", "EndJob"] {
            let count = rt
                .data
                .state_history
                .iter()
                .filter(|(_, s)| s == name)
                .count();
            assert!(count <= 6, "{name} seen {count} times at step {step}");
        }
        if step < 6 {
            assert_eq!(rt.current, "Init".to_string(), "step {step}");
        }
        if step == 6 {
            assert_eq!(rt.current, "EndJob".to_string());
            assert!(rt
                .data
                .info_items
                .contains(&DeviceInformation::LoopDetected));
            let ups = updates_of(&effects);
            assert_eq!(
                *ups[ups.len() - 1],
                JobUpdate::JobStageTransition(6, "EndJob".to_string())
            );
        }
        if step == 7 {
            assert!(effects.is_empty());
            assert_eq!(rt.current, "EndJob".to_string());
        }
    }
    assert_eq!(rt.data.get_status(100), JobStatus::FinishWarning);
}

#[test]
fn immediate_takes_precedence_over_literals() {
    // The S3 scenario: with an Immediate transition present no byte is
    // read.
    let sm = build(
        vec![file(
            "base",
            vec![
                (
                    "Init",
                    state(vec![
                        tr(Trigger::Immediate, "A", vec![]),
                        tr(lit("x"), "B", vec![]),
                    ]),
                ),
                ("A", state(vec![])),
                ("B", state(vec![])),
                ("EndJob", state(vec![])),
            ],
        )],
        vec![],
    )
    .unwrap();
    let mut rt = JobRuntime::new(sm, "p1", vec![]);
    rt.reset(0);
    assert_eq!(rt.plan().unwrap(), StepPlan::Immediate);
    rt.step_event(&StepEvent::Immediate, 1).unwrap();
    assert_eq!(rt.current, "A".to_string());
}

#[test]
fn send_control_emits_one_control_byte() {
    // The S4 scenario: SendControl('C') writes exactly the byte 0x03.
    let sm = build(
        vec![file(
            "base",
            vec![
                (
                    "Init",
                    state(vec![tr(
                        Trigger::Immediate,
                        "EndJob",
                        vec![Action::SendControl { char_: 'C' }],
                    )]),
                ),
                ("EndJob", state(vec![])),
            ],
        )],
        vec![],
    )
    .unwrap();
    let mut rt = JobRuntime::new(sm, "p1", vec![]);
    rt.reset(0);
    let effects = rt.step_event(&StepEvent::Immediate, 1).unwrap();
    let wires = wires_of(&effects);
    assert_eq!(wires.len(), 1);
    assert_eq!(*wires[0], WireCommand::SendByte(0x03));
}

#[test]
fn control_byte_table() {
    assert_eq!(control_byte('C'), Some(0x03));
    assert_eq!(control_byte('c'), Some(0x03));
    assert_eq!(control_byte('Z'), Some(0x1a));
    assert_eq!(control_byte('A'), Some(0x01));
    assert_eq!(control_byte('1'), None);
    assert_eq!(control_byte('['), None);
    assert_eq!(control_byte(' '), None);
}

#[test]
fn bad_control_char_is_fatal() {
    let sm = build(
        vec![file(
            "base",
            vec![
                (
                    "Init",
                    state(vec![tr(
                        Trigger::Immediate,
                        "EndJob",
                        vec![Action::SendControl { char_: '!' }],
                    )]),
                ),
                ("EndJob", state(vec![])),
            ],
        )],
        vec![],
    )
    .unwrap();
    let mut rt = JobRuntime::new(sm, "p1", vec![]);
    rt.reset(0);
    let e = rt.step_event(&StepEvent::Immediate, 1).unwrap_err();
    assert_eq!(e, StepError::Action(ActionError::BadControlChar('!')));
    assert!(rt.data.fatal);
    assert_eq!(rt.data.get_status(2), JobStatus::Fatal);
}

#[test]
fn builder_rejects_missing_states_and_unknown_names() {
    let r = build(
        vec![file("base", vec![("EndJob", state(vec![]))])],
        vec![],
    );
    assert_eq!(r.unwrap_err(), BuildError::MissingInit);

    let r = build(vec![file("base", vec![("Init", state(vec![]))])], vec![]);
    assert_eq!(r.unwrap_err(), BuildError::MissingEndJob);

    let r = build(
        vec![file(
            "base",
            vec![
                ("Init", state(vec![tr(lit("x"), "Nowhere", vec![])])),
                ("EndJob", state(vec![])),
            ],
        )],
        vec![],
    );
    assert_eq!(r.unwrap_err(), BuildError::UnknownTarget("Nowhere".to_string()));

    let r = build(
        vec![file(
            "base",
            vec![
                (
                    "Init",
                    state(vec![tr(
                        Trigger::Immediate,
                        "EndJob",
                        vec![Action::Repeat {
                            actions: vec![Action::Function {
                                func: "record_serial".to_string(),
                            }],
                            times: 2,
                        }],
                    )]),
                ),
                ("EndJob", state(vec![])),
            ],
        )],
        vec![],
    );
    assert_eq!(
        r.unwrap_err(),
        BuildError::UnknownFunction("record_serial".to_string())
    );

    let r = build(
        vec![file(
            "base",
            vec![
                (
                    "Init",
                    state(vec![tr(
                        Trigger::Immediate,
                        "EndJob",
                        vec![Action::Function {
                            func: "record_serial".to_string(),
                        }],
                    )]),
                ),
                ("EndJob", state(vec![])),
            ],
        )],
        vec!["record_serial"],
    );
    assert!(r.is_ok());
}

#[test]
fn later_files_override_states_of_the_same_name() {
    let sm = build(
        vec![
            file(
                "first",
                vec![
                    ("Init", state(vec![tr(Trigger::Immediate, "EndJob", vec![])])),
                    ("EndJob", state(vec![])),
                ],
            ),
            file(
                "second",
                vec![(
                    "Init",
                    state(vec![tr(
                        Trigger::Immediate,
                        "EndJob",
                        vec![Action::Send {
                            text: "override".to_string(),
                        }],
                    )]),
                )],
            ),
        ],
        vec![],
    )
    .unwrap();
    assert_eq!(sm.states.len(), 2);
    let mut rt = JobRuntime::new(sm, "p1", vec![]);
    rt.reset(0);
    let effects = rt.step_event(&StepEvent::Immediate, 1).unwrap();
    let wires = wires_of(&effects);
    assert_eq!(*wires[0], WireCommand::SendText("override".to_string()));
}

#[test]
fn duration_grammar() {
    assert_eq!(parse_duration("5s"), Some(5000));
    assert_eq!(parse_duration("100ms"), Some(100));
    assert_eq!(parse_duration("2m"), Some(120000));
    assert_eq!(parse_duration("1h"), Some(3600000));
    assert_eq!(parse_duration("0ms"), Some(0));
    assert_eq!(parse_duration("5"), None);
    assert_eq!(parse_duration("s"), None);
    assert_eq!(parse_duration("5x"), None);
    assert_eq!(parse_duration(""), None);
    assert_eq!(parse_duration("99999999999999999999999h"), None);
}

#[test]
fn reset_is_idempotent_and_announces_the_start() {
    // One reset and two resets in a row leave the same record.
    let sm = build(
        vec![file(
            "base",
            vec![
                ("Init", state(vec![tr(Trigger::Immediate, "Init", vec![])])),
                ("EndJob", state(vec![])),
            ],
        )],
        vec![],
    )
    .unwrap();
    let mut rt = JobRuntime::new(sm, "p1", vec![]);
    let effects = rt.reset(500);
    assert_eq!(effects.len(), 2);
    assert!(matches!(effects[0], Effect::Update(JobUpdate::JobStart(500))));
    let once = rt.data.clone();
    rt.step_event(&StepEvent::Immediate, 600).unwrap();
    rt.reset(500);
    rt.reset(500);
    assert_eq!(rt.data, once);
    assert_eq!(rt.current, "Init".to_string());
}

#[test]
fn restart_request_defers_while_busy() {
    let sm = build(
        vec![file(
            "base",
            vec![
                ("Init", state(vec![])),
                ("EndJob", state(vec![])),
            ],
        )],
        vec![],
    )
    .unwrap();
    let mut rt = JobRuntime::new(sm, "p1", vec![]);
    // Never started: idle, restart may happen at once.
    assert_eq!(rt.flag_restart(0), RestartDecision::RestartNow);
    rt.reset(1000);
    // Freshly started: busy, the request is deferred.
    assert_eq!(rt.flag_restart(1500), RestartDecision::Deferred);
    assert!(!rt.should_restart(1500));
    // Once the job finishes, the deferred request may fire.
    rt.data.update(JobUpdate::JobEnd(2000));
    assert!(rt.should_restart(2500));
}

#[test]
fn send_config_value_sends_only_known_keys() {
    let sm = build(
        vec![file(
            "base",
            vec![
                (
                    "Init",
                    state(vec![tr(
                        Trigger::Immediate,
                        "EndJob",
                        vec![
                            Action::SendConfigValue {
                                key: "hostname".to_string(),
                            },
                            Action::SendConfigValue {
                                key: "missing".to_string(),
                            },
                        ],
                    )]),
                ),
                ("EndJob", state(vec![])),
            ],
        )],
        vec![],
    )
    .unwrap();
    let cfg = vec![("hostname".to_string(), "sw-17".to_string())];
    let mut rt = JobRuntime::new(sm, "p1", cfg);
    rt.reset(0);
    assert_eq!(rt.get_job_config_key("hostname"), Some("sw-17".to_string()));
    assert_eq!(rt.get_job_config_key("missing"), None);
    let effects = rt.step_event(&StepEvent::Immediate, 1).unwrap();
    let wires = wires_of(&effects);
    assert_eq!(wires.len(), 1);
    assert_eq!(*wires[0], WireCommand::SendText("sw-17".to_string()));
}

#[test]
fn zero_repeat_and_zero_delay() {
    let sm = build(
        vec![file(
            "base",
            vec![
                (
                    "Init",
                    state(vec![tr(
                        Trigger::Immediate,
                        "EndJob",
                        vec![
                            Action::Repeat {
                                actions: vec![Action::Flush],
                                times: 0,
                            },
                            Action::Delay { millis: 0 },
                            Action::Repeat {
                                actions: vec![Action::Flush],
                                times: 3,
                            },
                        ],
                    )]),
                ),
                ("EndJob", state(vec![])),
            ],
        )],
        vec![],
    )
    .unwrap();
    let mut rt = JobRuntime::new(sm, "p1", vec![]);
    rt.reset(0);
    let effects = rt.step_event(&StepEvent::Immediate, 1).unwrap();
    let wires = wires_of(&effects);
    assert_eq!(wires.len(), 4);
    assert_eq!(*wires[0], WireCommand::Sleep(0));
    assert_eq!(*wires[1], WireCommand::Flush);
    assert_eq!(*wires[2], WireCommand::Flush);
    assert_eq!(*wires[3], WireCommand::Flush);
}

#[test]
fn finish_job_and_device_info_actions() {
    let sm = build(
        vec![file(
            "base",
            vec![
                (
                    "Init",
                    state(vec![tr(
                        Trigger::Immediate,
                        "EndJob",
                        vec![
                            Action::AddDeviceInfo(DeviceInfoArg::WithArgument(
                                DeviceInformation::Vendor("AcmeNet".to_string()),
                            )),
                            Action::FinishJob,
                        ],
                    )]),
                ),
                ("EndJob", state(vec![])),
            ],
        )],
        vec![],
    )
    .unwrap();
    let mut rt = JobRuntime::new(sm, "p1", vec![]);
    rt.reset(0);
    let effects = rt.step_event(&StepEvent::Immediate, 9).unwrap();
    let ups = updates_of(&effects);
    assert_eq!(
        *ups[1],
        JobUpdate::JobNewInfoItem(DeviceInformation::Vendor("AcmeNet".to_string()))
    );
    assert_eq!(*ups[2], JobUpdate::JobEnd(9));
    assert_eq!(rt.data.job_ended, Some(9));
    assert_eq!(rt.data.get_status(10), JobStatus::FinishSuccess);
}

#[test]
fn unmatched_event_is_ambiguous_and_fatal() {
    let sm = build(
        vec![file(
            "base",
            vec![
                ("Init", state(vec![tr(lit("prompt"), "EndJob", vec![])])),
                ("EndJob", state(vec![])),
            ],
        )],
        vec![],
    )
    .unwrap();
    let mut rt = JobRuntime::new(sm, "p1", vec![]);
    rt.reset(0);
    let e = rt
        .step_event(
            &StepEvent::Matched {
                data: b"junk".to_vec(),
                matched: b"junk".to_vec(),
            },
            1,
        )
        .unwrap_err();
    assert_eq!(e, StepError::TransitionAmbiguity);
    assert!(rt.data.fatal);
}

#[test]
fn timeout_trigger_plans_a_deadline_and_fires() {
    let sm = build(
        vec![file(
            "base",
            vec![
                (
                    "Init",
                    state(vec![
                        tr(lit("never"), "EndJob", vec![]),
                        tr(Trigger::Timeout(1500), "EndJob", vec![]),
                    ]),
                ),
                ("EndJob", state(vec![])),
            ],
        )],
        vec![],
    )
    .unwrap();
    let mut rt = JobRuntime::new(sm, "p1", vec![]);
    rt.reset(0);
    assert_eq!(
        rt.plan().unwrap(),
        StepPlan::WaitInput {
            timeout: Some(1500)
        }
    );
    rt.step_event(&StepEvent::TimedOut, 2).unwrap();
    assert_eq!(rt.current, "EndJob".to_string());
}

#[test]
fn unknown_current_state_is_fatal() {
    let sm = build(
        vec![file(
            "base",
            vec![("Init", state(vec![])), ("EndJob", state(vec![]))],
        )],
        vec![],
    )
    .unwrap();
    let mut rt = JobRuntime::new(sm, "p1", vec![]);
    rt.current = "Nowhere".to_string();
    let e = rt.step_event(&StepEvent::Immediate, 1).unwrap_err();
    assert_eq!(e, StepError::UnknownState("Nowhere".to_string()));
    assert!(rt.data.fatal);
}
