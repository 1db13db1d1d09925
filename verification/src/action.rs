//! Actions attached to state-machine transitions, and their interpreter.
//!
//! Performing an action never touches the serial line or the broker
//! directly: the interpreter turns an action list into an ordered stream of
//! [`Effect`]s — wire commands for the serial side and telemetry updates
//! for the broker — which the caller carries out in order.

use vstd::prelude::*;
use crate::devinfo::{DeviceInformation, InfoV};
use crate::job::{JobData, JobDataV};
use crate::status::{JobUpdate, UpdateV};

verus! {

/// A device fact as it appears in a declarative state file: either bare or
/// wrapped in a `flag` key.
#[derive(Debug, PartialEq, Eq)]
pub enum DeviceInfoArg {
    WithArgument(DeviceInformation),
    WithoutArgument { flag: DeviceInformation },
}

impl DeviceInfoArg {
    /// The fact carried, whichever way it was written.
    pub open spec fn spec_info(self) -> DeviceInformation {
        match self {
            DeviceInfoArg::WithArgument(e) => e,
            DeviceInfoArg::WithoutArgument { flag: e } => e,
        }
    }
}

impl Clone for DeviceInfoArg {
    fn clone(&self) -> (r: Self)
        ensures
            r == *self,
    {
        match self {
            DeviceInfoArg::WithArgument(e) => DeviceInfoArg::WithArgument(e.clone()),
            DeviceInfoArg::WithoutArgument { flag: e } => DeviceInfoArg::WithoutArgument {
                flag: e.clone(),
            },
        }
    }
}

impl From<DeviceInfoArg> for DeviceInformation {
    fn from(value: DeviceInfoArg) -> (r: DeviceInformation) {
        match value {
            DeviceInfoArg::WithArgument(e) => e,
            DeviceInfoArg::WithoutArgument { flag: e } => e,
        }
    }
}

impl vstd::std_specs::convert::FromSpecImpl<DeviceInfoArg> for DeviceInformation {
    open spec fn obeys_from_spec() -> bool {
        true
    }

    open spec fn from_spec(t: DeviceInfoArg) -> Self {
        t.spec_info()
    }
}

/// One step of a transition's action list.
#[derive(Debug, PartialEq, Eq)]
pub enum Action {
    /// Write the text, no newline.
    Send { text: String },
    /// Flush the serial write side.
    Flush,
    /// Write the text followed by CR+LF.
    SendLine { line: String },
    /// Write the single control byte for an ASCII letter.
    SendControl { char_: char },
    /// Invoke a registered effect function by name.
    Function { func: String },
    /// Run the inner list `times` times in order.
    Repeat { actions: Vec<Action>, times: usize },
    /// Sleep the job's task for the given milliseconds.
    Delay { millis: u64 },
    /// Record a typed fact about the device.
    AddDeviceInfo(DeviceInfoArg),
    /// Mark job completion and emit `JobEnd`.
    FinishJob,
    /// Run the one-time per-job initialization side effects.
    SetupJob,
    /// Look a string up in the job's config map and send it; a missing key
    /// sends nothing.
    SendConfigValue { key: String },
}

/// A write-side or scheduling command handed to the serial owner.
#[derive(Debug, PartialEq, Eq)]
pub enum WireCommand {
    /// Write the text's bytes, no newline.
    SendText(String),
    /// Write the text's bytes followed by CR+LF.
    SendLine(String),
    /// Write this one byte.
    SendByte(u8),
    /// Flush the write side.
    Flush,
    /// Sleep for this many milliseconds.
    Sleep(u64),
    /// Invoke the named registered effect function.
    Invoke(String),
    /// Run the one-time per-job initialization side effects.
    Setup,
}

/// Mathematical mirror of [`WireCommand`].
pub enum WireV {
    SendText(Seq<char>),
    SendLine(Seq<char>),
    SendByte(u8),
    Flush,
    Sleep(int),
    Invoke(Seq<char>),
    Setup,
}

impl View for WireCommand {
    type V = WireV;

    open spec fn view(&self) -> WireV {
        match self {
            WireCommand::SendText(s) => WireV::SendText(s@),
            WireCommand::SendLine(s) => WireV::SendLine(s@),
            WireCommand::SendByte(b) => WireV::SendByte(*b),
            WireCommand::Flush => WireV::Flush,
            WireCommand::Sleep(ms) => WireV::Sleep(*ms as int),
            WireCommand::Invoke(s) => WireV::Invoke(s@),
            WireCommand::Setup => WireV::Setup,
        }
    }
}

/// Everything performing actions can produce, in the order it must happen.
#[derive(Debug, PartialEq, Eq)]
pub enum Effect {
    Wire(WireCommand),
    Update(JobUpdate),
}

/// Mathematical mirror of [`Effect`].
pub enum EffectV {
    Wire(WireV),
    Update(UpdateV),
}

impl View for Effect {
    type V = EffectV;

    open spec fn view(&self) -> EffectV {
        match self {
            Effect::Wire(w) => EffectV::Wire(w@),
            Effect::Update(u) => EffectV::Update(u@),
        }
    }
}

/// Why performing an action list failed.
#[derive(Debug, PartialEq, Eq)]
pub enum ActionError {
    /// `SendControl` was given something other than an ASCII letter.
    BadControlChar(char),
}

/// The control byte sent for `SendControl(c)`: for an ASCII letter `c`,
/// the low five bits of its code (`'C'` gives `0x03`).
pub open spec fn spec_control_byte(c: char) -> u8 {
    (c as u8) & 0x1f
}

/// Whether `c` is an ASCII letter, the only characters `SendControl`
/// accepts.
pub open spec fn spec_is_ascii_letter(c: char) -> bool {
    ('a' <= c && c <= 'z') || ('A' <= c && c <= 'Z')
}

/// Maps a `SendControl` character to the byte put on the wire.
pub fn control_byte(c: char) -> (r: Option<u8>)
    ensures
        spec_is_ascii_letter(c) ==> r == Some(spec_control_byte(c)),
        !spec_is_ascii_letter(c) ==> r is None,
{
    if (c >= 'a' && c <= 'z') || (c >= 'A' && c <= 'Z') {
        Some((c as u8) & 0x1f)
    } else {
        None
    }
}

/// First value bound to `key` in a job-config map.
pub open spec fn spec_cfg_lookup(cfg: Seq<(Seq<char>, Seq<char>)>, key: Seq<char>) -> Option<
    Seq<char>,
>
    decreases cfg.len(),
{
    if cfg.len() == 0 {
        None
    } else if cfg.first().0 == key {
        Some(cfg.first().1)
    } else {
        spec_cfg_lookup(cfg.drop_first(), key)
    }
}

/// The view of a job-config map.
pub open spec fn cfg_view(cfg: Seq<(String, String)>) -> Seq<(Seq<char>, Seq<char>)> {
    cfg.map_values(|p: (String, String)| (p.0@, p.1@))
}

/// Size of one action, counting nested `Repeat` bodies; at least 1.
pub open spec fn act_size(a: Action) -> nat
    decreases a,
{
    match a {
        Action::Repeat { actions, times } => acts_size(actions@) + 2,
        _ => 1,
    }
}

/// Size of an action list: the sum of its members' sizes.
pub open spec fn acts_size(s: Seq<Action>) -> nat
    decreases s,
{
    if s.len() == 0 {
        0
    } else {
        act_size(s.first()) + acts_size(s.drop_first())
    }
}

/// Every action has size at least one.
pub proof fn lemma_act_size_pos(a: Action)
    ensures
        act_size(a) >= 1,
{
}

#[via_fn]
proof fn spec_run_list_decreases_proof(
    s: Seq<Action>,
    d: JobDataV,
    cfg: Seq<(Seq<char>, Seq<char>)>,
    now: int,
)
{
    if s.len() > 0 {
        lemma_act_size_pos(s.first());
    }
}

/// A member weighs no more than its list.
pub proof fn lemma_acts_size_member(s: Seq<Action>, i: int)
    requires
        0 <= i < s.len(),
    ensures
        act_size(s[i]) <= acts_size(s),
    decreases s.len(),
{
    if i == 0 {
    } else {
        lemma_acts_size_member(s.drop_first(), i - 1);
    }
}

/// What performing one action does: the record afterwards and the effects
/// emitted, or the offending character of a bad `SendControl`.
pub open spec fn spec_run_one(
    a: Action,
    d: JobDataV,
    cfg: Seq<(Seq<char>, Seq<char>)>,
    now: int,
) -> Result<(JobDataV, Seq<EffectV>), char>
    decreases act_size(a), 0nat,
{
    match a {
        Action::Send { text } => Ok((d, seq![EffectV::Wire(WireV::SendText(text@))])),
        Action::Flush => Ok((d, seq![EffectV::Wire(WireV::Flush)])),
        Action::SendLine { line } => Ok((d, seq![EffectV::Wire(WireV::SendLine(line@))])),
        Action::SendControl { char_ } => if spec_is_ascii_letter(char_) {
            Ok((d, seq![EffectV::Wire(WireV::SendByte(spec_control_byte(char_)))]))
        } else {
            Err(char_)
        },
        Action::Function { func } => Ok((d, seq![EffectV::Wire(WireV::Invoke(func@))])),
        Action::Repeat { actions, times } => spec_run_repeat(actions@, times as nat, d, cfg, now),
        Action::Delay { millis } => Ok((d, seq![EffectV::Wire(WireV::Sleep(millis as int))])),
        Action::AddDeviceInfo(arg) => {
            let info = arg.spec_info();
            Ok(
                (
                    d.spec_update(UpdateV::JobNewInfoItem(info@)),
                    seq![EffectV::Update(UpdateV::JobNewInfoItem(info@))],
                ),
            )
        },
        Action::FinishJob => Ok(
            (d.spec_update(UpdateV::JobEnd(now)), seq![EffectV::Update(UpdateV::JobEnd(now))]),
        ),
        Action::SetupJob => Ok((d, seq![EffectV::Wire(WireV::Setup)])),
        Action::SendConfigValue { key } => match spec_cfg_lookup(cfg, key@) {
            Some(v) => Ok((d, seq![EffectV::Wire(WireV::SendText(v))])),
            None => Ok((d, Seq::empty())),
        },
    }
}

/// What performing a whole action list does, in order; the first failure
/// wins.
pub open spec fn spec_run_list(
    s: Seq<Action>,
    d: JobDataV,
    cfg: Seq<(Seq<char>, Seq<char>)>,
    now: int,
) -> Result<(JobDataV, Seq<EffectV>), char>
    decreases acts_size(s) + 1, 0nat,
    via spec_run_list_decreases_proof
{
    if s.len() == 0 {
        Ok((d, Seq::empty()))
    } else {
        match spec_run_one(s.first(), d, cfg, now) {
            Err(c) => Err(c),
            Ok((d1, eff1)) => match spec_run_list(s.drop_first(), d1, cfg, now) {
                Err(c) => Err(c),
                Ok((d2, eff2)) => Ok((d2, eff1 + eff2)),
            },
        }
    }
}

/// What `Repeat { actions, times }` does: the list, `times` times over.
pub open spec fn spec_run_repeat(
    s: Seq<Action>,
    times: nat,
    d: JobDataV,
    cfg: Seq<(Seq<char>, Seq<char>)>,
    now: int,
) -> Result<(JobDataV, Seq<EffectV>), char>
    decreases acts_size(s) + 1, times,
{
    if times == 0 {
        Ok((d, Seq::empty()))
    } else {
        match spec_run_list(s, d, cfg, now) {
            Err(c) => Err(c),
            Ok((d1, eff1)) => match spec_run_repeat(s, (times - 1) as nat, d1, cfg, now) {
                Err(c) => Err(c),
                Ok((d2, eff2)) => Ok((d2, eff1 + eff2)),
            },
        }
    }
}

/// Actions never touch the state history, the label or the start mark.
pub proof fn lemma_run_keeps_history(
    s: Seq<Action>,
    d: JobDataV,
    cfg: Seq<(Seq<char>, Seq<char>)>,
    now: int,
)
    ensures
        spec_run_list(s, d, cfg, now) matches Ok(r) ==> r.0.state_history == d.state_history
            && r.0.label == d.label && r.0.job_started == d.job_started,
    decreases acts_size(s) + 1, 0nat,
{
    if s.len() > 0 {
        lemma_run_one_keeps_history(s.first(), d, cfg, now);
        if let Ok((d1, _)) = spec_run_one(s.first(), d, cfg, now) {
            lemma_run_keeps_history(s.drop_first(), d1, cfg, now);
        }
    }
}

proof fn lemma_run_one_keeps_history(
    a: Action,
    d: JobDataV,
    cfg: Seq<(Seq<char>, Seq<char>)>,
    now: int,
)
    ensures
        spec_run_one(a, d, cfg, now) matches Ok(r) ==> r.0.state_history == d.state_history
            && r.0.label == d.label && r.0.job_started == d.job_started,
    decreases act_size(a), 0nat,
{
    match a {
        Action::Repeat { actions, times } => {
            lemma_run_repeat_keeps_history(actions@, times as nat, d, cfg, now);
        },
        _ => {},
    }
}

proof fn lemma_run_repeat_keeps_history(
    s: Seq<Action>,
    times: nat,
    d: JobDataV,
    cfg: Seq<(Seq<char>, Seq<char>)>,
    now: int,
)
    ensures
        spec_run_repeat(s, times, d, cfg, now) matches Ok(r) ==> r.0.state_history
            == d.state_history && r.0.label == d.label && r.0.job_started == d.job_started,
    decreases acts_size(s) + 1, times,
{
    if times > 0 {
        lemma_run_keeps_history(s, d, cfg, now);
        if let Ok((d1, _)) = spec_run_list(s, d, cfg, now) {
            lemma_run_repeat_keeps_history(s, (times - 1) as nat, d1, cfg, now);
        }
    }
}


/// The views of a list of emitted effects.
pub open spec fn effv(s: Seq<Effect>) -> Seq<EffectV> {
    s.map_values(|e: Effect| e@)
}

/// Looks `key` up in the job-config map: the first matching entry wins.
pub fn cfg_lookup<'a>(cfg: &'a Vec<(String, String)>, key: &str) -> (r: Option<&'a String>)
    ensures
        match r {
            Some(v) => spec_cfg_lookup(cfg_view(cfg@), key@) == Some(v@),
            None => spec_cfg_lookup(cfg_view(cfg@), key@) is None,
        },
{
    proof {
        assert(cfg@.skip(0) =~= cfg@);
    }
    let n = cfg.len();
    for i in 0..n
        invariant
            n == cfg@.len(),
            spec_cfg_lookup(cfg_view(cfg@), key@) == spec_cfg_lookup(
                cfg_view(cfg@.skip(i as int)),
                key@,
            ),
    {
        proof {
            assert(cfg_view(cfg@.skip(i as int)).first() == (cfg@[i as int].0@, cfg@[i as int].1@));
            assert(cfg_view(cfg@.skip(i as int)).drop_first() =~= cfg_view(
                cfg@.skip(i as int + 1),
            ));
        }
        if cfg[i].0 == String::from_str(key) {
            return Some(&cfg[i].1);
        }
    }
    proof {
        assert(cfg_view(cfg@.skip(n as int)) =~= Seq::empty());
    }
    None
}

/// Performs the tail of an action list starting at `i`: appends the
/// emitted effects to `out`, merges the telemetry they carry into `data`,
/// and fails on the first bad `SendControl` character, dropping the rest.
fn run_from(
    acts: &Vec<Action>,
    i: usize,
    data: &mut JobData,
    cfg: &Vec<(String, String)>,
    now: i64,
    out: &mut Vec<Effect>,
) -> (r: Result<(), ActionError>)
    requires
        i <= acts@.len(),
    ensures
        match r {
            Ok(()) => ({
                let res = spec_run_list(acts@.skip(i as int), old(data)@, cfg_view(cfg@), now as int);
                &&& res is Ok
                &&& final(data)@ == res->Ok_0.0
                &&& effv(final(out)@) == effv(old(out)@) + res->Ok_0.1
            }),
            Err(ActionError::BadControlChar(c)) => spec_run_list(
                acts@.skip(i as int),
                old(data)@,
                cfg_view(cfg@),
                now as int,
            ) == Err::<(JobDataV, Seq<EffectV>), char>(c),
        },
        final(data)@.state_history == old(data)@.state_history,
        final(data)@.label == old(data)@.label,
        final(data)@.job_started == old(data)@.job_started,
    decreases acts_size(acts@), acts@.len() - i,
{
    let ghost cfgv = cfg_view(cfg@);
    if i == acts.len() {
        proof {
            assert(acts@.skip(i as int) =~= Seq::<Action>::empty());
            assert(effv(out@) =~= effv(out@) + Seq::<EffectV>::empty());
        }
        return Ok(());
    }
    let ghost tailv = acts@.skip(i as int);
    proof {
        assert(tailv.first() == acts@[i as int]);
        assert(tailv.drop_first() =~= acts@.skip(i as int + 1));
    }
    let ghost pre_d = data@;
    let ghost pre_out = out@;
    match &acts[i] {
        Action::Send { text } => {
            out.push(Effect::Wire(WireCommand::SendText(text.clone())));
        },
        Action::Flush => {
            out.push(Effect::Wire(WireCommand::Flush));
        },
        Action::SendLine { line } => {
            out.push(Effect::Wire(WireCommand::SendLine(line.clone())));
        },
        Action::SendControl { char_ } => {
            match control_byte(*char_) {
                Some(b) => {
                    out.push(Effect::Wire(WireCommand::SendByte(b)));
                },
                None => {
                    return Err(ActionError::BadControlChar(*char_));
                },
            }
        },
        Action::Function { func } => {
            out.push(Effect::Wire(WireCommand::Invoke(func.clone())));
        },
        Action::Repeat { actions, times } => {
            proof {
                lemma_acts_size_member(acts@, i as int);
            }
            match run_repeat_exec(actions, *times, data, cfg, now, out) {
                Ok(()) => {},
                Err(e) => {
                    return Err(e);
                },
            }
        },
        Action::Delay { millis } => {
            out.push(Effect::Wire(WireCommand::Sleep(*millis)));
        },
        Action::AddDeviceInfo(arg) => {
            let info = DeviceInformation::from(arg.clone());
            let ghost iv = info@;
            data.info_items.push(info.clone());
            out.push(Effect::Update(JobUpdate::JobNewInfoItem(info)));
            proof {
                assert(data@.info_items =~= pre_d.spec_update(
                    UpdateV::JobNewInfoItem(iv),
                ).info_items);
                assert(data@.state_history =~= pre_d.state_history);
                assert(data@ == pre_d.spec_update(UpdateV::JobNewInfoItem(iv)));
            }
        },
        Action::FinishJob => {
            data.job_ended = Some(now);
            out.push(Effect::Update(JobUpdate::JobEnd(now)));
            proof {
                assert(data@.state_history =~= pre_d.state_history);
                assert(data@.info_items =~= pre_d.info_items);
                assert(data@ == pre_d.spec_update(UpdateV::JobEnd(now as int)));
            }
        },
        Action::SetupJob => {
            out.push(Effect::Wire(WireCommand::Setup));
        },
        Action::SendConfigValue { key } => {
            match cfg_lookup(cfg, key.as_str()) {
                Some(v) => {
                    out.push(Effect::Wire(WireCommand::SendText(v.clone())));
                },
                None => {},
            }
        },
    }
    let ghost step = spec_run_one(acts@[i as int], pre_d, cfgv, now as int);
    proof {
        assert(step is Ok);
        assert(data@ == step->Ok_0.0);
        assert(effv(out@) =~= effv(pre_out) + step->Ok_0.1);
    }
    let ghost mid_out = out@;
    let rec = run_from(acts, i + 1, data, cfg, now, out);
    match rec {
        Ok(()) => {
            proof {
                let rest = spec_run_list(acts@.skip(i as int + 1), step->Ok_0.0, cfgv, now as int);
                assert(effv(out@) =~= effv(pre_out) + (step->Ok_0.1 + rest->Ok_0.1));
            }
            Ok(())
        },
        Err(e) => Err(e),
    }
}

fn run_repeat_exec(
    inner: &Vec<Action>,
    times: usize,
    data: &mut JobData,
    cfg: &Vec<(String, String)>,
    now: i64,
    out: &mut Vec<Effect>,
) -> (r: Result<(), ActionError>)
    ensures
        match r {
            Ok(()) => ({
                let res = spec_run_repeat(inner@, times as nat, old(data)@, cfg_view(cfg@), now as int);
                &&& res is Ok
                &&& final(data)@ == res->Ok_0.0
                &&& effv(final(out)@) == effv(old(out)@) + res->Ok_0.1
            }),
            Err(ActionError::BadControlChar(c)) => spec_run_repeat(
                inner@,
                times as nat,
                old(data)@,
                cfg_view(cfg@),
                now as int,
            ) == Err::<(JobDataV, Seq<EffectV>), char>(c),
        },
        final(data)@.state_history == old(data)@.state_history,
        final(data)@.label == old(data)@.label,
        final(data)@.job_started == old(data)@.job_started,
    decreases acts_size(inner@) + 1, times,
{
    let ghost cfgv = cfg_view(cfg@);
    if times == 0 {
        proof {
            assert(effv(out@) =~= effv(out@) + Seq::<EffectV>::empty());
        }
        return Ok(());
    }
    let ghost pre_d = data@;
    let ghost pre_out = out@;
    match run_from(inner, 0, data, cfg, now, out) {
        Ok(()) => {},
        Err(e) => {
            proof {
                assert(inner@.skip(0) =~= inner@);
            }
            return Err(e);
        },
    }
    proof {
        assert(inner@.skip(0) =~= inner@);
    }
    let ghost step = spec_run_list(inner@, pre_d, cfgv, now as int);
    match run_repeat_exec(inner, times - 1, data, cfg, now, out) {
        Ok(()) => {
            proof {
                let rest = spec_run_repeat(inner@, (times - 1) as nat, step->Ok_0.0, cfgv, now as int);
                assert(effv(out@) =~= effv(pre_out) + (step->Ok_0.1 + rest->Ok_0.1));
            }
            Ok(())
        },
        Err(e) => Err(e),
    }
}

/// Performs an action list from the top. See [`run_from`] for what is
/// promised of the record, the effect stream and the error.
pub fn run_action_list(
    acts: &Vec<Action>,
    data: &mut JobData,
    cfg: &Vec<(String, String)>,
    now: i64,
    out: &mut Vec<Effect>,
) -> (r: Result<(), ActionError>)
    ensures
        match r {
            Ok(()) => ({
                let res = spec_run_list(acts@, old(data)@, cfg_view(cfg@), now as int);
                &&& res is Ok
                &&& final(data)@ == res->Ok_0.0
                &&& effv(final(out)@) == effv(old(out)@) + res->Ok_0.1
            }),
            Err(ActionError::BadControlChar(c)) => spec_run_list(
                acts@,
                old(data)@,
                cfg_view(cfg@),
                now as int,
            ) == Err::<(JobDataV, Seq<EffectV>), char>(c),
        },
        final(data)@.state_history == old(data)@.state_history,
        final(data)@.label == old(data)@.label,
        final(data)@.job_started == old(data)@.job_started,
{
    let r = run_from(acts, 0, data, cfg, now, out);
    proof {
        assert(acts@.skip(0) =~= acts@);
    }
    r
}

} // verus!
