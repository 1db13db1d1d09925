//! Per-job telemetry: the data a job accumulates and the status derived
//! from it.

use vstd::prelude::*;
use crate::devinfo::{DeviceInformation, InfoV};
use crate::status::{JobUpdate, UpdateV};

verus! {

/// Threshold (milliseconds) after which a running job counts as
/// `RunningLong` rather than `Busy`.
pub const LONG_RUNNING_MS: i64 = 300000;

/// Status derived from `JobData` at query time; never stored.
#[derive(Clone, Copy, Debug, PartialEq, Eq, Structural)]
pub enum JobStatus {
    Idle,
    Busy,
    RunningLong,
    FinishSuccess,
    FinishWarning,
    FinishError,
    Fatal,
}

impl JobStatus {
    /// True for the statuses at which a restart request may terminate the
    /// process: the job is not in the middle of driving the switch.
    pub open spec fn spec_is_idle(self) -> bool {
        match self {
            JobStatus::Idle => true,
            JobStatus::FinishSuccess => true,
            JobStatus::FinishWarning => true,
            JobStatus::FinishError => true,
            _ => false,
        }
    }

    pub fn is_idle(&self) -> (r: bool)
        ensures
            r == self.spec_is_idle(),
    {
        match self {
            JobStatus::Idle => true,
            JobStatus::FinishSuccess => true,
            JobStatus::FinishWarning => true,
            JobStatus::FinishError => true,
            _ => false,
        }
    }
}

/// Everything a job records while it runs. Timestamps are milliseconds on
/// the broker's common clock. The current status is derived by
/// [`JobData::get_status`], not stored.
#[derive(Debug, PartialEq, Eq)]
pub struct JobData {
    pub label: String,
    pub job_started: Option<i64>,
    pub job_ended: Option<i64>,
    pub state_history: Vec<(i64, String)>,
    pub info_items: Vec<DeviceInformation>,
    pub fatal: bool,
}

/// Mathematical mirror of [`JobData`].
pub struct JobDataV {
    pub label: Seq<char>,
    pub job_started: Option<int>,
    pub job_ended: Option<int>,
    pub state_history: Seq<(int, Seq<char>)>,
    pub info_items: Seq<InfoV>,
    pub fatal: bool,
}

/// The view of a state history.
pub open spec fn hist_view(h: Seq<(i64, String)>) -> Seq<(int, Seq<char>)> {
    h.map_values(|e: (i64, String)| (e.0 as int, e.1@))
}

/// The view of a list of recorded facts.
pub open spec fn items_view(s: Seq<DeviceInformation>) -> Seq<InfoV> {
    s.map_values(|i: DeviceInformation| i@)
}

impl View for JobData {
    type V = JobDataV;

    open spec fn view(&self) -> JobDataV {
        JobDataV {
            label: self.label@,
            job_started: match self.job_started {
                Some(t) => Some(t as int),
                None => None,
            },
            job_ended: match self.job_ended {
                Some(t) => Some(t as int),
                None => None,
            },
            state_history: hist_view(self.state_history@),
            info_items: items_view(self.info_items@),
            fatal: self.fatal,
        }
    }
}

/// How often `name` occurs in a state history.
pub open spec fn spec_history_count(hist: Seq<(int, Seq<char>)>, name: Seq<char>) -> nat
    decreases hist.len(),
{
    if hist.len() == 0 {
        0
    } else {
        spec_history_count(hist.drop_last(), name) + if hist.last().1 == name {
            1nat
        } else {
            0nat
        }
    }
}

/// Whether the recorded info items contain `LoopDetected`.
pub open spec fn spec_has_loop_detected(items: Seq<InfoV>) -> bool {
    exists|i: int| 0 <= i < items.len() && items[i] is LoopDetected
}

/// Whether the recorded info items contain `ErrorEnd`.
pub open spec fn spec_has_error_end(items: Seq<InfoV>) -> bool {
    exists|i: int| 0 <= i < items.len() && items[i] is ErrorEnd
}

impl JobDataV {
    /// A record with nothing started and nothing recorded.
    pub open spec fn fresh(label: Seq<char>) -> JobDataV {
        JobDataV {
            label: label,
            job_started: None,
            job_ended: None,
            state_history: Seq::empty(),
            info_items: Seq::empty(),
            fatal: false,
        }
    }

    /// What `reset` leaves behind: the label survives, everything else is
    /// cleared.
    pub open spec fn spec_reset(self) -> JobDataV {
        JobDataV::fresh(self.label)
    }

    /// What applying one broker update does to a record.
    pub open spec fn spec_update(self, u: UpdateV) -> JobDataV {
        match u {
            UpdateV::JobStart(ts) => JobDataV {
                job_started: Some(ts),
                job_ended: None,
                state_history: Seq::empty(),
                info_items: Seq::empty(),
                fatal: false,
                ..self
            },
            UpdateV::JobStageTransition(ts, name) => JobDataV {
                state_history: self.state_history.push((ts, name)),
                ..self
            },
            UpdateV::JobEnd(ts) => JobDataV { job_ended: Some(ts), ..self },
            UpdateV::JobNewInfoItem(info) => JobDataV {
                info_items: self.info_items.push(info),
                ..self
            },
            UpdateV::JobFullData(d) => d,
        }
    }

    /// Whether the job has come to an end: an explicit `JobEnd` arrived, or
    /// the state machine reached `EndJob`.
    pub open spec fn spec_finished(self) -> bool {
        self.job_ended is Some || (self.state_history.len() > 0 && self.state_history.last().1
            == "EndJob"@)
    }

    /// The status derived from a record at time `now`: fatal errors first,
    /// then the finish kinds, then idleness, then how long the run has
    /// taken.
    pub open spec fn spec_status(self, now: int) -> JobStatus {
        if self.fatal {
            JobStatus::Fatal
        } else if self.spec_finished() {
            if spec_has_loop_detected(self.info_items) {
                JobStatus::FinishWarning
            } else if spec_has_error_end(self.info_items) {
                JobStatus::FinishError
            } else {
                JobStatus::FinishSuccess
            }
        } else if self.job_started is None {
            JobStatus::Idle
        } else if now - self.job_started->0 <= LONG_RUNNING_MS as int {
            JobStatus::Busy
        } else {
            JobStatus::RunningLong
        }
    }
}

impl JobData {
    pub fn with_label(label: &str) -> (r: JobData)
        ensures
            r@ == JobDataV::fresh(label@),
    {
        let r = JobData {
            label: label.to_owned(),
            job_started: None,
            job_ended: None,
            state_history: Vec::new(),
            info_items: Vec::new(),
            fatal: false,
        };
        proof {
            assert(r@.state_history =~= JobDataV::fresh(label@).state_history);
            assert(r@.info_items =~= JobDataV::fresh(label@).info_items);
        }
        r
    }

    /// Clears history, info items, start and end marks; keeps the label.
    pub fn reset(&mut self)
        ensures
            final(self)@ == old(self)@.spec_reset(),
    {
        self.job_started = None;
        self.job_ended = None;
        self.state_history = Vec::new();
        self.info_items = Vec::new();
        self.fatal = false;
        proof {
            assert(self@.state_history =~= old(self)@.spec_reset().state_history);
            assert(self@.info_items =~= old(self)@.spec_reset().info_items);
        }
    }

    /// Merges one broker update into this record: `JobStart` begins a fresh
    /// run, `JobStageTransition` and `JobNewInfoItem` append, `JobEnd`
    /// marks the end, `JobFullData` replaces the record.
    pub fn update(&mut self, u: JobUpdate)
        ensures
            final(self)@ == old(self)@.spec_update(u@),
    {
        let ghost pre = self@;
        let ghost uv = u@;
        match u {
            JobUpdate::JobStart(ts) => {
                self.job_started = Some(ts);
                self.job_ended = None;
                self.state_history = Vec::new();
                self.info_items = Vec::new();
                self.fatal = false;
                proof {
                    assert(self@.state_history =~= pre.spec_update(uv).state_history);
                    assert(self@.info_items =~= pre.spec_update(uv).info_items);
                }
            },
            JobUpdate::JobStageTransition(ts, name) => {
                let ghost namev = name@;
                self.state_history.push((ts, name));
                proof {
                    assert(self@.state_history =~= pre.spec_update(uv).state_history);
                }
            },
            JobUpdate::JobEnd(ts) => {
                self.job_ended = Some(ts);
            },
            JobUpdate::JobNewInfoItem(info) => {
                let ghost iv = info@;
                self.info_items.push(info);
                proof {
                    assert(self@.info_items =~= pre.spec_update(uv).info_items);
                }
            },
            JobUpdate::JobFullData(d) => {
                *self = d;
            },
        }
    }

    /// Whether the job has come to an end.
    pub fn is_finished(&self) -> (r: bool)
        ensures
            r == self@.spec_finished(),
    {
        if self.job_ended.is_some() {
            return true;
        }
        let n = self.state_history.len();
        if n == 0 {
            return false;
        }
        let last = &self.state_history[n - 1];
        let r = last.1 == String::from_str("EndJob");
        proof {
            assert(self@.state_history.last() == (last.0 as int, last.1@));
        }
        r
    }

    pub fn has_loop_detected(&self) -> (r: bool)
        ensures
            r == spec_has_loop_detected(self@.info_items),
    {
        let n = self.info_items.len();
        for i in 0..n
            invariant
                n == self.info_items@.len(),
                forall|j: int| 0 <= j < i ==> !(self@.info_items[j] is LoopDetected),
        {
            if matches!(&self.info_items[i], DeviceInformation::LoopDetected) {
                assert(self@.info_items[i as int] is LoopDetected);
                return true;
            }
        }
        false
    }

    pub fn has_error_end(&self) -> (r: bool)
        ensures
            r == spec_has_error_end(self@.info_items),
    {
        let n = self.info_items.len();
        for i in 0..n
            invariant
                n == self.info_items@.len(),
                forall|j: int| 0 <= j < i ==> !(self@.info_items[j] is ErrorEnd),
        {
            if matches!(&self.info_items[i], DeviceInformation::ErrorEnd) {
                assert(self@.info_items[i as int] is ErrorEnd);
                return true;
            }
        }
        false
    }

    /// Derives the job status at time `now` (milliseconds).
    pub fn get_status(&self, now: i64) -> (r: JobStatus)
        ensures
            r == self@.spec_status(now as int),
    {
        if self.fatal {
            return JobStatus::Fatal;
        }
        if self.is_finished() {
            if self.has_loop_detected() {
                return JobStatus::FinishWarning;
            }
            if self.has_error_end() {
                return JobStatus::FinishError;
            }
            return JobStatus::FinishSuccess;
        }
        match self.job_started {
            None => JobStatus::Idle,
            Some(started) => {
                if (now as i128) - (started as i128) <= LONG_RUNNING_MS as i128 {
                    JobStatus::Busy
                } else {
                    JobStatus::RunningLong
                }
            },
        }
    }
}

impl Clone for JobData {
    fn clone(&self) -> (r: Self)
        ensures
            r@ == self@,
    {
        let mut hist: Vec<(i64, String)> = Vec::new();
        let n = self.state_history.len();
        for i in 0..n
            invariant
                n == self.state_history@.len(),
                hist@ =~= self.state_history@.subrange(0, i as int),
        {
            let entry = &self.state_history[i];
            hist.push((entry.0, entry.1.clone()));
        }
        let mut items: Vec<DeviceInformation> = Vec::new();
        let m = self.info_items.len();
        for i in 0..m
            invariant
                m == self.info_items@.len(),
                items@ =~= self.info_items@.subrange(0, i as int),
        {
            items.push(self.info_items[i].clone());
        }
        let r = JobData {
            label: self.label.clone(),
            job_started: self.job_started,
            job_ended: self.job_ended,
            state_history: hist,
            info_items: items,
            fatal: self.fatal,
        };
        proof {
            assert(r.state_history@ =~= self.state_history@);
            assert(r.info_items@ =~= self.info_items@);
            assert(r@.state_history =~= self@.state_history);
            assert(r@.info_items =~= self@.info_items);
        }
        r
    }
}

/// Resetting is idempotent: a second `reset` right after a first leaves the
/// very record the first left.
pub proof fn lemma_reset_idempotent(d: JobDataV)
    ensures
        d.spec_reset().spec_reset() == d.spec_reset(),
{
}

} // verus!
