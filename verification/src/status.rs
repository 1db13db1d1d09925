//! Messages exchanged with the broker: job telemetry and commands.

use vstd::prelude::*;
use crate::devinfo::{DeviceInformation, InfoV};
use crate::job::{JobData, JobDataV};

verus! {

/// Telemetry published to `cthulhu/<label>/update`. Timestamps are
/// milliseconds on the broker's common clock.
#[derive(Debug, PartialEq, Eq)]
pub enum JobUpdate {
    JobStageTransition(i64, String),
    JobStart(i64),
    JobEnd(i64),
    JobNewInfoItem(DeviceInformation),
    JobFullData(JobData),
}

/// Mathematical mirror of [`JobUpdate`].
pub enum UpdateV {
    JobStageTransition(int, Seq<char>),
    JobStart(int),
    JobEnd(int),
    JobNewInfoItem(InfoV),
    JobFullData(JobDataV),
}

impl View for JobUpdate {
    type V = UpdateV;

    open spec fn view(&self) -> UpdateV {
        match self {
            JobUpdate::JobStageTransition(ts, name) => UpdateV::JobStageTransition(
                *ts as int,
                name@,
            ),
            JobUpdate::JobStart(ts) => UpdateV::JobStart(*ts as int),
            JobUpdate::JobEnd(ts) => UpdateV::JobEnd(*ts as int),
            JobUpdate::JobNewInfoItem(info) => UpdateV::JobNewInfoItem(info@),
            JobUpdate::JobFullData(d) => UpdateV::JobFullData(d@),
        }
    }
}

impl Clone for JobUpdate {
    fn clone(&self) -> (r: Self)
        ensures
            r@ == self@,
    {
        match self {
            JobUpdate::JobStageTransition(ts, name) => JobUpdate::JobStageTransition(
                *ts,
                name.clone(),
            ),
            JobUpdate::JobStart(ts) => JobUpdate::JobStart(*ts),
            JobUpdate::JobEnd(ts) => JobUpdate::JobEnd(*ts),
            JobUpdate::JobNewInfoItem(info) => JobUpdate::JobNewInfoItem(info.clone()),
            JobUpdate::JobFullData(d) => JobUpdate::JobFullData(d.clone()),
        }
    }
}

/// Commands accepted on `cthulhu/<label>/command`.
#[derive(Clone, Copy, Debug, PartialEq, Eq, Structural)]
pub enum JobCommand {
    ResetJob,
    RestartAngel,
    GetJobData,
}

} // verus!
