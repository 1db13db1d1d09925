//! The port tracker: fuses presence edges and job telemetry into LED
//! colors and reset commands, one entry per configured port.

use vstd::prelude::*;
use crate::job::{JobData, JobDataV, JobStatus};
use crate::status::JobUpdate;

verus! {

/// A command the tracker issues while holding its lock: an LED write to a
/// board, or a `ResetJob` publish for a label.
#[derive(Debug, PartialEq, Eq)]
pub enum TrackerEffect {
    Led { board_sn: String, port_idx: u8, red: u8, green: u8, blue: u8 },
    PublishReset { label: String },
}

/// Mathematical mirror of [`TrackerEffect`].
pub enum TrackerEffectV {
    Led { board_sn: Seq<char>, port_idx: u8, red: u8, green: u8, blue: u8 },
    PublishReset { label: Seq<char> },
}

impl View for TrackerEffect {
    type V = TrackerEffectV;

    open spec fn view(&self) -> TrackerEffectV {
        match self {
            TrackerEffect::Led { board_sn, port_idx, red, green, blue } => TrackerEffectV::Led {
                board_sn: board_sn@,
                port_idx: *port_idx,
                red: *red,
                green: *green,
                blue: *blue,
            },
            TrackerEffect::PublishReset { label } => TrackerEffectV::PublishReset {
                label: label@,
            },
        }
    }
}

/// The views of a list of tracker effects.
pub open spec fn teffv(s: Seq<TrackerEffect>) -> Seq<TrackerEffectV> {
    s.map_values(|e: TrackerEffect| e@)
}

/// The LED color for a job status, from the status table.
pub open spec fn spec_status_color(s: JobStatus) -> (u8, u8, u8) {
    match s {
        JobStatus::Idle => (127u8, 127u8, 127u8),
        JobStatus::FinishSuccess => (0u8, 255u8, 0u8),
        JobStatus::FinishWarning => (0xffu8, 0x99u8, 0x33u8),
        JobStatus::FinishError => (255u8, 0u8, 0u8),
        JobStatus::Busy => (0u8, 0u8, 0xffu8),
        JobStatus::RunningLong => (0xbbu8, 0x33u8, 0xffu8),
        JobStatus::Fatal => (0xffu8, 0x33u8, 0xddu8),
    }
}

/// The color actually shown: the status color only when both the module
/// and the switch are present; magenta ("not ready") otherwise.
pub open spec fn spec_effective_color(
    s: JobStatus,
    module_present: Option<bool>,
    switch_present: Option<bool>,
) -> (u8, u8, u8) {
    if module_present == Some(true) && switch_present == Some(true) {
        spec_status_color(s)
    } else {
        (0xc7u8, 0x15u8, 0x85u8)
    }
}

/// The LED color for a job status.
pub fn status_color(s: JobStatus) -> (r: (u8, u8, u8))
    ensures
        r == spec_status_color(s),
{
    match s {
        JobStatus::Idle => (127, 127, 127),
        JobStatus::FinishSuccess => (0, 255, 0),
        JobStatus::FinishWarning => (0xff, 0x99, 0x33),
        JobStatus::FinishError => (255, 0, 0),
        JobStatus::Busy => (0, 0, 0xff),
        JobStatus::RunningLong => (0xbb, 0x33, 0xff),
        JobStatus::Fatal => (0xff, 0x33, 0xdd),
    }
}

/// One tracked port: its label, where it sits, its last job record and
/// last known presences.
#[derive(Debug)]
pub struct PortTrackerEntry {
    pub label: String,
    pub board_sn: String,
    pub port_idx: u8,
    pub data: JobData,
    pub module_present: Option<bool>,
    pub switch_present: Option<bool>,
}

/// Whether `post` is `pre` with the record and presences replaced.
pub open spec fn entry_stepped(
    post: PortTrackerEntry,
    pre: PortTrackerEntry,
    data: JobDataV,
    module_present: Option<bool>,
    switch_present: Option<bool>,
) -> bool {
    &&& post.label == pre.label
    &&& post.board_sn == pre.board_sn
    &&& post.port_idx == pre.port_idx
    &&& post.data@ == data
    &&& post.module_present == module_present
    &&& post.switch_present == switch_present
}

/// Whether the switch edge from `old_switch` to `new_switch` publishes a
/// reset: a known-absent switch became present while the module was
/// present throughout. A first observation never fires, and module edges
/// never fire by themselves.
pub open spec fn spec_reset_fires(
    old_switch: Option<bool>,
    new_switch: bool,
    module_present: Option<bool>,
) -> bool {
    old_switch == Some(false) && new_switch && module_present == Some(true)
}

impl PortTrackerEntry {
    /// The one LED write reflecting this entry at time `now`.
    pub open spec fn spec_led(self, now: int) -> TrackerEffectV {
        let c = spec_effective_color(
            self.data@.spec_status(now),
            self.module_present,
            self.switch_present,
        );
        TrackerEffectV::Led {
            board_sn: self.board_sn@,
            port_idx: self.port_idx,
            red: c.0,
            green: c.1,
            blue: c.2,
        }
    }

    /// Emits exactly one LED write, colored from the status table, or
    /// magenta while module or switch is missing.
    pub fn led_effect(&self, now: i64) -> (r: TrackerEffect)
        ensures
            r@ == self.spec_led(now as int),
    {
        let status = self.data.get_status(now);
        let (red, green, blue) = if matches!(self.module_present, Some(true)) && matches!(
            self.switch_present,
            Some(true),
        ) {
            status_color(status)
        } else {
            (0xc7, 0x15, 0x85)
        };
        TrackerEffect::Led {
            board_sn: self.board_sn.clone(),
            port_idx: self.port_idx,
            red,
            green,
            blue,
        }
    }

    /// Merges job telemetry, then refreshes the LED.
    pub fn mqtt_update(&mut self, u: JobUpdate, now: i64) -> (r: Vec<TrackerEffect>)
        ensures
            entry_stepped(
                *final(self),
                *old(self),
                old(self).data@.spec_update(u@),
                old(self).module_present,
                old(self).switch_present,
            ),
            teffv(r@) == seq![final(self).spec_led(now as int)],
    {
        self.data.update(u);
        let mut out: Vec<TrackerEffect> = Vec::new();
        out.push(self.led_effect(now));
        proof {
            assert(teffv(out@) =~= seq![self.spec_led(now as int)]);
        }
        out
    }

    /// Notes a module presence edge, then refreshes the LED. Never
    /// publishes a reset.
    pub fn module_presence_update(&mut self, v: bool, now: i64) -> (r: Vec<TrackerEffect>)
        ensures
            entry_stepped(
                *final(self),
                *old(self),
                old(self).data@,
                Some(v),
                old(self).switch_present,
            ),
            teffv(r@) == seq![final(self).spec_led(now as int)],
    {
        self.module_present = Some(v);
        let mut out: Vec<TrackerEffect> = Vec::new();
        out.push(self.led_effect(now));
        proof {
            assert(teffv(out@) =~= seq![self.spec_led(now as int)]);
        }
        out
    }

    /// Notes a switch presence edge, refreshes the LED, and publishes
    /// `ResetJob` exactly on a known-absent-to-present edge with the
    /// module present throughout.
    pub fn switch_presence_update(&mut self, v: bool, now: i64) -> (r: Vec<TrackerEffect>)
        ensures
            entry_stepped(
                *final(self),
                *old(self),
                old(self).data@,
                old(self).module_present,
                Some(v),
            ),
            spec_reset_fires(old(self).switch_present, v, old(self).module_present) ==> teffv(r@)
                =~= seq![
                final(self).spec_led(now as int),
                TrackerEffectV::PublishReset { label: old(self).label@ },
            ],
            !spec_reset_fires(old(self).switch_present, v, old(self).module_present) ==> teffv(r@)
                =~= seq![final(self).spec_led(now as int)],
    {
        let fires = matches!(self.switch_present, Some(false)) && v && matches!(
            self.module_present,
            Some(true),
        );
        self.switch_present = Some(v);
        let mut out: Vec<TrackerEffect> = Vec::new();
        out.push(self.led_effect(now));
        if fires {
            out.push(TrackerEffect::PublishReset { label: self.label.clone() });
            proof {
                assert(teffv(out@) =~= seq![
                    self.spec_led(now as int),
                    TrackerEffectV::PublishReset { label: old(self).label@ },
                ]);
            }
        } else {
            proof {
                assert(teffv(out@) =~= seq![self.spec_led(now as int)]);
            }
        }
        out
    }
}

/// The first entry with this label.
pub open spec fn spec_label_index(entries: Seq<PortTrackerEntry>, label: Seq<char>) -> Option<int>
    decreases entries.len(),
{
    if entries.len() == 0 {
        None
    } else if entries.first().label@ == label {
        Some(0)
    } else {
        match spec_label_index(entries.drop_first(), label) {
            Some(i) => Some(i + 1),
            None => None,
        }
    }
}

/// The first entry at this board serial and port index.
pub open spec fn spec_port_index(entries: Seq<PortTrackerEntry>, sn: Seq<char>, idx: u8) -> Option<
    int,
>
    decreases entries.len(),
{
    if entries.len() == 0 {
        None
    } else if entries.first().board_sn@ == sn && entries.first().port_idx == idx {
        Some(0)
    } else {
        match spec_port_index(entries.drop_first(), sn, idx) {
            Some(i) => Some(i + 1),
            None => None,
        }
    }
}

proof fn lemma_label_index(entries: Seq<PortTrackerEntry>, label: Seq<char>)
    ensures
        match spec_label_index(entries, label) {
            Some(i) => 0 <= i < entries.len() && entries[i].label@ == label && (forall|j: int|
                0 <= j < i ==> entries[j].label@ != label),
            None => forall|j: int| 0 <= j < entries.len() ==> entries[j].label@ != label,
        },
    decreases entries.len(),
{
    if entries.len() > 0 {
        lemma_label_index(entries.drop_first(), label);
        let rest = entries.drop_first();
        assert(forall|j: int| 0 <= j < rest.len() ==> #[trigger] rest[j] == entries[j + 1]);
        if entries.first().label@ != label {
            match spec_label_index(rest, label) {
                Some(i) => {
                    assert forall|j: int| 0 <= j < i + 1 implies entries[j].label@ != label by {
                        if j > 0 {
                            assert(rest[j - 1].label@ != label);
                        }
                    }
                },
                None => {
                    assert forall|j: int|
                        0 <= j < entries.len() implies entries[j].label@ != label by {
                        if j > 0 {
                            assert(rest[j - 1].label@ != label);
                        }
                    }
                },
            }
        }
    }
}

proof fn lemma_port_index(entries: Seq<PortTrackerEntry>, sn: Seq<char>, idx: u8)
    ensures
        match spec_port_index(entries, sn, idx) {
            Some(i) => 0 <= i < entries.len() && entries[i].board_sn@ == sn && entries[i].port_idx
                == idx && (forall|j: int|
                0 <= j < i ==> !(entries[j].board_sn@ == sn && entries[j].port_idx == idx)),
            None => forall|j: int|
                0 <= j < entries.len() ==> !(entries[j].board_sn@ == sn && entries[j].port_idx
                    == idx),
        },
    decreases entries.len(),
{
    if entries.len() > 0 {
        lemma_port_index(entries.drop_first(), sn, idx);
        let rest = entries.drop_first();
        assert(forall|j: int| 0 <= j < rest.len() ==> #[trigger] rest[j] == entries[j + 1]);
        if !(entries.first().board_sn@ == sn && entries.first().port_idx == idx) {
            match spec_port_index(rest, sn, idx) {
                Some(i) => {
                    assert forall|j: int|
                        0 <= j < i + 1 implies !(entries[j].board_sn@ == sn && entries[j].port_idx
                        == idx) by {
                        if j > 0 {
                            assert(!(rest[j - 1].board_sn@ == sn && rest[j - 1].port_idx == idx));
                        }
                    }
                },
                None => {
                    assert forall|j: int|
                        0 <= j < entries.len() implies !(entries[j].board_sn@ == sn
                        && entries[j].port_idx == idx) by {
                        if j > 0 {
                            assert(!(rest[j - 1].board_sn@ == sn && rest[j - 1].port_idx == idx));
                        }
                    }
                },
            }
        }
    }
}

/// The tracker: one entry per configured port, mutated under one
/// exclusive lock held by the caller.
#[derive(Debug)]
pub struct PortTracker {
    pub entries: Vec<PortTrackerEntry>,
}

impl PortTracker {
    /// The bijection invariant: labels are unique, and so are
    /// `(board serial, port index)` pairs.
    pub open spec fn wf(self) -> bool {
        &&& forall|i: int, j: int|
            0 <= i < j < self.entries@.len() ==> self.entries@[i].label@
                != self.entries@[j].label@
        &&& forall|i: int, j: int|
            0 <= i < j < self.entries@.len() ==> !(self.entries@[i].board_sn@
                == self.entries@[j].board_sn@ && self.entries@[i].port_idx
                == self.entries@[j].port_idx)
    }

    pub fn new() -> (r: PortTracker)
        ensures
            r.wf(),
            r.entries@ =~= Seq::<PortTrackerEntry>::empty(),
    {
        PortTracker { entries: Vec::new() }
    }

    /// Adds a port with a fresh record and unknown presences. Rejects a
    /// label or a `(board serial, port index)` pair already configured,
    /// keeping the bijection.
    #[verifier::loop_isolation(false)]
    pub fn add_port(&mut self, label: &str, port_idx: u8, board_sn: &str) -> (r: bool)
        requires
            old(self).wf(),
        ensures
            final(self).wf(),
            r == (spec_label_index(old(self).entries@, label@) is None && spec_port_index(
                old(self).entries@,
                board_sn@,
                port_idx,
            ) is None),
            r ==> final(self).entries@.len() == old(self).entries@.len() + 1 && (forall|j: int|
                0 <= j < old(self).entries@.len() ==> final(self).entries@[j] == old(
                    self,
                ).entries@[j]) && ({
                let e = final(self).entries@.last();
                e.label@ == label@ && e.board_sn@ == board_sn@ && e.port_idx == port_idx
                    && e.data@ == JobDataV::fresh(label@) && e.module_present is None
                    && e.switch_present is None
            }),
            !r ==> final(self).entries@ == old(self).entries@,
    {
        let n = self.entries.len();
        let mut label_free = true;
        let mut pair_free = true;
        for i in 0..n
            invariant
                label_free <==> (forall|j: int| 0 <= j < i ==> self.entries@[j].label@ != label@),
                pair_free <==> (forall|j: int|
                    0 <= j < i ==> !(self.entries@[j].board_sn@ == board_sn@
                        && self.entries@[j].port_idx == port_idx)),
        {
            if self.entries[i].label == String::from_str(label) {
                label_free = false;
            }
            if self.entries[i].board_sn == String::from_str(board_sn) && self.entries[i].port_idx
                == port_idx {
                pair_free = false;
            }
        }
        proof {
            lemma_label_index(self.entries@, label@);
            lemma_port_index(self.entries@, board_sn@, port_idx);
        }
        if !(label_free && pair_free) {
            return false;
        }
        let entry = PortTrackerEntry {
            label: label.to_owned(),
            board_sn: board_sn.to_owned(),
            port_idx,
            data: JobData::with_label(label),
            module_present: None,
            switch_present: None,
        };
        self.entries.push(entry);
        true
    }

    /// Merges job telemetry for `label`, if it is configured; effects are
    /// that entry's LED refresh, or nothing for an unknown label.
    #[verifier::loop_isolation(false)]
    pub fn mqtt_update(&mut self, label: &str, u: JobUpdate, now: i64) -> (r: Vec<TrackerEffect>)
        requires
            old(self).wf(),
        ensures
            final(self).wf(),
            ({
                match spec_label_index(old(self).entries@, label@) {
                    Some(i) => {
                        &&& final(self).entries@.len() == old(self).entries@.len()
                        &&& forall|j: int|
                            0 <= j < old(self).entries@.len() && j != i ==> final(self).entries@[j]
                                == old(self).entries@[j]
                        &&& entry_stepped(
                            final(self).entries@[i],
                            old(self).entries@[i],
                            old(self).entries@[i].data@.spec_update(u@),
                            old(self).entries@[i].module_present,
                            old(self).entries@[i].switch_present,
                        )
                        &&& teffv(r@) == seq![final(self).entries@[i].spec_led(now as int)]
                    },
                    None => final(self).entries@ == old(self).entries@ && r@.len() == 0,
                }
            }),
    {
        proof {
            lemma_label_index(self.entries@, label@);
        }
        let n = self.entries.len();
        for i in 0..n
            invariant
                n == self.entries@.len(),
                self.entries@ == old(self).entries@,
                forall|j: int| 0 <= j < i ==> self.entries@[j].label@ != label@,
        {
            if self.entries[i].label == String::from_str(label) {
                let effects = self.entries[i].mqtt_update(u, now);
                return effects;
            }
        }
        Vec::new()
    }

    /// Notes a module presence edge for the port at `(board_sn, port_idx)`
    /// if it is configured.
    #[verifier::loop_isolation(false)]
    pub fn serial_module_presence_update(
        &mut self,
        board_sn: &str,
        port_idx: u8,
        v: bool,
        now: i64,
    ) -> (r: Vec<TrackerEffect>)
        requires
            old(self).wf(),
        ensures
            final(self).wf(),
            ({
                match spec_port_index(old(self).entries@, board_sn@, port_idx) {
                    Some(i) => {
                        &&& final(self).entries@.len() == old(self).entries@.len()
                        &&& forall|j: int|
                            0 <= j < old(self).entries@.len() && j != i ==> final(self).entries@[j]
                                == old(self).entries@[j]
                        &&& entry_stepped(
                            final(self).entries@[i],
                            old(self).entries@[i],
                            old(self).entries@[i].data@,
                            Some(v),
                            old(self).entries@[i].switch_present,
                        )
                        &&& teffv(r@) == seq![final(self).entries@[i].spec_led(now as int)]
                    },
                    None => final(self).entries@ == old(self).entries@ && r@.len() == 0,
                }
            }),
    {
        proof {
            lemma_port_index(self.entries@, board_sn@, port_idx);
        }
        let n = self.entries.len();
        for i in 0..n
            invariant
                n == self.entries@.len(),
                self.entries@ == old(self).entries@,
                forall|j: int|
                    0 <= j < i ==> !(self.entries@[j].board_sn@ == board_sn@
                        && self.entries@[j].port_idx == port_idx),
        {
            if self.entries[i].board_sn == String::from_str(board_sn) && self.entries[i].port_idx
                == port_idx {
                let effects = self.entries[i].module_presence_update(v, now);
                return effects;
            }
        }
        Vec::new()
    }

    /// Notes a switch presence edge for the port at `(board_sn, port_idx)`
    /// if it is configured; publishes `ResetJob` exactly on a
    /// known-absent-to-present edge with the module present throughout.
    #[verifier::loop_isolation(false)]
    pub fn serial_switch_presence_update(
        &mut self,
        board_sn: &str,
        port_idx: u8,
        v: bool,
        now: i64,
    ) -> (r: Vec<TrackerEffect>)
        requires
            old(self).wf(),
        ensures
            final(self).wf(),
            ({
                match spec_port_index(old(self).entries@, board_sn@, port_idx) {
                    Some(i) => {
                        let pre = old(self).entries@[i];
                        &&& final(self).entries@.len() == old(self).entries@.len()
                        &&& forall|j: int|
                            0 <= j < old(self).entries@.len() && j != i ==> final(self).entries@[j]
                                == old(self).entries@[j]
                        &&& entry_stepped(
                            final(self).entries@[i],
                            pre,
                            pre.data@,
                            pre.module_present,
                            Some(v),
                        )
                        &&& (spec_reset_fires(pre.switch_present, v, pre.module_present)
                            ==> teffv(r@) =~= seq![
                            final(self).entries@[i].spec_led(now as int),
                            TrackerEffectV::PublishReset { label: pre.label@ },
                        ])
                        &&& (!spec_reset_fires(pre.switch_present, v, pre.module_present)
                            ==> teffv(r@) =~= seq![final(self).entries@[i].spec_led(now as int)])
                    },
                    None => final(self).entries@ == old(self).entries@ && r@.len() == 0,
                }
            }),
    {
        proof {
            lemma_port_index(self.entries@, board_sn@, port_idx);
        }
        let n = self.entries.len();
        for i in 0..n
            invariant
                n == self.entries@.len(),
                self.entries@ == old(self).entries@,
                forall|j: int|
                    0 <= j < i ==> !(self.entries@[j].board_sn@ == board_sn@
                        && self.entries@[j].port_idx == port_idx),
        {
            if self.entries[i].board_sn == String::from_str(board_sn) && self.entries[i].port_idx
                == port_idx {
                let effects = self.entries[i].switch_presence_update(v, now);
                return effects;
            }
        }
        Vec::new()
    }
}

} // verus!
