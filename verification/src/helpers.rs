//! Presentation helpers the dashboard reads: device facts out of a
//! record, and the CSS color of a status.

use vstd::prelude::*;
use crate::devinfo::{DeviceInformation, InfoV};
use crate::job::{JobData, JobStatus};

verus! {

/// The first `Vendor` fact, if any.
pub open spec fn spec_first_vendor(items: Seq<InfoV>) -> Option<Seq<char>>
    decreases items.len(),
{
    if items.len() == 0 {
        None
    } else if items.first() matches InfoV::Vendor(v) {
        Some(items.first()->Vendor_0)
    } else {
        spec_first_vendor(items.drop_first())
    }
}

/// The first `Model` fact, if any.
pub open spec fn spec_first_model(items: Seq<InfoV>) -> Option<Seq<char>>
    decreases items.len(),
{
    if items.len() == 0 {
        None
    } else if items.first() matches InfoV::Model(v) {
        Some(items.first()->Model_0)
    } else {
        spec_first_model(items.drop_first())
    }
}

/// The first `SerialNumber` fact, if any.
pub open spec fn spec_first_sn(items: Seq<InfoV>) -> Option<Seq<char>>
    decreases items.len(),
{
    if items.len() == 0 {
        None
    } else if items.first() matches InfoV::SerialNumber(v) {
        Some(items.first()->SerialNumber_0)
    } else {
        spec_first_sn(items.drop_first())
    }
}

/// The device's vendor, or `UNKN` when none was recorded.
#[verifier::loop_isolation(false)]
pub fn get_dev_manuf(port: &JobData) -> (r: String)
    ensures
        r@ == match spec_first_vendor(port@.info_items) {
            Some(v) => v,
            None => "UNKN"@,
        },
{
    proof {
        assert(port@.info_items.skip(0) =~= port@.info_items);
    }
    let n = port.info_items.len();
    for i in 0..n
        invariant
            n == port.info_items@.len(),
            spec_first_vendor(port@.info_items) == spec_first_vendor(
                port@.info_items.skip(i as int),
            ),
    {
        proof {
            assert(port@.info_items.skip(i as int).first() == port@.info_items[i as int]);
            assert(port@.info_items[i as int] == port.info_items@[i as int]@);
            assert(port@.info_items.skip(i as int).drop_first() =~= port@.info_items.skip(
                i as int + 1,
            ));
        }
        match &port.info_items[i] {
            DeviceInformation::Vendor(v) => {
                return v.clone();
            },
            _ => {},
        }
    }
    proof {
        assert(port@.info_items.skip(n as int) =~= Seq::<InfoV>::empty());
    }
    String::from_str("UNKN")
}

/// The device's model, or `UNKN` when none was recorded.
#[verifier::loop_isolation(false)]
pub fn get_dev_model(port: &JobData) -> (r: String)
    ensures
        r@ == match spec_first_model(port@.info_items) {
            Some(v) => v,
            None => "UNKN"@,
        },
{
    proof {
        assert(port@.info_items.skip(0) =~= port@.info_items);
    }
    let n = port.info_items.len();
    for i in 0..n
        invariant
            n == port.info_items@.len(),
            spec_first_model(port@.info_items) == spec_first_model(
                port@.info_items.skip(i as int),
            ),
    {
        proof {
            assert(port@.info_items.skip(i as int).first() == port@.info_items[i as int]);
            assert(port@.info_items[i as int] == port.info_items@[i as int]@);
            assert(port@.info_items.skip(i as int).drop_first() =~= port@.info_items.skip(
                i as int + 1,
            ));
        }
        match &port.info_items[i] {
            DeviceInformation::Model(v) => {
                return v.clone();
            },
            _ => {},
        }
    }
    proof {
        assert(port@.info_items.skip(n as int) =~= Seq::<InfoV>::empty());
    }
    String::from_str("UNKN")
}

/// The device's serial number, or `UNKN` when none was recorded.
#[verifier::loop_isolation(false)]
pub fn get_dev_sn(port: &JobData) -> (r: String)
    ensures
        r@ == match spec_first_sn(port@.info_items) {
            Some(v) => v,
            None => "UNKN"@,
        },
{
    proof {
        assert(port@.info_items.skip(0) =~= port@.info_items);
    }
    let n = port.info_items.len();
    for i in 0..n
        invariant
            n == port.info_items@.len(),
            spec_first_sn(port@.info_items) == spec_first_sn(port@.info_items.skip(i as int)),
    {
        proof {
            assert(port@.info_items.skip(i as int).first() == port@.info_items[i as int]);
            assert(port@.info_items[i as int] == port.info_items@[i as int]@);
            assert(port@.info_items.skip(i as int).drop_first() =~= port@.info_items.skip(
                i as int + 1,
            ));
        }
        match &port.info_items[i] {
            DeviceInformation::SerialNumber(v) => {
                return v.clone();
            },
            _ => {},
        }
    }
    proof {
        assert(port@.info_items.skip(n as int) =~= Seq::<InfoV>::empty());
    }
    String::from_str("UNKN")
}

/// The dashboard's background color for each status.
pub open spec fn spec_css_backgroundcolor(s: JobStatus) -> Seq<char> {
    match s {
        JobStatus::Idle => "var(--primary-background)"@,
        JobStatus::FinishSuccess => "#00ff00"@,
        JobStatus::FinishWarning => "#ff9933"@,
        JobStatus::FinishError => "#ff0000"@,
        JobStatus::Busy => "#33bbff"@,
        JobStatus::RunningLong => "#bb33ff"@,
        JobStatus::Fatal => "#ff33dd"@,
    }
}

/// What a status looks like on the dashboard.
pub trait PortStatusExt {
    /// The status's background color, as CSS text.
    spec fn spec_backgroundcolor(&self) -> Seq<char>;

    fn get_css_backgroundcolor(&self) -> (r: String)
        ensures
            r@ == self.spec_backgroundcolor(),
    ;
}

impl PortStatusExt for JobStatus {
    open spec fn spec_backgroundcolor(&self) -> Seq<char> {
        spec_css_backgroundcolor(*self)
    }

    fn get_css_backgroundcolor(&self) -> (r: String) {
        match self {
            JobStatus::Idle => String::from_str("var(--primary-background)"),
            JobStatus::FinishSuccess => String::from_str("#00ff00"),
            JobStatus::FinishWarning => String::from_str("#ff9933"),
            JobStatus::FinishError => String::from_str("#ff0000"),
            JobStatus::Busy => String::from_str("#33bbff"),
            JobStatus::RunningLong => String::from_str("#bb33ff"),
            JobStatus::Fatal => String::from_str("#ff33dd"),
        }
    }
}

} // verus!
