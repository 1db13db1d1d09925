//! Typed facts recorded about the device a job is driving.

use vstd::prelude::*;

verus! {

/// A typed fact about the device, recorded by `AddDeviceInfo` actions and
/// reported to the broker as `JobNewInfoItem`.
#[derive(Debug, PartialEq, Eq)]
pub enum DeviceInformation {
    Vendor(String),
    Model(String),
    SerialNumber(String),
    LoopDetected,
    SuccessEnd,
    ErrorEnd,
}

/// Mathematical mirror of [`DeviceInformation`].
pub enum InfoV {
    Vendor(Seq<char>),
    Model(Seq<char>),
    SerialNumber(Seq<char>),
    LoopDetected,
    SuccessEnd,
    ErrorEnd,
}

impl View for DeviceInformation {
    type V = InfoV;

    open spec fn view(&self) -> InfoV {
        match self {
            DeviceInformation::Vendor(s) => InfoV::Vendor(s@),
            DeviceInformation::Model(s) => InfoV::Model(s@),
            DeviceInformation::SerialNumber(s) => InfoV::SerialNumber(s@),
            DeviceInformation::LoopDetected => InfoV::LoopDetected,
            DeviceInformation::SuccessEnd => InfoV::SuccessEnd,
            DeviceInformation::ErrorEnd => InfoV::ErrorEnd,
        }
    }
}

impl Clone for DeviceInformation {
    fn clone(&self) -> (r: Self)
        ensures
            r == *self,
    {
        match self {
            DeviceInformation::Vendor(s) => DeviceInformation::Vendor(s.clone()),
            DeviceInformation::Model(s) => DeviceInformation::Model(s.clone()),
            DeviceInformation::SerialNumber(s) => DeviceInformation::SerialNumber(s.clone()),
            DeviceInformation::LoopDetected => DeviceInformation::LoopDetected,
            DeviceInformation::SuccessEnd => DeviceInformation::SuccessEnd,
            DeviceInformation::ErrorEnd => DeviceInformation::ErrorEnd,
        }
    }
}

} // verus!
