//! Device identity as the core sees it: an immutable snapshot of a
//! device's name and negotiated format. Enumeration and opening of real
//! devices belong to the device backend outside this crate; the logic
//! here only chooses among and labels the snapshots it is handed.
use vstd::prelude::*;

verus! {

use vstd::string::StringExecFns;

/// Which directions a device can serve.
#[derive(Clone, Copy, Debug, PartialEq, Eq, Structural)]
pub enum DeviceDirection {
    /// Capture only.
    Input,
    /// Render only.
    Output,
    /// Both capture and render.
    Duplex,
}

/// An immutable snapshot of one audio device: identity and defaults,
/// never mutated by the core.
#[derive(Debug)]
pub struct AudioDevice {
    /// Human-readable device name.
    pub name: String,
    /// Direction capability.
    pub direction: DeviceDirection,
    /// Default sample rate in hertz.
    pub sample_rate_hz: u32,
    /// Default channel count.
    pub channels: u16,
}

impl AudioDevice {
    /// Copies the snapshot.
    pub fn duplicate(&self) -> (d: AudioDevice)
        ensures
            d == *self,
    {
        AudioDevice {
            name: self.name.clone(),
            direction: self.direction,
            sample_rate_hz: self.sample_rate_hz,
            channels: self.channels,
        }
    }
}

/// The device name to show: the reported name when there is one, a fixed
/// fallback label when the backend could not provide it.
pub fn device_name_or_default(reported: Option<String>) -> (r: String)
    ensures
        reported matches Some(n) ==> r == n,
        reported is None ==> r@ == "Unknown Device"@,
{
    match reported {
        Some(n) => n,
        None => String::from_str("Unknown Device"),
    }
}

/// Chooses the device to use from an enumeration: the first one, as the
/// default policy; yields nothing when no device is present.
pub fn select_device(devices: &Vec<AudioDevice>) -> (r: Option<&AudioDevice>)
    ensures
        r is Some <==> devices@.len() > 0,
        r matches Some(d) ==> *d == devices@[0],
{
    if devices.len() > 0 {
        Some(&devices[0])
    } else {
        None
    }
}

} // verus!
