//! Microphone listing and capture decisions.
use vstd::prelude::*;

use crate::text::same_text;

verus! {

/// An input device as the settings screen lists it.
#[derive(Debug, Clone)]
pub struct MicDevice {
    pub name: String,
    pub is_default: bool,
}

impl MicDevice {
    /// The listed device named `name`; it is the default one when its name is
    /// the default input device's name.
    pub fn new(name: String, default_name: &str) -> (d: MicDevice)
        ensures
            d.name@ == name@,
            d.is_default == (name@ == default_name@),
    {
        let is_default = same_text(name.as_str(), default_name);
        MicDevice { name, is_default }
    }
}

/// Whether the microphone setting asks for the system's default input device.
pub fn wants_default_device(mic_name: &str) -> (r: bool)
    ensures
        r == (mic_name@ == "default"@),
{
    same_text(mic_name, "default")
}

/// The message when the named microphone is not among the input devices.
pub fn microphone_not_found(mic_name: &str) -> (r: String)
    ensures
        r@ == "Microphone '"@ + mic_name@ + "' not found"@,
{
    let mut m = String::from_str("Microphone '");
    m.append(mic_name);
    m.append("' not found");
    m
}

/// How many samples pass between two level-meter updates: a tenth of a second.
pub fn level_interval(sample_rate: u32) -> (r: u32)
    ensures
        r == sample_rate / 10,
{
    sample_rate / 10
}

/// Whether a block of `block_len` samples, arriving after `before` samples
/// (counted modulo 2^32), crosses a multiple of `interval` and so should
/// update the level meter.
pub fn level_due(before: u32, block_len: u32, interval: u32) -> (r: bool)
    requires
        interval > 0,
    ensures
        r == (before % interval < block_len),
{
    before % interval < block_len
}

} // verus!
