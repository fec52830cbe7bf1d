use vstd::prelude::*;

pub mod bindings;
pub mod bits;
pub mod button;
pub mod channel;
pub mod codec;
pub mod devices;
pub mod event;
pub mod report;
pub mod roundtrip;

pub use button::{Button, Op, PressType, Value};
pub use codec::{decode_action, encode_action, DecodeError};
pub use bindings::{Binding, BindingRegistry, Category, Entry, HardwareButton, PresetBinding, Profile};
pub use devices::DeviceInfo;
pub use event::{Event, Header, HpMouseEvents, ReadRes};

verus! {

/// Base signature of the vendor protocol; a report's packet kind is
/// `signature - HP_SIGNATURE`.
pub const HP_SIGNATURE: u16 = 0xCF3;

} // verus!
