//! Control inputs for an SDR client: the Icom RC-28 remote encoder's wire
//! format and the decisions its worker makes, the HID enumeration rules, and
//! the binding vocabulary that turns keys, knobs and MIDI into actions.

pub mod proto;
pub mod text;
pub mod rc28;
pub mod hid;
pub mod radio;
pub mod input;
pub mod runtime;
pub mod midi;
pub mod dispatch;
pub mod link;
pub mod editor;
pub mod resolve;
