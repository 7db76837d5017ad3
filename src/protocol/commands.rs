//! Command opcodes: the low byte of a packet's `command` field.
use vstd::prelude::*;

verus! {

/// A peer announces that it is online.
pub const BR_ENTRY: u32 = 0x00000001;

/// A peer announces that it is leaving.
pub const BR_EXIT: u32 = 0x00000002;

/// A peer answers an entry announcement with its own presence.
pub const IPMSG_ANSENTRY: u32 = 0x00000003;

/// A peer changes to the absent state.
pub const IPMSG_BR_ABSENCE: u32 = 0x00000004;

/// A text message.
pub const MSG: u32 = 0x00000020;

/// A file transfer (not carried out by this library).
pub const FILE: u32 = 0x00000060;

} // verus!
