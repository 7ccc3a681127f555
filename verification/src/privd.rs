//! Command kinds this project reserves in the privileged helper's
//! command envelope.
//!
//! The envelope's kinds are 32-bit numbers; the built-in kinds sit below
//! the consumer range, which starts at `0x8000_0000`. The kinds below are
//! allocated from that range so future privileged operations have a
//! stable namespace.

use vstd::prelude::*;

verus! {

/// Command kinds allocated to this project.
#[derive(Debug, Clone, Copy, PartialEq, Eq)]
pub struct PortcullisCommandKind;

/// First kind of the consumer range of the command envelope.
pub const CUSTOM_START: u32 = 0x8000_0000;

impl PortcullisCommandKind {
    /// First kind allocated to this project.
    pub const BASE: u32 = CUSTOM_START;
    /// Reserved: apply a serialized ruleset.
    pub const APPLY_RULESET: u32 = CUSTOM_START;
    /// Reserved: read dataplane state.
    pub const READ_STATE: u32 = CUSTOM_START + 1;
}

} // verus!
