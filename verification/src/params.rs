//! Plugin parameter metadata and the boolean parameter holder.

use vstd::prelude::*;

verus! {

/// Execution mode of a plugin, encoded in its descriptor.
#[derive(PartialEq, Eq, Structural, Clone, Copy)]
pub enum PluginMode {
    /// Processes audio in the playback path.
    Realtime,
    /// Processes whole files ahead of playback.
    Offline,
    /// Processes audio with parameters computed by a prior analysis.
    Analyzed,
}

/// Whether a flag is off; descriptors leave such flags out when serialized.
pub fn is_false(b: &bool) -> (r: bool)
    ensures
        r == !*b,
{
    !*b
}

/// Runtime holder of an on/off plugin parameter.
pub struct BoolParam {
    value: bool,
}

impl View for BoolParam {
    type V = bool;

    closed spec fn view(&self) -> bool {
        self.value
    }
}

impl BoolParam {
    /// A holder set to `default`.
    pub fn new(default: bool) -> (p: Self)
        ensures
            p@ == default,
    {
        BoolParam { value: default }
    }

    /// The current value.
    pub fn get_bool(&self) -> (b: bool)
        ensures
            b == self@,
    {
        self.value
    }

    /// Replaces the value (the numeric interface maps any non-zero number to
    /// `true` before calling this).
    pub fn set_bool(&mut self, v: bool)
        ensures
            final(self)@ == v,
    {
        self.value = v;
    }
}

} // verus!
