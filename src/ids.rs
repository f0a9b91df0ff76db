use vstd::prelude::*;

verus! {

/// Identifier of a guest thread within its process.
#[derive(Debug, Clone, Copy, PartialEq, Eq, Structural, PartialOrd, Ord, Hash)]
pub struct WasiThreadId(pub u32);

impl WasiThreadId {
    /// The raw 32-bit value of the identifier.
    pub fn raw(&self) -> (r: u32)
        ensures
            r == self.0,
    {
        self.0
    }

    /// Hands out the current value and advances the seed by one.
    pub fn inc(&mut self) -> (r: WasiThreadId)
        requires
            old(self).0 < u32::MAX,
        ensures
            r == *old(self),
            final(self).0 == old(self).0 + 1,
    {
        let ret = *self;
        self.0 = self.0 + 1;
        ret
    }

    /// Reinterprets a signed value as an identifier (two's complement).
    pub fn from_i32(id: i32) -> (r: WasiThreadId)
        ensures
            r.0 == id as u32,
    {
        WasiThreadId(id as u32)
    }

    /// Reinterprets the identifier as a signed value (two's complement).
    pub fn to_i32(&self) -> (r: i32)
        ensures
            r == self.0 as i32,
    {
        self.0 as i32
    }
}

impl Default for WasiThreadId {
    fn default() -> (r: WasiThreadId)
        ensures
            r.0 == 0,
    {
        WasiThreadId(0)
    }
}

impl From<u32> for WasiThreadId {
    fn from(id: u32) -> (r: WasiThreadId) {
        WasiThreadId(id)
    }
}

impl vstd::std_specs::convert::FromSpecImpl<u32> for WasiThreadId {
    open spec fn obeys_from_spec() -> bool {
        true
    }

    open spec fn from_spec(id: u32) -> WasiThreadId {
        WasiThreadId(id)
    }
}

/// Identifier of a guest process within the control plane.
#[derive(Debug, Clone, Copy, PartialEq, Eq, Structural, PartialOrd, Ord, Hash)]
pub struct WasiProcessId(pub u32);

impl WasiProcessId {
    /// The raw 32-bit value of the identifier.
    pub fn raw(&self) -> (r: u32)
        ensures
            r == self.0,
    {
        self.0
    }

    /// Reinterprets a signed value as an identifier (two's complement).
    pub fn from_i32(id: i32) -> (r: WasiProcessId)
        ensures
            r.0 == id as u32,
    {
        WasiProcessId(id as u32)
    }

    /// Reinterprets the identifier as a signed value (two's complement).
    pub fn to_i32(&self) -> (r: i32)
        ensures
            r == self.0 as i32,
    {
        self.0 as i32
    }
}

impl From<u32> for WasiProcessId {
    fn from(id: u32) -> (r: WasiProcessId) {
        WasiProcessId(id)
    }
}

impl vstd::std_specs::convert::FromSpecImpl<u32> for WasiProcessId {
    open spec fn obeys_from_spec() -> bool {
        true
    }

    open spec fn from_spec(id: u32) -> WasiProcessId {
        WasiProcessId(id)
    }
}

} // verus!
