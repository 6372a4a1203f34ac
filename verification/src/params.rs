use vstd::prelude::*;

verus! {

/// Largest exploration constant accepted, in `SCALE` units (1024.0);
/// keeps every score term of the selection formula inside `u64`.
pub const CPUCT_MAX: u64 = 67108864;

/// Default exploration constant: the square root of two in `SCALE` units.
pub const DEFAULT_CPUCT: u64 = 92682;

/// Default policy softmax temperature: one in `SCALE` units.
pub const DEFAULT_PST: u64 = 65536;

/// Default root policy softmax temperature: four in `SCALE` units.
pub const DEFAULT_ROOT_PST: u64 = 262144;

/// Read-only configuration bundle: exploration constants and policy
/// softmax temperatures, all in `SCALE` units.
#[derive(Clone, Copy, Debug)]
pub struct MctsParams {
    pub cpuct: u64,
    pub root_cpuct: u64,
    pub pst: u64,
    pub root_pst: u64,
}

impl MctsParams {
    /// Configuration validity: exploration constants small enough that
    /// no selection score can overflow.
    pub open spec fn inv(self) -> bool {
        &&& self.cpuct <= CPUCT_MAX
        &&& self.root_cpuct <= CPUCT_MAX
    }

    pub fn new(cpuct: u64, root_cpuct: u64, pst: u64, root_pst: u64) -> (r: Self)
        requires
            cpuct <= CPUCT_MAX,
            root_cpuct <= CPUCT_MAX,
        ensures
            r == (MctsParams { cpuct, root_cpuct, pst, root_pst }),
            r.inv(),
    {
        MctsParams { cpuct, root_cpuct, pst, root_pst }
    }

    pub fn cpuct(&self) -> (r: u64)
        ensures
            r == self.cpuct,
    {
        self.cpuct
    }

    pub fn root_cpuct(&self) -> (r: u64)
        ensures
            r == self.root_cpuct,
    {
        self.root_cpuct
    }

    pub fn pst(&self) -> (r: u64)
        ensures
            r == self.pst,
    {
        self.pst
    }

    pub fn root_pst(&self) -> (r: u64)
        ensures
            r == self.root_pst,
    {
        self.root_pst
    }
}

impl Default for MctsParams {
    fn default() -> (r: Self)
        ensures
            r == (MctsParams {
                cpuct: DEFAULT_CPUCT,
                root_cpuct: DEFAULT_CPUCT,
                pst: DEFAULT_PST,
                root_pst: DEFAULT_ROOT_PST,
            }),
            r.inv(),
    {
        MctsParams {
            cpuct: DEFAULT_CPUCT,
            root_cpuct: DEFAULT_CPUCT,
            pst: DEFAULT_PST,
            root_pst: DEFAULT_ROOT_PST,
        }
    }
}

} // verus!
