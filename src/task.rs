use vstd::prelude::*;

verus! {

/// The known task identifiers. One of them is the CPU-intensive kind, whose
/// executions pass through the admission gate.
#[derive(Clone, Copy, Debug, PartialEq, Eq, Structural)]
pub enum TaskKind {
    CpuIntensive,
    Ordinary,
}

impl TaskKind {
    /// The numeric code of a kind on the wire.
    pub open spec fn spec_code(self) -> u8 {
        match self {
            TaskKind::CpuIntensive => 0,
            TaskKind::Ordinary => 1,
        }
    }

    /// The kind that a numeric code names, if any.
    pub open spec fn spec_from_u8(code: u8) -> Option<TaskKind> {
        if code == 0 {
            Some(TaskKind::CpuIntensive)
        } else if code == 1 {
            Some(TaskKind::Ordinary)
        } else {
            None
        }
    }

    pub fn from_u8(code: u8) -> (r: Option<TaskKind>)
        ensures
            r == Self::spec_from_u8(code),
            r matches Some(k) ==> k.spec_code() == code,
    {
        if code == 0 {
            Some(TaskKind::CpuIntensive)
        } else if code == 1 {
            Some(TaskKind::Ordinary)
        } else {
            None
        }
    }

    pub fn code(&self) -> (r: u8)
        ensures
            r == self.spec_code(),
            Self::spec_from_u8(r) == Some(*self),
    {
        match self {
            TaskKind::CpuIntensive => 0,
            TaskKind::Ordinary => 1,
        }
    }

    pub fn is_cpu_intensive(&self) -> (r: bool)
        ensures
            r == (*self == TaskKind::CpuIntensive),
    {
        match self {
            TaskKind::CpuIntensive => true,
            TaskKind::Ordinary => false,
        }
    }
}

} // verus!
