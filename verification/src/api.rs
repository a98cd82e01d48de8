//! What the kernel and user programs agree on: system call numbers, error
//! codes, flag bits, and how a result travels in a register.
use vstd::prelude::*;

verus! {

/// The system calls, by number from 0.
#[derive(Copy, Clone, PartialEq, Eq, Structural, Debug)]
pub enum Syscall {
    Exit,
    Log,
    PhyMap,
    VirtMap,
    VirtUnmap,
    DownloadMoreRam,
}

impl Syscall {
    /// The number of the system call.
    pub open spec fn spec_number(self) -> u32 {
        match self {
            Syscall::Exit => 0,
            Syscall::Log => 1,
            Syscall::PhyMap => 2,
            Syscall::VirtMap => 3,
            Syscall::VirtUnmap => 4,
            Syscall::DownloadMoreRam => 5,
        }
    }

    /// The number of the system call.
    pub fn number(self) -> (r: u32)
        ensures
            r == self.spec_number(),
    {
        match self {
            Syscall::Exit => 0,
            Syscall::Log => 1,
            Syscall::PhyMap => 2,
            Syscall::VirtMap => 3,
            Syscall::VirtUnmap => 4,
            Syscall::DownloadMoreRam => 5,
        }
    }

    /// The system call with the number `number`, or the number back where
    /// there is none.
    pub fn try_from_primitive(number: u32) -> (r: Result<Syscall, u32>)
        ensures
            match r {
                Ok(s) => s.spec_number() == number,
                Err(n) => n == number && number > 5,
            },
    {
        match number {
            0 => Ok(Syscall::Exit),
            1 => Ok(Syscall::Log),
            2 => Ok(Syscall::PhyMap),
            3 => Ok(Syscall::VirtMap),
            4 => Ok(Syscall::VirtUnmap),
            5 => Ok(Syscall::DownloadMoreRam),
            _ => Err(number),
        }
    }
}

/// What a system call can fail with.
#[derive(Copy, Clone, PartialEq, Eq, Structural, Debug)]
pub enum KError {
    Unknown(i32),
    AlreadyExists,
    OOM,
}

/// First register value that reads as a negative number.
pub const RETURN_NEGATIVE: u64 = 0x8000_0000_0000_0000;

impl KError {
    /// The code of the error.
    pub open spec fn spec_code(self) -> i32 {
        match self {
            KError::Unknown(n) => n,
            KError::AlreadyExists => -1i32,
            KError::OOM => -2i32,
        }
    }

    /// The error with the code `n`.
    pub open spec fn spec_from_primitive(n: i32) -> KError {
        if n == -1 {
            KError::AlreadyExists
        } else if n == -2 {
            KError::OOM
        } else {
            KError::Unknown(n)
        }
    }

    /// The register value that carries the code `code`: the 64-bit two's
    /// complement of it.
    pub open spec fn spec_return_of(code: i32) -> u64 {
        if code < 0 {
            (0x1_0000_0000_0000_0000 + code) as u64
        } else {
            code as u64
        }
    }

    /// The code in the low 32 bits of the register value `x0`.
    pub open spec fn spec_code_of(x0: u64) -> i32 {
        let low = x0 as int % 0x1_0000_0000;
        if low >= 0x8000_0000 {
            (low - 0x1_0000_0000) as i32
        } else {
            low as i32
        }
    }

    /// The error with the code `n`: every code stands for an error.
    pub fn from_primitive(n: i32) -> (r: KError)
        ensures
            r == Self::spec_from_primitive(n),
    {
        if n == -1 {
            KError::AlreadyExists
        } else if n == -2 {
            KError::OOM
        } else {
            KError::Unknown(n)
        }
    }

    /// The code of the error.
    pub fn code(self) -> (r: i32)
        ensures
            r == self.spec_code(),
    {
        match self {
            KError::Unknown(n) => n,
            KError::AlreadyExists => -1,
            KError::OOM => -2,
        }
    }

    /// The register value that tells a user program of this error.
    pub fn to_return(self) -> (r: u64)
        ensures
            r == Self::spec_return_of(self.spec_code()),
    {
        let code = self.code();
        if code < 0 {
            let back: i64 = -(code as i64);
            0xffff_ffff_ffff_ffffu64 - (back as u64 - 1)
        } else {
            code as u64
        }
    }
}

/// The code of the error that a code stands for is that code, but for an
/// `Unknown` made by hand with the code of another error.
pub proof fn lemma_code_round_trip(n: i32)
    ensures
        KError::spec_from_primitive(n).spec_code() == n,
        KError::spec_code_of(KError::spec_return_of(n)) == n,
        n < 0 ==> KError::spec_return_of(n) >= RETURN_NEGATIVE,
{
}

/// What a system call gave back, read from its result register: a value,
/// or the error whose code is in the low 32 bits where the register reads
/// as a negative number.
pub fn from_return(x0: u64) -> (r: Result<u64, KError>)
    ensures
        x0 < RETURN_NEGATIVE ==> r == Ok::<u64, KError>(x0),
        x0 >= RETURN_NEGATIVE ==> r == Err::<u64, KError>(
            KError::spec_from_primitive(KError::spec_code_of(x0)),
        ),
{
    if x0 < RETURN_NEGATIVE {
        Ok(x0)
    } else {
        let low = x0 % 0x1_0000_0000;
        let code: i32 = if low >= 0x8000_0000 {
            (low as i64 - 0x1_0000_0000) as i32
        } else {
            low as i32
        };
        Err(KError::from_primitive(code))
    }
}

/// Flags of a mapping of physical memory.
#[derive(Copy, Clone, PartialEq, Eq, Structural, Debug)]
pub struct PhyMapFlags {
    pub bits: u64,
}

/// The mapping can be written to.
pub const PHY_MAP_READ_WRITE: u64 = 1;

/// The mapping is of device memory.
pub const PHY_MAP_DEVICE_MEM: u64 = 2;

/// All bits that are flags of a mapping of physical memory.
pub const PHY_MAP_ALL: u64 = 3;

impl PhyMapFlags {
    /// No flag.
    pub fn empty() -> (r: Self)
        ensures
            r.bits == 0,
    {
        PhyMapFlags { bits: 0 }
    }

    /// The raw bits.
    pub fn bits(&self) -> (r: u64)
        ensures
            r == self.bits,
    {
        self.bits
    }

    /// The flags with the raw bits `bits`, unless a bit is set that is no
    /// flag.
    pub fn from_bits(bits: u64) -> (r: Option<Self>)
        ensures
            bits & !PHY_MAP_ALL == 0 ==> r == Some(PhyMapFlags { bits }),
            bits & !PHY_MAP_ALL != 0 ==> r is None,
    {
        if bits & !PHY_MAP_ALL == 0 {
            Some(PhyMapFlags { bits })
        } else {
            None
        }
    }

    /// The flags among the raw bits `bits`; bits that are no flag are
    /// dropped.
    pub fn from_bits_truncate(bits: u64) -> (r: Self)
        ensures
            r.bits == bits & PHY_MAP_ALL,
    {
        PhyMapFlags { bits: bits & PHY_MAP_ALL }
    }

    /// Whether every flag of `other` is set.
    pub open spec fn spec_contains(&self, other: u64) -> bool {
        self.bits & other == other
    }

    /// Whether every flag of `other` is set.
    pub fn contains(&self, other: u64) -> (r: bool)
        ensures
            r == self.spec_contains(other),
    {
        self.bits & other == other
    }
}

/// Flags of a mapping of fresh memory.
#[derive(Copy, Clone, PartialEq, Eq, Structural, Debug)]
pub struct VirtMapFlags {
    pub bits: u64,
}

/// The mapping can be written to.
pub const VIRT_MAP_READ_WRITE: u64 = 1;

/// All bits that are flags of a mapping of fresh memory.
pub const VIRT_MAP_ALL: u64 = 1;

impl VirtMapFlags {
    /// No flag.
    pub fn empty() -> (r: Self)
        ensures
            r.bits == 0,
    {
        VirtMapFlags { bits: 0 }
    }

    /// The raw bits.
    pub fn bits(&self) -> (r: u64)
        ensures
            r == self.bits,
    {
        self.bits
    }

    /// The flags with the raw bits `bits`, unless a bit is set that is no
    /// flag.
    pub fn from_bits(bits: u64) -> (r: Option<Self>)
        ensures
            bits & !VIRT_MAP_ALL == 0 ==> r == Some(VirtMapFlags { bits }),
            bits & !VIRT_MAP_ALL != 0 ==> r is None,
    {
        if bits & !VIRT_MAP_ALL == 0 {
            Some(VirtMapFlags { bits })
        } else {
            None
        }
    }

    /// The flags among the raw bits `bits`; bits that are no flag are
    /// dropped.
    pub fn from_bits_truncate(bits: u64) -> (r: Self)
        ensures
            r.bits == bits & VIRT_MAP_ALL,
    {
        VirtMapFlags { bits: bits & VIRT_MAP_ALL }
    }

    /// Whether every flag of `other` is set.
    pub open spec fn spec_contains(&self, other: u64) -> bool {
        self.bits & other == other
    }

    /// Whether every flag of `other` is set.
    pub fn contains(&self, other: u64) -> (r: bool)
        ensures
            r == self.spec_contains(other),
    {
        self.bits & other == other
    }
}

} // verus!
