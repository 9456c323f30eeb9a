//! The system calls that an operation asks its host to make, and what comes back.
//!
//! Nothing in this crate enters the kernel. An operation names the call it needs as a [`SysCall`];
//! whoever drives the operation makes that call and hands the [`SysReply`] back. Flags and advice
//! are named, not numbered: their numbers differ from system to system, and go into the call where it
//! is made.

use libc::c_int;
use vstd::prelude::*;

verus! {

/// A file descriptor as the operating system numbers it.
pub type RawDescriptor = i32;

/// The descriptor that stands for no file.
pub const NO_DESCRIPTOR: RawDescriptor = -1;

/// The bit by which the seals of a file say that it cannot be written to. Only Linux has seals.
pub const F_SEAL_WRITE: usize = 0x8;

/// The number that a failed system call leaves behind.
#[derive(Clone, Copy, Debug, PartialEq, Eq, Structural)]
pub struct Errno(pub i32);

/// What a system call returned: the value of a call that succeeded, or the error number of one that
/// failed.
pub type SysReply = Result<usize, Errno>;

/// How `mmap` is to make a mapping.
#[derive(Clone, Copy, Debug, PartialEq, Eq, Structural)]
pub struct MapFlags {
    /// Writes reach the mapped file and every other process that maps it.
    pub shared: bool,
    /// Writes stay with this mapping.
    pub private: bool,
    /// The mapping goes exactly where the call says, over whatever was there.
    pub fixed: bool,
    /// No file is behind the mapping.
    pub anonymous: bool,
    /// No swap space is set aside for it.
    pub noreserve: bool,
    /// Its pages are faulted in at once.
    pub populate: bool,
}

/// What `madvise` is to tell the kernel of a range.
#[derive(Clone, Copy, Debug, PartialEq, Eq, Structural)]
pub enum Advice {
    /// Leave the range out of core dumps.
    DontDump,
    /// Pages with the same contents may be merged.
    Mergeable,
    /// A forked child does not get the range.
    DontFork,
    /// Back the range with huge pages.
    HugePage,
    /// Free the range and the storage behind it.
    Remove,
    /// The range will be read soon.
    WillNeed,
    /// The range is not needed for now.
    DontNeed,
    /// Any other advice, by its number.
    Other(c_int),
}

/// A system call, with its arguments.
#[derive(Clone, Copy, Debug, PartialEq, Eq, Structural)]
pub enum SysCall {
    /// `mmap`. An address of zero leaves the place to the kernel, a descriptor of -1 means no file.
    Mmap {
        addr: usize,
        len: usize,
        prot: c_int,
        flags: MapFlags,
        fd: RawDescriptor,
        offset: i64,
    },
    /// `munmap`.
    Munmap { addr: usize, len: usize },
    /// `madvise`.
    Madvise { addr: usize, len: usize, advice: Advice },
    /// `msync`, waiting for the writes to reach the file (`MS_SYNC`).
    Msync { addr: usize, len: usize },
    /// `mlock2`, locking each page once it is resident (`MLOCK_ONFAULT`).
    LockOnFault { addr: usize, len: usize },
    /// `munlock`.
    Unlock { addr: usize, len: usize },
    /// `fcntl` with `F_GET_SEALS`.
    GetSeals { fd: RawDescriptor },
    /// Duplicates a descriptor.
    Duplicate { fd: RawDescriptor },
}

/// `libc::PROT_READ`: the protection bit of readable pages is 1, on Linux and macOS.
#[verifier::external_body]
pub(crate) fn prot_read() -> (bit: c_int)
    ensures
        bit == 1,
{
    libc::PROT_READ
}

/// `libc::PROT_WRITE`: the protection bit of writable pages is 2, on Linux and macOS.
#[verifier::external_body]
pub(crate) fn prot_write() -> (bit: c_int)
    ensures
        bit == 2,
{
    libc::PROT_WRITE
}

/// `libc::PROT_NONE`: the protection of pages that cannot be touched is 0, on Linux and macOS.
#[verifier::external_body]
pub(crate) fn prot_none() -> (bits: c_int)
    ensures
        bits == 0,
{
    libc::PROT_NONE
}

impl MapFlags {
    /// No flag set.
    pub fn none() -> (flags: MapFlags)
        ensures
            flags == (MapFlags {
                shared: false,
                private: false,
                fixed: false,
                anonymous: false,
                noreserve: false,
                populate: false,
            }),
    {
        MapFlags {
            shared: false,
            private: false,
            fixed: false,
            anonymous: false,
            noreserve: false,
            populate: false,
        }
    }
}

/// Where no flag is set, none is: whatever is to be so has to be said.
pub proof fn law_no_flags(flags: MapFlags)
    requires
        call_ensures(MapFlags::none, (), flags),
    ensures
        !flags.shared && !flags.private && !flags.fixed,
        !flags.anonymous && !flags.noreserve && !flags.populate,
{
}

} // verus!
