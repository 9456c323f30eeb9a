//! Which accesses the pages of a mapping allow.

use libc::c_int;
use vstd::prelude::*;

use crate::syscall::{prot_read, prot_write};

verus! {

/// Which accesses a range of memory allows.
#[derive(Clone, Copy, Debug, PartialEq, Eq, Structural)]
pub struct Protection {
    pub read: bool,
    pub write: bool,
}

impl Protection {
    /// Memory that can be read and written.
    pub fn read_write() -> (p: Protection)
        ensures
            p == (Protection { read: true, write: true }),
    {
        Protection { read: true, write: true }
    }

    /// Memory that can only be read.
    pub fn read() -> (p: Protection)
        ensures
            p == (Protection { read: true, write: false }),
    {
        Protection { read: true, write: false }
    }

    /// The protection as the number that `mmap` takes: 1 for reading, and 2 more for writing.
    pub open spec fn spec_bits(self) -> c_int {
        match (self.read, self.write) {
            (false, false) => 0,
            (true, false) => 1,
            (false, true) => 2,
            (true, true) => 3,
        }
    }
}

impl From<Protection> for c_int {
    fn from(p: Protection) -> (value: c_int) {
        let mut value: c_int = 0;
        if p.read {
            value = value | prot_read();
        }
        if p.write {
            value = value | prot_write();
        }
        proof {
            assert(0i32 | 1 == 1 && 0i32 | 2 == 2 && 1i32 | 2 == 3) by (bit_vector);
        }
        value
    }
}

impl vstd::std_specs::convert::FromSpecImpl<Protection> for c_int {
    open spec fn obeys_from_spec() -> bool {
        true
    }

    open spec fn from_spec(p: Protection) -> c_int {
        p.spec_bits()
    }
}

/// Two protections with the same number are the same: the number says which accesses are allowed.
pub proof fn law_protection_bits_tell_protections_apart(p: Protection, q: Protection)
    ensures
        p.spec_bits() == q.spec_bits() <==> p == q,
{
}

/// The number of a protection is odd exactly where reading is allowed, and two or more exactly where
/// writing is; it never says anything else.
pub proof fn law_protection_bits(p: Protection, bits: c_int)
    requires
        call_ensures(<c_int as From<Protection>>::from, (p,), bits),
    ensures
        0 <= bits <= 3,
        bits % 2 == 1 <==> p.read,
        bits >= 2 <==> p.write,
{
}

/// The two usual protections allow what their names say.
pub proof fn law_usual_protections(reading: Protection, writing: Protection)
    requires
        call_ensures(Protection::read, (), reading),
        call_ensures(Protection::read_write, (), writing),
    ensures
        reading.read && !reading.write,
        writing.read && writing.write,
{
}

} // verus!
