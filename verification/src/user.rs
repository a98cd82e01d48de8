//! The user side of the system calls, and what the first user program
//! reads out of the device tree.
//!
//! A system call is made of a request, which says what goes into the
//! registers, and of the reading of the result register afterwards. A
//! device tree is looked at as the list of its nodes, each with its name
//! and its properties.
use crate::api::{from_return, KError, PhyMapFlags, Syscall, VirtMapFlags, RETURN_NEGATIVE};
use vstd::prelude::*;

verus! {

/// The registers of a system call: the number in `x8`, the arguments from
/// `x0` on.
#[derive(Copy, Clone, PartialEq, Eq, Structural, Debug)]
pub struct SyscallRequest {
    pub x8: u64,
    pub x0: u64,
    pub x1: u64,
    pub x2: u64,
}

/// The request to end the program with the code `code`.
pub fn exit(code: u32) -> (r: SyscallRequest)
    ensures
        r == (SyscallRequest { x8: 0, x0: code as u64, x1: 0, x2: 0 }),
{
    SyscallRequest { x8: Syscall::Exit.number() as u64, x0: code as u64, x1: 0, x2: 0 }
}

/// The request to write the `len` bytes at `ptr` to the console.
pub fn log_buf(ptr: u64, len: usize) -> (r: SyscallRequest)
    ensures
        r == (SyscallRequest { x8: 1, x0: ptr, x1: len as u64, x2: 0 }),
{
    SyscallRequest { x8: Syscall::Log.number() as u64, x0: ptr, x1: len as u64, x2: 0 }
}

/// The request to map the `len` physical bytes at `phy_addr`.
pub fn phy_map(phy_addr: u64, len: u64, flags: PhyMapFlags) -> (r: SyscallRequest)
    ensures
        r == (SyscallRequest { x8: 2, x0: phy_addr, x1: len, x2: flags.bits }),
{
    SyscallRequest { x8: Syscall::PhyMap.number() as u64, x0: phy_addr, x1: len, x2: flags.bits() }
}

/// The request to map `len` bytes of fresh memory.
pub fn virt_map(len: u64, flags: VirtMapFlags) -> (r: SyscallRequest)
    ensures
        r == (SyscallRequest { x8: 3, x0: len, x1: flags.bits, x2: 0 }),
{
    SyscallRequest { x8: Syscall::VirtMap.number() as u64, x0: len, x1: flags.bits(), x2: 0 }
}

/// The request to unmap the `len` bytes at `virt_addr`.
pub fn virt_unmap(virt_addr: u64, len: u64) -> (r: SyscallRequest)
    ensures
        r == (SyscallRequest { x8: 4, x0: virt_addr, x1: len, x2: 0 }),
{
    SyscallRequest { x8: Syscall::VirtUnmap.number() as u64, x0: virt_addr, x1: len, x2: 0 }
}

/// The request to hand the `len` bytes of memory at `phy_addr` to the
/// kernel.
pub fn download_more_ram(phy_addr: u64, len: u64) -> (r: SyscallRequest)
    ensures
        r == (SyscallRequest { x8: 5, x0: phy_addr, x1: len, x2: 0 }),
{
    SyscallRequest { x8: Syscall::DownloadMoreRam.number() as u64, x0: phy_addr, x1: len, x2: 0 }
}

/// What a mapping call gave back: the address of the mapping, or the
/// error.
pub fn map_result(x0: u64) -> (r: Result<u64, KError>)
    ensures
        x0 < RETURN_NEGATIVE ==> r == Ok::<u64, KError>(x0),
        x0 >= RETURN_NEGATIVE ==> r == Err::<u64, KError>(
            KError::spec_from_primitive(KError::spec_code_of(x0)),
        ),
{
    from_return(x0)
}

/// What a call without a value gave back: nothing, or the error.
pub fn unit_result(x0: u64) -> (r: Result<(), KError>)
    ensures
        x0 < RETURN_NEGATIVE ==> r == Ok::<(), KError>(()),
        x0 >= RETURN_NEGATIVE ==> r == Err::<(), KError>(
            KError::spec_from_primitive(KError::spec_code_of(x0)),
        ),
{
    match from_return(x0) {
        Ok(_) => Ok(()),
        Err(e) => Err(e),
    }
}

/// Physical address at which the device tree lies.
pub const DTB_ADDR: u64 = 0x4000_0000;

/// Bytes of the device tree that are mapped to read its length.
pub const DTB_MAP_LEN: u64 = 0x1000;

/// What to do once the length of the device tree is known.
#[derive(Copy, Clone, PartialEq, Eq, Structural, Debug)]
pub enum DtbMapStep {
    /// The whole tree is mapped already: use its first `len` bytes.
    Use { len: u64 },
    /// Unmap the first page, then map `map_len` bytes and use the first
    /// `len` of them.
    Remap { len: u64, map_len: u64 },
}

/// Decides how to get at a device tree of `total_size` bytes of which the
/// first page is mapped: a tree that ends in that page is used as it is;
/// for a longer one the mapping is made anew, as many whole pages as hold
/// the tree.
pub fn map_dtb(total_size: u64) -> (r: DtbMapStep)
    requires
        total_size + 4095 <= u64::MAX,
    ensures
        total_size <= DTB_MAP_LEN ==> r == (DtbMapStep::Use { len: total_size }),
        total_size > DTB_MAP_LEN ==> r == (DtbMapStep::Remap {
            len: total_size,
            map_len: ((total_size + 4095) / 4096 * 4096) as u64,
        }),
{
    if total_size <= DTB_MAP_LEN {
        DtbMapStep::Use { len: total_size }
    } else {
        DtbMapStep::Remap { len: total_size, map_len: (total_size + 4095) / 4096 * 4096 }
    }
}

/// Why a device tree cannot be read.
#[derive(Copy, Clone, PartialEq, Eq, Structural, Debug)]
pub enum DevTreeError {
    /// A parameter of a read was not valid.
    InvalidParameter,
    /// The tree does not start with its magic number.
    InvalidMagicNumber,
    /// A read reaches beyond the data that is there.
    InvalidOffset,
    /// The data is not formed as a device tree is.
    ParseError,
    /// A string is not text.
    StrError,
    /// There is not enough memory to index the tree.
    NotEnoughMemory,
}

/// A property of a node of the device tree: its name, what reading the
/// first string of its value gives, and its value as a list of 64-bit
/// cells.
pub struct DtProp {
    pub name: Vec<u8>,
    pub first_str: Result<Option<Vec<u8>>, DevTreeError>,
    pub cells: Vec<u64>,
}

/// A node of the device tree: its name and its properties in their order.
/// Where reading a property fails, the error stands in its place and ends
/// the list.
pub struct DtNode {
    pub name: Vec<u8>,
    pub props: Vec<Result<DtProp, DevTreeError>>,
}

/// What the first user program takes from the device tree: the boot
/// arguments and the memory region, base first, where the tree has them.
pub struct MemNodes {
    pub bootargs: Option<Vec<u8>>,
    pub mem: Option<(u64, u64)>,
}

/// `chosen`
pub open spec fn name_chosen() -> Seq<u8> {
    seq![99u8, 104u8, 111u8, 115u8, 101u8, 110u8]
}

/// `bootargs`
pub open spec fn name_bootargs() -> Seq<u8> {
    seq![98u8, 111u8, 111u8, 116u8, 97u8, 114u8, 103u8, 115u8]
}

/// `memory@`
pub open spec fn name_memory() -> Seq<u8> {
    seq![109u8, 101u8, 109u8, 111u8, 114u8, 121u8, 64u8]
}

/// `reg`
pub open spec fn name_reg() -> Seq<u8> {
    seq![114u8, 101u8, 103u8]
}

/// `name` starts with `prefix`.
pub open spec fn starts_with(name: Seq<u8>, prefix: Seq<u8>) -> bool {
    prefix.len() <= name.len() && name.subrange(0, prefix.len() as int) == prefix
}

/// The first of `props` with the name `name`, if there is one; or the
/// error that stands before any such property.
pub open spec fn first_named(props: Seq<Result<DtProp, DevTreeError>>, name: Seq<u8>) -> Result<
    Option<DtProp>,
    DevTreeError,
>
    decreases props.len(),
{
    if props.len() == 0 {
        Ok(None)
    } else {
        match props[0] {
            Err(e) => Err(e),
            Ok(prop) => if prop.name@ == name {
                Ok(Some(prop))
            } else {
                first_named(props.skip(1), name)
            },
        }
    }
}

/// What is known of the boot arguments and of the memory region.
pub struct Found {
    pub bootargs: Option<Seq<u8>>,
    pub mem: Option<(u64, u64)>,
}

/// A string that may be there, as a sequence.
pub open spec fn string_view(s: Option<Vec<u8>>) -> Option<Seq<u8>> {
    match s {
        Some(s) => Some(s@),
        None => None,
    }
}

/// What is known after `node` has been looked at, where `found` was known
/// before. A node named `chosen` sets the boot arguments to the first
/// string of its first property named `bootargs`, if it has one. A node
/// whose name starts with `memory@` sets the memory region to the first two
/// cells of its first property named `reg`, if it has one, and it is an
/// error if that property has fewer than two cells. An error in reading a
/// property up to the one that is looked for, or in reading the string, is
/// the result. Of any other node no property is read.
pub open spec fn look_at(found: Found, node: DtNode) -> Result<Found, DevTreeError> {
    if node.name@ == name_chosen() {
        match first_named(node.props@, name_bootargs()) {
            Err(e) => Err(e),
            Ok(None) => Ok(found),
            Ok(Some(prop)) => match prop.first_str {
                Err(e) => Err(e),
                Ok(s) => Ok(Found { bootargs: string_view(s), mem: found.mem }),
            },
        }
    } else if starts_with(node.name@, name_memory()) {
        match first_named(node.props@, name_reg()) {
            Err(e) => Err(e),
            Ok(None) => Ok(found),
            Ok(Some(prop)) => if prop.cells@.len() >= 2 {
                Ok(Found { bootargs: found.bootargs, mem: Some((prop.cells@[0], prop.cells@[1])) })
            } else {
                Err(DevTreeError::InvalidOffset)
            },
        }
    } else {
        Ok(found)
    }
}

/// What is known after the first `n` of `nodes` have been looked at in
/// turn, or the first error on the way. An error in the place of a node is
/// the error of reading that node.
pub open spec fn scan(nodes: Seq<Result<DtNode, DevTreeError>>, n: int) -> Result<
    Found,
    DevTreeError,
>
    decreases n,
{
    if n <= 0 {
        Ok(Found { bootargs: None, mem: None })
    } else {
        match scan(nodes, n - 1) {
            Ok(found) => match nodes[n - 1] {
                Ok(node) => look_at(found, node),
                Err(e) => Err(e),
            },
            Err(e) => Err(e),
        }
    }
}

impl MemNodes {
    /// The same as sequences.
    pub open spec fn view(&self) -> Found {
        Found { bootargs: string_view(self.bootargs), mem: self.mem }
    }
}

/// Whether two byte strings are the same.
fn bytes_eq(a: &[u8], b: &[u8]) -> (r: bool)
    ensures
        r == (a@ == b@),
{
    if a.len() != b.len() {
        return false;
    }
    let mut i: usize = 0;
    while i < a.len()
        invariant
            i <= a.len(),
            a.len() == b.len(),
            forall|k: int| 0 <= k < i ==> a@[k] == b@[k],
        decreases a.len() - i,
    {
        if a[i] != b[i] {
            return false;
        }
        i += 1;
    }
    proof {
        assert(a@ =~= b@);
    }
    true
}

/// Whether `name` starts with `prefix`.
fn bytes_start_with(name: &[u8], prefix: &[u8]) -> (r: bool)
    ensures
        r == starts_with(name@, prefix@),
{
    if prefix.len() > name.len() {
        return false;
    }
    let mut i: usize = 0;
    while i < prefix.len()
        invariant
            i <= prefix.len(),
            prefix.len() <= name.len(),
            forall|k: int| 0 <= k < i ==> name@[k] == prefix@[k],
        decreases prefix.len() - i,
    {
        if name[i] != prefix[i] {
            proof {
                assert(name@.subrange(0, prefix@.len() as int)[i as int] == name@[i as int]);
            }
            return false;
        }
        i += 1;
    }
    proof {
        assert(name@.subrange(0, prefix@.len() as int) =~= prefix@);
    }
    true
}

/// Index of the first of `props` with the name `name`, if there is one; or
/// the error that stands before any such property.
fn find_prop(props: &Vec<Result<DtProp, DevTreeError>>, name: &[u8]) -> (r: Result<
    Option<usize>,
    DevTreeError,
>)
    ensures
        match r {
            Ok(Some(i)) => i < props@.len() && props@[i as int] is Ok && first_named(
                props@,
                name@,
            ) == Ok::<Option<DtProp>, DevTreeError>(Some(props@[i as int]->Ok_0)),
            Ok(None) => first_named(props@, name@) == Ok::<Option<DtProp>, DevTreeError>(None),
            Err(e) => first_named(props@, name@) == Err::<Option<DtProp>, DevTreeError>(e),
        },
{
    let mut i: usize = 0;
    proof {
        assert(props@.skip(0) =~= props@);
    }
    while i < props.len()
        invariant
            i <= props.len(),
            first_named(props@, name@) == first_named(props@.skip(i as int), name@),
        decreases props.len() - i,
    {
        proof {
            let rest = props@.skip(i as int);
            assert(rest[0] == props@[i as int]);
            assert(rest.skip(1) =~= props@.skip(i + 1));
        }
        match &props[i] {
            Err(e) => {
                return Err(*e);
            },
            Ok(prop) => {
                if bytes_eq(prop.name.as_slice(), name) {
                    return Ok(Some(i));
                }
            },
        }
        i += 1;
    }
    proof {
        assert(props@.skip(i as int).len() == 0);
    }
    Ok(None)
}

/// A copy of a byte string.
fn copy_bytes(s: &Vec<u8>) -> (r: Vec<u8>)
    ensures
        r@ == s@,
{
    let mut r: Vec<u8> = Vec::new();
    let mut i: usize = 0;
    while i < s.len()
        invariant
            i <= s.len(),
            r@ == s@.subrange(0, i as int),
        decreases s.len() - i,
    {
        r.push(s[i]);
        i += 1;
        proof {
            assert(r@ =~= s@.subrange(0, i as int));
        }
    }
    proof {
        assert(s@.subrange(0, s@.len() as int) =~= s@);
    }
    r
}

/// Looks at one node: `look_at` on what has been found so far.
fn look_at_node(found: MemNodes, node: &DtNode) -> (r: Result<MemNodes, DevTreeError>)
    ensures
        match r {
            Ok(next) => look_at(found@, *node) == Ok::<Found, DevTreeError>(next@),
            Err(e) => look_at(found@, *node) == Err::<Found, DevTreeError>(e),
        },
{
    let chosen: [u8; 6] = [99, 104, 111, 115, 101, 110];
    let bootargs_name: [u8; 8] = [98, 111, 111, 116, 97, 114, 103, 115];
    let memory: [u8; 7] = [109, 101, 109, 111, 114, 121, 64];
    let reg: [u8; 3] = [114, 101, 103];
    proof {
        assert(chosen@ =~= name_chosen());
        assert(bootargs_name@ =~= name_bootargs());
        assert(memory@ =~= name_memory());
        assert(reg@ =~= name_reg());
    }
    let mut found = found;
    if bytes_eq(node.name.as_slice(), chosen.as_slice()) {
        match find_prop(&node.props, bootargs_name.as_slice()) {
            Err(e) => {
                return Err(e);
            },
            Ok(None) => {},
            Ok(Some(i)) => match &node.props[i] {
                Ok(prop) => match &prop.first_str {
                    Err(e) => {
                        return Err(*e);
                    },
                    Ok(Some(s)) => {
                        found.bootargs = Some(copy_bytes(s));
                    },
                    Ok(None) => {
                        found.bootargs = None;
                    },
                },
                Err(e) => {
                    return Err(*e);
                },
            },
        }
    } else if bytes_start_with(node.name.as_slice(), memory.as_slice()) {
        match find_prop(&node.props, reg.as_slice()) {
            Err(e) => {
                return Err(e);
            },
            Ok(None) => {},
            Ok(Some(i)) => match &node.props[i] {
                Ok(prop) => {
                    if prop.cells.len() < 2 {
                        return Err(DevTreeError::InvalidOffset);
                    }
                    found.mem = Some((prop.cells[0], prop.cells[1]));
                },
                Err(e) => {
                    return Err(*e);
                },
            },
        }
    }
    Ok(found)
}

/// Looks through the nodes of a device tree for the boot arguments and for
/// the memory region. Of several nodes that set the same thing the last
/// one counts. The first error on the way ends the search.
pub fn find_mem_nodes(nodes: &Vec<Result<DtNode, DevTreeError>>) -> (r: Result<
    MemNodes,
    DevTreeError,
>)
    ensures
        match r {
            Ok(found) => scan(nodes@, nodes@.len() as int) == Ok::<Found, DevTreeError>(found@),
            Err(e) => scan(nodes@, nodes@.len() as int) == Err::<Found, DevTreeError>(e),
        },
{
    let mut found = MemNodes { bootargs: None, mem: None };
    let mut n: usize = 0;
    while n < nodes.len()
        invariant
            n <= nodes.len(),
            scan(nodes@, n as int) == Ok::<Found, DevTreeError>(found@),
        decreases nodes.len() - n,
    {
        let step = match &nodes[n] {
            Err(e) => Err(*e),
            Ok(node) => look_at_node(found, node),
        };
        match step {
            Ok(next) => {
                found = next;
            },
            Err(e) => {
                proof {
                    lemma_scan_stays_err(nodes@, n + 1, nodes@.len() as int);
                }
                return Err(e);
            },
        }
        n += 1;
    }
    Ok(found)
}

/// Once looking through the nodes has failed, it has failed for good.
proof fn lemma_scan_stays_err(nodes: Seq<Result<DtNode, DevTreeError>>, n: int, m: int)
    requires
        n <= m,
        scan(nodes, n) is Err,
    ensures
        scan(nodes, m) == scan(nodes, n),
    decreases m - n,
{
    if n < m {
        lemma_scan_stays_err(nodes, n, m - 1);
    }
}

} // verus!
