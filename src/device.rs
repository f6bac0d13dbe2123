use vstd::prelude::*;
use vstd::string::StringSliceAdditionalSpecFns;
use crate::text::{bytes_equal, parse_number, parsed_number, trim_bounds, trimmed};

verus! {

/// Bytes skipped past the start of the mapping that follows the framebuffer
/// device, to land on the pixel data rather than its header.
pub const DEFAULT_MEMORY_SKIP: usize = 8;

/// Why the pixel source could not be located.
#[derive(Clone, Copy, Debug, PartialEq, Eq, Structural)]
pub enum ResolveError {
    /// The device identity is none of the supported ones.
    UnsupportedDevice,
    /// The process lookup did not print a process id.
    BadProcessId,
    /// No mapping follows one backed by the framebuffer device node.
    NoFramebufferMapping,
    /// The start address of that mapping is not a hexadecimal number.
    BadAddress,
    /// The address plus the skip does not fit in a `usize`.
    OffsetOverflow,
}

/// The supported tablet generations.
#[derive(Clone, Copy, Debug, PartialEq, Eq, Structural)]
pub enum DeviceModel {
    First,
    Second,
}

/// Where the pixels of a device are read from.
#[derive(Clone, Copy, Debug, PartialEq, Eq, Structural)]
pub enum PixelSource {
    /// The framebuffer device node, from offset zero.
    Framebuffer,
    /// The buffer published by a compatibility shim in shared memory.
    SharedMemory,
    /// The memory of the display process, at an address read from its
    /// memory map.
    ProcessMemory,
}

/// Pixel source and geometry of a device.
#[derive(Clone, Copy, Debug, PartialEq, Eq, Structural)]
pub struct DeviceProfile {
    pub source: PixelSource,
    pub width: usize,
    pub height: usize,
    pub bytes_per_pixel: usize,
}

pub open spec fn first_identity() -> Seq<u8> {
    "reMarkable 1.0".spec_bytes()
}

pub open spec fn first_prototype_identity() -> Seq<u8> {
    "reMarkable Prototype 1".spec_bytes()
}

pub open spec fn second_identity() -> Seq<u8> {
    "reMarkable 2.0".spec_bytes()
}

/// The device that an identity file names, ignoring white space around it.
pub open spec fn model_of(identity: Seq<u8>) -> Option<DeviceModel> {
    let id = trimmed(identity);
    if id == first_identity() || id == first_prototype_identity() {
        Some(DeviceModel::First)
    } else if id == second_identity() {
        Some(DeviceModel::Second)
    } else {
        None
    }
}

/// The profile of a model; the second generation reads the shim's buffer
/// when the shim is present, and the display process's memory otherwise.
pub open spec fn profile_of(model: DeviceModel, shim_present: bool) -> DeviceProfile {
    match model {
        DeviceModel::First => DeviceProfile {
            source: PixelSource::Framebuffer,
            width: 1408,
            height: 1872,
            bytes_per_pixel: 2,
        },
        DeviceModel::Second => if shim_present {
            DeviceProfile {
                source: PixelSource::SharedMemory,
                width: 1404,
                height: 1872,
                bytes_per_pixel: 2,
            }
        } else {
            DeviceProfile {
                source: PixelSource::ProcessMemory,
                width: 1872,
                height: 1404,
                bytes_per_pixel: 1,
            }
        },
    }
}

impl PixelSource {
    /// Path of the file to read; for process memory, the memory file of the
    /// display process stands there instead.
    pub fn path(&self) -> (r: Option<&'static str>)
        ensures
            r is None <==> *self == PixelSource::ProcessMemory,
            *self == PixelSource::Framebuffer ==> (r matches Some(p) && p@ == "/dev/fb0"@),
            *self == PixelSource::SharedMemory ==> (r matches Some(p) && p@
                == "/dev/shm/swtfb.01"@),
    {
        proof {
            reveal_strlit("/dev/fb0");
            reveal_strlit("/dev/shm/swtfb.01");
        }
        match self {
            PixelSource::Framebuffer => Some("/dev/fb0"),
            PixelSource::SharedMemory => Some("/dev/shm/swtfb.01"),
            PixelSource::ProcessMemory => None,
        }
    }
}

/// The device named by the contents of the system identity file.
pub fn identify(identity: &[u8]) -> (r: Result<DeviceModel, ResolveError>)
    ensures
        r matches Ok(m) ==> model_of(identity@) == Some(m),
        r is Err ==> model_of(identity@) is None && r == Err::<DeviceModel, ResolveError>(
            ResolveError::UnsupportedDevice,
        ),
{
    let (lo, hi) = trim_bounds(identity);
    let id = slice_range(identity, lo, hi);
    let first = "reMarkable 1.0".as_bytes();
    let prototype = "reMarkable Prototype 1".as_bytes();
    let second = "reMarkable 2.0".as_bytes();
    if bytes_equal(id, first) || bytes_equal(id, prototype) {
        Ok(DeviceModel::First)
    } else if bytes_equal(id, second) {
        Ok(DeviceModel::Second)
    } else {
        Err(ResolveError::UnsupportedDevice)
    }
}

/// Chooses pixel source and geometry from the identity file's contents and
/// from whether the shared-memory shim's buffer exists.
pub fn resolve_profile(identity: &[u8], shim_present: bool) -> (r: Result<
    DeviceProfile,
    ResolveError,
>)
    ensures
        r matches Ok(p) ==> model_of(identity@) matches Some(m) && p == profile_of(m, shim_present),
        r is Err ==> model_of(identity@) is None && r == Err::<DeviceProfile, ResolveError>(
            ResolveError::UnsupportedDevice,
        ),
{
    let model = identify(identity)?;
    Ok(
        match model {
            DeviceModel::First => DeviceProfile {
                source: PixelSource::Framebuffer,
                width: 1408,
                height: 1872,
                bytes_per_pixel: 2,
            },
            DeviceModel::Second => if shim_present {
                DeviceProfile {
                    source: PixelSource::SharedMemory,
                    width: 1404,
                    height: 1872,
                    bytes_per_pixel: 2,
                }
            } else {
                DeviceProfile {
                    source: PixelSource::ProcessMemory,
                    width: 1872,
                    height: 1404,
                    bytes_per_pixel: 1,
                }
            },
        },
    )
}

fn slice_range(s: &[u8], lo: usize, hi: usize) -> (r: &[u8])
    requires
        lo <= hi <= s@.len(),
    ensures
        r@ == s@.subrange(lo as int, hi as int),
{
    vstd::slice::slice_subrange(s, lo, hi)
}

/// The process id printed by the process lookup, white space around it aside.
pub fn parse_pid(output: &[u8]) -> (r: Result<usize, ResolveError>)
    ensures
        r matches Ok(pid) ==> parsed_number(trimmed(output@), 10) == Some(pid as nat),
        r is Err ==> parsed_number(trimmed(output@), 10) is None && r == Err::<
            usize,
            ResolveError,
        >(ResolveError::BadProcessId),
{
    let (lo, hi) = trim_bounds(output);
    match parse_number(output, lo, hi, 10) {
        Some(pid) => Ok(pid),
        None => Err(ResolveError::BadProcessId),
    }
}

/// Name of the device node whose mapping precedes the pixel data.
pub open spec fn framebuffer_node() -> Seq<u8> {
    "/dev/fb0".spec_bytes()
}

/// Whether `s[lo..hi]` ends with the framebuffer device node.
pub open spec fn ends_with_node(s: Seq<u8>, lo: int, hi: int) -> bool {
    hi - lo >= framebuffer_node().len() && s.subrange(hi - framebuffer_node().len(), hi)
        == framebuffer_node()
}

/// Scanning `s` from `i`, in a line that began at `line_start`: the start of
/// the line that follows the first line ending with the framebuffer device
/// node, if there is such a following line.
pub open spec fn line_after_node(s: Seq<u8>, i: int, line_start: int) -> Option<int>
    decreases s.len() - i,
{
    if i < 0 || i >= s.len() {
        None
    } else if s[i] == 10 {
        if ends_with_node(s, line_start, i) {
            if i + 1 < s.len() {
                Some(i + 1)
            } else {
                None
            }
        } else {
            line_after_node(s, i + 1, i + 1)
        }
    } else {
        line_after_node(s, i + 1, line_start)
    }
}

/// End of the address field that starts at `i`: the first `-` or end of line.
pub open spec fn field_end(s: Seq<u8>, i: int) -> int
    decreases s.len() - i,
{
    if i < 0 || i >= s.len() || s[i] == 10 || s[i] == 45 {
        i
    } else {
        field_end(s, i + 1)
    }
}

/// Offset of the pixel data in the display process's memory, from the text
/// of its memory map: the start address of the mapping that follows the
/// framebuffer device's mapping, plus `skip`.
pub open spec fn mapped_offset(maps: Seq<u8>, skip: nat) -> Result<nat, ResolveError> {
    match line_after_node(maps, 0, 0) {
        None => Err(ResolveError::NoFramebufferMapping),
        Some(n) => match parsed_number(maps.subrange(n, field_end(maps, n)), 16) {
            None => Err(ResolveError::BadAddress),
            Some(a) => if a + skip <= usize::MAX {
                Ok(a + skip)
            } else {
                Err(ResolveError::OffsetOverflow)
            },
        },
    }
}

fn ends_with_node_at(s: &[u8], lo: usize, hi: usize) -> (r: bool)
    requires
        lo <= hi <= s@.len(),
    ensures
        r == ends_with_node(s@, lo as int, hi as int),
{
    let node = "/dev/fb0".as_bytes();
    if hi - lo < node.len() {
        return false;
    }
    bytes_equal(slice_range(s, hi - node.len(), hi), node)
}

/// Start of the line after the framebuffer device's mapping.
fn find_line_after_node(s: &[u8]) -> (r: Option<usize>)
    ensures
        r matches Some(n) ==> line_after_node(s@, 0, 0) == Some(n as int) && n < s@.len(),
        r is None ==> line_after_node(s@, 0, 0) is None,
{
    let n = s.len();
    let mut i: usize = 0;
    let mut line_start: usize = 0;
    while i < n
        invariant
            n == s@.len(),
            line_start <= i <= n,
            line_after_node(s@, 0, 0) == line_after_node(s@, i as int, line_start as int),
        decreases n - i,
    {
        if s[i] == 10 {
            if ends_with_node_at(s, line_start, i) {
                if i + 1 < n {
                    return Some(i + 1);
                } else {
                    return None;
                }
            }
            line_start = i + 1;
        }
        i = i + 1;
    }
    None
}

fn find_field_end(s: &[u8], start: usize) -> (r: usize)
    requires
        start <= s@.len(),
    ensures
        start <= r <= s@.len(),
        r == field_end(s@, start as int),
{
    let n = s.len();
    let mut i = start;
    while i < n && s[i] != 10 && s[i] != 45
        invariant
            start <= i <= n == s@.len(),
            field_end(s@, start as int) == field_end(s@, i as int),
        decreases n - i,
    {
        i = i + 1;
    }
    i
}

/// Offset of the pixel data in the display process's memory, read from the
/// text of its memory map (see `mapped_offset`).
pub fn framebuffer_offset(maps: &[u8], skip: usize) -> (r: Result<usize, ResolveError>)
    ensures
        r matches Ok(v) ==> mapped_offset(maps@, skip as nat) == Ok::<nat, ResolveError>(v as nat),
        r matches Err(e) ==> mapped_offset(maps@, skip as nat) == Err::<nat, ResolveError>(e),
{
    match find_line_after_node(maps) {
        None => Err(ResolveError::NoFramebufferMapping),
        Some(n) => {
            let end = find_field_end(maps, n);
            match parse_number(maps, n, end, 16) {
                None => Err(ResolveError::BadAddress),
                Some(address) => match address.checked_add(skip) {
                    Some(offset) => Ok(offset),
                    None => Err(ResolveError::OffsetOverflow),
                },
            }
        },
    }
}

} // verus!
