//! What the renderer picks from what the device and the surface offer: the
//! swapchain's pixel format, the physical device and the queue family it
//! draws with, and how much video memory it reports.

use vstd::prelude::*;

use super::graph::flags::Format;

verus! {

/// How the presentation engine reads the values of a surface format.
#[derive(Clone, Copy, PartialEq, Eq, Structural, Debug)]
pub enum ColorSpace {
    SrgbNonLinear,
    /// Any other `VkColorSpaceKHR`, by its raw value.
    Other(u32),
}

/// An offer the swapchain takes: 8-bit sRGB colour, presented as sRGB.
pub open spec fn presentable(offer: (Format, ColorSpace)) -> bool {
    &&& offer.0 == Format::B8G8R8A8_SRGB || offer.0 == Format::R8G8B8A8_SRGB
    &&& offer.1 == ColorSpace::SrgbNonLinear
}

/// The swapchain's format: the first presentable format the surface offers,
/// else BGRA sRGB, which every desktop driver supports.
pub fn surface_format(offers: &[(Format, ColorSpace)]) -> (r: Format)
    ensures
        (exists|i: int| 0 <= i < offers@.len() && presentable(#[trigger] offers@[i])) ==> exists|i: int|
            0 <= i < offers@.len() && presentable(#[trigger] offers@[i]) && r == offers@[i].0 && forall|j: int|
                0 <= j < i ==> !presentable(#[trigger] offers@[j]),
        (forall|i: int| 0 <= i < offers@.len() ==> !presentable(#[trigger] offers@[i])) ==> r
            == Format::B8G8R8A8_SRGB,
{
    let mut i: usize = 0;
    while i < offers.len()
        invariant
            i <= offers@.len(),
            forall|j: int| 0 <= j < i ==> !presentable(#[trigger] offers@[j]),
        decreases offers.len() - i,
    {
        let (format, space) = offers[i];
        let srgb = match format {
            Format::B8G8R8A8_SRGB | Format::R8G8B8A8_SRGB => true,
            _ => false,
        };
        let nonlinear = match space {
            ColorSpace::SrgbNonLinear => true,
            ColorSpace::Other(_) => false,
        };
        if srgb && nonlinear {
            assert(presentable(offers@[i as int]));
            return format;
        }
        i += 1;
    }
    Format::B8G8R8A8_SRGB
}

/// What a physical device is, as `VkPhysicalDeviceType`.
#[derive(Clone, Copy, PartialEq, Eq, Structural, Debug)]
pub enum DeviceType {
    DiscreteGpu,
    IntegratedGpu,
    VirtualGpu,
    Cpu,
    Other,
}

/// The renderer's preference among device types, lowest first.
pub open spec fn type_rank(t: DeviceType) -> int {
    match t {
        DeviceType::DiscreteGpu => 0,
        DeviceType::IntegratedGpu => 1,
        DeviceType::VirtualGpu => 2,
        DeviceType::Cpu => 3,
        DeviceType::Other => 4,
    }
}

fn rank(t: DeviceType) -> (r: u8)
    ensures
        r == type_rank(t),
{
    match t {
        DeviceType::DiscreteGpu => 0,
        DeviceType::IntegratedGpu => 1,
        DeviceType::VirtualGpu => 2,
        DeviceType::Cpu => 3,
        DeviceType::Other => 4,
    }
}

/// What one queue family of a device can do for the renderer.
#[derive(Clone, Copy, PartialEq, Eq, Structural, Debug)]
pub struct QueueFamily {
    pub graphics: bool,
    /// Whether it can present to the window's surface.
    pub presents: bool,
}

/// What the renderer reads of a physical device.
pub struct DeviceInfo {
    /// Whether it has every device extension the renderer enables.
    pub has_extensions: bool,
    pub device_type: DeviceType,
    pub queue_families: Vec<QueueFamily>,
}

/// Queue family `q` draws and presents.
pub open spec fn draws_and_presents(d: DeviceInfo, q: int) -> bool {
    0 <= q < d.queue_families@.len() && d.queue_families@[q].graphics && d.queue_families@[q].presents
}

/// `q` is the first queue family of `d` that draws and presents.
pub open spec fn first_family(d: DeviceInfo, q: int) -> bool {
    draws_and_presents(d, q) && forall|j: int| 0 <= j < q ==> !draws_and_presents(d, j)
}

/// A device the renderer can run on: it has the extensions and a queue
/// family that draws and presents.
pub open spec fn suitable(d: DeviceInfo) -> bool {
    d.has_extensions && exists|q: int| draws_and_presents(d, q)
}

fn first_usable_family(d: &DeviceInfo) -> (r: Option<u32>)
    requires
        d.queue_families@.len() <= u32::MAX,
    ensures
        r matches Some(q) ==> first_family(*d, q as int),
        r is None ==> forall|q: int| !draws_and_presents(*d, q),
{
    let mut i: usize = 0;
    while i < d.queue_families.len()
        invariant
            i <= d.queue_families@.len() <= u32::MAX,
            forall|j: int| 0 <= j < i ==> !draws_and_presents(*d, j),
        decreases d.queue_families.len() - i,
    {
        let family = d.queue_families[i];
        if family.graphics && family.presents {
            return Some(i as u32);
        }
        i += 1;
    }
    None
}

/// The device the renderer runs on, with the queue family it draws and
/// presents with: among the suitable devices, the first of the most
/// preferred type, and its first family that draws and presents. `None`
/// when no device is suitable.
pub fn pick_device(devices: &[DeviceInfo]) -> (r: Option<(usize, u32)>)
    requires
        forall|k: int| 0 <= k < devices@.len() ==> (#[trigger] devices@[k]).queue_families@.len() <= u32::MAX,
    ensures
        r is None <==> forall|k: int| 0 <= k < devices@.len() ==> !suitable(#[trigger] devices@[k]),
        r matches Some((k, q)) ==> {
            &&& k < devices@.len()
            &&& suitable(devices@[k as int])
            &&& first_family(devices@[k as int], q as int)
            &&& forall|j: int|
                0 <= j < devices@.len() && suitable(#[trigger] devices@[j]) ==> type_rank(devices@[k as int].device_type)
                    <= type_rank(devices@[j].device_type) && (j < k ==> type_rank(devices@[k as int].device_type)
                    < type_rank(devices@[j].device_type))
        },
{
    let mut best: Option<(usize, u32)> = None;
    let mut i: usize = 0;
    while i < devices.len()
        invariant
            i <= devices@.len(),
            forall|k: int| 0 <= k < devices@.len() ==> (#[trigger] devices@[k]).queue_families@.len() <= u32::MAX,
            best is None <==> forall|k: int| 0 <= k < i ==> !suitable(#[trigger] devices@[k]),
            best matches Some((k, q)) ==> {
                &&& k < i
                &&& suitable(devices@[k as int])
                &&& first_family(devices@[k as int], q as int)
                &&& forall|j: int|
                    0 <= j < i && suitable(#[trigger] devices@[j]) ==> type_rank(devices@[k as int].device_type)
                        <= type_rank(devices@[j].device_type) && (j < k ==> type_rank(
                        devices@[k as int].device_type,
                    ) < type_rank(devices@[j].device_type))
            },
        decreases devices.len() - i,
    {
        let device = &devices[i];
        if device.has_extensions {
            match first_usable_family(device) {
                Some(q) => {
                    let better = match best {
                        None => true,
                        Some((k, _)) => rank(device.device_type) < rank(devices[k].device_type),
                    };
                    if better {
                        best = Some((i, q));
                    }
                },
                None => {},
            }
        }
        i += 1;
    }
    best
}

/// One memory heap of a device.
#[derive(Clone, Copy, PartialEq, Eq, Structural, Debug)]
pub struct MemoryHeap {
    pub size: u64,
    /// Whether it is video memory (`DEVICE_LOCAL`).
    pub device_local: bool,
}

/// The summed size of the device-local heaps among the first `n`.
pub open spec fn local_size(heaps: Seq<MemoryHeap>, n: int) -> int
    decreases n,
{
    if n <= 0 {
        0
    } else {
        local_size(heaps, n - 1) + if heaps[n - 1].device_local {
            heaps[n - 1].size as int
        } else {
            0
        }
    }
}

/// The summed usage of the device-local heaps among the first `n`.
pub open spec fn local_usage(heaps: Seq<MemoryHeap>, usage: Seq<u64>, n: int) -> int
    decreases n,
{
    if n <= 0 {
        0
    } else {
        local_usage(heaps, usage, n - 1) + if heaps[n - 1].device_local {
            usage[n - 1] as int
        } else {
            0
        }
    }
}

/// The memory-budget query is there: the extension is enabled and the API
/// is at least Vulkan 1.1.
pub fn budget_queryable(extension_enabled: bool, api_major: u32, api_minor: u32) -> (r: bool)
    ensures
        r == (extension_enabled && (api_major > 1 || (api_major == 1 && api_minor >= 1))),
{
    extension_enabled && (api_major > 1 || (api_major == 1 && api_minor >= 1))
}

/// Live video memory as `(used, total)` bytes: `total` sums the
/// device-local heaps, and `used` sums what the budget query reports for
/// them, `None` when the device has no budget query.
pub fn vram_bytes(heaps: &[MemoryHeap], usage: Option<&[u64]>) -> (r: (Option<u64>, u64))
    requires
        local_size(heaps@, heaps@.len() as int) <= u64::MAX,
        usage matches Some(u) ==> u@.len() >= heaps@.len() && local_usage(heaps@, u@, heaps@.len() as int)
            <= u64::MAX,
    ensures
        r.1 == local_size(heaps@, heaps@.len() as int),
        usage is None ==> r.0 is None,
        usage matches Some(u) ==> r.0 == Some(local_usage(heaps@, u@, heaps@.len() as int) as u64),
{
    let mut total: u64 = 0;
    let mut i: usize = 0;
    while i < heaps.len()
        invariant
            i <= heaps@.len(),
            total == local_size(heaps@, i as int),
            local_size(heaps@, heaps@.len() as int) <= u64::MAX,
        decreases heaps.len() - i,
    {
        proof {
            lemma_local_size_grows(heaps@, i + 1, heaps@.len() as int);
        }
        if heaps[i].device_local {
            total = total + heaps[i].size;
        }
        i += 1;
    }
    match usage {
        None => (None, total),
        Some(u) => {
            let mut used: u64 = 0;
            let mut i: usize = 0;
            while i < heaps.len()
                invariant
                    i <= heaps@.len() <= u@.len(),
                    used == local_usage(heaps@, u@, i as int),
                    local_usage(heaps@, u@, heaps@.len() as int) <= u64::MAX,
                decreases heaps.len() - i,
            {
                proof {
                    lemma_local_usage_grows(heaps@, u@, i + 1, heaps@.len() as int);
                }
                if heaps[i].device_local {
                    used = used + u[i];
                }
                i += 1;
            }
            (Some(used), total)
        },
    }
}

proof fn lemma_local_size_grows(heaps: Seq<MemoryHeap>, m: int, n: int)
    requires
        0 <= m <= n,
    ensures
        local_size(heaps, m) <= local_size(heaps, n),
    decreases n - m,
{
    if m < n {
        lemma_local_size_grows(heaps, m, n - 1);
    }
}

proof fn lemma_local_usage_grows(heaps: Seq<MemoryHeap>, usage: Seq<u64>, m: int, n: int)
    requires
        0 <= m <= n,
    ensures
        local_usage(heaps, usage, m) <= local_usage(heaps, usage, n),
    decreases n - m,
{
    if m < n {
        lemma_local_usage_grows(heaps, usage, m, n - 1);
    }
}

} // verus!
