//! Which device and which of its queues are rendered with.

use vstd::prelude::*;

verus! {

/// What kind of device a physical device is.
#[derive(Debug, Clone, Copy, PartialEq, Eq, Structural)]
pub enum DeviceKind {
    Other,
    Cpu,
    VirtualGpu,
    IntegratedGpu,
    DiscreteGpu,
}

/// What the user wants to be rendered with.
pub struct RendererPreferences {
    pub preferred_physical_device: Option<String>,
    pub preferred_physical_device_type: Option<DeviceKind>,
    pub application_name: Option<String>,
    pub application_version: Option<(u32, u32, u32)>,
}

impl Default for RendererPreferences {
    fn default() -> (p: Self)
        ensures
            p.preferred_physical_device is None,
            p.preferred_physical_device_type is None,
            p.application_name is None,
            p.application_version is None,
    {
        RendererPreferences {
            preferred_physical_device: None,
            preferred_physical_device_type: None,
            application_name: None,
            application_version: None,
        }
    }
}

/// What the graphics library is told of the application.
pub struct LibraryPreferences {
    pub application_name: Option<String>,
    pub application_version: Option<(u32, u32, u32)>,
}

impl Default for LibraryPreferences {
    fn default() -> (p: Self)
        ensures
            p.application_name is None,
            p.application_version is None,
    {
        LibraryPreferences { application_name: None, application_version: None }
    }
}

/// By what a device is chosen.
pub struct DevicePreferences {
    pub preferred_physical_device: Option<String>,
    pub preferred_physical_device_type: Option<DeviceKind>,
}

impl Default for DevicePreferences {
    fn default() -> (p: Self)
        ensures
            p.preferred_physical_device is None,
            p.preferred_physical_device_type is None,
    {
        DevicePreferences { preferred_physical_device: None, preferred_physical_device_type: None }
    }
}

impl RendererPreferences {
    /// What concerns the library, and what concerns the device.
    pub fn split(self) -> (parts: (LibraryPreferences, DevicePreferences))
        ensures
            parts.0.application_name == self.application_name,
            parts.0.application_version == self.application_version,
            parts.1.preferred_physical_device == self.preferred_physical_device,
            parts.1.preferred_physical_device_type == self.preferred_physical_device_type,
    {
        (
            LibraryPreferences {
                application_name: self.application_name,
                application_version: self.application_version,
            },
            DevicePreferences {
                preferred_physical_device: self.preferred_physical_device,
                preferred_physical_device_type: self.preferred_physical_device_type,
            },
        )
    }
}

/// A physical device, as far as it matters to the choice.
pub struct DeviceInfo {
    pub name: String,
    pub kind: DeviceKind,
    pub supports_swapchain: bool,
}

/// How good a kind of device is in general; higher is better.
pub open spec fn kind_rank(kind: DeviceKind) -> int {
    match kind {
        DeviceKind::Other => 0,
        DeviceKind::Cpu => 1,
        DeviceKind::VirtualGpu => 2,
        DeviceKind::IntegratedGpu => 3,
        DeviceKind::DiscreteGpu => 4,
    }
}

impl DevicePreferences {
    /// Whether a device is of the wanted kind.
    pub open spec fn wants_kind(self, device: DeviceInfo) -> bool {
        self.preferred_physical_device_type == Some(device.kind)
    }

    /// Whether a device has the wanted name.
    pub open spec fn wants_name(self, device: DeviceInfo) -> bool {
        self.preferred_physical_device matches Some(name) && name@ == device.name@
    }

    /// How well a device fits: a wanted name counts most, then a wanted kind,
    /// then the kind's general rank.
    pub open spec fn score(self, device: DeviceInfo) -> int {
        let name: int = if self.wants_name(device) {
            2
        } else {
            0
        };
        let kind: int = if self.wants_kind(device) {
            1
        } else {
            0
        };
        (name + kind) * 6 + kind_rank(device.kind)
    }

    /// Whether a device is of the wanted kind.
    pub fn is_preferred_device(&self, device: &DeviceInfo) -> (wanted: bool)
        ensures
            wanted == self.wants_kind(*device),
    {
        match self.preferred_physical_device_type {
            None => false,
            Some(preferred) => preferred == device.kind,
        }
    }

    /// Whether a device has the wanted name.
    pub fn is_preferred_name(&self, device: &DeviceInfo) -> (wanted: bool)
        ensures
            wanted == self.wants_name(*device),
    {
        match &self.preferred_physical_device {
            None => false,
            Some(preferred) => *preferred == device.name,
        }
    }

    /// How well a device fits; higher is better.
    pub fn score_physical_device(&self, device: &DeviceInfo) -> (score: usize)
        ensures
            score == self.score(*device),
            score <= 22,
    {
        let name_score: usize = if self.is_preferred_name(device) {
            2
        } else {
            0
        };
        let kind_score: usize = if self.is_preferred_device(device) {
            1
        } else {
            0
        };
        let rank: usize = match device.kind {
            DeviceKind::Other => 0,
            DeviceKind::Cpu => 1,
            DeviceKind::VirtualGpu => 2,
            DeviceKind::IntegratedGpu => 3,
            DeviceKind::DiscreteGpu => 4,
        };
        (name_score + kind_score) * 6 + rank
    }
}

/// A wanted name overrides everything else, and a wanted kind overrides the
/// general rank of kinds.
pub proof fn preferences_override_rank(
    prefs: DevicePreferences,
    better: DeviceInfo,
    other: DeviceInfo,
)
    ensures
        prefs.wants_name(better) && !prefs.wants_name(other) ==> prefs.score(better) > prefs.score(
            other,
        ),
        prefs.wants_name(better) == prefs.wants_name(other) && prefs.wants_kind(better)
            && !prefs.wants_kind(other) ==> prefs.score(better) > prefs.score(other),
        prefs.wants_name(better) == prefs.wants_name(other) && prefs.wants_kind(better)
            == prefs.wants_kind(other) ==> (prefs.score(better) > prefs.score(other) <==> kind_rank(
            better.kind,
        ) > kind_rank(other.kind)),
{
}

/// Why no device or queue is chosen.
#[derive(Debug, Clone, Copy, PartialEq, Eq, Structural)]
pub enum SelectionError {
    NoPhysicalDevice,
    PhysicalDeviceMissingGraphicsCapabilities,
}

/// Whether a device is the best: it can show what it draws, no such device
/// scores higher, and none behind it scores as high.
pub open spec fn is_best(prefs: DevicePreferences, devices: Seq<DeviceInfo>, best: int) -> bool {
    &&& 0 <= best < devices.len()
    &&& devices[best].supports_swapchain
    &&& forall|j: int|
        0 <= j < devices.len() && (#[trigger] devices[j]).supports_swapchain ==> prefs.score(
            devices[j],
        ) <= prefs.score(devices[best])
    &&& forall|j: int|
        best < j < devices.len() && (#[trigger] devices[j]).supports_swapchain ==> prefs.score(
            devices[j],
        ) < prefs.score(devices[best])
}

/// Finds the best device, by its index.
pub fn select_physical_device(devices: &Vec<DeviceInfo>, prefs: &DevicePreferences) -> (best:
    Result<usize, SelectionError>)
    ensures
        match best {
            Ok(i) => is_best(*prefs, devices@, i as int),
            Err(e) => {
                &&& e == SelectionError::NoPhysicalDevice
                &&& forall|j: int|
                    0 <= j < devices@.len() ==> !(#[trigger] devices@[j]).supports_swapchain
            },
        },
{
    let mut best: Option<(usize, usize)> = None;
    let mut i: usize = 0;
    while i < devices.len()
        invariant
            i <= devices@.len(),
            match best {
                None => forall|j: int|
                    0 <= j < i ==> !(#[trigger] devices@[j]).supports_swapchain,
                Some((k, score)) => {
                    &&& k < i
                    &&& score == prefs.score(devices@[k as int])
                    &&& is_best(*prefs, devices@.subrange(0, i as int), k as int)
                },
            },
        decreases devices@.len() - i,
    {
        let ghost seen = devices@.subrange(0, i as int);
        let ghost next = devices@.subrange(0, i + 1);
        assert(forall|j: int| 0 <= j < i ==> seen[j] == next[j]);
        assert(next[i as int] == devices@[i as int]);
        if devices[i].supports_swapchain {
            let score = prefs.score_physical_device(&devices[i]);
            match best {
                None => {
                    best = Some((i, score));
                    assert(is_best(*prefs, next, i as int));
                },
                Some((k, high)) => {
                    if score >= high {
                        best = Some((i, score));
                        assert forall|j: int|
                            0 <= j < next.len()
                                && (#[trigger] next[j]).supports_swapchain implies prefs.score(
                            next[j],
                        ) <= prefs.score(next[i as int]) by {
                            if j < i {
                                assert(seen[j].supports_swapchain);
                            }
                        }
                        assert(is_best(*prefs, next, i as int));
                    } else {
                        assert(is_best(*prefs, next, k as int));
                    }
                },
            }
        } else {
            if let Some((k, _)) = best {
                assert(is_best(*prefs, next, k as int));
            }
        }
        i += 1;
    }
    assert(devices@.subrange(0, devices@.len() as int) =~= devices@);
    match best {
        None => Err(SelectionError::NoPhysicalDevice),
        Some((k, _)) => Ok(k),
    }
}

/// Which queue is rendered with.
pub struct QueueBookmarks {
    pub family_idx: u32,
}

/// Chooses the first queue family that can draw. The families are given by
/// whether each can.
pub fn select_queue_family(can_draw: &Vec<bool>) -> (bookmarks: Result<
    QueueBookmarks,
    SelectionError,
>)
    requires
        can_draw@.len() <= u32::MAX,
    ensures
        match bookmarks {
            Ok(b) => {
                &&& b.family_idx < can_draw@.len()
                &&& can_draw@[b.family_idx as int]
                &&& forall|j: int| 0 <= j < b.family_idx ==> !(#[trigger] can_draw@[j])
            },
            Err(e) => {
                &&& e == SelectionError::PhysicalDeviceMissingGraphicsCapabilities
                &&& forall|j: int| 0 <= j < can_draw@.len() ==> !(#[trigger] can_draw@[j])
            },
        },
{
    let mut i: usize = 0;
    while i < can_draw.len()
        invariant
            i <= can_draw@.len() <= u32::MAX,
            forall|j: int| 0 <= j < i ==> !(#[trigger] can_draw@[j]),
        decreases can_draw@.len() - i,
    {
        if can_draw[i] {
            return Ok(QueueBookmarks { family_idx: i as u32 });
        }
        i += 1;
    }
    Err(SelectionError::PhysicalDeviceMissingGraphicsCapabilities)
}

/// Without a preference, a graphics card of its own is better than one in the
/// processor, that one better than a virtual one, then comes the processor,
/// and last any other.
pub proof fn cards_of_their_own_come_first(prefs: DevicePreferences, a: DeviceInfo, b: DeviceInfo)
    requires
        prefs.preferred_physical_device is None,
        prefs.preferred_physical_device_type is None,
    ensures
        prefs.score(a) > prefs.score(b) <==> match a.kind {
            DeviceKind::DiscreteGpu => !(b.kind is DiscreteGpu),
            DeviceKind::IntegratedGpu => b.kind is VirtualGpu || b.kind is Cpu || b.kind is Other,
            DeviceKind::VirtualGpu => b.kind is Cpu || b.kind is Other,
            DeviceKind::Cpu => b.kind is Other,
            DeviceKind::Other => false,
        },
        a.kind == b.kind ==> prefs.score(a) == prefs.score(b),
{
}

/// A device with the preferred name beats every other, whatever their kinds;
/// among those with or without it, one of the preferred kind beats the rest.
pub proof fn a_preferred_device_beats_the_rest(
    prefs: DevicePreferences,
    a: DeviceInfo,
    b: DeviceInfo,
)
    ensures
        prefs.preferred_physical_device matches Some(name) ==> {
            &&& a.name@ == name@ && b.name@ != name@ ==> prefs.score(a) > prefs.score(b)
            &&& prefs.preferred_physical_device_type matches Some(kind) ==> (a.name@ == name@
                <==> b.name@ == name@) ==> a.kind == kind && b.kind != kind ==> prefs.score(a)
                > prefs.score(b)
        },
        prefs.preferred_physical_device is None ==> {
            prefs.preferred_physical_device_type matches Some(kind) ==> a.kind == kind && b.kind
                != kind ==> prefs.score(a) > prefs.score(b)
        },
        a.name@ == b.name@ && a.kind == b.kind ==> prefs.score(a) == prefs.score(b),
        prefs.wants_kind(a) <==> prefs.preferred_physical_device_type == Some(a.kind),
        prefs.wants_name(a) <==> prefs.preferred_physical_device is Some
            && prefs.preferred_physical_device->0@ == a.name@,
{
}

/// The best device is one that can show what it draws; none that can scores
/// higher, none behind it as high, and there is no second best one.
pub proof fn the_best_device_is_the_last_of_the_highest(
    prefs: DevicePreferences,
    devices: Seq<DeviceInfo>,
    best: int,
    other: int,
)
    requires
        is_best(prefs, devices, best),
        0 <= other < devices.len(),
        devices[other].supports_swapchain,
    ensures
        0 <= best < devices.len(),
        devices[best].supports_swapchain,
        prefs.score(devices[other]) <= prefs.score(devices[best]),
        prefs.score(devices[other]) == prefs.score(devices[best]) ==> other <= best,
        is_best(prefs, devices, other) ==> other == best,
{
}

} // verus!
