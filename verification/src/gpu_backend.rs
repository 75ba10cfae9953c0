//! Adaptive render backend: hardware tiers and GPU capability heuristics,
//! the render-command pool, the texture atlas and the software (CPU)
//! rasteriser with alpha blending and ordered dithering.

use vstd::prelude::*;
use crate::platform::{TargetOs, TargetArch};

verus! {

// ---------------------------------------------------------------------------
// Hardware tiers
// ---------------------------------------------------------------------------

/// Rendering capability class of the machine, weakest first.
#[derive(Debug, Clone, Copy, PartialEq, Eq, PartialOrd, Ord, Structural)]
pub enum HardwareTier {
    /// Software rendering only.
    CpuOnly,
    /// Basic integrated GPU.
    IntegratedGpu,
    /// Mid-range discrete or high-end mobile GPU.
    MidRangeGpu,
    /// High-end GPU.
    HighEndGpu,
}

/// Rank of a tier: 0 for `CpuOnly` up to 3 for `HighEndGpu`.
pub open spec fn tier_rank(t: HardwareTier) -> int {
    match t {
        HardwareTier::CpuOnly => 0,
        HardwareTier::IntegratedGpu => 1,
        HardwareTier::MidRangeGpu => 2,
        HardwareTier::HighEndGpu => 3,
    }
}

/// Tiles per side of a grid of `tiles` tiles: the least `c` with `c * c >= tiles`.
pub open spec fn is_ceil_sqrt(c: int, tiles: int) -> bool {
    c >= 1 && c * c >= tiles && (c - 1) * (c - 1) < tiles
}

/// Least `c >= 1` with `c * c >= n`.
pub fn ceil_sqrt(n: u32) -> (c: u32)
    requires
        n >= 1,
    ensures
        is_ceil_sqrt(c as int, n as int),
        c <= 65536,
{
    let mut c: u64 = 1;
    while c * c < n as u64
        invariant
            1 <= c <= 65536,
            c * c <= 4294967296,
            (c - 1) * (c - 1) < n,
            n <= u32::MAX,
        decreases 65536 - c,
    {
        assert(c * c < n);
        assert(c < 65536) by (nonlinear_arith)
            requires
                c * c < n,
                n <= u32::MAX,
                c >= 1,
        ;
        assert((c + 1) * (c + 1) <= 4294967296) by (nonlinear_arith)
            requires
                c < 65536,
        ;
        c = c + 1;
    }
    c as u32
}

impl HardwareTier {
    /// Tier that the detected GPU capabilities call for: `CpuOnly` for GPU
    /// tier 0, then integrated, mid-range and high-end for 1, 2 and 3 or more.
    pub fn current(caps: &GpuCapabilities) -> (r: HardwareTier)
        ensures
            tier_rank(r) == (if caps.tier >= 3 { 3 } else { caps.tier as int }),
    {
        if caps.tier == 0 {
            return HardwareTier::CpuOnly;
        }
        match caps.tier {
            1 => HardwareTier::IntegratedGpu,
            2 => HardwareTier::MidRangeGpu,
            _ => HardwareTier::HighEndGpu,
        }
    }

    /// Compute shaders are used from the mid-range tier on.
    pub fn supports_compute_shaders(&self) -> (r: bool)
        ensures
            r == (tier_rank(*self) >= 2),
    {
        match self {
            HardwareTier::MidRangeGpu | HardwareTier::HighEndGpu => true,
            _ => false,
        }
    }

    /// Every tier but `CpuOnly` renders on the GPU.
    pub fn supports_gpu_rendering(&self) -> (r: bool)
        ensures
            r == (*self != HardwareTier::CpuOnly),
    {
        match self {
            HardwareTier::CpuOnly => false,
            _ => true,
        }
    }

    /// Largest texture side: 512, 1024, 2048, 4096.
    pub fn max_texture_size(&self) -> (r: u32)
        ensures
            r == match *self {
                HardwareTier::CpuOnly => 512u32,
                HardwareTier::IntegratedGpu => 1024u32,
                HardwareTier::MidRangeGpu => 2048u32,
                HardwareTier::HighEndGpu => 4096u32,
            },
    {
        match self {
            HardwareTier::CpuOnly => 512,
            HardwareTier::IntegratedGpu => 1024,
            HardwareTier::MidRangeGpu => 2048,
            HardwareTier::HighEndGpu => 4096,
        }
    }

    /// Texture units in use at once: 16, 32, 64, 128.
    pub fn max_texture_units(&self) -> (r: u32)
        ensures
            r == match *self {
                HardwareTier::CpuOnly => 16u32,
                HardwareTier::IntegratedGpu => 32u32,
                HardwareTier::MidRangeGpu => 64u32,
                HardwareTier::HighEndGpu => 128u32,
            },
    {
        match self {
            HardwareTier::CpuOnly => 16,
            HardwareTier::IntegratedGpu => 32,
            HardwareTier::MidRangeGpu => 64,
            HardwareTier::HighEndGpu => 128,
        }
    }

    /// MSAA samples: 1, 1, 2, 4.
    pub fn msaa_samples(&self) -> (r: u32)
        ensures
            r == match *self {
                HardwareTier::CpuOnly => 1u32,
                HardwareTier::IntegratedGpu => 1u32,
                HardwareTier::MidRangeGpu => 2u32,
                HardwareTier::HighEndGpu => 4u32,
            },
    {
        match self {
            HardwareTier::CpuOnly => 1,
            HardwareTier::IntegratedGpu => 1,
            HardwareTier::MidRangeGpu => 2,
            HardwareTier::HighEndGpu => 4,
        }
    }

    /// Tiles for parallel rendering: one per CPU core on `CpuOnly`, else 4, 8, 16.
    pub fn optimal_tile_count(&self, cpu_cores: u8) -> (r: u32)
        ensures
            r == match *self {
                HardwareTier::CpuOnly => cpu_cores as u32,
                HardwareTier::IntegratedGpu => 4u32,
                HardwareTier::MidRangeGpu => 8u32,
                HardwareTier::HighEndGpu => 16u32,
            },
    {
        match self {
            HardwareTier::CpuOnly => cpu_cores as u32,
            HardwareTier::IntegratedGpu => 4,
            HardwareTier::MidRangeGpu => 8,
            HardwareTier::HighEndGpu => 16,
        }
    }

    /// Size of one tile when the screen is cut into a grid of
    /// `ceil(sqrt(tiles))` columns and as many rows as needed.
    pub fn tile_size(&self, cpu_cores: u8, screen_w: u32, screen_h: u32) -> (r: (u32, u32))
        ensures
            exists|cols: int| #[trigger] is_ceil_sqrt(cols, self.tiles_used(cpu_cores))
                && r.0 as int == screen_w as int / cols
                && r.1 as int == screen_h as int / ((self.tiles_used(cpu_cores) + cols - 1) / cols),
    {
        let count = self.optimal_tile_count(cpu_cores);
        assert(count == self.optimal_tile_count_spec(cpu_cores));
        let tiles = if count >= 1 { count } else { 1 };
        let ghost spec_tiles = self.tiles_used(cpu_cores);
        assert(tiles == spec_tiles);
        let cols = ceil_sqrt(tiles);
        assert(cols <= tiles) by (nonlinear_arith)
            requires
                is_ceil_sqrt(cols as int, tiles as int),
                tiles >= 1,
        ;
        let rows = (tiles + cols - 1) / cols;
        assert(rows >= 1) by (nonlinear_arith)
            requires
                rows as int == (tiles + cols - 1) as int / cols as int,
                cols >= 1,
                tiles >= 1,
        ;
        let r = (screen_w / cols, screen_h / rows);
        assert(is_ceil_sqrt(cols as int, tiles as int));
        assert(r.1 as int == screen_h as int / ((tiles as int + cols as int - 1) / cols as int));
        assert(is_ceil_sqrt(cols as int, spec_tiles) && r.0 as int == screen_w as int / (cols as int)
            && r.1 as int == screen_h as int / ((spec_tiles + cols as int - 1) / (cols as int)));
        r
    }

    /// Tiles actually used: the optimal count, at least one.
    pub open spec fn tiles_used(self, cpu_cores: u8) -> int {
        if self.optimal_tile_count_spec(cpu_cores) >= 1 { self.optimal_tile_count_spec(cpu_cores) } else { 1 }
    }

    /// Spec form of [`Self::optimal_tile_count`].
    pub open spec fn optimal_tile_count_spec(self, cpu_cores: u8) -> int {
        match self {
            HardwareTier::CpuOnly => cpu_cores as int,
            HardwareTier::IntegratedGpu => 4,
            HardwareTier::MidRangeGpu => 8,
            HardwareTier::HighEndGpu => 16,
        }
    }

    /// SSAO only on the high-end tier.
    pub fn use_ssao(&self) -> (r: bool)
        ensures
            r == (*self == HardwareTier::HighEndGpu),
    {
        match self {
            HardwareTier::HighEndGpu => true,
            _ => false,
        }
    }

    /// Dynamic shadows from the mid-range tier on.
    pub fn use_dynamic_shadows(&self) -> (r: bool)
        ensures
            r == (tier_rank(*self) >= 2),
    {
        match self {
            HardwareTier::MidRangeGpu | HardwareTier::HighEndGpu => true,
            _ => false,
        }
    }
}

// ---------------------------------------------------------------------------
// GPU API and capabilities
// ---------------------------------------------------------------------------

/// Graphics API in use.
#[derive(Debug, Clone, Copy, PartialEq, Eq, Structural)]
pub enum GpuApi {
    NoGpu,
    Vulkan,
    Dx12,
    Metal,
    OpenGlEs,
    OpenGl,
    WebGpu,
}

impl GpuApi {
    /// Best API of a platform: Vulkan or OpenGL ES on Android; DirectX 12,
    /// Vulkan or OpenGL on Windows; Metal on macOS; Vulkan or OpenGL on
    /// Linux; WebGPU on wasm32; none elsewhere.
    pub fn detect(os: TargetOs, arch: TargetArch, has_vulkan: bool, has_dx12: bool) -> (r: GpuApi)
        ensures
            r == match os {
                TargetOs::Android => if has_vulkan { GpuApi::Vulkan } else { GpuApi::OpenGlEs },
                TargetOs::Windows => if has_dx12 { GpuApi::Dx12 } else if has_vulkan { GpuApi::Vulkan } else { GpuApi::OpenGl },
                TargetOs::MacOs => GpuApi::Metal,
                TargetOs::Linux => if has_vulkan { GpuApi::Vulkan } else { GpuApi::OpenGl },
                TargetOs::Other => if arch == TargetArch::Wasm32 { GpuApi::WebGpu } else { GpuApi::NoGpu },
            },
    {
        match os {
            TargetOs::Android => {
                if has_vulkan {
                    return GpuApi::Vulkan;
                }
                GpuApi::OpenGlEs
            },
            TargetOs::Windows => {
                if has_dx12 {
                    return GpuApi::Dx12;
                }
                if has_vulkan {
                    return GpuApi::Vulkan;
                }
                GpuApi::OpenGl
            },
            TargetOs::MacOs => GpuApi::Metal,
            TargetOs::Linux => {
                if has_vulkan {
                    return GpuApi::Vulkan;
                }
                GpuApi::OpenGl
            },
            TargetOs::Other => {
                match arch {
                    TargetArch::Wasm32 => GpuApi::WebGpu,
                    _ => GpuApi::NoGpu,
                }
            },
        }
    }

    /// Display name of the API.
    pub fn name(&self) -> (r: &'static str)
        ensures
            r@ == match *self {
                GpuApi::NoGpu => "CPU-SIMD"@,
                GpuApi::Vulkan => "Vulkan"@,
                GpuApi::Dx12 => "DirectX 12"@,
                GpuApi::Metal => "Metal"@,
                GpuApi::OpenGlEs => "OpenGL ES 3.0"@,
                GpuApi::OpenGl => "OpenGL 3.3"@,
                GpuApi::WebGpu => "WebGPU"@,
            },
    {
        match self {
            GpuApi::NoGpu => "CPU-SIMD",
            GpuApi::Vulkan => "Vulkan",
            GpuApi::Dx12 => "DirectX 12",
            GpuApi::Metal => "Metal",
            GpuApi::OpenGlEs => "OpenGL ES 3.0",
            GpuApi::OpenGl => "OpenGL 3.3",
            GpuApi::WebGpu => "WebGPU",
        }
    }

    /// Every API but `NoGpu` is a GPU API.
    pub fn is_gpu(&self) -> (r: bool)
        ensures
            r == (*self != GpuApi::NoGpu),
    {
        match self {
            GpuApi::NoGpu => false,
            _ => true,
        }
    }

    /// Vulkan, DirectX 12, Metal and WebGPU offer compute shaders.
    pub fn supports_compute(&self) -> (r: bool)
        ensures
            r == (*self == GpuApi::Vulkan || *self == GpuApi::Dx12 || *self == GpuApi::Metal
                || *self == GpuApi::WebGpu),
    {
        match self {
            GpuApi::Vulkan | GpuApi::Dx12 | GpuApi::Metal | GpuApi::WebGpu => true,
            _ => false,
        }
    }
}

/// What was found out about the GPU.
#[derive(Debug, Clone, Copy)]
pub struct GpuCapabilities {
    pub tier: u8,
    pub vram_mb: u32,
    pub supports_compute: bool,
    pub supports_msaa: bool,
    pub supports_anisotropy: bool,
    pub max_texture_size: u32,
    pub compute_units: u32,
    pub api: GpuApi,
}

/// The capabilities assumed before anything is detected.
pub open spec fn default_caps() -> GpuCapabilities {
    GpuCapabilities {
        tier: 0,
        vram_mb: 0,
        supports_compute: false,
        supports_msaa: false,
        supports_anisotropy: false,
        max_texture_size: 512,
        compute_units: 0,
        api: GpuApi::NoGpu,
    }
}

impl Default for GpuCapabilities {
    fn default() -> (r: Self)
        ensures
            r == default_caps(),
    {
        GpuCapabilities {
            tier: 0,
            vram_mb: 0,
            supports_compute: false,
            supports_msaa: false,
            supports_anisotropy: false,
            max_texture_size: 512,
            compute_units: 0,
            api: GpuApi::NoGpu,
        }
    }
}

/// What the platform probes read: total memory from `/proc/meminfo` (KiB)
/// and whether the kgsl GPU model names a high-end part (Android); total
/// RAM in MiB (Windows); whether a DRM driver is present (Linux).
#[derive(Debug, Clone, Copy)]
pub struct GpuProbe {
    pub android_mem_total_kb: Option<u32>,
    pub android_high_end_gpu_name: bool,
    pub windows_total_ram_mb: Option<u64>,
    pub linux_driver_present: bool,
}

/// Android heuristics: a quarter of RAM (at most 4 GiB) as VRAM; tier 3 with
/// compute from 8 GiB of RAM, tier 2 from 4 GiB, else tier 1; a high-end GPU
/// name forces tier 3 with compute; never below tier 1.
pub open spec fn android_caps(caps: GpuCapabilities, mem_total_kb: Option<u32>, high_end_gpu_name: bool) -> GpuCapabilities {
    let base = GpuCapabilities { supports_msaa: true, supports_anisotropy: true, ..caps };
    let by_mem = match mem_total_kb {
        Some(kb) => {
            let total_mb = kb / 1024;
            let vram = if total_mb / 4 < 4096 { total_mb / 4 } else { 4096 };
            if total_mb >= 8192 {
                GpuCapabilities { vram_mb: vram, tier: 3, supports_compute: true, max_texture_size: 4096, compute_units: 12, ..base }
            } else if total_mb >= 4096 {
                GpuCapabilities { vram_mb: vram, tier: 2, max_texture_size: 2048, compute_units: 8, ..base }
            } else {
                GpuCapabilities { vram_mb: vram, tier: 1, max_texture_size: 1024, compute_units: 4, ..base }
            }
        },
        None => base,
    };
    let named = if high_end_gpu_name { GpuCapabilities { tier: 3, supports_compute: true, ..by_mem } } else { by_mem };
    if named.tier == 0 { GpuCapabilities { tier: 1, ..named } } else { named }
}

/// Android devices are classed by their memory: from 8 GiB (8192 MiB of
/// total memory) tier 3 with compute, from 4 GiB up to but not including
/// 8 GiB tier 2, below 4 GiB tier 1; a quarter of the memory, at most
/// 4 GiB, counts as VRAM; a high-end GPU name always gives tier 3 with
/// compute; the tier is never below 1, and more memory never gives a lower
/// tier or less VRAM.
pub proof fn lemma_android_tiers_by_memory(caps: GpuCapabilities, kb: u32, more_kb: u32, named: bool)
    requires
        kb <= more_kb,
    ensures
        ({
            let mb = kb / 1024;
            let r = android_caps(caps, Some(kb), false);
            &&& (mb >= 8192 <==> r.tier == 3)
            &&& (4096 <= mb < 8192 <==> r.tier == 2)
            &&& (mb < 4096 <==> r.tier == 1)
            &&& r.vram_mb == (if mb / 4 < 4096 { mb / 4 } else { 4096 })
            &&& (mb >= 8192 ==> r.supports_compute)
            &&& r.supports_msaa && r.supports_anisotropy
        }),
        android_caps(caps, Some(kb), false).tier <= android_caps(caps, Some(more_kb), false).tier,
        android_caps(caps, Some(kb), false).vram_mb <= android_caps(caps, Some(more_kb), false).vram_mb,
        android_caps(caps, Some(kb), true).tier == 3 && android_caps(caps, Some(kb), true).supports_compute,
        android_caps(caps, None, named).tier >= 1,
        named ==> android_caps(caps, None, named).tier == 3,
{
}

/// Android heuristics, see [`android_caps`].
pub fn detect_android_gpu(caps: GpuCapabilities, mem_total_kb: Option<u32>, high_end_gpu_name: bool) -> (r: GpuCapabilities)
    ensures
        r == android_caps(caps, mem_total_kb, high_end_gpu_name),
{
    let mut caps = caps;
    caps.supports_msaa = true;
    caps.supports_anisotropy = true;
    if let Some(kb) = mem_total_kb {
        let total_mb = kb / 1024;
        caps.vram_mb = if total_mb / 4 < 4096 { total_mb / 4 } else { 4096 };
        if total_mb >= 8192 {
            caps.tier = 3;
            caps.supports_compute = true;
            caps.max_texture_size = 4096;
            caps.compute_units = 12;
        } else if total_mb >= 4096 {
            caps.tier = 2;
            caps.max_texture_size = 2048;
            caps.compute_units = 8;
        } else {
            caps.tier = 1;
            caps.max_texture_size = 1024;
            caps.compute_units = 4;
        }
    }
    if high_end_gpu_name {
        caps.tier = 3;
        caps.supports_compute = true;
    }
    if caps.tier == 0 {
        caps.tier = 1;
    }
    caps
}

/// Windows heuristics from total RAM (8 GiB assumed when unknown): tier 3
/// from 32 GiB, tier 2 from 16 GiB, tier 1 otherwise (with smaller figures
/// below 8 GiB); MSAA, anisotropy and compute always on.
pub open spec fn windows_caps(caps: GpuCapabilities, total_ram_mb: Option<u64>) -> GpuCapabilities {
    let base = GpuCapabilities { supports_msaa: true, supports_anisotropy: true, supports_compute: true, ..caps };
    let ram = match total_ram_mb { Some(m) => m, None => 8192u64 };
    if ram >= 32768 {
        GpuCapabilities { tier: 3, vram_mb: 8192, max_texture_size: 4096, compute_units: 32, ..base }
    } else if ram >= 16384 {
        GpuCapabilities { tier: 2, vram_mb: 4096, max_texture_size: 2048, compute_units: 16, ..base }
    } else if ram >= 8192 {
        GpuCapabilities { tier: 1, vram_mb: 2048, max_texture_size: 1024, compute_units: 8, ..base }
    } else {
        GpuCapabilities { tier: 1, vram_mb: 1024, max_texture_size: 512, compute_units: 4, ..base }
    }
}

/// Windows machines are classed by their RAM in three bands, each with its
/// own figures: from 32 GiB (32768 MiB) high-end (tier 3, 8 GiB of VRAM,
/// 4096-pixel textures, 32 compute units); from 16 GiB up to but not
/// including 32 GiB mid-range (tier 2, 4 GiB, 2048, 16); below 16 GiB tier 1
/// (2 GiB, 1024, 8 from 8 GiB; 1 GiB, 512, 4 below). More RAM never gives a
/// lower tier or less VRAM, unknown RAM counts as 8 GiB, the other fields
/// are kept, and MSAA, anisotropy and compute are always on.
pub proof fn lemma_windows_tiers_by_ram(caps: GpuCapabilities, ram: u64, more: u64)
    requires
        ram <= more,
    ensures
        ({
            let r = windows_caps(caps, Some(ram));
            &&& (ram >= 32768 <==> r.tier == 3)
            &&& (16384 <= ram < 32768 <==> r.tier == 2)
            &&& (ram < 16384 <==> r.tier == 1)
            &&& r.tier == 3 ==> r.vram_mb == 8192 && r.max_texture_size == 4096 && r.compute_units == 32
            &&& r.tier == 2 ==> r.vram_mb == 4096 && r.max_texture_size == 2048 && r.compute_units == 16
            &&& 8192 <= ram < 16384 ==> r.vram_mb == 2048 && r.max_texture_size == 1024 && r.compute_units == 8
            &&& ram < 8192 ==> r.vram_mb == 1024 && r.max_texture_size == 512 && r.compute_units == 4
            &&& r.supports_msaa && r.supports_anisotropy && r.supports_compute
            &&& r.api == caps.api
        }),
        windows_caps(caps, Some(ram)).tier <= windows_caps(caps, Some(more)).tier,
        windows_caps(caps, Some(ram)).vram_mb <= windows_caps(caps, Some(more)).vram_mb,
        windows_caps(caps, None) == windows_caps(caps, Some(8192)),
{
}

/// Windows heuristics, see [`windows_caps`].
pub fn detect_windows_gpu(caps: GpuCapabilities, total_ram_mb: Option<u64>) -> (r: GpuCapabilities)
    ensures
        r == windows_caps(caps, total_ram_mb),
{
    let mut caps = caps;
    caps.supports_msaa = true;
    caps.supports_anisotropy = true;
    caps.supports_compute = true;
    let total_ram_mb: u64 = match total_ram_mb {
        Some(m) => m,
        None => 8192,
    };
    if total_ram_mb >= 32768 {
        caps.tier = 3;
        caps.vram_mb = 8192;
        caps.max_texture_size = 4096;
        caps.compute_units = 32;
    } else if total_ram_mb >= 16384 {
        caps.tier = 2;
        caps.vram_mb = 4096;
        caps.max_texture_size = 2048;
        caps.compute_units = 16;
    } else if total_ram_mb >= 8192 {
        caps.tier = 1;
        caps.vram_mb = 2048;
        caps.max_texture_size = 1024;
        caps.compute_units = 8;
    } else {
        caps.tier = 1;
        caps.vram_mb = 1024;
        caps.max_texture_size = 512;
        caps.compute_units = 4;
    }
    caps
}

/// macOS: Apple GPUs are tier 2 with 4 GiB of unified memory.
pub open spec fn macos_caps(caps: GpuCapabilities) -> GpuCapabilities {
    GpuCapabilities {
        tier: 2,
        vram_mb: 4096,
        supports_compute: true,
        supports_msaa: true,
        supports_anisotropy: true,
        max_texture_size: 4096,
        compute_units: 16,
        api: caps.api,
    }
}

/// macOS heuristics, see [`macos_caps`].
pub fn detect_macos_gpu(caps: GpuCapabilities) -> (r: GpuCapabilities)
    ensures
        r == (GpuCapabilities {
            tier: 2,
            vram_mb: 4096,
            supports_compute: true,
            supports_msaa: true,
            supports_anisotropy: true,
            max_texture_size: 4096,
            compute_units: 16,
            api: caps.api,
        }),
{
    let mut caps = caps;
    caps.supports_msaa = true;
    caps.supports_anisotropy = true;
    caps.supports_compute = true;
    caps.tier = 2;
    caps.vram_mb = 4096;
    caps.max_texture_size = 4096;
    caps.compute_units = 16;
    caps
}

/// Linux: tier 2 when a DRM driver is present, tier 1 otherwise.
pub open spec fn linux_caps(caps: GpuCapabilities, driver_present: bool) -> GpuCapabilities {
    if driver_present {
        GpuCapabilities {
            tier: 2,
            vram_mb: 4096,
            supports_compute: true,
            supports_msaa: true,
            supports_anisotropy: true,
            max_texture_size: 2048,
            compute_units: 16,
            api: caps.api,
        }
    } else {
        GpuCapabilities {
            tier: 1,
            vram_mb: 1024,
            supports_compute: true,
            supports_msaa: true,
            supports_anisotropy: true,
            max_texture_size: 1024,
            compute_units: 4,
            api: caps.api,
        }
    }
}

/// Linux heuristics, see [`linux_caps`].
pub fn detect_linux_gpu(caps: GpuCapabilities, driver_present: bool) -> (r: GpuCapabilities)
    ensures
        r == (if driver_present {
            GpuCapabilities {
                tier: 2,
                vram_mb: 4096,
                supports_compute: true,
                supports_msaa: true,
                supports_anisotropy: true,
                max_texture_size: 2048,
                compute_units: 16,
                api: caps.api,
            }
        } else {
            GpuCapabilities {
                tier: 1,
                vram_mb: 1024,
                supports_compute: true,
                supports_msaa: true,
                supports_anisotropy: true,
                max_texture_size: 1024,
                compute_units: 4,
                api: caps.api,
            }
        }),
{
    let mut caps = caps;
    caps.supports_msaa = true;
    caps.supports_anisotropy = true;
    caps.supports_compute = true;
    if driver_present {
        caps.tier = 2;
        caps.vram_mb = 4096;
        caps.max_texture_size = 2048;
        caps.compute_units = 16;
    } else {
        caps.tier = 1;
        caps.vram_mb = 1024;
        caps.max_texture_size = 1024;
        caps.compute_units = 4;
    }
    caps
}

/// Capabilities of the platform: defaults when there is no GPU API,
/// otherwise the platform heuristics applied to what the probes read.
pub fn detect_gpu_capabilities(os: TargetOs, api: GpuApi, probe: GpuProbe) -> (r: GpuCapabilities)
    ensures
        r.api == api,
        api == GpuApi::NoGpu ==> r == (GpuCapabilities { api: GpuApi::NoGpu, ..default_caps() }),
        api != GpuApi::NoGpu ==> r == match os {
            TargetOs::Android => android_caps(GpuCapabilities { api, ..default_caps() },
                probe.android_mem_total_kb, probe.android_high_end_gpu_name),
            TargetOs::Windows => windows_caps(GpuCapabilities { api, ..default_caps() },
                probe.windows_total_ram_mb),
            TargetOs::MacOs => macos_caps(GpuCapabilities { api, ..default_caps() }),
            TargetOs::Linux => linux_caps(GpuCapabilities { api, ..default_caps() },
                probe.linux_driver_present),
            TargetOs::Other => GpuCapabilities { api, ..default_caps() },
        },
{
    let mut caps = GpuCapabilities::default();
    caps.api = api;
    match api {
        GpuApi::NoGpu => {
            return caps;
        },
        _ => {},
    }
    match os {
        TargetOs::Android => detect_android_gpu(caps, probe.android_mem_total_kb, probe.android_high_end_gpu_name),
        TargetOs::Windows => detect_windows_gpu(caps, probe.windows_total_ram_mb),
        TargetOs::MacOs => detect_macos_gpu(caps),
        TargetOs::Linux => detect_linux_gpu(caps, probe.linux_driver_present),
        TargetOs::Other => caps,
    }
}

// ---------------------------------------------------------------------------
// Alpha blending and ordered dithering
// ---------------------------------------------------------------------------

/// Channel of an ARGB colour at bit offset `shift` (24 alpha, 16 red, 8 green, 0 blue).
pub open spec fn chan(c: u32, shift: u32) -> u32 {
    (c >> shift) & 0xFFu32
}

/// Channel of `fg` laid over `bg` with opacity `a` (0 to 255), rounded down.
pub open spec fn mix(f: u32, b: u32, a: u32) -> u32 {
    ((f * a + b * (255 - a)) / 255) as u32
}

/// `fg` laid over `bg` by the alpha of `fg`: `bg` when fully transparent,
/// `fg` when opaque, otherwise each colour channel mixed and the result opaque.
pub open spec fn blend_spec(bg: u32, fg: u32) -> u32 {
    let a = chan(fg, 24);
    if a == 0 {
        bg
    } else if a == 255 {
        fg
    } else {
        0xFF00_0000u32 | (mix(chan(fg, 16), chan(bg, 16), a) << 16u32)
            | (mix(chan(fg, 8), chan(bg, 8), a) << 8u32) | mix(chan(fg, 0), chan(bg, 0), a)
    }
}

proof fn lemma_chan_bound(c: u32, shift: u32)
    by (bit_vector)
    ensures
        (c >> shift) & 0xFFu32 <= 0xFFu32,
{
}

proof fn lemma_mix_bound(f: u32, b: u32, a: u32)
    requires
        f <= 255,
        b <= 255,
        a <= 255,
    ensures
        f * a + b * (255 - a) <= 65025,
        mix(f, b, a) <= 255,
        mix(f, b, a) as int == (f * a + b * (255 - a)) / 255,
        (f <= b ==> f <= mix(f, b, a) <= b),
        (b <= f ==> b <= mix(f, b, a) <= f),
{
    assert(f * a + b * (255 - a) <= 65025) by (nonlinear_arith)
        requires
            f <= 255,
            b <= 255,
            a <= 255,
    ;
    assert(f <= b ==> f * 255 <= f * a + b * (255 - a) <= b * 255) by (nonlinear_arith)
        requires
            a <= 255,
    ;
    assert(b <= f ==> b * 255 <= f * a + b * (255 - a) <= f * 255) by (nonlinear_arith)
        requires
            a <= 255,
    ;
}

/// Blending never leaves the range spanned by the two inputs: each colour
/// channel of the result lies between the matching channels of `bg` and `fg`.
pub proof fn lemma_blend_between(bg: u32, fg: u32, shift: u32)
    requires
        shift == 0 || shift == 8 || shift == 16,
        0 < chan(fg, 24) < 255,
    ensures
        chan(bg, shift) <= chan(fg, shift) ==> chan(bg, shift) <= chan(blend_spec(bg, fg), shift) <= chan(fg, shift),
        chan(fg, shift) <= chan(bg, shift) ==> chan(fg, shift) <= chan(blend_spec(bg, fg), shift) <= chan(bg, shift),
        chan(blend_spec(bg, fg), 24) == 255,
{
    let a = chan(fg, 24);
    lemma_chan_bound(fg, 24);
    lemma_chan_bound(fg, 16);
    lemma_chan_bound(bg, 16);
    lemma_chan_bound(fg, 8);
    lemma_chan_bound(bg, 8);
    lemma_chan_bound(fg, 0);
    lemma_chan_bound(bg, 0);
    let r = mix(chan(fg, 16), chan(bg, 16), a);
    let g = mix(chan(fg, 8), chan(bg, 8), a);
    let b = mix(chan(fg, 0), chan(bg, 0), a);
    lemma_mix_bound(chan(fg, 16), chan(bg, 16), a);
    lemma_mix_bound(chan(fg, 8), chan(bg, 8), a);
    lemma_mix_bound(chan(fg, 0), chan(bg, 0), a);
    lemma_pack_channels(r, g, b);
}

proof fn lemma_pack_channels(r: u32, g: u32, b: u32)
    by (bit_vector)
    requires
        r <= 255,
        g <= 255,
        b <= 255,
    ensures
        ((0xFF00_0000u32 | (r << 16u32) | (g << 8u32) | b) >> 24u32) & 0xFFu32 == 255,
        ((0xFF00_0000u32 | (r << 16u32) | (g << 8u32) | b) >> 16u32) & 0xFFu32 == r,
        ((0xFF00_0000u32 | (r << 16u32) | (g << 8u32) | b) >> 8u32) & 0xFFu32 == g,
        ((0xFF00_0000u32 | (r << 16u32) | (g << 8u32) | b) >> 0u32) & 0xFFu32 == b,
{
}

/// Lays `fg` over `bg` by the alpha of `fg`.
pub fn blend_pixel(bg: u32, fg: u32) -> (r: u32)
    ensures
        r == blend_spec(bg, fg),
{
    let fg_a = (fg >> 24) & 0xFF;
    if fg_a == 0 {
        return bg;
    }
    if fg_a == 255 {
        return fg;
    }
    let bg_r = (bg >> 16) & 0xFF;
    let bg_g = (bg >> 8) & 0xFF;
    let bg_b = bg & 0xFF;
    let fg_r = (fg >> 16) & 0xFF;
    let fg_g = (fg >> 8) & 0xFF;
    let fg_b = fg & 0xFF;
    proof {
        lemma_chan_bound(fg, 24);
        lemma_chan_bound(fg, 16);
        lemma_chan_bound(bg, 16);
        lemma_chan_bound(fg, 8);
        lemma_chan_bound(bg, 8);
        lemma_chan_bound(fg, 0);
        lemma_chan_bound(bg, 0);
        assert(bg & 0xFFu32 == (bg >> 0u32) & 0xFFu32) by (bit_vector);
        assert(fg & 0xFFu32 == (fg >> 0u32) & 0xFFu32) by (bit_vector);
        lemma_mix_bound(fg_r, bg_r, fg_a);
        lemma_mix_bound(fg_g, bg_g, fg_a);
        lemma_mix_bound(fg_b, bg_b, fg_a);
    }
    let inv_a = 255 - fg_a;
    let r = (fg_r * fg_a + bg_r * inv_a) / 255;
    let g = (fg_g * fg_a + bg_g * inv_a) / 255;
    let b = (fg_b * fg_a + bg_b * inv_a) / 255;
    0xFF00_0000 | (r << 16) | (g << 8) | b
}

/// Entry `(y, x)` of the 4x4 Bayer matrix.
pub open spec fn bayer(y: int, x: int) -> u32 {
    if y == 0 {
        if x == 0 { 0 } else if x == 1 { 8 } else if x == 2 { 2 } else { 10 }
    } else if y == 1 {
        if x == 0 { 12 } else if x == 1 { 4 } else if x == 2 { 14 } else { 6 }
    } else if y == 2 {
        if x == 0 { 3 } else if x == 1 { 11 } else if x == 2 { 1 } else { 9 }
    } else {
        if x == 0 { 15 } else if x == 1 { 7 } else if x == 2 { 13 } else { 5 }
    }
}

fn bayer_entry(y: usize, x: usize) -> (r: u32)
    requires
        y < 4,
        x < 4,
    ensures
        r == bayer(y as int, x as int),
{
    if y == 0 {
        if x == 0 { 0 } else if x == 1 { 8 } else if x == 2 { 2 } else { 10 }
    } else if y == 1 {
        if x == 0 { 12 } else if x == 1 { 4 } else if x == 2 { 14 } else { 6 }
    } else if y == 2 {
        if x == 0 { 3 } else if x == 1 { 11 } else if x == 2 { 1 } else { 9 }
    } else {
        if x == 0 { 15 } else if x == 1 { 7 } else if x == 2 { 13 } else { 5 }
    }
}

/// Ordered dithering: `fg` where its alpha beats 16 times the Bayer entry of
/// `(x mod 4, y mod 4)`, otherwise `bg`.
pub open spec fn dither_spec(bg: u32, fg: u32, x: int, y: int) -> u32 {
    if chan(fg, 24) > bayer(y % 4, x % 4) * 16 { fg } else { bg }
}

/// Ordered dithering of `fg` over `bg` at pixel `(x, y)`.
pub fn dithered_pixel(bg: u32, fg: u32, x: usize, y: usize) -> (r: u32)
    ensures
        r == dither_spec(bg, fg, x as int, y as int),
{
    let threshold = bayer_entry(y % 4, x % 4) * 16;
    let fg_a = (fg >> 24) & 0xFF;
    if fg_a > threshold { fg } else { bg }
}

// ---------------------------------------------------------------------------
// Render commands
// ---------------------------------------------------------------------------

/// The command's rectangle or line is alpha blended.
pub const FLAG_ALPHA_BLEND: u8 = 0x01;
/// The command's rectangle is dithered.
pub const FLAG_DITHER: u8 = 0x02;
/// Linear texture filtering.
pub const FLAG_LINEAR_FILTER: u8 = 0x04;
/// Repeated texture.
pub const FLAG_REPEAT: u8 = 0x08;
/// No culling.
pub const FLAG_NO_CULL: u8 = 0x10;

/// One drawing command: primitive 0 rectangle, 1 line, 2 point, 3 sprite,
/// 4 circle, 5 gradient, 6 text.
#[derive(Debug, Clone, Copy, Default)]
pub struct RenderCommand {
    pub primitive_type: u8,
    pub x0: i16,
    pub y0: i16,
    pub x1: i16,
    pub y1: i16,
    pub color: u32,
    pub z_depth: u16,
    pub texture_id: u16,
    pub flags: u8,
    pub _pad: u8,
}

/// Commands of `s` with depth `d`.
pub open spec fn count_eq(s: Seq<RenderCommand>, d: int) -> nat
    decreases s.len(),
{
    if s.len() == 0 {
        0
    } else {
        count_eq(s.drop_last(), d) + (if s.last().z_depth == d { 1nat } else { 0nat })
    }
}

/// Commands of `s` with depth below `d`.
pub open spec fn count_lt(s: Seq<RenderCommand>, d: int) -> nat
    decreases s.len(),
{
    if s.len() == 0 {
        0
    } else {
        count_lt(s.drop_last(), d) + (if s.last().z_depth < d { 1nat } else { 0nat })
    }
}

/// Where a stable sort by depth puts command `i` of `s`: after every
/// shallower command and after the commands of equal depth that come before it.
pub open spec fn depth_rank(s: Seq<RenderCommand>, i: int) -> int {
    (count_lt(s, s[i].z_depth as int) + count_eq(s.take(i), s[i].z_depth as int)) as int
}

proof fn lemma_count_lt_step(s: Seq<RenderCommand>, d: int)
    ensures
        count_lt(s, d + 1) == count_lt(s, d) + count_eq(s, d),
    decreases s.len(),
{
    if s.len() > 0 {
        lemma_count_lt_step(s.drop_last(), d);
    }
}

proof fn lemma_count_lt_mono(s: Seq<RenderCommand>, d: int, e: int)
    requires
        d <= e,
    ensures
        count_lt(s, d) <= count_lt(s, e),
    decreases s.len(),
{
    if s.len() > 0 {
        lemma_count_lt_mono(s.drop_last(), d, e);
    }
}

proof fn lemma_count_lt_all(s: Seq<RenderCommand>, d: int)
    requires
        forall|i: int| 0 <= i < s.len() ==> s[i].z_depth < d,
    ensures
        count_lt(s, d) == s.len(),
    decreases s.len(),
{
    if s.len() > 0 {
        lemma_count_lt_all(s.drop_last(), d);
    }
}

proof fn lemma_count_eq_prefix_le(s: Seq<RenderCommand>, i: int, j: int, d: int)
    requires
        0 <= i <= j <= s.len(),
    ensures
        count_eq(s.take(i), d) <= count_eq(s.take(j), d),
        count_eq(s.take(j), d) <= count_eq(s, d),
    decreases j - i,
{
    if i < j {
        lemma_count_eq_prefix_le(s, i, j - 1, d);
        assert(s.take(j).drop_last() =~= s.take(j - 1));
    }
    lemma_count_eq_take_le(s, j, d);
}

proof fn lemma_count_eq_take_le(s: Seq<RenderCommand>, j: int, d: int)
    requires
        0 <= j <= s.len(),
    ensures
        count_eq(s.take(j), d) <= count_eq(s, d),
    decreases s.len() - j,
{
    if j < s.len() {
        lemma_count_eq_take_le(s, j + 1, d);
        assert(s.take(j + 1).drop_last() =~= s.take(j));
    } else {
        assert(s.take(j) =~= s);
    }
}

proof fn lemma_count_eq_take_step(s: Seq<RenderCommand>, i: int, d: int)
    requires
        0 <= i < s.len(),
    ensures
        count_eq(s.take(i + 1), d) == count_eq(s.take(i), d) + (if s[i].z_depth == d { 1nat } else { 0nat }),
{
    assert(s.take(i + 1).drop_last() =~= s.take(i));
}

/// The rank of a command lies in the block of its depth: at least the
/// number of shallower commands, below the number of commands not deeper.
pub proof fn lemma_depth_rank_block(s: Seq<RenderCommand>, i: int)
    requires
        0 <= i < s.len(),
    ensures
        count_lt(s, s[i].z_depth as int) <= depth_rank(s, i) < count_lt(s, s[i].z_depth as int + 1),
        depth_rank(s, i) < s.len(),
{
    let d = s[i].z_depth as int;
    lemma_count_eq_take_step(s, i, d);
    lemma_count_eq_take_le(s, i + 1, d);
    lemma_count_lt_step(s, d);
    lemma_count_lt_le_len(s, d + 1);
}

proof fn lemma_count_lt_le_len(s: Seq<RenderCommand>, d: int)
    ensures
        count_lt(s, d) <= s.len(),
    decreases s.len(),
{
    if s.len() > 0 {
        lemma_count_lt_le_len(s.drop_last(), d);
    }
}

/// A stable sort by depth: a shallower command, or an equally deep one that
/// came first, is placed before.
pub proof fn lemma_depth_rank_order(s: Seq<RenderCommand>, i: int, j: int)
    requires
        0 <= i < s.len(),
        0 <= j < s.len(),
        s[i].z_depth < s[j].z_depth || (s[i].z_depth == s[j].z_depth && i < j),
    ensures
        depth_rank(s, i) < depth_rank(s, j),
{
    lemma_depth_rank_block(s, i);
    lemma_depth_rank_block(s, j);
    if s[i].z_depth < s[j].z_depth {
        lemma_count_lt_mono(s, s[i].z_depth as int + 1, s[j].z_depth as int);
    } else {
        let d = s[i].z_depth as int;
        lemma_count_eq_take_step(s, i, d);
        lemma_count_eq_prefix_le(s, i + 1, j, d);
    }
}

/// Some command of `s` has depth rank `p`.
pub open spec fn rank_taken(s: Seq<RenderCommand>, p: int) -> bool {
    exists|i: int| 0 <= i < s.len() && depth_rank(s, i) == p
}

/// Placing each command at its depth rank, as `sort_by_depth` does, is a
/// stable sort: the ranks are the positions `0..n`, each taken by exactly one
/// command, the result is ordered by depth, and equally deep commands keep
/// their order.
pub proof fn lemma_depth_rank_sorts(s: Seq<RenderCommand>, t: Seq<RenderCommand>)
    requires
        t.len() == s.len(),
        forall|i: int| 0 <= i < s.len() ==> t[#[trigger] depth_rank(s, i)] == s[i],
    ensures
        forall|i: int, j: int| 0 <= i < s.len() && 0 <= j < s.len() && i != j ==>
            #[trigger] depth_rank(s, i) != #[trigger] depth_rank(s, j),
        forall|p: int| 0 <= p < s.len() ==> #[trigger] rank_taken(s, p),
        forall|p: int, q: int| 0 <= p < q < t.len() ==> (#[trigger] t[p]).z_depth <= (#[trigger] t[q]).z_depth,
        forall|i: int, j: int| 0 <= i < j < s.len() && s[i].z_depth == s[j].z_depth ==>
            #[trigger] depth_rank(s, i) < #[trigger] depth_rank(s, j),
{
    let n = s.len() as int;
    assert forall|i: int, j: int| 0 <= i < n && 0 <= j < n && i != j implies
        depth_rank(s, i) != depth_rank(s, j) by {
        if s[i].z_depth < s[j].z_depth || (s[i].z_depth == s[j].z_depth && i < j) {
            lemma_depth_rank_order(s, i, j);
        } else {
            lemma_depth_rank_order(s, j, i);
        }
    }
    assert forall|i: int, j: int| 0 <= i < j < n && s[i].z_depth == s[j].z_depth implies
        depth_rank(s, i) < depth_rank(s, j) by {
        lemma_depth_rank_order(s, i, j);
    }
    let r = Seq::new(s.len(), |i: int| depth_rank(s, i));
    assert(r.no_duplicates());
    r.unique_seq_to_set();
    let full = vstd::set_lib::set_int_range(0, n);
    vstd::set_lib::lemma_int_range(0, n);
    assert forall|p: int| r.to_set().contains(p) implies full.contains(p) by {
        let i = choose|i: int| 0 <= i < r.len() && r[i] == p;
        lemma_depth_rank_block(s, i);
    }
    vstd::seq_lib::seq_to_set_is_finite(r);
    vstd::set_lib::lemma_subset_equality(r.to_set(), full);
    assert forall|p: int| 0 <= p < n implies #[trigger] rank_taken(s, p) by {
        assert(full.contains(p));
        assert(r.to_set().contains(p));
        let i = choose|i: int| 0 <= i < r.len() && r[i] == p;
        assert(depth_rank(s, i) == p);
    }
    assert forall|p: int, q: int| 0 <= p < q < n implies t[p].z_depth <= t[q].z_depth by {
        assert(rank_taken(s, p) && rank_taken(s, q));
        let i = choose|i: int| 0 <= i < n && depth_rank(s, i) == p;
        let j = choose|j: int| 0 <= j < n && depth_rank(s, j) == q;
        if s[i].z_depth > s[j].z_depth {
            lemma_depth_rank_order(s, j, i);
        }
    }
}

/// Pool of render commands, kept between frames, with an index buffer for sorting.
pub struct RenderCommandPool {
    commands: Vec<RenderCommand>,
    sorted: Vec<usize>,
}

impl RenderCommandPool {
    /// The commands in the pool, in order.
    pub closed spec fn view(self) -> Seq<RenderCommand> {
        self.commands@
    }

    /// Every index in the sort buffer names a command of the pool.
    pub closed spec fn wf(self) -> bool {
        forall|k: int| 0 <= k < self.sorted@.len() ==> self.sorted@[k] < self.commands@.len()
    }

    /// An empty pool.
    pub fn with_capacity(cap: usize) -> (r: RenderCommandPool)
        ensures
            r.wf(),
            r.view() == Seq::<RenderCommand>::empty(),
    {
        RenderCommandPool { commands: Vec::with_capacity(cap), sorted: Vec::with_capacity(cap) }
    }

    /// Appends a command.
    pub fn push(&mut self, cmd: RenderCommand)
        requires
            old(self).wf(),
        ensures
            final(self).wf(),
            final(self).view() == old(self).view().push(cmd),
    {
        self.commands.push(cmd);
    }

    /// Number of commands.
    pub fn len(&self) -> (r: usize)
        ensures
            r == self.view().len(),
    {
        self.commands.len()
    }

    /// The pool holds no command.
    pub fn is_empty(&self) -> (r: bool)
        ensures
            r == (self.view().len() == 0),
    {
        self.commands.len() == 0
    }

    /// The commands, in order.
    pub fn slice(&self) -> (r: &[RenderCommand])
        ensures
            r@ == self.view(),
    {
        self.commands.as_slice()
    }

    /// Removes every command.
    pub fn clear(&mut self)
        requires
            old(self).wf(),
        ensures
            final(self).wf(),
            final(self).view() == Seq::<RenderCommand>::empty(),
    {
        self.commands.clear();
        self.sorted.clear();
    }

    /// Reserves room for `additional` more commands.
    pub fn reserve(&mut self, additional: usize)
        requires
            old(self).wf(),
        ensures
            final(self).wf(),
            final(self).view() == old(self).view(),
    {
        self.commands.reserve(additional);
        self.sorted.reserve(additional);
    }

    /// Stable counting sort by depth: command `i` moves to position
    /// `depth_rank(i)`, so shallower commands come first and commands of
    /// equal depth keep their order. Depths must be below 256 when there is
    /// more than one command.
    #[verifier::spinoff_prover]
    pub fn sort_by_depth(&mut self)
        requires
            old(self).wf(),
            old(self).view().len() > 1 ==> forall|i: int| 0 <= i < old(self).view().len()
                ==> old(self).view()[i].z_depth < 256,
        ensures
            final(self).wf(),
            final(self).view().len() == old(self).view().len(),
            old(self).view().len() <= 1 ==> final(self).view() == old(self).view(),
            forall|i: int| 0 <= i < old(self).view().len() ==>
                final(self).view()[depth_rank(old(self).view(), i)] == old(self).view()[i],
    {
        let n = self.commands.len();
        let ghost s = self.commands@;
        if n <= 1 {
            proof {
                if n == 1 {
                    lemma_depth_rank_block(s, 0);
                }
            }
            return;
        }
        assert(s == old(self).view());
        assert(forall|j: int| 0 <= j < s.len() ==> s[j].z_depth < 256);
        let mut count = depth_histogram(&self.commands);
        depth_prefix_sums(&mut count, Ghost(s));
        while self.sorted.len() < n
            invariant
                s == self.commands@,
                n == s.len(),
                forall|k2: int| 0 <= k2 < self.sorted@.len() ==> self.sorted@[k2] < n,
            decreases n - self.sorted.len(),
        {
            self.sorted.push(0);
        }
        self.sorted.truncate(n);
        place_by_depth(&self.commands, &mut count, &mut self.sorted);
        let mut temp: Vec<RenderCommand> = Vec::with_capacity(n);
        let mut p: usize = 0;
        while p < n
            invariant
                s == self.commands@,
                n == s.len(),
                p <= n,
                self.sorted@.len() == n,
                forall|k2: int| 0 <= k2 < n ==> self.sorted@[k2] < n,
                temp@.len() == p,
                forall|q: int| 0 <= q < p ==> temp@[q] == s[self.sorted@[q] as int],
            decreases n - p,
        {
            let idx = self.sorted[p];
            temp.push(self.commands[idx]);
            p = p + 1;
        }
        proof {
            assert forall|j: int| 0 <= j < n implies temp@[depth_rank(s, j)] == s[j] by {
                lemma_depth_rank_block(s, j);
            }
        }
        self.commands = temp;
    }
}

/// Number of commands of each depth below 256.
fn depth_histogram(cmds: &Vec<RenderCommand>) -> (count: Vec<usize>)
    requires
        forall|j: int| 0 <= j < cmds@.len() ==> cmds@[j].z_depth < 256,
    ensures
        count@.len() == 256,
        forall|d: int| 0 <= d < 256 ==> count@[d] == count_eq(cmds@, d),
{
    let ghost s = cmds@;
    let n = cmds.len();
    let mut count: Vec<usize> = vec![0usize; 256];
    let mut i: usize = 0;
    while i < n
        invariant
            s == cmds@,
            n == s.len(),
            i <= n,
            count@.len() == 256,
            forall|j: int| 0 <= j < n ==> s[j].z_depth < 256,
            forall|d: int| 0 <= d < 256 ==> count@[d] == count_eq(s.take(i as int), d),
        decreases n - i,
    {
        let z = cmds[i].z_depth as usize;
        proof {
            assert forall|d: int| 0 <= d < 256 implies count_eq(s.take(i + 1), d)
                == count_eq(s.take(i as int), d) + (if s[i as int].z_depth == d { 1nat } else { 0nat }) by {
                lemma_count_eq_take_step(s, i as int, d);
            }
            lemma_count_eq_bound(s.take(i as int), z as int);
        }
        let c = count[z];
        count.set(z, c + 1);
        i = i + 1;
    }
    assert(s.take(n as int) =~= s);
    count
}

/// Turns per-depth counts into the number of commands not deeper than each depth.
fn depth_prefix_sums(count: &mut Vec<usize>, Ghost(s): Ghost<Seq<RenderCommand>>)
    requires
        old(count)@.len() == 256,
        s.len() <= usize::MAX,
        forall|d: int| 0 <= d < 256 ==> old(count)@[d] == count_eq(s, d),
    ensures
        final(count)@.len() == 256,
        forall|d: int| 0 <= d < 256 ==> final(count)@[d] == count_lt(s, d + 1),
{
    proof {
        lemma_count_lt_zero(s);
        lemma_count_lt_step(s, 0);
    }
    let mut k: usize = 1;
    while k < 256
        invariant
            1 <= k <= 256,
            count@.len() == 256,
            s.len() <= usize::MAX,
            forall|d: int| 0 <= d < k ==> count@[d] == count_lt(s, d + 1),
            forall|d: int| k <= d < 256 ==> count@[d] == count_eq(s, d),
        decreases 256 - k,
    {
        proof {
            lemma_count_lt_step(s, k as int);
            lemma_count_lt_le_len(s, k as int + 1);
        }
        let prev = count[k - 1];
        let cur = count[k];
        count.set(k, cur + prev);
        k = k + 1;
    }
}

/// Writes into `sorted` the index of the command that goes to each position:
/// `sorted[depth_rank(i)] = i`, walking the commands from the last.
fn place_by_depth(cmds: &Vec<RenderCommand>, count: &mut Vec<usize>, sorted: &mut Vec<usize>)
    requires
        forall|j: int| 0 <= j < cmds@.len() ==> cmds@[j].z_depth < 256,
        old(count)@.len() == 256,
        forall|d: int| 0 <= d < 256 ==> old(count)@[d] == count_lt(cmds@, d + 1),
        old(sorted)@.len() == cmds@.len(),
        forall|k2: int| 0 <= k2 < cmds@.len() ==> old(sorted)@[k2] < cmds@.len(),
    ensures
        final(sorted)@.len() == cmds@.len(),
        forall|k2: int| 0 <= k2 < cmds@.len() ==> final(sorted)@[k2] < cmds@.len(),
        forall|j: int| 0 <= j < cmds@.len() ==> final(sorted)@[depth_rank(cmds@, j)] == j,
{
    let ghost s = cmds@;
    let n = cmds.len();
    proof {
        assert(s.take(n as int) =~= s);
        assert forall|d: int| 0 <= d < 256 implies count@[d] == count_lt(s, d) + count_eq(s.take(n as int), d) by {
            lemma_count_lt_step(s, d);
        }
    }
    let mut i: usize = n;
    while i > 0
        invariant
            s == cmds@,
            n == s.len(),
            i <= n,
            count@.len() == 256,
            sorted@.len() == n,
            forall|j: int| 0 <= j < n ==> s[j].z_depth < 256,
            forall|d: int| 0 <= d < 256 ==> count@[d] == count_lt(s, d) + count_eq(s.take(i as int), d),
            forall|k2: int| 0 <= k2 < n ==> sorted@[k2] < n,
            forall|j: int| i <= j < n ==> sorted@[depth_rank(s, j)] == j,
        decreases i,
    {
        let j = i - 1;
        let z = cmds[j].z_depth as usize;
        proof {
            assert forall|d: int| 0 <= d < 256 implies count_eq(s.take(i as int), d)
                == count_eq(s.take(j as int), d) + (if s[j as int].z_depth == d { 1nat } else { 0nat }) by {
                lemma_count_eq_take_step(s, j as int, d);
            }
            lemma_depth_rank_block(s, j as int);
        }
        let c = count[z] - 1;
        count.set(z, c);
        proof {
            assert(c == depth_rank(s, j as int));
            assert forall|m: int| i <= m < n implies depth_rank(s, m) != c by {
                if s[m].z_depth < s[j as int].z_depth {
                    lemma_depth_rank_order(s, m, j as int);
                } else {
                    lemma_depth_rank_order(s, j as int, m);
                }
            }
        }
        let ghost old_sorted = sorted@;
        sorted.set(c, j);
        proof {
            assert forall|m: int| j <= m < n implies sorted@[depth_rank(s, m)] == m by {
                lemma_depth_rank_block(s, m);
                if m != j {
                    assert(old_sorted[depth_rank(s, m)] == m);
                }
            }
        }
        i = j;
    }
}

proof fn lemma_count_eq_bound(s: Seq<RenderCommand>, d: int)
    ensures
        count_eq(s, d) <= s.len(),
    decreases s.len(),
{
    if s.len() > 0 {
        lemma_count_eq_bound(s.drop_last(), d);
    }
}

proof fn lemma_count_lt_zero(s: Seq<RenderCommand>)
    ensures
        count_lt(s, 0) == 0,
    decreases s.len(),
{
    if s.len() > 0 {
        lemma_count_lt_zero(s.drop_last());
    }
}

// ---------------------------------------------------------------------------
// Texture atlas
// ---------------------------------------------------------------------------

/// Where a texture was placed in the atlas.
#[derive(Debug, Clone, Copy)]
pub struct AtlasEntry {
    pub texture_id: u16,
    pub x: u32,
    pub y: u32,
    pub width: u32,
    pub height: u32,
}

/// Pixel `i` of a source texture, or transparent black past its end.
pub open spec fn src_pixel(rgba: Seq<u32>, i: int) -> u32 {
    if 0 <= i < rgba.len() { rgba[i] } else { 0 }
}

/// Stores ARGB pixel `p` as the four bytes R, G, B, A at byte `dst`, when
/// all four fall inside the buffer.
pub open spec fn store_pixel(px: Seq<u8>, dst: int, p: u32) -> Seq<u8> {
    if 0 <= dst && dst + 3 < px.len() {
        px.update(dst, (p >> 16u32) as u8).update(dst + 1, (p >> 8u32) as u8).update(dst + 2, p as u8)
            .update(dst + 3, (p >> 24u32) as u8)
    } else {
        px
    }
}

/// The first `c` pixels of source row `row` copied to atlas row `cy + row`
/// from column `cx` on, in order.
pub open spec fn blit_row(px: Seq<u8>, rgba: Seq<u32>, w: int, cx: int, cy: int, stride: int, row: int, c: nat) -> Seq<u8>
    decreases c,
{
    if c == 0 {
        px
    } else {
        store_pixel(
            blit_row(px, rgba, w, cx, cy, stride, row, (c - 1) as nat),
            (cy + row) * stride + (cx + c - 1) * 4,
            src_pixel(rgba, row * w + c - 1),
        )
    }
}

/// The first `r` rows of a `w`-wide source copied to the atlas at `(cx, cy)`.
pub open spec fn blit(px: Seq<u8>, rgba: Seq<u32>, w: int, cx: int, cy: int, stride: int, r: nat) -> Seq<u8>
    decreases r,
{
    if r == 0 {
        px
    } else {
        blit_row(blit(px, rgba, w, cx, cy, stride, (r - 1) as nat), rgba, w, cx, cy, stride, r - 1, w as nat)
    }
}

/// ARGB pixel `(x, y)` of an RGBA byte image `width` pixels wide; 0 outside.
pub open spec fn sample_spec(px: Seq<u8>, width: int, height: int, x: int, y: int) -> u32 {
    if x >= width || y >= height {
        0
    } else {
        let idx = (y * width + x) * 4;
        if idx + 3 >= px.len() {
            0
        } else {
            ((px[idx + 3] as u32) << 24u32) | ((px[idx] as u32) << 16u32) | ((px[idx + 1] as u32) << 8u32)
                | (px[idx + 2] as u32)
        }
    }
}

/// Texture atlas: RGBA pixels filled shelf by shelf, left to right.
pub struct TextureAtlas {
    pub width: u32,
    pub height: u32,
    pub pixels: Vec<u8>,
    pub entries: Vec<AtlasEntry>,
    pub cursor_x: u32,
    pub cursor_y: u32,
    pub row_height: u32,
}

impl TextureAtlas {
    /// The RGBA bytes of the atlas.
    pub open spec fn pixel_bytes(self) -> Seq<u8> {
        self.pixels@
    }

    /// Next free column, current shelf top and shelf height.
    pub open spec fn cursor(self) -> (u32, u32, u32) {
        (self.cursor_x, self.cursor_y, self.row_height)
    }

    /// The byte buffer covers the whole atlas.
    pub open spec fn wf(self) -> bool {
        self.pixels@.len() == self.width * self.height * 4
    }

    /// Cursor and shelf after making room for a `w` x `h` texture: a new
    /// shelf when the row is full, back to the top-left corner (forgetting
    /// all entries) when the atlas is full. The flag tells that it was reset.
    pub open spec fn placement(self, w: u32, h: u32) -> (int, int, int, bool) {
        let c = self.cursor();
        let (cx, cy, rh) = if c.0 + w > self.width { (0int, c.1 + c.2, 0int) } else { (c.0 as int, c.1 as int, c.2 as int) };
        if cy + h > self.height { (0, 0, 0, true) } else { (cx, cy, rh, false) }
    }

    /// The arithmetic of placing and copying a `w` x `h` texture stays in range.
    pub open spec fn register_fits(self, w: u32, h: u32) -> bool {
        let c = self.cursor();
        let p = self.placement(w, h);
        &&& c.0 + w <= u32::MAX
        &&& c.1 + c.2 <= u32::MAX
        &&& (if c.0 + w > self.width { c.1 + c.2 } else { c.1 as int }) + h <= u32::MAX
        &&& p.0 + w <= u32::MAX
        &&& self.width * 4 <= usize::MAX
        &&& (p.1 + h) * (self.width * 4) + (p.0 + w) * 4 + 4 <= usize::MAX
        &&& (h as int) * (w as int) <= usize::MAX
        &&& p.1 + h <= usize::MAX
        &&& p.0 + w <= usize::MAX
    }

    /// An empty atlas of `width` x `height` pixels.
    pub fn new(width: u32, height: u32) -> (r: TextureAtlas)
        requires
            width * height * 4 <= usize::MAX,
        ensures
            r.wf(),
            r.width == width,
            r.height == height,
            r.entries@.len() == 0,
            r.cursor() == (0u32, 0u32, 0u32),
            forall|i: int| 0 <= i < r.pixel_bytes().len() ==> r.pixel_bytes()[i] == 0,
    {
        assert((width as usize) * (height as usize) * 4 == width * height * 4) by (nonlinear_arith)
            requires
                width * height * 4 <= usize::MAX,
        ;
        let pixel_count = (width as usize) * (height as usize) * 4;
        TextureAtlas {
            width,
            height,
            pixels: vec![0u8; pixel_count],
            entries: Vec::with_capacity(256),
            cursor_x: 0,
            cursor_y: 0,
            row_height: 0,
        }
    }

    /// Copies a `w` x `h` ARGB texture into the atlas and records where it went.
    pub fn register(&mut self, rgba: &[u32], w: u32, h: u32) -> (r: AtlasEntry)
        requires
            old(self).wf(),
            old(self).register_fits(w, h),
        ensures
            final(self).wf(),
            final(self).width == old(self).width,
            final(self).height == old(self).height,
            ({
                let p = old(self).placement(w, h);
                &&& r.x == p.0 && r.y == p.1 && r.width == w && r.height == h
                &&& r.texture_id == (if p.3 { 0u16 } else { old(self).entries@.len() as u16 })
                &&& final(self).entries@ == (if p.3 { Seq::<AtlasEntry>::empty() } else { old(self).entries@ }).push(r)
                &&& final(self).cursor() == ((p.0 + w) as u32, p.1 as u32, (if p.2 >= h { p.2 } else { h as int }) as u32)
                &&& final(self).pixel_bytes() == blit(old(self).pixel_bytes(), rgba@, w as int, p.0, p.1,
                    old(self).width * 4, h as nat)
            }),
    {
        let ghost p = self.placement(w, h);
        if self.cursor_x + w > self.width {
            self.cursor_x = 0;
            self.cursor_y = self.cursor_y + self.row_height;
            self.row_height = 0;
        }
        if self.cursor_y + h > self.height {
            self.cursor_x = 0;
            self.cursor_y = 0;
            self.row_height = 0;
            self.entries.clear();
        }
        let entry = AtlasEntry {
            texture_id: self.entries.len() as u16,
            x: self.cursor_x,
            y: self.cursor_y,
            width: w,
            height: h,
        };
        assert(self.cursor_x == p.0 && self.cursor_y == p.1 && self.row_height == p.2);
        let atlas_stride = self.width as usize * 4;
        let ghost px0 = self.pixels@;
        let ghost w0 = self.width;
        let ghost h0 = self.height;
        let ghost e0 = self.entries@;
        let ghost rh0 = self.row_height;
        let ghost cx = self.cursor_x as int;
        let ghost cy = self.cursor_y as int;
        let ghost stride = atlas_stride as int;
        let mut row: usize = 0;
        while row < h as usize
            invariant
                self.pixels@.len() == px0.len(),
                px0.len() == self.width * self.height * 4,
                self.width == w0,
                self.height == h0,
                self.entries@ == e0,
                self.row_height == rh0,
                cx == self.cursor_x,
                cy == self.cursor_y,
                stride == atlas_stride,
                atlas_stride == self.width * 4,
                (cy + h) * stride + (cx + w) * 4 + 4 <= usize::MAX,
                (h as int) * (w as int) <= usize::MAX,
                cy + h <= usize::MAX,
                cx + w <= usize::MAX,
                row <= h,
                self.pixels@ == blit(px0, rgba@, w as int, cx, cy, stride, row as nat),
            decreases h - row,
        {
            proof {
                assert((cy + row) * stride <= (cy + h) * stride) by (nonlinear_arith)
                    requires
                        row <= h,
                        stride >= 0,
                ;
                assert(row * w <= h * w) by (nonlinear_arith)
                    requires
                        row < h,
                ;
            }
            assert((cy + row) * stride <= usize::MAX);
            assert(self.cursor_y as usize + row == cy + row);
            let atlas_row = (self.cursor_y as usize + row) * atlas_stride;
            let src_row = row * w as usize;
            let ghost before_row = self.pixels@;
            let mut col: usize = 0;
            while col < w as usize
                invariant
                    self.pixels@.len() == px0.len(),
                    px0.len() == self.width * self.height * 4,
                    self.width == w0,
                    self.height == h0,
                    self.entries@ == e0,
                    self.row_height == rh0,
                    cx == self.cursor_x,
                    cy == self.cursor_y,
                    stride == atlas_stride,
                    atlas_row == (cy + row) * stride,
                    src_row == row * w,
                    row < h,
                    (cy + h) * stride + (cx + w) * 4 + 4 <= usize::MAX,
                    (cy + row) * stride <= (cy + h) * stride,
                    row * w <= h * w,
                    (h as int) * (w as int) <= usize::MAX,
                    cy + h <= usize::MAX,
                    cx + w <= usize::MAX,
                    col <= w,
                    self.pixels@ == blit_row(before_row, rgba@, w as int, cx, cy, stride, row as int, col as nat),
                decreases w - col,
            {
                proof {
                    assert(row * w + col < h * w) by (nonlinear_arith)
                        requires
                            row < h,
                            col < w,
                    ;
                }
                let src_pixel = if src_row + col < rgba.len() { rgba[src_row + col] } else { 0 };
                let dst_idx = atlas_row + (self.cursor_x as usize + col) * 4;
                if dst_idx + 3 < self.pixels.len() {
                    self.pixels.set(dst_idx, (src_pixel >> 16) as u8);
                    self.pixels.set(dst_idx + 1, (src_pixel >> 8) as u8);
                    self.pixels.set(dst_idx + 2, src_pixel as u8);
                    self.pixels.set(dst_idx + 3, (src_pixel >> 24) as u8);
                }
                col = col + 1;
            }
            row = row + 1;
        }
        self.cursor_x = self.cursor_x + w;
        self.row_height = if self.row_height >= h { self.row_height } else { h };
        self.entries.push(entry);
        entry
    }

    /// ARGB pixel `(x, y)`; 0 outside the atlas.
    pub fn sample(&self, x: u32, y: u32) -> (r: u32)
        requires
            self.wf(),
        ensures
            r == sample_spec(self.pixel_bytes(), self.width as int, self.height as int, x as int, y as int),
    {
        if x >= self.width || y >= self.height {
            return 0;
        }
        let len = self.pixels.len();
        let ghost wd = self.width as int;
        let ghost ht = self.height as int;
        proof {
            assert(y * wd + x < wd * ht) by (nonlinear_arith)
                requires
                    x < wd,
                    y < ht,
            ;
            assert(self.pixels@.len() == wd * ht * 4);
            assert(y * wd <= usize::MAX);
            assert((y * wd + x) * 4 <= usize::MAX);
        }
        let idx = (y as usize * self.width as usize + x as usize) * 4;
        if idx + 3 >= len {
            return 0;
        }
        let r = self.pixels[idx] as u32;
        let g = self.pixels[idx + 1] as u32;
        let b = self.pixels[idx + 2] as u32;
        let a = self.pixels[idx + 3] as u32;
        (a << 24) | (r << 16) | (g << 8) | b
    }

    /// Number of pixels of the atlas.
    pub fn pixel_count(&self) -> (r: usize)
        ensures
            r == self.pixel_bytes().len() / 4,
    {
        self.pixels.len() / 4
    }
}

proof fn lemma_argb_bytes(p: u32)
    by (bit_vector)
    ensures
        ((((p >> 24u32) as u8) as u32) << 24u32) | ((((p >> 16u32) as u8) as u32) << 16u32)
            | ((((p >> 8u32) as u8) as u32) << 8u32) | ((p as u8) as u32) == p,
{
}

proof fn lemma_store_frame(px: Seq<u8>, q2: int, p: u32, q: int)
    requires
        q2 != q,
    ensures
        store_pixel(px, 4 * q2, p).len() == px.len(),
        forall|k: int| 4 * q <= k < 4 * q + 4 && 0 <= k < px.len() ==> store_pixel(px, 4 * q2, p)[k] == px[k],
{
}

/// Index of the atlas pixel that column `c` of source row `r` lands on.
pub open spec fn pix_index(cy: int, r: int, width: int, cx: int, c: int) -> int {
    (cy + r) * width + cx + c
}

proof fn lemma_row_index(cy: int, r: int, width: int, cx: int, c: int)
    ensures
        (cy + r) * (width * 4) + (cx + c) * 4 == 4 * ((cy + r) * width + cx + c),
{
    assert((cy + r) * (width * 4) + (cx + c) * 4 == 4 * ((cy + r) * width + cx + c)) by (nonlinear_arith);
}

proof fn lemma_index_bound(a: int, b: int, width: int, height: int)
    requires
        0 <= a < height,
        0 <= b < width,
    ensures
        0 <= a * width + b < width * height,
{
    assert(a * width + width <= height * width) by (nonlinear_arith)
        requires
            0 <= a < height,
            0 <= width,
    ;
    assert(0 <= a * width) by (nonlinear_arith)
        requires
            0 <= a,
            0 <= width,
    ;
    assert(width * height == height * width) by (nonlinear_arith);
}

proof fn lemma_grid_index_unique(a: int, b: int, a2: int, b2: int, width: int)
    requires
        0 <= b < width,
        0 <= b2 < width,
        a * width + b == a2 * width + b2,
    ensures
        a == a2,
        b == b2,
{
    assert(a == a2) by (nonlinear_arith)
        requires
            0 <= b < width,
            0 <= b2 < width,
            a * width + b == a2 * width + b2,
    ;
}

/// Bytes of pixel `q` are untouched by a blit of row `r` when no column of
/// that row lands on `q`.
proof fn lemma_blit_row_frame(px: Seq<u8>, rgba: Seq<u32>, w: int, cx: int, cy: int, width: int, r: int, c: nat, q: int)
    requires
        forall|c2: int| 0 <= c2 < c ==> #[trigger] pix_index(cy, r, width, cx, c2) != q,
    ensures
        blit_row(px, rgba, w, cx, cy, width * 4, r, c).len() == px.len(),
        forall|k: int| 4 * q <= k < 4 * q + 4 && 0 <= k < px.len() ==>
            blit_row(px, rgba, w, cx, cy, width * 4, r, c)[k] == px[k],
    decreases c,
{
    if c > 0 {
        lemma_blit_row_frame(px, rgba, w, cx, cy, width, r, (c - 1) as nat, q);
        let prev = blit_row(px, rgba, w, cx, cy, width * 4, r, (c - 1) as nat);
        assert(pix_index(cy, r, width, cx, c - 1) != q);
        lemma_row_index(cy, r, width, cx, c - 1);
        lemma_store_frame(prev, (cy + r) * width + cx + c - 1, src_pixel(rgba, r * w + c - 1), q);
    }
}

/// After a blit of row `row` past column `col`, pixel `q` of that column
/// holds the source pixel.
proof fn lemma_blit_row_hit(px: Seq<u8>, rgba: Seq<u32>, w: int, cx: int, cy: int, width: int, height: int,
    row: int, col: int, c: nat)
    requires
        width >= 0,
        px.len() == width * height * 4,
        0 <= cx,
        0 <= cy,
        cx + w <= width,
        0 <= row,
        cy + row < height,
        0 <= col < c <= w,
    ensures
        blit_row(px, rgba, w, cx, cy, width * 4, row, c).len() == px.len(),
        ({
            let q = (cy + row) * width + cx + col;
            let out = blit_row(px, rgba, w, cx, cy, width * 4, row, c);
            let p = src_pixel(rgba, row * w + col);
            &&& out[4 * q] == (p >> 16u32) as u8
            &&& out[4 * q + 1] == (p >> 8u32) as u8
            &&& out[4 * q + 2] == p as u8
            &&& out[4 * q + 3] == (p >> 24u32) as u8
        }),
    decreases c,
{
    let q = (cy + row) * width + cx + col;
    lemma_index_bound(cy + row, cx + col, width, height);
    let prev = blit_row(px, rgba, w, cx, cy, width * 4, row, (c - 1) as nat);
    if c - 1 == col {
        assert forall|c2: int| 0 <= c2 < c - 1 implies #[trigger] pix_index(cy, row, width, cx, c2) != q by {}
        lemma_blit_row_frame(px, rgba, w, cx, cy, width, row, (c - 1) as nat, q);
        lemma_row_index(cy, row, width, cx, col);
    } else {
        lemma_blit_row_hit(px, rgba, w, cx, cy, width, height, row, col, (c - 1) as nat);
        lemma_row_index(cy, row, width, cx, c - 1);
        lemma_store_frame(prev, (cy + row) * width + cx + c - 1, src_pixel(rgba, row * w + c - 1), q);
    }
}

proof fn lemma_blit_len(px: Seq<u8>, rgba: Seq<u32>, w: int, cx: int, cy: int, width: int, r: nat)
    ensures
        blit(px, rgba, w, cx, cy, width * 4, r).len() == px.len(),
    decreases r,
{
    if r > 0 {
        lemma_blit_len(px, rgba, w, cx, cy, width, (r - 1) as nat);
        let prev = blit(px, rgba, w, cx, cy, width * 4, (r - 1) as nat);
        lemma_blit_row_len(prev, rgba, w, cx, cy, width * 4, r - 1, w as nat);
    }
}

proof fn lemma_blit_row_len(px: Seq<u8>, rgba: Seq<u32>, w: int, cx: int, cy: int, stride: int, r: int, c: nat)
    ensures
        blit_row(px, rgba, w, cx, cy, stride, r, c).len() == px.len(),
    decreases c,
{
    if c > 0 {
        lemma_blit_row_len(px, rgba, w, cx, cy, stride, r, (c - 1) as nat);
    }
}

/// Bytes of pixel `(cx + col, cy + row)` after blitting rows up to `r`
/// (past `row`) hold the source pixel.
proof fn lemma_blit_hit(px: Seq<u8>, rgba: Seq<u32>, w: int, cx: int, cy: int, width: int, height: int,
    row: int, col: int, r: nat)
    requires
        width >= 0,
        px.len() == width * height * 4,
        0 <= cx,
        0 <= cy,
        cx + w <= width,
        0 <= row < r,
        cy + row < height,
        0 <= col < w,
    ensures
        ({
            let q = (cy + row) * width + cx + col;
            let out = blit(px, rgba, w, cx, cy, width * 4, r);
            let p = src_pixel(rgba, row * w + col);
            &&& out[4 * q] == (p >> 16u32) as u8
            &&& out[4 * q + 1] == (p >> 8u32) as u8
            &&& out[4 * q + 2] == p as u8
            &&& out[4 * q + 3] == (p >> 24u32) as u8
        }),
    decreases r,
{
    let q = (cy + row) * width + cx + col;
    let prev = blit(px, rgba, w, cx, cy, width * 4, (r - 1) as nat);
    lemma_blit_len(px, rgba, w, cx, cy, width, (r - 1) as nat);
    if r - 1 == row {
        lemma_blit_row_hit(prev, rgba, w, cx, cy, width, height, row, col, w as nat);
    } else {
        lemma_blit_hit(px, rgba, w, cx, cy, width, height, row, col, (r - 1) as nat);
        assert forall|c2: int| 0 <= c2 < w implies #[trigger] pix_index(cy, r - 1, width, cx, c2) != q by {
            if (cy + r - 1) * width + cx + c2 == q {
                lemma_grid_index_unique(cy + r - 1, cx + c2, cy + row, cx + col, width);
            }
        }
        lemma_index_bound(cy + row, cx + col, width, height);
        lemma_blit_row_frame(prev, rgba, w, cx, cy, width, r - 1, w as nat, q);
    }
}

/// What `register` stores is what `sample` reads back: when the texture
/// does not run past the right edge or the bottom of the atlas, pixel
/// `(col, row)` of the texture is sampled at `(x + col, y + row)`.
pub proof fn lemma_register_read_back(px: Seq<u8>, rgba: Seq<u32>, w: int, h: int, cx: int, cy: int,
    width: int, height: int, row: int, col: int)
    requires
        width >= 0,
        height >= 0,
        px.len() == width * height * 4,
        0 <= cx,
        0 <= cy,
        cx + w <= width,
        cy + h <= height,
        0 <= row < h,
        0 <= col < w,
    ensures
        sample_spec(blit(px, rgba, w, cx, cy, width * 4, h as nat), width, height, cx + col, cy + row)
            == src_pixel(rgba, row * w + col),
{
    let q = (cy + row) * width + cx + col;
    lemma_blit_hit(px, rgba, w, cx, cy, width, height, row, col, h as nat);
    lemma_blit_len(px, rgba, w, cx, cy, width, h as nat);
    lemma_index_bound(cy + row, cx + col, width, height);
    assert(((cy + row) * width + cx + col) * 4 == 4 * q);
    lemma_argb_bytes(src_pixel(rgba, row * w + col));
}

// ---------------------------------------------------------------------------
// Software rasteriser
// ---------------------------------------------------------------------------

/// Smaller of two sizes.
pub open spec fn min_size(a: usize, b: usize) -> usize {
    if a <= b { a } else { b }
}

/// New value of pixel `(x, y)` under a rectangle: blended when the command
/// asks for alpha blending, else dithered when it asks for dithering, else
/// the colour itself.
pub open spec fn rect_paint(old: u32, color: u32, flags: u8, x: int, y: int) -> u32 {
    if flags & FLAG_ALPHA_BLEND != 0 {
        blend_spec(old, color)
    } else if flags & FLAG_DITHER != 0 {
        dither_spec(old, color, x, y)
    } else {
        color
    }
}

/// Pixel `i` of a buffer `fb_w` pixels wide lies in columns `[xs, xe)` of rows `[ys, ye)`.
pub open spec fn in_rect(i: int, fb_w: int, xs: int, xe: int, ys: int, ye: int) -> bool {
    fb_w > 0 && ys <= i / fb_w < ye && xs <= i % fb_w < xe
}

/// The rectangle clipped to the buffer is empty or inside a buffer of `len` pixels.
pub open spec fn rect_fits(len: int, fb_w: usize, fb_h: usize, x0: usize, y0: usize, x1: usize, y1: usize) -> bool {
    let xs = min_size(x0, fb_w);
    let xe = min_size(x1, fb_w);
    let ys = min_size(y0, fb_h);
    let ye = min_size(y1, fb_h);
    xs >= xe || ys >= ye || (ye - 1) * fb_w + xe <= len
}

proof fn lemma_div_mod_of(y: int, w: int, x: int)
    requires
        w > 0,
        0 <= x < w,
    ensures
        (y * w + x) / w == y,
        (y * w + x) % w == x,
{
    vstd::arithmetic::div_mod::lemma_fundamental_div_mod_converse(y * w + x, w, y, x);
}

proof fn lemma_same_pixel(i: int, w: int, y: int, x: int)
    requires
        w > 0,
        0 <= x < w,
        i / w == y,
        i % w == x,
    ensures
        i == y * w + x,
{
    vstd::arithmetic::div_mod::lemma_fundamental_div_mod(i, w);
    assert(w * (i / w) == y * w) by (nonlinear_arith)
        requires
            i / w == y,
    ;
}

proof fn lemma_row_bound(y: int, w: int, x: int, ye: int, xe: int, len: int)
    requires
        0 <= y < ye,
        0 <= x < xe,
        xe <= w,
        (ye - 1) * w + xe <= len,
    ensures
        0 <= y * w,
        y * w + x < len,
{
    assert(0 <= y * w) by (nonlinear_arith)
        requires
            0 <= y,
            0 <= x < xe <= w,
    ;
    assert(y * w <= (ye - 1) * w) by (nonlinear_arith)
        requires
            y <= ye - 1,
            0 <= w,
    ;
}

/// Fills columns `[x0, x1)` of rows `[y0, y1)`, clipped to `fb_w` x `fb_h`,
/// with `color`: blended under `FLAG_ALPHA_BLEND`, else dithered under
/// `FLAG_DITHER`, else plain.
pub fn draw_rect(fb: &mut Vec<u32>, fb_w: usize, fb_h: usize, x0: usize, y0: usize, x1: usize, y1: usize, color: u32, flags: u8)
    requires
        rect_fits(old(fb)@.len() as int, fb_w, fb_h, x0, y0, x1, y1),
    ensures
        final(fb)@.len() == old(fb)@.len(),
        forall|i: int| 0 <= i < old(fb)@.len() ==> #[trigger] final(fb)@[i] == (
            if in_rect(i, fb_w as int, min_size(x0, fb_w) as int, min_size(x1, fb_w) as int,
                min_size(y0, fb_h) as int, min_size(y1, fb_h) as int) {
                rect_paint(old(fb)@[i], color, flags, i % (fb_w as int), i / (fb_w as int))
            } else {
                old(fb)@[i]
            }),
{
    let x_start = if x0 <= fb_w { x0 } else { fb_w };
    let x_end = if x1 <= fb_w { x1 } else { fb_w };
    let y_start = if y0 <= fb_h { y0 } else { fb_h };
    let y_end = if y1 <= fb_h { y1 } else { fb_h };
    let ghost old_fb = fb@;
    let ghost w = fb_w as int;
    let fb_len = fb.len();
    if x_start >= x_end || y_start >= y_end {
        return;
    }
    let has_alpha = flags & FLAG_ALPHA_BLEND != 0;
    let has_dither = flags & FLAG_DITHER != 0;
    let mut y = y_start;
    while y < y_end
        invariant
            fb@.len() == old_fb.len(),
            w == fb_w,
            w > 0,
            x_start < x_end <= fb_w,
            y_start <= y <= y_end,
            (y_end - 1) * fb_w + x_end <= old_fb.len(),
            old_fb.len() == fb_len,
            has_alpha == (flags & FLAG_ALPHA_BLEND != 0),
            has_dither == (flags & FLAG_DITHER != 0),
            forall|i: int| 0 <= i < old_fb.len() ==> #[trigger] fb@[i] == (
                if in_rect(i, w, x_start as int, x_end as int, y_start as int, y as int) {
                    rect_paint(old_fb[i], color, flags, i % w, i / w)
                } else {
                    old_fb[i]
                }),
        decreases y_end - y,
    {
        proof {
            lemma_row_bound(y as int, w, x_start as int, y_end as int, x_end as int, old_fb.len() as int);
        }
        let row = y * fb_w;
        let mut x = x_start;
        while x < x_end
            invariant
                fb@.len() == old_fb.len(),
                w == fb_w,
                w > 0,
                x_start <= x <= x_end,
                x_end <= fb_w,
                y_start <= y < y_end,
                row == y * fb_w,
                (y_end - 1) * fb_w + x_end <= old_fb.len(),
                old_fb.len() == fb_len,
                has_alpha == (flags & FLAG_ALPHA_BLEND != 0),
                has_dither == (flags & FLAG_DITHER != 0),
                forall|i: int| 0 <= i < old_fb.len() ==> #[trigger] fb@[i] == (
                    if in_rect(i, w, x_start as int, x_end as int, y_start as int, y as int)
                        || (i / w == y && x_start <= i % w < x) {
                        rect_paint(old_fb[i], color, flags, i % w, i / w)
                    } else {
                        old_fb[i]
                    }),
            decreases x_end - x,
        {
            proof {
                lemma_row_bound(y as int, w, x as int, y_end as int, x_end as int, old_fb.len() as int);
                lemma_div_mod_of(y as int, w, x as int);
            }
            let idx = row + x;
            let old_px = fb[idx];
            let new_px = if has_alpha {
                blend_pixel(old_px, color)
            } else if has_dither {
                dithered_pixel(old_px, color, x, y)
            } else {
                color
            };
            let ghost before = fb@;
            fb.set(idx, new_px);
            proof {
                assert forall|i: int| 0 <= i < old_fb.len() implies #[trigger] fb@[i] == (
                    if in_rect(i, w, x_start as int, x_end as int, y_start as int, y as int)
                        || (i / w == y && x_start <= i % w < x + 1) {
                        rect_paint(old_fb[i], color, flags, i % w, i / w)
                    } else {
                        old_fb[i]
                    }) by {
                    if i != idx {
                        assert(fb@[i] == before[i]);
                        if i / w == y && i % w == x {
                            lemma_same_pixel(i, w, y as int, x as int);
                        }
                    } else {
                        assert(before[i] == old_fb[i]);
                    }
                }
            }
            x = x + 1;
        }
        proof {
            assert forall|i: int| 0 <= i < old_fb.len() implies #[trigger] fb@[i] == (
                if in_rect(i, w, x_start as int, x_end as int, y_start as int, y + 1) {
                    rect_paint(old_fb[i], color, flags, i % w, i / w)
                } else {
                    old_fb[i]
                }) by {
                vstd::arithmetic::div_mod::lemma_fundamental_div_mod(i, w);
            }
        }
        y = y + 1;
    }
}

/// Absolute value.
pub open spec fn iabs(a: int) -> int {
    if a < 0 { -a } else { a }
}

/// Pixels visited by the integer line walk from `(x, y)` with error term
/// `err` toward `(ex, ey)`: each step plots the current pixel, stops at the
/// end point, and otherwise steps in x when `2 * err >= dy` and in y when
/// `2 * err <= dx`, stopping instead of stepping past the end column or row.
pub open spec fn line_from(x: int, y: int, err: int, ex: int, ey: int, dx: int, dy: int, sx: int, sy: int) -> Seq<(int, int)>
    decreases iabs(ex - x) + iabs(ey - y),
{
    let e2 = 2 * err;
    if x == ex && y == ey {
        seq![(x, y)]
    } else if e2 >= dy && x == ex {
        seq![(x, y)]
    } else {
        let nx = if e2 >= dy { x + sx } else { x };
        let nerr = if e2 >= dy { err + dy } else { err };
        if e2 <= dx && y == ey {
            seq![(x, y)]
        } else {
            let ny = if e2 <= dx { y + sy } else { y };
            let nerr2 = if e2 <= dx { nerr + dx } else { nerr };
            if iabs(ex - nx) + iabs(ey - ny) < iabs(ex - x) + iabs(ey - y) {
                seq![(x, y)] + line_from(nx, ny, nerr2, ex, ey, dx, dy, sx, sy)
            } else {
                seq![(x, y)]
            }
        }
    }
}

/// Pixels of the line from `(x0, y0)` to `(x1, y1)`, in drawing order.
pub open spec fn line_points(x0: int, y0: int, x1: int, y1: int) -> Seq<(int, int)> {
    let dx = iabs(x1 - x0);
    let dy = -iabs(y1 - y0);
    let sx = if x0 < x1 { 1int } else { -1int };
    let sy = if y0 < y1 { 1int } else { -1int };
    line_from(x0, y0, dx + dy, x1, y1, dx, dy, sx, sy)
}

/// Point `p` lies on a `w` x `h` screen.
pub open spec fn on_screen(p: (int, int), w: int, h: int) -> bool {
    0 <= p.0 < w && 0 <= p.1 < h
}

/// Some point of `pts` before position `n` is on screen at pixel index `i`.
pub open spec fn plots(pts: Seq<(int, int)>, n: int, w: int, h: int, i: int) -> bool {
    exists|k: int| 0 <= k < n && on_screen(#[trigger] pts[k], w, h) && pts[k].1 * w + pts[k].0 == i
}

/// Every on-screen pixel of the line lies inside a buffer of `len` pixels.
pub open spec fn line_fits(len: int, w: int, h: int, pts: Seq<(int, int)>) -> bool {
    forall|k: int| 0 <= k < pts.len() && on_screen(#[trigger] pts[k], w, h) ==> pts[k].1 * w + pts[k].0 < len
}

/// Draws the line from `(x0, y0)` to `(x1, y1)` in `color`, skipping
/// pixels off the `fb_w` x `fb_h` screen.
pub fn draw_line(fb: &mut Vec<u32>, fb_w: usize, fb_h: usize, x0: i16, y0: i16, x1: i16, y1: i16, color: u32)
    requires
        line_fits(old(fb)@.len() as int, fb_w as int, fb_h as int, line_points(x0 as int, y0 as int, x1 as int, y1 as int)),
    ensures
        final(fb)@.len() == old(fb)@.len(),
        forall|i: int| 0 <= i < old(fb)@.len() ==> #[trigger] final(fb)@[i] == (
            if plots(line_points(x0 as int, y0 as int, x1 as int, y1 as int),
                line_points(x0 as int, y0 as int, x1 as int, y1 as int).len() as int, fb_w as int, fb_h as int, i) {
                color
            } else {
                old(fb)@[i]
            }),
{
    let ghost pts = line_points(x0 as int, y0 as int, x1 as int, y1 as int);
    let ghost old_fb = fb@;
    let ghost w = fb_w as int;
    let ghost h = fb_h as int;
    let fb_len = fb.len();
    let mut x = x0 as isize;
    let mut y = y0 as isize;
    let ex = x1 as isize;
    let ey = y1 as isize;
    let dx = if ex - x < 0 { x - ex } else { ex - x };
    let dy = if ey - y < 0 { ey - y } else { y - ey };
    let sx: isize = if x < ex { 1 } else { -1 };
    let sy: isize = if y < ey { 1 } else { -1 };
    let mut err = dx + dy;
    let ghost mut n: int = 0;
    assert(pts == line_from(x as int, y as int, err as int, ex as int, ey as int, dx as int, dy as int, sx as int, sy as int));
    loop
        invariant_except_break
            fb@.len() == old_fb.len(),
            fb_len == old_fb.len(),
            w == fb_w,
            h == fb_h,
            line_fits(old_fb.len() as int, w, h, pts),
            -32768 <= ex <= 32767,
            -32768 <= ey <= 32767,
            0 <= dx <= 65535,
            -65535 <= dy <= 0,
            -131072 <= err <= 131072,
            sx == 1 ==> x <= ex,
            sx == -1 ==> x >= ex,
            sx == 1 || sx == -1,
            sy == 1 ==> y <= ey,
            sy == -1 ==> y >= ey,
            sy == 1 || sy == -1,
            -32768 <= x <= 32767,
            -32768 <= y <= 32767,
            0 <= n <= pts.len(),
            pts.subrange(n, pts.len() as int) == line_from(x as int, y as int, err as int, ex as int, ey as int,
                dx as int, dy as int, sx as int, sy as int),
            forall|i: int| 0 <= i < old_fb.len() ==> #[trigger] fb@[i] == (
                if plots(pts, n, w, h, i) { color } else { old_fb[i] }),
        ensures
            fb@.len() == old_fb.len(),
            forall|i: int| 0 <= i < old_fb.len() ==> #[trigger] fb@[i] == (
                if plots(pts, pts.len() as int, w, h, i) { color } else { old_fb[i] }),
        decreases iabs(ex - x) + iabs(ey - y),
    {
        let ghost rest = line_from(x as int, y as int, err as int, ex as int, ey as int, dx as int, dy as int, sx as int, sy as int);
        proof {
            assert(rest.len() >= 1);
            assert(rest[0] == (x as int, y as int));
            assert(pts.subrange(n, pts.len() as int)[0] == pts[n]);
            assert(pts[n] == rest[0]);
        }
        let ghost before = fb@;
        if x >= 0 && y >= 0 && (x as usize) < fb_w && (y as usize) < fb_h {
            proof {
                assert(on_screen(pts[n], w, h));
                assert(y * w + x < old_fb.len());
                assert(0 <= y * w) by (nonlinear_arith)
                    requires
                        0 <= y,
                        0 <= w,
                ;
            }
            fb.set((y as usize) * fb_w + (x as usize), color);
        }
        proof {
            assert forall|i: int| 0 <= i < old_fb.len() implies #[trigger] fb@[i] == (
                if plots(pts, n + 1, w, h, i) { color } else { old_fb[i] }) by {
                if plots(pts, n + 1, w, h, i) && !plots(pts, n, w, h, i) {
                    let k = choose|k: int| 0 <= k < n + 1 && on_screen(#[trigger] pts[k], w, h) && pts[k].1 * w + pts[k].0 == i;
                    assert(k == n);
                }
                if plots(pts, n, w, h, i) {
                    let k = choose|k: int| 0 <= k < n && on_screen(#[trigger] pts[k], w, h) && pts[k].1 * w + pts[k].0 == i;
                    assert(plots(pts, n + 1, w, h, i));
                }
            }
            n = n + 1;
        }
        if x == ex && y == ey {
            proof {
                assert(rest.len() == 1);
            }
            break;
        }
        let e2 = 2 * err;
        if e2 >= dy {
            if x == ex {
                proof {
                    assert(rest.len() == 1);
                }
                break;
            }
            err = err + dy;
            x = x + sx;
        }
        if e2 <= dx {
            if y == ey {
                proof {
                    assert(rest.len() == 1);
                }
                break;
            }
            err = err + dx;
            y = y + sy;
        }
        proof {
            assert(rest == seq![(rest[0].0, rest[0].1)] + line_from(x as int, y as int, err as int, ex as int, ey as int,
                dx as int, dy as int, sx as int, sy as int));
            assert(pts.subrange(n, pts.len() as int) =~= rest.subrange(1, rest.len() as int));
        }
    }
}

/// Software renderer: a framebuffer, a work buffer that commands draw into,
/// the command pool and the texture atlas.
pub struct CpuBackend {
    pub framebuffer: Vec<u32>,
    pub command_pool: RenderCommandPool,
    pub atlas: TextureAtlas,
    pub work_buffer: Vec<u32>,
    pub width: u32,
    pub height: u32,
}

/// What drawing one rectangle, line or point command does to a work buffer
/// `w` x `h`; other primitive types are drawn elsewhere and change nothing here.
pub open spec fn command_effect(old: Seq<u32>, new: Seq<u32>, cmd: RenderCommand, w: usize, h: usize) -> bool {
    &&& new.len() == old.len()
    &&& cmd.primitive_type == 0 ==> forall|i: int| 0 <= i < old.len() ==> #[trigger] new[i] == (
        if in_rect(i, w as int, min_size(cmd.x0 as usize, w) as int, min_size(cmd.x1 as usize, w) as int,
            min_size(cmd.y0 as usize, h) as int, min_size(cmd.y1 as usize, h) as int) {
            rect_paint(old[i], cmd.color, cmd.flags, i % (w as int), i / (w as int))
        } else {
            old[i]
        })
    &&& cmd.primitive_type == 1 ==> forall|i: int| 0 <= i < old.len() ==> #[trigger] new[i] == (
        if plots(line_points(cmd.x0 as int, cmd.y0 as int, cmd.x1 as int, cmd.y1 as int),
            line_points(cmd.x0 as int, cmd.y0 as int, cmd.x1 as int, cmd.y1 as int).len() as int, w as int, h as int, i) {
            cmd.color
        } else {
            old[i]
        })
    &&& cmd.primitive_type == 2 ==> new == (if (cmd.x0 as usize) < w && (cmd.y0 as usize) < h {
            old.update((cmd.y0 as usize) * w + (cmd.x0 as usize),
                blend_spec(old[(cmd.y0 as usize) * w + (cmd.x0 as usize)], cmd.color))
        } else {
            old
        })
    &&& cmd.primitive_type > 2 ==> new == old
}

/// A command the library draws itself: anything but a sprite (3) or a
/// gradient (5), which are sampled and shaded in floating point by the
/// caller, in their place in the command order.
pub open spec fn drawn_here(cmd: RenderCommand) -> bool {
    cmd.primitive_type != 3 && cmd.primitive_type != 5
}

/// The work buffer after drawing one rectangle, line or point command (see
/// `command_effect`).
pub open spec fn command_result(old: Seq<u32>, cmd: RenderCommand, w: usize, h: usize) -> Seq<u32> {
    Seq::new(old.len(), |i: int|
        if cmd.primitive_type == 0 {
            if in_rect(i, w as int, min_size(cmd.x0 as usize, w) as int, min_size(cmd.x1 as usize, w) as int,
                min_size(cmd.y0 as usize, h) as int, min_size(cmd.y1 as usize, h) as int) {
                rect_paint(old[i], cmd.color, cmd.flags, i % (w as int), i / (w as int))
            } else {
                old[i]
            }
        } else if cmd.primitive_type == 1 {
            if plots(line_points(cmd.x0 as int, cmd.y0 as int, cmd.x1 as int, cmd.y1 as int),
                line_points(cmd.x0 as int, cmd.y0 as int, cmd.x1 as int, cmd.y1 as int).len() as int, w as int, h as int, i) {
                cmd.color
            } else {
                old[i]
            }
        } else if cmd.primitive_type == 2 && (cmd.x0 as usize) < w && (cmd.y0 as usize) < h
            && i == (cmd.y0 as usize) * w + (cmd.x0 as usize) {
            blend_spec(old[i], cmd.color)
        } else {
            old[i]
        })
}

/// The work buffer after drawing `cmds` in order.
pub open spec fn commands_result(old: Seq<u32>, cmds: Seq<RenderCommand>, w: usize, h: usize) -> Seq<u32>
    decreases cmds.len(),
{
    if cmds.len() == 0 {
        old
    } else {
        command_result(commands_result(old, cmds.drop_last(), w, h), cmds.last(), w, h)
    }
}

proof fn lemma_command_effect_result(old: Seq<u32>, new: Seq<u32>, cmd: RenderCommand, w: usize, h: usize)
    requires
        command_fits(old.len() as int, cmd, w, h),
        command_effect(old, new, cmd, w, h),
    ensures
        new == command_result(old, cmd, w, h),
{
    let r = command_result(old, cmd, w, h);
    assert forall|i: int| 0 <= i < old.len() implies new[i] == r[i] by {
        if cmd.primitive_type == 0 || cmd.primitive_type == 1 {
            assert(new[i] == new[i]);
        } else if cmd.primitive_type == 2 && (cmd.x0 as usize) < w && (cmd.y0 as usize) < h {
            let idx = (cmd.y0 as usize) * w + (cmd.x0 as usize);
            assert(new == old.update(idx, blend_spec(old[idx], cmd.color)));
        }
    }
    assert(new =~= r);
}

proof fn lemma_commands_result_len(old: Seq<u32>, cmds: Seq<RenderCommand>, w: usize, h: usize)
    ensures
        commands_result(old, cmds, w, h).len() == old.len(),
    decreases cmds.len(),
{
    if cmds.len() > 0 {
        lemma_commands_result_len(old, cmds.drop_last(), w, h);
    }
}

/// The command can be drawn into a buffer of `len` pixels for a `w` x `h` screen.
pub open spec fn command_fits(len: int, cmd: RenderCommand, w: usize, h: usize) -> bool {
    &&& cmd.primitive_type == 0 ==> rect_fits(len, w, h, cmd.x0 as usize, cmd.y0 as usize, cmd.x1 as usize, cmd.y1 as usize)
    &&& cmd.primitive_type == 1 ==> line_fits(len, w as int, h as int,
        line_points(cmd.x0 as int, cmd.y0 as int, cmd.x1 as int, cmd.y1 as int))
    &&& cmd.primitive_type == 2 ==> ((cmd.x0 as usize) < w && (cmd.y0 as usize) < h
        ==> (cmd.y0 as usize) * w + (cmd.x0 as usize) < len)
}

impl CpuBackend {
    /// The framebuffer and work buffer have the same size.
    pub open spec fn wf(self) -> bool {
        self.framebuffer@.len() == self.work_buffer@.len()
    }

    /// A black `width` x `height` screen with an empty pool and a 2048 x 2048 atlas.
    pub fn new(width: u32, height: u32) -> (r: CpuBackend)
        requires
            width * height <= usize::MAX,
        ensures
            r.wf(),
            r.width == width,
            r.height == height,
            r.framebuffer@.len() == width * height,
            forall|i: int| 0 <= i < r.framebuffer@.len() ==> r.framebuffer@[i] == 0 && r.work_buffer@[i] == 0,
            r.command_pool.wf(),
            r.command_pool.view().len() == 0,
            r.atlas.wf(),
            r.atlas.width == 2048 && r.atlas.height == 2048,
    {
        let pixels = (width as usize) * (height as usize);
        CpuBackend {
            framebuffer: vec![0u32; pixels],
            command_pool: RenderCommandPool::with_capacity(65536),
            atlas: TextureAtlas::new(2048, 2048),
            work_buffer: vec![0u32; pixels],
            width,
            height,
        }
    }

    /// Starts a frame: the work buffer becomes a copy of the framebuffer.
    pub fn begin_frame(&mut self)
        requires
            old(self).wf(),
        ensures
            final(self).wf(),
            final(self).work_buffer@ == old(self).framebuffer@,
            final(self).framebuffer@ == old(self).framebuffer@,
            final(self).width == old(self).width,
            final(self).height == old(self).height,
    {
        let n = self.framebuffer.len();
        let mut i: usize = 0;
        while i < n
            invariant
                n == self.framebuffer@.len(),
                self.work_buffer@.len() == n,
                self.framebuffer@ == old(self).framebuffer@,
                self.width == old(self).width,
                self.height == old(self).height,
                i <= n,
                forall|k: int| 0 <= k < i ==> self.work_buffer@[k] == self.framebuffer@[k],
            decreases n - i,
        {
            let v = self.framebuffer[i];
            self.work_buffer.set(i, v);
            i = i + 1;
        }
        assert(self.work_buffer@ =~= self.framebuffer@);
    }

    /// Draws one rectangle (0), line (1) or point (2) command into the work
    /// buffer of a `w` x `h` screen. Points are blended; sprites and
    /// gradients are drawn by the caller and leave the buffer unchanged here.
    pub fn execute_one(&mut self, cmd: &RenderCommand, w: usize, h: usize)
        requires
            command_fits(old(self).work_buffer@.len() as int, *cmd, w, h),
            drawn_here(*cmd),
        ensures
            command_effect(old(self).work_buffer@, final(self).work_buffer@, *cmd, w, h),
            final(self).framebuffer@ == old(self).framebuffer@,
            final(self).width == old(self).width,
            final(self).height == old(self).height,
    {
        let x0 = cmd.x0 as usize;
        let y0 = cmd.y0 as usize;
        let x1 = cmd.x1 as usize;
        let y1 = cmd.y1 as usize;
        match cmd.primitive_type {
            0 => draw_rect(&mut self.work_buffer, w, h, x0, y0, x1, y1, cmd.color, cmd.flags),
            1 => draw_line(&mut self.work_buffer, w, h, cmd.x0, cmd.y0, cmd.x1, cmd.y1, cmd.color),
            2 => {
                let len = self.work_buffer.len();
                if x0 < w && y0 < h {
                    assert(y0 * w + x0 < len);
                    let idx = y0 * w + x0;
                    let old = self.work_buffer[idx];
                    self.work_buffer.set(idx, blend_pixel(old, cmd.color));
                }
            },
            _ => {},
        }
    }

    /// Shows the frame: the framebuffer becomes a copy of the work buffer.
    pub fn swap_buffers(&mut self)
        requires
            old(self).wf(),
        ensures
            final(self).wf(),
            final(self).framebuffer@ == old(self).work_buffer@,
            final(self).work_buffer@ == old(self).work_buffer@,
            final(self).width == old(self).width,
            final(self).height == old(self).height,
    {
        let n = self.work_buffer.len();
        let mut i: usize = 0;
        while i < n
            invariant
                n == self.work_buffer@.len(),
                self.framebuffer@.len() == n,
                self.work_buffer@ == old(self).work_buffer@,
                self.width == old(self).width,
                self.height == old(self).height,
                i <= n,
                forall|k: int| 0 <= k < i ==> self.framebuffer@[k] == self.work_buffer@[k],
            decreases n - i,
        {
            let v = self.work_buffer[i];
            self.framebuffer.set(i, v);
            i = i + 1;
        }
        assert(self.framebuffer@ =~= self.work_buffer@);
    }

    /// Resizes both buffers to `width * height` pixels, keeping the leading
    /// pixels and filling new ones with 0, and records the new size.
    pub fn resize(&mut self, width: u32, height: u32)
        requires
            width * height <= usize::MAX,
        ensures
            final(self).framebuffer@.len() == width * height,
            final(self).work_buffer@.len() == width * height,
            final(self).wf(),
            forall|i: int| 0 <= i < width * height ==> final(self).framebuffer@[i] == (
                if i < old(self).framebuffer@.len() { old(self).framebuffer@[i] } else { 0 }),
            forall|i: int| 0 <= i < width * height ==> final(self).work_buffer@[i] == (
                if i < old(self).work_buffer@.len() { old(self).work_buffer@[i] } else { 0 }),
            final(self).width == width,
            final(self).height == height,
    {
        let pixels = (width as usize) * (height as usize);
        self.framebuffer.resize(pixels, 0);
        self.work_buffer.resize(pixels, 0);
        self.width = width;
        self.height = height;
    }
}

/// The backend frames are drawn with. Only the multithreaded CPU renderer
/// is built in.
pub enum ActiveBackend {
    CpuSimd(CpuBackend),
}

impl ActiveBackend {
    /// The backend draws on a GPU: never, with the CPU renderer.
    pub fn is_gpu(&self) -> (r: bool)
        ensures
            !r,
    {
        match self {
            ActiveBackend::CpuSimd(_) => false,
        }
    }

    /// The pixels of the shown frame, when the backend keeps them in memory
    /// (the CPU renderer always does).
    pub fn framebuffer_ptr(&self) -> (r: Option<&[u32]>)
        ensures
            r matches Some(fb) && match self {
                ActiveBackend::CpuSimd(cpu) => fb@ == cpu.framebuffer@,
            },
    {
        match self {
            ActiveBackend::CpuSimd(cpu) => Some(cpu.framebuffer.as_slice()),
        }
    }

    /// Resizes the backend's buffers (see `CpuBackend::resize`).
    pub fn resize(&mut self, width: u32, height: u32)
        requires
            width * height <= usize::MAX,
        ensures
            match (*old(self), *final(self)) {
                (ActiveBackend::CpuSimd(a), ActiveBackend::CpuSimd(b)) => {
                    &&& b.wf()
                    &&& b.width == width
                    &&& b.height == height
                    &&& b.framebuffer@.len() == width * height
                    &&& b.work_buffer@.len() == width * height
                    &&& forall|i: int| 0 <= i < width * height ==> b.framebuffer@[i] == (
                        if i < a.framebuffer@.len() { a.framebuffer@[i] } else { 0 })
                    &&& forall|i: int| 0 <= i < width * height ==> b.work_buffer@[i] == (
                        if i < a.work_buffer@.len() { a.work_buffer@[i] } else { 0 })
                },
            },
    {
        match self {
            ActiveBackend::CpuSimd(cpu) => cpu.resize(width, height),
        }
    }
}

/// Fewest commands for which a frame is drawn tile by tile in parallel.
pub const TILED_MIN_COMMANDS: usize = 100;

impl CpuBackend {
    /// Draws `commands` in order into the work buffer of a `w` x `h` screen.
    pub fn execute_single_threaded(&mut self, commands: &[RenderCommand], w: usize, h: usize)
        requires
            forall|k: int| 0 <= k < commands@.len() ==> #[trigger] command_fits(
                old(self).work_buffer@.len() as int,
                commands@[k],
                w,
                h,
            ),
            forall|k: int| 0 <= k < commands@.len() ==> drawn_here(#[trigger] commands@[k]),
        ensures
            final(self).work_buffer@ == commands_result(old(self).work_buffer@, commands@, w, h),
            final(self).framebuffer@ == old(self).framebuffer@,
            final(self).width == old(self).width,
            final(self).height == old(self).height,
    {
        let ghost start = self.work_buffer@;
        let mut k: usize = 0;
        while k < commands.len()
            invariant
                0 <= k <= commands@.len(),
                self.work_buffer@.len() == start.len(),
                self.work_buffer@ == commands_result(start, commands@.take(k as int), w, h),
                self.framebuffer@ == old(self).framebuffer@,
                self.width == old(self).width,
                self.height == old(self).height,
                forall|j: int| 0 <= j < commands@.len() ==> #[trigger] command_fits(start.len() as int, commands@[j], w, h),
                forall|j: int| 0 <= j < commands@.len() ==> drawn_here(#[trigger] commands@[j]),
            decreases commands@.len() - k,
        {
            let ghost before = self.work_buffer@;
            assert(command_fits(start.len() as int, commands@[k as int], w, h));
            assert(drawn_here(commands@[k as int]));
            self.execute_one(&commands[k], w, h);
            proof {
                lemma_command_effect_result(before, self.work_buffer@, commands@[k as int], w, h);
                assert(commands@.take(k + 1).drop_last() =~= commands@.take(k as int));
                assert(commands@.take(k + 1).last() == commands@[k as int]);
            }
            k = k + 1;
        }
        assert(commands@.take(commands@.len() as int) =~= commands@);
    }

    /// Starts a frame and draws `commands` on a screen cut into `tile_count`
    /// tiles: with at most one tile or fewer than `TILED_MIN_COMMANDS`
    /// commands they are drawn in order and the result is `false`;
    /// otherwise every tile is drawn with the commands assigned to it (see
    /// `draw_tiles`) and the result is `true`.
    pub fn execute_commands_multithreaded(&mut self, commands: &[RenderCommand], tile_count: usize) -> (tiled: bool)
        requires
            old(self).wf(),
            forall|k: int| 0 <= k < commands@.len() ==> #[trigger] command_fits(
                old(self).framebuffer@.len() as int,
                commands@[k],
                old(self).width as usize,
                old(self).height as usize,
            ),
            tile_count <= 1 || commands@.len() < TILED_MIN_COMMANDS ==>
                forall|k: int| 0 <= k < commands@.len() ==> drawn_here(#[trigger] commands@[k]),
            !(tile_count <= 1 || commands@.len() < TILED_MIN_COMMANDS) ==> {
                &&& tiling_fits(old(self).width as int, old(self).height as int, tile_count as int)
                &&& old(self).width * old(self).height <= old(self).framebuffer@.len()
                &&& tiled_commands_ok(commands@, old(self).width as int, old(self).height as int, tile_count as int)
            },
        ensures
            final(self).wf(),
            tiled == !(tile_count <= 1 || commands@.len() < TILED_MIN_COMMANDS),
            tiled ==> final(self).work_buffer@ == tiled_frame(
                old(self).framebuffer@,
                commands@,
                old(self).width as int,
                old(self).height as int,
                tile_count as int,
            ),
            !tiled ==> final(self).work_buffer@ == commands_result(
                old(self).framebuffer@,
                commands@,
                old(self).width as usize,
                old(self).height as usize,
            ),
            final(self).framebuffer@ == old(self).framebuffer@,
            final(self).width == old(self).width,
            final(self).height == old(self).height,
    {
        let w = self.width as usize;
        let h = self.height as usize;
        self.begin_frame();
        if tile_count <= 1 || commands.len() < TILED_MIN_COMMANDS {
            self.execute_single_threaded(commands, w, h);
            proof {
                lemma_commands_result_len(old(self).framebuffer@, commands@, w, h);
            }
            false
        } else {
            self.draw_tiles(commands, tile_count);
            true
        }
    }
}

// ---------------------------------------------------------------------------
// Tiled rendering: the screen cut into a grid of tiles drawn independently
// ---------------------------------------------------------------------------

/// Larger of two depths.
pub open spec fn max_i16(a: i16, b: i16) -> i16 {
    if a >= b { a } else { b }
}

/// Smaller of two depths.
pub open spec fn min_i16(a: i16, b: i16) -> i16 {
    if a <= b { a } else { b }
}

/// The command's rectangle clipped to the tile `[tx0, tx1) x [ty0, ty1)`,
/// as the software computes it (corners clamped as 16-bit values, then
/// taken as sizes).
pub open spec fn tile_clip(cmd: RenderCommand, tx0: usize, ty0: usize, tx1: usize, ty1: usize) -> (usize, usize, usize, usize) {
    (
        max_i16(cmd.x0, tx0 as i16) as usize,
        max_i16(cmd.y0, ty0 as i16) as usize,
        min_i16(cmd.x1, tx1 as i16) as usize,
        min_i16(cmd.y1, ty1 as i16) as usize,
    )
}

/// The clipped rectangle is empty, or its far corner was not negative.
pub open spec fn tile_cmd_ok(cmd: RenderCommand, tx0: usize, ty0: usize, tx1: usize, ty1: usize) -> bool {
    let c = tile_clip(cmd, tx0, ty0, tx1, ty1);
    c.0 >= c.2 || c.1 >= c.3 || (min_i16(cmd.x1, tx1 as i16) >= 0 && min_i16(cmd.y1, ty1 as i16) >= 0)
}

/// Draws a rectangle (0) or the bounding box of a line (1) onto the buffer
/// of one tile; the tile buffer is `tile_x1 - tile_x0` pixels wide and
/// starts at screen pixel `(tile_x0, tile_y0)`. Pixels past the end of the
/// tile buffer are skipped. Tile corners must fit in 16 bits.
pub fn execute_cmd_on_tile(cmd: &RenderCommand, fb: &mut Vec<u32>, tile_x0: usize, tile_y0: usize,
    tile_x1: usize, tile_y1: usize, fb_w: usize)
    requires
        tile_x0 <= tile_x1 <= 32767,
        tile_y0 <= tile_y1 <= 32767,
        tile_cmd_ok(*cmd, tile_x0, tile_y0, tile_x1, tile_y1),
    ensures
        final(fb)@.len() == old(fb)@.len(),
        ({
            let c = tile_clip(*cmd, tile_x0, tile_y0, tile_x1, tile_y1);
            let tw = (tile_x1 - tile_x0) as int;
            forall|i: int| 0 <= i < old(fb)@.len() ==> #[trigger] final(fb)@[i] == (
                if (cmd.primitive_type == 0 || cmd.primitive_type == 1) && c.0 < c.2 && c.1 < c.3
                    && in_rect(i, tw, c.0 - tile_x0, c.2 - tile_x0, c.1 - tile_y0, c.3 - tile_y0) {
                    if cmd.primitive_type == 0 && cmd.flags & FLAG_ALPHA_BLEND != 0 {
                        blend_spec(old(fb)@[i], cmd.color)
                    } else {
                        cmd.color
                    }
                } else {
                    old(fb)@[i]
                })
        }),
{
    let ghost old_fb = fb@;
    let fb_len = fb.len();
    let tx0 = tile_x0 as i16;
    let ty0 = tile_y0 as i16;
    let tx1 = tile_x1 as i16;
    let ty1 = tile_y1 as i16;
    let x0 = (if cmd.x0 >= tx0 { cmd.x0 } else { tx0 }) as usize;
    let y0 = (if cmd.y0 >= ty0 { cmd.y0 } else { ty0 }) as usize;
    let x1 = (if cmd.x1 <= tx1 { cmd.x1 } else { tx1 }) as usize;
    let y1 = (if cmd.y1 <= ty1 { cmd.y1 } else { ty1 }) as usize;
    if x0 >= x1 || y0 >= y1 {
        return;
    }
    let tw = tile_x1 - tile_x0;
    let ghost w = tw as int;
    if cmd.primitive_type != 0 && cmd.primitive_type != 1 {
        return;
    }
    let paint_blend = cmd.primitive_type == 0 && cmd.flags & FLAG_ALPHA_BLEND != 0;
    let ghost lx0 = x0 - tile_x0;
    let ghost lx1 = x1 - tile_x0;
    let ghost ly0 = y0 - tile_y0;
    let mut y = y0;
    while y < y1
        invariant
            fb@.len() == old_fb.len(),
            fb_len == old_fb.len(),
            tile_x0 <= x0 < x1 <= tile_x1 <= 32767,
            tile_y0 <= y0 <= y <= y1 <= tile_y1 <= 32767,
            tw == tile_x1 - tile_x0,
            w == tw,
            w > 0,
            lx0 == x0 - tile_x0,
            lx1 == x1 - tile_x0,
            ly0 == y0 - tile_y0,
            paint_blend == (cmd.primitive_type == 0 && cmd.flags & FLAG_ALPHA_BLEND != 0),
            forall|i: int| 0 <= i < old_fb.len() ==> #[trigger] fb@[i] == (
                if in_rect(i, w, lx0, lx1, ly0, y - tile_y0) {
                    if paint_blend { blend_spec(old_fb[i], cmd.color) } else { cmd.color }
                } else {
                    old_fb[i]
                }),
        decreases y1 - y,
    {
        assert((y - tile_y0) * tw <= 32767 * 32767) by (nonlinear_arith)
            requires
                0 <= y - tile_y0 <= 32767,
                0 <= tw <= 32767,
        ;
        let row = (y - tile_y0) * tw;
        let mut x = x0;
        while x < x1
            invariant
                fb@.len() == old_fb.len(),
                fb_len == old_fb.len(),
                tile_x0 <= x0 <= x <= x1 <= tile_x1 <= 32767,
                tile_y0 <= y0 <= y < y1 <= tile_y1 <= 32767,
                tw == tile_x1 - tile_x0,
                w == tw,
                w > 0,
                row == (y - tile_y0) * tw,
                row <= 32767 * 32767,
                lx0 == x0 - tile_x0,
                lx1 == x1 - tile_x0,
                ly0 == y0 - tile_y0,
                paint_blend == (cmd.primitive_type == 0 && cmd.flags & FLAG_ALPHA_BLEND != 0),
                forall|i: int| 0 <= i < old_fb.len() ==> #[trigger] fb@[i] == (
                    if in_rect(i, w, lx0, lx1, ly0, y - tile_y0)
                        || (i / w == y - tile_y0 && lx0 <= i % w < x - tile_x0) {
                        if paint_blend { blend_spec(old_fb[i], cmd.color) } else { cmd.color }
                    } else {
                        old_fb[i]
                    }),
            decreases x1 - x,
        {
            let idx = row + (x - tile_x0);
            proof {
                lemma_div_mod_of((y - tile_y0) as int, w, (x - tile_x0) as int);
            }
            let ghost before = fb@;
            if idx < fb_len {
                let old = fb[idx];
                let v = if paint_blend { blend_pixel(old, cmd.color) } else { cmd.color };
                fb.set(idx, v);
            }
            proof {
                assert forall|i: int| 0 <= i < old_fb.len() implies #[trigger] fb@[i] == (
                    if in_rect(i, w, lx0, lx1, ly0, y - tile_y0)
                        || (i / w == y - tile_y0 && lx0 <= i % w < x + 1 - tile_x0) {
                        if paint_blend { blend_spec(old_fb[i], cmd.color) } else { cmd.color }
                    } else {
                        old_fb[i]
                    }) by {
                    if i != idx {
                        assert(fb@[i] == before[i]);
                        if i / w == y - tile_y0 && i % w == x - tile_x0 {
                            lemma_same_pixel(i, w, (y - tile_y0) as int, (x - tile_x0) as int);
                        }
                    }
                }
            }
            x = x + 1;
        }
        proof {
            assert forall|i: int| 0 <= i < old_fb.len() implies #[trigger] fb@[i] == (
                if in_rect(i, w, lx0, lx1, ly0, y + 1 - tile_y0) {
                    if paint_blend { blend_spec(old_fb[i], cmd.color) } else { cmd.color }
                } else {
                    old_fb[i]
                }) by {
            }
        }
        y = y + 1;
    }
}

/// Grid of tiles for `tile_count` tiles on a `w` x `h` screen: `ceil(sqrt)`
/// columns, as many rows as needed, and the size of one tile.
pub fn tile_layout(tile_count: usize, w: usize, h: usize) -> (r: (usize, usize, usize, usize))
    requires
        1 <= tile_count <= u32::MAX,
        2 * tile_count <= usize::MAX,
    ensures
        is_ceil_sqrt(r.0 as int, tile_count as int),
        r.1 == (tile_count + r.0 - 1) / (r.0 as int),
        r.1 >= 1,
        r.0 * r.1 >= tile_count,
        r.2 == w / r.0,
        r.3 == h / r.1,
{
    let cols = ceil_sqrt(tile_count as u32) as usize;
    assert(cols <= tile_count) by (nonlinear_arith)
        requires
            is_ceil_sqrt(cols as int, tile_count as int),
            tile_count >= 1,
    ;
    let rows = (tile_count + cols - 1) / cols;
    assert(rows >= 1 && cols * rows >= tile_count) by (nonlinear_arith)
        requires
            rows == (tile_count + cols - 1) / (cols as int),
            cols >= 1,
            tile_count >= 1,
    ;
    (cols, rows, w / cols, h / rows)
}

/// Tile that a command goes to: the tile holding the middle of its
/// rectangle, clamped to the last column and row; `None` when that index
/// is not below `tile_count`.
pub fn tile_of_command(cmd: &RenderCommand, cols: usize, rows: usize, tile_w: usize, tile_h: usize, tile_count: usize) -> (r: Option<usize>)
    requires
        cols >= 1,
        rows >= 1,
        tile_w >= 1,
        tile_h >= 1,
        (cmd.x0 as usize) + (cmd.x1 as usize) <= usize::MAX,
        (cmd.y0 as usize) + (cmd.y1 as usize) <= usize::MAX,
        cols * rows <= usize::MAX,
    ensures
        ({
            let cx = ((cmd.x0 as usize) + (cmd.x1 as usize)) / 2;
            let cy = ((cmd.y0 as usize) + (cmd.y1 as usize)) / 2;
            let col = if cx / (tile_w as int) < cols - 1 { cx / (tile_w as int) } else { cols - 1 };
            let row = if cy / (tile_h as int) < rows - 1 { cy / (tile_h as int) } else { rows - 1 };
            let idx = row * cols + col;
            r == (if idx < tile_count { Some(idx as usize) } else { None::<usize> })
        }),
{
    let cx = (cmd.x0 as usize + cmd.x1 as usize) / 2;
    let cy = (cmd.y0 as usize + cmd.y1 as usize) / 2;
    let tile_col = if cx / tile_w < cols - 1 { cx / tile_w } else { cols - 1 };
    let tile_row = if cy / tile_h < rows - 1 { cy / tile_h } else { rows - 1 };
    assert(tile_row * cols + tile_col < cols * rows) by (nonlinear_arith)
        requires
            tile_row < rows,
            tile_col < cols,
    ;
    let tile_idx = tile_row * cols + tile_col;
    if tile_idx < tile_count { Some(tile_idx) } else { None }
}

/// Screen rectangle `[xs, xe) x [ys, ye)` of tile `tile_idx`, clipped to the
/// `w` x `h` screen.
pub fn tile_bounds(tile_idx: usize, cols: usize, tile_w: usize, tile_h: usize, w: usize, h: usize) -> (r: (usize, usize, usize, usize))
    requires
        cols >= 1,
        tile_w >= 1,
        tile_h >= 1,
        ((tile_idx % cols) + 1) * tile_w <= w,
        ((tile_idx / cols) + 1) * tile_h <= h,
    ensures
        r == (
            ((tile_idx % cols) * tile_w) as usize,
            ((tile_idx / cols) * tile_h) as usize,
            (((tile_idx % cols) + 1) * tile_w) as usize,
            (((tile_idx / cols) + 1) * tile_h) as usize,
        ),
        r.0 <= r.2 <= w,
        r.1 <= r.3 <= h,
{
    let tile_col = tile_idx % cols;
    let tile_row = tile_idx / cols;
    assert(tile_col * tile_w <= (tile_col + 1) * tile_w) by (nonlinear_arith);
    assert(tile_row * tile_h <= (tile_row + 1) * tile_h) by (nonlinear_arith);
    let x_start = tile_col * tile_w;
    let y_start = tile_row * tile_h;
    assert(tile_col == tile_idx % cols && tile_row == tile_idx / cols);
    assert((tile_row + 1) * tile_h <= h);
    assert(tile_row + 1 <= (tile_row + 1) * tile_h) by (nonlinear_arith)
        requires
            tile_h >= 1,
    ;
    let xe = (tile_col + 1) * tile_w;
    let ye = (tile_row + 1) * tile_h;
    let x_end = if xe <= w { xe } else { w };
    let y_end = if ye <= h { ye } else { h };
    (x_start, y_start, x_end, y_end)
}

/// Index of pixel `(x, y)` in a buffer `w` pixels wide.
pub open spec fn pixel_index(x: int, y: int, w: int) -> int {
    y * w + x
}

proof fn lemma_tile_index_lt(a: int, b: int, tw: int, ty: int)
    requires
        0 <= a < ty,
        0 <= b < tw,
    ensures
        0 <= pixel_index(b, a, tw),
        pixel_index(b, a, tw) < ty * tw,
{
    assert(a * tw + tw <= ty * tw) by (nonlinear_arith)
        requires
            a < ty,
            0 <= tw,
    ;
    assert(0 <= a * tw) by (nonlinear_arith)
        requires
            0 <= a,
            0 <= tw,
    ;
}

/// Copy of the screen rectangle `[xs, xe) x [ys, ye)` of a buffer `w`
/// pixels wide, row by row.
pub fn extract_tile(fb: &Vec<u32>, w: usize, xs: usize, ys: usize, xe: usize, ye: usize) -> (r: Vec<u32>)
    requires
        xs <= xe <= w,
        ys <= ye,
        ye == ys || (ye - 1) * w + xe <= fb@.len(),
        (xe - xs) * (ye - ys) <= usize::MAX,
    ensures
        r@.len() == (xe - xs) * (ye - ys),
        forall|ty: int, tx: int| 0 <= ty < ye - ys && 0 <= tx < xe - xs ==>
            r@[#[trigger] pixel_index(tx, ty, xe - xs)] == fb@[pixel_index(xs + tx, ys + ty, w as int)],
{
    let tw = xe - xs;
    let th = ye - ys;
    let mut tile: Vec<u32> = Vec::with_capacity(tw * th);
    if tw == 0 {
        assert(tw * th == 0) by (nonlinear_arith)
            requires
                tw == 0,
        ;
        return tile;
    }
    let fb_len = fb.len();
    let mut ty: usize = 0;
    while ty < th
        invariant
            tw == xe - xs,
            th == ye - ys,
            tw > 0,
            xs < xe <= w,
            fb_len == fb@.len(),
            ye == ys || (ye - 1) * w + xe <= fb@.len(),
            tw * th <= usize::MAX,
            ty <= th,
            tile@.len() == ty * tw,
            forall|a: int, b: int| 0 <= a < ty && 0 <= b < tw ==>
                tile@[#[trigger] pixel_index(b, a, tw as int)] == fb@[pixel_index(xs + b, ys + a, w as int)],
        decreases th - ty,
    {
        proof {
            lemma_row_bound((ys + ty) as int, w as int, (xe - 1) as int, ye as int, xe as int, fb@.len() as int);
            assert((ty + 1) * tw == ty * tw + tw) by (nonlinear_arith);
        }
        let src_row = (ys + ty) * w;
        let mut tx: usize = 0;
        while tx < tw
            invariant
                tw == xe - xs,
                th == ye - ys,
                tw > 0,
                xs < xe <= w,
                ty < th,
                fb_len == fb@.len(),
                src_row == (ys + ty) * w,
                src_row + xe <= fb@.len(),
                tx <= tw,
                tile@.len() == ty * tw + tx,
                forall|a: int, b: int| 0 <= a < ty && 0 <= b < tw ==>
                    tile@[#[trigger] pixel_index(b, a, tw as int)] == fb@[pixel_index(xs + b, ys + a, w as int)],
                forall|b: int| 0 <= b < tx ==> tile@[#[trigger] pixel_index(b, ty as int, tw as int)]
                    == fb@[pixel_index(xs + b, ys + ty, w as int)],
            decreases tw - tx,
        {
            let v = fb[src_row + xs + tx];
            let ghost before = tile@;
            tile.push(v);
            proof {
                assert forall|a: int, b: int| 0 <= a < ty && 0 <= b < tw implies
                    tile@[#[trigger] pixel_index(b, a, tw as int)] == fb@[pixel_index(xs + b, ys + a, w as int)] by {
                    lemma_tile_index_lt(a, b, tw as int, ty as int);
                    assert(tile@[pixel_index(b, a, tw as int)] == before[pixel_index(b, a, tw as int)]);
                }
                assert(pixel_index(tx as int, ty as int, tw as int) == ty * tw + tx);
            }
            tx = tx + 1;
        }
        proof {
            assert forall|a: int, b: int| 0 <= a < ty + 1 && 0 <= b < tw implies
                tile@[#[trigger] pixel_index(b, a, tw as int)] == fb@[pixel_index(xs + b, ys + a, w as int)] by {
                if a == ty {
                    assert(pixel_index(b, a, tw as int) == pixel_index(b, ty as int, tw as int));
                }
            }
        }
        ty = ty + 1;
    }
    assert(th * tw == tw * th) by (nonlinear_arith);
    tile
}

impl CpuBackend {
    /// Copies a finished tile, `xe - xs` pixels wide, back into the work
    /// buffer (a screen `w` pixels wide) at `(xs, ys)`.
    pub fn write_tile(&mut self, tile: &Vec<u32>, w: usize, xs: usize, ys: usize, xe: usize, ye: usize)
        requires
            xs <= xe <= w,
            ys <= ye,
            ye == ys || (ye - 1) * w + xe <= old(self).work_buffer@.len(),
            tile@.len() >= (xe - xs) * (ye - ys),
        ensures
            final(self).work_buffer@.len() == old(self).work_buffer@.len(),
            final(self).framebuffer@ == old(self).framebuffer@,
            final(self).width == old(self).width,
            final(self).height == old(self).height,
            forall|i: int| 0 <= i < old(self).work_buffer@.len() ==> #[trigger] final(self).work_buffer@[i] == (
                if in_rect(i, w as int, xs as int, xe as int, ys as int, ye as int) {
                    tile@[(i / (w as int) - ys) * (xe - xs) + (i % (w as int) - xs)]
                } else {
                    old(self).work_buffer@[i]
                }),
    {
        let ghost old_wb = self.work_buffer@;
        let ghost ww = w as int;
        let len = self.work_buffer.len();
        let tile_len = tile.len();
        let tw = xe - xs;
        let th = ye - ys;
        if tw == 0 || th == 0 {
            proof {
                assert forall|i: int| 0 <= i < old_wb.len() implies
                    !in_rect(i, w as int, xs as int, xe as int, ys as int, ye as int) by {}
            }
            return;
        }
        let mut ty: usize = 0;
        while ty < th
            invariant
                self.work_buffer@.len() == old_wb.len(),
                len == old_wb.len(),
                self.framebuffer@ == old(self).framebuffer@,
                self.width == old(self).width,
                self.height == old(self).height,
                tw == xe - xs,
                th == ye - ys,
                tw > 0,
                th > 0,
                ww == w,
                xs < xe <= w,
                (ye - 1) * w + xe <= old_wb.len(),
                tile@.len() >= tw * th,
                tile_len == tile@.len(),
                ty <= th,
                forall|i: int| 0 <= i < old_wb.len() ==> #[trigger] self.work_buffer@[i] == (
                    if in_rect(i, ww, xs as int, xe as int, ys as int, ys + ty) {
                        tile@[(i / ww - ys) * tw + (i % ww - xs)]
                    } else {
                        old_wb[i]
                    }),
            decreases th - ty,
        {
            proof {
                lemma_row_bound((ys + ty) as int, ww, (xe - 1) as int, ye as int, xe as int, old_wb.len() as int);
                assert(ty * tw + tw <= th * tw) by (nonlinear_arith)
                    requires
                        ty < th,
                ;
                assert(th * tw == tw * th) by (nonlinear_arith);
            }
            let dst_row = (ys + ty) * w;
            let src_row = ty * tw;
            let mut tx: usize = 0;
            while tx < tw
                invariant
                    self.work_buffer@.len() == old_wb.len(),
                    len == old_wb.len(),
                    self.framebuffer@ == old(self).framebuffer@,
                    self.width == old(self).width,
                    self.height == old(self).height,
                    tw == xe - xs,
                    th == ye - ys,
                    ww == w,
                    ww > 0,
                    xs < xe <= w,
                    ty < th,
                    dst_row == (ys + ty) * w,
                    dst_row + xe <= old_wb.len(),
                    src_row == ty * tw,
                    src_row + tw <= tile@.len(),
                    tile_len == tile@.len(),
                    tx <= tw,
                    forall|i: int| 0 <= i < old_wb.len() ==> #[trigger] self.work_buffer@[i] == (
                        if in_rect(i, ww, xs as int, xe as int, ys as int, ys + ty)
                            || (i / ww == ys + ty && xs <= i % ww < xs + tx) {
                            tile@[(i / ww - ys) * tw + (i % ww - xs)]
                        } else {
                            old_wb[i]
                        }),
                decreases tw - tx,
            {
                let idx = dst_row + xs + tx;
                proof {
                    lemma_div_mod_of((ys + ty) as int, ww, (xs + tx) as int);
                }
                let v = tile[src_row + tx];
                let ghost before = self.work_buffer@;
                self.work_buffer.set(idx, v);
                proof {
                    assert forall|i: int| 0 <= i < old_wb.len() implies #[trigger] self.work_buffer@[i] == (
                        if in_rect(i, ww, xs as int, xe as int, ys as int, ys + ty)
                            || (i / ww == ys + ty && xs <= i % ww < xs + tx + 1) {
                            tile@[(i / ww - ys) * tw + (i % ww - xs)]
                        } else {
                            old_wb[i]
                        }) by {
                        if i != idx {
                            assert(self.work_buffer@[i] == before[i]);
                            if i / ww == ys + ty && i % ww == xs + tx {
                                lemma_same_pixel(i, ww, (ys + ty) as int, (xs + tx) as int);
                            }
                        }
                    }
                }
                tx = tx + 1;
            }
            ty = ty + 1;
        }
    }
}

// ---------------------------------------------------------------------------
// Drawing every tile
// ---------------------------------------------------------------------------

/// Columns of the tile grid for `tiles` tiles: the ceiling of its square root.
pub open spec fn layout_cols(tiles: int) -> int {
    choose|c: int| is_ceil_sqrt(c, tiles)
}

/// Rows of the tile grid for `tiles` tiles in `cols` columns.
pub open spec fn layout_rows(tiles: int, cols: int) -> int {
    (tiles + cols - 1) / cols
}

proof fn lemma_layout_cols(c: int, tiles: int)
    requires
        is_ceil_sqrt(c, tiles),
    ensures
        layout_cols(tiles) == c,
{
    let d = layout_cols(tiles);
    assert(is_ceil_sqrt(d, tiles));
    if d < c {
        assert((c - 1) * (c - 1) >= d * d) by (nonlinear_arith)
            requires
                1 <= d <= c - 1,
        ;
    } else if c < d {
        assert((d - 1) * (d - 1) >= c * c) by (nonlinear_arith)
            requires
                1 <= c <= d - 1,
        ;
    }
}

/// Tile a command goes to in a grid of `cols` x `rows` tiles of `tw` x `th`
/// pixels: the one holding the middle of its rectangle, clamped to the last
/// column and row, if that index is below `tiles`.
pub open spec fn command_tile(cmd: RenderCommand, cols: int, rows: int, tw: int, th: int, tiles: int) -> Option<int> {
    let cx = ((cmd.x0 as usize) + (cmd.x1 as usize)) / 2;
    let cy = ((cmd.y0 as usize) + (cmd.y1 as usize)) / 2;
    let col = if cx / tw < cols - 1 { cx / tw } else { cols - 1 };
    let row = if cy / th < rows - 1 { cy / th } else { rows - 1 };
    let idx = row * cols + col;
    if idx < tiles { Some(idx) } else { None }
}

/// Screen pixel `(px, py)` after `cmd` is drawn on the tile
/// `[xs, xe) x [ys, ye)`, given its value `v` before: rectangles and the
/// boxes of lines are clipped to the tile; other commands leave the tile.
pub open spec fn tile_effect(v: u32, cmd: RenderCommand, xs: int, ys: int, xe: int, ye: int, px: int, py: int) -> u32 {
    let c = tile_clip(cmd, xs as usize, ys as usize, xe as usize, ye as usize);
    if (cmd.primitive_type == 0 || cmd.primitive_type == 1) && c.0 < c.2 && c.1 < c.3
        && c.0 <= px < c.2 && c.1 <= py < c.3 {
        if cmd.primitive_type == 0 && cmd.flags & FLAG_ALPHA_BLEND != 0 { blend_spec(v, cmd.color) } else { cmd.color }
    } else {
        v
    }
}

/// Screen pixel `(px, py)` of tile `t` after the first `n` commands (those
/// of other tiles skipped), from its value `v` at the start of the frame.
pub open spec fn tile_value(v: u32, cmds: Seq<RenderCommand>, n: int, cols: int, rows: int, tw: int, th: int,
    tiles: int, t: int, px: int, py: int) -> u32
    decreases n,
{
    if n <= 0 {
        v
    } else {
        let p = tile_value(v, cmds, n - 1, cols, rows, tw, th, tiles, t, px, py);
        if command_tile(cmds[n - 1], cols, rows, tw, th, tiles) == Some(t) {
            tile_effect(p, cmds[n - 1], (t % cols) * tw, (t / cols) * th, (t % cols + 1) * tw, (t / cols + 1) * th, px, py)
        } else {
            p
        }
    }
}

/// Tile holding screen pixel `(px, py)`, if any.
pub open spec fn pixel_tile(px: int, py: int, cols: int, rows: int, tw: int, th: int, tiles: int) -> Option<int> {
    let col = px / tw;
    let row = py / th;
    if 0 <= col < cols && 0 <= row < rows && row * cols + col < tiles { Some(row * cols + col) } else { None }
}

/// The frame drawn tile by tile on a `w`-pixel-wide screen cut into
/// `tiles` tiles: each pixel of a tile gets the commands of its tile, in
/// order; pixels of no tile keep their value in `fb`.
pub open spec fn tiled_frame(fb: Seq<u32>, cmds: Seq<RenderCommand>, w: int, h: int, tiles: int) -> Seq<u32> {
    let cols = layout_cols(tiles);
    let rows = layout_rows(tiles, cols);
    let tw = w / cols;
    let th = h / rows;
    Seq::new(fb.len(), |i: int|
        match pixel_tile(i % w, i / w, cols, rows, tw, th, tiles) {
            Some(t) => tile_value(fb[i], cmds, cmds.len() as int, cols, rows, tw, th, tiles, t, i % w, i / w),
            None => fb[i],
        })
}

/// Every command can be drawn on its tile: its corners add up within a
/// `usize`, and clipped to its tile it is empty or its far corner is not
/// negative.
pub open spec fn tiled_commands_ok(cmds: Seq<RenderCommand>, w: int, h: int, tiles: int) -> bool {
    let cols = layout_cols(tiles);
    let rows = layout_rows(tiles, cols);
    let tw = w / cols;
    let th = h / rows;
    forall|k: int| 0 <= k < cmds.len() ==> {
        &&& (#[trigger] cmds[k]).x0 as usize + cmds[k].x1 as usize <= usize::MAX
        &&& cmds[k].y0 as usize + cmds[k].y1 as usize <= usize::MAX
        &&& command_tile(cmds[k], cols, rows, tw, th, tiles) matches Some(t) ==> tile_cmd_ok(cmds[k],
            ((t % cols) * tw) as usize, ((t / cols) * th) as usize, ((t % cols + 1) * tw) as usize, ((t / cols + 1) * th) as usize)
    }
}

/// What drawing tile by tile needs of a `w` x `h` screen: between 2 and
/// `u32::MAX` tiles, corners within 16 bits, tiles at least a pixel wide
/// and high.
pub open spec fn tiling_fits(w: int, h: int, tiles: int) -> bool {
    let cols = layout_cols(tiles);
    &&& 2 <= tiles <= u32::MAX
    &&& 2 * tiles <= usize::MAX
    &&& w <= 32767 && h <= 32767
    &&& w / cols >= 1
    &&& h / layout_rows(tiles, cols) >= 1
}

proof fn lemma_tile_of_pixel(px: int, py: int, t: int, cols: int, rows: int, tw: int, th: int, tiles: int)
    requires
        0 <= t < tiles <= cols * rows,
        cols >= 1,
        tw >= 1,
        th >= 1,
        0 <= px,
        0 <= py,
    ensures
        (pixel_tile(px, py, cols, rows, tw, th, tiles) == Some(t)) <==> (
            (t % cols) * tw <= px < (t % cols + 1) * tw && (t / cols) * th <= py < (t / cols + 1) * th),
{
    let col = t % cols;
    let row = t / cols;
    vstd::arithmetic::div_mod::lemma_fundamental_div_mod(t, cols);
    assert(t == row * cols + col) by (nonlinear_arith)
        requires
            t == cols * (t / cols) + t % cols,
            row == t / cols,
            col == t % cols,
    ;
    assert(0 <= col < cols);
    assert(0 <= row < rows) by (nonlinear_arith)
        requires
            t == row * cols + col,
            0 <= col < cols,
            0 <= t < cols * rows,
    ;
    vstd::arithmetic::div_mod::lemma_fundamental_div_mod(px, tw);
    vstd::arithmetic::div_mod::lemma_fundamental_div_mod(py, th);
    let qx = px / tw;
    let qy = py / th;
    assert((col * tw <= px < (col + 1) * tw) <==> qx == col) by (nonlinear_arith)
        requires
            px == tw * qx + px % tw,
            0 <= px % tw < tw,
            tw >= 1,
    ;
    assert((row * th <= py < (row + 1) * th) <==> qy == row) by (nonlinear_arith)
        requires
            py == th * qy + py % th,
            0 <= py % th < th,
            th >= 1,
    ;
    if pixel_tile(px, py, cols, rows, tw, th, tiles) == Some(t) {
        assert(qy * cols + qx == t);
        lemma_div_mod_of(qy, cols, qx);
    }
}

impl CpuBackend {
    /// Draws every tile of a screen cut into `tile_count` tiles into the
    /// work buffer, which holds the framebuffer: each tile starts from the
    /// framebuffer and gets the rectangles and line boxes of its commands,
    /// clipped to it, in order; pixels of no tile are left as they are.
    pub fn draw_tiles(&mut self, commands: &[RenderCommand], tile_count: usize)
        requires
            old(self).wf(),
            old(self).work_buffer@ == old(self).framebuffer@,
            tiling_fits(old(self).width as int, old(self).height as int, tile_count as int),
            old(self).width * old(self).height <= old(self).framebuffer@.len(),
            tiled_commands_ok(commands@, old(self).width as int, old(self).height as int, tile_count as int),
        ensures
            final(self).wf(),
            final(self).work_buffer@ == tiled_frame(old(self).framebuffer@, commands@, old(self).width as int,
                old(self).height as int, tile_count as int),
            final(self).framebuffer@ == old(self).framebuffer@,
            final(self).width == old(self).width,
            final(self).height == old(self).height,
    {
        let w = self.width as usize;
        let h = self.height as usize;
        let ghost fb = self.framebuffer@;
        let ghost cmds = commands@;
        let (cols, rows, tw, th) = tile_layout(tile_count, w, h);
        proof {
            lemma_layout_cols(cols as int, tile_count as int);
        }
        let ghost target = tiled_frame(fb, cmds, w as int, h as int, tile_count as int);
        let fb_len = self.framebuffer.len();
        assert(cols <= tile_count) by (nonlinear_arith)
            requires
                is_ceil_sqrt(cols as int, tile_count as int),
                tile_count >= 1,
        ;
        proof {
            vstd::arithmetic::div_mod::lemma_fundamental_div_mod((tile_count + cols - 1) as int, cols as int);
        }
        assert(cols * rows <= tile_count + cols - 1) by (nonlinear_arith)
            requires
                rows == (tile_count + cols - 1) / (cols as int),
                (tile_count + cols - 1) == (cols as int) * ((tile_count + cols - 1) / (cols as int)) + (tile_count + cols - 1) % (cols as int),
                (tile_count + cols - 1) % (cols as int) >= 0,
        ;
        assert(tw >= 1 && th >= 1);
        assert(cols * tw <= w && rows * th <= h) by (nonlinear_arith)
            requires
                tw == (w as int) / (cols as int),
                th == (h as int) / (rows as int),
                cols >= 1,
                rows >= 1,
        ;
        let mut t: usize = 0;
        while t < tile_count
            invariant
                t <= tile_count,
                self.wf(),
                self.framebuffer@ == fb,
                self.width == old(self).width,
                self.height == old(self).height,
                w == self.width as usize,
                h == self.height as usize,
                w * h <= fb.len(),
                cmds == commands@,
                cols as int == layout_cols(tile_count as int),
                rows as int == layout_rows(tile_count as int, cols as int),
                tw as int == (w as int) / (cols as int),
                th as int == (h as int) / (rows as int),
                tw >= 1,
                th >= 1,
                cols >= 1,
                rows >= 1,
                cols * rows >= tile_count,
                cols * rows <= usize::MAX,
                fb.len() == fb_len,
                cols * tw <= w,
                rows * th <= h,
                w <= 32767,
                h <= 32767,
                tiled_commands_ok(cmds, w as int, h as int, tile_count as int),
                target == tiled_frame(fb, cmds, w as int, h as int, tile_count as int),
                self.work_buffer@.len() == fb.len(),
                forall|i: int| 0 <= i < fb.len() ==> #[trigger] self.work_buffer@[i] == (
                    match pixel_tile(i % (w as int), i / (w as int), cols as int, rows as int, tw as int, th as int, tile_count as int) {
                        Some(u) => if u < t { target[i] } else { fb[i] },
                        None => fb[i],
                    }),
            decreases tile_count - t,
        {
            let ghost col = (t % cols) as int;
            let ghost row = (t / cols) as int;
            assert(row < rows) by (nonlinear_arith)
                requires
                    row == (t as int) / (cols as int),
                    t < cols * rows,
                    cols >= 1,
            ;
            assert((col + 1) * tw <= w && (row + 1) * th <= h) by (nonlinear_arith)
                requires
                    0 <= col < cols,
                    0 <= row < rows,
                    cols * tw <= w,
                    rows * th <= h,
                    tw >= 1,
                    th >= 1,
            ;
            assert(col * tw <= (col + 1) * tw && row * th <= (row + 1) * th) by (nonlinear_arith)
                requires
                    tw >= 1,
                    th >= 1,
            ;
            assert(0 <= col * tw && 0 <= row * th) by (nonlinear_arith)
                requires
                    col >= 0,
                    row >= 0,
                    tw >= 1,
                    th >= 1,
            ;
            let (xs, ys, xe, ye) = tile_bounds(t, cols, tw, th, w, h);
            assert(xe - xs == tw && ye - ys == th) by (nonlinear_arith)
                requires
                    xs == col * tw,
                    xe == (col + 1) * tw,
                    ys == row * th,
                    ye == (row + 1) * th,
            ;
            assert((ye - 1) * w + xe <= w * h) by (nonlinear_arith)
                requires
                    ye <= h,
                    xe <= w,
                    ye >= 1,
            ;
            assert(tw * th <= w * h) by (nonlinear_arith)
                requires
                    tw <= w,
                    th <= h,
                    tw >= 1,
                    th >= 1,
            ;
            let mut tile = extract_tile(&self.framebuffer, w, xs, ys, xe, ye);
            let mut k: usize = 0;
            while k < commands.len()
                invariant
                    k <= cmds.len(),
                    cmds == commands@,
                    t < tile_count,
                    tile@.len() == tw * th,
                    xs as int == col * tw,
                    ys as int == row * th,
                    xe as int == (col + 1) * tw,
                    ye as int == (row + 1) * th,
                    col == (t as int) % (cols as int),
                    row == (t as int) / (cols as int),
                    xe - xs == tw,
                    ye - ys == th,
                    xe <= w,
                    ye <= h,
                    w <= 32767,
                    h <= 32767,
                    tw >= 1,
                    th >= 1,
                    cols >= 1,
                    rows >= 1,
                    cols * rows <= usize::MAX,
                    cols as int == layout_cols(tile_count as int),
                    rows as int == layout_rows(tile_count as int, cols as int),
                    tw as int == (w as int) / (cols as int),
                    th as int == (h as int) / (rows as int),
                    tiled_commands_ok(cmds, w as int, h as int, tile_count as int),
                    forall|ly: int, lx: int| 0 <= ly < th && 0 <= lx < tw ==>
                        tile@[#[trigger] pixel_index(lx, ly, tw as int)] == tile_value(fb[pixel_index(xs + lx, ys + ly, w as int)],
                            cmds, k as int, cols as int, rows as int, tw as int, th as int, tile_count as int, t as int, xs + lx, ys + ly),
                decreases cmds.len() - k,
            {
                let cmd = &commands[k];
                let ghost before = tile@;
                assert(cmds[k as int].x0 as usize + cmds[k as int].x1 as usize <= usize::MAX);
                let assigned = tile_of_command(cmd, cols, rows, tw, th, tile_count);
                let mine = match assigned {
                    Some(u) => u == t,
                    None => false,
                };
                if mine {
                    execute_cmd_on_tile(cmd, &mut tile, xs, ys, xe, ye, w);
                }
                proof {
                    assert forall|ly: int, lx: int| 0 <= ly < th && 0 <= lx < tw implies
                        tile@[#[trigger] pixel_index(lx, ly, tw as int)] == tile_value(fb[pixel_index(xs + lx, ys + ly, w as int)],
                            cmds, k + 1, cols as int, rows as int, tw as int, th as int, tile_count as int, t as int, xs + lx, ys + ly) by {
                        let li = pixel_index(lx, ly, tw as int);
                        lemma_tile_index_lt(ly, lx, tw as int, th as int);
                        lemma_div_mod_of(ly, tw as int, lx);
                        assert(command_tile(cmds[k as int], cols as int, rows as int, tw as int, th as int, tile_count as int)
                            == (match assigned { Some(u) => Some(u as int), None => None::<int> }));
                    }
                }
                k = k + 1;
            }
            let ghost wb0 = self.work_buffer@;
            self.write_tile(&tile, w, xs, ys, xe, ye);
            proof {
                assert forall|i: int| 0 <= i < fb.len() implies #[trigger] self.work_buffer@[i] == (
                    match pixel_tile(i % (w as int), i / (w as int), cols as int, rows as int, tw as int, th as int, tile_count as int) {
                        Some(u) => if u < t + 1 { target[i] } else { fb[i] },
                        None => fb[i],
                    }) by {
                    let px = i % (w as int);
                    let py = i / (w as int);
                    assert(0 <= px && 0 <= py) by (nonlinear_arith)
                        requires
                            w >= 1,
                            i >= 0,
                            px == i % (w as int),
                            py == i / (w as int),
                    ;
                    lemma_tile_of_pixel(px, py, t as int, cols as int, rows as int, tw as int, th as int, tile_count as int);
                    if in_rect(i, w as int, xs as int, xe as int, ys as int, ye as int) {
                        let ly = py - ys;
                        let lx = px - xs;
                        lemma_same_pixel(i, w as int, py, px);
                        assert(pixel_index(xs + lx, ys + ly, w as int) == i);
                        assert(tile@[pixel_index(lx, ly, tw as int)] == tile_value(fb[i], cmds, cmds.len() as int,
                            cols as int, rows as int, tw as int, th as int, tile_count as int, t as int, px, py));
                    }
                }
            }
            t = t + 1;
        }
        proof {
            assert forall|i: int| 0 <= i < fb.len() implies #[trigger] self.work_buffer@[i] == target[i] by {
                match pixel_tile(i % (w as int), i / (w as int), cols as int, rows as int, tw as int, th as int, tile_count as int) {
                    Some(u) => {},
                    None => {},
                }
            }
            assert(self.work_buffer@ =~= target);
        }
    }
}

} // verus!
