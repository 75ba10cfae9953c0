use citybound::gpu_backend::{HardwareTier, GpuApi, GpuCapabilities, RenderCommand, RenderCommandPool, TextureAtlas,
    CpuBackend, blend_pixel, dithered_pixel, draw_rect, draw_line, ceil_sqrt, FLAG_ALPHA_BLEND, FLAG_DITHER};
use citybound::platform::{TargetOs, TargetArch};

#[test]
fn test_hardware_tier_ordering() {
    assert!(HardwareTier::CpuOnly < HardwareTier::IntegratedGpu);
    assert!(HardwareTier::IntegratedGpu < HardwareTier::MidRangeGpu);
    assert!(HardwareTier::MidRangeGpu < HardwareTier::HighEndGpu);
}

#[test]
fn test_blend_pixel_opaque() {
    assert_eq!(blend_pixel(0xFF_FF_00_00, 0xFF_00_FF_00), 0xFF_00_FF_00);
}

#[test]
fn test_blend_pixel_transparent() {
    assert_eq!(blend_pixel(0xFF_FF_00_00, 0x00_00_FF_00), 0xFF_FF_00_00);
}

#[test]
fn test_blend_pixel_semi() {
    let result = blend_pixel(0xFF_00_00_00, 0x80_FF_FF_FF);
    let r = (result >> 16) & 0xFF;
    assert!(r > 120 && r < 135, "Semi-transparent blend failed: r={}", r);
}

#[test]
fn test_render_command_pool_sort() {
    let mut pool = RenderCommandPool::with_capacity(64);
    pool.push(RenderCommand { z_depth: 100, ..Default::default() });
    pool.push(RenderCommand { z_depth: 10, ..Default::default() });
    pool.push(RenderCommand { z_depth: 50, ..Default::default() });
    pool.sort_by_depth();
    assert_eq!(pool.slice()[0].z_depth, 10);
    assert_eq!(pool.slice()[1].z_depth, 50);
    assert_eq!(pool.slice()[2].z_depth, 100);
}

#[test]
fn test_texture_atlas_register() {
    let mut atlas = TextureAtlas::new(2048, 2048);
    let pixels: Vec<u32> = vec![0xFF_FF_00_00; 64 * 64];
    let entry = atlas.register(&pixels, 64, 64);
    assert_eq!(entry.width, 64);
    assert_eq!(entry.height, 64);
    let color = atlas.sample(entry.x + 10, entry.y + 10);
    assert_eq!(color, 0xFF_FF_00_00);
}

#[test]
fn test_cpu_backend_draw_rect() {
    let backend = CpuBackend::new(100, 100);
    assert_eq!(backend.framebuffer.len(), 10000);
}

#[test]
fn test_gpu_api_detect_returns_valid() {
    let api = GpuApi::detect(TargetOs::Linux, TargetArch::X86_64, false, false);
    assert!(!api.name().is_empty());
}

#[test]
fn test_dithered_pixel() {
    let bg = 0xFF_00_00_00;
    let fg = 0xFF_FF_FF_FF;
    let result = dithered_pixel(bg, fg, 0, 0);
    assert_eq!(result, fg);
}

#[test]
fn test_command_pool_clear() {
    let mut pool = RenderCommandPool::with_capacity(64);
    for i in 0..10 {
        pool.push(RenderCommand { z_depth: i as u16, ..Default::default() });
    }
    assert_eq!(pool.len(), 10);
    pool.clear();
    assert_eq!(pool.len(), 0);
}

#[test]
fn test_gpu_capabilities_defaults() {
    let caps = GpuCapabilities::default();
    assert_eq!(caps.tier, 0);
    assert!(!caps.supports_compute);
}

#[test]
fn blend_semi_transparent_exact() {
    assert_eq!(blend_pixel(0xFF_00_00_00, 0x80_FF_FF_FF), 0xFF_80_80_80);
    assert_eq!(blend_pixel(0xFF_00_00_FF, 0x80_FF_00_00), 0xFF_80_00_7F);
}

#[test]
fn blend_stays_between_inputs() {
    let bg = 0xFF_20_C0_40u32;
    let fg = 0x40_E0_10_80u32;
    let out = blend_pixel(bg, fg);
    for shift in [16u32, 8, 0] {
        let b = (bg >> shift) & 0xFF;
        let f = (fg >> shift) & 0xFF;
        let o = (out >> shift) & 0xFF;
        assert!(o >= b.min(f) && o <= b.max(f));
    }
    assert_eq!(out >> 24, 0xFF);
}

#[test]
fn dither_follows_the_bayer_matrix() {
    let bg = 0xFF_00_00_00;
    let fg = 0x81_FF_FF_FF;
    assert_eq!(dithered_pixel(bg, fg, 0, 0), fg);
    assert_eq!(dithered_pixel(bg, fg, 1, 0), fg);
    assert_eq!(dithered_pixel(bg, fg, 0, 1), bg);
    assert_eq!(dithered_pixel(bg, fg, 4, 5), bg);
}

#[test]
fn tier_from_capabilities() {
    let mut caps = GpuCapabilities::default();
    assert_eq!(HardwareTier::current(&caps), HardwareTier::CpuOnly);
    caps.tier = 2;
    assert_eq!(HardwareTier::current(&caps), HardwareTier::MidRangeGpu);
    caps.tier = 9;
    assert_eq!(HardwareTier::current(&caps), HardwareTier::HighEndGpu);
}

#[test]
fn tier_settings() {
    assert_eq!(HardwareTier::CpuOnly.max_texture_size(), 512);
    assert_eq!(HardwareTier::HighEndGpu.max_texture_units(), 128);
    assert_eq!(HardwareTier::MidRangeGpu.msaa_samples(), 2);
    assert_eq!(HardwareTier::CpuOnly.optimal_tile_count(6), 6);
    assert_eq!(HardwareTier::MidRangeGpu.tile_size(4, 800, 600), (266, 200));
    assert_eq!(HardwareTier::CpuOnly.tile_size(0, 800, 600), (800, 600));
    assert!(HardwareTier::HighEndGpu.use_ssao());
    assert!(!HardwareTier::IntegratedGpu.use_dynamic_shadows());
    assert!(HardwareTier::MidRangeGpu.supports_compute_shaders());
    assert!(!HardwareTier::CpuOnly.supports_gpu_rendering());
    assert_eq!(ceil_sqrt(10), 4);
    assert_eq!(ceil_sqrt(16), 4);
}

#[test]
fn api_detection_per_platform() {
    assert_eq!(GpuApi::detect(TargetOs::Windows, TargetArch::X86_64, true, true), GpuApi::Dx12);
    assert_eq!(GpuApi::detect(TargetOs::Windows, TargetArch::X86_64, true, false), GpuApi::Vulkan);
    assert_eq!(GpuApi::detect(TargetOs::Android, TargetArch::Aarch64, false, false), GpuApi::OpenGlEs);
    assert_eq!(GpuApi::detect(TargetOs::MacOs, TargetArch::Aarch64, false, false), GpuApi::Metal);
    assert_eq!(GpuApi::detect(TargetOs::Other, TargetArch::Wasm32, false, false), GpuApi::WebGpu);
    assert_eq!(GpuApi::detect(TargetOs::Other, TargetArch::Arm, false, false), GpuApi::NoGpu);
    assert!(!GpuApi::NoGpu.is_gpu());
    assert!(GpuApi::Metal.supports_compute());
    assert!(!GpuApi::OpenGl.supports_compute());
    assert_eq!(GpuApi::OpenGlEs.name(), "OpenGL ES 3.0");
}

#[test]
fn depth_sort_keeps_equal_depths_in_order() {
    let mut pool = RenderCommandPool::with_capacity(8);
    pool.push(RenderCommand { z_depth: 5, color: 1, ..Default::default() });
    pool.push(RenderCommand { z_depth: 2, color: 2, ..Default::default() });
    pool.push(RenderCommand { z_depth: 5, color: 3, ..Default::default() });
    pool.push(RenderCommand { z_depth: 2, color: 4, ..Default::default() });
    pool.sort_by_depth();
    let colors: Vec<u32> = pool.slice().iter().map(|c| c.color).collect();
    assert_eq!(colors, vec![2, 4, 1, 3]);
}

#[test]
fn atlas_places_textures_on_shelves() {
    let mut atlas = TextureAtlas::new(128, 128);
    let a = atlas.register(&vec![0xFF_00_00_FFu32; 100 * 10], 100, 10);
    let b = atlas.register(&vec![0x80_00_FF_00u32; 40 * 20], 40, 20);
    assert_eq!((a.x, a.y), (0, 0));
    assert_eq!((b.x, b.y), (0, 10));
    assert_eq!(atlas.sample(99, 9), 0xFF_00_00_FF);
    assert_eq!(atlas.sample(39, 29), 0x80_00_FF_00);
    assert_eq!(atlas.sample(120, 120), 0);
    assert_eq!(atlas.sample(500, 0), 0);
    assert_eq!(atlas.pixel_count(), 128 * 128);
}

#[test]
fn rect_fill_plain_blended_and_dithered() {
    let mut fb = vec![0xFF_00_00_00u32; 16];
    draw_rect(&mut fb, 4, 4, 1, 1, 3, 3, 0xFF_FF_FF_FF, 0);
    assert_eq!(fb[5], 0xFF_FF_FF_FF);
    assert_eq!(fb[10], 0xFF_FF_FF_FF);
    assert_eq!(fb[0], 0xFF_00_00_00);
    assert_eq!(fb[15], 0xFF_00_00_00);

    let mut fb2 = vec![0xFF_00_00_00u32; 16];
    draw_rect(&mut fb2, 4, 4, 0, 0, 9, 1, 0x80_FF_FF_FF, FLAG_ALPHA_BLEND);
    assert_eq!(fb2[3], 0xFF_80_80_80);
    assert_eq!(fb2[4], 0xFF_00_00_00);

    let mut fb3 = vec![0xFF_00_00_00u32; 16];
    draw_rect(&mut fb3, 4, 4, 0, 0, 4, 4, 0x81_FF_FF_FF, FLAG_DITHER);
    assert_eq!(fb3[0], 0x81_FF_FF_FF);
    assert_eq!(fb3[4], 0xFF_00_00_00);
}

#[test]
fn line_plots_its_endpoints() {
    let mut fb = vec![0u32; 25];
    draw_line(&mut fb, 5, 5, 0, 0, 4, 4, 7);
    for i in 0..5 {
        assert_eq!(fb[i * 5 + i], 7);
    }
    assert_eq!(fb.iter().filter(|&&p| p == 7).count(), 5);
}

#[test]
fn backend_frame_cycle() {
    let mut backend = CpuBackend::new(4, 4);
    backend.begin_frame();
    let cmd = RenderCommand { primitive_type: 0, x0: 0, y0: 0, x1: 2, y1: 2, color: 0xFF_11_22_33, ..Default::default() };
    backend.execute_one(&cmd, 4, 4);
    assert_eq!(backend.framebuffer[0], 0);
    backend.swap_buffers();
    assert_eq!(backend.framebuffer[0], 0xFF_11_22_33);
    assert_eq!(backend.framebuffer[5], 0xFF_11_22_33);
    assert_eq!(backend.framebuffer[2], 0);
    backend.resize(2, 2);
    assert_eq!(backend.framebuffer.len(), 4);
    assert_eq!(backend.width, 2);
    assert_eq!(backend.height, 2);
}

#[test]
fn drawing_after_a_resize_is_clipped_to_the_new_size() {
    let mut backend = CpuBackend::new(4, 4);
    backend.resize(2, 2);
    let cmd = RenderCommand { primitive_type: 0, x0: 1, y0: 1, x1: 3, y1: 3, color: 0xFF_AB_CD_EF, ..Default::default() };
    assert!(!backend.execute_commands_multithreaded(&[cmd], 4));
    backend.swap_buffers();
    assert_eq!(backend.framebuffer, vec![0, 0, 0, 0xFF_AB_CD_EF]);
}

#[test]
fn few_commands_are_drawn_in_order_on_one_thread() {
    let mut backend = CpuBackend::new(4, 4);
    let cmds = [
        RenderCommand { primitive_type: 0, x0: 0, y0: 0, x1: 4, y1: 4, color: 0xFF_00_00_10, ..Default::default() },
        RenderCommand { primitive_type: 2, x0: 1, y0: 1, color: 0xFF_00_00_20, ..Default::default() },
        RenderCommand { primitive_type: 4, x0: 0, y0: 0, x1: 4, y1: 4, color: 0xFF_00_00_30, ..Default::default() },
    ];
    let tiled = backend.execute_commands_multithreaded(&cmds, 8);
    assert!(!tiled);
    assert_eq!(backend.work_buffer[0], 0xFF_00_00_10);
    assert_eq!(backend.work_buffer[5], 0xFF_00_00_20);
    assert_eq!(backend.framebuffer[0], 0);
}

#[test]
fn many_commands_go_to_the_tiles() {
    let mut backend = CpuBackend::new(8, 8);
    backend.framebuffer[3] = 77;
    let cmds = vec![RenderCommand { primitive_type: 2, x0: 0, y0: 0, color: 0xFF_FF_FF_FF, ..Default::default() }; 100];
    assert!(backend.execute_commands_multithreaded(&cmds, 4));
    assert_eq!(backend.work_buffer[3], 77);
    assert_eq!(backend.work_buffer[0], 0);
    assert!(!backend.execute_commands_multithreaded(&cmds, 1));
    assert_eq!(backend.work_buffer[0], 0xFF_FF_FF_FF);
}

#[test]
fn tiles_clip_each_command_to_its_own_tile() {
    let mut backend = CpuBackend::new(8, 8);
    let whole = RenderCommand { primitive_type: 0, x0: 0, y0: 0, x1: 8, y1: 8, color: 0xFF_00_00_AA, ..Default::default() };
    let corner = RenderCommand { primitive_type: 0, x0: 0, y0: 0, x1: 2, y1: 2, color: 0xFF_00_BB_00, ..Default::default() };
    let mut cmds = vec![whole; 99];
    cmds.push(corner);
    assert!(backend.execute_commands_multithreaded(&cmds, 4));
    // The whole-screen rectangle goes to the tile holding its middle (the
    // bottom right one) and is clipped to it.
    assert_eq!(backend.work_buffer[5 * 8 + 5], 0xFF_00_00_AA);
    assert_eq!(backend.work_buffer[3 * 8 + 3], 0);
    assert_eq!(backend.work_buffer[0], 0xFF_00_BB_00);
    assert_eq!(backend.work_buffer[8 + 1], 0xFF_00_BB_00);
    assert_eq!(backend.work_buffer[2], 0);
}

#[test]
fn active_backend_is_the_cpu_renderer() {
    let mut backend = citybound::gpu_backend::ActiveBackend::CpuSimd(CpuBackend::new(4, 2));
    assert!(!backend.is_gpu());
    assert_eq!(backend.framebuffer_ptr().map(|fb| fb.len()), Some(8));
    backend.resize(3, 3);
    assert_eq!(backend.framebuffer_ptr().map(|fb| fb.len()), Some(9));
    match &backend {
        citybound::gpu_backend::ActiveBackend::CpuSimd(cpu) => {
            assert_eq!(cpu.width, 3);
            assert_eq!(cpu.height, 3);
            assert_eq!(cpu.work_buffer.len(), 9);
        }
    }
}
