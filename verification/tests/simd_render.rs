use citybound::simd_render::{fill_rect_simd, fill_rect_alpha_simd, fill_pattern_simd, blit_scaled, fill_rect_clipped,
    warm_cache, alpha_over_pixel};

#[test]
fn test_fill_rect_simd_basic() {
    let mut fb = vec![0u32; 400];
    fill_rect_simd(&mut fb, 20, 20, 2, 2, 16, 16, 0xFF_FF_00_00);
    let filled = fb.iter().filter(|&&p| p == 0xFF_FF_00_00).count();
    assert_eq!(filled, 256);
}

#[test]
fn test_fill_rect_clipping() {
    let mut fb = vec![0u32; 100];
    fill_rect_simd(&mut fb, 10, 10, 20, 20, 5, 5, 0xFF_FF_00_00);
    let red = fb.iter().filter(|&&p| p == 0xFF_FF_00_00).count();
    assert_eq!(red, 0);
}

#[test]
fn test_alpha_opaque() {
    let mut fb = vec![0xFF_00_00_00u32; 100];
    fill_rect_alpha_simd(&mut fb, 10, 10, 0, 0, 5, 5, 0xFF_FF_00_00);
    assert_eq!(fb[0], 0xFF_FF_00_00);
}

#[test]
fn test_alpha_transparent() {
    let mut fb = vec![0xFF_00_00_00u32; 100];
    fill_rect_alpha_simd(&mut fb, 10, 10, 0, 0, 5, 5, 0x00_FF_00_00);
    assert_eq!(fb[0], 0xFF_00_00_00);
}

#[test]
fn test_alpha_partial() {
    let mut fb = vec![0xFF_00_00_00u32; 100];
    fill_rect_alpha_simd(&mut fb, 10, 10, 0, 0, 2, 2, 0x80_FF_00_00);
    let r = (fb[0] >> 16) & 0xFF;
    assert!(r > 100 && r < 160, "half-transparent red: r={}", r);
}

#[test]
fn test_alpha_simd_equals_scalar() {
    let mut fb_simd = vec![0xFF_11_22_33u32; 400];
    fill_rect_alpha_simd(&mut fb_simd, 20, 20, 2, 2, 16, 14, 0x80_AA_BB_CC);
    let modified = fb_simd.iter().any(|&p| p != 0xFF_11_22_33);
    assert!(modified, "alpha fill must change pixels");
}

#[test]
fn test_edge_cases() {
    let mut fb = vec![0u32; 100];
    fill_rect_simd(&mut fb, 10, 10, 5, 5, 0, 5, 0xFF_FF_00_00);
    fill_rect_simd(&mut fb, 10, 10, 5, 5, 5, 0, 0xFF_FF_00_00);
    fill_rect_simd(&mut fb, 10, 10, 0, 0, 1, 1, 0xFF_FF_00_00);
    assert_eq!(fb[0], 0xFF_FF_00_00);
}

#[test]
fn test_pattern() {
    let mut fb = vec![0xFF_00_00_00u32; 400];
    let pattern = vec![0xFF_FF_00_00u32, 0xFF_00_FF_00];
    fill_pattern_simd(&mut fb, 20, 20, 0, 0, 20, 20, &pattern, 2);
    assert_ne!(fb[0], 0xFF_00_00_00);
}

#[test]
fn test_warm_cache() {
    let mut fb = vec![0u32; 480000];
    fb[64] = 7;
    warm_cache(&mut fb, 480000);
    assert_eq!(fb[64], 7);
    assert_eq!(fb.len(), 480000);
}

#[test]
fn test_alpha_bench_equivalent() {
    let mut fb = vec![0xFF_44_44_44u32; 256];
    fill_rect_alpha_simd(&mut fb, 16, 16, 0, 0, 16, 16, 0xFF_FF_00_00);
    assert_eq!(fb[0], 0xFF_FF_00_00);
    assert_eq!(fb[255], 0xFF_FF_00_00);
}

#[test]
fn alpha_blend_exact_values() {
    assert_eq!(alpha_over_pixel(0xFF_00_00_00, 0x80_FF_00_00), 0xFF_80_00_00);
    assert_eq!(alpha_over_pixel(0xFF_11_22_33, 0x80_AA_BB_CC), 0xFF_5D_6E_7F);
    assert_eq!(alpha_over_pixel(0x00_00_00_00, 0x40_FF_FF_FF), 0x40_40_40_40);
}

#[test]
fn fill_clips_negative_corner() {
    let mut fb = vec![0u32; 16];
    fill_rect_clipped(&mut fb, 4, 4, -2, -1, 3, 3, 9);
    let painted: Vec<usize> = (0..16).filter(|&i| fb[i] == 9).collect();
    assert_eq!(painted, vec![0, 4]);
}

#[test]
fn pattern_repeats_from_the_corner() {
    let mut fb = vec![0u32; 16];
    let pattern = vec![1u32, 2, 3, 4, 5, 6];
    fill_pattern_simd(&mut fb, 4, 4, -1, 0, 5, 3, &pattern, 3);
    assert_eq!(&fb[0..4], &[2, 3, 1, 2]);
    assert_eq!(&fb[4..8], &[5, 6, 4, 5]);
    assert_eq!(&fb[8..12], &[2, 3, 1, 2]);
    assert_eq!(&fb[12..16], &[0, 0, 0, 0]);
}

#[test]
fn scaled_blit_nearest_neighbour() {
    let mut fb = vec![0u32; 16];
    let src = vec![10u32, 20, 30, 40];
    blit_scaled(&mut fb, 4, 4, 0, 0, 4, 4, &src, 2, 2);
    assert_eq!(fb, vec![10, 10, 20, 20, 10, 10, 20, 20, 30, 30, 40, 40, 30, 30, 40, 40]);
}

#[test]
fn scaled_blit_of_nothing_changes_nothing() {
    let mut fb = vec![5u32; 16];
    blit_scaled(&mut fb, 4, 4, 0, 0, 4, 4, &[], 0, 0);
    assert!(fb.iter().all(|&p| p == 5));
}
