use citybound::platform::{TargetOs, TargetArch, platform_name, arch_name, cache_line_size, simd_available, recommended_stack_size,
    count_prefixed_lines, physical_core_count, parse_u32_field, is_high_end_gpu_name};

#[test]
fn platform_facts() {
    assert_eq!(platform_name(TargetOs::MacOs), "macOS");
    assert_eq!(arch_name(TargetArch::Aarch64), "ARM64");
    assert_eq!(cache_line_size(TargetArch::Aarch64), 128);
    assert_eq!(cache_line_size(TargetArch::X86_64), 64);
    assert!(simd_available(TargetArch::X86_64));
    assert!(!simd_available(TargetArch::Wasm32));
    assert_eq!(recommended_stack_size(TargetOs::Android), 512 * 1024);
    assert_eq!(recommended_stack_size(TargetOs::Linux), 8 * 1024 * 1024);
}

#[test]
fn cpuinfo_processor_lines_are_counted() {
    let text = b"processor\t: 0\nmodel name\t: x\nprocessor\t: 1\n\nprocessor\t: 2";
    assert_eq!(count_prefixed_lines(text, b"processor"), 3);
    assert_eq!(count_prefixed_lines(b"  processor: 0\nxprocessor", b"processor"), 0);
    assert_eq!(count_prefixed_lines(b"", b"processor"), 0);
}

#[test]
fn core_count_prefers_cpuinfo_and_caps_at_32() {
    assert_eq!(physical_core_count(8, Some(16)), 8);
    assert_eq!(physical_core_count(64, None), 32);
    assert_eq!(physical_core_count(0, Some(12)), 12);
    assert_eq!(physical_core_count(0, Some(100)), 32);
    assert_eq!(physical_core_count(0, None), 4);
}

#[test]
fn memory_fields_parse_as_u32() {
    assert_eq!(parse_u32_field(b"7868332"), Some(7868332));
    assert_eq!(parse_u32_field(b"+42"), Some(42));
    assert_eq!(parse_u32_field(b"4294967295"), Some(u32::MAX));
    assert_eq!(parse_u32_field(b"4294967296"), None);
    assert_eq!(parse_u32_field(b""), None);
    assert_eq!(parse_u32_field(b"+"), None);
    assert_eq!(parse_u32_field(b"-1"), None);
    assert_eq!(parse_u32_field(b"12kB"), None);
    for s in ["0", "+7", "99999999999", "12a", "", "+", "-0", "00042"] {
        assert_eq!(parse_u32_field(s.as_bytes()), s.parse::<u32>().ok());
    }
}

#[test]
fn high_end_gpu_names_are_recognised() {
    assert!(is_high_end_gpu_name(b"Adreno 740"));
    assert!(is_high_end_gpu_name(b"ADRENO 830v2"));
    assert!(is_high_end_gpu_name(b"Mali-G78 MP20"));
    assert!(!is_high_end_gpu_name(b"Adreno 650"));
    assert!(!is_high_end_gpu_name(b"Mali-G57"));
    assert!(!is_high_end_gpu_name(b""));
}
