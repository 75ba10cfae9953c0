//! Platform facts: the names and tuning constants that depend on the target
//! operating system and CPU architecture, and the unified key and button sets.

use vstd::prelude::*;

verus! {

/// Operating system the program runs on.
#[derive(Debug, Clone, Copy, PartialEq, Eq, Structural)]
pub enum TargetOs {
    Windows,
    MacOs,
    Linux,
    Android,
    Other,
}

/// CPU architecture the program runs on.
#[derive(Debug, Clone, Copy, PartialEq, Eq, Structural)]
pub enum TargetArch {
    X86_64,
    Aarch64,
    Arm,
    Wasm32,
    Other,
}

/// Unified keys of every platform backend.
#[derive(Debug, Clone, Copy, PartialEq, Eq, Hash, Structural)]
pub enum PlatformKey {
    A, B, C, D, E, F, G, H, I, J, K, L, M, N, O, P, Q, R, S, T, U, V, W, X, Y, Z,
    Key0, Key1, Key2, Key3, Key4, Key5, Key6, Key7, Key8, Key9,
    F1, F2, F3, F4, F5, F6, F7, F8, F9, F10, F11, F12,
    Up, Down, Left, Right,
    LShift, RShift, LCtrl, RCtrl, LAlt, RAlt,
    Escape, Enter, Space, Backspace, Tab, Delete, Home, End, PageUp, PageDown,
    Minus, Equals, BracketLeft, BracketRight,
    Back, Menu,
}

/// Mouse buttons.
#[derive(Debug, Clone, Copy, PartialEq, Eq, Structural)]
pub enum MouseButton {
    Left,
    Right,
    Middle,
}

/// Display name of an operating system.
pub fn platform_name(os: TargetOs) -> (r: &'static str)
    ensures
        r@ == match os {
            TargetOs::Windows => "Windows"@,
            TargetOs::MacOs => "macOS"@,
            TargetOs::Linux => "Linux"@,
            TargetOs::Android => "Android"@,
            TargetOs::Other => "Unknown"@,
        },
{
    match os {
        TargetOs::Windows => "Windows",
        TargetOs::MacOs => "macOS",
        TargetOs::Linux => "Linux",
        TargetOs::Android => "Android",
        TargetOs::Other => "Unknown",
    }
}

/// Display name of a CPU architecture.
pub fn arch_name(arch: TargetArch) -> (r: &'static str)
    ensures
        r@ == match arch {
            TargetArch::X86_64 => "x86_64"@,
            TargetArch::Aarch64 => "ARM64"@,
            TargetArch::Arm => "ARM32"@,
            TargetArch::Wasm32 => "WASM32"@,
            TargetArch::Other => "Unknown"@,
        },
{
    match arch {
        TargetArch::X86_64 => "x86_64",
        TargetArch::Aarch64 => "ARM64",
        TargetArch::Arm => "ARM32",
        TargetArch::Wasm32 => "WASM32",
        TargetArch::Other => "Unknown",
    }
}

/// Size in bytes of an L1 cache line: 128 on ARM64, 64 elsewhere.
pub fn cache_line_size(arch: TargetArch) -> (r: usize)
    ensures
        r == (if arch == TargetArch::Aarch64 { 128usize } else { 64usize }),
{
    match arch {
        TargetArch::Aarch64 => 128,
        _ => 64,
    }
}

/// SIMD is available on x86_64 and ARM64.
pub fn simd_available(arch: TargetArch) -> (r: bool)
    ensures
        r == (arch == TargetArch::X86_64 || arch == TargetArch::Aarch64),
{
    match arch {
        TargetArch::X86_64 => true,
        TargetArch::Aarch64 => true,
        _ => false,
    }
}

/// Stack size for worker threads: 512 KiB on Android, 8 MiB elsewhere.
pub fn recommended_stack_size(os: TargetOs) -> (r: usize)
    ensures
        r == (if os == TargetOs::Android { 524288usize } else { 8388608usize }),
{
    match os {
        TargetOs::Android => 524288,
        _ => 8388608,
    }
}

// ---------------------------------------------------------------------------
// Reading the text the system publishes about itself
// ---------------------------------------------------------------------------

/// Line feed.
pub const LINE_FEED: u8 = 10;

/// A line of `text` starts at byte `i` (the text's start or just after a
/// line feed) and begins with `prefix`.
pub open spec fn starts_line_with(text: Seq<u8>, i: int, prefix: Seq<u8>) -> bool {
    &&& 0 <= i
    &&& (i == 0 || text[i - 1] == LINE_FEED)
    &&& i + prefix.len() <= text.len()
    &&& text.subrange(i, i + prefix.len()) == prefix
}

/// Lines beginning with `prefix` among those that start before byte `n`.
pub open spec fn prefixed_lines(text: Seq<u8>, prefix: Seq<u8>, n: int) -> nat
    decreases n,
{
    if n <= 0 {
        0
    } else {
        prefixed_lines(text, prefix, n - 1) + (if starts_line_with(text, n - 1, prefix) { 1nat } else { 0nat })
    }
}

proof fn lemma_prefixed_lines_le(text: Seq<u8>, prefix: Seq<u8>, n: int)
    ensures
        prefixed_lines(text, prefix, n) <= (if n < 0 { 0 } else { n }),
    decreases n,
{
    if n > 0 {
        lemma_prefixed_lines_le(text, prefix, n - 1);
    }
}

/// `text` holds `prefix` from byte `i` on.
fn bytes_match_at(text: &[u8], i: usize, prefix: &[u8]) -> (r: bool)
    requires
        i <= text@.len(),
    ensures
        r == (i + prefix@.len() <= text@.len() && text@.subrange(i as int, i + prefix@.len()) == prefix@),
{
    if prefix.len() > text.len() - i {
        return false;
    }
    let mut j: usize = 0;
    while j < prefix.len()
        invariant
            text@.len() == text.len(),
            i + prefix@.len() <= text@.len(),
            j <= prefix@.len(),
            forall|k: int| 0 <= k < j ==> text@[i + k] == prefix@[k],
        decreases prefix@.len() - j,
    {
        assert(i + j < text@.len());
        if text[i + j] != prefix[j] {
            assert(text@.subrange(i as int, i + prefix@.len())[j as int] != prefix@[j as int]);
            return false;
        }
        j = j + 1;
    }
    assert(text@.subrange(i as int, i + prefix@.len()) =~= prefix@);
    true
}

/// Number of lines of `text` (split at line feeds) that begin with the
/// non-empty `prefix`, as `/proc/cpuinfo` is read for its `processor` lines.
pub fn count_prefixed_lines(text: &[u8], prefix: &[u8]) -> (r: usize)
    requires
        prefix@.len() > 0,
    ensures
        r == prefixed_lines(text@, prefix@, text@.len() as int),
{
    let mut count: usize = 0;
    let mut i: usize = 0;
    while i < text.len()
        invariant
            i <= text@.len(),
            count == prefixed_lines(text@, prefix@, i as int),
        decreases text@.len() - i,
    {
        proof {
            lemma_prefixed_lines_le(text@, prefix@, i as int);
        }
        let at_line_start = i == 0 || text[i - 1] == LINE_FEED;
        if at_line_start && bytes_match_at(text, i, prefix) {
            count = count + 1;
        }
        i = i + 1;
    }
    count
}

/// Processors to plan for: the `processor` lines counted in the system's
/// CPU description when there are any, else the parallelism the runtime
/// reports, else 4; never more than 32.
pub fn physical_core_count(processor_lines: usize, parallelism: Option<usize>) -> (r: usize)
    ensures
        r == (if processor_lines > 0 {
            if processor_lines < 32 { processor_lines } else { 32usize }
        } else {
            match parallelism {
                Some(n) => if n < 32 { n } else { 32usize },
                None => 4usize,
            }
        }),
{
    if processor_lines > 0 {
        if processor_lines < 32 { processor_lines } else { 32 }
    } else {
        match parallelism {
            Some(n) => if n < 32 { n } else { 32 },
            None => 4,
        }
    }
}

/// Decimal value of a string of digits.
pub open spec fn decimal_value(s: Seq<u8>) -> nat
    decreases s.len(),
{
    if s.len() == 0 {
        0
    } else {
        10 * decimal_value(s.drop_last()) + (s.last() - 48) as nat
    }
}

/// Every byte of `s` is an ASCII digit.
pub open spec fn all_digits(s: Seq<u8>) -> bool {
    forall|k: int| 0 <= k < s.len() ==> 48 <= #[trigger] s[k] <= 57
}

/// The digits of an unsigned number in text: after an optional `+`.
pub open spec fn unsigned_digits(s: Seq<u8>) -> Seq<u8> {
    if s.len() > 0 && s[0] == 43u8 { s.drop_first() } else { s }
}

/// What reading `s` as a `u32` gives: an optional `+`, then at least one
/// digit and nothing else, of a value below 2^32.
pub open spec fn parsed_u32(s: Seq<u8>) -> Option<u32> {
    let d = unsigned_digits(s);
    if d.len() > 0 && all_digits(d) && decimal_value(d) <= u32::MAX {
        Some(decimal_value(d) as u32)
    } else {
        None
    }
}

/// Reads a field such as the total memory of `/proc/meminfo` as a `u32`.
pub fn parse_u32_field(s: &[u8]) -> (r: Option<u32>)
    ensures
        r == parsed_u32(s@),
{
    let start: usize = if s.len() > 0 && s[0] == 43u8 { 1 } else { 0 };
    let ghost d = unsigned_digits(s@);
    assert(d =~= s@.subrange(start as int, s@.len() as int));
    if start >= s.len() {
        return None;
    }
    // The value read so far, held at 2^32 once it no longer fits.
    let mut acc: u64 = 0;
    let mut i: usize = start;
    while i < s.len()
        invariant
            start <= i <= s@.len(),
            d == unsigned_digits(s@),
            d =~= s@.subrange(start as int, s@.len() as int),
            all_digits(d.take(i - start)),
            acc == (if decimal_value(d.take(i - start)) < 4294967296 { decimal_value(d.take(i - start)) } else { 4294967296 }),
        decreases s@.len() - i,
    {
        let c = s[i];
        if c < 48 || c > 57 {
            assert(d[i - start] == c);
            return None;
        }
        let ghost prev = d.take(i - start);
        assert(d.take(i + 1 - start).drop_last() =~= prev);
        assert(d.take(i + 1 - start).last() == c);
        if acc == 4294967296 {
            acc = 4294967296;
        } else {
            let next = acc * 10 + (c - 48) as u64;
            acc = if next < 4294967296 { next } else { 4294967296 };
        }
        i = i + 1;
        assert forall|k: int| 0 <= k < d.take(i - start).len() implies 48 <= #[trigger] d.take(i - start)[k] <= 57 by {
            if k < i - 1 - start {
                assert(d.take(i - start)[k] == prev[k]);
            }
        }
    }
    assert(d.take(s@.len() - start) =~= d);
    if acc < 4294967296 {
        Some(acc as u32)
    } else {
        None
    }
}

/// ASCII lower case of a byte; other bytes unchanged.
pub open spec fn ascii_lower(c: u8) -> u8 {
    if 65 <= c <= 90 { (c + 32) as u8 } else { c }
}

/// `name`, lower-cased, holds `pat` from byte `i` on.
pub open spec fn lowered_match_at(name: Seq<u8>, i: int, pat: Seq<u8>) -> bool {
    &&& 0 <= i
    &&& i + pat.len() <= name.len()
    &&& forall|j: int| 0 <= j < pat.len() ==> ascii_lower(#[trigger] name[i + j]) == pat[j]
}

/// `name`, lower-cased, contains `pat`.
pub open spec fn contains_lowered(name: Seq<u8>, pat: Seq<u8>) -> bool {
    exists|i: int| lowered_match_at(name, i, pat)
}

fn lower_byte(c: u8) -> (r: u8)
    ensures
        r == ascii_lower(c),
{
    if 65 <= c && c <= 90 { c + 32 } else { c }
}

/// Whether `name`, lower-cased, contains `pat`.
fn contains_lowered_exec(name: &[u8], pat: &[u8]) -> (r: bool)
    requires
        pat@.len() > 0,
    ensures
        r == contains_lowered(name@, pat@),
{
    if pat.len() > name.len() {
        assert forall|i: int| !lowered_match_at(name@, i, pat@) by {}
        return false;
    }
    let last = name.len() - pat.len();
    let mut i: usize = 0;
    while i <= last
        invariant
            name@.len() == name.len(),
            last + pat@.len() == name@.len(),
            pat@.len() > 0,
            forall|k: int| 0 <= k < i ==> !lowered_match_at(name@, k, pat@),
        decreases last + 1 - i,
    {
        let mut j: usize = 0;
        let mut ok = true;
        while j < pat.len()
            invariant
                i <= last,
                name@.len() == name.len(),
                last + pat@.len() == name@.len(),
                pat@.len() > 0,
                j <= pat@.len(),
                ok ==> forall|k: int| 0 <= k < j ==> ascii_lower(#[trigger] name@[i + k]) == pat@[k],
                !ok ==> !lowered_match_at(name@, i as int, pat@),
            decreases pat@.len() - j,
        {
            if ok && lower_byte(name[i + j]) != pat[j] {
                ok = false;
            }
            j = j + 1;
        }
        if ok {
            assert(lowered_match_at(name@, i as int, pat@));
            return true;
        }
        i = i + 1;
    }
    assert forall|k: int| !lowered_match_at(name@, k, pat@) by {
        if 0 <= k && k + pat@.len() <= name@.len() {
            assert(k < i);
        }
    }
    false
}

/// "adreno 8"
pub open spec fn adreno_8() -> Seq<u8> { seq![97u8, 100, 114, 101, 110, 111, 32, 56] }
/// "adreno 7"
pub open spec fn adreno_7() -> Seq<u8> { seq![97u8, 100, 114, 101, 110, 111, 32, 55] }
/// "mali-g7"
pub open spec fn mali_g7() -> Seq<u8> { seq![109u8, 97, 108, 105, 45, 103, 55] }

/// A GPU model name of the current high end: one that, lower-cased, names
/// an Adreno 7xx or 8xx or a Mali-G7x. (Lower-casing only ASCII letters
/// finds the same names in any text: no other character lower-cases to one
/// that could complete these patterns.)
pub fn is_high_end_gpu_name(name: &[u8]) -> (r: bool)
    ensures
        r == (contains_lowered(name@, adreno_8()) || contains_lowered(name@, adreno_7())
            || contains_lowered(name@, mali_g7())),
{
    let a8: [u8; 8] = [97, 100, 114, 101, 110, 111, 32, 56];
    let a7: [u8; 8] = [97, 100, 114, 101, 110, 111, 32, 55];
    let m7: [u8; 7] = [109, 97, 108, 105, 45, 103, 55];
    assert(a8@ =~= adreno_8());
    assert(a7@ =~= adreno_7());
    assert(m7@ =~= mali_g7());
    contains_lowered_exec(name, a8.as_slice()) || contains_lowered_exec(name, a7.as_slice())
        || contains_lowered_exec(name, m7.as_slice())
}

} // verus!
