use restream::device::{
    framebuffer_offset, identify, parse_pid, resolve_profile, DeviceModel, PixelSource,
    ResolveError, DEFAULT_MEMORY_SKIP,
};
use restream::text::{bytes_equal, parse_number, trim_bounds};

const MAPS: &str = "00010000-00011000 r-xp 00000000 b3:03 123 /usr/bin/xochitl\n\
73f00000-74000000 rw-s 00000000 00:06 456 /dev/fb0\n\
74000000-75fa5000 rw-p 00000000 00:00 0 \n\
76000000-76001000 r--p 00000000 b3:03 789 /lib/libc.so\n";

#[test]
fn offset_is_address_after_framebuffer_mapping_plus_skip() {
    assert_eq!(
        framebuffer_offset(MAPS.as_bytes(), DEFAULT_MEMORY_SKIP),
        Ok(0x74000000 + 8)
    );
    assert_eq!(framebuffer_offset(MAPS.as_bytes(), 0), Ok(0x74000000));
}

#[test]
fn missing_framebuffer_mapping_is_reported() {
    let maps = "00010000-00011000 r-xp 00000000 b3:03 123 /usr/bin/xochitl\n";
    assert_eq!(
        framebuffer_offset(maps.as_bytes(), 8),
        Err(ResolveError::NoFramebufferMapping)
    );
    // the framebuffer mapping is the last line: nothing follows it
    let maps = "73f00000-74000000 rw-s 00000000 00:06 456 /dev/fb0\n";
    assert_eq!(
        framebuffer_offset(maps.as_bytes(), 8),
        Err(ResolveError::NoFramebufferMapping)
    );
    assert_eq!(framebuffer_offset(b"", 8), Err(ResolveError::NoFramebufferMapping));
}

#[test]
fn malformed_address_is_reported() {
    let maps = "1-2 /dev/fb0\nzz000000-75fa5000 rw-p\n";
    assert_eq!(framebuffer_offset(maps.as_bytes(), 8), Err(ResolveError::BadAddress));
    let maps = "1-2 /dev/fb0\n\nabc-def\n";
    assert_eq!(framebuffer_offset(maps.as_bytes(), 8), Err(ResolveError::BadAddress));
}

#[test]
fn address_without_dash_is_read_to_end_of_line() {
    let maps = "1-2 /dev/fb0\nABCdef\n";
    assert_eq!(framebuffer_offset(maps.as_bytes(), 1), Ok(0xabcdef + 1));
}

#[test]
fn offset_overflow_is_reported() {
    let maps = format!("1-2 /dev/fb0\n{:x}-0\n", usize::MAX);
    assert_eq!(framebuffer_offset(maps.as_bytes(), 1), Err(ResolveError::OffsetOverflow));
    assert_eq!(framebuffer_offset(maps.as_bytes(), 0), Ok(usize::MAX));
}

#[test]
fn pid_is_parsed_from_trimmed_output() {
    assert_eq!(parse_pid(b"1234\n"), Ok(1234));
    assert_eq!(parse_pid(b"  77 \t\n"), Ok(77));
    assert_eq!(parse_pid(b"\n"), Err(ResolveError::BadProcessId));
    assert_eq!(parse_pid(b"12 34\n"), Err(ResolveError::BadProcessId));
    assert_eq!(parse_pid(b"99999999999999999999999\n"), Err(ResolveError::BadProcessId));
}

#[test]
fn numbers_parse_in_both_bases() {
    assert_eq!(parse_number(b"x1f-", 1, 3, 16), Some(31));
    assert_eq!(parse_number(b"x1f-", 1, 3, 10), None);
    assert_eq!(parse_number(b"0042", 0, 4, 10), Some(42));
    assert_eq!(parse_number(b"", 0, 0, 10), None);
    assert_eq!(parse_number(b"18446744073709551615", 0, 20, 10), Some(u64::MAX as usize));
}

#[test]
fn trimming_and_comparing() {
    assert_eq!(trim_bounds(b"  ab c\n"), (2, 6));
    assert_eq!(trim_bounds(b" \n "), (3, 3));
    assert!(bytes_equal(b"abc", b"abc"));
    assert!(!bytes_equal(b"abc", b"abd"));
    assert!(!bytes_equal(b"abc", b"ab"));
}

#[test]
fn known_identities_are_recognised() {
    assert_eq!(identify(b"reMarkable 1.0\n"), Ok(DeviceModel::First));
    assert_eq!(identify(b"reMarkable Prototype 1\n"), Ok(DeviceModel::First));
    assert_eq!(identify(b"reMarkable 2.0\n"), Ok(DeviceModel::Second));
    assert_eq!(identify(b"reMarkable 3.0\n"), Err(ResolveError::UnsupportedDevice));
    assert_eq!(identify(b""), Err(ResolveError::UnsupportedDevice));
}

#[test]
fn profiles_follow_the_device() {
    let p = resolve_profile(b"reMarkable 1.0\n", false).unwrap();
    assert_eq!(p.source, PixelSource::Framebuffer);
    assert_eq!((p.width, p.height, p.bytes_per_pixel), (1408, 1872, 2));
    assert_eq!(p.source.path(), Some("/dev/fb0"));
    let p = resolve_profile(b"reMarkable 2.0\n", true).unwrap();
    assert_eq!(p.source, PixelSource::SharedMemory);
    assert_eq!((p.width, p.height, p.bytes_per_pixel), (1404, 1872, 2));
    assert_eq!(p.source.path(), Some("/dev/shm/swtfb.01"));
    let p = resolve_profile(b"reMarkable 2.0\n", false).unwrap();
    assert_eq!(p.source, PixelSource::ProcessMemory);
    assert_eq!((p.width, p.height, p.bytes_per_pixel), (1872, 1404, 1));
    assert_eq!(p.source.path(), None);
    assert_eq!(resolve_profile(b"Kindle", true), Err(ResolveError::UnsupportedDevice));
}
