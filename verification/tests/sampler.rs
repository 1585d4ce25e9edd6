use love_api::sampler::{bucket_of, choose_thread, executable_range, parse_hex_usize, MapsError, ThreadChoice, BUCKETS};

#[test]
fn only_the_selected_thread_is_profiled() {
    assert_eq!(choose_thread(None, "raster"), ThreadChoice::This);
    assert_eq!(choose_thread(None, "main"), ThreadChoice::Other);
    assert_eq!(choose_thread(Some("main"), "main"), ThreadChoice::This);
    assert_eq!(choose_thread(Some("main"), "raster"), ThreadChoice::Other);
    assert_eq!(choose_thread(Some("audio"), "raster"), ThreadChoice::Invalid);
}

const MAPS: &str = "00400000-00452000 r--p 00000000 08:02 173521 /usr/bin/balatro\n\
00452000-00500000 r-xp 00052000 08:02 173521 /usr/bin/balatro\n\
7f000000-7f100000 r-xp 00000000 08:02 1 /lib/libc.so\n";

#[test]
fn the_code_mapping_of_the_program_is_found() {
    assert_eq!(executable_range(MAPS.as_bytes(), b"/usr/bin/balatro"), Ok((0x452000, 0x500000)));
    assert_eq!(executable_range(MAPS.as_bytes(), b"/usr/bin/other"), Err(MapsError::NotFound));
    assert_eq!(
        executable_range(b"00400000 r-xp /bin/x\n", b"/bin/x"),
        Err(MapsError::InvalidRange)
    );
    assert_eq!(
        executable_range(b"0040zz00-00500000 r-xp /bin/x\n", b"/bin/x"),
        Err(MapsError::InvalidAddress)
    );
    assert_eq!(
        executable_range(b"00000000-10000000 r-xp /bin/x\n", b"/bin/x"),
        Err(MapsError::TooLarge)
    );
}

#[test]
fn hexadecimal_addresses_read_as_rust_does() {
    for text in ["0", "ff", "+1A", "DEADbeef", "", "+", "-1", "g", "ffffffffffffffffff"] {
        assert_eq!(parse_hex_usize(text.as_bytes()), usize::from_str_radix(text, 16).ok(), "{text:?}");
    }
}

#[test]
fn samples_fall_into_32_byte_buckets() {
    assert_eq!(bucket_of(0x1000, 0x1000), Some(0));
    assert_eq!(bucket_of(0x1020, 0x1000), Some(1));
    assert_eq!(bucket_of(0x103f, 0x1000), Some(1));
    assert_eq!(bucket_of(0x0fff, 0x1000), None);
    assert_eq!(bucket_of(0x1000 + BUCKETS * 32, 0x1000), None);
}
