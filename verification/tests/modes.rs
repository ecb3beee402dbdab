use libbuf::mode::{mode_risky, ImageCaps, Mode, ModeError};

fn caps(dd: bool, iso: bool, udf: bool) -> ImageCaps {
    ImageCaps { dd_bootable: dd, is_iso: iso, is_udf: udf }
}

#[test]
fn auto_prefers_copy_when_extractable() {
    assert_eq!(libbuf::mode::auto(caps(true, true, false)).unwrap(), Mode::Copy); // hybrid
    assert_eq!(libbuf::mode::auto(caps(false, true, false)).unwrap(), Mode::Copy);
    assert_eq!(libbuf::mode::auto(caps(false, false, true)).unwrap(), Mode::Copy); // UDF-only
}

#[test]
fn auto_dd_for_raw_images() {
    assert_eq!(libbuf::mode::auto(caps(true, false, false)).unwrap(), Mode::Dd);
}

#[test]
fn auto_errors_when_neither() {
    assert!(libbuf::mode::auto(caps(false, false, false)).is_err());
}

#[test]
fn auto_error_says_what_is_missing() {
    let e = libbuf::mode::auto(caps(false, false, false)).unwrap_err();
    assert!(matches!(e, ModeError::CannotPick));
    assert_eq!(
        e.message(),
        "Fatal: Source is neither an extractable ISO9660/UDF image nor a bootable disk \
         image (no 0x55AA marker); cannot auto-pick a mode. Use --mode to force one."
    );
}

#[test]
fn risky_only_when_single_capability_mismatched() {
    assert!(mode_risky(Mode::Copy, caps(true, false, false)));
    assert!(mode_risky(Mode::Dd, caps(false, true, false)));
    assert!(!mode_risky(Mode::Dd, caps(true, true, false))); // hybrid, never risky
    assert!(!mode_risky(Mode::Copy, caps(true, true, false)));
}

#[test]
fn picked_modes_are_never_risky() {
    for dd in [false, true] {
        for iso in [false, true] {
            for udf in [false, true] {
                let c = caps(dd, iso, udf);
                if let Ok(m) = libbuf::mode::auto(c) {
                    assert!(!mode_risky(m, c));
                }
                assert_eq!(c.copy_capable(), iso || udf);
            }
        }
    }
}

#[test]
fn mode_parsing_roundtrip() {
    assert_eq!("DD".parse::<Mode>().unwrap(), Mode::Dd);
    assert_eq!(" copy ".parse::<Mode>().unwrap(), Mode::Copy);
    assert!("burn".parse::<Mode>().is_err());
    assert_eq!(Mode::Dd.to_string(), "dd");
    assert_eq!(Mode::Copy.to_string(), "copy");
}

#[test]
fn unknown_modes_are_named_in_the_error() {
    let e = Mode::parse("  BURN\n").unwrap_err();
    assert_eq!(e.message(), "unknown mode 'burn', expected 'dd' or 'copy'");
}

fn image(len: usize, marks: &[(usize, &[u8])]) -> Vec<u8> {
    let mut v = vec![0u8; len];
    for (at, b) in marks {
        v[*at..*at + b.len()].copy_from_slice(b);
    }
    v
}

#[test]
fn sniffing_an_image() {
    let c = ImageCaps::sniff(&image(512, &[(510, &[0x55, 0xAA])]));
    assert_eq!(c, caps(true, false, false));
    let c = ImageCaps::sniff(&image(511, &[(510, &[0x55])]));
    assert_eq!(c, caps(false, false, false));
    let c = ImageCaps::sniff(&image(98_304, &[(0x8001, b"CD001")]));
    assert_eq!(c, caps(false, true, false));
    assert_eq!(ImageCaps::sniff(&[]), caps(false, false, false));
}

#[test]
fn udf_is_found_behind_legal_descriptors_only() {
    let s = |n: usize| n * 2048 + 1;
    let c = ImageCaps::sniff(&image(98_304, &[(s(16), b"BEA01"), (s(17), b"NSR02")]));
    assert_eq!(c, caps(false, false, true));
    let c = ImageCaps::sniff(&image(
        98_304,
        &[(s(16), b"CD001"), (s(17), b"CDW02"), (s(18), b"BOOT2"), (s(19), b"TEA01"), (s(20), b"NSR03")],
    ));
    assert_eq!(c, caps(false, true, true));
    // a gap ends the search
    let c = ImageCaps::sniff(&image(98_304, &[(s(16), b"BEA01"), (s(18), b"NSR02")]));
    assert_eq!(c, caps(false, false, false));
    // the descriptor has to be there as a whole
    let c = ImageCaps::sniff(&image(16 * 2048 + 6, &[(s(16), b"NSR02")]));
    assert!(c.is_udf);
    let c = ImageCaps::sniff(&image(16 * 2048 + 5, &[(s(16), b"NSR0")]));
    assert!(!c.is_udf);
}

#[test]
fn udf_is_looked_for_up_to_sector_47() {
    let fill = |last: usize| {
        let mut v = vec![0u8; 50 * 2048];
        for n in 16..last {
            v[n * 2048 + 1..n * 2048 + 6].copy_from_slice(b"BEA01");
        }
        v[last * 2048 + 1..last * 2048 + 6].copy_from_slice(b"NSR03");
        v
    };
    assert!(ImageCaps::sniff(&fill(47)).is_udf);
    assert!(!ImageCaps::sniff(&fill(48)).is_udf);
}
