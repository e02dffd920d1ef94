use wpfxm::arch::{
    arch_for_new_prefix, arch_of_line, detect_arch, extract_from_reg_file, registry_files,
    ArchDetection, PrefixArch,
};
use wpfxm::error::PrefixError;

#[test]
fn win32_line_is_detected() {
    let text = b"WINE REGISTRY Version 2\n#arch=win32\n";
    assert_eq!(extract_from_reg_file(text), Some(PrefixArch::X86));
}

#[test]
fn win64_line_is_detected() {
    let text = b"WINE REGISTRY Version 2\n;; comment\n\n#arch=win64\n[Software]\n";
    assert_eq!(extract_from_reg_file(text), Some(PrefixArch::X86_64));
}

#[test]
fn first_matching_line_wins_within_a_file() {
    let text = b"#arch=win32\n#arch=win64\n";
    assert_eq!(extract_from_reg_file(text), Some(PrefixArch::X86));
    let text = b"#arch=win64\n#arch=win32\n";
    assert_eq!(extract_from_reg_file(text), Some(PrefixArch::X86_64));
}

#[test]
fn win32_before_any_win64_line_gives_32_bit() {
    let userdef: &[u8] = b"header\nnothing here\n";
    let user: &[u8] = b"a\nb\n#arch=win32\n";
    let system: &[u8] = b"#arch=win64\n";
    assert_eq!(
        detect_arch(Some(userdef), Some(user), Some(system)),
        Ok(PrefixArch::X86)
    );
}

#[test]
fn files_are_examined_in_their_fixed_order() {
    let win32: &[u8] = b"#arch=win32\n";
    let win64: &[u8] = b"#arch=win64\n";
    assert_eq!(detect_arch(Some(win64), Some(win32), Some(win32)), Ok(PrefixArch::X86_64));
    assert_eq!(detect_arch(None, Some(win64), Some(win32)), Ok(PrefixArch::X86_64));
    assert_eq!(detect_arch(None, None, Some(win32)), Ok(PrefixArch::X86));
}

#[test]
fn no_marker_fails_detection() {
    let text: &[u8] = b"WINE REGISTRY Version 2\n";
    assert_eq!(
        detect_arch(Some(text), None, Some(text)),
        Err(PrefixError::FailedToDetectArch)
    );
}

#[test]
fn no_readable_file_fails_detection() {
    assert_eq!(detect_arch(None, None, None), Err(PrefixError::FailedToDetectArch));
}

#[test]
fn empty_files_fail_detection() {
    let empty: &[u8] = b"";
    assert_eq!(
        detect_arch(Some(empty), Some(empty), Some(empty)),
        Err(PrefixError::FailedToDetectArch)
    );
}

#[test]
fn trailing_content_makes_a_line_a_non_match() {
    assert_eq!(arch_of_line(b"#arch=win32 "), None);
    assert_eq!(arch_of_line(b"#arch=win64x"), None);
    assert_eq!(arch_of_line(b"#arch=win3"), None);
    assert_eq!(arch_of_line(b"#arch="), None);
    assert_eq!(arch_of_line(b"#arch=win16"), None);
}

#[test]
fn scanning_continues_after_a_non_matching_marker_line() {
    let text = b"#arch=win32 trailing\n#arch=win64\n";
    assert_eq!(extract_from_reg_file(text), Some(PrefixArch::X86_64));
}

#[test]
fn text_before_the_marker_is_allowed() {
    assert_eq!(arch_of_line(b"some text #arch=win32"), Some(PrefixArch::X86));
    assert_eq!(arch_of_line(b"#arch=win64"), Some(PrefixArch::X86_64));
}

#[test]
fn only_the_first_marker_of_a_line_counts() {
    assert_eq!(arch_of_line(b"#arch=#arch=win32"), None);
    assert_eq!(arch_of_line(b"#arch=win32#arch=win64"), None);
}

#[test]
fn marker_is_case_sensitive() {
    assert_eq!(arch_of_line(b"#ARCH=win32"), None);
    assert_eq!(arch_of_line(b"#arch=WIN32"), None);
}

#[test]
fn carriage_return_before_line_feed_is_dropped() {
    let text = b"header\r\n#arch=win64\r\nrest\r\n";
    assert_eq!(extract_from_reg_file(text), Some(PrefixArch::X86_64));
}

#[test]
fn last_line_without_line_feed_counts() {
    assert_eq!(extract_from_reg_file(b"header\n#arch=win32"), Some(PrefixArch::X86));
}

#[test]
fn carriage_return_without_line_feed_stays_part_of_the_line() {
    assert_eq!(extract_from_reg_file(b"header\n#arch=win32\r"), None);
}

#[test]
fn line_that_is_not_utf8_is_passed_over() {
    let text = b"\xff#arch=win32\n#arch=win64\n";
    assert_eq!(extract_from_reg_file(text), Some(PrefixArch::X86_64));
    assert_eq!(arch_of_line(b"\xff#arch=win32"), None);
    assert_eq!(arch_of_line(b"\xc3\xa9 #arch=win32"), Some(PrefixArch::X86));
}

#[test]
fn registry_files_are_named_in_order() {
    assert_eq!(registry_files(), ["userdef.reg", "user.reg", "system.reg"]);
}

#[test]
fn driven_detection_asks_for_each_file_until_one_matches() {
    let mut detection = ArchDetection::new();
    assert_eq!(detection.next_file(), Some("userdef.reg"));
    detection.feed(None);
    assert_eq!(detection.next_file(), Some("user.reg"));
    detection.feed(Some(&b"#arch=win32\n"[..]));
    assert_eq!(detection.next_file(), None);
    detection.feed(Some(&b"#arch=win64\n"[..]));
    assert_eq!(detection.result(), Ok(PrefixArch::X86));
}

#[test]
fn driven_detection_fails_after_three_files_without_marker() {
    let mut detection = ArchDetection::new();
    detection.feed(Some(&b"a\n"[..]));
    detection.feed(Some(&b"b\n"[..]));
    assert_eq!(detection.next_file(), Some("system.reg"));
    detection.feed(None);
    assert_eq!(detection.next_file(), None);
    assert_eq!(detection.result(), Err(PrefixError::FailedToDetectArch));
    detection.feed(Some(&b"#arch=win64\n"[..]));
    assert_eq!(detection.result(), Err(PrefixError::FailedToDetectArch));
}

#[test]
fn architecture_words() {
    assert_eq!(PrefixArch::X86.wine_name(), "win32");
    assert_eq!(PrefixArch::X86_64.wine_name(), "win64");
    assert_eq!(PrefixArch::parse("win32"), Some(PrefixArch::X86));
    assert_eq!(PrefixArch::parse("win64"), Some(PrefixArch::X86_64));
    assert_eq!(PrefixArch::parse("x86"), None);
    assert_eq!(PrefixArch::parse(""), None);
    assert_eq!(PrefixArch::default(), PrefixArch::X86_64);
}

#[test]
fn new_prefix_is_64_bit_unless_told_otherwise() {
    assert_eq!(arch_for_new_prefix(None), PrefixArch::X86_64);
    assert_eq!(arch_for_new_prefix(Some("win32")), PrefixArch::X86);
    assert_eq!(arch_for_new_prefix(Some("win64")), PrefixArch::X86_64);
    assert_eq!(arch_for_new_prefix(Some("arm")), PrefixArch::X86_64);
}
