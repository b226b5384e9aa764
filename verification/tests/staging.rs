use duplicate_video_search::local_preprocess::CopyPacer;
use duplicate_video_search::paths::Host;
use duplicate_video_search::ram_disk::{cache_path, parse_drive_letter};

#[test]
fn copy_pacer_waits_for_previous_copy_before_third_start() {
    let mut pacer = CopyPacer::new(3);

    let first = pacer.acquire().expect("first copy can start");
    pacer.release_next_if_ready(first);
    assert_eq!(pacer.available_starts_for_test(), 1);

    let second = pacer.acquire().expect("second copy can start");
    assert_eq!(pacer.available_starts_for_test(), 0);

    pacer.release_next_if_ready(second);
    assert_eq!(
        pacer.available_starts_for_test(),
        0,
        "third copy waits until the first copy is complete"
    );

    pacer.finish_copy(first);
    assert_eq!(
        pacer.available_starts_for_test(),
        1,
        "third copy can start after first copy is complete and second reached threshold"
    );

    let _third = pacer.acquire().expect("third copy can start");
    assert_eq!(pacer.available_starts_for_test(), 0);
}

#[test]
fn copy_pacer_stays_serial_when_max_active_is_one() {
    let mut pacer = CopyPacer::new(1);

    let first = pacer.acquire().expect("first copy can start");
    pacer.release_next_if_ready(first);
    assert_eq!(pacer.available_starts_for_test(), 0);

    pacer.finish_copy(first);
    assert_eq!(pacer.available_starts_for_test(), 1);
}

#[test]
fn copy_pacer_accepts_eight_as_upper_bound() {
    assert_eq!(CopyPacer::new(8).max_active, 8);
    assert_eq!(CopyPacer::new(9).max_active, 8);
}

#[test]
fn parses_drive_letter_from_cache_path() {
    assert_eq!(parse_drive_letter(r"z:\TEMP"), Some('Z'));
    assert_eq!(parse_drive_letter("z"), Some('Z'));
    assert_eq!(parse_drive_letter("not-a-drive"), None);
}

#[test]
fn cache_path_uses_requested_drive() {
    assert_eq!(cache_path(Host::Windows, 'Y'), r"Y:\TEMP");
}
