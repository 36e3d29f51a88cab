use degen_music_library::app::CredentialForm;
use degen_music_library::storage::{Entry, EntryKind};
use degen_music_library::ui::{
    activity, browser_status_is_error, credential_text, credentials_status_tone, entry_line,
    format_duration, format_seconds, human_size, idle_line, list_title, location, playback_side,
    progress_label, Tone,
};
use std::time::Duration;

/// The size text as the terminal view computed it with floating point.
fn float_size(bytes: i64) -> String {
    let bytes = bytes.max(0) as f64;
    const UNITS: [&str; 4] = ["B", "KiB", "MiB", "GiB"];
    let mut size = bytes;
    let mut unit = 0;
    while size >= 1024.0 && unit < UNITS.len() - 1 {
        size /= 1024.0;
        unit += 1;
    }
    if unit == 0 {
        format!("{} {}", size as u64, UNITS[unit])
    } else {
        format!("{size:.1} {}", UNITS[unit])
    }
}

#[test]
fn sizes_and_durations_are_human_readable() {
    assert_eq!(human_size(512), "512 B");
    assert_eq!(human_size(1_572_864), "1.5 MiB");
    assert_eq!(format_duration(std::time::Duration::from_secs(125)), "2:05");
}

#[test]
fn sizes_agree_with_floating_point_formatting() {
    let samples: [i64; 20] = [
        -5,
        0,
        1,
        1023,
        1024,
        1280,
        1331,
        1_048_575,
        1_048_576,
        5_000_000,
        1_073_741_823,
        1_073_741_824,
        1_181_116_006,
        999_999_999_999,
        (1 << 53) + 1,
        (1 << 53) + 3,
        (1 << 60) + 12_345,
        i64::MAX,
        3 * 1024 * 1024 + 512 * 1024 + 51,
        1024 * 1024 * 1024 * 1024,
    ];
    for bytes in samples {
        assert_eq!(human_size(bytes), float_size(bytes), "for {bytes}");
    }
    for bytes in (0..5_000_000).step_by(997) {
        assert_eq!(human_size(bytes), float_size(bytes), "for {bytes}");
    }
}

#[test]
fn clock_text_pads_seconds() {
    assert_eq!(format_seconds(0), "0:00");
    assert_eq!(format_seconds(59), "0:59");
    assert_eq!(format_seconds(3_600), "60:00");
    assert_eq!(format_duration(Duration::from_millis(61_999)), "1:01");
}

#[test]
fn secret_field_is_masked() {
    let mut form = CredentialForm::default();
    form.secret_key = "héllo".to_owned();
    form.selected = 4;
    assert_eq!(credential_text(&form, 4, false), "*****_");
    assert_eq!(credential_text(&form, 4, true), "*****");
    assert_eq!(credential_text(&form, 1, false), "auto");
}

#[test]
fn status_tones() {
    assert_eq!(credentials_status_tone("Connection failed: x", false), Tone::Error);
    assert_eq!(credentials_status_tone("Connecting...", true), Tone::Busy);
    assert_eq!(credentials_status_tone("Enter", false), Tone::Normal);
    assert!(browser_status_is_error("Could not play x"));
    assert!(browser_status_is_error("Connection failed"));
    assert!(!browser_status_is_error("Playing x"));
}

#[test]
fn browser_lines() {
    assert_eq!(location("music", ""), "s3://music/");
    assert_eq!(location("music", "a/b/"), "s3://music/a/b/");
    let folder = Entry { kind: EntryKind::Folder, key: "a/".to_owned(), name: "a".to_owned(), size: 0 };
    assert_eq!(entry_line(&folder, false), "  [DIR] a/");
    let track = Entry { kind: EntryKind::Track, key: "t.mp3".to_owned(), name: "t.mp3".to_owned(), size: 2048 };
    assert_eq!(entry_line(&track, true), format!("> [AUDIO] {:<48} {:>9}", "t.mp3", "2.0 KiB"));
    assert_eq!(list_title(true), "Bucket Browser - loading...");
}

#[test]
fn playback_panel_texts() {
    assert_eq!(activity(true, false, false, 0), "LOADING");
    assert_eq!(activity(false, true, true, 0), "FINISHED");
    assert_eq!(activity(false, false, true, 0), "PAUSED");
    assert_eq!(activity(false, false, false, 2), "[ === ]");
    assert_eq!(progress_label("song", 61, Some(346)), "song  1:01 / 5:46");
    assert_eq!(progress_label("song", 5, None), "song  0:05");
    assert_eq!(playback_side("PAUSED", 80), "PAUSED\nVol 80%");
    assert_eq!(
        idle_line(80),
        format!("Nothing playing{}Volume 80%", " ".repeat(38))
    );
}
