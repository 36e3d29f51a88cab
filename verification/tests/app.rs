use degen_music_library::app::{
    completion_action, listing_status, parent_prefix, App, CompletionAction, CredentialField,
    CredentialForm, Effect, Event, KeyCode, KeyEvent, KeyModifiers, PlayerStatus, RepeatMode,
    Screen,
};
use degen_music_library::storage::{Entry, EntryKind};

fn entry(kind: EntryKind, key: &str, name: &str) -> Entry {
    Entry { kind, key: key.to_owned(), name: name.to_owned(), size: 1 }
}

fn key(code: KeyCode) -> KeyEvent {
    KeyEvent { code, modifiers: KeyModifiers { control: false, shift: false, other: false } }
}

fn ctrl(code: KeyCode) -> KeyEvent {
    KeyEvent { code, modifiers: KeyModifiers { control: true, shift: false, other: false } }
}

const NO_PLAYER: PlayerStatus = PlayerStatus { open: false, paused: false, finished: false };

fn folder_app() -> App {
    App {
        screen: Screen::Browser,
        entries: vec![
            entry(EntryKind::Track, "one.mp3", "one.mp3"),
            entry(EntryKind::Folder, "folder/", "folder"),
            entry(EntryKind::Track, "two.mp3", "two.mp3"),
            entry(EntryKind::Track, "three.mp3", "three.mp3"),
        ],
        ..App::default()
    }
}

#[test]
fn parent_navigation_preserves_directory_separator() {
    assert_eq!(parent_prefix("Artists/Album/"), "Artists/");
    assert_eq!(parent_prefix("Artists/"), "");
    assert_eq!(parent_prefix(""), "");
}

#[test]
fn loop_once_replays_then_returns_to_normal_advancement() {
    let mut mode = RepeatMode::Once;
    assert_eq!(completion_action(&mut mode), CompletionAction::Replay);
    assert_eq!(mode, RepeatMode::Off);
    assert_eq!(completion_action(&mut mode), CompletionAction::Advance);
}

#[test]
fn loop_forever_keeps_replaying() {
    let mut mode = RepeatMode::Forever;
    assert_eq!(completion_action(&mut mode), CompletionAction::Replay);
    assert_eq!(mode, RepeatMode::Forever);
    assert_eq!(completion_action(&mut mode), CompletionAction::Replay);
}

#[test]
fn rapid_navigation_advances_from_the_pending_target() {
    let app = App {
        entries: vec![
            Entry {
                kind: EntryKind::Track,
                key: "one.mp3".to_owned(),
                name: "one.mp3".to_owned(),
                size: 1,
            },
            Entry {
                kind: EntryKind::Folder,
                key: "folder/".to_owned(),
                name: "folder".to_owned(),
                size: 0,
            },
            Entry {
                kind: EntryKind::Track,
                key: "two.mp3".to_owned(),
                name: "two.mp3".to_owned(),
                size: 1,
            },
            Entry {
                kind: EntryKind::Track,
                key: "three.mp3".to_owned(),
                name: "three.mp3".to_owned(),
                size: 1,
            },
        ],
        pending_track: Some(2),
        ..App::default()
    };

    assert_eq!(app.adjacent_track(true), Some(3));
    assert_eq!(app.adjacent_track(false), Some(0));
}

#[test]
fn parent_of_nested_prefix_keeps_grandparent() {
    assert_eq!(parent_prefix("a/b/c/"), "a/b/");
    assert_eq!(parent_prefix("a//"), "");
    assert_eq!(parent_prefix("a/b"), "a/");
}

#[test]
fn parent_of_a_subfolder_is_the_folder() {
    let folder = "Artists/";
    let child = format!("{folder}Album/");
    assert_eq!(parent_prefix(&child), folder);
}

#[test]
fn repeat_mode_labels_and_cycle() {
    assert_eq!(RepeatMode::Off.label(), "Off");
    assert_eq!(RepeatMode::Once.label(), "Once");
    assert_eq!(RepeatMode::Forever.label(), "Forever");
    let mut mode = RepeatMode::Off;
    for _ in 0..3 {
        mode = mode.cycle();
    }
    assert_eq!(mode, RepeatMode::Off);
    assert_eq!(RepeatMode::Off.cycle(), RepeatMode::Once);
    assert_eq!(RepeatMode::Once.cycle(), RepeatMode::Forever);
}

#[test]
fn loop_off_advances() {
    let mut mode = RepeatMode::Off;
    assert_eq!(completion_action(&mut mode), CompletionAction::Advance);
    assert_eq!(mode, RepeatMode::Off);
}

#[test]
fn credential_labels_and_default_form() {
    assert_eq!(CredentialField::Endpoint.label(), "S3 endpoint");
    assert_eq!(CredentialField::SecretKey.label(), "Secret access key");
    assert_eq!(CredentialField::ALL.len(), 5);
    let form = CredentialForm::default();
    assert_eq!(form.value(CredentialField::Region), "auto");
    assert_eq!(form.value(CredentialField::Bucket), "");
    assert_eq!(form.selected, 0);
}

#[test]
fn listing_status_counts_items() {
    assert_eq!(listing_status(0), "This folder has no supported audio files or subfolders.");
    assert_eq!(listing_status(1), "Loaded 1 item.");
    assert_eq!(listing_status(1234), "Loaded 1234 items.");
}

#[test]
fn typing_edits_the_focused_field() {
    let mut app = App::default();
    let mut effects = Vec::new();
    for ch in "ab".chars() {
        assert!(!app.handle_event(Event::Key(key(KeyCode::Char(ch))), NO_PLAYER, &mut effects));
    }
    assert_eq!(app.credentials.endpoint, "ab");
    app.handle_event(Event::Key(key(KeyCode::Backspace)), NO_PLAYER, &mut effects);
    assert_eq!(app.credentials.endpoint, "a");
    app.handle_event(Event::Key(key(KeyCode::Tab)), NO_PLAYER, &mut effects);
    assert_eq!(app.credentials.selected, 1);
    app.handle_event(Event::Key(ctrl(KeyCode::Char('u'))), NO_PLAYER, &mut effects);
    assert_eq!(app.credentials.region, "");
    app.handle_event(Event::Key(key(KeyCode::BackTab)), NO_PLAYER, &mut effects);
    app.handle_event(Event::Key(key(KeyCode::Up)), NO_PLAYER, &mut effects);
    assert_eq!(app.credentials.selected, 4);
    assert!(effects.is_empty());
}

#[test]
fn control_c_quits_on_both_screens() {
    let mut app = App::default();
    let mut effects = Vec::new();
    assert!(app.handle_event(Event::Key(ctrl(KeyCode::Char('c'))), NO_PLAYER, &mut effects));
    let mut browser = folder_app();
    assert!(browser.handle_event(Event::Key(ctrl(KeyCode::Char('c'))), NO_PLAYER, &mut effects));
    assert!(browser.handle_event(Event::Key(key(KeyCode::Char('q'))), NO_PLAYER, &mut effects));
    assert!(effects.is_empty());
}

#[test]
fn enter_asks_for_a_connection_once() {
    let mut app = App::default();
    let mut effects = Vec::new();
    app.handle_event(Event::Key(key(KeyCode::Enter)), NO_PLAYER, &mut effects);
    app.handle_event(Event::Key(key(KeyCode::Enter)), NO_PLAYER, &mut effects);
    assert!(app.busy);
    assert_eq!(app.generation, 1);
    assert_eq!(app.status, "Connecting and reading the bucket root...");
    assert_eq!(effects.len(), 1);
    match &effects[0] {
        Effect::Connect { generation, details } => {
            assert_eq!(*generation, 1);
            assert_eq!(details.region, "auto");
        }
        _ => panic!("expected a connection request"),
    }
}

#[test]
fn failed_connection_reports_and_frees() {
    let mut app = App::default();
    let mut effects = Vec::new();
    app.handle_event(Event::Key(key(KeyCode::Enter)), NO_PLAYER, &mut effects);
    let quit = app.handle_event(
        Event::Connected { generation: 1, result: Err("Connection failed: nope".to_owned()) },
        NO_PLAYER,
        &mut effects,
    );
    assert!(!quit);
    assert!(!app.busy);
    assert_eq!(app.status, "Connection failed: nope");
    assert_eq!(app.screen, Screen::Credentials);
}

#[test]
fn stale_listing_is_ignored() {
    let mut app = folder_app();
    app.generation = 7;
    let mut effects = Vec::new();
    app.handle_event(
        Event::Listed { generation: 6, prefix: "x/".to_owned(), result: Ok(Vec::new()) },
        NO_PLAYER,
        &mut effects,
    );
    assert_eq!(app.entries.len(), 4);
    assert_eq!(app.prefix, "");
    assert!(effects.is_empty());
    app.handle_event(
        Event::Listed { generation: 7, prefix: "x/".to_owned(), result: Ok(Vec::new()) },
        NO_PLAYER,
        &mut effects,
    );
    assert_eq!(app.entries.len(), 0);
    assert_eq!(app.prefix, "x/");
    assert_eq!(app.status, "This folder has no supported audio files or subfolders.");
}

#[test]
fn selection_moves_within_bounds() {
    let mut app = folder_app();
    let mut effects = Vec::new();
    app.handle_event(Event::Key(key(KeyCode::Up)), NO_PLAYER, &mut effects);
    assert_eq!(app.selected, 0);
    app.handle_event(Event::Key(key(KeyCode::PageDown)), NO_PLAYER, &mut effects);
    assert_eq!(app.selected, 3);
    app.handle_event(Event::Key(key(KeyCode::Char('k'))), NO_PLAYER, &mut effects);
    assert_eq!(app.selected, 2);
    app.handle_event(Event::Key(key(KeyCode::Home)), NO_PLAYER, &mut effects);
    assert_eq!(app.selected, 0);
    app.handle_event(Event::Key(key(KeyCode::End)), NO_PLAYER, &mut effects);
    assert_eq!(app.selected, 3);
    app.change_selection(isize::MIN);
    assert_eq!(app.selected, 0);
    app.change_selection(isize::MAX);
    assert_eq!(app.selected, 3);
}

#[test]
fn volume_stays_between_zero_and_one_hundred() {
    let mut app = folder_app();
    let mut effects = Vec::new();
    for _ in 0..10 {
        app.handle_event(Event::Key(key(KeyCode::Char('+'))), NO_PLAYER, &mut effects);
    }
    assert_eq!(app.volume, 100);
    assert_eq!(app.status, "Volume 100%");
    app.change_volume(-300, &mut effects);
    assert_eq!(app.volume, 0);
    assert_eq!(app.status, "Volume 0%");
    assert!(matches!(effects.last(), Some(Effect::SetVolume(0))));
}

#[test]
fn loop_mode_and_visualizer_keys() {
    let mut app = folder_app();
    let mut effects = Vec::new();
    app.handle_event(Event::Key(key(KeyCode::Char('o'))), NO_PLAYER, &mut effects);
    assert_eq!(app.repeat_mode, RepeatMode::Once);
    assert_eq!(app.status, "Loop mode: replay the current track once.");
    app.handle_event(Event::Key(key(KeyCode::Char('V'))), NO_PLAYER, &mut effects);
    assert!(app.show_visualizer);
    assert_eq!(app.status, "FFT visualizer enabled. Press V to return to the library.");
}

fn connected_app() -> App {
    let mut app = App::default();
    let mut effects = Vec::new();
    app.credentials.endpoint = "http://127.0.0.1:9000".to_owned();
    app.credentials.bucket = "music".to_owned();
    app.credentials.access_key = "key".to_owned();
    app.credentials.secret_key = "secret".to_owned();
    let details = app.credentials.details();
    let storage = match degen_music_library::storage::Storage::connect(&details) {
        Ok(storage) => storage,
        Err(error) => panic!("{}", error.message()),
    };
    app.handle_event(Event::Key(key(KeyCode::Enter)), NO_PLAYER, &mut effects);
    let entries = folder_app().entries;
    app.handle_event(
        Event::Connected { generation: app.generation, result: Ok((storage, entries)) },
        NO_PLAYER,
        &mut effects,
    );
    app
}

#[test]
fn connection_opens_the_browser_and_clears_secrets() {
    let app = connected_app();
    assert_eq!(app.screen, Screen::Browser);
    assert_eq!(app.credentials.access_key, "");
    assert_eq!(app.credentials.secret_key, "");
    assert_eq!(app.credentials.bucket, "music");
    assert_eq!(app.bucket(), "music");
    assert_eq!(app.status, "Loaded 4 items.");
    assert!(!app.busy);
}

#[test]
fn playing_a_track_downloads_it_and_next_moves_on() {
    let mut app = connected_app();
    let mut effects = Vec::new();
    app.handle_event(Event::Key(key(KeyCode::Enter)), NO_PLAYER, &mut effects);
    assert_eq!(app.pending_track, Some(0));
    assert!(app.track_task);
    assert_eq!(app.status, "Loading one.mp3...");
    assert!(matches!(effects.as_slice(), [Effect::StopPlayer, Effect::ClearSpectrum, Effect::Download { index: 0, .. }]));
    effects.clear();
    app.handle_event(Event::Key(key(KeyCode::Char('n'))), NO_PLAYER, &mut effects);
    assert_eq!(app.selected, 2);
    assert_eq!(app.pending_track, Some(2));
    assert!(matches!(effects.first(), Some(Effect::AbortTrackTask)));
    match effects.last() {
        Some(Effect::Download { index, key, name, .. }) => {
            assert_eq!(*index, 2);
            assert_eq!(key, "two.mp3");
            assert_eq!(name, "two.mp3");
        }
        _ => panic!("expected a download"),
    }
    effects.clear();
    let generation = app.generation;
    app.handle_event(
        Event::TrackReady {
            generation,
            index: 2,
            key: "two.mp3".to_owned(),
            name: "two.mp3".to_owned(),
            result: Ok(None),
            output: Ok(()),
        },
        NO_PLAYER,
        &mut effects,
    );
    assert!(matches!(effects.as_slice(), [Effect::Play]));
    assert_eq!(app.status, "Playing two.mp3");
    assert_eq!(app.now_playing.as_ref().map(|track| track.key.as_str()), Some("two.mp3"));
    assert!(!app.finished_handled);
}

#[test]
fn finished_track_advances_once() {
    let mut app = connected_app();
    let mut effects = Vec::new();
    app.begin_play(0, &mut effects);
    let generation = app.generation;
    app.handle_event(
        Event::TrackReady {
            generation,
            index: 0,
            key: "one.mp3".to_owned(),
            name: "one.mp3".to_owned(),
            result: Ok(None),
            output: Ok(()),
        },
        NO_PLAYER,
        &mut effects,
    );
    effects.clear();
    let finished = PlayerStatus { open: true, paused: false, finished: true };
    app.tick(finished, &mut effects);
    assert!(app.completed || app.busy);
    assert_eq!(app.pending_track, Some(2));
    let asked = effects.len();
    app.tick(finished, &mut effects);
    assert_eq!(effects.len(), asked);
}

#[test]
fn loop_once_replays_the_finished_track() {
    let mut app = connected_app();
    let mut effects = Vec::new();
    app.begin_play(2, &mut effects);
    let generation = app.generation;
    app.handle_event(
        Event::TrackReady {
            generation,
            index: 2,
            key: "two.mp3".to_owned(),
            name: "two.mp3".to_owned(),
            result: Ok(None),
            output: Ok(()),
        },
        NO_PLAYER,
        &mut effects,
    );
    app.cycle_repeat_mode();
    effects.clear();
    app.tick(PlayerStatus { open: true, paused: false, finished: true }, &mut effects);
    assert_eq!(app.repeat_mode, RepeatMode::Off);
    assert_eq!(app.status, "Looping two.mp3...");
    assert!(matches!(effects.as_slice(), [Effect::Replay { index: 2, .. }]));
}

#[test]
fn audio_output_failure_is_reported() {
    let mut app = connected_app();
    let mut effects = Vec::new();
    app.begin_play(0, &mut effects);
    let generation = app.generation;
    effects.clear();
    app.handle_event(
        Event::TrackReady {
            generation,
            index: 0,
            key: "one.mp3".to_owned(),
            name: "one.mp3".to_owned(),
            result: Ok(None),
            output: Err("no device".to_owned()),
        },
        NO_PLAYER,
        &mut effects,
    );
    assert_eq!(app.status, "Could not open audio output: no device");
    assert!(app.now_playing.is_none());
    assert!(!app.busy);
    assert!(effects.is_empty());
}

#[test]
fn pause_needs_a_playing_track() {
    let mut app = folder_app();
    let mut effects = Vec::new();
    let playing = PlayerStatus { open: true, paused: false, finished: false };
    app.toggle_pause(playing, &mut effects);
    assert!(effects.is_empty());
    app.now_playing = Some(degen_music_library::app::CurrentTrack {
        key: "one.mp3".to_owned(),
        name: "one.mp3".to_owned(),
        duration: None,
    });
    app.toggle_pause(playing, &mut effects);
    assert!(app.paused);
    assert_eq!(app.status, "Paused");
    assert!(matches!(effects.as_slice(), [Effect::TogglePause]));
}

#[test]
fn stop_and_open_credentials_reset_the_session() {
    let mut app = connected_app();
    let mut effects = Vec::new();
    app.begin_play(0, &mut effects);
    effects.clear();
    app.handle_event(Event::Key(key(KeyCode::Char('x'))), NO_PLAYER, &mut effects);
    assert_eq!(app.status, "Stopped");
    assert!(!app.busy && !app.track_task && app.pending_track.is_none());
    assert!(matches!(effects.as_slice(), [Effect::AbortTrackTask, Effect::StopPlayer, Effect::ClearSpectrum]));
    app.handle_event(Event::Key(key(KeyCode::Char('c'))), NO_PLAYER, &mut effects);
    assert_eq!(app.screen, Screen::Credentials);
    assert!(app.storage.is_none());
    assert!(app.entries.is_empty());
    assert_eq!(app.status, "Enter credentials for an S3-compatible bucket.");
}

#[test]
fn folders_open_and_parent_returns() {
    let mut app = connected_app();
    let mut effects = Vec::new();
    app.selected = 1;
    app.handle_event(Event::Key(key(KeyCode::Right)), NO_PLAYER, &mut effects);
    match effects.last() {
        Some(Effect::List { prefix, .. }) => assert_eq!(prefix, "folder/"),
        _ => panic!("expected a listing request"),
    }
    assert_eq!(app.status, "Loading /folder/...");
    let generation = app.generation;
    app.handle_event(
        Event::Listed { generation, prefix: "folder/".to_owned(), result: Ok(Vec::new()) },
        NO_PLAYER,
        &mut effects,
    );
    effects.clear();
    app.handle_event(Event::Key(key(KeyCode::Char('h'))), NO_PLAYER, &mut effects);
    match effects.last() {
        Some(Effect::List { prefix, .. }) => assert_eq!(prefix, ""),
        _ => panic!("expected a listing request"),
    }
}

#[test]
fn no_next_track_is_reported() {
    let mut app = folder_app();
    app.selected = 3;
    let mut effects = Vec::new();
    app.play_adjacent(true, &mut effects);
    assert_eq!(app.status, "No next track in this folder.");
    assert!(effects.is_empty());
}

#[test]
fn animation_advances_from_any_frame() {
    let mut app = App::default();
    app.now_playing = Some(degen_music_library::app::CurrentTrack {
        key: "a.mp3".to_owned(),
        name: "a.mp3".to_owned(),
        duration: None,
    });
    app.animation_frame = usize::MAX;
    let mut effects = Vec::new();
    app.tick(NO_PLAYER, &mut effects);
    assert_eq!(app.animation_frame, ((usize::MAX % 5) + 1) % 5);
    app.tick(NO_PLAYER, &mut effects);
    assert_eq!(app.animation_frame, ((usize::MAX % 5) + 2) % 5);
    assert!(effects.is_empty());
}

#[test]
fn navigation_keys_work_with_any_focus() {
    let mut app = App::default();
    app.credentials.selected = 7;
    let mut effects = Vec::new();
    assert!(!app.handle_event(Event::Key(key(KeyCode::Tab)), NO_PLAYER, &mut effects));
    assert_eq!(app.credentials.selected, 3);
    app.credentials.selected = 9;
    assert!(app.handle_event(Event::Key(key(KeyCode::Esc)), NO_PLAYER, &mut effects));
    assert!(effects.is_empty());
}

#[test]
fn keys_that_edit_the_focused_field() {
    assert!(key(KeyCode::Backspace).edits_field());
    assert!(key(KeyCode::Char('a')).edits_field());
    assert!(ctrl(KeyCode::Char('u')).edits_field());
    assert!(!ctrl(KeyCode::Char('a')).edits_field());
    assert!(!key(KeyCode::Tab).edits_field());
}
