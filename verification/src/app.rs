use crate::storage::{
    entry_views, ConnectionDetails, ConnectionDetailsView, Entry, EntryKind, EntryView, Storage,
    StorageView,
};
use std::time::Duration;
use crate::text::{
    chars_of, decimal, last_index_of, owned, push_decimal, push_text, rfind_char,
    string_from, trim_end_char, trim_end_char_of,
};
use vstd::prelude::*;

verus! {

#[derive(Clone, Copy, Debug, PartialEq, Eq, Structural)]
pub enum Screen {
    Credentials,
    Browser,
}

/// How a finished track is followed.
#[derive(Clone, Copy, Debug, Default, PartialEq, Eq, Structural)]
pub enum RepeatMode {
    #[default]
    Off,
    Once,
    Forever,
}

impl RepeatMode {
    /// The next mode in the cycle Off, Once, Forever, Off.
    pub open spec fn spec_cycle(self) -> RepeatMode {
        match self {
            RepeatMode::Off => RepeatMode::Once,
            RepeatMode::Once => RepeatMode::Forever,
            RepeatMode::Forever => RepeatMode::Off,
        }
    }

    pub open spec fn spec_label(self) -> Seq<char> {
        match self {
            RepeatMode::Off => "Off"@,
            RepeatMode::Once => "Once"@,
            RepeatMode::Forever => "Forever"@,
        }
    }

    pub fn label(self) -> (text: &'static str)
        ensures
            text@ == self.spec_label(),
    {
        match self {
            RepeatMode::Off => "Off",
            RepeatMode::Once => "Once",
            RepeatMode::Forever => "Forever",
        }
    }

    pub fn cycle(self) -> (next: RepeatMode)
        ensures
            next == self.spec_cycle(),
    {
        match self {
            RepeatMode::Off => RepeatMode::Once,
            RepeatMode::Once => RepeatMode::Forever,
            RepeatMode::Forever => RepeatMode::Off,
        }
    }
}

/// What happens when the current track has played to its end.
#[derive(Clone, Copy, Debug, PartialEq, Eq, Structural)]
pub enum CompletionAction {
    Advance,
    Replay,
}

/// The action for a finished track under `mode`, and the mode that follows.
pub open spec fn completion_spec(mode: RepeatMode) -> (CompletionAction, RepeatMode) {
    match mode {
        RepeatMode::Off => (CompletionAction::Advance, RepeatMode::Off),
        RepeatMode::Once => (CompletionAction::Replay, RepeatMode::Off),
        RepeatMode::Forever => (CompletionAction::Replay, RepeatMode::Forever),
    }
}

/// Decides how a finished track is followed; a single repeat is used up.
pub fn completion_action(mode: &mut RepeatMode) -> (action: CompletionAction)
    ensures
        (action, *final(mode)) == completion_spec(*old(mode)),
{
    match mode {
        RepeatMode::Off => CompletionAction::Advance,
        RepeatMode::Once => {
            *mode = RepeatMode::Off;
            CompletionAction::Replay
        },
        RepeatMode::Forever => CompletionAction::Replay,
    }
}

#[derive(Clone, Copy, Debug, PartialEq, Eq, Structural)]
pub enum CredentialField {
    Endpoint,
    Region,
    Bucket,
    AccessKey,
    SecretKey,
}

/// The fields of the connection screen, from top to bottom.
pub open spec fn field_at(index: int) -> CredentialField {
    if index == 0 {
        CredentialField::Endpoint
    } else if index == 1 {
        CredentialField::Region
    } else if index == 2 {
        CredentialField::Bucket
    } else if index == 3 {
        CredentialField::AccessKey
    } else {
        CredentialField::SecretKey
    }
}

/// The number of fields on the connection screen.
pub const FIELD_COUNT: usize = 5;

impl CredentialField {
    pub const ALL: [CredentialField; 5] = [
        CredentialField::Endpoint,
        CredentialField::Region,
        CredentialField::Bucket,
        CredentialField::AccessKey,
        CredentialField::SecretKey,
    ];

    /// The field at a position of the connection screen.
    pub fn at(index: usize) -> (field: CredentialField)
        requires
            index < FIELD_COUNT,
        ensures
            field == field_at(index as int),
    {
        if index == 0 {
            CredentialField::Endpoint
        } else if index == 1 {
            CredentialField::Region
        } else if index == 2 {
            CredentialField::Bucket
        } else if index == 3 {
            CredentialField::AccessKey
        } else {
            CredentialField::SecretKey
        }
    }

    pub open spec fn spec_label(self) -> Seq<char> {
        match self {
            CredentialField::Endpoint => "S3 endpoint"@,
            CredentialField::Region => "Region"@,
            CredentialField::Bucket => "Bucket"@,
            CredentialField::AccessKey => "Access key ID"@,
            CredentialField::SecretKey => "Secret access key"@,
        }
    }

    pub fn label(self) -> (text: &'static str)
        ensures
            text@ == self.spec_label(),
    {
        match self {
            CredentialField::Endpoint => "S3 endpoint",
            CredentialField::Region => "Region",
            CredentialField::Bucket => "Bucket",
            CredentialField::AccessKey => "Access key ID",
            CredentialField::SecretKey => "Secret access key",
        }
    }
}

/// The connection screen's fields and the position of the focused one.
pub struct CredentialForm {
    pub endpoint: String,
    pub region: String,
    pub bucket: String,
    pub access_key: String,
    pub secret_key: String,
    pub selected: usize,
}

pub struct CredentialFormView {
    pub endpoint: Seq<char>,
    pub region: Seq<char>,
    pub bucket: Seq<char>,
    pub access_key: Seq<char>,
    pub secret_key: Seq<char>,
    pub selected: usize,
}

impl View for CredentialForm {
    type V = CredentialFormView;

    open spec fn view(&self) -> CredentialFormView {
        CredentialFormView {
            endpoint: self.endpoint@,
            region: self.region@,
            bucket: self.bucket@,
            access_key: self.access_key@,
            secret_key: self.secret_key@,
            selected: self.selected,
        }
    }
}

impl CredentialFormView {
    /// The text of one field.
    pub open spec fn value(self, field: CredentialField) -> Seq<char> {
        match field {
            CredentialField::Endpoint => self.endpoint,
            CredentialField::Region => self.region,
            CredentialField::Bucket => self.bucket,
            CredentialField::AccessKey => self.access_key,
            CredentialField::SecretKey => self.secret_key,
        }
    }

    /// The form with one field's text replaced.
    pub open spec fn with_value(self, field: CredentialField, text: Seq<char>) -> CredentialFormView {
        match field {
            CredentialField::Endpoint => CredentialFormView { endpoint: text, ..self },
            CredentialField::Region => CredentialFormView { region: text, ..self },
            CredentialField::Bucket => CredentialFormView { bucket: text, ..self },
            CredentialField::AccessKey => CredentialFormView { access_key: text, ..self },
            CredentialField::SecretKey => CredentialFormView { secret_key: text, ..self },
        }
    }

    /// The connection details that the form holds.
    pub open spec fn details(self) -> ConnectionDetailsView {
        ConnectionDetailsView {
            endpoint: self.endpoint,
            region: self.region,
            bucket: self.bucket,
            access_key: self.access_key,
            secret_key: self.secret_key,
        }
    }

    /// The form with the access key and the secret key emptied.
    pub open spec fn without_secrets(self) -> CredentialFormView {
        CredentialFormView { access_key: Seq::empty(), secret_key: Seq::empty(), ..self }
    }
}

impl Default for CredentialForm {
    fn default() -> (form: CredentialForm)
        ensures
            form@ == (CredentialFormView {
                endpoint: Seq::empty(),
                region: "auto"@,
                bucket: Seq::empty(),
                access_key: Seq::empty(),
                secret_key: Seq::empty(),
                selected: 0,
            }),
    {
        CredentialForm {
            endpoint: String::new(),
            region: owned("auto"),
            bucket: String::new(),
            access_key: String::new(),
            secret_key: String::new(),
            selected: 0,
        }
    }
}

impl CredentialForm {
    pub fn value(&self, field: CredentialField) -> (text: &str)
        ensures
            text@ == self@.value(field),
    {
        match field {
            CredentialField::Endpoint => self.endpoint.as_str(),
            CredentialField::Region => self.region.as_str(),
            CredentialField::Bucket => self.bucket.as_str(),
            CredentialField::AccessKey => self.access_key.as_str(),
            CredentialField::SecretKey => self.secret_key.as_str(),
        }
    }

    pub fn value_mut(&mut self, field: CredentialField) -> (text: &mut String)
        ensures
            text@ == old(self)@.value(field),
            final(self)@ == old(self)@.with_value(field, final(text)@),
    {
        match field {
            CredentialField::Endpoint => &mut self.endpoint,
            CredentialField::Region => &mut self.region,
            CredentialField::Bucket => &mut self.bucket,
            CredentialField::AccessKey => &mut self.access_key,
            CredentialField::SecretKey => &mut self.secret_key,
        }
    }

    pub fn details(&self) -> (details: ConnectionDetails)
        ensures
            details@ == self@.details(),
    {
        ConnectionDetails {
            endpoint: self.endpoint.clone(),
            region: self.region.clone(),
            bucket: self.bucket.clone(),
            access_key: self.access_key.clone(),
            secret_key: self.secret_key.clone(),
        }
    }

    /// Overwrites the access key and the secret key, leaving them empty.
    pub fn clear_sensitive(&mut self)
        ensures
            final(self)@ == old(self)@.without_secrets(),
    {
        zeroize::Zeroize::zeroize(&mut self.access_key);
        zeroize::Zeroize::zeroize(&mut self.secret_key);
    }
}

/// The folder that holds `prefix`: everything up to and including the last
/// `/` once the trailing slashes are dropped, or the bucket root.
pub open spec fn parent_prefix_spec(prefix: Seq<char>) -> Seq<char> {
    let without_slash = trim_end_char(prefix, '/');
    match last_index_of(without_slash, '/') {
        Some(index) => without_slash.take(index + 1),
        None => Seq::empty(),
    }
}

pub fn parent_prefix(prefix: &str) -> (parent: String)
    ensures
        parent@ == parent_prefix_spec(prefix@),
{
    let chars = chars_of(prefix);
    let without_slash = trim_end_char_of(chars.as_slice(), '/');
    match rfind_char(without_slash.as_slice(), '/') {
        Some(index) => {
            let mut kept: Vec<char> = Vec::new();
            let mut i: usize = 0;
            while i <= index
                invariant
                    index < without_slash.len(),
                    i <= index + 1,
                    kept@ == without_slash@.take(i as int),
                decreases index + 1 - i,
            {
                kept.push(without_slash[i]);
                i = i + 1;
                assert(without_slash@.take(i as int) =~= without_slash@.take(i - 1).push(
                    without_slash@[i - 1],
                ));
            }
            string_from(kept.as_slice())
        },
        None => String::new(),
    }
}

/// The status line after a folder with `count` entries was loaded.
pub open spec fn listing_status_spec(count: nat) -> Seq<char> {
    if count == 0 {
        "This folder has no supported audio files or subfolders."@
    } else if count == 1 {
        "Loaded 1 item."@
    } else {
        "Loaded "@ + decimal(count) + " items."@
    }
}

pub fn listing_status(count: usize) -> (status: String)
    ensures
        status@ == listing_status_spec(count as nat),
{
    if count == 0 {
        owned("This folder has no supported audio files or subfolders.")
    } else if count == 1 {
        owned("Loaded 1 item.")
    } else {
        let mut status = owned("Loaded ");
        push_decimal(&mut status, count as u64);
        push_text(&mut status, " items.");
        status
    }
}

// ---------------------------------------------------------------------------
// Input, events from the work that runs outside, and requests for that work.
// ---------------------------------------------------------------------------

/// A key of the keyboard.
#[derive(Clone, Copy, Debug, PartialEq, Eq, Structural)]
pub enum KeyCode {
    Esc,
    Tab,
    BackTab,
    Up,
    Down,
    Left,
    Right,
    Enter,
    Backspace,
    PageUp,
    PageDown,
    Home,
    End,
    Char(char),
    Other,
}

/// The modifier keys held with a key: Control, Shift, and whether any other
/// (Alt, Super, ...) is held.
#[derive(Clone, Copy, Debug, PartialEq, Eq, Structural)]
pub struct KeyModifiers {
    pub control: bool,
    pub shift: bool,
    pub other: bool,
}

/// A key press.
#[derive(Clone, Copy, Debug, PartialEq, Eq, Structural)]
pub struct KeyEvent {
    pub code: KeyCode,
    pub modifiers: KeyModifiers,
}

/// Whether no modifier is held, or Shift alone.
pub open spec fn plain_or_shift(modifiers: KeyModifiers) -> bool {
    !modifiers.control && !modifiers.other
}

/// Whether a key on the connection screen edits the focused field: Backspace,
/// Ctrl+U, or a character typed plainly or with Shift.
pub open spec fn edits_focused_field(key: KeyEvent) -> bool {
    match key.code {
        KeyCode::Backspace => true,
        KeyCode::Char(ch) => (ch == 'u' && key.modifiers.control) || plain_or_shift(key.modifiers),
        _ => false,
    }
}

impl KeyEvent {
    /// Whether this key, on the connection screen, edits the focused field.
    pub fn edits_field(&self) -> (edits: bool)
        ensures
            edits == edits_focused_field(*self),
    {
        match self.code {
            KeyCode::Backspace => true,
            KeyCode::Char(ch) => (ch == 'u' && self.modifiers.control) || (!self.modifiers.control
                && !self.modifiers.other),
            _ => false,
        }
    }
}

/// What the audio output reports: whether it is open, paused, and done with
/// what it was given.
#[derive(Clone, Copy, Debug, PartialEq, Eq, Structural)]
pub struct PlayerStatus {
    pub open: bool,
    pub paused: bool,
    pub finished: bool,
}

/// The results of outside work, and key presses.
pub enum Event {
    Key(KeyEvent),
    /// The outcome of a connection that `Effect::Connect` asked for.
    Connected { generation: u64, result: Result<(Storage, Vec<Entry>), String> },
    /// The outcome of a listing that `Effect::List` asked for.
    Listed { generation: u64, prefix: String, result: Result<Vec<Entry>, String> },
    /// The outcome of a download or replay: the prepared track's duration, or
    /// why it failed; `output` tells whether the audio output could be opened.
    TrackReady {
        generation: u64,
        index: usize,
        key: String,
        name: String,
        result: Result<Option<Duration>, String>,
        output: Result<(), String>,
    },
}

pub enum EventView {
    Key(KeyEvent),
    Connected { generation: u64, result: Result<(StorageView, Seq<EntryView>), Seq<char>> },
    Listed { generation: u64, prefix: Seq<char>, result: Result<Seq<EntryView>, Seq<char>> },
    TrackReady {
        generation: u64,
        index: usize,
        key: Seq<char>,
        name: Seq<char>,
        result: Result<Option<Duration>, Seq<char>>,
        output: Result<(), Seq<char>>,
    },
}

impl View for Event {
    type V = EventView;

    open spec fn view(&self) -> EventView {
        match self {
            Event::Key(key) => EventView::Key(*key),
            Event::Connected { generation, result } => EventView::Connected {
                generation: *generation,
                result: match result {
                    Ok((storage, entries)) => Ok((storage@, entry_views(entries@))),
                    Err(message) => Err(message@),
                },
            },
            Event::Listed { generation, prefix, result } => EventView::Listed {
                generation: *generation,
                prefix: prefix@,
                result: match result {
                    Ok(entries) => Ok(entry_views(entries@)),
                    Err(message) => Err(message@),
                },
            },
            Event::TrackReady { generation, index, key, name, result, output } => EventView::TrackReady {
                generation: *generation,
                index: *index,
                key: key@,
                name: name@,
                result: match result {
                    Ok(duration) => Ok(*duration),
                    Err(message) => Err(message@),
                },
                output: match output {
                    Ok(()) => Ok(()),
                    Err(message) => Err(message@),
                },
            },
        }
    }
}

/// Work for the outside: background tasks, the audio output and the spectrum.
pub enum Effect {
    /// Connect with these details and list the bucket root.
    Connect { generation: u64, details: ConnectionDetails },
    /// List the folder `prefix` of the connected bucket.
    List { generation: u64, prefix: String },
    /// Download and prepare the track `key` of the connected bucket.
    Download { generation: u64, index: usize, key: String, name: String },
    /// Prepare the current track again from its cached download.
    Replay { generation: u64, index: usize, key: String, name: String },
    /// Abandon the running download or replay task.
    AbortTrackTask,
    /// Stop the audio output, if one is open.
    StopPlayer,
    /// Reset the spectrum bars to zero.
    ClearSpectrum,
    /// Set the volume of the audio output, if one is open.
    SetVolume(u8),
    /// Pause or resume the audio output.
    TogglePause,
    /// Play the track that the last `TrackReady` event brought.
    Play,
}

pub enum EffectView {
    Connect { generation: u64, details: ConnectionDetailsView },
    List { generation: u64, prefix: Seq<char> },
    Download { generation: u64, index: usize, key: Seq<char>, name: Seq<char> },
    Replay { generation: u64, index: usize, key: Seq<char>, name: Seq<char> },
    AbortTrackTask,
    StopPlayer,
    ClearSpectrum,
    SetVolume(u8),
    TogglePause,
    Play,
}

impl View for Effect {
    type V = EffectView;

    open spec fn view(&self) -> EffectView {
        match self {
            Effect::Connect { generation, details } => EffectView::Connect {
                generation: *generation,
                details: details@,
            },
            Effect::List { generation, prefix } => EffectView::List {
                generation: *generation,
                prefix: prefix@,
            },
            Effect::Download { generation, index, key, name } => EffectView::Download {
                generation: *generation,
                index: *index,
                key: key@,
                name: name@,
            },
            Effect::Replay { generation, index, key, name } => EffectView::Replay {
                generation: *generation,
                index: *index,
                key: key@,
                name: name@,
            },
            Effect::AbortTrackTask => EffectView::AbortTrackTask,
            Effect::StopPlayer => EffectView::StopPlayer,
            Effect::ClearSpectrum => EffectView::ClearSpectrum,
            Effect::SetVolume(volume) => EffectView::SetVolume(*volume),
            Effect::TogglePause => EffectView::TogglePause,
            Effect::Play => EffectView::Play,
        }
    }
}

pub open spec fn effect_views(effects: Seq<Effect>) -> Seq<EffectView> {
    effects.map_values(|effect: Effect| effect@)
}

/// Whether `after` is `before` followed by effects whose views are `added`.
pub open spec fn emitted(before: Seq<Effect>, after: Seq<Effect>, added: Seq<EffectView>) -> bool {
    effect_views(after) == effect_views(before) + added
}

fn emit(effects: &mut Vec<Effect>, effect: Effect)
    ensures
        effect_views(final(effects)@) == effect_views(old(effects)@).push(effect@),
{
    effects.push(effect);
    assert(effect_views(effects@) =~= effect_views(old(effects)@).push(effect@));
}

// ---------------------------------------------------------------------------
// The application state.
// ---------------------------------------------------------------------------

/// The track that plays, or played last.
pub struct CurrentTrack {
    pub key: String,
    pub name: String,
    pub duration: Option<Duration>,
}

pub struct TrackView {
    pub key: Seq<char>,
    pub name: Seq<char>,
    pub duration: Option<Duration>,
}

impl View for CurrentTrack {
    type V = TrackView;

    open spec fn view(&self) -> TrackView {
        TrackView { key: self.key@, name: self.name@, duration: self.duration }
    }
}

/// Everything the screens show and the decisions depend on.
pub struct App {
    pub screen: Screen,
    pub credentials: CredentialForm,
    pub entries: Vec<Entry>,
    pub selected: usize,
    pub prefix: String,
    pub status: String,
    pub busy: bool,
    pub volume: u8,
    pub paused: bool,
    pub completed: bool,
    pub now_playing: Option<CurrentTrack>,
    pub animation_frame: usize,
    pub repeat_mode: RepeatMode,
    pub show_visualizer: bool,
    pub storage: Option<Storage>,
    pub generation: u64,
    pub finished_handled: bool,
    /// Whether a download or replay task runs.
    pub track_task: bool,
    pub pending_track: Option<usize>,
}

pub struct AppView {
    pub screen: Screen,
    pub credentials: CredentialFormView,
    pub entries: Seq<EntryView>,
    pub selected: usize,
    pub prefix: Seq<char>,
    pub status: Seq<char>,
    pub busy: bool,
    pub volume: u8,
    pub paused: bool,
    pub completed: bool,
    pub now_playing: Option<TrackView>,
    pub animation_frame: usize,
    pub repeat_mode: RepeatMode,
    pub show_visualizer: bool,
    /// The connected bucket and its client.
    pub storage: Option<StorageView>,
    pub generation: u64,
    pub finished_handled: bool,
    pub track_task: bool,
    pub pending_track: Option<usize>,
}

impl View for App {
    type V = AppView;

    open spec fn view(&self) -> AppView {
        AppView {
            screen: self.screen,
            credentials: self.credentials@,
            entries: entry_views(self.entries@),
            selected: self.selected,
            prefix: self.prefix@,
            status: self.status@,
            busy: self.busy,
            volume: self.volume,
            paused: self.paused,
            completed: self.completed,
            now_playing: match self.now_playing {
                Some(track) => Some(track@),
                None => None,
            },
            animation_frame: self.animation_frame,
            repeat_mode: self.repeat_mode,
            show_visualizer: self.show_visualizer,
            storage: match self.storage {
                Some(storage) => Some(storage@),
                None => None,
            },
            generation: self.generation,
            finished_handled: self.finished_handled,
            track_task: self.track_task,
            pending_track: self.pending_track,
        }
    }
}

impl AppView {
    /// What every operation keeps: the focused field and the animation frame
    /// index valid positions, the volume a percentage, and the selection on an
    /// entry when there is one.
    pub open spec fn wf(self) -> bool {
        &&& self.credentials.selected < FIELD_COUNT
        &&& self.animation_frame < 5
        &&& self.volume <= 100
        &&& if self.entries.len() == 0 {
            self.selected == 0
        } else {
            self.selected < self.entries.len()
        }
    }
}

/// The generation after `generation`, wrapping around.
pub open spec fn next_generation_spec(generation: u64) -> u64 {
    if generation == u64::MAX {
        0
    } else {
        (generation + 1) as u64
    }
}

// ---------------------------------------------------------------------------
// The transitions, stated over views. Each gives the next state and the
// effects, in order, that the operation asks for.
// ---------------------------------------------------------------------------

pub open spec fn no_effects() -> Seq<EffectView> {
    Seq::empty()
}

/// `AbortTrackTask` when a track task runs.
pub open spec fn abort_effects(s: AppView) -> Seq<EffectView> {
    if s.track_task {
        seq![EffectView::AbortTrackTask]
    } else {
        Seq::empty()
    }
}

pub open spec fn begin_connect_spec(s: AppView) -> (AppView, Seq<EffectView>) {
    if s.busy {
        (s, no_effects())
    } else {
        let generation = next_generation_spec(s.generation);
        (
            AppView {
                generation,
                busy: true,
                status: "Connecting and reading the bucket root..."@,
                ..s
            },
            seq![EffectView::Connect { generation, details: s.credentials.details() }],
        )
    }
}

pub open spec fn begin_list_spec(s: AppView, prefix: Seq<char>) -> (AppView, Seq<EffectView>) {
    if s.busy || s.storage is None {
        (s, no_effects())
    } else {
        let generation = next_generation_spec(s.generation);
        (
            AppView { generation, busy: true, status: "Loading /"@ + prefix + "..."@, ..s },
            seq![EffectView::List { generation, prefix }],
        )
    }
}

pub open spec fn begin_play_spec(s: AppView, index: usize) -> (AppView, Seq<EffectView>) {
    if index >= s.entries.len() || s.entries[index as int].kind != EntryKind::Track
        || s.storage is None {
        (s, no_effects())
    } else {
        let entry = s.entries[index as int];
        let generation = next_generation_spec(s.generation);
        (
            AppView {
                track_task: true,
                now_playing: None,
                paused: false,
                completed: false,
                finished_handled: true,
                selected: index,
                pending_track: Some(index),
                generation,
                busy: true,
                status: "Loading "@ + entry.name + "..."@,
                ..s
            },
            abort_effects(s) + seq![
                EffectView::StopPlayer,
                EffectView::ClearSpectrum,
                EffectView::Download { generation, index, key: entry.key, name: entry.name },
            ],
        )
    }
}

/// The first position of an entry with this key.
pub open spec fn key_position(entries: Seq<EntryView>, key: Seq<char>) -> Option<int> {
    if exists|i: int| 0 <= i < entries.len() && entries[i].key == key {
        Some(
            choose|i: int|
                0 <= i < entries.len() && entries[i].key == key && forall|j: int|
                    0 <= j < i ==> entries[j].key != key,
        )
    } else {
        None
    }
}

/// The first entry with a key is where `key_position` points.
pub proof fn lemma_key_position_first(entries: Seq<EntryView>, key: Seq<char>, i: int)
    requires
        0 <= i < entries.len(),
        entries[i].key == key,
        forall|j: int| 0 <= j < i ==> entries[j].key != key,
    ensures
        key_position(entries, key) == Some(i),
{
    let c = choose|c: int|
        0 <= c < entries.len() && entries[c].key == key && forall|j: int|
            0 <= j < c ==> entries[j].key != key;
    assert(0 <= c < entries.len() && entries[c].key == key && forall|j: int|
        0 <= j < c ==> entries[j].key != key);
    if c < i {
        assert(entries[c].key != key);
    } else if c > i {
        assert(entries[i].key != key);
    }
}

pub open spec fn begin_replay_spec(s: AppView) -> (AppView, Seq<EffectView>) {
    if s.busy || s.now_playing is None {
        (s, no_effects())
    } else {
        let track = s.now_playing.unwrap();
        let index: usize = match key_position(s.entries, track.key) {
            Some(i) => i as usize,
            None => s.selected,
        };
        let generation = next_generation_spec(s.generation);
        (
            AppView {
                track_task: true,
                generation,
                busy: true,
                pending_track: Some(index),
                status: "Looping "@ + track.name + "..."@,
                ..s
            },
            abort_effects(s) + seq![
                EffectView::Replay { generation, index, key: track.key, name: track.name },
            ],
        )
    }
}

pub open spec fn activate_selected_spec(s: AppView) -> (AppView, Seq<EffectView>) {
    if s.selected >= s.entries.len() {
        (s, no_effects())
    } else {
        let entry = s.entries[s.selected as int];
        match entry.kind {
            EntryKind::Folder => begin_list_spec(s, entry.key),
            EntryKind::Track => begin_play_spec(s, s.selected),
        }
    }
}

pub open spec fn go_to_parent_spec(s: AppView) -> (AppView, Seq<EffectView>) {
    if s.prefix.len() == 0 {
        (s, no_effects())
    } else {
        begin_list_spec(s, parent_prefix_spec(s.prefix))
    }
}

/// `selected + amount`, saturated to the range of `usize`.
pub open spec fn saturated_move(selected: usize, amount: int) -> int {
    if selected + amount < 0 {
        0
    } else if selected + amount > usize::MAX {
        usize::MAX as int
    } else {
        selected + amount
    }
}

pub open spec fn change_selection_spec(s: AppView, amount: int) -> AppView {
    if s.entries.len() == 0 {
        AppView { selected: 0, ..s }
    } else {
        let moved = saturated_move(s.selected, amount);
        let last = s.entries.len() - 1;
        AppView {
            selected: (if moved < last {
                moved
            } else {
                last
            }) as usize,
            ..s
        }
    }
}

/// `value` clamped to the range 0..=100.
pub open spec fn clamp_percent(value: int) -> u8 {
    (if value < 0 {
        0
    } else if value > 100 {
        100
    } else {
        value
    }) as u8
}

pub open spec fn change_volume_spec(s: AppView, amount: int) -> (AppView, Seq<EffectView>) {
    let volume = clamp_percent(s.volume + amount);
    (
        AppView { volume, status: "Volume "@ + decimal(volume as nat) + "%"@, ..s },
        seq![EffectView::SetVolume(volume)],
    )
}

pub open spec fn repeat_status(mode: RepeatMode) -> Seq<char> {
    match mode {
        RepeatMode::Off => "Loop mode: off."@,
        RepeatMode::Once => "Loop mode: replay the current track once."@,
        RepeatMode::Forever => "Loop mode: replay the current track forever."@,
    }
}

pub open spec fn cycle_repeat_mode_spec(s: AppView) -> AppView {
    let mode = s.repeat_mode.spec_cycle();
    AppView { repeat_mode: mode, status: repeat_status(mode), ..s }
}

pub open spec fn toggle_visualizer_spec(s: AppView) -> AppView {
    let show = !s.show_visualizer;
    AppView {
        show_visualizer: show,
        status: if show {
            "FFT visualizer enabled. Press V to return to the library."@
        } else {
            "Library view enabled. Press V for the FFT visualizer."@
        },
        ..s
    }
}

pub open spec fn toggle_pause_spec(s: AppView, player: PlayerStatus) -> (AppView, Seq<EffectView>) {
    if !player.open || s.now_playing is None || s.completed {
        (s, no_effects())
    } else {
        let paused = !player.paused;
        (
            AppView {
                paused,
                status: if paused {
                    "Paused"@
                } else {
                    "Playing"@
                },
                ..s
            },
            seq![EffectView::TogglePause],
        )
    }
}

pub open spec fn stop_spec(s: AppView) -> (AppView, Seq<EffectView>) {
    let generation = if s.track_task {
        next_generation_spec(s.generation)
    } else {
        s.generation
    };
    (
        AppView {
            track_task: false,
            generation,
            pending_track: None,
            busy: false,
            now_playing: None,
            paused: false,
            completed: false,
            finished_handled: true,
            status: "Stopped"@,
            ..s
        },
        abort_effects(s) + seq![EffectView::StopPlayer, EffectView::ClearSpectrum],
    )
}

/// The position that next and previous count from: the track that is being
/// loaded, else the entry of the playing track, else the selection.
pub open spec fn navigation_origin(s: AppView) -> int {
    match s.pending_track {
        Some(index) => index as int,
        None => match s.now_playing {
            Some(track) => match key_position(s.entries, track.key) {
                Some(index) => index,
                None => s.selected as int,
            },
            None => s.selected as int,
        },
    }
}

pub open spec fn is_track_at(entries: Seq<EntryView>, i: int) -> bool {
    0 <= i < entries.len() && entries[i].kind == EntryKind::Track
}

/// The first track after position `origin`.
pub open spec fn next_track_after(entries: Seq<EntryView>, origin: int) -> Option<int> {
    if exists|i: int| origin < i && is_track_at(entries, i) {
        Some(
            choose|i: int|
                origin < i && is_track_at(entries, i) && forall|j: int|
                    origin < j < i ==> !is_track_at(entries, j),
        )
    } else {
        None
    }
}

/// The last track before position `end`.
pub open spec fn previous_track_before(entries: Seq<EntryView>, end: int) -> Option<int> {
    if exists|i: int| i < end && is_track_at(entries, i) {
        Some(
            choose|i: int|
                i < end && is_track_at(entries, i) && forall|j: int|
                    i < j < end ==> !is_track_at(entries, j),
        )
    } else {
        None
    }
}

/// The first track after `origin` is the one that `next_track_after` gives.
pub proof fn lemma_next_track_first(entries: Seq<EntryView>, origin: int, i: int)
    requires
        origin < i,
        is_track_at(entries, i),
        forall|j: int| origin < j < i ==> !is_track_at(entries, j),
    ensures
        next_track_after(entries, origin) == Some(i),
{
    let c = choose|c: int|
        origin < c && is_track_at(entries, c) && forall|j: int|
            origin < j < c ==> !is_track_at(entries, j);
    assert(origin < c && is_track_at(entries, c) && forall|j: int|
        origin < j < c ==> !is_track_at(entries, j));
    if c < i {
        assert(!is_track_at(entries, c));
    } else if c > i {
        assert(!is_track_at(entries, i));
    }
}

/// The last track before `end` is the one that `previous_track_before` gives.
pub proof fn lemma_previous_track_last(entries: Seq<EntryView>, end: int, i: int)
    requires
        i < end,
        is_track_at(entries, i),
        forall|j: int| i < j < end ==> !is_track_at(entries, j),
    ensures
        previous_track_before(entries, end) == Some(i),
{
    let c = choose|c: int|
        c < end && is_track_at(entries, c) && forall|j: int| c < j < end ==> !is_track_at(entries, j);
    assert(c < end && is_track_at(entries, c) && forall|j: int|
        c < j < end ==> !is_track_at(entries, j));
    if c < i {
        assert(!is_track_at(entries, i));
    } else if c > i {
        assert(!is_track_at(entries, c));
    }
}

/// The first track after position `origin`.
fn next_track_from(entries: &Vec<Entry>, origin: usize) -> (index: Option<usize>)
    ensures
        match index {
            Some(i) => next_track_after(entry_views(entries@), origin as int) == Some(i as int),
            None => next_track_after(entry_views(entries@), origin as int) is None,
        },
{
    let ghost views = entry_views(entries@);
    if origin >= entries.len() {
        proof {
            if exists|i: int| origin < i && is_track_at(views, i) {
                let i = choose|i: int| origin < i && is_track_at(views, i);
                assert(is_track_at(views, i));
            }
        }
        return None;
    }
    let mut i = origin + 1;
    while i < entries.len()
        invariant
            views == entry_views(entries@),
            origin < i <= views.len(),
            forall|j: int| origin < j < i ==> !is_track_at(views, j),
        decreases views.len() - i,
    {
        assert(views[i as int] == entries@[i as int]@);
        if entries[i].kind == EntryKind::Track {
            proof {
                lemma_next_track_first(views, origin as int, i as int);
            }
            return Some(i);
        }
        i = i + 1;
    }
    proof {
        if exists|k: int| origin < k && is_track_at(views, k) {
            let k = choose|k: int| origin < k && is_track_at(views, k);
            assert(!is_track_at(views, k));
        }
    }
    None
}

/// The last track before position `origin`.
fn previous_track_from(entries: &Vec<Entry>, origin: usize) -> (index: Option<usize>)
    ensures
        match index {
            Some(i) => previous_track_before(entry_views(entries@), origin as int) == Some(
                i as int,
            ),
            None => previous_track_before(entry_views(entries@), origin as int) is None,
        },
{
    let ghost views = entry_views(entries@);
    let mut i = if origin < entries.len() {
        origin
    } else {
        entries.len()
    };
    while i > 0
        invariant
            views == entry_views(entries@),
            i <= views.len(),
            i <= origin,
            forall|j: int| i <= j < origin ==> !is_track_at(views, j),
        decreases i,
    {
        assert(views[i - 1] == entries@[i - 1]@);
        if entries[i - 1].kind == EntryKind::Track {
            proof {
                lemma_previous_track_last(views, origin as int, i - 1);
            }
            return Some(i - 1);
        }
        i = i - 1;
    }
    proof {
        if exists|k: int| k < origin && is_track_at(views, k) {
            let k = choose|k: int| k < origin && is_track_at(views, k);
            assert(!is_track_at(views, k));
        }
    }
    None
}

pub open spec fn adjacent_track_spec(s: AppView, forward: bool) -> Option<int> {
    if forward {
        next_track_after(s.entries, navigation_origin(s))
    } else {
        previous_track_before(s.entries, navigation_origin(s))
    }
}

pub open spec fn play_adjacent_spec(s: AppView, forward: bool) -> (AppView, Seq<EffectView>) {
    match adjacent_track_spec(s, forward) {
        Some(index) => begin_play_spec(AppView { selected: index as usize, ..s }, index as usize),
        None => (
            AppView {
                status: if forward {
                    "No next track in this folder."@
                } else {
                    "No previous track in this folder."@
                },
                ..s
            },
            no_effects(),
        ),
    }
}

pub open spec fn open_credentials_spec(s: AppView) -> (AppView, Seq<EffectView>) {
    let (stopped, effects) = stop_spec(s);
    (
        AppView {
            generation: next_generation_spec(stopped.generation),
            busy: false,
            storage: None,
            entries: Seq::empty(),
            prefix: Seq::empty(),
            selected: 0,
            screen: Screen::Credentials,
            show_visualizer: false,
            status: "Enter credentials for an S3-compatible bucket."@,
            ..stopped
        },
        effects,
    )
}

/// The form with the focused field's text replaced.
pub open spec fn edit_focused(s: AppView, text: Seq<char>) -> AppView {
    let field = field_at(s.credentials.selected as int);
    AppView { credentials: s.credentials.with_value(field, text), ..s }
}

pub open spec fn focused_text(s: AppView) -> Seq<char> {
    s.credentials.value(field_at(s.credentials.selected as int))
}

pub open spec fn with_focus(s: AppView, selected: int) -> AppView {
    AppView { credentials: CredentialFormView { selected: selected as usize, ..s.credentials }, ..s }
}

/// A key on the connection screen: the state, the effects, and whether to quit.
pub open spec fn credentials_key_spec(s: AppView, key: KeyEvent) -> (AppView, Seq<EffectView>, bool) {
    match key.code {
        KeyCode::Esc => (s, no_effects(), true),
        KeyCode::Tab | KeyCode::Down => (
            with_focus(s, (s.credentials.selected + 1) % (FIELD_COUNT as int)),
            no_effects(),
            false,
        ),
        KeyCode::BackTab | KeyCode::Up => (
            with_focus(
                s,
                if s.credentials.selected == 0 {
                    FIELD_COUNT - 1
                } else {
                    s.credentials.selected - 1
                },
            ),
            no_effects(),
            false,
        ),
        KeyCode::Enter => {
            let (next, effects) = begin_connect_spec(s);
            (next, effects, false)
        },
        KeyCode::Backspace => {
            let text = focused_text(s);
            (
                edit_focused(
                    s,
                    if text.len() == 0 {
                        text
                    } else {
                        text.drop_last()
                    },
                ),
                no_effects(),
                false,
            )
        },
        KeyCode::Char(ch) => if ch == 'u' && key.modifiers.control {
            (edit_focused(s, Seq::empty()), no_effects(), false)
        } else if plain_or_shift(key.modifiers) {
            (edit_focused(s, focused_text(s).push(ch)), no_effects(), false)
        } else {
            (s, no_effects(), false)
        },
        _ => (s, no_effects(), false),
    }
}

/// A character key in the library browser.
pub open spec fn browser_char_spec(s: AppView, ch: char, player: PlayerStatus) -> (
    AppView,
    Seq<EffectView>,
    bool,
) {
    if ch == 'q' {
        (s, no_effects(), true)
    } else if ch == 'k' {
        (change_selection_spec(s, -1), no_effects(), false)
    } else if ch == 'j' {
        (change_selection_spec(s, 1), no_effects(), false)
    } else if ch == 'l' {
        let (next, effects) = activate_selected_spec(s);
        (next, effects, false)
    } else if ch == 'h' {
        let (next, effects) = go_to_parent_spec(s);
        (next, effects, false)
    } else if ch == ' ' {
        let (next, effects) = toggle_pause_spec(s, player);
        (next, effects, false)
    } else if ch == '+' || ch == '=' {
        let (next, effects) = change_volume_spec(s, 5);
        (next, effects, false)
    } else if ch == '-' {
        let (next, effects) = change_volume_spec(s, -5);
        (next, effects, false)
    } else if ch == 'n' {
        let (next, effects) = play_adjacent_spec(s, true);
        (next, effects, false)
    } else if ch == 'p' {
        let (next, effects) = play_adjacent_spec(s, false);
        (next, effects, false)
    } else if ch == 'x' {
        let (next, effects) = stop_spec(s);
        (next, effects, false)
    } else if ch == 'o' || ch == 'O' {
        (cycle_repeat_mode_spec(s), no_effects(), false)
    } else if ch == 'v' || ch == 'V' {
        (toggle_visualizer_spec(s), no_effects(), false)
    } else if ch == 'r' {
        let (next, effects) = begin_list_spec(s, s.prefix);
        (next, effects, false)
    } else if ch == 'c' {
        let (next, effects) = open_credentials_spec(s);
        (next, effects, false)
    } else {
        (s, no_effects(), false)
    }
}

/// A key in the library browser: the state, the effects, and whether to quit.
pub open spec fn browser_key_spec(s: AppView, key: KeyEvent, player: PlayerStatus) -> (
    AppView,
    Seq<EffectView>,
    bool,
) {
    match key.code {
        KeyCode::Esc => (s, no_effects(), true),
        KeyCode::Up => (change_selection_spec(s, -1), no_effects(), false),
        KeyCode::Down => (change_selection_spec(s, 1), no_effects(), false),
        KeyCode::PageUp => (change_selection_spec(s, -10), no_effects(), false),
        KeyCode::PageDown => (change_selection_spec(s, 10), no_effects(), false),
        KeyCode::Home => (AppView { selected: 0, ..s }, no_effects(), false),
        KeyCode::End => if s.entries.len() > 0 {
            (AppView { selected: (s.entries.len() - 1) as usize, ..s }, no_effects(), false)
        } else {
            (s, no_effects(), false)
        },
        KeyCode::Enter | KeyCode::Right => {
            let (next, effects) = activate_selected_spec(s);
            (next, effects, false)
        },
        KeyCode::Left | KeyCode::Backspace => {
            let (next, effects) = go_to_parent_spec(s);
            (next, effects, false)
        },
        KeyCode::Char(ch) => browser_char_spec(s, ch, player),
        _ => (s, no_effects(), false),
    }
}

/// Any key: Control+C quits on both screens.
pub open spec fn key_spec(s: AppView, key: KeyEvent, player: PlayerStatus) -> (
    AppView,
    Seq<EffectView>,
    bool,
) {
    if key.modifiers.control && key.code == KeyCode::Char('c') {
        (s, no_effects(), true)
    } else {
        match s.screen {
            Screen::Credentials => credentials_key_spec(s, key),
            Screen::Browser => browser_key_spec(s, key, player),
        }
    }
}

/// The state after a download or replay finished, for the current generation.
pub open spec fn track_ready_spec(
    s: AppView,
    index: usize,
    key: Seq<char>,
    name: Seq<char>,
    result: Result<Option<Duration>, Seq<char>>,
    output: Result<(), Seq<char>>,
    player: PlayerStatus,
) -> (AppView, Seq<EffectView>) {
    let settled = AppView { track_task: false, pending_track: None, busy: false, ..s };
    match result {
        Ok(duration) => match output {
            Err(message) => (
                AppView { status: "Could not open audio output: "@ + message, ..settled },
                no_effects(),
            ),
            Ok(()) => {
                let last: int = if s.entries.len() == 0 {
                    0
                } else {
                    s.entries.len() - 1
                };
                (
                    AppView {
                        selected: (if index < last {
                            index as int
                        } else {
                            last
                        }) as usize,
                        now_playing: Some(TrackView { key, name, duration }),
                        paused: false,
                        completed: false,
                        finished_handled: false,
                        status: "Playing "@ + name,
                        ..settled
                    },
                    seq![EffectView::Play],
                )
            },
        },
        Err(message) => (
            AppView { completed: player.open && player.finished, status: message, ..settled },
            no_effects(),
        ),
    }
}

/// An event: the state, the effects, and whether to quit. Results of outside
/// work count only when they carry the current generation.
pub open spec fn event_spec(s: AppView, event: EventView, player: PlayerStatus) -> (
    AppView,
    Seq<EffectView>,
    bool,
) {
    match event {
        EventView::Key(key) => key_spec(s, key, player),
        EventView::Connected { generation, result } => if generation != s.generation {
            (s, no_effects(), false)
        } else {
            match result {
                Ok((storage, entries)) => (
                    AppView {
                        busy: false,
                        storage: Some(storage),
                        entries,
                        selected: 0,
                        prefix: Seq::empty(),
                        screen: Screen::Browser,
                        credentials: s.credentials.without_secrets(),
                        status: listing_status_spec(entries.len()),
                        ..s
                    },
                    no_effects(),
                    false,
                ),
                Err(message) => (AppView { busy: false, status: message, ..s }, no_effects(), false),
            }
        },
        EventView::Listed { generation, prefix, result } => if generation != s.generation {
            (s, no_effects(), false)
        } else {
            match result {
                Ok(entries) => (
                    AppView {
                        busy: false,
                        entries,
                        prefix,
                        selected: 0,
                        status: listing_status_spec(entries.len()),
                        ..s
                    },
                    no_effects(),
                    false,
                ),
                Err(message) => (AppView { busy: false, status: message, ..s }, no_effects(), false),
            }
        },
        EventView::TrackReady { generation, index, key, name, result, output } => if generation
            != s.generation {
            (s, no_effects(), false)
        } else {
            let (next, effects) = track_ready_spec(s, index, key, name, result, output, player);
            (next, effects, false)
        },
    }
}

/// A timer tick: the animation advances while a track plays, and a track that
/// finished is replayed or followed by the next track, once.
pub open spec fn tick_spec(s: AppView, player: PlayerStatus) -> (AppView, Seq<EffectView>) {
    let animation_frame = if s.now_playing is Some && !s.paused && !s.completed {
        ((s.animation_frame + 1) % 5) as usize
    } else {
        s.animation_frame
    };
    let t = AppView { animation_frame, ..s };
    if t.now_playing is Some && !t.paused && !t.busy && !t.finished_handled && player.open
        && player.finished {
        let (action, mode) = completion_spec(t.repeat_mode);
        let u = AppView { finished_handled: true, completed: true, repeat_mode: mode, ..t };
        match action {
            CompletionAction::Replay => begin_replay_spec(u),
            CompletionAction::Advance => match adjacent_track_spec(u, true) {
                Some(index) => begin_play_spec(
                    AppView { selected: index as usize, ..u },
                    index as usize,
                ),
                None => (
                    AppView { status: "Finished the last track in this folder."@, ..u },
                    no_effects(),
                ),
            },
        }
    } else {
        (t, no_effects())
    }
}

// ---------------------------------------------------------------------------
// The operations.
// ---------------------------------------------------------------------------

/// The state at start: the connection screen, nothing connected or playing.
pub open spec fn initial_app() -> AppView {
    AppView {
        screen: Screen::Credentials,
        credentials: CredentialFormView {
            endpoint: Seq::empty(),
            region: "auto"@,
            bucket: Seq::empty(),
            access_key: Seq::empty(),
            secret_key: Seq::empty(),
            selected: 0,
        },
        entries: Seq::empty(),
        selected: 0,
        prefix: Seq::empty(),
        status: "Enter your S3-compatible bucket credentials. They are kept in memory only."@,
        busy: false,
        volume: 80,
        paused: false,
        completed: false,
        now_playing: None,
        animation_frame: 0,
        repeat_mode: RepeatMode::Off,
        show_visualizer: false,
        storage: None,
        generation: 0,
        finished_handled: true,
        track_task: false,
        pending_track: None,
    }
}

impl Default for App {
    fn default() -> (app: App)
        ensures
            app@ == initial_app(),
            app@.wf(),
    {
        let app = App {
            screen: Screen::Credentials,
            credentials: CredentialForm::default(),
            entries: Vec::new(),
            selected: 0,
            prefix: String::new(),
            status: owned(
                "Enter your S3-compatible bucket credentials. They are kept in memory only.",
            ),
            busy: false,
            volume: 80,
            paused: false,
            completed: false,
            now_playing: None,
            animation_frame: 0,
            repeat_mode: RepeatMode::Off,
            show_visualizer: false,
            storage: None,
            generation: 0,
            finished_handled: true,
            track_task: false,
            pending_track: None,
        };
        assert(app@.entries =~= Seq::<EntryView>::empty());
        app
    }
}

impl App {
    /// The name of the connected bucket, or the empty text.
    pub fn bucket(&self) -> (name: &str)
        ensures
            name@ == match self@.storage {
                Some(storage) => storage.bucket,
                None => Seq::empty(),
            },
    {
        proof {
            reveal_strlit("");
        }
        match &self.storage {
            Some(storage) => storage.bucket(),
            None => "",
        }
    }

    pub fn next_generation(&mut self) -> (generation: u64)
        ensures
            generation == next_generation_spec(old(self).generation),
            final(self)@ == (AppView { generation, ..old(self)@ }),
    {
        self.generation = if self.generation == u64::MAX {
            0
        } else {
            self.generation + 1
        };
        self.generation
    }

    fn abort_track_task(&mut self, effects: &mut Vec<Effect>)
        ensures
            final(self)@ == (AppView { track_task: false, ..old(self)@ }),
            emitted(old(effects)@, final(effects)@, abort_effects(old(self)@)),
    {
        if self.track_task {
            emit(effects, Effect::AbortTrackTask);
            self.track_task = false;
            assert(effect_views(effects@) =~= effect_views(old(effects)@) + abort_effects(
                old(self)@,
            ));
        } else {
            assert(effect_views(effects@) =~= effect_views(effects@) + Seq::<EffectView>::empty());
        }
    }

    pub fn begin_connect(&mut self, effects: &mut Vec<Effect>)
        ensures
            final(self)@ == begin_connect_spec(old(self)@).0,
            emitted(old(effects)@, final(effects)@, begin_connect_spec(old(self)@).1),
    {
        if self.busy {
            assert(effect_views(effects@) =~= effect_views(effects@) + no_effects());
            return;
        }
        let details = self.credentials.details();
        let generation = self.next_generation();
        self.busy = true;
        self.status = owned("Connecting and reading the bucket root...");
        emit(effects, Effect::Connect { generation, details });
        assert(effect_views(effects@) =~= effect_views(old(effects)@) + begin_connect_spec(
            old(self)@,
        ).1);
    }

    pub fn begin_list(&mut self, prefix: String, effects: &mut Vec<Effect>)
        ensures
            final(self)@ == begin_list_spec(old(self)@, prefix@).0,
            emitted(old(effects)@, final(effects)@, begin_list_spec(old(self)@, prefix@).1),
    {
        if self.busy || self.storage.is_none() {
            assert(effect_views(effects@) =~= effect_views(effects@) + no_effects());
            return;
        }
        let generation = self.next_generation();
        self.busy = true;
        let mut status = owned("Loading /");
        push_text(&mut status, prefix.as_str());
        push_text(&mut status, "...");
        self.status = status;
        emit(effects, Effect::List { generation, prefix });
        assert(effect_views(effects@) =~= effect_views(old(effects)@) + begin_list_spec(
            old(self)@,
            prefix@,
        ).1);
    }

    pub fn begin_play(&mut self, index: usize, effects: &mut Vec<Effect>)
        ensures
            final(self)@ == begin_play_spec(old(self)@, index).0,
            emitted(old(effects)@, final(effects)@, begin_play_spec(old(self)@, index).1),
    {
        if index >= self.entries.len() {
            assert(effect_views(effects@) =~= effect_views(effects@) + no_effects());
            return;
        }
        let kind = self.entries[index].kind;
        let key = self.entries[index].key.clone();
        let name = self.entries[index].name.clone();
        assert(self@.entries[index as int] == self.entries@[index as int]@);
        if kind != EntryKind::Track || self.storage.is_none() {
            assert(effect_views(effects@) =~= effect_views(effects@) + no_effects());
            return;
        }
        self.abort_track_task(effects);
        let ghost after_abort = effects@;
        emit(effects, Effect::StopPlayer);
        self.now_playing = None;
        self.paused = false;
        self.completed = false;
        self.finished_handled = true;
        emit(effects, Effect::ClearSpectrum);
        self.selected = index;
        self.pending_track = Some(index);
        let generation = self.next_generation();
        self.busy = true;
        let mut status = owned("Loading ");
        push_text(&mut status, name.as_str());
        push_text(&mut status, "...");
        self.status = status;
        emit(effects, Effect::Download { generation, index, key, name });
        self.track_task = true;
        assert(effect_views(effects@) =~= effect_views(old(effects)@) + begin_play_spec(
            old(self)@,
            index,
        ).1);
    }

    /// The first position of an entry with this key.
    fn position_of_key(&self, key: &String) -> (position: Option<usize>)
        ensures
            match position {
                Some(i) => key_position(self@.entries, key@) == Some(i as int),
                None => key_position(self@.entries, key@) is None,
            },
    {
        let mut i: usize = 0;
        while i < self.entries.len()
            invariant
                i <= self.entries@.len(),
                forall|j: int| 0 <= j < i ==> self@.entries[j].key != key@,
            decreases self.entries@.len() - i,
        {
            assert(self@.entries[i as int] == self.entries@[i as int]@);
            if self.entries[i].key == *key {
                proof {
                    lemma_key_position_first(self@.entries, key@, i as int);
                }
                return Some(i);
            }
            i = i + 1;
        }
        None
    }

    pub fn begin_replay(&mut self, effects: &mut Vec<Effect>)
        ensures
            final(self)@ == begin_replay_spec(old(self)@).0,
            emitted(old(effects)@, final(effects)@, begin_replay_spec(old(self)@).1),
    {
        if self.busy || self.now_playing.is_none() {
            assert(effect_views(effects@) =~= effect_views(effects@) + no_effects());
            return;
        }
        let (key, name) = match &self.now_playing {
            Some(track) => (track.key.clone(), track.name.clone()),
            None => {
                return;
            },
        };
        let index = match self.position_of_key(&key) {
            Some(i) => i,
            None => self.selected,
        };
        self.abort_track_task(effects);
        let generation = self.next_generation();
        self.busy = true;
        self.pending_track = Some(index);
        let mut status = owned("Looping ");
        push_text(&mut status, name.as_str());
        push_text(&mut status, "...");
        self.status = status;
        emit(effects, Effect::Replay { generation, index, key, name });
        self.track_task = true;
        assert(effect_views(effects@) =~= effect_views(old(effects)@) + begin_replay_spec(
            old(self)@,
        ).1);
    }

    pub fn activate_selected(&mut self, effects: &mut Vec<Effect>)
        ensures
            final(self)@ == activate_selected_spec(old(self)@).0,
            emitted(old(effects)@, final(effects)@, activate_selected_spec(old(self)@).1),
    {
        if self.selected >= self.entries.len() {
            assert(effect_views(effects@) =~= effect_views(effects@) + no_effects());
            return;
        }
        assert(self@.entries[self.selected as int] == self.entries@[self.selected as int]@);
        match self.entries[self.selected].kind {
            EntryKind::Folder => {
                let key = self.entries[self.selected].key.clone();
                self.begin_list(key, effects);
            },
            EntryKind::Track => {
                let index = self.selected;
                self.begin_play(index, effects);
            },
        }
    }

    pub fn go_to_parent(&mut self, effects: &mut Vec<Effect>)
        ensures
            final(self)@ == go_to_parent_spec(old(self)@).0,
            emitted(old(effects)@, final(effects)@, go_to_parent_spec(old(self)@).1),
    {
        let chars = chars_of(self.prefix.as_str());
        if chars.len() == 0 {
            assert(effect_views(effects@) =~= effect_views(effects@) + no_effects());
            return;
        }
        let parent = parent_prefix(self.prefix.as_str());
        self.begin_list(parent, effects);
    }

    pub fn change_selection(&mut self, amount: isize)
        ensures
            final(self)@ == change_selection_spec(old(self)@, amount as int),
    {
        if self.entries.len() == 0 {
            self.selected = 0;
            return;
        }
        let moved: usize = if amount >= 0 {
            self.selected.saturating_add(amount as usize)
        } else {
            let back: usize = (-(amount + 1)) as usize + 1;
            self.selected.saturating_sub(back)
        };
        let last = self.entries.len() - 1;
        self.selected = if moved < last {
            moved
        } else {
            last
        };
    }

    pub fn change_volume(&mut self, amount: i16, effects: &mut Vec<Effect>)
        ensures
            final(self)@ == change_volume_spec(old(self)@, amount as int).0,
            emitted(old(effects)@, final(effects)@, change_volume_spec(old(self)@, amount as int).1),
    {
        let total: i32 = self.volume as i32 + amount as i32;
        let volume: u8 = if total < 0 {
            0
        } else if total > 100 {
            100
        } else {
            total as u8
        };
        self.volume = volume;
        emit(effects, Effect::SetVolume(volume));
        let mut status = owned("Volume ");
        push_decimal(&mut status, volume as u64);
        push_text(&mut status, "%");
        self.status = status;
        assert(effect_views(effects@) =~= effect_views(old(effects)@) + change_volume_spec(
            old(self)@,
            amount as int,
        ).1);
    }

    pub fn cycle_repeat_mode(&mut self)
        ensures
            final(self)@ == cycle_repeat_mode_spec(old(self)@),
    {
        self.repeat_mode = self.repeat_mode.cycle();
        self.status = match self.repeat_mode {
            RepeatMode::Off => owned("Loop mode: off."),
            RepeatMode::Once => owned("Loop mode: replay the current track once."),
            RepeatMode::Forever => owned("Loop mode: replay the current track forever."),
        };
    }

    pub fn toggle_visualizer(&mut self)
        ensures
            final(self)@ == toggle_visualizer_spec(old(self)@),
    {
        self.show_visualizer = !self.show_visualizer;
        self.status = if self.show_visualizer {
            owned("FFT visualizer enabled. Press V to return to the library.")
        } else {
            owned("Library view enabled. Press V for the FFT visualizer.")
        };
    }

    /// Pauses or resumes playback; `player` is what the audio output reports.
    pub fn toggle_pause(&mut self, player: PlayerStatus, effects: &mut Vec<Effect>)
        ensures
            final(self)@ == toggle_pause_spec(old(self)@, player).0,
            emitted(old(effects)@, final(effects)@, toggle_pause_spec(old(self)@, player).1),
    {
        if !player.open || self.now_playing.is_none() || self.completed {
            assert(effect_views(effects@) =~= effect_views(effects@) + no_effects());
            return;
        }
        emit(effects, Effect::TogglePause);
        self.paused = !player.paused;
        self.status = if self.paused {
            owned("Paused")
        } else {
            owned("Playing")
        };
        assert(effect_views(effects@) =~= effect_views(old(effects)@) + toggle_pause_spec(
            old(self)@,
            player,
        ).1);
    }

    pub fn stop(&mut self, effects: &mut Vec<Effect>)
        ensures
            final(self)@ == stop_spec(old(self)@).0,
            emitted(old(effects)@, final(effects)@, stop_spec(old(self)@).1),
    {
        if self.track_task {
            emit(effects, Effect::AbortTrackTask);
            self.track_task = false;
            self.next_generation();
        }
        self.pending_track = None;
        self.busy = false;
        emit(effects, Effect::StopPlayer);
        self.now_playing = None;
        self.paused = false;
        self.completed = false;
        self.finished_handled = true;
        emit(effects, Effect::ClearSpectrum);
        self.status = owned("Stopped");
        assert(effect_views(effects@) =~= effect_views(old(effects)@) + stop_spec(old(self)@).1);
    }

    /// The position that next and previous count from.
    fn navigation_origin(&self) -> (origin: usize)
        ensures
            origin as int == navigation_origin(self@),
    {
        match self.pending_track {
            Some(index) => index,
            None => match &self.now_playing {
                Some(track) => match self.position_of_key(&track.key) {
                    Some(index) => index,
                    None => self.selected,
                },
                None => self.selected,
            },
        }
    }

    /// The track that next (`forward`) or previous plays.
    pub fn adjacent_track(&self, forward: bool) -> (index: Option<usize>)
        ensures
            match index {
                Some(i) => adjacent_track_spec(self@, forward) == Some(i as int),
                None => adjacent_track_spec(self@, forward) is None,
            },
    {
        let origin = self.navigation_origin();
        if forward {
            next_track_from(&self.entries, origin)
        } else {
            previous_track_from(&self.entries, origin)
        }
    }

    pub fn play_adjacent(&mut self, forward: bool, effects: &mut Vec<Effect>)
        ensures
            final(self)@ == play_adjacent_spec(old(self)@, forward).0,
            emitted(old(effects)@, final(effects)@, play_adjacent_spec(old(self)@, forward).1),
    {
        match self.adjacent_track(forward) {
            Some(index) => {
                self.selected = index;
                self.begin_play(index, effects);
            },
            None => {
                self.status = if forward {
                    owned("No next track in this folder.")
                } else {
                    owned("No previous track in this folder.")
                };
                assert(effect_views(effects@) =~= effect_views(effects@) + no_effects());
            },
        }
    }

    pub fn open_credentials(&mut self, effects: &mut Vec<Effect>)
        ensures
            final(self)@ == open_credentials_spec(old(self)@).0,
            emitted(old(effects)@, final(effects)@, open_credentials_spec(old(self)@).1),
    {
        self.stop(effects);
        self.next_generation();
        self.busy = false;
        self.storage = None;
        self.entries.clear();
        self.prefix.clear();
        self.selected = 0;
        self.screen = Screen::Credentials;
        self.show_visualizer = false;
        self.status = owned("Enter credentials for an S3-compatible bucket.");
        assert(self@.entries =~= Seq::<EntryView>::empty());
    }

    /// A key on the connection screen; returns whether to quit.
    pub fn handle_credentials_key(&mut self, key: KeyEvent, effects: &mut Vec<Effect>) -> (quit: bool)
        requires
            edits_focused_field(key) ==> old(self).credentials.selected < FIELD_COUNT,
        ensures
            (final(self)@, quit) == (credentials_key_spec(old(self)@, key).0, credentials_key_spec(old(self)@, key).2),
            emitted(old(effects)@, final(effects)@, credentials_key_spec(old(self)@, key).1),
    {
        let ghost unchanged = effect_views(effects@) =~= effect_views(effects@) + no_effects();
        assert(unchanged);
        match key.code {
            KeyCode::Esc => {
                return true;
            },
            KeyCode::Tab | KeyCode::Down => {
                let selected = self.credentials.selected;
                assert((selected % 5 + 1) % 5 == (selected + 1) % 5) by (nonlinear_arith);
                self.credentials.selected = (selected % FIELD_COUNT + 1) % FIELD_COUNT;
            },
            KeyCode::BackTab | KeyCode::Up => {
                self.credentials.selected = if self.credentials.selected == 0 {
                    FIELD_COUNT - 1
                } else {
                    self.credentials.selected - 1
                };
            },
            KeyCode::Enter => self.begin_connect(effects),
            KeyCode::Backspace => {
                let field = CredentialField::at(self.credentials.selected);
                self.credentials.value_mut(field).pop();
            },
            KeyCode::Char(ch) => {
                if ch == 'u' && key.modifiers.control {
                    let field = CredentialField::at(self.credentials.selected);
                    self.credentials.value_mut(field).clear();
                } else if !key.modifiers.control && !key.modifiers.other {
                    let field = CredentialField::at(self.credentials.selected);
                    self.credentials.value_mut(field).push(ch);
                }
            },
            _ => {},
        }
        false
    }

    /// A character key in the library browser; returns whether to quit.
    fn handle_browser_char(&mut self, ch: char, player: PlayerStatus, effects: &mut Vec<Effect>) -> (quit: bool)
        ensures
            (final(self)@, quit) == (browser_char_spec(old(self)@, ch, player).0, browser_char_spec(old(self)@, ch, player).2),
            emitted(old(effects)@, final(effects)@, browser_char_spec(old(self)@, ch, player).1),
    {
        assert(effect_views(effects@) =~= effect_views(effects@) + no_effects());
        if ch == 'q' {
            return true;
        } else if ch == 'k' {
            self.change_selection(-1);
        } else if ch == 'j' {
            self.change_selection(1);
        } else if ch == 'l' {
            self.activate_selected(effects);
        } else if ch == 'h' {
            self.go_to_parent(effects);
        } else if ch == ' ' {
            self.toggle_pause(player, effects);
        } else if ch == '+' || ch == '=' {
            self.change_volume(5, effects);
        } else if ch == '-' {
            self.change_volume(-5, effects);
        } else if ch == 'n' {
            self.play_adjacent(true, effects);
        } else if ch == 'p' {
            self.play_adjacent(false, effects);
        } else if ch == 'x' {
            self.stop(effects);
        } else if ch == 'o' || ch == 'O' {
            self.cycle_repeat_mode();
        } else if ch == 'v' || ch == 'V' {
            self.toggle_visualizer();
        } else if ch == 'r' {
            let prefix = self.prefix.clone();
            self.begin_list(prefix, effects);
        } else if ch == 'c' {
            self.open_credentials(effects);
        }
        false
    }

    /// A key in the library browser; returns whether to quit.
    pub fn handle_browser_key(&mut self, key: KeyEvent, player: PlayerStatus, effects: &mut Vec<Effect>) -> (quit: bool)
        ensures
            (final(self)@, quit) == (browser_key_spec(old(self)@, key, player).0, browser_key_spec(old(self)@, key, player).2),
            emitted(old(effects)@, final(effects)@, browser_key_spec(old(self)@, key, player).1),
    {
        assert(effect_views(effects@) =~= effect_views(effects@) + no_effects());
        match key.code {
            KeyCode::Esc => {
                return true;
            },
            KeyCode::Up => self.change_selection(-1),
            KeyCode::Down => self.change_selection(1),
            KeyCode::PageUp => self.change_selection(-10),
            KeyCode::PageDown => self.change_selection(10),
            KeyCode::Home => self.selected = 0,
            KeyCode::End => {
                if self.entries.len() > 0 {
                    self.selected = self.entries.len() - 1;
                }
            },
            KeyCode::Enter | KeyCode::Right => self.activate_selected(effects),
            KeyCode::Left | KeyCode::Backspace => self.go_to_parent(effects),
            KeyCode::Char(ch) => {
                return self.handle_browser_char(ch, player, effects);
            },
            _ => {},
        }
        false
    }

    /// A key on either screen; returns whether to quit.
    pub fn handle_key(&mut self, key: KeyEvent, player: PlayerStatus, effects: &mut Vec<Effect>) -> (quit: bool)
        requires
            old(self).screen == Screen::Credentials && edits_focused_field(key)
                ==> old(self).credentials.selected < FIELD_COUNT,
        ensures
            (final(self)@, quit) == (key_spec(old(self)@, key, player).0, key_spec(old(self)@, key, player).2),
            emitted(old(effects)@, final(effects)@, key_spec(old(self)@, key, player).1),
    {
        if key.modifiers.control && key.code == KeyCode::Char('c') {
            assert(effect_views(effects@) =~= effect_views(effects@) + no_effects());
            return true;
        }
        match self.screen {
            Screen::Credentials => self.handle_credentials_key(key, effects),
            Screen::Browser => self.handle_browser_key(key, player, effects),
        }
    }

    /// Takes a download's or replay's outcome for the current generation.
    fn track_ready(
        &mut self,
        index: usize,
        key: String,
        name: String,
        result: Result<Option<Duration>, String>,
        output: Result<(), String>,
        player: PlayerStatus,
        effects: &mut Vec<Effect>,
    )
        ensures
            final(self)@ == track_ready_spec(old(self)@, index, key@, name@, match result {
                Ok(duration) => Ok(duration),
                Err(message) => Err(message@),
            }, match output {
                Ok(()) => Ok(()),
                Err(message) => Err(message@),
            }, player).0,
            emitted(old(effects)@, final(effects)@, track_ready_spec(old(self)@, index, key@, name@, match result {
                Ok(duration) => Ok(duration),
                Err(message) => Err(message@),
            }, match output {
                Ok(()) => Ok(()),
                Err(message) => Err(message@),
            }, player).1),
    {
        self.track_task = false;
        self.pending_track = None;
        self.busy = false;
        match result {
            Ok(duration) => match output {
                Err(message) => {
                    let mut status = owned("Could not open audio output: ");
                    push_text(&mut status, message.as_str());
                    self.status = status;
                    assert(effect_views(effects@) =~= effect_views(effects@) + no_effects());
                },
                Ok(()) => {
                    emit(effects, Effect::Play);
                    let last = if self.entries.len() == 0 {
                        0
                    } else {
                        self.entries.len() - 1
                    };
                    self.selected = if index < last {
                        index
                    } else {
                        last
                    };
                    let mut status = owned("Playing ");
                    push_text(&mut status, name.as_str());
                    self.now_playing = Some(CurrentTrack { key, name, duration });
                    self.paused = false;
                    self.completed = false;
                    self.finished_handled = false;
                    self.status = status;
                    assert(effect_views(effects@) =~= effect_views(old(effects)@) + seq![EffectView::Play]);
                },
            },
            Err(message) => {
                self.completed = player.open && player.finished;
                self.status = message;
                assert(effect_views(effects@) =~= effect_views(effects@) + no_effects());
            },
        }
    }

    /// Takes an event; returns whether to quit. `player` is what the audio
    /// output reports.
    pub fn handle_event(&mut self, event: Event, player: PlayerStatus, effects: &mut Vec<Effect>) -> (quit: bool)
        requires
            event@ matches EventView::Key(key) && old(self).screen == Screen::Credentials
                && edits_focused_field(key) ==> old(self).credentials.selected < FIELD_COUNT,
        ensures
            (final(self)@, quit) == (event_spec(old(self)@, event@, player).0, event_spec(old(self)@, event@, player).2),
            emitted(old(effects)@, final(effects)@, event_spec(old(self)@, event@, player).1),
            old(self)@.wf() ==> final(self)@.wf(),
    {
        assert(self@.wf() ==> event_spec(self@, event@, player).0.wf()) by {
            if self@.wf() {
                crate::laws::law_events_keep_wf(self@, event@, player);
            }
        }
        match event {
            Event::Key(key) => {
                return self.handle_key(key, player, effects);
            },
            Event::Connected { generation, result } => {
                assert(effect_views(effects@) =~= effect_views(effects@) + no_effects());
                if generation == self.generation {
                    self.busy = false;
                    match result {
                        Ok((storage, entries)) => {
                            let count = entries.len();
                            self.storage = Some(storage);
                            self.entries = entries;
                            self.selected = 0;
                            self.prefix.clear();
                            self.screen = Screen::Browser;
                            self.credentials.clear_sensitive();
                            self.status = listing_status(count);
                        },
                        Err(message) => self.status = message,
                    }
                }
            },
            Event::Listed { generation, prefix, result } => {
                assert(effect_views(effects@) =~= effect_views(effects@) + no_effects());
                if generation == self.generation {
                    self.busy = false;
                    match result {
                        Ok(entries) => {
                            let count = entries.len();
                            self.entries = entries;
                            self.prefix = prefix;
                            self.selected = 0;
                            self.status = listing_status(count);
                        },
                        Err(message) => self.status = message,
                    }
                }
            },
            Event::TrackReady { generation, index, key, name, result, output } => {
                if generation == self.generation {
                    self.track_ready(index, key, name, result, output, player, effects);
                } else {
                    assert(effect_views(effects@) =~= effect_views(effects@) + no_effects());
                }
            },
        }
        false
    }

    /// A timer tick; `player` is what the audio output reports.
    pub fn tick(&mut self, player: PlayerStatus, effects: &mut Vec<Effect>)
        ensures
            final(self)@ == tick_spec(old(self)@, player).0,
            emitted(old(effects)@, final(effects)@, tick_spec(old(self)@, player).1),
            old(self)@.wf() ==> final(self)@.wf(),
    {
        proof {
            if self@.wf() {
                crate::laws::law_ticks_keep_wf(self@, player);
            }
        }
        if self.now_playing.is_some() && !self.paused && !self.completed {
            let frame = self.animation_frame;
            assert((frame % 5 + 1) % 5 == (frame + 1) % 5) by (nonlinear_arith);
            self.animation_frame = (frame % 5 + 1) % 5;
        }
        let finished = player.open && player.finished;
        if self.now_playing.is_some() && !self.paused && !self.busy && !self.finished_handled
            && finished {
            self.finished_handled = true;
            self.completed = true;
            match completion_action(&mut self.repeat_mode) {
                CompletionAction::Replay => self.begin_replay(effects),
                CompletionAction::Advance => {
                    match self.adjacent_track(true) {
                        Some(index) => {
                            self.selected = index;
                            self.begin_play(index, effects);
                        },
                        None => {
                            self.status = owned("Finished the last track in this folder.");
                            assert(effect_views(effects@) =~= effect_views(effects@) + no_effects());
                        },
                    }
                },
            }
        } else {
            assert(effect_views(effects@) =~= effect_views(effects@) + no_effects());
        }
    }
}

} // verus!
