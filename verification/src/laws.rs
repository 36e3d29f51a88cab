//! Properties of the library as a whole, stated over the transitions and
//! proved.
use crate::app::{
    begin_play_spec, browser_char_spec, browser_key_spec, change_volume_spec, completion_spec,
    credentials_key_spec, cycle_repeat_mode_spec, event_spec, is_track_at, key_spec,
    next_track_after, parent_prefix_spec, play_adjacent_spec, previous_track_before,
    adjacent_track_spec, stop_spec, tick_spec, AppView, CompletionAction, EffectView, EventView,
    KeyCode, KeyEvent, PlayerStatus, RepeatMode, field_at, lemma_key_position_first,
    lemma_next_track_first, lemma_previous_track_last, navigation_origin, KeyModifiers, Screen,
    TrackView, FIELD_COUNT,
};
use crate::listing::{
    dedup_entries, folder_entries, goes_before, insert_sorted, same_object, sort_entries,
    track_entries,
};
use crate::storage::{
    connect_settings, connect_spec, endpoint_candidate, is_audio_key_spec, kind_rank,
    lemma_trim_end_char_keeps_prefix, lemma_trim_end_char_last, ConnectionDetailsView, EntryKind,
    EntryView, StorageView,
};
use crate::text::{has_part, trim_spec};
use std::time::Duration;
use crate::text::{
    ascii_lower, ascii_lower_text, has_char, is_last_index_of, last_index_of, trim_end_char,
    lemma_text_less_asymmetric, lemma_text_less_irreflexive, lemma_text_less_total,
    lemma_text_less_transitive, lowercase_text,
};
use vstd::prelude::*;

verus! {

// ---------------------------------------------------------------------------
// Positions found by search lie on a track.
// ---------------------------------------------------------------------------

proof fn lemma_first_track_exists(entries: Seq<EntryView>, origin: int, i: int)
    requires
        origin < i,
        is_track_at(entries, i),
    ensures
        exists|k: int|
            origin < k && is_track_at(entries, k) && forall|j: int|
                origin < j < k ==> !is_track_at(entries, j),
    decreases i - origin,
{
    if exists|j: int| origin < j < i && is_track_at(entries, j) {
        let j = choose|j: int| origin < j < i && is_track_at(entries, j);
        lemma_first_track_exists(entries, origin, j);
    } else {
        assert(origin < i && is_track_at(entries, i) && forall|j: int|
            origin < j < i ==> !is_track_at(entries, j));
    }
}

proof fn lemma_last_track_exists(entries: Seq<EntryView>, end: int, i: int)
    requires
        i < end,
        is_track_at(entries, i),
    ensures
        exists|k: int|
            k < end && is_track_at(entries, k) && forall|j: int| k < j < end ==> !is_track_at(entries, j),
    decreases end - i,
{
    if exists|j: int| i < j < end && is_track_at(entries, j) {
        let j = choose|j: int| i < j < end && is_track_at(entries, j);
        lemma_last_track_exists(entries, end, j);
    } else {
        assert(i < end && is_track_at(entries, i) && forall|j: int|
            i < j < end ==> !is_track_at(entries, j));
    }
}

/// Next and previous always name a track of the folder.
pub proof fn law_adjacent_track_is_a_track(s: AppView, forward: bool)
    ensures
        adjacent_track_spec(s, forward) matches Some(i) ==> is_track_at(s.entries, i),
{
    let origin = crate::app::navigation_origin(s);
    if forward {
        if exists|i: int| origin < i && is_track_at(s.entries, i) {
            let i = choose|i: int| origin < i && is_track_at(s.entries, i);
            lemma_first_track_exists(s.entries, origin, i);
        }
    } else {
        if exists|i: int| i < origin && is_track_at(s.entries, i) {
            let i = choose|i: int| i < origin && is_track_at(s.entries, i);
            lemma_last_track_exists(s.entries, origin, i);
        }
    }
}

// ---------------------------------------------------------------------------
// Every operation keeps the state well formed.
// ---------------------------------------------------------------------------

proof fn lemma_play_adjacent_wf(s: AppView, forward: bool)
    requires
        s.wf(),
    ensures
        play_adjacent_spec(s, forward).0.wf(),
{
    law_adjacent_track_is_a_track(s, forward);
}

#[verifier::spinoff_prover]
#[verifier::rlimit(40)]
proof fn lemma_browser_char_wf(s: AppView, ch: char, player: PlayerStatus)
    requires
        s.wf(),
    ensures
        browser_char_spec(s, ch, player).0.wf(),
{
    if ch == 'n' {
        lemma_play_adjacent_wf(s, true);
    } else if ch == 'p' {
        lemma_play_adjacent_wf(s, false);
    }
}

proof fn lemma_credentials_key_wf(s: AppView, key: KeyEvent)
    requires
        s.wf(),
    ensures
        credentials_key_spec(s, key).0.wf(),
{
}

proof fn lemma_browser_key_wf(s: AppView, key: KeyEvent, player: PlayerStatus)
    requires
        s.wf(),
    ensures
        browser_key_spec(s, key, player).0.wf(),
{
    if let KeyCode::Char(ch) = key.code {
        lemma_browser_char_wf(s, ch, player);
    }
}

/// Every key keeps the state well formed.
pub proof fn law_keys_keep_wf(s: AppView, key: KeyEvent, player: PlayerStatus)
    requires
        s.wf(),
    ensures
        key_spec(s, key, player).0.wf(),
{
    lemma_credentials_key_wf(s, key);
    lemma_browser_key_wf(s, key, player);
}

/// Every event keeps the state well formed: the focused field and the
/// animation frame stay valid positions, the volume stays within 0..=100, and
/// the selection stays on an entry when there is one.
pub proof fn law_events_keep_wf(s: AppView, event: EventView, player: PlayerStatus)
    requires
        s.wf(),
    ensures
        event_spec(s, event, player).0.wf(),
{
    if let EventView::Key(key) = event {
        law_keys_keep_wf(s, key, player);
    }
}

/// Every tick keeps the state well formed.
pub proof fn law_ticks_keep_wf(s: AppView, player: PlayerStatus)
    requires
        s.wf(),
    ensures
        tick_spec(s, player).0.wf(),
{
    let animation_frame = if s.now_playing is Some && !s.paused && !s.completed {
        ((s.animation_frame + 1) % 5) as usize
    } else {
        s.animation_frame
    };
    let t = AppView { animation_frame, ..s };
    let (action, mode) = completion_spec(t.repeat_mode);
    let u = AppView { finished_handled: true, completed: true, repeat_mode: mode, ..t };
    law_adjacent_track_is_a_track(u, true);
}

// ---------------------------------------------------------------------------
// Latest request wins.
// ---------------------------------------------------------------------------

/// Results that carry another generation than the current one change nothing
/// and ask for nothing.
pub proof fn law_stale_results_are_ignored(s: AppView, event: EventView, player: PlayerStatus)
    requires
        match event {
            EventView::Key(_) => false,
            EventView::Connected { generation, .. } => generation != s.generation,
            EventView::Listed { generation, .. } => generation != s.generation,
            EventView::TrackReady { generation, .. } => generation != s.generation,
        },
    ensures
        event_spec(s, event, player) == (s, Seq::<EffectView>::empty(), false),
{
}

/// A track that starts loading makes every earlier request stale: its result,
/// which carries the earlier generation, is ignored from then on.
pub proof fn law_new_track_supersedes_earlier_requests(
    s: AppView,
    index: usize,
    event: EventView,
    player: PlayerStatus,
)
    requires
        begin_play_spec(s, index).1.len() > 0,
        match event {
            EventView::Key(_) => false,
            EventView::Connected { generation, .. } => generation == s.generation,
            EventView::Listed { generation, .. } => generation == s.generation,
            EventView::TrackReady { generation, .. } => generation == s.generation,
        },
    ensures
        event_spec(begin_play_spec(s, index).0, event, player) == (
            begin_play_spec(s, index).0,
            Seq::<EffectView>::empty(),
            false,
        ),
{
}

/// Starting a track while another loads abandons the obsolete task first and
/// stops the audio output, so that only the last request plays.
pub proof fn law_new_track_abandons_the_obsolete_task(s: AppView, index: usize)
    requires
        s.track_task,
        begin_play_spec(s, index).1.len() > 0,
    ensures
        begin_play_spec(s, index).1[0] == EffectView::AbortTrackTask,
        begin_play_spec(s, index).1[1] == EffectView::StopPlayer,
{
}

/// Rapid next presses count from the track that is being loaded, not from the
/// one that played before.
pub proof fn law_next_counts_from_the_pending_track(s: AppView, pending: usize)
    requires
        s.pending_track == Some(pending),
    ensures
        adjacent_track_spec(s, true) == next_track_after(s.entries, pending as int),
        adjacent_track_spec(s, false) == previous_track_before(s.entries, pending as int),
{
}

// ---------------------------------------------------------------------------
// Loop modes.
// ---------------------------------------------------------------------------

/// Loop Once replays the current track one more time, then returns to normal
/// advancement.
pub proof fn law_loop_once_replays_once()
    ensures
        completion_spec(RepeatMode::Once) == (CompletionAction::Replay, RepeatMode::Off),
        completion_spec(completion_spec(RepeatMode::Once).1).0 == CompletionAction::Advance,
{
}

/// Loop Forever replays the track at every end and stays on.
pub proof fn law_loop_forever_keeps_replaying(mode: RepeatMode)
    requires
        mode == RepeatMode::Forever,
    ensures
        completion_spec(mode) == (CompletionAction::Replay, mode),
{
}

/// A looped track is prepared again from its cached download: the tick that
/// handles its end asks for a replay of the current track, not for a download.
pub proof fn law_loop_replays_without_downloading(s: AppView, player: PlayerStatus)
    requires
        s.now_playing is Some,
        !s.paused,
        !s.busy,
        !s.finished_handled,
        player.open && player.finished,
        s.repeat_mode != RepeatMode::Off,
    ensures
        tick_spec(s, player).1.last() matches EffectView::Replay { key, .. } && key
            == s.now_playing.unwrap().key,
        forall|i: int|
            0 <= i < tick_spec(s, player).1.len() ==> !(#[trigger] tick_spec(s, player).1[i] is Download),
{
}

/// With the loop off, a finished track is followed by the next one.
pub proof fn law_loop_off_advances(mode: RepeatMode)
    requires
        mode == RepeatMode::Off,
    ensures
        completion_spec(mode) == (CompletionAction::Advance, mode),
{
}

/// The loop mode key cycles Off, Once, Forever and back.
pub proof fn law_loop_mode_cycles(s: AppView)
    ensures
        cycle_repeat_mode_spec(cycle_repeat_mode_spec(cycle_repeat_mode_spec(s))).repeat_mode
            == s.repeat_mode,
        cycle_repeat_mode_spec(s).repeat_mode != s.repeat_mode,
{
}

/// Two ticks with the same report of the audio output never act twice on a
/// finished track: the second asks for nothing.
pub proof fn law_finished_track_is_handled_once(s: AppView, player: PlayerStatus)
    ensures
        tick_spec(tick_spec(s, player).0, player).1 == Seq::<EffectView>::empty(),
{
}

// ---------------------------------------------------------------------------
// Screens and keys.
// ---------------------------------------------------------------------------

/// Control+C quits on both screens and changes nothing.
pub proof fn law_control_c_quits(s: AppView, key: KeyEvent, player: PlayerStatus)
    requires
        key.code == KeyCode::Char('c'),
        key.modifiers.control,
    ensures
        key_spec(s, key, player) == (s, Seq::<EffectView>::empty(), true),
{
}

/// A successful connection empties the access key and the secret key of the
/// form and keeps its other fields.
pub proof fn law_connection_clears_secrets(
    s: AppView,
    storage: StorageView,
    entries: Seq<EntryView>,
    player: PlayerStatus,
)
    ensures
        ({
            let next = event_spec(
                s,
                EventView::Connected { generation: s.generation, result: Ok((storage, entries)) },
                player,
            ).0;
            &&& next.credentials.access_key.len() == 0
            &&& next.credentials.secret_key.len() == 0
            &&& next.credentials.endpoint == s.credentials.endpoint
            &&& next.credentials.region == s.credentials.region
            &&& next.credentials.bucket == s.credentials.bucket
            &&& next.storage == Some(storage)
            &&& next.entries == entries
        }),
{
}

/// Stop ends playback: nothing plays or loads afterwards, and a running track
/// task is abandoned.
pub proof fn law_stop_ends_playback(s: AppView)
    ensures
        stop_spec(s).0.now_playing is None,
        !stop_spec(s).0.busy,
        !stop_spec(s).0.track_task,
        stop_spec(s).0.pending_track is None,
        s.track_task ==> stop_spec(s).1[0] == EffectView::AbortTrackTask,
        stop_spec(s).1.last() == EffectView::ClearSpectrum,
{
}

/// The volume keys keep the volume within 0..=100 and tell the audio output.
pub proof fn law_volume_stays_a_percentage(s: AppView, amount: int)
    ensures
        change_volume_spec(s, amount).0.volume <= 100,
        change_volume_spec(s, amount).1 == seq![
            EffectView::SetVolume(change_volume_spec(s, amount).0.volume),
        ],
{
}

// ---------------------------------------------------------------------------
// Listings.
// ---------------------------------------------------------------------------

/// No entry sorts strictly before an entry in front of it.
pub open spec fn listing_ordered(entries: Seq<EntryView>) -> bool {
    forall|i: int, j: int| 0 <= i < j < entries.len() ==> !goes_before(entries[j], entries[i])
}

/// Whether two entries sort as equals: same kind and same lowercase name.
pub open spec fn sorts_equal(a: EntryView, b: EntryView) -> bool {
    !goes_before(a, b) && !goes_before(b, a)
}

proof fn lemma_before_asymmetric(a: EntryView, b: EntryView)
    requires
        goes_before(a, b),
    ensures
        !goes_before(b, a),
{
    if kind_rank(a.kind) == kind_rank(b.kind) {
        lemma_text_less_asymmetric(lowercase_text(a.name), lowercase_text(b.name));
    }
}

proof fn lemma_not_before_transitive(a: EntryView, b: EntryView, c: EntryView)
    requires
        !goes_before(a, b),
        !goes_before(b, c),
    ensures
        !goes_before(a, c),
{
    let la = lowercase_text(a.name);
    let lb = lowercase_text(b.name);
    let lc = lowercase_text(c.name);
    if kind_rank(a.kind) == kind_rank(b.kind) && kind_rank(b.kind) == kind_rank(c.kind) {
        lemma_text_less_total(la, lb);
        lemma_text_less_total(lb, lc);
        if la != lb && lb != lc {
            lemma_text_less_transitive(lc, lb, la);
            lemma_text_less_asymmetric(lc, la);
        }
    }
}

proof fn lemma_sorts_equal_blocks_before(e: EntryView, x: EntryView, y: EntryView)
    requires
        sorts_equal(e, x),
        goes_before(e, y),
    ensures
        !sorts_equal(y, x),
{
    let (le, lx, ly) = (lowercase_text(e.name), lowercase_text(x.name), lowercase_text(y.name));
    lemma_text_less_total(le, lx);
    lemma_text_less_total(ly, lx);
    lemma_text_less_irreflexive(le);
    lemma_text_less_irreflexive(ly);
}

proof fn lemma_insert_sorted_contents(sorted: Seq<EntryView>, entry: EntryView)
    ensures
        insert_sorted(sorted, entry).to_multiset() == sorted.to_multiset().insert(entry),
        insert_sorted(sorted, entry).len() == sorted.len() + 1,
    decreases sorted.len(),
{
    broadcast use vstd::seq_lib::group_to_multiset_ensures;

    if sorted.len() > 0 && goes_before(entry, sorted.last()) {
        let shorter = sorted.drop_last();
        lemma_insert_sorted_contents(shorter, entry);
        assert(shorter.push(sorted.last()) =~= sorted);
        assert(insert_sorted(sorted, entry).to_multiset() =~= shorter.to_multiset().insert(
            entry,
        ).insert(sorted.last()));
    } else if sorted.len() == 0 {
        assert(seq![entry] =~= Seq::<EntryView>::empty().push(entry));
        assert(sorted =~= Seq::<EntryView>::empty());
    }
}

proof fn lemma_insert_sorted_members(sorted: Seq<EntryView>, entry: EntryView)
    ensures
        forall|i: int|
            0 <= i < insert_sorted(sorted, entry).len() ==> #[trigger] insert_sorted(sorted, entry)[i]
                == entry || sorted.contains(insert_sorted(sorted, entry)[i]),
        insert_sorted(sorted, entry).len() == sorted.len() + 1,
    decreases sorted.len(),
{
    if sorted.len() > 0 && goes_before(entry, sorted.last()) {
        let shorter = sorted.drop_last();
        lemma_insert_sorted_members(shorter, entry);
        let r = insert_sorted(sorted, entry);
        assert forall|i: int| 0 <= i < r.len() implies #[trigger] r[i] == entry || sorted.contains(
            r[i],
        ) by {
            if i == r.len() - 1 {
                assert(sorted[sorted.len() - 1] == r[i]);
            } else {
                let inner = insert_sorted(shorter, entry);
                assert(r[i] == inner[i]);
                if inner[i] != entry {
                    assert(shorter.contains(inner[i]));
                    let k = choose|k: int| 0 <= k < shorter.len() && shorter[k] == inner[i];
                    assert(sorted[k] == inner[i]);
                }
            }
        }
    } else if sorted.len() > 0 {
        let r = insert_sorted(sorted, entry);
        assert forall|i: int| 0 <= i < r.len() implies #[trigger] r[i] == entry || sorted.contains(
            r[i],
        ) by {
            if i < sorted.len() {
                assert(r[i] == sorted[i]);
            }
        }
    }
}

proof fn lemma_insert_sorted_ordered(sorted: Seq<EntryView>, entry: EntryView)
    requires
        listing_ordered(sorted),
    ensures
        listing_ordered(insert_sorted(sorted, entry)),
    decreases sorted.len(),
{
    let result = insert_sorted(sorted, entry);
    if sorted.len() == 0 {
    } else if goes_before(entry, sorted.last()) {
        let shorter = sorted.drop_last();
        let last = sorted.last();
        lemma_insert_sorted_ordered(shorter, entry);
        lemma_insert_sorted_members(shorter, entry);
        let inner = insert_sorted(shorter, entry);
        assert forall|i: int| 0 <= i < inner.len() implies !goes_before(last, #[trigger] inner[i]) by {
            if inner[i] == entry {
                lemma_before_asymmetric(entry, last);
            } else {
                assert(shorter.contains(inner[i]));
                let k = choose|k: int| 0 <= k < shorter.len() && shorter[k] == inner[i];
                assert(sorted[k] == inner[i]);
            }
        }
        assert forall|i: int, j: int| 0 <= i < j < result.len() implies !goes_before(
            result[j],
            result[i],
        ) by {
            if j == result.len() - 1 {
                assert(result[j] == last);
                assert(result[i] == inner[i]);
            } else {
                assert(result[j] == inner[j]);
                assert(result[i] == inner[i]);
            }
        }
    } else {
        assert forall|i: int, j: int| 0 <= i < j < result.len() implies !goes_before(
            result[j],
            result[i],
        ) by {
            if j == result.len() - 1 {
                assert(result[j] == entry);
                if i < sorted.len() - 1 {
                    lemma_not_before_transitive(entry, sorted.last(), sorted[i]);
                }
            }
        }
    }
}

/// A listing comes out in order: folders before tracks, each by lowercase name.
pub proof fn law_listing_is_ordered(entries: Seq<EntryView>)
    ensures
        listing_ordered(sort_entries(entries)),
    decreases entries.len(),
{
    if entries.len() > 0 {
        law_listing_is_ordered(entries.drop_last());
        lemma_insert_sorted_ordered(sort_entries(entries.drop_last()), entries.last());
    }
}

/// Sorting neither loses nor adds an entry.
pub proof fn law_listing_sort_keeps_entries(entries: Seq<EntryView>)
    ensures
        sort_entries(entries).to_multiset() == entries.to_multiset(),
    decreases entries.len(),
{
    broadcast use vstd::seq_lib::group_to_multiset_ensures;

    if entries.len() > 0 {
        law_listing_sort_keeps_entries(entries.drop_last());
        lemma_insert_sorted_contents(sort_entries(entries.drop_last()), entries.last());
        assert(entries.drop_last().push(entries.last()) =~= entries);
    }
}

proof fn lemma_insert_sorted_stable(sorted: Seq<EntryView>, entry: EntryView, x: EntryView)
    ensures
        insert_sorted(sorted, entry).filter(|e: EntryView| sorts_equal(e, x)) == if sorts_equal(
            entry,
            x,
        ) {
            sorted.filter(|e: EntryView| sorts_equal(e, x)).push(entry)
        } else {
            sorted.filter(|e: EntryView| sorts_equal(e, x))
        },
    decreases sorted.len(),
{
    broadcast use vstd::seq_lib::group_filter_ensures;

    let p = |e: EntryView| sorts_equal(e, x);
    if sorted.len() == 0 {
        Seq::<EntryView>::empty().lemma_filter_push(entry, p);
        assert(seq![entry] =~= Seq::<EntryView>::empty().push(entry));
        assert(Seq::<EntryView>::empty().filter(p) =~= Seq::<EntryView>::empty()) by {
            reveal(Seq::filter);
        }
    } else if goes_before(entry, sorted.last()) {
        let shorter = sorted.drop_last();
        let last = sorted.last();
        lemma_insert_sorted_stable(shorter, entry, x);
        insert_sorted(shorter, entry).lemma_filter_push(last, p);
        shorter.lemma_filter_push(last, p);
        assert(shorter.push(last) =~= sorted);
        if sorts_equal(entry, x) {
            lemma_sorts_equal_blocks_before(entry, x, last);
        }
    } else {
        sorted.lemma_filter_push(entry, p);
    }
}

/// Sorting keeps the order of entries that sort as equals.
pub proof fn law_listing_sort_is_stable(entries: Seq<EntryView>, x: EntryView)
    ensures
        sort_entries(entries).filter(|e: EntryView| sorts_equal(e, x)) == entries.filter(
            |e: EntryView| sorts_equal(e, x),
        ),
    decreases entries.len(),
{
    let p = |e: EntryView| sorts_equal(e, x);
    if entries.len() > 0 {
        law_listing_sort_is_stable(entries.drop_last(), x);
        lemma_insert_sorted_stable(sort_entries(entries.drop_last()), entries.last(), x);
        entries.drop_last().lemma_filter_push(entries.last(), p);
        assert(entries.drop_last().push(entries.last()) =~= entries);
    }
}

proof fn lemma_dedup_last(entries: Seq<EntryView>)
    requires
        entries.len() > 0,
    ensures
        dedup_entries(entries).len() > 0,
        same_object(dedup_entries(entries).last(), entries.last()),
    decreases entries.len(),
{
    if entries.len() >= 2 && same_object(entries[entries.len() - 2], entries.last()) {
        lemma_dedup_last(entries.drop_last());
    }
}

/// After the removal of repeats, no entry is the same object as the one just
/// before it.
pub proof fn law_listing_has_no_adjacent_repeats(entries: Seq<EntryView>)
    ensures
        forall|i: int|
            0 <= i < dedup_entries(entries).len() - 1 ==> !same_object(
                #[trigger] dedup_entries(entries)[i],
                dedup_entries(entries)[i + 1],
            ),
    decreases entries.len(),
{
    if entries.len() > 0 {
        let shorter = entries.drop_last();
        law_listing_has_no_adjacent_repeats(shorter);
        if !(entries.len() >= 2 && same_object(entries[entries.len() - 2], entries.last())) {
            if shorter.len() > 0 {
                lemma_dedup_last(shorter);
            }
            let d = dedup_entries(entries);
            assert forall|i: int| 0 <= i < d.len() - 1 implies !same_object(
                #[trigger] d[i],
                d[i + 1],
            ) by {
                if i + 1 < d.len() - 1 {
                    assert(d[i] == dedup_entries(shorter)[i]);
                    assert(d[i + 1] == dedup_entries(shorter)[i + 1]);
                } else {
                    assert(d[i] == dedup_entries(shorter).last());
                }
            }
        }
    }
}

/// The removal of repeats only removes: every entry left was gathered.
pub proof fn law_listing_dedup_only_removes(entries: Seq<EntryView>, x: EntryView)
    requires
        dedup_entries(entries).contains(x),
    ensures
        entries.contains(x),
    decreases entries.len(),
{
    if entries.len() > 0 {
        let shorter = entries.drop_last();
        let d = dedup_entries(entries);
        let i = choose|i: int| 0 <= i < d.len() && d[i] == x;
        if x == entries.last() {
            assert(entries[entries.len() - 1] == x);
        } else {
            if entries.len() >= 2 && same_object(entries[entries.len() - 2], entries.last()) {
                law_listing_dedup_only_removes(shorter, x);
            } else {
                assert(dedup_entries(shorter)[i] == x);
                law_listing_dedup_only_removes(shorter, x);
            }
            let k = choose|k: int| 0 <= k < shorter.len() && shorter[k] == x;
            assert(entries[k] == x);
        }
    }
}

/// Removing repeats keeps an ordered listing ordered.
proof fn lemma_dedup_keeps_order(entries: Seq<EntryView>)
    requires
        listing_ordered(entries),
    ensures
        listing_ordered(dedup_entries(entries)),
    decreases entries.len(),
{
    if entries.len() > 0 {
        let shorter = entries.drop_last();
        let last = entries.last();
        assert(listing_ordered(shorter)) by {
            assert forall|i: int, j: int| 0 <= i < j < shorter.len() implies !goes_before(
                shorter[j],
                shorter[i],
            ) by {
                assert(shorter[i] == entries[i] && shorter[j] == entries[j]);
            }
        }
        lemma_dedup_keeps_order(shorter);
        if !(entries.len() >= 2 && same_object(entries[entries.len() - 2], last)) {
            let inner = dedup_entries(shorter);
            let d = dedup_entries(entries);
            assert(d == inner.push(last));
            assert forall|i: int, j: int| 0 <= i < j < d.len() implies !goes_before(
                d[j],
                d[i],
            ) by {
                if j < inner.len() {
                    assert(d[i] == inner[i] && d[j] == inner[j]);
                } else {
                    assert(d[i] == inner[i]);
                    assert(inner.contains(inner[i]));
                    law_listing_dedup_only_removes(shorter, inner[i]);
                    let k = choose|k: int| 0 <= k < shorter.len() && shorter[k] == inner[i];
                    assert(entries[k] == inner[i]);
                    assert(entries[entries.len() - 1] == last);
                }
            }
        }
    }
}

/// The finished listing is ordered: folders before tracks, each by lowercase
/// name, also after repeats are removed.
pub proof fn law_finished_listing_is_ordered(entries: Seq<EntryView>)
    ensures
        listing_ordered(dedup_entries(sort_entries(entries))),
{
    law_listing_is_ordered(entries);
    lemma_dedup_keeps_order(sort_entries(entries));
}

/// Removing repeats keeps an entry for every object of the listing.
proof fn lemma_dedup_keeps_objects(entries: Seq<EntryView>, i: int)
    requires
        0 <= i < entries.len(),
    ensures
        exists|j: int|
            0 <= j < dedup_entries(entries).len() && same_object(
                #[trigger] dedup_entries(entries)[j],
                entries[i],
            ),
    decreases entries.len(),
{
    let shorter = entries.drop_last();
    let d = dedup_entries(entries);
    let inner = dedup_entries(shorter);
    let repeats = entries.len() >= 2 && same_object(entries[entries.len() - 2], entries.last());
    if i < entries.len() - 1 {
        lemma_dedup_keeps_objects(shorter, i);
        let j = choose|j: int| 0 <= j < inner.len() && same_object(#[trigger] inner[j], shorter[i]);
        if !repeats {
            assert(d == inner.push(entries.last()));
        }
        assert(d[j] == inner[j]);
        assert(same_object(d[j], entries[i]));
    } else if repeats {
        lemma_dedup_keeps_objects(shorter, entries.len() - 2);
        let j = choose|j: int|
            0 <= j < inner.len() && same_object(#[trigger] inner[j], shorter[entries.len() - 2]);
        assert(same_object(d[j], entries[i]));
    } else {
        assert(d == inner.push(entries.last()));
        assert(same_object(d[d.len() - 1], entries[i]));
    }
}

/// Every object that the listing gathered keeps an entry of the same kind and
/// key in the finished listing.
pub proof fn law_finished_listing_keeps_every_object(entries: Seq<EntryView>, x: EntryView)
    requires
        entries.contains(x),
    ensures
        exists|j: int|
            0 <= j < dedup_entries(sort_entries(entries)).len() && same_object(
                #[trigger] dedup_entries(sort_entries(entries))[j],
                x,
            ),
{
    broadcast use vstd::seq_lib::group_to_multiset_ensures;

    let sorted = sort_entries(entries);
    law_listing_sort_keeps_entries(entries);
    assert(entries.to_multiset().count(x) > 0);
    assert(sorted.contains(x));
    let i = choose|i: int| 0 <= i < sorted.len() && sorted[i] == x;
    lemma_dedup_keeps_objects(sorted, i);
}

/// The folders of a page are folders with a name.
pub proof fn law_folder_entries_are_named_folders(prefix: Seq<char>, items: Seq<Option<Seq<char>>>)
    ensures
        forall|i: int|
            0 <= i < folder_entries(prefix, items).len() ==> (#[trigger] folder_entries(
                prefix,
                items,
            )[i]).kind == EntryKind::Folder && folder_entries(prefix, items)[i].name.len() > 0,
    decreases items.len(),
{
    if items.len() > 0 {
        law_folder_entries_are_named_folders(prefix, items.drop_last());
    }
}

/// The tracks of a page are audio objects directly in the folder.
pub proof fn law_track_entries_are_audio_in_folder(
    prefix: Seq<char>,
    objects: Seq<(Option<Seq<char>>, Option<i64>)>,
)
    ensures
        forall|i: int|
            0 <= i < track_entries(prefix, objects).len() ==> {
                let entry = #[trigger] track_entries(prefix, objects)[i];
                &&& entry.kind == EntryKind::Track
                &&& is_audio_key_spec(entry.key)
                &&& !has_char(entry.name, '/')
            },
    decreases objects.len(),
{
    if objects.len() > 0 {
        law_track_entries_are_audio_in_folder(prefix, objects.drop_last());
    }
}

// ---------------------------------------------------------------------------
// Paths and keys.
// ---------------------------------------------------------------------------

proof fn lemma_last_index_unique(text: Seq<char>, ch: char, i: int)
    requires
        is_last_index_of(text, ch, i),
    ensures
        last_index_of(text, ch) == Some(i),
{
    assert(has_char(text, ch));
    let c = choose|c: int| is_last_index_of(text, ch, c);
    assert(is_last_index_of(text, ch, c));
    if c < i {
        assert(text[i] != ch);
    } else if c > i {
        assert(text[c] != ch);
    }
}

/// Going to the parent of a subfolder returns to the folder that holds it: the
/// parent of `prefix` + `name` + `/` is `prefix`, for a folder `prefix` (the
/// root, or a prefix that ends with `/`) and a name without `/`.
pub proof fn law_parent_of_subfolder(prefix: Seq<char>, name: Seq<char>)
    requires
        prefix.len() == 0 || prefix.last() == '/',
        name.len() > 0,
        !has_char(name, '/'),
    ensures
        parent_prefix_spec(prefix + name + "/"@) == prefix,
{
    reveal_strlit("/");
    let key = prefix + name + "/"@;
    let joined = prefix + name;
    assert(key.drop_last() =~= joined);
    assert(joined.last() == name.last());
    assert(name[name.len() - 1] != '/');
    assert(trim_end_char(joined, '/') == joined);
    assert(trim_end_char(key, '/') == joined);
    if prefix.len() == 0 {
        assert(joined =~= name);
        assert(!has_char(joined, '/'));
    } else {
        let i = prefix.len() - 1;
        assert(joined[i] == '/');
        assert forall|j: int| i < j < joined.len() implies joined[j] != '/' by {
            assert(joined[j] == name[j - prefix.len()]);
        }
        lemma_last_index_unique(joined, '/', i);
        assert(joined.take(i + 1) =~= prefix);
    }
}

proof fn lemma_ascii_lower_dot(ch: char)
    ensures
        (ascii_lower(ch) == '.') == (ch == '.'),
{
}

/// Whether a key counts as audio does not depend on the ASCII case of its
/// letters: keys that agree up to ASCII case are judged alike.
pub proof fn law_audio_check_ignores_ascii_case(a: Seq<char>, b: Seq<char>)
    requires
        a.len() == b.len(),
        forall|i: int| 0 <= i < a.len() ==> ascii_lower(#[trigger] a[i]) == ascii_lower(b[i]),
    ensures
        is_audio_key_spec(a) == is_audio_key_spec(b),
{
    assert forall|i: int| 0 <= i < a.len() implies (#[trigger] a[i] == '.') == (b[i] == '.') by {
        lemma_ascii_lower_dot(a[i]);
        lemma_ascii_lower_dot(b[i]);
    }
    if has_char(a, '.') {
        let d = choose|d: int| 0 <= d < a.len() && a[d] == '.';
        assert(b[d] == '.');
        lemma_last_dot_exists(a, d);
        let last = choose|c: int| is_last_index_of(a, '.', c);
        assert(is_last_index_of(a, '.', last));
        assert forall|j: int| last < j < b.len() implies b[j] != '.' by {
            assert(a[j] != '.');
        }
        assert(is_last_index_of(b, '.', last));
        lemma_last_index_unique(a, '.', last);
        lemma_last_index_unique(b, '.', last);
        assert(ascii_lower_text(a.skip(last + 1)) =~= ascii_lower_text(b.skip(last + 1)));
    } else {
        assert(!has_char(b, '.')) by {
            if has_char(b, '.') {
                let d = choose|d: int| 0 <= d < b.len() && b[d] == '.';
                assert(a[d] == '.');
            }
        }
    }
}

proof fn lemma_last_dot_exists(text: Seq<char>, d: int)
    requires
        0 <= d < text.len(),
        text[d] == '.',
    ensures
        exists|c: int| is_last_index_of(text, '.', c),
    decreases text.len() - d,
{
    if exists|j: int| d < j < text.len() && text[j] == '.' {
        let j = choose|j: int| d < j < text.len() && text[j] == '.';
        lemma_last_dot_exists(text, j);
    } else {
        assert(is_last_index_of(text, '.', d));
    }
}

/// With no track loading, next and previous count from the first position of
/// the playing track in the listing, wherever the selection is: next is the
/// first track after that position, previous the last track before it, and
/// there is none when no track lies on that side.
pub proof fn law_navigation_follows_the_playing_track(s: AppView, playing: int, t: int)
    requires
        s.pending_track is None,
        s.now_playing is Some,
        0 <= playing < s.entries.len(),
        s.entries[playing].key == s.now_playing.unwrap().key,
        forall|j: int| 0 <= j < playing ==> s.entries[j].key != s.now_playing.unwrap().key,
    ensures
        playing < t < s.entries.len() && s.entries[t].kind == EntryKind::Track && (forall|j: int|
            playing < j < t ==> s.entries[j].kind != EntryKind::Track) ==> adjacent_track_spec(
            s,
            true,
        ) == Some(t),
        (forall|j: int| playing < j < s.entries.len() ==> s.entries[j].kind != EntryKind::Track)
            ==> adjacent_track_spec(s, true) is None,
        0 <= t < playing && s.entries[t].kind == EntryKind::Track && (forall|j: int|
            t < j < playing ==> s.entries[j].kind != EntryKind::Track) ==> adjacent_track_spec(
            s,
            false,
        ) == Some(t),
        (forall|j: int| 0 <= j < playing ==> s.entries[j].kind != EntryKind::Track)
            ==> adjacent_track_spec(s, false) is None,
{
    lemma_key_position_first(s.entries, s.now_playing.unwrap().key, playing);
    assert(navigation_origin(s) == playing);
    if playing < t < s.entries.len() && s.entries[t].kind == EntryKind::Track && (forall|j: int|
        playing < j < t ==> s.entries[j].kind != EntryKind::Track) {
        lemma_next_track_first(s.entries, playing, t);
    }
    if forall|j: int| playing < j < s.entries.len() ==> s.entries[j].kind != EntryKind::Track {
        assert(!exists|i: int| playing < i && is_track_at(s.entries, i));
    }
    if 0 <= t < playing && s.entries[t].kind == EntryKind::Track && (forall|j: int|
        t < j < playing ==> s.entries[j].kind != EntryKind::Track) {
        lemma_previous_track_last(s.entries, playing, t);
    }
    if forall|j: int| 0 <= j < playing ==> s.entries[j].kind != EntryKind::Track {
        assert(!exists|i: int| i < playing && is_track_at(s.entries, i));
    }
}

/// On the connection screen, a character typed with neither Control nor any
/// modifier other than Shift is appended to the focused field, whether Shift
/// is held or not; the focus and the other fields stay, and nothing else
/// happens.
pub proof fn law_typed_character_is_appended(
    s: AppView,
    ch: char,
    shift: bool,
    player: PlayerStatus,
)
    requires
        s.screen == Screen::Credentials,
        s.credentials.selected < FIELD_COUNT,
    ensures
        ({
            let key = KeyEvent {
                code: KeyCode::Char(ch),
                modifiers: KeyModifiers { control: false, shift, other: false },
            };
            let outcome = key_spec(s, key, player);
            let next = outcome.0;
            &&& next.credentials.value(field_at(s.credentials.selected as int)) == s.credentials.value(
                field_at(s.credentials.selected as int),
            ).push(ch)
            &&& next.credentials.selected == s.credentials.selected
            &&& forall|i: int|
                0 <= i < FIELD_COUNT && i != s.credentials.selected ==> next.credentials.value(
                    #[trigger] field_at(i),
                ) == s.credentials.value(field_at(i))
            &&& outcome.1.len() == 0
            &&& !outcome.2
        }),
{
}

/// A download or replay that succeeds for the current generation, with the
/// audio output open, makes the track that the event names the one playing:
/// its key, name and duration, unpaused; the audio output is asked to play it.
pub proof fn law_ready_track_becomes_now_playing(
    s: AppView,
    index: usize,
    key: Seq<char>,
    name: Seq<char>,
    duration: Option<Duration>,
    player: PlayerStatus,
)
    ensures
        ({
            let outcome = event_spec(
                s,
                EventView::TrackReady {
                    generation: s.generation,
                    index,
                    key,
                    name,
                    result: Ok(duration),
                    output: Ok(()),
                },
                player,
            );
            &&& outcome.0.now_playing == Some(TrackView { key, name, duration })
            &&& !outcome.0.paused
            &&& !outcome.0.busy
            &&& outcome.0.pending_track is None
            &&& outcome.1 == seq![EffectView::Play]
            &&& !outcome.2
        }),
{
}

/// In the library browser '-' lowers the volume by 5 and '+' or '=' raise it
/// by 5, never below 0 or above 100, and the new volume goes to the audio
/// output.
pub proof fn law_volume_keys(s: AppView, modifiers: KeyModifiers, player: PlayerStatus)
    requires
        s.screen == Screen::Browser,
        s.volume <= 100,
    ensures
        ({
            let down = key_spec(s, KeyEvent { code: KeyCode::Char('-'), modifiers }, player);
            &&& down.0.volume == if s.volume >= 5 {
                s.volume - 5
            } else {
                0
            }
            &&& down.1 == seq![EffectView::SetVolume(down.0.volume)]
        }),
        ({
            let up = key_spec(s, KeyEvent { code: KeyCode::Char('+'), modifiers }, player);
            &&& up.0.volume == if s.volume <= 95 {
                s.volume + 5
            } else {
                100
            }
            &&& up.1 == seq![EffectView::SetVolume(up.0.volume)]
        }),
        ({
            let up = key_spec(s, KeyEvent { code: KeyCode::Char('='), modifiers }, player);
            &&& up.0.volume == if s.volume <= 95 {
                s.volume + 5
            } else {
                100
            }
            &&& up.1 == seq![EffectView::SetVolume(up.0.volume)]
        }),
{
}

/// Dropping the trailing `ch`s of a text leaves a text that gives back the
/// original with that many `ch`s appended.
proof fn lemma_trim_end_char_restores(text: Seq<char>, ch: char)
    ensures
        trim_end_char(text, ch).len() <= text.len(),
        trim_end_char(text, ch) + Seq::new(
            (text.len() - trim_end_char(text, ch).len()) as nat,
            |i: int| ch,
        ) == text,
    decreases text.len(),
{
    if text.len() > 0 && text.last() == ch {
        let shorter = text.drop_last();
        lemma_trim_end_char_restores(shorter, ch);
        let t = trim_end_char(shorter, ch);
        let n = (shorter.len() - t.len()) as nat;
        assert(t + Seq::new(n + 1, |i: int| ch) =~= (t + Seq::new(n, |i: int| ch)).push(ch));
        assert(shorter.push(ch) =~= text);
    } else {
        assert(text + Seq::new(0, |i: int| ch) =~= text);
    }
}

/// A connection that succeeds builds its client with the endpoint as typed,
/// trimmed, with `https://` put in front when it names no scheme, and without
/// its trailing slashes: the endpoint never ends in '/', and it starts with
/// `https:` when no scheme was typed.
pub proof fn law_connection_uses_the_normalized_endpoint(details: ConnectionDetailsView)
    requires
        connect_spec(details) is Ok,
    ensures
        ({
            let endpoint = connect_settings(details).endpoint;
            let typed = trim_spec(details.endpoint);
            let with_scheme = if has_part(typed, "://"@) {
                typed
            } else {
                "https://"@ + typed
            };
            &&& endpoint.len() == 0 || endpoint.last() != '/'
            &&& endpoint.len() <= with_scheme.len()
            &&& endpoint + Seq::new(
                (with_scheme.len() - endpoint.len()) as nat,
                |i: int| '/',
            ) == with_scheme
            &&& !has_part(typed, "://"@) ==> endpoint.take(6) == "https:"@
        }),
{
    let candidate = endpoint_candidate(details.endpoint);
    assert(connect_settings(details).endpoint == trim_end_char(candidate, '/'));
    lemma_trim_end_char_restores(candidate, '/');
    lemma_trim_end_char_last(candidate, '/');
    if !has_part(trim_spec(details.endpoint), "://"@) {
        reveal_strlit("https://");
        reveal_strlit("https:");
        assert(candidate.take(6) =~= "https:"@);
        lemma_trim_end_char_keeps_prefix(candidate, '/', "https:"@);
    }
}

} // verus!
