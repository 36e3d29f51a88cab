use crate::app::{CredentialField, CredentialForm, CredentialFormView, field_at};
use crate::storage::{Entry, EntryKind, EntryView};
use crate::text::{chars_of, decimal, digit_char, owned, push_decimal, push_text};
use std::time::Duration;
use vstd::prelude::*;

verus! {

// ---------------------------------------------------------------------------
// Sizes.
// ---------------------------------------------------------------------------

/// `2` to the power `e`.
pub open spec fn p2(e: nat) -> nat
    decreases e,
{
    if e == 0 {
        1
    } else {
        2 * p2((e - 1) as nat)
    }
}

/// How many low bits a non-negative integer loses when it is held in an `f64`,
/// whose significand has 53 bits.
pub open spec fn f64_shift(n: nat) -> nat
    decreases n,
{
    if n < 0x20_0000_0000_0000 {
        0
    } else {
        1 + f64_shift(n / 2)
    }
}

/// `n / d` rounded to the nearest integer, ties to the even one.
pub open spec fn div_round_even(n: nat, d: nat) -> nat
    recommends
        d > 0,
{
    let q = n / d;
    let r = n % d;
    if 2 * r > d || (2 * r == d && q % 2 == 1) {
        q + 1
    } else {
        q
    }
}

/// The value of `n as f64`: `n` rounded to 53 significant bits, ties to even.
pub open spec fn f64_value(n: nat) -> nat {
    let e = f64_shift(n);
    div_round_even(n, p2(e)) * p2(e)
}

/// The unit that `human_size` picks for an amount of bytes: 0 bytes, 1 KiB,
/// 2 MiB, 3 GiB; the largest whose size is at most the amount.
pub open spec fn size_unit(bytes: nat) -> nat {
    if bytes >= 0x4000_0000 {
        3
    } else if bytes >= 0x10_0000 {
        2
    } else if bytes >= 0x400 {
        1
    } else {
        0
    }
}

/// The number of bytes in a unit.
pub open spec fn unit_bytes(unit: nat) -> nat {
    if unit == 0 {
        1
    } else if unit == 1 {
        0x400
    } else if unit == 2 {
        0x10_0000
    } else {
        0x4000_0000
    }
}

pub open spec fn unit_name(unit: nat) -> Seq<char> {
    if unit == 0 {
        "B"@
    } else if unit == 1 {
        "KiB"@
    } else if unit == 2 {
        "MiB"@
    } else {
        "GiB"@
    }
}

/// A size with one decimal: the amount in tenths, written as `whole.tenth`.
pub open spec fn tenths_text(tenths: nat) -> Seq<char> {
    decimal(tenths / 10) + "."@ + seq![digit_char(tenths % 10)]
}

/// A human-readable size: negative sizes count as zero, the amount is taken as
/// an `f64`, bytes are written whole and larger units with one decimal,
/// rounded to nearest with ties to even.
pub open spec fn human_size_spec(bytes: int) -> Seq<char> {
    let amount = f64_value(if bytes < 0 {
        0
    } else {
        bytes as nat
    });
    let unit = size_unit(amount);
    if unit == 0 {
        decimal(amount) + " "@ + unit_name(0)
    } else {
        tenths_text(div_round_even(amount * 10, unit_bytes(unit))) + " "@ + unit_name(unit)
    }
}

proof fn lemma_p2_positive(e: nat)
    ensures
        p2(e) >= 1,
    decreases e,
{
    if e > 0 {
        lemma_p2_positive((e - 1) as nat);
    }
}

/// `n as f64`, as an integer.
fn f64_value_exec(n: u64) -> (value: u64)
    requires
        n < 0x8000_0000_0000_0000,
    ensures
        value as nat == f64_value(n as nat),
        value <= 0x8000_0000_0000_0800,
{
    let mut rest: u64 = n;
    let mut scale: u64 = 1;
    let ghost mut e: nat = 0;
    while rest >= 0x20_0000_0000_0000
        invariant
            f64_shift(n as nat) == e + f64_shift(rest as nat),
            scale as nat == p2(e),
            rest * scale <= n,
            n < 0x8000_0000_0000_0000,
            1 <= scale <= 0x800,
        decreases rest,
    {
        assert(scale < 0x400) by (nonlinear_arith)
            requires
                rest >= 0x20_0000_0000_0000,
                rest * scale <= n,
                n < 0x8000_0000_0000_0000,
        ;
        assert((rest / 2) * (scale * 2) <= rest * scale) by (nonlinear_arith);
        rest = rest / 2;
        scale = scale * 2;
        proof {
            e = e + 1;
        }
    }
    proof {
        lemma_p2_positive(e);
    }
    let q = n / scale;
    let r = n % scale;
    let rounded = if 2 * r > scale || (2 * r == scale && q % 2 == 1) {
        q + 1
    } else {
        q
    };
    assert(rounded * scale <= 0x8000_0000_0000_0800) by (nonlinear_arith)
        requires
            q == n / scale,
            scale >= 1,
            scale <= 0x800,
            rounded <= q + 1,
            n < 0x8000_0000_0000_0000,
    ;
    rounded * scale
}

/// A human-readable file size, as the library browser shows it.
pub fn human_size(bytes: i64) -> (text: String)
    ensures
        text@ == human_size_spec(bytes as int),
{
    let amount = f64_value_exec(if bytes < 0 {
        0
    } else {
        bytes as u64
    });
    let (unit, unit_size): (u64, u64) = if amount >= 0x4000_0000 {
        (3, 0x4000_0000)
    } else if amount >= 0x10_0000 {
        (2, 0x10_0000)
    } else if amount >= 0x400 {
        (1, 0x400)
    } else {
        (0, 1)
    };
    let name = if unit == 0 {
        "B"
    } else if unit == 1 {
        "KiB"
    } else if unit == 2 {
        "MiB"
    } else {
        "GiB"
    };
    if unit == 0 {
        let mut text = String::new();
        push_decimal(&mut text, amount);
        push_text(&mut text, " ");
        push_text(&mut text, name);
        assert(text@ =~= human_size_spec(bytes as int));
        text
    } else {
        let scaled: u128 = amount as u128 * 10;
        let q = scaled / (unit_size as u128);
        let r = scaled % (unit_size as u128);
        let tenths = if 2 * r > unit_size as u128 || (2 * r == unit_size as u128 && q % 2 == 1) {
            q + 1
        } else {
            q
        };
        assert(tenths <= 0x1000_0000_0000_0000) by (nonlinear_arith)
            requires
                scaled <= 0x8000_0000_0000_0800 * 10,
                unit_size >= 0x400,
                q == scaled / (unit_size as u128),
                tenths <= q + 1,
        ;
        let tenths = tenths as u64;
        let mut text = String::new();
        push_decimal(&mut text, tenths / 10);
        push_text(&mut text, ".");
        push_decimal(&mut text, tenths % 10);
        push_text(&mut text, " ");
        push_text(&mut text, name);
        proof {
            reveal_strlit(".");
            reveal_strlit(" ");
            assert(decimal((tenths % 10) as nat) == seq![digit_char((tenths % 10) as nat)]);
            let n: nat = if bytes < 0 { 0 } else { bytes as nat };
            assert(amount as nat == f64_value(n));
            assert(unit as nat == size_unit(amount as nat));
            assert(unit_size as nat == unit_bytes(unit as nat));
            assert(tenths as nat == div_round_even(amount as nat * 10, unit_bytes(unit as nat)));
            assert(name@ == unit_name(unit as nat));
            assert(text@ =~= tenths_text(tenths as nat) + " "@ + unit_name(unit as nat));
        }
        assert(text@ =~= human_size_spec(bytes as int));
        text
    }
}

// ---------------------------------------------------------------------------
// Durations.
// ---------------------------------------------------------------------------

/// Whole seconds as minutes and two-digit seconds, `m:ss`.
pub open spec fn clock_text(seconds: nat) -> Seq<char> {
    decimal(seconds / 60) + ":"@ + seq![digit_char((seconds % 60) / 10), digit_char(seconds % 10)]
}

/// Whole seconds as minutes and two-digit seconds, `m:ss`.
pub fn format_seconds(seconds: u64) -> (text: String)
    ensures
        text@ == clock_text(seconds as nat),
{
    let mut text = String::new();
    push_decimal(&mut text, seconds / 60);
    push_text(&mut text, ":");
    let within = seconds % 60;
    push_decimal(&mut text, within / 10);
    push_decimal(&mut text, within % 10);
    proof {
        reveal_strlit(":");
        assert(decimal((within / 10) as nat) == seq![digit_char((within / 10) as nat)]);
        assert(decimal((within % 10) as nat) == seq![digit_char((within % 10) as nat)]);
        assert((seconds % 60) % 10 == seconds % 10) by (nonlinear_arith);
    }
    assert(text@ =~= clock_text(seconds as nat));
    text
}

/// What `Duration::as_secs` returns: the whole seconds of a duration, which
/// depend on the duration alone.
pub uninterp spec fn duration_whole_seconds(duration: Duration) -> u64;

/// `Duration::as_secs`, whose result is named `duration_whole_seconds`.
#[verifier::external_body]
fn whole_seconds(duration: Duration) -> (seconds: u64)
    ensures
        seconds == duration_whole_seconds(duration),
{
    duration.as_secs()
}

/// A duration as `m:ss`, from its whole seconds.
pub fn format_duration(duration: Duration) -> (text: String)
    ensures
        text@ == clock_text(duration_whole_seconds(duration) as nat),
{
    let seconds = whole_seconds(duration);
    format_seconds(seconds)
}

// ---------------------------------------------------------------------------
// Texts of the screens.
// ---------------------------------------------------------------------------

/// `n` spaces.
pub open spec fn spaces(n: nat) -> Seq<char> {
    Seq::new(n, |i: int| ' ')
}

/// `text` padded with spaces on the right to `width` characters (`{:<width}`).
pub open spec fn pad_right(text: Seq<char>, width: nat) -> Seq<char> {
    if text.len() >= width {
        text
    } else {
        text + spaces((width - text.len()) as nat)
    }
}

/// `text` padded with spaces on the left to `width` characters (`{:>width}`).
pub open spec fn pad_left(text: Seq<char>, width: nat) -> Seq<char> {
    if text.len() >= width {
        text
    } else {
        spaces((width - text.len()) as nat) + text
    }
}

fn push_spaces(target: &mut String, count: usize)
    ensures
        final(target)@ == old(target)@ + spaces(count as nat),
{
    let mut i: usize = 0;
    while i < count
        invariant
            i <= count,
            target@ == old(target)@ + spaces(i as nat),
        decreases count - i,
    {
        target.push(' ');
        i = i + 1;
        assert(target@ =~= old(target)@ + spaces(i as nat));
    }
}

/// The number of characters of a text.
fn char_count(text: &str) -> (count: usize)
    ensures
        count as nat == text@.len(),
{
    chars_of(text).len()
}

/// The `*` that stand for each character of a secret.
pub open spec fn stars(n: nat) -> Seq<char> {
    Seq::new(n, |i: int| '*')
}

/// What a field of the connection screen shows: its text, or a star per
/// character for the secret key, with a `_` cursor when it has the focus and
/// no connection is under way.
pub open spec fn credential_text_spec(form: CredentialFormView, index: int, busy: bool) -> Seq<char> {
    let field = field_at(index);
    let value = if field == CredentialField::SecretKey {
        stars(form.value(field).len())
    } else {
        form.value(field)
    };
    if form.selected == index && !busy {
        value.push('_')
    } else {
        value
    }
}

pub fn credential_text(form: &CredentialForm, index: usize, busy: bool) -> (text: String)
    requires
        index < crate::app::FIELD_COUNT,
    ensures
        text@ == credential_text_spec(form@, index as int, busy),
{
    let field = CredentialField::at(index);
    let value = form.value(field);
    let mut text = String::new();
    if field == CredentialField::SecretKey {
        let count = char_count(value);
        let mut i: usize = 0;
        while i < count
            invariant
                i <= count,
                text@ == stars(i as nat),
            decreases count - i,
        {
            text.push('*');
            i = i + 1;
            assert(text@ =~= stars(i as nat));
        }
    } else {
        push_text(&mut text, value);
        assert(text@ =~= form@.value(field));
    }
    if form.selected == index && !busy {
        text.push('_');
    }
    text
}

/// Whether `text` begins with `head`.
pub open spec fn starts_with(text: Seq<char>, head: Seq<char>) -> bool {
    head.len() <= text.len() && text.take(head.len() as int) == head
}

fn starts_with_exec(text: &str, head: &str) -> (found: bool)
    ensures
        found == starts_with(text@, head@),
{
    let t = chars_of(text);
    let h = chars_of(head);
    if h.len() > t.len() {
        return false;
    }
    let mut same = true;
    let mut i: usize = 0;
    while i < h.len()
        invariant
            h@.len() <= t@.len(),
            i <= h@.len(),
            same == forall|k: int| 0 <= k < i ==> t@[k] == h@[k],
        decreases h@.len() - i,
    {
        if t[i] != h[i] {
            same = false;
        }
        i = i + 1;
    }
    if same {
        assert(t@.take(h@.len() as int) =~= h@);
    } else {
        let ghost k = choose|k: int| 0 <= k < h@.len() && t@[k] != h@[k];
        assert(t@.take(h@.len() as int)[k] != h@[k]);
    }
    same
}

/// How a status line is coloured.
#[derive(Clone, Copy, Debug, PartialEq, Eq, Structural)]
pub enum Tone {
    Error,
    Busy,
    Normal,
}

/// The tone of the connection screen's status: an error after a failed
/// connection, busy while connecting.
pub fn credentials_status_tone(status: &str, busy: bool) -> (tone: Tone)
    ensures
        tone == if starts_with(status@, "Connection failed"@) {
            Tone::Error
        } else if busy {
            Tone::Busy
        } else {
            Tone::Normal
        },
{
    if starts_with_exec(status, "Connection failed") {
        Tone::Error
    } else if busy {
        Tone::Busy
    } else {
        Tone::Normal
    }
}

/// Whether the library browser shows its status as an error.
pub fn browser_status_is_error(status: &str) -> (error: bool)
    ensures
        error == (starts_with(status@, "Could not"@) || starts_with(status@, "Connection"@)),
{
    starts_with_exec(status, "Could not") || starts_with_exec(status, "Connection")
}

/// Where the browser is: `s3://bucket/prefix`.
pub fn location(bucket: &str, prefix: &str) -> (text: String)
    ensures
        text@ == "s3://"@ + bucket@ + "/"@ + prefix@,
{
    let mut text = owned("s3://");
    push_text(&mut text, bucket);
    push_text(&mut text, "/");
    push_text(&mut text, prefix);
    text
}

/// The line of an entry in the browser, marked `>` while it plays.
pub open spec fn entry_line_spec(entry: EntryView, playing: bool) -> Seq<char> {
    let marker = if playing {
        ">"@
    } else {
        " "@
    };
    match entry.kind {
        EntryKind::Folder => marker + " [DIR] "@ + entry.name + "/"@,
        EntryKind::Track => marker + " [AUDIO] "@ + pad_right(entry.name, 48) + " "@ + pad_left(
            human_size_spec(entry.size as int),
            9,
        ),
    }
}

pub fn entry_line(entry: &Entry, playing: bool) -> (text: String)
    ensures
        text@ == entry_line_spec(entry@, playing),
{
    let mut text = if playing {
        owned(">")
    } else {
        owned(" ")
    };
    match entry.kind {
        EntryKind::Folder => {
            push_text(&mut text, " [DIR] ");
            push_text(&mut text, entry.name.as_str());
            push_text(&mut text, "/");
        },
        EntryKind::Track => {
            push_text(&mut text, " [AUDIO] ");
            push_text(&mut text, entry.name.as_str());
            let name_len = char_count(entry.name.as_str());
            if name_len < 48 {
                push_spaces(&mut text, 48 - name_len);
            }
            push_text(&mut text, " ");
            let size = human_size(entry.size);
            let size_len = char_count(size.as_str());
            if size_len < 9 {
                push_spaces(&mut text, 9 - size_len);
            }
            push_text(&mut text, size.as_str());
            let ghost marker = if playing {
                ">"@
            } else {
                " "@
            };
            assert(text@ =~= marker + " [AUDIO] "@ + pad_right(entry.name@, 48) + " "@ + pad_left(
                size@,
                9,
            ));
        },
    }
    text
}

/// The title of the browser's list.
pub fn list_title(busy: bool) -> (title: &'static str)
    ensures
        title@ == if busy {
            "Bucket Browser - loading..."@
        } else {
            "Bucket Browser - Enter: open/play  Backspace: parent"@
        },
{
    if busy {
        "Bucket Browser - loading..."
    } else {
        "Bucket Browser - Enter: open/play  Backspace: parent"
    }
}

/// The frames of the playback animation.
pub open spec fn equalizer_frame(frame: nat) -> Seq<char> {
    if frame == 0 {
        "[=    ]"@
    } else if frame == 1 {
        "[==   ]"@
    } else if frame == 2 {
        "[ === ]"@
    } else if frame == 3 {
        "[  ===]"@
    } else {
        "[   ==]"@
    }
}

/// What the playback panel says of the player: loading, finished, paused, or
/// the animation frame.
pub open spec fn activity_spec(busy: bool, completed: bool, paused: bool, frame: nat) -> Seq<char> {
    if busy {
        "LOADING"@
    } else if completed {
        "FINISHED"@
    } else if paused {
        "PAUSED"@
    } else {
        equalizer_frame(frame)
    }
}

pub fn activity(busy: bool, completed: bool, paused: bool, frame: usize) -> (text: &'static str)
    requires
        frame < 5,
    ensures
        text@ == activity_spec(busy, completed, paused, frame as nat),
{
    if busy {
        "LOADING"
    } else if completed {
        "FINISHED"
    } else if paused {
        "PAUSED"
    } else if frame == 0 {
        "[=    ]"
    } else if frame == 1 {
        "[==   ]"
    } else if frame == 2 {
        "[ === ]"
    } else if frame == 3 {
        "[  ===]"
    } else {
        "[   ==]"
    }
}

/// The label of the progress bar: the track's name, the position, and the
/// length when it is known.
pub open spec fn progress_label_spec(name: Seq<char>, position: nat, length: Option<nat>) -> Seq<char> {
    match length {
        Some(length) => name + "  "@ + clock_text(position) + " / "@ + clock_text(length),
        None => name + "  "@ + clock_text(position),
    }
}

pub fn progress_label(name: &str, position_seconds: u64, length_seconds: Option<u64>) -> (text: String)
    ensures
        text@ == progress_label_spec(name@, position_seconds as nat, match length_seconds {
            Some(length) => Some(length as nat),
            None => None,
        }),
{
    let mut text = owned(name);
    push_text(&mut text, "  ");
    let position = format_seconds(position_seconds);
    push_text(&mut text, position.as_str());
    match length_seconds {
        Some(length) => {
            push_text(&mut text, " / ");
            let total = format_seconds(length);
            push_text(&mut text, total.as_str());
        },
        None => {},
    }
    text
}

/// The right side of the playback panel: the activity and the volume.
pub fn playback_side(activity: &str, volume: u8) -> (text: String)
    ensures
        text@ == activity@ + "\nVol "@ + decimal(volume as nat) + "%"@,
{
    let mut text = owned(activity);
    push_text(&mut text, "\nVol ");
    push_decimal(&mut text, volume as u64);
    push_text(&mut text, "%");
    text
}

/// The playback panel when nothing plays.
pub fn idle_line(volume: u8) -> (text: String)
    ensures
        text@ == "Nothing playing"@ + spaces(38) + "Volume "@ + decimal(volume as nat) + "%"@,
{
    let mut text = owned("Nothing playing");
    push_spaces(&mut text, 38);
    push_text(&mut text, "Volume ");
    push_decimal(&mut text, volume as u64);
    push_text(&mut text, "%");
    text
}

} // verus!
