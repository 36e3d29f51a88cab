use crate::storage::{entry_views, is_audio_key, is_audio_key_spec, kind_order, kind_rank, Entry, EntryKind, EntryView};
use crate::text::{
    chars_of, has_char, lowercase_text, string_from, text_less, trim_end_char, trim_end_char_of,
};
use vstd::prelude::*;

verus! {

// ---------------------------------------------------------------------------
// One page of a bucket listing, as plain values.
// ---------------------------------------------------------------------------

/// An object of a listing page: its key and size, when the service sent them.
pub struct ListedObject {
    pub key: Option<String>,
    pub size: Option<i64>,
}

/// A page of `ListObjectsV2` with `/` as the delimiter: the common prefixes
/// (subfolders), the objects, whether the listing is truncated, and the token
/// for the next page.
pub struct ListPage {
    pub common_prefixes: Vec<Option<String>>,
    pub objects: Vec<ListedObject>,
    pub is_truncated: Option<bool>,
    pub next_continuation_token: Option<String>,
}

pub open spec fn text_option_view(text: Option<String>) -> Option<Seq<char>> {
    match text {
        Some(text) => Some(text@),
        None => None,
    }
}

pub open spec fn prefix_views(items: Seq<Option<String>>) -> Seq<Option<Seq<char>>> {
    items.map_values(|item: Option<String>| text_option_view(item))
}

pub open spec fn object_views(objects: Seq<ListedObject>) -> Seq<(Option<Seq<char>>, Option<i64>)> {
    objects.map_values(|object: ListedObject| (text_option_view(object.key), object.size))
}

/// What to do after a page.
pub enum PageOutcome {
    /// Ask for the next page with this continuation token.
    Continue(String),
    /// The listing is complete.
    Complete,
    /// The page says the listing is truncated but gives no token.
    MissingToken,
}

pub enum PageOutcomeView {
    Continue(Seq<char>),
    Complete,
    MissingToken,
}

impl View for PageOutcome {
    type V = PageOutcomeView;

    open spec fn view(&self) -> PageOutcomeView {
        match self {
            PageOutcome::Continue(token) => PageOutcomeView::Continue(token@),
            PageOutcome::Complete => PageOutcomeView::Complete,
            PageOutcome::MissingToken => PageOutcomeView::MissingToken,
        }
    }
}

// ---------------------------------------------------------------------------
// Which listed items become entries.
// ---------------------------------------------------------------------------

/// `str::strip_prefix(prefix).unwrap_or(key)`.
pub open spec fn strip_prefix_or_self(key: Seq<char>, prefix: Seq<char>) -> Seq<char> {
    if prefix.len() <= key.len() && key.take(prefix.len() as int) == prefix {
        key.skip(prefix.len() as int)
    } else {
        key
    }
}

/// The folder that a common prefix stands for, unless its name is empty.
pub open spec fn folder_entry(prefix: Seq<char>, item: Option<Seq<char>>) -> Option<EntryView> {
    match item {
        None => None,
        Some(key) => {
            let name = trim_end_char(strip_prefix_or_self(key, prefix), '/');
            if name.len() == 0 {
                None
            } else {
                Some(EntryView { kind: EntryKind::Folder, key, name, size: 0 })
            }
        },
    }
}

/// The track that an object stands for: an audio object directly in the folder,
/// other than the folder's own key and keys that end with `/`.
pub open spec fn track_entry(prefix: Seq<char>, key: Option<Seq<char>>, size: Option<i64>) -> Option<
    EntryView,
> {
    match key {
        None => None,
        Some(key) => if key == prefix || (key.len() > 0 && key.last() == '/')
            || !is_audio_key_spec(key) {
            None
        } else {
            let name = strip_prefix_or_self(key, prefix);
            if has_char(name, '/') {
                None
            } else {
                Some(
                    EntryView {
                        kind: EntryKind::Track,
                        key,
                        name,
                        size: match size {
                            Some(size) => size,
                            None => 0,
                        },
                    },
                )
            }
        },
    }
}

pub open spec fn folder_entries(prefix: Seq<char>, items: Seq<Option<Seq<char>>>) -> Seq<EntryView>
    decreases items.len(),
{
    if items.len() == 0 {
        Seq::empty()
    } else {
        let rest = folder_entries(prefix, items.drop_last());
        match folder_entry(prefix, items.last()) {
            Some(entry) => rest.push(entry),
            None => rest,
        }
    }
}

pub open spec fn track_entries(prefix: Seq<char>, objects: Seq<(Option<Seq<char>>, Option<i64>)>) -> Seq<
    EntryView,
>
    decreases objects.len(),
{
    if objects.len() == 0 {
        Seq::empty()
    } else {
        let rest = track_entries(prefix, objects.drop_last());
        match track_entry(prefix, objects.last().0, objects.last().1) {
            Some(entry) => rest.push(entry),
            None => rest,
        }
    }
}

/// What to do after a page with these flags.
pub open spec fn page_outcome(is_truncated: Option<bool>, token: Option<Seq<char>>) -> PageOutcomeView {
    if !(is_truncated == Some(true)) {
        PageOutcomeView::Complete
    } else {
        match token {
            Some(token) => PageOutcomeView::Continue(token),
            None => PageOutcomeView::MissingToken,
        }
    }
}

// ---------------------------------------------------------------------------
// The order of a listing and the removal of repeats.
// ---------------------------------------------------------------------------

/// Whether `a` sorts strictly before `b`: folders before tracks, then by the
/// lowercase name.
pub open spec fn goes_before(a: EntryView, b: EntryView) -> bool {
    kind_rank(a.kind) < kind_rank(b.kind) || (kind_rank(a.kind) == kind_rank(b.kind) && text_less(
        lowercase_text(a.name),
        lowercase_text(b.name),
    ))
}

/// `sorted` with `entry` put after every element that does not sort after it.
pub open spec fn insert_sorted(sorted: Seq<EntryView>, entry: EntryView) -> Seq<EntryView>
    decreases sorted.len(),
{
    if sorted.len() == 0 {
        seq![entry]
    } else if goes_before(entry, sorted.last()) {
        insert_sorted(sorted.drop_last(), entry).push(sorted.last())
    } else {
        sorted.push(entry)
    }
}

/// The stable sort of the entries by `goes_before` (as `slice::sort_by`).
pub open spec fn sort_entries(entries: Seq<EntryView>) -> Seq<EntryView>
    decreases entries.len(),
{
    if entries.len() == 0 {
        entries
    } else {
        insert_sorted(sort_entries(entries.drop_last()), entries.last())
    }
}

/// Whether two entries are the same object: same kind and same key.
pub open spec fn same_object(a: EntryView, b: EntryView) -> bool {
    a.kind == b.kind && a.key == b.key
}

/// The entries without those that repeat the object just before them
/// (as `Vec::dedup_by`).
pub open spec fn dedup_entries(entries: Seq<EntryView>) -> Seq<EntryView>
    decreases entries.len(),
{
    if entries.len() == 0 {
        entries
    } else if entries.len() >= 2 && same_object(entries[entries.len() - 2], entries.last()) {
        dedup_entries(entries.drop_last())
    } else {
        dedup_entries(entries.drop_last()).push(entries.last())
    }
}

// ---------------------------------------------------------------------------
// The listing under way.
// ---------------------------------------------------------------------------

/// The entries gathered so far for the folder `prefix`.
pub struct Listing {
    pub prefix: String,
    pub entries: Vec<Entry>,
}

impl Listing {
    pub fn new(prefix: &str) -> (listing: Listing)
        ensures
            listing.prefix@ == prefix@,
            listing.entries@.len() == 0,
    {
        Listing { prefix: prefix.to_owned(), entries: Vec::new() }
    }

    /// Adds the folders and tracks of a page, and says what to do next.
    pub fn absorb(&mut self, page: ListPage) -> (outcome: PageOutcome)
        ensures
            final(self).prefix@ == old(self).prefix@,
            entry_views(final(self).entries@) == entry_views(old(self).entries@) + folder_entries(
                old(self).prefix@,
                prefix_views(page.common_prefixes@),
            ) + track_entries(old(self).prefix@, object_views(page.objects@)),
            outcome@ == page_outcome(page.is_truncated, text_option_view(page.next_continuation_token)),
    {
        let prefix_chars = chars_of(self.prefix.as_str());
        let ghost start = entry_views(self.entries@);
        let ghost prefixes = prefix_views(page.common_prefixes@);
        let ghost objects = object_views(page.objects@);
        let ListPage { common_prefixes, objects: listed, is_truncated, next_continuation_token } = page;
        let mut i: usize = 0;
        let mut items = common_prefixes;
        let ghost all_items = items@;
        let n = items.len();
        while i < n
            invariant
                n == all_items.len(),
                prefixes == prefix_views(all_items),
                i <= n,
                items@ == all_items.skip(i as int),
                prefix_chars@ == self.prefix@,
                entry_views(self.entries@) == start + folder_entries(
                    self.prefix@,
                    prefixes.take(i as int),
                ),
            decreases n - i,
        {
            assert(items@[0] == all_items[i as int]);
            let item = items.remove(0);
            assert(item == all_items[i as int]);
            assert(prefixes.take(i + 1).drop_last() =~= prefixes.take(i as int));
            assert(prefixes.take(i + 1).last() == text_option_view(item));
            match item {
                Some(key) => {
                    let key_chars = chars_of(key.as_str());
                    let rest = strip_prefix_chars(key_chars.as_slice(), prefix_chars.as_slice());
                    let name = trim_end_char_of(rest.as_slice(), '/');
                    if name.len() > 0 {
                        let entry = Entry {
                            kind: EntryKind::Folder,
                            key,
                            name: string_from(name.as_slice()),
                            size: 0,
                        };
                        let ghost before = self.entries@;
                        self.entries.push(entry);
                        assert(folder_entry(self.prefix@, prefixes.take(i + 1).last()) == Some(entry@));
                        assert(folder_entries(self.prefix@, prefixes.take(i + 1)) == folder_entries(self.prefix@, prefixes.take(i as int)).push(entry@));
                        assert(entry_views(self.entries@) =~= entry_views(before).push(entry@));
                        assert(entry_views(self.entries@) =~= start + folder_entries(
                            self.prefix@,
                            prefixes.take(i + 1),
                        ));
                    }
                },
                None => {},
            }
            assert(all_items.skip(i + 1) =~= all_items.skip(i as int).drop_first());
            i = i + 1;
        }
        assert(prefixes.take(n as int) =~= prefixes);
        let ghost middle = entry_views(self.entries@);
        let mut j: usize = 0;
        let mut rest_objects = listed;
        let ghost all_objects = rest_objects@;
        let m = rest_objects.len();
        while j < m
            invariant
                m == all_objects.len(),
                objects == object_views(all_objects),
                j <= m,
                rest_objects@ == all_objects.skip(j as int),
                prefix_chars@ == self.prefix@,
                entry_views(self.entries@) == middle + track_entries(
                    self.prefix@,
                    objects.take(j as int),
                ),
            decreases m - j,
        {
            assert(rest_objects@[0] == all_objects[j as int]);
            let object = rest_objects.remove(0);
            assert(object == all_objects[j as int]);
            assert(objects.take(j + 1).drop_last() =~= objects.take(j as int));
            assert(objects.take(j + 1).last() == (text_option_view(object.key), object.size));
            let ListedObject { key, size } = object;
            match key {
                Some(key) => {
                    let ghost key_view = key@;
                    if let Some(entry) = track_from(key, size, prefix_chars.as_slice()) {
                        let ghost before = self.entries@;
                        self.entries.push(entry);
                        assert(objects.take(j + 1).last() == (Some(key_view), size));
                        assert(track_entries(self.prefix@, objects.take(j + 1)) == track_entries(self.prefix@, objects.take(j as int)).push(entry@));
                        assert(entry_views(self.entries@) =~= entry_views(before).push(entry@));
                        assert(entry_views(self.entries@) =~= middle + track_entries(
                            self.prefix@,
                            objects.take(j + 1),
                        ));
                    }
                },
                None => {},
            }
            assert(all_objects.skip(j + 1) =~= all_objects.skip(j as int).drop_first());
            j = j + 1;
        }
        assert(objects.take(m as int) =~= objects);
        assert(entry_views(self.entries@) =~= start + folder_entries(self.prefix@, prefixes)
            + track_entries(self.prefix@, objects));
        let truncated = match is_truncated {
            Some(flag) => flag,
            None => false,
        };
        if !truncated {
            PageOutcome::Complete
        } else {
            match next_continuation_token {
                Some(token) => PageOutcome::Continue(token),
                None => PageOutcome::MissingToken,
            }
        }
    }
}

/// `key` without `prefix` when it starts with it, else all of `key`.
fn strip_prefix_chars(key: &[char], prefix: &[char]) -> (rest: Vec<char>)
    ensures
        rest@ == strip_prefix_or_self(key@, prefix@),
{
    let mut starts = prefix.len() <= key.len();
    let mut i: usize = 0;
    while starts && i < prefix.len()
        invariant
            starts ==> prefix@.len() <= key@.len(),
            i <= prefix@.len(),
            starts ==> forall|k: int| 0 <= k < i ==> key@[k] == prefix@[k],
            !starts ==> !(prefix@.len() <= key@.len() && key@.take(prefix@.len() as int) == prefix@),
        decreases prefix@.len() - i + (if starts {
            1int
        } else {
            0int
        }),
    {
        if key[i] != prefix[i] {
            assert(key@.take(prefix@.len() as int)[i as int] != prefix@[i as int]);
            starts = false;
        } else {
            i = i + 1;
        }
    }
    if starts {
        assert(key@.take(prefix@.len() as int) =~= prefix@);
    }
    let from = if starts {
        prefix.len()
    } else {
        0
    };
    let mut rest: Vec<char> = Vec::new();
    let mut k = from;
    while k < key.len()
        invariant
            from <= k <= key@.len(),
            rest@ == key@.subrange(from as int, k as int),
        decreases key@.len() - k,
    {
        rest.push(key[k]);
        k = k + 1;
        assert(key@.subrange(from as int, k as int) =~= key@.subrange(from as int, k - 1).push(
            key@[k - 1],
        ));
    }
    assert(key@.subrange(from as int, key@.len() as int) =~= key@.skip(from as int));
    assert(key@.skip(0) =~= key@);
    rest
}

/// Whether a character occurs.
fn contains_char(text: &[char], ch: char) -> (found: bool)
    ensures
        found == has_char(text@, ch),
{
    let mut i: usize = 0;
    while i < text.len()
        invariant
            i <= text@.len(),
            forall|j: int| 0 <= j < i ==> text@[j] != ch,
        decreases text@.len() - i,
    {
        if text[i] == ch {
            return true;
        }
        i = i + 1;
    }
    false
}

/// The track entry of an object, if it stands for one.
fn track_from(key: String, size: Option<i64>, prefix: &[char]) -> (entry: Option<Entry>)
    ensures
        match entry {
            Some(entry) => track_entry(prefix@, Some(key@), size) == Some(entry@),
            None => track_entry(prefix@, Some(key@), size) is None,
        },
{
    let key_chars = chars_of(key.as_str());
    let same_as_prefix = crate::storage::same_chars(key_chars.as_slice(), prefix);
    let ends_with_slash = key_chars.len() > 0 && key_chars[key_chars.len() - 1] == '/';
    if same_as_prefix || ends_with_slash || !is_audio_key(key.as_str()) {
        return None;
    }
    let name = strip_prefix_chars(key_chars.as_slice(), prefix);
    if contains_char(name.as_slice(), '/') {
        return None;
    }
    let size = match size {
        Some(size) => size,
        None => 0,
    };
    Some(Entry { kind: EntryKind::Track, key, name: string_from(name.as_slice()), size })
}

/// Lexicographic comparison by code point.
fn text_less_exec(a: &[char], b: &[char]) -> (less: bool)
    ensures
        less == text_less(a@, b@),
{
    let mut i: usize = 0;
    assert(a@.skip(0) =~= a@);
    assert(b@.skip(0) =~= b@);
    while i < a.len() && i < b.len() && a[i] == b[i]
        invariant
            i <= a@.len(),
            i <= b@.len(),
            text_less(a@, b@) == text_less(a@.skip(i as int), b@.skip(i as int)),
        decreases a@.len() - i,
    {
        assert(a@.skip(i as int).drop_first() =~= a@.skip(i + 1));
        assert(b@.skip(i as int).drop_first() =~= b@.skip(i + 1));
        i = i + 1;
    }
    let ghost sa = a@.skip(i as int);
    let ghost sb = b@.skip(i as int);
    if i == a.len() {
        assert(sa.len() == 0);
        i < b.len()
    } else if i == b.len() {
        assert(sa.len() > 0 && sb.len() == 0);
        false
    } else {
        assert(sa[0] == a@[i as int] && sb[0] == b@[i as int]);
        assert(sa[0] != sb[0]);
        a[i] < b[i]
    }
}

/// Whether an entry with rank `rank_a` and lowercase name `lower_a` goes
/// strictly before one with `rank_b` and `lower_b`.
fn goes_before_exec(rank_a: u8, lower_a: &[char], rank_b: u8, lower_b: &[char]) -> (before: bool)
    ensures
        before == (rank_a < rank_b || (rank_a == rank_b && text_less(lower_a@, lower_b@))),
{
    rank_a < rank_b || (rank_a == rank_b && text_less_exec(lower_a, lower_b))
}

/// Inserting after the last element that does not sort after the entry.
proof fn lemma_insert_at(sorted: Seq<EntryView>, entry: EntryView, j: int)
    requires
        0 <= j <= sorted.len(),
        forall|k: int| j <= k < sorted.len() ==> goes_before(entry, #[trigger] sorted[k]),
        j == 0 || !goes_before(entry, sorted[j - 1]),
    ensures
        insert_sorted(sorted, entry) == sorted.take(j).push(entry) + sorted.skip(j),
    decreases sorted.len(),
{
    if sorted.len() == 0 {
        assert(sorted.take(j).push(entry) + sorted.skip(j) =~= seq![entry]);
    } else if j == sorted.len() {
        assert(sorted.take(j).push(entry) + sorted.skip(j) =~= sorted.push(entry));
    } else {
        let shorter = sorted.drop_last();
        assert(goes_before(entry, sorted[sorted.len() - 1]));
        assert forall|k: int| j <= k < shorter.len() implies goes_before(entry, #[trigger] shorter[k]) by {
            assert(shorter[k] == sorted[k]);
        }
        if j > 0 {
            assert(shorter[j - 1] == sorted[j - 1]);
        }
        lemma_insert_at(shorter, entry, j);
        assert(shorter.take(j).push(entry) + shorter.skip(j) + seq![sorted.last()] =~= sorted.take(
            j,
        ).push(entry) + sorted.skip(j));
        assert(insert_sorted(shorter, entry).push(sorted.last()) =~= shorter.take(j).push(entry)
            + shorter.skip(j) + seq![sorted.last()]);
    }
}

/// Sorts entries as `sort_entries` says: folders first, then by lowercase
/// name, keeping the order of entries that compare equal.
pub fn sort_listing(entries: Vec<Entry>) -> (sorted: Vec<Entry>)
    ensures
        entry_views(sorted@) == sort_entries(entry_views(entries@)),
{
    let ghost input = entry_views(entries@);
    let ghost all = entries@;
    let mut rest = entries;
    let n = rest.len();
    let mut sorted: Vec<Entry> = Vec::new();
    let mut keys: Vec<Vec<char>> = Vec::new();
    let mut i: usize = 0;
    assert(input.take(0) =~= Seq::<EntryView>::empty());
    assert(entry_views(sorted@) =~= Seq::<EntryView>::empty());
    while i < n
        invariant
            n == all.len(),
            input == entry_views(all),
            i <= n,
            rest@ == all.skip(i as int),
            entry_views(sorted@) == sort_entries(input.take(i as int)),
            keys@.len() == sorted@.len(),
            forall|k: int| 0 <= k < keys@.len() ==> #[trigger] keys@[k]@ == lowercase_text(sorted@[k].name@),
        decreases n - i,
    {
        assert(rest@[0] == all[i as int]);
        let entry = rest.remove(0);
        assert(all.skip(i + 1) =~= all.skip(i as int).drop_first());
        let lower_text = entry.name.as_str().to_lowercase();
        let lower = chars_of(lower_text.as_str());
        let rank = kind_order(entry.kind);
        let ghost current = entry_views(sorted@);
        let mut j = sorted.len();
        while j > 0 && goes_before_exec(
            rank,
            lower.as_slice(),
            kind_order(sorted[j - 1].kind),
            keys[j - 1].as_slice(),
        )
            invariant
                current == entry_views(sorted@),
                keys@.len() == sorted@.len(),
                forall|k: int| 0 <= k < keys@.len() ==> #[trigger] keys@[k]@ == lowercase_text(sorted@[k].name@),
                lower@ == lowercase_text(entry.name@),
                rank == kind_rank(entry.kind),
                j <= sorted@.len(),
                forall|k: int| j <= k < current.len() ==> goes_before(entry@, #[trigger] current[k]),
            decreases j,
        {
            assert(keys@[j - 1]@ == lowercase_text(sorted@[j - 1].name@));
            assert(current[j - 1] == sorted@[j - 1]@);
            j = j - 1;
        }
        proof {
            if j > 0 {
                assert(keys@[j - 1]@ == lowercase_text(sorted@[j - 1].name@));
                assert(current[j - 1] == sorted@[j - 1]@);
            }
            lemma_insert_at(current, entry@, j as int);
            assert(input.take(i + 1).drop_last() =~= input.take(i as int));
            assert(input.take(i + 1).last() == entry@);
        }
        let ghost sorted_before = sorted@;
        let ghost keys_before = keys@;
        sorted.insert(j, entry);
        keys.insert(j, lower);
        assert(entry_views(sorted@) =~= current.take(j as int).push(entry@) + current.skip(j as int));
        assert forall|k: int| 0 <= k < keys@.len() implies #[trigger] keys@[k]@ == lowercase_text(sorted@[k].name@) by {
            if k < j {
                assert(keys@[k] == keys_before[k]);
                assert(sorted@[k] == sorted_before[k]);
            } else if k > j {
                assert(keys@[k] == keys_before[k - 1]);
                assert(sorted@[k] == sorted_before[k - 1]);
            }
        }
        i = i + 1;
    }
    assert(input.take(n as int) =~= input);
    sorted
}

/// Drops each entry that repeats the object just before it.
pub fn dedup_listing(entries: Vec<Entry>) -> (kept: Vec<Entry>)
    ensures
        entry_views(kept@) == dedup_entries(entry_views(entries@)),
{
    let ghost input = entry_views(entries@);
    let ghost all = entries@;
    let mut rest = entries;
    let n = rest.len();
    let mut kept: Vec<Entry> = Vec::new();
    let mut previous: Option<(EntryKind, String)> = None;
    let mut i: usize = 0;
    assert(input.take(0) =~= Seq::<EntryView>::empty());
    assert(entry_views(kept@) =~= Seq::<EntryView>::empty());
    while i < n
        invariant
            n == all.len(),
            input == entry_views(all),
            i <= n,
            rest@ == all.skip(i as int),
            entry_views(kept@) == dedup_entries(input.take(i as int)),
            i == 0 ==> previous is None,
            i > 0 ==> (previous matches Some((kind, key)) && kind == input[i - 1].kind && key@
                == input[i - 1].key),
        decreases n - i,
    {
        assert(rest@[0] == all[i as int]);
        let entry = rest.remove(0);
        assert(all.skip(i + 1) =~= all.skip(i as int).drop_first());
        assert(entry@ == input[i as int]);
        let repeat = match &previous {
            Some((kind, key)) => *kind == entry.kind && *key == entry.key,
            None => false,
        };
        let kind = entry.kind;
        let key = entry.key.clone();
        let ghost kept_before = kept@;
        proof {
            let prefix = input.take(i + 1);
            assert(prefix.drop_last() =~= input.take(i as int));
            assert(prefix.last() == input[i as int]);
            if i > 0 {
                assert(prefix[prefix.len() - 2] == input[i - 1]);
            }
        }
        if !repeat {
            kept.push(entry);
            assert(entry_views(kept@) =~= entry_views(kept_before).push(input[i as int]));
        }
        previous = Some((kind, key));
        i = i + 1;
    }
    assert(input.take(n as int) =~= input);
    kept
}

impl Listing {
    /// The entries in listing order, without repeats: folders first, then
    /// tracks, each by lowercase name.
    pub fn finish(self) -> (entries: Vec<Entry>)
        ensures
            entry_views(entries@) == dedup_entries(sort_entries(entry_views(self.entries@))),
    {
        dedup_listing(sort_listing(self.entries))
    }
}

} // verus!
