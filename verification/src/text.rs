use vstd::prelude::*;

verus! {

// ---------------------------------------------------------------------------
// Contracts for the parts of std's `String` and `str` API that this crate uses
// and that vstd leaves unspecified.
// ---------------------------------------------------------------------------

/// `String::push` appends one character.
pub assume_specification[ String::push ](string: &mut String, ch: char)
    ensures
        final(string)@ == old(string)@.push(ch),
;

/// `String::pop` removes and returns the last character, or returns `None`
/// and leaves an empty string unchanged.
pub assume_specification[ String::pop ](string: &mut String) -> (last: Option<char>)
    ensures
        old(string)@.len() == 0 ==> last is None && final(string)@ == old(string)@,
        old(string)@.len() > 0 ==> last == Some(old(string)@.last()) && final(string)@
            == old(string)@.drop_last(),
;

/// `String::clear` empties the string.
pub assume_specification[ String::clear ](string: &mut String)
    ensures
        final(string)@ == Seq::<char>::empty(),
;

/// What `str::to_lowercase` returns for a text: its Unicode lowercase mapping,
/// which depends on the text alone.
pub uninterp spec fn lowercase_text(text: Seq<char>) -> Seq<char>;

/// `str::to_lowercase` returns the Unicode lowercase mapping of the text.
pub assume_specification[ str::to_lowercase ](text: &str) -> (lower: String)
    ensures
        lower@ == lowercase_text(text@),
;

/// Whether a character has the Unicode `White_Space` property: the 25 code
/// points that the Unicode Character Database (`PropList.txt`) lists,
/// U+0009..U+000D, U+0020, U+0085, U+00A0, U+1680, U+2000..U+200A, U+2028,
/// U+2029, U+202F, U+205F and U+3000.
pub open spec fn is_unicode_whitespace(ch: char) -> bool {
    let c = ch as u32;
    ||| 0x09 <= c <= 0x0d
    ||| c == 0x20
    ||| c == 0x85
    ||| c == 0xa0
    ||| c == 0x1680
    ||| 0x2000 <= c <= 0x200a
    ||| c == 0x2028
    ||| c == 0x2029
    ||| c == 0x202f
    ||| c == 0x205f
    ||| c == 0x3000
}

/// `char::is_whitespace` tests the Unicode `White_Space` property, as the
/// standard library documents it.
pub assume_specification[ char::is_whitespace ](ch: char) -> (white: bool)
    ensures
        white == is_unicode_whitespace(ch),
;

// ---------------------------------------------------------------------------
// Mathematical descriptions of text operations.
// ---------------------------------------------------------------------------

/// The text without its leading characters that satisfy `is_unicode_whitespace`.
pub open spec fn trim_start_spec(text: Seq<char>) -> Seq<char>
    decreases text.len(),
{
    if text.len() > 0 && is_unicode_whitespace(text[0]) {
        trim_start_spec(text.drop_first())
    } else {
        text
    }
}

/// The text without its trailing characters that satisfy `is_unicode_whitespace`.
pub open spec fn trim_end_spec(text: Seq<char>) -> Seq<char>
    decreases text.len(),
{
    if text.len() > 0 && is_unicode_whitespace(text.last()) {
        trim_end_spec(text.drop_last())
    } else {
        text
    }
}

/// `str::trim`: the text without leading and trailing whitespace.
pub open spec fn trim_spec(text: Seq<char>) -> Seq<char> {
    trim_end_spec(trim_start_spec(text))
}

/// The text without its trailing occurrences of `ch` (`str::trim_end_matches`).
pub open spec fn trim_end_char(text: Seq<char>, ch: char) -> Seq<char>
    decreases text.len(),
{
    if text.len() > 0 && text.last() == ch {
        trim_end_char(text.drop_last(), ch)
    } else {
        text
    }
}

/// Whether `ch` occurs in `text`.
pub open spec fn has_char(text: Seq<char>, ch: char) -> bool {
    exists|i: int| 0 <= i < text.len() && text[i] == ch
}

/// Whether `needle` occurs as a contiguous part of `text`.
pub open spec fn has_part(text: Seq<char>, needle: Seq<char>) -> bool {
    exists|i: int| 0 <= i <= text.len() - needle.len() && #[trigger] text.subrange(i, i + needle.len()) == needle
}

/// Whether some occurrence of `ch` stands at `i` and none after it.
pub open spec fn is_last_index_of(text: Seq<char>, ch: char, i: int) -> bool {
    &&& 0 <= i < text.len()
    &&& text[i] == ch
    &&& forall|j: int| i < j < text.len() ==> text[j] != ch
}

/// The index of the last occurrence of `ch`, as `str::rfind` reports it.
pub open spec fn last_index_of(text: Seq<char>, ch: char) -> Option<int> {
    if has_char(text, ch) {
        Some(choose|i: int| is_last_index_of(text, ch, i))
    } else {
        None
    }
}

/// The ASCII lowercase form of a character (`char::to_ascii_lowercase`).
pub open spec fn ascii_lower(ch: char) -> char {
    if 'A' <= ch <= 'Z' {
        ((ch as u32) + 32) as char
    } else {
        ch
    }
}

/// The ASCII lowercase form of a text (`str::to_ascii_lowercase`).
pub open spec fn ascii_lower_text(text: Seq<char>) -> Seq<char> {
    text.map_values(|ch: char| ascii_lower(ch))
}

/// The character of a decimal digit.
pub open spec fn digit_char(digit: nat) -> char {
    ((digit + 48) as u32) as char
}

/// The decimal representation of a natural number, without leading zeros.
pub open spec fn decimal(n: nat) -> Seq<char>
    decreases n,
{
    if n < 10 {
        seq![digit_char(n)]
    } else {
        decimal(n / 10).push(digit_char(n % 10))
    }
}

/// Lexicographic order of texts by code point, which is the order of
/// `String`'s `Ord` (UTF-8 preserves code point order).
pub open spec fn text_less(a: Seq<char>, b: Seq<char>) -> bool
    decreases a.len(),
{
    if a.len() == 0 {
        b.len() > 0
    } else if b.len() == 0 {
        false
    } else if a[0] != b[0] {
        a[0] < b[0]
    } else {
        text_less(a.drop_first(), b.drop_first())
    }
}

// ---------------------------------------------------------------------------
// Facts about the descriptions.
// ---------------------------------------------------------------------------

pub proof fn lemma_text_less_irreflexive(a: Seq<char>)
    ensures
        !text_less(a, a),
    decreases a.len(),
{
    if a.len() > 0 {
        lemma_text_less_irreflexive(a.drop_first());
    }
}

pub proof fn lemma_text_less_total(a: Seq<char>, b: Seq<char>)
    ensures
        text_less(a, b) || text_less(b, a) || a == b,
    decreases a.len(),
{
    if a.len() > 0 && b.len() > 0 && a[0] == b[0] {
        lemma_text_less_total(a.drop_first(), b.drop_first());
        if a.drop_first() == b.drop_first() {
            assert(a =~= seq![a[0]] + a.drop_first());
            assert(b =~= seq![b[0]] + b.drop_first());
        }
    } else if a.len() == 0 && b.len() == 0 {
        assert(a =~= b);
    } else if a.len() > 0 && b.len() > 0 {
    }
}

pub proof fn lemma_text_less_asymmetric(a: Seq<char>, b: Seq<char>)
    requires
        text_less(a, b),
    ensures
        !text_less(b, a),
    decreases a.len(),
{
    if a.len() > 0 && b.len() > 0 && a[0] == b[0] {
        lemma_text_less_asymmetric(a.drop_first(), b.drop_first());
    }
}

pub proof fn lemma_text_less_transitive(a: Seq<char>, b: Seq<char>, c: Seq<char>)
    requires
        text_less(a, b),
        text_less(b, c),
    ensures
        text_less(a, c),
    decreases a.len(),
{
    if a.len() > 0 && b.len() > 0 && c.len() > 0 && a[0] == b[0] && b[0] == c[0] {
        lemma_text_less_transitive(a.drop_first(), b.drop_first(), c.drop_first());
    }
}

proof fn lemma_decimal_nonempty(n: nat)
    ensures
        decimal(n).len() >= 1,
    decreases n,
{
    if n >= 10 {
        lemma_decimal_nonempty(n / 10);
    }
}

// ---------------------------------------------------------------------------
// Executable text helpers.
// ---------------------------------------------------------------------------

/// The characters of a text, in order.
pub fn chars_of(text: &str) -> (chars: Vec<char>)
    ensures
        chars@ == text@,
{
    let mut chars: Vec<char> = Vec::new();
    for ch in it: text.chars()
        invariant
            it.seq() == text@,
            chars@ == it.seq().take(it.index() as int),
    {
        chars.push(ch);
    }
    chars
}

/// A `String` holding the given characters.
pub fn string_from(chars: &[char]) -> (text: String)
    ensures
        text@ == chars@,
{
    let mut text = String::new();
    let mut i: usize = 0;
    while i < chars.len()
        invariant
            i <= chars@.len(),
            text@ == chars@.take(i as int),
        decreases chars@.len() - i,
    {
        text.push(chars[i]);
        i = i + 1;
        assert(chars@.take(i as int) =~= chars@.take(i - 1).push(chars@[i - 1]));
    }
    assert(chars@.take(chars@.len() as int) =~= chars@);
    text
}

/// Appends a text to a `String`.
pub fn push_text(target: &mut String, text: &str)
    ensures
        final(target)@ == old(target)@ + text@,
{
    target.append(text);
}

/// A fresh `String` with the content of a text.
pub fn owned(text: &str) -> (copy: String)
    ensures
        copy@ == text@,
{
    text.to_owned()
}

/// Appends the decimal representation of `n`.
pub fn push_decimal(target: &mut String, n: u64)
    ensures
        final(target)@ == old(target)@ + decimal(n as nat),
    decreases n,
{
    if n >= 10 {
        push_decimal(target, n / 10);
    }
    let digit = (n % 10) as u8;
    let ch = (digit + 48) as char;
    assert(ch == digit_char((n % 10) as nat));
    target.push(ch);
    assert(decimal(n as nat) == if n < 10 {
        seq![digit_char(n as nat)]
    } else {
        decimal((n / 10) as nat).push(digit_char((n % 10) as nat))
    });
}

/// Whether `needle` occurs in `text`.
pub fn contains_part(text: &[char], needle: &[char]) -> (found: bool)
    ensures
        found == has_part(text@, needle@),
{
    if needle.len() > text.len() {
        return false;
    }
    let last_start = text.len() - needle.len();
    let mut start: usize = 0;
    while start <= last_start
        invariant
            needle@.len() <= text@.len(),
            last_start == text@.len() - needle@.len(),
            start <= last_start + 1,
            forall|i: int| 0 <= i < start ==> #[trigger] text@.subrange(i, i + needle@.len()) != needle@,
        decreases last_start + 1 - start,
    {
        let mut k: usize = 0;
        let mut same = true;
        while k < needle.len()
            invariant
                needle@.len() <= text@.len(),
                start <= last_start,
                last_start == text@.len() - needle@.len(),
                k <= needle@.len(),
                same == (forall|m: int| 0 <= m < k ==> text@[start + m] == needle@[m]),
            decreases needle@.len() - k,
        {
            assert(start + k < text.len());
            if text[start + k] != needle[k] {
                same = false;
            }
            k = k + 1;
        }
        if same {
            assert(text@.subrange(start as int, start + needle@.len()) =~= needle@);
            return true;
        }
        assert(text@.subrange(start as int, start + needle@.len()) != needle@) by {
            let m = choose|m: int| 0 <= m < needle@.len() && text@[start + m] != needle@[m];
            assert(text@.subrange(start as int, start + needle@.len())[m] == text@[start + m]);
        }
        if start == last_start {
            return false;
        }
        start = start + 1;
    }
    false
}

/// The index of the last occurrence of `ch`, if any.
pub fn rfind_char(text: &[char], ch: char) -> (found: Option<usize>)
    ensures
        found is Some <==> has_char(text@, ch),
        found matches Some(i) ==> is_last_index_of(text@, ch, i as int),
        found matches Some(i) ==> last_index_of(text@, ch) == Some(i as int),
        found is None ==> last_index_of(text@, ch) is None,
{
    let mut i = text.len();
    while i > 0
        invariant
            i <= text@.len(),
            forall|j: int| i <= j < text@.len() ==> text@[j] != ch,
        decreases i,
    {
        if text[i - 1] == ch {
            let r = i - 1;
            assert(is_last_index_of(text@, ch, r as int));
            proof {
                let c = choose|j: int| is_last_index_of(text@, ch, j);
                if c < r {
                    assert(text@[r as int] != ch);
                } else if c > r {
                    assert(text@[c] != ch);
                }
            }
            return Some(r);
        }
        i = i - 1;
    }
    None
}

/// The text without its trailing occurrences of `ch`.
pub fn trim_end_char_of(text: &[char], ch: char) -> (trimmed: Vec<char>)
    ensures
        trimmed@ == trim_end_char(text@, ch),
{
    let mut end = text.len();
    assert(text@.take(end as int) =~= text@);
    while end > 0 && text[end - 1] == ch
        invariant
            end <= text@.len(),
            trim_end_char(text@, ch) == trim_end_char(text@.take(end as int), ch),
        decreases end,
    {
        assert(text@.take(end - 1) =~= text@.take(end as int).drop_last());
        end = end - 1;
    }
    assert(trim_end_char(text@.take(end as int), ch) == text@.take(end as int));
    let mut out: Vec<char> = Vec::new();
    let mut i: usize = 0;
    while i < end
        invariant
            end <= text@.len(),
            i <= end,
            out@ == text@.take(i as int),
        decreases end - i,
    {
        out.push(text[i]);
        i = i + 1;
        assert(text@.take(i as int) =~= text@.take(i - 1).push(text@[i - 1]));
    }
    assert(text@.take(text@.len() as int) =~= text@);
    out
}

/// `str::trim`, proved against `trim_spec`.
pub fn trim_of(text: &[char]) -> (trimmed: Vec<char>)
    ensures
        trimmed@ == trim_spec(text@),
{
    let mut start: usize = 0;
    assert(text@.skip(0) =~= text@);
    while start < text.len() && text[start].is_whitespace()
        invariant
            start <= text@.len(),
            trim_start_spec(text@) == trim_start_spec(text@.skip(start as int)),
        decreases text@.len() - start,
    {
        assert(text@.skip(start + 1) =~= text@.skip(start as int).drop_first());
        start = start + 1;
    }
    assert(trim_start_spec(text@.skip(start as int)) == text@.skip(start as int));
    let mut end = text.len();
    while end > start && text[end - 1].is_whitespace()
        invariant
            start <= end <= text@.len(),
            trim_start_spec(text@) == text@.skip(start as int),
            trim_spec(text@) == trim_end_spec(text@.subrange(start as int, end as int)),
        decreases end,
    {
        assert(text@.subrange(start as int, end - 1) =~= text@.subrange(
            start as int,
            end as int,
        ).drop_last());
        end = end - 1;
    }
    assert(text@.skip(start as int) =~= text@.subrange(start as int, text@.len() as int));
    assert(trim_end_spec(text@.subrange(start as int, end as int)) == text@.subrange(
        start as int,
        end as int,
    ));
    let mut out: Vec<char> = Vec::new();
    let mut i = start;
    while i < end
        invariant
            start <= i <= end <= text@.len(),
            out@ == text@.subrange(start as int, i as int),
        decreases end - i,
    {
        out.push(text[i]);
        i = i + 1;
        assert(text@.subrange(start as int, i as int) =~= text@.subrange(
            start as int,
            i - 1,
        ).push(text@[i - 1]));
    }
    out
}

} // verus!
