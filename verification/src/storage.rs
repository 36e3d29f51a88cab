use crate::text::{
    ascii_lower, ascii_lower_text, chars_of, contains_part, has_part, last_index_of, owned,
    push_text, rfind_char, string_from, trim_end_char, trim_end_char_of, trim_of, trim_spec,
};
use crate::s3::{s3_client, ClientSettings, S3Client};
use vstd::prelude::*;

verus! {

/// The file extensions, in lowercase, of the objects that are offered as tracks.
pub open spec fn audio_extensions() -> Seq<Seq<char>> {
    seq![
        "aac"@,
        "aif"@,
        "aiff"@,
        "alac"@,
        "flac"@,
        "m4a"@,
        "mka"@,
        "mp2"@,
        "mp3"@,
        "ogg"@,
        "oga"@,
        "opus"@,
        "wav"@,
        "wave"@,
        "webm"@,
    ]
}

/// What the user typed on the connection screen.
#[derive(Clone)]
pub struct ConnectionDetails {
    pub endpoint: String,
    pub region: String,
    pub bucket: String,
    pub access_key: String,
    pub secret_key: String,
}

pub struct ConnectionDetailsView {
    pub endpoint: Seq<char>,
    pub region: Seq<char>,
    pub bucket: Seq<char>,
    pub access_key: Seq<char>,
    pub secret_key: Seq<char>,
}

impl View for ConnectionDetails {
    type V = ConnectionDetailsView;

    open spec fn view(&self) -> ConnectionDetailsView {
        ConnectionDetailsView {
            endpoint: self.endpoint@,
            region: self.region@,
            bucket: self.bucket@,
            access_key: self.access_key@,
            secret_key: self.secret_key@,
        }
    }
}

impl ConnectionDetails {
    /// Overwrites the access key and the secret key, leaving them empty.
    pub fn scrub(&mut self)
        ensures
            final(self)@ == (ConnectionDetailsView {
                access_key: Seq::empty(),
                secret_key: Seq::empty(),
                ..old(self)@
            }),
    {
        zeroize::Zeroize::zeroize(&mut self.access_key);
        zeroize::Zeroize::zeroize(&mut self.secret_key);
    }
}

/// `Zeroize` for `String` overwrites the bytes with zeros and then empties the
/// string (zeroize's `impl Zeroize for String`, through `Vec<u8>::zeroize`,
/// which ends with `clear`).
pub assume_specification[ <String as zeroize::Zeroize>::zeroize ](text: &mut String)
    ensures
        final(text)@ == Seq::<char>::empty(),
;

#[derive(Clone, Copy, Debug, PartialEq, Eq, Structural)]
pub enum EntryKind {
    Folder,
    Track,
}

/// A folder or an audio track of the bucket.
#[derive(Clone, Debug, PartialEq, Eq)]
pub struct Entry {
    pub kind: EntryKind,
    pub key: String,
    pub name: String,
    pub size: i64,
}

pub struct EntryView {
    pub kind: EntryKind,
    pub key: Seq<char>,
    pub name: Seq<char>,
    pub size: i64,
}

impl View for Entry {
    type V = EntryView;

    open spec fn view(&self) -> EntryView {
        EntryView { kind: self.kind, key: self.key@, name: self.name@, size: self.size }
    }
}

/// The views of a sequence of entries.
pub open spec fn entry_views(entries: Seq<Entry>) -> Seq<EntryView> {
    entries.map_values(|entry: Entry| entry@)
}

/// The rank by which listings put folders before tracks.
pub open spec fn kind_rank(kind: EntryKind) -> u8 {
    match kind {
        EntryKind::Folder => 0,
        EntryKind::Track => 1,
    }
}

pub fn kind_order(kind: EntryKind) -> (rank: u8)
    ensures
        rank == kind_rank(kind),
{
    match kind {
        EntryKind::Folder => 0,
        EntryKind::Track => 1,
    }
}

/// The extension of a key: what follows its last dot, if it has one.
pub open spec fn key_extension(key: Seq<char>) -> Option<Seq<char>> {
    match last_index_of(key, '.') {
        Some(dot) => Some(key.skip(dot + 1)),
        None => None,
    }
}

/// Whether an object key names a supported audio file: its extension, in ASCII
/// lowercase, is one of `audio_extensions()`.
pub open spec fn is_audio_key_spec(key: Seq<char>) -> bool {
    match key_extension(key) {
        Some(extension) => audio_extensions().contains(ascii_lower_text(extension)),
        None => false,
    }
}

/// The extension under which a downloaded object is decoded: the key's
/// extension in ASCII lowercase.
pub open spec fn download_extension_spec(key: Seq<char>) -> Option<Seq<char>> {
    match key_extension(key) {
        Some(extension) => Some(ascii_lower_text(extension)),
        None => None,
    }
}

pub fn download_extension(key: &str) -> (extension: Option<String>)
    ensures
        match extension {
            Some(text) => download_extension_spec(key@) == Some(text@),
            None => download_extension_spec(key@) is None,
        },
{
    let chars = chars_of(key);
    match rfind_char(chars.as_slice(), '.') {
        Some(dot) => {
            assert(dot < chars.len());
            let lower = ascii_lower_from(chars.as_slice(), dot + 1);
            Some(string_from(lower.as_slice()))
        },
        None => None,
    }
}

/// Whether two character sequences are equal.
pub fn same_chars(a: &[char], b: &[char]) -> (same: bool)
    ensures
        same == (a@ == b@),
{
    if a.len() != b.len() {
        return false;
    }
    let mut i: usize = 0;
    while i < a.len()
        invariant
            a@.len() == b@.len(),
            i <= a@.len(),
            forall|j: int| 0 <= j < i ==> a@[j] == b@[j],
        decreases a@.len() - i,
    {
        if a[i] != b[i] {
            return false;
        }
        i = i + 1;
    }
    assert(a@ =~= b@);
    true
}

/// The ASCII lowercase form of a character.
pub fn to_ascii_lower(ch: char) -> (lower: char)
    ensures
        lower == ascii_lower(ch),
{
    if 'A' <= ch && ch <= 'Z' {
        let code = ch as u8;
        ((code + 32) as char)
    } else {
        ch
    }
}

/// The ASCII lowercase form of the characters of `text` from `start` on.
fn ascii_lower_from(text: &[char], start: usize) -> (lower: Vec<char>)
    requires
        start <= text@.len(),
    ensures
        lower@ == ascii_lower_text(text@.skip(start as int)),
{
    let mut lower: Vec<char> = Vec::new();
    let mut i = start;
    while i < text.len()
        invariant
            start <= i <= text@.len(),
            lower@ == ascii_lower_text(text@.subrange(start as int, i as int)),
        decreases text@.len() - i,
    {
        lower.push(to_ascii_lower(text[i]));
        i = i + 1;
        assert(ascii_lower_text(text@.subrange(start as int, i as int)) =~= ascii_lower_text(
            text@.subrange(start as int, i - 1),
        ).push(ascii_lower(text@[i - 1])));
    }
    assert(text@.subrange(start as int, text@.len() as int) =~= text@.skip(start as int));
    lower
}

/// Whether a lowercase extension is one of the supported audio extensions.
fn is_audio_extension(extension: &[char]) -> (audio: bool)
    ensures
        audio == audio_extensions().contains(extension@),
{
    let known = [
        "aac",
        "aif",
        "aiff",
        "alac",
        "flac",
        "m4a",
        "mka",
        "mp2",
        "mp3",
        "ogg",
        "oga",
        "opus",
        "wav",
        "wave",
        "webm",
    ];
    assert(known@.map_values(|name: &str| name@) =~= audio_extensions());
    let mut i: usize = 0;
    while i < 15
        invariant
            i <= 15,
            known@.map_values(|name: &str| name@) == audio_extensions(),
            forall|j: int| 0 <= j < i ==> audio_extensions()[j] != extension@,
        decreases 15 - i,
    {
        let candidate = chars_of(known[i]);
        assert(known@.map_values(|name: &str| name@)[i as int] == known@[i as int]@);
        if same_chars(candidate.as_slice(), extension) {
            assert(audio_extensions()[i as int] == extension@);
            return true;
        }
        i = i + 1;
    }
    assert(!audio_extensions().contains(extension@)) by {
        if audio_extensions().contains(extension@) {
            let j = choose|j: int| 0 <= j < 15 && audio_extensions()[j] == extension@;
            assert(audio_extensions()[j] != extension@);
        }
    }
    false
}

/// Whether an object key names a supported audio file, judged by its extension
/// without regard to ASCII case.
pub fn is_audio_key(key: &str) -> (audio: bool)
    ensures
        audio == is_audio_key_spec(key@),
{
    let chars = chars_of(key);
    match rfind_char(chars.as_slice(), '.') {
        Some(dot) => {
            assert(dot < chars.len());
            let extension = ascii_lower_from(chars.as_slice(), dot + 1);
            is_audio_extension(extension.as_slice())
        },
        None => false,
    }
}

// ---------------------------------------------------------------------------
// Endpoint and connection checks.
// ---------------------------------------------------------------------------

/// Why an endpoint was refused.
#[derive(Debug)]
pub enum EndpointError {
    /// Nothing but whitespace was entered.
    Missing,
    /// `url::Url::parse` refused the text; the parser's message.
    Invalid(String),
    /// The URL is neither `http` nor `https`, or it names no host.
    NotHttp,
}

pub enum EndpointErrorView {
    Missing,
    Invalid(Seq<char>),
    NotHttp,
}

impl View for EndpointError {
    type V = EndpointErrorView;

    open spec fn view(&self) -> EndpointErrorView {
        match self {
            EndpointError::Missing => EndpointErrorView::Missing,
            EndpointError::Invalid(detail) => EndpointErrorView::Invalid(detail@),
            EndpointError::NotHttp => EndpointErrorView::NotHttp,
        }
    }
}

/// Why a connection was refused before any request was made.
#[derive(Debug)]
pub enum ConnectError {
    Endpoint(EndpointError),
    MissingRegion,
    MissingBucket,
    MissingKeys,
}

pub enum ConnectErrorView {
    Endpoint(EndpointErrorView),
    MissingRegion,
    MissingBucket,
    MissingKeys,
}

impl View for ConnectError {
    type V = ConnectErrorView;

    open spec fn view(&self) -> ConnectErrorView {
        match self {
            ConnectError::Endpoint(error) => ConnectErrorView::Endpoint(error@),
            ConnectError::MissingRegion => ConnectErrorView::MissingRegion,
            ConnectError::MissingBucket => ConnectErrorView::MissingBucket,
            ConnectError::MissingKeys => ConnectErrorView::MissingKeys,
        }
    }
}

impl ConnectErrorView {
    pub open spec fn message(self) -> Seq<char> {
        match self {
            ConnectErrorView::Endpoint(EndpointErrorView::Missing) => "S3 endpoint is required"@,
            ConnectErrorView::Endpoint(EndpointErrorView::Invalid(detail)) => "invalid S3 endpoint: "@
                + detail,
            ConnectErrorView::Endpoint(EndpointErrorView::NotHttp) => "S3 endpoint must be an HTTP or HTTPS URL"@,
            ConnectErrorView::MissingRegion => "Region is required (Cloudflare R2 uses 'auto')"@,
            ConnectErrorView::MissingBucket => "Bucket name is required"@,
            ConnectErrorView::MissingKeys => "Access key ID and secret access key are required"@,
        }
    }
}

impl ConnectError {
    /// The text that explains the refusal.
    pub fn message(&self) -> (text: String)
        ensures
            text@ == self@.message(),
    {
        match self {
            ConnectError::Endpoint(EndpointError::Missing) => owned("S3 endpoint is required"),
            ConnectError::Endpoint(EndpointError::Invalid(detail)) => {
                let mut text = owned("invalid S3 endpoint: ");
                push_text(&mut text, detail.as_str());
                text
            },
            ConnectError::Endpoint(EndpointError::NotHttp) => owned(
                "S3 endpoint must be an HTTP or HTTPS URL",
            ),
            ConnectError::MissingRegion => owned("Region is required (Cloudflare R2 uses 'auto')"),
            ConnectError::MissingBucket => owned("Bucket name is required"),
            ConnectError::MissingKeys => owned("Access key ID and secret access key are required"),
        }
    }
}

/// What `url::Url::parse` makes of a text: the parsed URL's scheme and host
/// (`Url::scheme`, `Url::host_str`), or the text of the parse error. It depends
/// on the text alone.
pub uninterp spec fn url_parse_outcome(input: Seq<char>) -> Result<
    (Seq<char>, Option<Seq<char>>),
    Seq<char>,
>;

/// The view of what `parse_url` reports.
pub open spec fn url_outcome_view(outcome: Result<(String, Option<String>), String>) -> Result<
    (Seq<char>, Option<Seq<char>>),
    Seq<char>,
> {
    match outcome {
        Ok((scheme, host)) => Ok(
            (
                scheme@,
                match host {
                    Some(host) => Some(host@),
                    None => None,
                },
            ),
        ),
        Err(message) => Err(message@),
    }
}

/// Calls `url::Url::parse` on the text and reports the scheme and host of the
/// URL, or the `Display` text of the `url::ParseError`. The contract only names
/// the report `url_parse_outcome` of the text; what the parser accepts is not
/// restated.
#[verifier::external_body]
fn parse_url(input: &str) -> (outcome: Result<(String, Option<String>), String>)
    ensures
        url_outcome_view(outcome) == url_parse_outcome(input@),
{
    match url::Url::parse(input) {
        Ok(url) => Ok((url.scheme().to_owned(), url.host_str().map(|host| host.to_owned()))),
        Err(error) => Err(error.to_string()),
    }
}

/// The URL that is handed to the parser: the trimmed endpoint, with
/// `https://` in front when it names no scheme.
pub open spec fn endpoint_candidate(endpoint: Seq<char>) -> Seq<char> {
    let trimmed = trim_spec(endpoint);
    if has_part(trimmed, "://"@) {
        trimmed
    } else {
        "https://"@ + trimmed
    }
}

/// The endpoint that results from a candidate URL and the parser's verdict on it.
pub open spec fn endpoint_from_parse_spec(
    candidate: Seq<char>,
    parsed: Result<(Seq<char>, Option<Seq<char>>), Seq<char>>,
) -> Result<Seq<char>, EndpointErrorView> {
    match parsed {
        Err(detail) => Err(EndpointErrorView::Invalid(detail)),
        Ok((scheme, host)) => if (scheme == "http"@ || scheme == "https"@) && host is Some {
            Ok(trim_end_char(candidate, '/'))
        } else {
            Err(EndpointErrorView::NotHttp)
        },
    }
}

/// The normalized endpoint, or why it is refused.
pub open spec fn normalize_endpoint_spec(endpoint: Seq<char>) -> Result<Seq<char>, EndpointErrorView> {
    if trim_spec(endpoint).len() == 0 {
        Err(EndpointErrorView::Missing)
    } else {
        endpoint_from_parse_spec(
            endpoint_candidate(endpoint),
            url_parse_outcome(endpoint_candidate(endpoint)),
        )
    }
}

pub open spec fn endpoint_result_view(result: Result<String, EndpointError>) -> Result<
    Seq<char>,
    EndpointErrorView,
> {
    match result {
        Ok(endpoint) => Ok(endpoint@),
        Err(error) => Err(error@),
    }
}

/// Accepts a parsed candidate URL when it is `http` or `https` and names a host,
/// and drops the candidate's trailing slashes.
pub fn endpoint_from_parse(candidate: &str, parsed: Result<(String, Option<String>), String>) -> (endpoint: Result<String, EndpointError>)
    ensures
        endpoint_result_view(endpoint) == endpoint_from_parse_spec(
            candidate@,
            url_outcome_view(parsed),
        ),
{
    match parsed {
        Err(detail) => Err(EndpointError::Invalid(detail)),
        Ok((scheme, host)) => {
            let scheme_chars = chars_of(scheme.as_str());
            let http = chars_of("http");
            let https = chars_of("https");
            let web = same_chars(scheme_chars.as_slice(), http.as_slice()) || same_chars(
                scheme_chars.as_slice(),
                https.as_slice(),
            );
            if web && host.is_some() {
                let chars = chars_of(candidate);
                let trimmed = trim_end_char_of(chars.as_slice(), '/');
                Ok(string_from(trimmed.as_slice()))
            } else {
                Err(EndpointError::NotHttp)
            }
        },
    }
}

/// Normalizes the endpoint that the user typed: trims it, puts `https://` in front
/// of one without a scheme, requires an `http` or `https` URL with a host, and
/// drops trailing slashes.
pub fn normalize_endpoint(endpoint: &str) -> (normalized: Result<String, EndpointError>)
    ensures
        endpoint_result_view(normalized) == normalize_endpoint_spec(endpoint@),
        normalized matches Ok(text) ==> text@.len() == 0 || text@.last() != '/',
        normalized matches Ok(text) ==> !has_part(trim_spec(endpoint@), "://"@)
            ==> text@.take(6) == "https:"@,
{
    let chars = chars_of(endpoint);
    let trimmed = trim_of(chars.as_slice());
    if trimmed.len() == 0 {
        return Err(EndpointError::Missing);
    }
    let separator = chars_of("://");
    let candidate = if contains_part(trimmed.as_slice(), separator.as_slice()) {
        string_from(trimmed.as_slice())
    } else {
        let mut with_scheme = owned("https://");
        let rest = string_from(trimmed.as_slice());
        push_text(&mut with_scheme, rest.as_str());
        with_scheme
    };
    let parsed = parse_url(candidate.as_str());
    let normalized = endpoint_from_parse(candidate.as_str(), parsed);
    proof {
        if normalized is Ok {
            lemma_trim_end_char_last(candidate@, '/');
            if !has_part(trim_spec(endpoint@), "://"@) {
                reveal_strlit("https://");
                reveal_strlit("https:");
                assert(candidate@.take(6) =~= "https:"@);
                lemma_trim_end_char_keeps_prefix(candidate@, '/', "https:"@);
            }
        }
    }
    normalized
}

/// The text without its trailing `ch`s does not end in `ch`.
pub proof fn lemma_trim_end_char_last(text: Seq<char>, ch: char)
    ensures
        trim_end_char(text, ch).len() == 0 || trim_end_char(text, ch).last() != ch,
    decreases text.len(),
{
    if text.len() > 0 && text.last() == ch {
        lemma_trim_end_char_last(text.drop_last(), ch);
    }
}

/// Dropping trailing `ch`s keeps a prefix that does not end in `ch`.
pub proof fn lemma_trim_end_char_keeps_prefix(text: Seq<char>, ch: char, head: Seq<char>)
    requires
        head.len() <= text.len(),
        text.take(head.len() as int) == head,
        head.len() > 0 && head.last() != ch,
    ensures
        trim_end_char(text, ch).take(head.len() as int) == head,
    decreases text.len(),
{
    if text.len() > 0 && text.last() == ch {
        assert(text.len() > head.len()) by {
            if text.len() == head.len() {
                assert(text.last() == head.last());
            }
        }
        assert(text.drop_last().take(head.len() as int) =~= head);
        lemma_trim_end_char_keeps_prefix(text.drop_last(), ch, head);
    }
}

/// `Zeroize` for `Vec<char>` (zeroize's `impl Zeroize for Vec<Z>`): overwrites
/// the elements and the spare capacity, then clears the vector, which ends empty.
#[verifier::external_body]
fn wipe_chars(chars: &mut Vec<char>)
    ensures
        final(chars)@ == Seq::<char>::empty(),
{
    zeroize::Zeroize::zeroize(chars);
}

/// A bucket of an S3-compatible service, with a client for it.
pub struct Storage {
    client: S3Client,
    bucket: String,
}

/// What verified code sees of a `Storage`: the bucket's name, the client handle,
/// and the settings that the client was built from.
pub struct StorageView {
    pub bucket: Seq<char>,
    pub client: aws_sdk_s3::Client,
    pub settings: ClientSettings,
}

impl View for Storage {
    type V = StorageView;

    closed spec fn view(&self) -> StorageView {
        StorageView {
            bucket: self.bucket@,
            client: self.client.handle(),
            settings: self.client.settings(),
        }
    }
}

/// The bucket that a connection opens, or why the details are refused.
pub open spec fn connect_spec(details: ConnectionDetailsView) -> Result<Seq<char>, ConnectErrorView> {
    match normalize_endpoint_spec(details.endpoint) {
        Err(error) => Err(ConnectErrorView::Endpoint(error)),
        Ok(_) => if trim_spec(details.region).len() == 0 {
            Err(ConnectErrorView::MissingRegion)
        } else if trim_spec(details.bucket).len() == 0 {
            Err(ConnectErrorView::MissingBucket)
        } else if trim_spec(details.access_key).len() == 0 || details.secret_key.len() == 0 {
            Err(ConnectErrorView::MissingKeys)
        } else {
            Ok(trim_spec(details.bucket))
        },
    }
}

/// The settings of the client that a connection with these details makes: the
/// normalized endpoint, the trimmed region and access key, the secret key as
/// typed, and path-style addressing.
pub open spec fn connect_settings(details: ConnectionDetailsView) -> ClientSettings {
    ClientSettings {
        endpoint: match normalize_endpoint_spec(details.endpoint) {
            Ok(endpoint) => endpoint,
            Err(_) => Seq::empty(),
        },
        region: trim_spec(details.region),
        access_key: trim_spec(details.access_key),
        secret_key: details.secret_key,
        path_style: true,
    }
}

impl Clone for Storage {
    fn clone(&self) -> (copy: Storage)
        ensures
            copy@ == self@,
    {
        Storage { client: self.client.clone(), bucket: self.bucket.clone() }
    }
}

impl Storage {
    /// Checks the connection details and makes a client for the bucket, with
    /// the settings that `connect_settings` gives.
    pub fn connect(details: &ConnectionDetails) -> (storage: Result<Storage, ConnectError>)
        ensures
            match storage {
                Ok(storage) => {
                    &&& connect_spec(details@) == Ok::<Seq<char>, ConnectErrorView>(storage@.bucket)
                    &&& storage@.settings == connect_settings(details@)
                },
                Err(error) => connect_spec(details@) == Err::<Seq<char>, ConnectErrorView>(
                    error@,
                ),
            },
    {
        let endpoint = match normalize_endpoint(details.endpoint.as_str()) {
            Ok(endpoint) => endpoint,
            Err(error) => return Err(ConnectError::Endpoint(error)),
        };
        let region = trim_of(chars_of(details.region.as_str()).as_slice());
        let bucket = trim_of(chars_of(details.bucket.as_str()).as_slice());
        if region.len() == 0 {
            return Err(ConnectError::MissingRegion);
        }
        if bucket.len() == 0 {
            return Err(ConnectError::MissingBucket);
        }
        let mut typed_access_key = chars_of(details.access_key.as_str());
        let mut access_key = trim_of(typed_access_key.as_slice());
        wipe_chars(&mut typed_access_key);
        if access_key.len() == 0 || details.secret_key.as_str().is_empty() {
            wipe_chars(&mut access_key);
            return Err(ConnectError::MissingKeys);
        }
        let access_key_text = string_from(access_key.as_slice());
        wipe_chars(&mut access_key);
        let client = s3_client(
            endpoint,
            string_from(region.as_slice()),
            access_key_text,
            details.secret_key.clone(),
            true,
            "degen-music-library",
        );
        Ok(Storage { client, bucket: string_from(bucket.as_slice()) })
    }

    pub fn bucket(&self) -> (name: &str)
        ensures
            name@ == self@.bucket,
    {
        self.bucket.as_str()
    }

    /// The client that reaches the bucket.
    pub fn client(&self) -> (client: &aws_sdk_s3::Client)
        ensures
            *client == self@.client,
    {
        self.client.client()
    }
}

} // verus!
