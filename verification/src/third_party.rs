//! The outside types and functions the library uses (serde_json, globset,
//! sha2, hex, uuid, chrono and the system clock), with the contracts assumed
//! of them.
use vstd::prelude::*;
use sha2::Digest;

verus! {

/// `serde_json::Value`: an arbitrary JSON document, carried opaquely
/// (construct metadata, signal payloads, error details).
#[verifier::external_type_specification]
#[verifier::external_body]
pub struct ExJsonValue(serde_json::Value);

} // verus!

verus! {

/// `serde_json::Value::clone` (derived): the copy is the same JSON document.
pub assume_specification[ <serde_json::Value as Clone>::clone ](v: &serde_json::Value) -> (r: serde_json::Value)
    ensures
        r == *v,
;

} // verus!

verus! {

// ---------------------------------------------------------------------------
// globset
// ---------------------------------------------------------------------------

/// `globset::Glob`: one compiled glob pattern.
#[verifier::external_type_specification]
#[verifier::external_body]
pub struct ExGlob(globset::Glob);

/// `globset::GlobSetBuilder`: the patterns collected for a glob set.
#[verifier::external_type_specification]
#[verifier::external_body]
pub struct ExGlobSetBuilder(globset::GlobSetBuilder);

/// `globset::GlobSet`: a compiled set of glob patterns.
#[verifier::external_type_specification]
#[verifier::external_body]
pub struct ExGlobSet(globset::GlobSet);

/// `globset::Error`: why a glob or a glob set did not compile.
#[verifier::external_type_specification]
#[verifier::external_body]
pub struct ExGlobError(globset::Error);

/// Whether globset accepts the pattern (`Glob::new` succeeds on it).
pub uninterp spec fn glob_compiles(pattern: Seq<char>) -> bool;

/// Whether the glob compiled from `pattern` (with default options) matches `path`.
pub uninterp spec fn glob_matches(pattern: Seq<char>, path: Seq<char>) -> bool;

/// Whether globset builds a set from these patterns (`GlobSetBuilder::build` succeeds).
pub uninterp spec fn glob_set_builds(patterns: Seq<Seq<char>>) -> bool;

/// The pattern text a compiled glob was made from.
pub uninterp spec fn glob_pattern(g: globset::Glob) -> Seq<char>;

/// The pattern texts added to a builder, in order.
pub uninterp spec fn builder_patterns(b: globset::GlobSetBuilder) -> Seq<Seq<char>>;

/// The pattern texts a glob set was built from, in order.
pub uninterp spec fn glob_set_patterns(s: globset::GlobSet) -> Seq<Seq<char>>;

/// Some pattern of the list matches the path.
pub open spec fn some_glob_matches(patterns: Seq<Seq<char>>, path: Seq<char>) -> bool {
    exists|i: int| 0 <= i < patterns.len() && glob_matches(#[trigger] patterns[i], path)
}

/// `globset::Glob::new`: compiles one pattern with default options. Claimed:
/// it succeeds exactly on the patterns globset accepts, and the glob keeps
/// the pattern text (`Glob::glob` returns it).
#[verifier::external_body]
pub(crate) fn glob_new(pattern: &str) -> (r: Result<globset::Glob, globset::Error>)
    ensures
        r is Ok <==> glob_compiles(pattern@),
        r matches Ok(g) ==> glob_pattern(g) == pattern@,
{
    globset::Glob::new(pattern)
}

/// `globset::GlobSetBuilder::new`: claimed to start with no patterns.
#[verifier::external_body]
pub(crate) fn glob_set_builder_new() -> (b: globset::GlobSetBuilder)
    ensures
        builder_patterns(b) == Seq::<Seq<char>>::empty(),
{
    globset::GlobSetBuilder::new()
}

/// `globset::GlobSetBuilder::add`: claimed to append the glob to the builder's patterns.
#[verifier::external_body]
pub(crate) fn glob_set_builder_add(b: &mut globset::GlobSetBuilder, g: globset::Glob)
    ensures
        builder_patterns(*final(b)) == builder_patterns(*old(b)).push(glob_pattern(g)),
{
    b.add(g);
}

/// `globset::GlobSetBuilder::build`: compiles the collected patterns into a
/// set. Claimed: it succeeds exactly when globset builds a set from them, and
/// the set holds those patterns.
#[verifier::external_body]
pub(crate) fn glob_set_builder_build(b: &globset::GlobSetBuilder) -> (r: Result<globset::GlobSet, globset::Error>)
    ensures
        r is Ok <==> glob_set_builds(builder_patterns(*b)),
        r matches Ok(s) ==> glob_set_patterns(s) == builder_patterns(*b),
{
    b.build()
}

/// `globset::GlobSet::is_match`: claimed, as its documentation says, to be
/// true exactly when some glob of the set matches the path.
#[verifier::external_body]
pub(crate) fn glob_set_is_match(s: &globset::GlobSet, path: &str) -> (r: bool)
    ensures
        r == (exists|i: int| 0 <= i < glob_set_patterns(*s).len() && glob_matches(#[trigger] glob_set_patterns(*s)[i], path@)),
{
    s.is_match(path)
}

/// The display text of a `globset::Error` (its `Display`); nothing is claimed of it.
#[verifier::external_body]
pub(crate) fn glob_error_text(e: &globset::Error) -> String {
    e.to_string()
}

} // verus!

verus! {

// ---------------------------------------------------------------------------
// sha2 and hex
// ---------------------------------------------------------------------------

/// The SHA-256 digest of a byte string.
pub uninterp spec fn sha256(bytes: Seq<u8>) -> Seq<u8>;

/// `sha2::Sha256::digest`: the 32-byte SHA-256 digest of the bytes.
#[verifier::external_body]
pub(crate) fn sha256_digest(bytes: &[u8]) -> (r: Vec<u8>)
    ensures
        r@ == sha256(bytes@),
        r@.len() == 32,
{
    sha2::Sha256::digest(bytes).to_vec()
}

/// The lowercase hexadecimal digit of a value below 16.
pub open spec fn hex_digit(v: int) -> char {
    "0123456789abcdef"@[v]
}

/// Two lowercase hexadecimal digits per byte, high nibble first.
pub open spec fn hex_lower(bytes: Seq<u8>) -> Seq<char>
    decreases bytes.len(),
{
    if bytes.len() == 0 {
        Seq::empty()
    } else {
        hex_lower(bytes.drop_last()) + seq![
            hex_digit(bytes.last() as int / 16),
            hex_digit(bytes.last() as int % 16),
        ]
    }
}

/// `hex::encode`: claimed to write each byte as two lowercase hexadecimal
/// digits, high nibble first.
#[verifier::external_body]
pub(crate) fn hex_encode(bytes: &[u8]) -> (r: String)
    ensures
        r@ == hex_lower(bytes@),
{
    hex::encode(bytes)
}

} // verus!

verus! {

// ---------------------------------------------------------------------------
// The system clock (std)
// ---------------------------------------------------------------------------

/// `std::time::SystemTime`: an instant of the system clock.
#[verifier::external_type_specification]
#[verifier::external_body]
pub struct ExSystemTime(std::time::SystemTime);

/// `std::time::SystemTimeError`: the clock reads earlier than the reference instant.
#[verifier::external_type_specification]
#[verifier::external_body]
pub struct ExSystemTimeError(std::time::SystemTimeError);

/// `SystemTime::now`: the current instant; nothing is claimed of it.
#[verifier::external_body]
pub(crate) fn system_time_now() -> std::time::SystemTime {
    std::time::SystemTime::now()
}

/// `SystemTime::duration_since(UNIX_EPOCH)`: the time elapsed since the Unix
/// epoch, an error when the instant is earlier; nothing more is claimed.
#[verifier::external_body]
pub(crate) fn since_unix_epoch(t: &std::time::SystemTime) -> Result<core::time::Duration, std::time::SystemTimeError> {
    t.duration_since(std::time::UNIX_EPOCH)
}

/// `Duration::as_secs`: the whole seconds of a duration; nothing is claimed of it.
#[verifier::external_body]
pub(crate) fn duration_as_secs(d: &core::time::Duration) -> u64 {
    d.as_secs()
}

/// `Duration::subsec_nanos`: the nanoseconds beyond the whole seconds, which
/// std documents to be less than one billion.
#[verifier::external_body]
pub(crate) fn duration_subsec_nanos(d: &core::time::Duration) -> (r: u32)
    ensures
        r < 1_000_000_000,
{
    d.subsec_nanos()
}

/// `Duration::as_millis`: the whole milliseconds of a duration; nothing is claimed of it.
#[verifier::external_body]
pub(crate) fn duration_as_millis(d: &core::time::Duration) -> u128 {
    d.as_millis()
}

} // verus!

verus! {

// ---------------------------------------------------------------------------
// uuid and chrono
// ---------------------------------------------------------------------------

/// The text form of a UUID as `uuid` writes it (`Display`): 36 characters,
/// `-` at positions 8, 13, 18 and 23, lowercase hexadecimal digits elsewhere.
pub open spec fn is_hyphenated_uuid(s: Seq<char>) -> bool {
    &&& s.len() == 36
    &&& forall|i: int|
        0 <= i < 36 ==> if i == 8 || i == 13 || i == 18 || i == 23 {
            #[trigger] s[i] == '-'
        } else {
            ('0' <= s[i] && s[i] <= '9') || ('a' <= s[i] && s[i] <= 'f')
        }
}

/// `uuid::Uuid::new_v4().to_string()`: a fresh random identifier. Claimed:
/// only the shape of its text (the value is random).
#[verifier::external_body]
pub(crate) fn new_uuid_v4() -> (r: String)
    ensures
        is_hyphenated_uuid(r@),
{
    uuid::Uuid::new_v4().to_string()
}

/// `DateTime::<Utc>::from_timestamp(secs, nsecs)` and `DateTime::to_rfc3339`:
/// the UTC instant `secs` seconds and `nsecs` nanoseconds after the Unix
/// epoch, as RFC 3339 text; `None` when the seconds are out of chrono's range
/// or the nanoseconds invalid. The instant stays inside this function because
/// Verus cannot declare `DateTime<Tz>` (its `TimeZone` bound is an outside
/// trait). Nothing more is claimed of the text.
#[verifier::external_body]
pub(crate) fn utc_rfc3339_at(secs: i64, nsecs: u32) -> Option<String> {
    match chrono::DateTime::from_timestamp(secs, nsecs) {
        Some(d) => Some(d.to_rfc3339()),
        None => None,
    }
}

} // verus!

verus! {

/// The current time as RFC 3339 text, read as `chrono::Utc::now` reads it
/// (whole seconds and nanoseconds since the Unix epoch); `None` when the clock
/// reads before the epoch or beyond chrono's range, where `Utc::now` would
/// panic. Nothing is stated of the reading itself.
pub fn utc_now_rfc3339() -> Option<String> {
    let t = system_time_now();
    match since_unix_epoch(&t) {
        Ok(d) => {
            let secs = duration_as_secs(&d) as i64;
            let nsecs = duration_subsec_nanos(&d);
            utc_rfc3339_at(secs, nsecs)
        },
        Err(_) => None,
    }
}

} // verus!
