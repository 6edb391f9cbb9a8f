//! The library's boundary with `regex`, `uuid`, `chrono` and `std::path`:
//! each item here is believed as stated, not proved.

use vstd::prelude::*;

verus! {

/// `std::path::PathBuf`, carried through unchanged.
#[verifier::external_type_specification]
#[verifier::external_body]
pub struct ExPathBuf(std::path::PathBuf);

/// `regex::Regex`, a compiled pattern; opaque here.
#[verifier::external_type_specification]
#[verifier::external_body]
pub struct ExRegex(regex::Regex);

/// Whether `regex::Regex::new` accepts `pattern`: its syntax is valid and the
/// compiled program fits the crate's default size limit.
pub uninterp spec fn regex_compiles(pattern: Seq<char>) -> bool;

/// Whether the regex compiled from `pattern` matches somewhere in `haystack`
/// (`regex::Regex::is_match`).
pub uninterp spec fn regex_is_match(pattern: Seq<char>, haystack: Seq<char>) -> bool;

/// A compiled title pattern together with the text it was compiled from;
/// only `compile_pattern` makes one.
pub(crate) struct CompiledPattern {
    re: regex::Regex,
    source: Ghost<Seq<char>>,
}

impl CompiledPattern {
    /// The text the pattern was compiled from.
    pub(crate) closed spec fn source(&self) -> Seq<char> {
        self.source@
    }
}

/// Calls `regex::Regex::new(pattern)`. Claims: it yields a regex exactly when
/// `regex_compiles(pattern)`, and the regex remembers its pattern. The
/// function never panics; it reports bad patterns and oversized programs as errors.
#[verifier::external_body]
pub(crate) fn compile_pattern(pattern: &str) -> (r: Option<CompiledPattern>)
    ensures
        r is Some == regex_compiles(pattern@),
        r matches Some(c) ==> c.source() == pattern@,
{
    match regex::Regex::new(pattern) {
        Ok(re) => Some(CompiledPattern { re, source: Ghost(pattern@) }),
        Err(_) => None,
    }
}

/// Calls `regex::Regex::is_match(haystack)`. Claims: the answer is
/// `regex_is_match` of the compiled pattern's text and the haystack.
#[verifier::external_body]
pub(crate) fn pattern_is_match(c: &CompiledPattern, haystack: &str) -> (b: bool)
    ensures
        b == regex_is_match(c.source(), haystack@),
{
    c.re.is_match(haystack)
}

/// A lower-case hexadecimal digit.
pub open spec fn is_lower_hex(c: char) -> bool {
    ('0' <= c && c <= '9') || ('a' <= c && c <= 'f')
}

/// The shape of a random (version 4) UUID in hyphenated lower-case form:
/// 36 characters, hyphens at 8, 13, 18 and 23, version digit `4` at 14,
/// variant digit `8`..`b` at 19, lower-case hex digits elsewhere.
pub open spec fn is_hyphenated_v4(s: Seq<char>) -> bool {
    &&& s.len() == 36
    &&& s[8] == '-' && s[13] == '-' && s[18] == '-' && s[23] == '-'
    &&& s[14] == '4'
    &&& (s[19] == '8' || s[19] == '9' || s[19] == 'a' || s[19] == 'b')
    &&& forall|i: int|
        0 <= i < 36 && i != 8 && i != 13 && i != 18 && i != 23 ==> is_lower_hex(#[trigger] s[i])
}

/// Calls `uuid::Uuid::new_v4()` and renders it with `to_string()`. Claims only
/// the shape of the text: the 122 random bits come from the operating system,
/// so nothing is said of which identifier comes out, nor that two calls differ.
/// `new_v4` panics if the system's random source fails.
#[verifier::external_body]
pub(crate) fn new_uuid_v4() -> (s: String)
    ensures
        is_hyphenated_v4(s@),
{
    uuid::Uuid::new_v4().to_string()
}

/// An offset from UTC, in seconds, that chrono's `FixedOffset` admits:
/// strictly between minus and plus one day; or no offset.
pub open spec fn offset_in_range(o: Option<i32>) -> bool {
    o matches Some(s) ==> -86400 < s < 86400
}

/// Calls `chrono::Local.timestamp_millis_opt(ms).single()` and reads the
/// local time zone's offset from UTC at that instant
/// (`FixedOffset::local_minus_utc`, in seconds). Which offset comes out
/// depends on the machine's time zone (`TZ`, `/etc/localtime`), so only what
/// holds of every outcome is claimed: an offset is one that `FixedOffset`
/// admits. `None` comes when `ms` lies outside chrono's date range. When no
/// time zone data can be found chrono uses UTC; it panics only when looking
/// up the zone's local time type fails ("unable to select local time type")
/// or when the zone's offset does not fit in a `FixedOffset`.
#[verifier::external_body]
pub(crate) fn local_utc_offset_secs(ms: i64) -> (r: Option<i32>)
    ensures
        offset_in_range(r),
{
    match chrono::TimeZone::timestamp_millis_opt(&chrono::Local, ms).single() {
        Some(dt) => Some(dt.offset().local_minus_utc()),
        None => None,
    }
}

} // verus!
