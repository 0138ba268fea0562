//! Import of daily rollouts into the isolated home: which files are rollouts and of which
//! thread, what the import manifest may hold, the order in which candidates are taken, and
//! how the two session indexes are merged.

use vstd::prelude::*;

use crate::compatibility::{ascii_lower, ascii_lower_char};
use crate::goal_sync::{is_thread_id, valid_thread_id};
use crate::skill_sync::{ascii_lowercase, plain_relative};
use crate::strings::string_from_chars;
use crate::text::{chars_of, char_is_control, is_control_char, slice_chars};
use crate::text_map::{entries_map, has_key, keys_ascending, keys_unique, TextMap};
use crate::winpath::{extension_of, last_dot};

verus! {

/// Why a step of the import refuses its input.
#[derive(Debug, Clone, Copy, PartialEq, Eq, Structural)]
pub enum SessionSyncError {
    InvalidProviderId,
    InvalidThreadId,
    InvalidThreadName,
    InvalidUpdatedAt,
    InvalidRelativePath,
}

/// The longest provider id, in bytes.
pub const MAX_PROVIDER_ID_BYTES: usize = 128;

/// The longest thread name in the session index, in bytes.
pub const MAX_THREAD_NAME_BYTES: usize = 4096;

/// The longest `updated_at` text in the session index, in bytes.
pub const MAX_UPDATED_AT_BYTES: usize = 128;

// ---------------------------------------------------------------------------------------
// Names
// ---------------------------------------------------------------------------------------

/// A provider id: 1 to 128 characters, each an ASCII letter, digit, `_` or `-`.
pub open spec fn is_provider_id(id: Seq<char>) -> bool {
    &&& 0 < id.len() <= MAX_PROVIDER_ID_BYTES
    &&& forall|i: int| 0 <= i < id.len() ==> is_provider_char(#[trigger] id[i])
}

pub open spec fn is_provider_char(c: char) -> bool {
    ('a' <= c && c <= 'z') || ('A' <= c && c <= 'Z') || ('0' <= c && c <= '9') || c == '_' || c == '-'
}

/// Checks a provider id.
pub fn validate_provider_id(provider_id: &str) -> (result: Result<(), SessionSyncError>)
    ensures
        result is Ok <==> is_provider_id(provider_id@),
        result is Err ==> result == Err::<(), SessionSyncError>(SessionSyncError::InvalidProviderId),
{
    let chars = chars_of(provider_id);
    if chars.len() == 0 || chars.len() > MAX_PROVIDER_ID_BYTES {
        return Err(SessionSyncError::InvalidProviderId);
    }
    for i in 0..chars.len()
        invariant
            chars@ == provider_id@,
            forall|t: int| 0 <= t < i ==> is_provider_char(#[trigger] chars@[t]),
    {
        let c = chars[i];
        if !(('a' <= c && c <= 'z') || ('A' <= c && c <= 'Z') || ('0' <= c && c <= '9') || c == '_' || c == '-') {
            proof {
                assert(!is_provider_char(provider_id@[i as int]));
            }
            return Err(SessionSyncError::InvalidProviderId);
        }
    }
    Ok(())
}

/// Checks a thread id: 36 characters, hexadecimal digits with `-` at 8, 13, 18 and 23.
pub fn validate_thread_id(thread_id: &str) -> (result: Result<(), SessionSyncError>)
    ensures
        result is Ok <==> is_thread_id(thread_id@),
        result is Err ==> result == Err::<(), SessionSyncError>(SessionSyncError::InvalidThreadId),
{
    if valid_thread_id(thread_id) {
        Ok(())
    } else {
        Err(SessionSyncError::InvalidThreadId)
    }
}

/// The stem of a file name: the name without its extension.
pub open spec fn file_stem(name: Seq<char>) -> Seq<char> {
    match extension_of(name) {
        Some(_) => name.take(last_dot(name).unwrap()),
        None => name,
    }
}

/// The thread of a rollout file with this name: the last 36 characters of its stem, in
/// lowercase, when they are a thread id.
pub open spec fn rollout_thread_id(name: Seq<char>) -> Option<Seq<char>> {
    let stem = file_stem(name);
    if stem.len() >= 36 && is_thread_id(stem.skip(stem.len() - 36)) {
        Some(ascii_lower(stem.skip(stem.len() - 36)))
    } else {
        None
    }
}

proof fn lemma_last_dot_bound(name: Seq<char>)
    ensures
        last_dot(name) matches Some(i) ==> 0 <= i < name.len() && name[i] == '.' && forall|j: int|
            i < j < name.len() ==> name[j] != '.',
        last_dot(name) is None ==> forall|j: int| 0 <= j < name.len() ==> name[j] != '.',
    decreases name.len(),
{
    if name.len() > 0 && name.last() != '.' {
        lemma_last_dot_bound(name.drop_last());
        assert forall|j: int| 0 <= j < name.len() - 1 implies name[j] == name.drop_last()[j] by {}
    }
}

/// The thread of the rollout file named `name`, if its stem ends in a thread id.
pub fn thread_id_from_rollout_name(name: &str) -> (result: Option<String>)
    ensures
        match result {
            Some(id) => rollout_thread_id(name@) == Some(id@),
            None => rollout_thread_id(name@) is None,
        },
{
    let chars = chars_of(name);
    let n = chars.len();
    let is_dot_dot = n == 2 && chars[0] == '.' && chars[1] == '.';
    let mut end = n;
    proof {
        assert(chars@.take(n as int) =~= chars@);
    }
    while end > 0 && chars[end - 1] != '.'
        invariant
            end <= n == chars@.len(),
            chars@ == name@,
            last_dot(name@) == last_dot(name@.take(end as int)),
        decreases end,
    {
        proof {
            assert(name@.take(end as int).drop_last() =~= name@.take(end - 1));
        }
        end -= 1;
    }
    proof {
        if end > 0 {
            assert(name@.take(end as int).last() == '.');
        } else {
            assert(name@.take(0) =~= Seq::<char>::empty());
        }
        if name@ == seq!['.', '.'] {
            assert(name@.len() == 2 && name@[0] == '.' && name@[1] == '.');
        }
        if is_dot_dot {
            assert(name@ =~= seq!['.', '.']);
        }
    }
    let stem_len = if !is_dot_dot && end > 1 { end - 1 } else { n };
    let stem = slice_chars(chars.as_slice(), 0, stem_len);
    proof {
        assert(stem@ =~= file_stem(name@)) by {
            if !is_dot_dot && end > 1 {
                assert(last_dot(name@) == Some((end - 1) as int));
            } else if !is_dot_dot {
                assert(name@.subrange(0, n as int) =~= name@);
            } else {
                assert(name@.subrange(0, n as int) =~= name@);
            }
        }
    }
    if stem.len() < 36 {
        return None;
    }
    let tail = slice_chars(stem.as_slice(), stem.len() - 36, stem.len());
    proof {
        assert(tail@ =~= stem@.skip(stem@.len() - 36));
    }
    let tail_text = string_from_chars(tail.as_slice());
    if !valid_thread_id(tail_text.as_str()) {
        return None;
    }
    let lowered = ascii_lowercase(tail.as_slice());
    Some(string_from_chars(lowered.as_slice()))
}

/// Checks that a manifest key is a relative path of plain names.
pub fn validate_manifest_relative_path(key: &str) -> (result: Result<(), SessionSyncError>)
    ensures
        result is Ok <==> plain_relative(key@),
        result is Err ==> result == Err::<(), SessionSyncError>(SessionSyncError::InvalidRelativePath),
{
    if crate::skill_sync::is_plain_relative(key) {
        Ok(())
    } else {
        Err(SessionSyncError::InvalidRelativePath)
    }
}

/// The order class of a rollout: under `sessions` first, `archived_sessions` next, then
/// anything else.
pub open spec fn rollout_priority(first_component: Option<Seq<char>>) -> u8 {
    match first_component {
        Some(name) => if name == "sessions"@ {
            0
        } else if name == "archived_sessions"@ {
            1
        } else {
            2
        },
        None => 2,
    }
}

/// The order class of the rollout whose relative path starts with `first_component`.
pub fn rollout_candidate_priority(first_component: Option<&str>) -> (result: u8)
    ensures
        result == rollout_priority(match first_component {
            Some(name) => Some(name@),
            None => None,
        }),
{
    match first_component {
        Some(name) => {
            let chars = chars_of(name);
            let sessions = chars_of("sessions");
            let archived = chars_of("archived_sessions");
            if crate::text::chars_equal(chars.as_slice(), sessions.as_slice()) {
                0
            } else if crate::text::chars_equal(chars.as_slice(), archived.as_slice()) {
                1
            } else {
                2
            }
        },
        None => 2,
    }
}

// ---------------------------------------------------------------------------------------
// Session index entries
// ---------------------------------------------------------------------------------------

/// An index text: nonempty, at most `max_len` bytes, without control characters.
pub open spec fn is_index_text(text: &str, max_len: usize) -> bool {
    &&& text@.len() > 0
    &&& vstd::utf8::encode_utf8(text@).len() <= max_len
    &&& forall|i: int| 0 <= i < text@.len() ==> !is_control_char(#[trigger] text@[i])
}

fn index_text_ok(text: &str, max_len: usize) -> (result: bool)
    ensures
        result == is_index_text(text, max_len),
{
    let chars = chars_of(text);
    if chars.len() == 0 || crate::text::byte_len(text) > max_len {
        return false;
    }
    for i in 0..chars.len()
        invariant
            chars@ == text@,
            forall|t: int| 0 <= t < i ==> !is_control_char(#[trigger] chars@[t]),
    {
        if char_is_control(chars[i]) {
            proof {
                assert(is_control_char(text@[i as int]));
            }
            return false;
        }
    }
    true
}

/// Checks the fields of a session index entry and gives its thread id in lowercase.
pub fn session_index_identity(id: &str, thread_name: &str, updated_at: &str) -> (result: Result<String, SessionSyncError>)
    ensures
        !is_thread_id(id@) ==> result == Err::<String, SessionSyncError>(SessionSyncError::InvalidThreadId),
        is_thread_id(id@) && !is_index_text(thread_name, MAX_THREAD_NAME_BYTES) ==> result == Err::<
            String,
            SessionSyncError,
        >(SessionSyncError::InvalidThreadName),
        is_thread_id(id@) && is_index_text(thread_name, MAX_THREAD_NAME_BYTES) && !is_index_text(
            updated_at,
            MAX_UPDATED_AT_BYTES,
        ) ==> result == Err::<String, SessionSyncError>(SessionSyncError::InvalidUpdatedAt),
        result matches Ok(lowered) ==> is_thread_id(id@) && is_index_text(thread_name, MAX_THREAD_NAME_BYTES)
            && is_index_text(updated_at, MAX_UPDATED_AT_BYTES) && lowered@ == ascii_lower(id@),
        is_thread_id(id@) && is_index_text(thread_name, MAX_THREAD_NAME_BYTES) && is_index_text(
            updated_at,
            MAX_UPDATED_AT_BYTES,
        ) ==> result is Ok,
{
    if !valid_thread_id(id) {
        return Err(SessionSyncError::InvalidThreadId);
    }
    if !index_text_ok(thread_name, MAX_THREAD_NAME_BYTES) {
        return Err(SessionSyncError::InvalidThreadName);
    }
    if !index_text_ok(updated_at, MAX_UPDATED_AT_BYTES) {
        return Err(SessionSyncError::InvalidUpdatedAt);
    }
    let lowered = ascii_lowercase(chars_of(id).as_slice());
    Ok(string_from_chars(lowered.as_slice()))
}

/// Whether the isolated home's index entry replaces the daily one: when the daily entry is
/// missing or undated, or when both are dated and the isolated one is not older.
pub open spec fn private_entry_wins(daily: Option<Option<(i64, u32)>>, private: Option<(i64, u32)>) -> bool {
    match daily {
        None => true,
        Some(daily_time) => match (daily_time, private) {
            (Some(d), Some(p)) => p.0 > d.0 || (p.0 == d.0 && p.1 >= d.1),
            (None, Some(_)) => true,
            (None, None) => true,
            (Some(_), None) => false,
        },
    }
}

/// The newer index entry is kept, by its time in seconds and then nanoseconds: an isolated
/// entry from an earlier second never replaces a dated daily one, one from a later second
/// always does, within one second the later nanosecond wins, and a tie goes to the isolated
/// entry. Of two dated entries each replaces the other only when both carry the same time,
/// and one of them always replaces the other. A dated isolated entry replaces an undated or
/// missing daily one; an undated isolated entry never replaces a dated daily one.
pub proof fn lemma_newer_entry_kept(d: (i64, u32), p: (i64, u32))
    ensures
        p.0 < d.0 ==> !private_entry_wins(Some(Some(d)), Some(p)),
        p.0 > d.0 ==> private_entry_wins(Some(Some(d)), Some(p)),
        p.0 == d.0 ==> (private_entry_wins(Some(Some(d)), Some(p)) <==> p.1 >= d.1),
        private_entry_wins(Some(Some(d)), Some(p)) && private_entry_wins(Some(Some(p)), Some(d)) ==> p == d,
        private_entry_wins(Some(Some(d)), Some(p)) || private_entry_wins(Some(Some(p)), Some(d)),
        private_entry_wins(None, Some(p)),
        private_entry_wins(Some(None), Some(p)),
        !private_entry_wins(Some(Some(d)), None),
        private_entry_wins(Some(None), None),
        private_entry_wins(None, None),
{
}

/// Whether the isolated home's entry, dated `private`, replaces the daily entry, if any,
/// dated `daily`.
pub fn private_index_entry_wins(daily: Option<Option<(i64, u32)>>, private: Option<(i64, u32)>) -> (result: bool)
    ensures
        result == private_entry_wins(daily, private),
{
    match daily {
        None => true,
        Some(daily_time) => match (daily_time, private) {
            (Some(d), Some(p)) => p.0 > d.0 || (p.0 == d.0 && p.1 >= d.1),
            (None, Some(_)) => true,
            (None, None) => true,
            (Some(_), None) => false,
        },
    }
}


// ---------------------------------------------------------------------------------------
// RFC 3339 timestamps
// ---------------------------------------------------------------------------------------

pub open spec fn is_digit(b: u8) -> bool {
    48 <= b <= 57
}

pub open spec fn all_digits(s: Seq<u8>) -> bool {
    forall|i: int| 0 <= i < s.len() ==> is_digit(#[trigger] s[i])
}

/// The value of a run of decimal digits.
pub open spec fn decimal(s: Seq<u8>) -> int
    decreases s.len(),
{
    if s.len() == 0 {
        0
    } else {
        decimal(s.drop_last()) * 10 + (s.last() - 48)
    }
}

/// The number of digits from `start` on.
pub open spec fn digit_run(s: Seq<u8>, start: int) -> int
    decreases s.len() - start,
{
    if start < 0 || start >= s.len() || !is_digit(s[start]) {
        0
    } else {
        1 + digit_run(s, start + 1)
    }
}

pub open spec fn is_leap_year(year: int) -> bool {
    year % 4 == 0 && (year % 100 != 0 || year % 400 == 0)
}

/// The days of `month` in `year`.
pub open spec fn month_days(year: int, month: int) -> int {
    if month == 1 || month == 3 || month == 5 || month == 7 || month == 8 || month == 10 || month == 12 {
        31
    } else if month == 4 || month == 6 || month == 9 || month == 11 {
        30
    } else if month == 2 {
        if is_leap_year(year) {
            29
        } else {
            28
        }
    } else {
        0
    }
}

/// The days from 1970-01-01 to the civil date, in the proleptic Gregorian calendar: years
/// counted from March in 400-year eras of 146097 days.
pub open spec fn civil_days(year: int, month: int, day: int) -> int {
    let y = if month <= 2 {
        year - 1
    } else {
        year
    };
    let era = y / 400;
    let year_of_era = y - era * 400;
    let shifted_month = if month > 2 {
        month - 3
    } else {
        month + 9
    };
    let day_of_year = (153 * shifted_month + 2) / 5 + day - 1;
    let day_of_era = year_of_era * 365 + year_of_era / 4 - year_of_era / 100 + day_of_year;
    era * 146097 + day_of_era - 719468
}

pub open spec fn pow10(n: nat) -> int
    decreases n,
{
    if n == 0 {
        1
    } else {
        10 * pow10((n - 1) as nat)
    }
}

/// The fraction after `.`, as nanoseconds, and where it ends; `None` when it has no digit
/// or more than nine.
pub open spec fn fraction(s: Seq<u8>) -> Option<(int, int)> {
    if s.len() > 19 && s[19] == 46 {
        let digits = digit_run(s, 20);
        if digits == 0 || digits > 9 {
            None
        } else {
            Some((decimal(s.subrange(20, 20 + digits)) * pow10((9 - digits) as nat), 20 + digits))
        }
    } else {
        Some((0, 19))
    }
}

/// The offset from UTC at `cursor`, in seconds, when it ends the text: `Z`, or a sign,
/// two hour digits, `:`, and two minute digits.
pub open spec fn utc_offset(s: Seq<u8>, cursor: int) -> Option<int> {
    if cursor < s.len() && (s[cursor] == 90 || s[cursor] == 122) && cursor + 1 == s.len() {
        Some(0)
    } else if cursor < s.len() && (s[cursor] == 43 || s[cursor] == 45) && cursor + 6 == s.len() {
        let hours = s.subrange(cursor + 1, cursor + 3);
        let minutes = s.subrange(cursor + 4, cursor + 6);
        if s[cursor + 3] != 58 || !all_digits(hours) || !all_digits(minutes) || decimal(hours) > 23 || decimal(minutes)
            > 59 {
            None
        } else {
            let magnitude = decimal(hours) * 3600 + decimal(minutes) * 60;
            Some(
                if s[cursor] == 43 {
                    magnitude
                } else {
                    -magnitude
                },
            )
        }
    } else {
        None
    }
}

/// An RFC 3339 timestamp as seconds since 1970-01-01T00:00:00Z and nanoseconds:
/// `YYYY-MM-DDTHH:MM:SS`, an optional fraction of one to nine digits, and `Z` or an offset.
/// `T` and `Z` may be lowercase; the date must exist.
pub open spec fn rfc3339_instant(s: Seq<u8>) -> Option<(int, int)> {
    if s.len() < 20 || s[4] != 45 || s[7] != 45 || !(s[10] == 84 || s[10] == 116) || s[13] != 58 || s[16] != 58 {
        None
    } else if !all_digits(s.subrange(0, 4)) || !all_digits(s.subrange(5, 7)) || !all_digits(s.subrange(8, 10))
        || !all_digits(s.subrange(11, 13)) || !all_digits(s.subrange(14, 16)) || !all_digits(s.subrange(17, 19)) {
        None
    } else {
        let year = decimal(s.subrange(0, 4));
        let month = decimal(s.subrange(5, 7));
        let day = decimal(s.subrange(8, 10));
        let hour = decimal(s.subrange(11, 13));
        let minute = decimal(s.subrange(14, 16));
        let second = decimal(s.subrange(17, 19));
        if month < 1 || month > 12 || day == 0 || day > month_days(year, month) || hour > 23 || minute > 59 || second > 59 {
            None
        } else {
            match fraction(s) {
                None => None,
                Some((nanos, cursor)) => match utc_offset(s, cursor) {
                    None => None,
                    Some(offset) => Some(
                        (civil_days(year, month, day) * 86400 + hour * 3600 + minute * 60 + second - offset, nanos),
                    ),
                },
            }
        }
    }
}

proof fn lemma_decimal_bound(s: Seq<u8>)
    requires
        all_digits(s),
    ensures
        0 <= decimal(s) < pow10(s.len()),
    decreases s.len(),
{
    if s.len() > 0 {
        assert(all_digits(s.drop_last())) by {
            assert forall|i: int| 0 <= i < s.drop_last().len() implies is_digit(#[trigger] s.drop_last()[i]) by {
                assert(s.drop_last()[i] == s[i]);
            }
        }
        lemma_decimal_bound(s.drop_last());
        assert(is_digit(s[s.len() - 1]));
    }
}

/// The value of a run of decimal digits, when every byte is a digit and it fits.
fn parse_decimal(bytes: &[u8], from: usize, to: usize) -> (result: Option<u32>)
    requires
        from <= to <= bytes@.len(),
        to - from <= 9,
    ensures
        match result {
            Some(v) => all_digits(bytes@.subrange(from as int, to as int)) && v == decimal(
                bytes@.subrange(from as int, to as int),
            ),
            None => !all_digits(bytes@.subrange(from as int, to as int)),
        },
{
    let mut value: u32 = 0;
    let mut i = from;
    while i < to
        invariant
            from <= i <= to <= bytes@.len(),
            to - from <= 9,
            all_digits(bytes@.subrange(from as int, i as int)),
            value == decimal(bytes@.subrange(from as int, i as int)),
            value < pow10((i - from) as nat),
        decreases to - i,
    {
        let b = bytes[i];
        if !(48 <= b && b <= 57) {
            proof {
                assert(bytes@.subrange(from as int, to as int)[i - from] == b);
            }
            return None;
        }
        proof {
            let prefix = bytes@.subrange(from as int, i + 1);
            assert(prefix.drop_last() =~= bytes@.subrange(from as int, i as int));
            assert(prefix.last() == b);
            assert(all_digits(prefix)) by {
                assert forall|k: int| 0 <= k < prefix.len() implies is_digit(#[trigger] prefix[k]) by {
                    if k < prefix.len() - 1 {
                        assert(prefix[k] == bytes@.subrange(from as int, i as int)[k]);
                    }
                }
            }
            assert(pow10((i + 1 - from) as nat) == 10 * pow10((i - from) as nat));
            assert(pow10((i - from) as nat) <= 100000000) by {
                lemma_pow10_bound((i - from) as nat);
            }
        }
        value = value * 10 + (b - 48) as u32;
        i += 1;
    }
    Some(value)
}

proof fn lemma_pow10_bound(n: nat)
    requires
        n <= 8,
    ensures
        1 <= pow10(n) <= 100000000,
        pow10(n) <= pow10(8),
    decreases n,
{
    reveal_with_fuel(pow10, 9);
}

fn days_in_month(year: u32, month: u32) -> (result: u32)
    requires
        year <= 9999,
    ensures
        result == month_days(year as int, month as int),
{
    if month == 1 || month == 3 || month == 5 || month == 7 || month == 8 || month == 10 || month == 12 {
        31
    } else if month == 4 || month == 6 || month == 9 || month == 11 {
        30
    } else if month == 2 {
        if year % 4 == 0 && (year % 100 != 0 || year % 400 == 0) {
            29
        } else {
            28
        }
    } else {
        0
    }
}

fn days_from_civil(year: u32, month: u32, day: u32) -> (result: i64)
    requires
        year <= 9999,
        1 <= month <= 12,
        1 <= day <= 31,
    ensures
        result == civil_days(year as int, month as int, day as int),
        -800000 < result < 3000000,
{
    let shifted_year: i64 = if month <= 2 {
        year as i64 - 1
    } else {
        year as i64
    };
    let era: i64 = if shifted_year >= 0 {
        shifted_year / 400
    } else {
        -1
    };
    proof {
        if shifted_year < 0 {
            assert(shifted_year == -1);
            assert((-1int) / 400 == -1);
        }
    }
    let year_of_era: i64 = shifted_year - era * 400;
    let shifted_month: i64 = if month > 2 {
        month as i64 - 3
    } else {
        month as i64 + 9
    };
    let day_of_year: i64 = (153 * shifted_month + 2) / 5 + day as i64 - 1;
    let day_of_era: i64 = year_of_era * 365 + year_of_era / 4 - year_of_era / 100 + day_of_year;
    era * 146097 + day_of_era - 719468
}

/// The instant an RFC 3339 timestamp names, as seconds since 1970-01-01T00:00:00Z and
/// nanoseconds; `None` when the text is not one.
pub fn parse_rfc3339_timestamp(value: &str) -> (result: Option<(i64, u32)>)
    ensures
        match rfc3339_instant(vstd::utf8::encode_utf8(value@)) {
            Some((seconds, nanos)) => result == Some((seconds as i64, nanos as u32)) && seconds == result.unwrap().0
                && nanos == result.unwrap().1,
            None => result is None,
        },
{
    let bytes = value.as_bytes();
    let ghost s = bytes@;
    let n = bytes.len();
    if n < 20 || bytes[4] != 45 || bytes[7] != 45 || !(bytes[10] == 84 || bytes[10] == 116) || bytes[13] != 58
        || bytes[16] != 58 {
        return None;
    }
    let year = match parse_decimal(bytes, 0, 4) {
        Some(v) => v,
        None => return None,
    };
    let month = match parse_decimal(bytes, 5, 7) {
        Some(v) => v,
        None => return None,
    };
    let day = match parse_decimal(bytes, 8, 10) {
        Some(v) => v,
        None => return None,
    };
    let hour = match parse_decimal(bytes, 11, 13) {
        Some(v) => v,
        None => return None,
    };
    let minute = match parse_decimal(bytes, 14, 16) {
        Some(v) => v,
        None => return None,
    };
    let second = match parse_decimal(bytes, 17, 19) {
        Some(v) => v,
        None => return None,
    };
    proof {
        lemma_decimal_bound(s.subrange(0, 4));
        lemma_decimal_bound(s.subrange(5, 7));
        lemma_decimal_bound(s.subrange(8, 10));
        lemma_decimal_bound(s.subrange(11, 13));
        lemma_decimal_bound(s.subrange(14, 16));
        lemma_decimal_bound(s.subrange(17, 19));
        reveal_with_fuel(pow10, 5);
    }
    if month < 1 || month > 12 || day == 0 || day > days_in_month(year, month) || hour > 23 || minute > 59 || second
        > 59 {
        return None;
    }
    let mut cursor: usize = 19;
    let mut nanos: u32 = 0;
    if bytes[19] == 46 {
        let mut end: usize = 20;
        while end < n && 48 <= bytes[end] && bytes[end] <= 57
            invariant
                20 <= end <= n == s.len(),
                s == bytes@,
                digit_run(s, 20) == (end - 20) + digit_run(s, end as int),
                all_digits(s.subrange(20, end as int)),
            decreases n - end,
        {
            proof {
                assert forall|k: int| 0 <= k < end + 1 - 20 implies is_digit(#[trigger] s.subrange(20, end + 1)[k]) by {
                    if k < end - 20 {
                        assert(s.subrange(20, end + 1)[k] == s.subrange(20, end as int)[k]);
                    }
                }
            }
            end += 1;
        }
        let digits = end - 20;
        proof {
            assert(digit_run(s, end as int) == 0);
        }
        if digits == 0 || digits > 9 {
            return None;
        }
        let fraction_value = match parse_decimal(bytes, 20, end) {
            Some(v) => v,
            None => return None,
        };
        proof {
            lemma_decimal_bound(s.subrange(20, end as int));
            lemma_pow10_split(digits as nat);
        }
        let mut scale: u32 = 1;
        let mut k: usize = digits;
        while k < 9
            invariant
                1 <= digits <= k <= 9,
                scale == pow10((k - digits) as nat),
                scale <= 100000000,
            decreases 9 - k,
        {
            proof {
                lemma_pow10_bound((k + 1 - digits) as nat);
            }
            scale = scale * 10;
            k += 1;
        }
        proof {
            assert(fraction_value * scale < 1000000000) by (nonlinear_arith)
                requires
                    fraction_value < pow10(digits as nat),
                    scale == pow10((9 - digits) as nat),
                    pow10(digits as nat) * pow10((9 - digits) as nat) == 1000000000,
                    0 <= fraction_value,
                    0 < scale,
            ;
        }
        nanos = fraction_value * scale;
        cursor = end;
    }
    let offset_seconds: i64 = if cursor < n && (bytes[cursor] == 90 || bytes[cursor] == 122) && cursor + 1 == n {
        0
    } else if cursor < n && (bytes[cursor] == 43 || bytes[cursor] == 45) && cursor + 6 == n {
        if bytes[cursor + 3] != 58 {
            return None;
        }
        let offset_hour = match parse_decimal(bytes, cursor + 1, cursor + 3) {
            Some(v) => v,
            None => return None,
        };
        let offset_minute = match parse_decimal(bytes, cursor + 4, cursor + 6) {
            Some(v) => v,
            None => return None,
        };
        if offset_hour > 23 || offset_minute > 59 {
            return None;
        }
        let magnitude = (offset_hour * 3600 + offset_minute * 60) as i64;
        if bytes[cursor] == 43 {
            magnitude
        } else {
            -magnitude
        }
    } else {
        return None;
    };
    let days = days_from_civil(year, month, day);
    let seconds = days * 86400 + (hour * 3600 + minute * 60 + second) as i64 - offset_seconds;
    Some((seconds, nanos))
}

proof fn lemma_pow10_split(digits: nat)
    requires
        1 <= digits <= 9,
    ensures
        pow10(digits) * pow10((9 - digits) as nat) == 1000000000,
{
    reveal_with_fuel(pow10, 10);
    assert(pow10(9) == 1000000000);
    lemma_pow10_add(digits, (9 - digits) as nat);
}

proof fn lemma_pow10_add(a: nat, b: nat)
    ensures
        pow10(a) * pow10(b) == pow10(a + b),
    decreases a,
{
    if a > 0 {
        lemma_pow10_add((a - 1) as nat, b);
        assert(pow10(a) == 10 * pow10((a - 1) as nat));
        assert(pow10(a + b) == 10 * pow10((a - 1 + b) as nat));
        assert(pow10(a) * pow10(b) == 10 * (pow10((a - 1) as nat) * pow10(b))) by (nonlinear_arith)
            requires
                pow10(a) == 10 * pow10((a - 1) as nat),
        ;
    }
}


// ---------------------------------------------------------------------------------------
// Merging the session indexes
// ---------------------------------------------------------------------------------------

/// A session index line: its thread, when it was last updated (if the text is a
/// timestamp), and the line's value as the index stores it.
pub struct SessionIndexEntry<T> {
    pub id: String,
    pub timestamp: Option<(i64, u32)>,
    pub value: T,
}

impl<T> SessionIndexEntry<T> {
    /// The entry for the line with these fields, or why they are refused: its thread id in
    /// lowercase and the instant of `updated_at`.
    pub fn new(id: &str, thread_name: &str, updated_at: &str, value: T) -> (result: Result<Self, SessionSyncError>)
        ensures
            match result {
                Ok(entry) => session_index_identity_ok(id, thread_name, updated_at) && entry.id@ == ascii_lower(id@)
                    && entry.timestamp == instant_of(updated_at@) && entry.value == value,
                Err(error) => !session_index_identity_ok(id, thread_name, updated_at) && error == identity_error(
                    id,
                    thread_name,
                    updated_at,
                ),
            },
    {
        let lowered = session_index_identity(id, thread_name, updated_at)?;
        let timestamp = parse_rfc3339_timestamp(updated_at);
        Ok(SessionIndexEntry { id: lowered, timestamp, value })
    }
}

/// The fields of an index line are acceptable.
pub open spec fn session_index_identity_ok(id: &str, thread_name: &str, updated_at: &str) -> bool {
    is_thread_id(id@) && is_index_text(thread_name, MAX_THREAD_NAME_BYTES) && is_index_text(updated_at, MAX_UPDATED_AT_BYTES)
}

/// Why the fields of an index line are refused: the thread id first, then the name.
pub open spec fn identity_error(id: &str, thread_name: &str, updated_at: &str) -> SessionSyncError {
    if !is_thread_id(id@) {
        SessionSyncError::InvalidThreadId
    } else if !is_index_text(thread_name, MAX_THREAD_NAME_BYTES) {
        SessionSyncError::InvalidThreadName
    } else {
        SessionSyncError::InvalidUpdatedAt
    }
}

/// The instant of an `updated_at` text, when it is an RFC 3339 timestamp.
pub open spec fn instant_of(text: Seq<char>) -> Option<(i64, u32)> {
    match rfc3339_instant(vstd::utf8::encode_utf8(text)) {
        Some((seconds, nanos)) => Some((seconds as i64, nanos as u32)),
        None => None,
    }
}

/// The index lines by thread, where a later line of a thread replaces an earlier one.
pub open spec fn collapsed<T>(entries: Seq<SessionIndexEntry<T>>) -> Map<Seq<char>, SessionIndexEntry<T>>
    decreases entries.len(),
{
    if entries.len() == 0 {
        Map::empty()
    } else {
        collapsed(entries.drop_last()).insert(entries.last().id@, entries.last())
    }
}

/// The merged index: every thread of either index, where the isolated home's line replaces
/// the daily one when `private_entry_wins`.
pub open spec fn merged_index<T>(
    daily: Map<Seq<char>, SessionIndexEntry<T>>,
    private: Map<Seq<char>, SessionIndexEntry<T>>,
) -> Map<Seq<char>, SessionIndexEntry<T>> {
    Map::new(
        |k: Seq<char>| daily.contains_key(k) || private.contains_key(k),
        |k: Seq<char>| if private.contains_key(k) && private_entry_wins(daily_time(daily, k), private[k].timestamp) {
            private[k]
        } else {
            daily[k]
        },
    )
}

pub open spec fn daily_time<T>(daily: Map<Seq<char>, SessionIndexEntry<T>>, k: Seq<char>) -> Option<Option<(i64, u32)>> {
    if daily.contains_key(k) {
        Some(daily[k].timestamp)
    } else {
        None
    }
}

/// The index lines by thread, a later line of a thread replacing an earlier one.
pub fn collapse_session_index_entries<T>(entries: Vec<SessionIndexEntry<T>>) -> (result: TextMap<SessionIndexEntry<T>>)
    ensures
        result.map() == collapsed(entries@),
{
    let ghost whole = collapsed(entries@);
    let mut remaining = entries;
    let mut map: TextMap<SessionIndexEntry<T>> = TextMap::new();
    proof {
        assert(whole =~= collapsed(remaining@).union_prefer_right(map.map()));
    }
    while remaining.len() > 0
        invariant
            whole == collapsed(remaining@).union_prefer_right(map.map()),
        decreases remaining@.len(),
    {
        let ghost before = remaining@;
        let ghost before_map = map.map();
        let entry = remaining.pop().unwrap();
        proof {
            assert(remaining@ == before.drop_last());
            assert(entry == before.last());
        }
        if !map.contains_key(entry.id.as_str()) {
            let key = entry.id.clone();
            map.insert(key, entry);
            proof {
                assert(whole =~= collapsed(remaining@).union_prefer_right(map.map()));
            }
        } else {
            proof {
                assert(whole =~= collapsed(remaining@).union_prefer_right(map.map()));
            }
        }
    }
    proof {
        assert(collapsed(remaining@) =~= Map::<Seq<char>, SessionIndexEntry<T>>::empty());
        assert(whole =~= map.map());
    }
    map
}

spec fn merged_upto<T>(
    daily: Map<Seq<char>, SessionIndexEntry<T>>,
    private: Map<Seq<char>, SessionIndexEntry<T>>,
    pending: Seq<(String, SessionIndexEntry<T>)>,
) -> Map<Seq<char>, SessionIndexEntry<T>> {
    Map::new(
        |k: Seq<char>| daily.contains_key(k) || (private.contains_key(k) && !has_key(pending, k)),
        |k: Seq<char>| if private.contains_key(k) && !has_key(pending, k) && private_entry_wins(
            daily_time(daily, k),
            private[k].timestamp,
        ) {
            private[k]
        } else {
            daily[k]
        },
    )
}

/// Merges the daily index with the isolated home's: the threads in ascending order, each
/// with the line that `merged_index` keeps.
pub fn merge_session_indexes<T>(daily: Vec<SessionIndexEntry<T>>, private: Vec<SessionIndexEntry<T>>) -> (result: Vec<
    (String, SessionIndexEntry<T>),
>)
    ensures
        keys_unique(result@),
        keys_ascending(result@),
        entries_map(result@) == merged_index(collapsed(daily@), collapsed(private@)),
{
    let ghost daily_map = collapsed(daily@);
    let ghost private_map = collapsed(private@);
    let mut merged = collapse_session_index_entries(daily);
    let mut pending = collapse_session_index_entries(private).into_entries();
    proof {
        assert(merged.map() =~= merged_upto(daily_map, private_map, pending@)) by {
            assert forall|k: Seq<char>| private_map.contains_key(k) implies has_key(pending@, k) by {
                assert(entries_map(pending@).contains_key(k));
            }
        }
    }
    while pending.len() > 0
        invariant
            keys_unique(pending@),
            forall|k: Seq<char>| #[trigger] entries_map(pending@).contains_key(k) ==> private_map.contains_key(k)
                && private_map[k] == entries_map(pending@)[k],
            merged.map() == merged_upto(daily_map, private_map, pending@),
        decreases pending@.len(),
    {
        let ghost before = pending@;
        proof {
            crate::text_map::lemma_pop_entry_public(before);
            assert forall|k: Seq<char>| #[trigger] has_key(before, k) implies private_map.contains_key(k) && private_map[k]
                == entries_map(before)[k] by {
                assert(entries_map(before).contains_key(k));
            }
        }
        let (id, entry) = pending.pop().unwrap();
        proof {
            assert(before.last() == (id, entry));
            assert(has_key(before, id@)) by {
                assert(before[before.len() - 1].0@ == id@);
            }
            assert(private_map[id@] == entry);
            assert forall|k: Seq<char>| has_key(pending@, k) implies has_key(before, k) by {
                let t = choose|t: int| 0 <= t < pending@.len() && #[trigger] pending@[t].0@ == k;
                assert(before[t] == pending@[t]);
            }
        }
        let current = match merged.get(id.as_str()) {
            Some(existing) => Some(existing.timestamp),
            None => None,
        };
        proof {
            assert(current == daily_time(daily_map, id@));
        }
        if private_index_entry_wins(current, entry.timestamp) {
            merged.insert(id, entry);
        }
        proof {
            assert forall|k: Seq<char>| has_key(before, k) && k != id@ implies has_key(pending@, k) by {
                let t = choose|t: int| 0 <= t < before.len() && #[trigger] before[t].0@ == k;
                assert(t != before.len() - 1);
                assert(pending@[t] == before[t]);
            }
            assert forall|k: Seq<char>| #[trigger] entries_map(pending@).contains_key(k) implies private_map.contains_key(k)
                && private_map[k] == entries_map(pending@)[k] by {
                assert(has_key(pending@, k));
                assert(k != id@);
                let t = choose|t: int| 0 <= t < pending@.len() && #[trigger] pending@[t].0@ == k;
                assert(before[t] == pending@[t]);
                assert(has_key(before, k));
                assert(private_map.contains_key(k) && private_map[k] == entries_map(before)[k]);
                assert(entries_map(before) == entries_map(pending@).insert(id@, entry));
                assert(entries_map(before)[k] == entries_map(pending@)[k]);
            }
            assert(merged.map() =~= merged_upto(daily_map, private_map, pending@));
        }
    }
    proof {
        assert(merged.map() =~= merged_index(daily_map, private_map));
    }
    merged.into_sorted_entries()
}


// ---------------------------------------------------------------------------------------
// Ordering
// ---------------------------------------------------------------------------------------

/// A character as it stands in an order key: a separator becomes NUL, which sorts before
/// every other character; anything else is marked by U+0001 before it.
pub open spec fn order_piece(c: char) -> Seq<char> {
    if c == '/' {
        seq!['\0']
    } else {
        seq!['\u{1}', c]
    }
}

/// A `/`-separated key written so that such texts compare as their component lists do,
/// and distinct keys stay distinct.
pub open spec fn component_order_text(key: Seq<char>) -> Seq<char>
    decreases key.len(),
{
    if key.len() == 0 {
        Seq::empty()
    } else {
        order_piece(key[0]) + component_order_text(key.drop_first())
    }
}

proof fn lemma_order_text_push(key: Seq<char>, c: char)
    ensures
        component_order_text(key.push(c)) == component_order_text(key) + order_piece(c),
    decreases key.len(),
{
    if key.len() == 0 {
        assert(key.push(c).drop_first() =~= Seq::<char>::empty());
        assert(component_order_text(key.push(c).drop_first()) =~= Seq::<char>::empty());
        assert(order_piece(c) + Seq::<char>::empty() =~= order_piece(c));
        assert(component_order_text(key) =~= Seq::<char>::empty());
        assert(component_order_text(key.push(c)) =~= order_piece(c));
    } else {
        assert(key.push(c).drop_first() =~= key.drop_first().push(c));
        lemma_order_text_push(key.drop_first(), c);
        assert(component_order_text(key.push(c)) =~= component_order_text(key) + order_piece(c));
    }
}

proof fn lemma_order_text_injective(a: Seq<char>, b: Seq<char>)
    requires
        component_order_text(a) == component_order_text(b),
    ensures
        a == b,
    decreases a.len(),
{
    if a.len() == 0 {
        if b.len() > 0 {
            assert(component_order_text(b).len() > 0);
        }
    } else if b.len() == 0 {
        assert(component_order_text(a).len() > 0);
    } else {
        let x = component_order_text(a);
        let pa = order_piece(a[0]);
        let pb = order_piece(b[0]);
        assert(x[0] == pa[0]);
        assert(x[0] == component_order_text(b)[0]);
        assert(component_order_text(b)[0] == pb[0]);
        if a[0] == '/' {
            assert(b[0] == '/');
        } else {
            assert(b[0] != '/');
            assert(x[1] == pa[1]);
            assert(component_order_text(b)[1] == pb[1]);
        }
        assert(pa =~= pb);
        assert(component_order_text(a.drop_first()) =~= x.skip(pa.len() as int));
        assert(component_order_text(b.drop_first()) =~= component_order_text(b).skip(pb.len() as int));
        lemma_order_text_injective(a.drop_first(), b.drop_first());
        assert(a =~= seq![a[0]] + a.drop_first());
        assert(b =~= seq![b[0]] + b.drop_first());
    }
}

fn component_order_chars(key: &str) -> (result: Vec<char>)
    ensures
        result@ == component_order_text(key@),
{
    let chars = chars_of(key);
    let mut out: Vec<char> = Vec::new();
    proof {
        assert(key@.take(0) =~= Seq::<char>::empty());
    }
    for i in 0..chars.len()
        invariant
            chars@ == key@,
            out@ == component_order_text(key@.take(i as int)),
    {
        proof {
            assert(key@.take(i + 1) =~= key@.take(i as int).push(key@[i as int]));
            lemma_order_text_push(key@.take(i as int), key@[i as int]);
        }
        if chars[i] == '/' {
            out.push('\0');
            proof {
                assert(out@ =~= component_order_text(key@.take(i + 1)));
            }
        } else {
            out.push('\u{1}');
            out.push(chars[i]);
            proof {
                assert(out@ =~= component_order_text(key@.take(i + 1)));
            }
        }
    }
    proof {
        assert(key@.take(key@.len() as int) =~= key@);
    }
    out
}

/// The order in which candidate rollouts are taken: by `rollout_priority` of their first
/// component, then by their components.
pub open spec fn candidate_order_key(priority: u8, key: Seq<char>) -> Seq<char> {
    seq![(('0' as u8) + priority) as char] + component_order_text(key)
}

/// Sorts candidate rollouts, given by their keys (relative paths with `/` separators),
/// into the order in which they are imported: under `sessions` first, then under
/// `archived_sessions`, then the rest, each group by path. Each key comes back once.
pub fn order_rollout_candidates(keys: Vec<String>) -> (result: Vec<String>)
    requires
        forall|i: int, j: int| 0 <= i < j < keys@.len() ==> keys@[i]@ != keys@[j]@,
    ensures
        crate::skill_sync::strings_view(result@).to_set() == crate::skill_sync::strings_view(keys@).to_set(),
        forall|i: int, j: int| 0 <= i < j < result@.len() ==> crate::text::text_lt(
            candidate_order_key(first_priority(result@[i]@), result@[i]@),
            candidate_order_key(first_priority(result@[j]@), result@[j]@),
        ),
{
    let mut by_order: TextMap<String> = TextMap::new();
    for i in 0..keys.len()
        invariant
            forall|k: Seq<char>| #[trigger] by_order.map().contains_key(k) ==> exists|j: int| 0 <= j < i
                && k == candidate_order_key(first_priority(keys@[j]@), keys@[j]@) && by_order.map()[k]@ == keys@[j]@,
            forall|j: int| 0 <= j < i ==> by_order.map().contains_key(#[trigger] candidate_order_key(first_priority(keys@[j]@), keys@[j]@)),
    {
        let key = &keys[i];
        let priority = rollout_candidate_priority_of_key(key.as_str());
        let mut order: Vec<char> = Vec::new();
        order.push(((48u8 + priority) as char));
        let rest = component_order_chars(key.as_str());
        let mut j: usize = 0;
        while j < rest.len()
            invariant
                order@ == seq![((48u8 + priority) as char)] + rest@.take(j as int),
                j <= rest@.len(),
            decreases rest@.len() - j,
        {
            order.push(rest[j]);
            proof {
                assert(rest@.take(j + 1) =~= rest@.take(j as int).push(rest@[j as int]));
            }
            j += 1;
        }
        proof {
            assert(rest@.take(rest@.len() as int) =~= rest@);
            assert(order@ =~= candidate_order_key(first_priority(keys@[i as int]@), keys@[i as int]@));
        }
        let order_text = string_from_chars(order.as_slice());
        by_order.insert(order_text, key.clone());
    }
    let sorted = by_order.into_sorted_entries();
    let mut result: Vec<String> = Vec::new();
    for i in 0..sorted.len()
        invariant
            result@.len() == i,
            forall|t: int| 0 <= t < i ==> (#[trigger] result@[t])@ == sorted@[t].1@,
    {
        result.push(sorted[i].1.clone());
    }
    proof {
        let m = by_order.map();
        assert forall|i: int| #![trigger result@[i]] 0 <= i < result@.len() implies exists|j: int| 0 <= j < keys@.len()
            && keys@[j]@ == result@[i]@ by {
            crate::text_map::lemma_entry_in_map(sorted@, i);
            assert(m.contains_key(sorted@[i].0@));
            let j = choose|j: int| 0 <= j < keys@.len() && sorted@[i].0@ == candidate_order_key(
                first_priority(keys@[j]@),
                keys@[j]@,
            ) && m[sorted@[i].0@]@ == keys@[j]@;
            assert(keys@[j]@ == result@[i]@);
        }
        assert(result@.len() == sorted@.len());
        assert forall|j: int| #![trigger keys@[j]] 0 <= j < keys@.len() implies exists|i: int| 0 <= i < result@.len()
            && result@[i]@ == keys@[j]@ by {
            let k = candidate_order_key(first_priority(keys@[j]@), keys@[j]@);
            assert(m.contains_key(k));
            let t = choose|t: int| 0 <= t < sorted@.len() && #[trigger] sorted@[t].0@ == k;
            crate::text_map::lemma_entry_in_map(sorted@, t);
            let j2 = choose|j2: int| 0 <= j2 < keys@.len() && k == candidate_order_key(
                first_priority(keys@[j2]@),
                keys@[j2]@,
            ) && m[k]@ == keys@[j2]@;
            lemma_order_key_injective(keys@[j]@, keys@[j2]@);
            assert(result@[t]@ == keys@[j]@);
        }
        assert forall|i: int, j: int| 0 <= i < j < result@.len() implies crate::text::text_lt(
            candidate_order_key(first_priority(result@[i]@), result@[i]@),
            candidate_order_key(first_priority(result@[j]@), result@[j]@),
        ) by {
            crate::text_map::lemma_entry_in_map(sorted@, i);
            crate::text_map::lemma_entry_in_map(sorted@, j);
            let ji = choose|x: int| 0 <= x < keys@.len() && sorted@[i].0@ == candidate_order_key(
                first_priority(keys@[x]@),
                keys@[x]@,
            ) && m[sorted@[i].0@]@ == keys@[x]@;
            let jj = choose|x: int| 0 <= x < keys@.len() && sorted@[j].0@ == candidate_order_key(
                first_priority(keys@[x]@),
                keys@[x]@,
            ) && m[sorted@[j].0@]@ == keys@[x]@;
            assert(result@[i]@ == keys@[ji]@);
            assert(result@[j]@ == keys@[jj]@);
        }
        let rt = crate::skill_sync::strings_view(result@);
        let kt = crate::skill_sync::strings_view(keys@);
        assert forall|x: Seq<char>| rt.contains(x) implies kt.contains(x) by {
            let i = choose|i: int| 0 <= i < rt.len() && rt[i] == x;
            assert(result@[i]@ == x);
            let j = choose|j: int| 0 <= j < keys@.len() && keys@[j]@ == result@[i]@;
            assert(kt[j] == x);
        }
        assert forall|x: Seq<char>| kt.contains(x) implies rt.contains(x) by {
            let j = choose|j: int| 0 <= j < kt.len() && kt[j] == x;
            assert(keys@[j]@ == x);
            let i = choose|i: int| 0 <= i < result@.len() && result@[i]@ == keys@[j]@;
            assert(rt[i] == x);
        }
        assert(rt.to_set() =~= kt.to_set());
    }
    result
}

proof fn lemma_order_key_injective(a: Seq<char>, b: Seq<char>)
    requires
        candidate_order_key(first_priority(a), a) == candidate_order_key(first_priority(b), b),
    ensures
        a == b,
{
    let ka = candidate_order_key(first_priority(a), a);
    let kb = candidate_order_key(first_priority(b), b);
    assert(component_order_text(a) =~= ka.drop_first());
    assert(component_order_text(b) =~= kb.drop_first());
    lemma_order_text_injective(a, b);
}

/// The priority of a key by its first component.
pub open spec fn first_priority(key: Seq<char>) -> u8 {
    rollout_priority(Some(first_component(key)))
}

/// The first `/`-separated component of a key.
pub open spec fn first_component(key: Seq<char>) -> Seq<char> {
    if key.contains('/') {
        key.take(key.index_of_first('/').unwrap())
    } else {
        key
    }
}

fn rollout_candidate_priority_of_key(key: &str) -> (result: u8)
    ensures
        result == first_priority(key@),
        result <= 2,
{
    let chars = chars_of(key);
    let mut end: usize = 0;
    while end < chars.len() && chars[end] != '/'
        invariant
            end <= chars@.len(),
            chars@ == key@,
            forall|t: int| 0 <= t < end ==> chars@[t] != '/',
        decreases chars@.len() - end,
    {
        end += 1;
    }
    let first = string_from_chars(slice_chars(chars.as_slice(), 0, end).as_slice());
    proof {
        if end < chars.len() {
            assert(key@.contains('/'));
            let f = key@.index_of_first('/');
            key@.index_of_first_ensures('/');
            assert(f == Some(end as int));
        } else {
            assert(!key@.contains('/'));
            assert(key@.subrange(0, end as int) =~= key@);
        }
    }
    rollout_candidate_priority(Some(first.as_str()))
}


// ---------------------------------------------------------------------------------------
// The import manifest and the decision for each rollout
// ---------------------------------------------------------------------------------------

/// The version of the import manifest this library reads and writes.
pub const SESSION_MANIFEST_VERSION: u8 = 1;

/// The largest rollout that is imported, in bytes.
pub const MAX_ROLLOUT_BYTES: u64 = 1073741824;

/// An imported rollout: the source as it was read and the snapshot written from it.
#[derive(Debug, Clone, PartialEq, Eq)]
pub struct ImportedSessionRecord {
    pub thread_id: String,
    pub source_len: u64,
    pub source_modified_seconds: i64,
    pub source_modified_nanos: u32,
    pub source_sha256: String,
    pub destination_len: u64,
    pub destination_sha256: String,
    pub provider_id: String,
}

/// The manifest the isolated home keeps of its imported rollouts, by relative path.
pub struct SessionImportManifest {
    pub version: u8,
    pub files: TextMap<ImportedSessionRecord>,
}

impl SessionImportManifest {
    /// A manifest with no imports.
    pub fn empty() -> (result: Self)
        ensures
            result.version == SESSION_MANIFEST_VERSION,
            result.files.map() == Map::<Seq<char>, ImportedSessionRecord>::empty(),
    {
        SessionImportManifest { version: SESSION_MANIFEST_VERSION, files: TextMap::new() }
    }

    /// Checks the version of a stored manifest.
    pub fn check_version(&self) -> (result: bool)
        ensures
            result == (self.version == SESSION_MANIFEST_VERSION),
    {
        self.version == SESSION_MANIFEST_VERSION
    }
}

/// What a stable read of a daily rollout found.
#[derive(Debug, Clone, PartialEq, Eq)]
pub enum RolloutCheck {
    /// The rollout is being written, or could not be opened for now.
    Active,
    /// The rollout is not a file that may be imported.
    Invalid,
    /// The rollout's size, modification time and digest.
    Stable { len: u64, modified_seconds: i64, modified_nanos: u32, sha256: String },
}

/// What a rollout's metadata says before it is read: `Invalid` unless it is a regular,
/// unlinked file of 1 byte to 1 GiB.
pub fn classify_rollout_metadata(regular_file: bool, reparse_point: bool, len: u64, link_count: u32) -> (result: Option<
    RolloutCheck,
>)
    ensures
        result is None <==> (regular_file && !reparse_point && 0 < len <= MAX_ROLLOUT_BYTES && link_count == 1),
        result is Some ==> result == Some(RolloutCheck::Invalid),
{
    if !regular_file || reparse_point || len == 0 || len > MAX_ROLLOUT_BYTES || link_count != 1 {
        Some(RolloutCheck::Invalid)
    } else {
        None
    }
}

/// The first decision for a rollout whose snapshot already exists in the isolated home.
#[derive(Debug, Clone, Copy, PartialEq, Eq, Structural)]
pub enum ExistingRolloutPlan {
    SkipActive,
    SkipInvalid,
    /// No record covers the snapshot: rebuild it aside and adopt it if it is identical.
    RecoverOrphan,
    Conflict,
    /// Compare the snapshot with its record before deciding.
    CheckDestination,
}

/// The decision once the snapshot was compared with its record.
#[derive(Debug, Clone, Copy, PartialEq, Eq, Structural)]
pub enum CheckedRolloutPlan {
    Conflict,
    /// Source and snapshot are as recorded.
    Keep,
    /// The snapshot differs from its record: rebuild it aside and adopt it if identical.
    RecoverOrphan,
    /// The source changed: import it again.
    Import,
}

/// The record covers this thread and provider.
pub open spec fn record_matches(record: ImportedSessionRecord, thread_id: Seq<char>, provider_id: Seq<char>) -> bool {
    record.thread_id@ == thread_id && record.provider_id@ == provider_id
}

/// The first decision for an existing snapshot.
pub open spec fn existing_plan(
    record: Option<ImportedSessionRecord>,
    thread_id: Seq<char>,
    provider_id: Seq<char>,
    source: RolloutCheck,
) -> ExistingRolloutPlan {
    match source {
        RolloutCheck::Active => ExistingRolloutPlan::SkipActive,
        RolloutCheck::Invalid => ExistingRolloutPlan::SkipInvalid,
        RolloutCheck::Stable { .. } => match record {
            None => ExistingRolloutPlan::RecoverOrphan,
            Some(r) => if !record_matches(r, thread_id, provider_id) {
                ExistingRolloutPlan::Conflict
            } else {
                ExistingRolloutPlan::CheckDestination
            },
        },
    }
}

/// The source is as the record saw it.
pub open spec fn source_matches(record: ImportedSessionRecord, source: RolloutCheck) -> bool {
    match source {
        RolloutCheck::Stable { len, modified_seconds, modified_nanos, sha256 } => {
            &&& record.source_len == len
            &&& record.source_modified_seconds == modified_seconds
            &&& record.source_modified_nanos == modified_nanos
            &&& record.source_sha256@ == sha256@
        },
        _ => false,
    }
}

/// The decision once the snapshot was compared with its record; `None` when the
/// comparison failed.
pub open spec fn checked_plan(record: ImportedSessionRecord, source: RolloutCheck, destination_matches: Option<bool>) -> CheckedRolloutPlan {
    match destination_matches {
        None => CheckedRolloutPlan::Conflict,
        Some(matches) => if source_matches(record, source) && matches {
            CheckedRolloutPlan::Keep
        } else if !matches {
            CheckedRolloutPlan::RecoverOrphan
        } else {
            CheckedRolloutPlan::Import
        },
    }
}

fn same_text(a: &str, b: &str) -> (result: bool)
    ensures
        result == (a@ == b@),
{
    let x = chars_of(a);
    let y = chars_of(b);
    crate::text::chars_equal(x.as_slice(), y.as_slice())
}

/// Decides what to do with a rollout whose snapshot exists, from its record, if any, and
/// a stable read of the source.
pub fn plan_existing_rollout(
    record: Option<&ImportedSessionRecord>,
    thread_id: &str,
    provider_id: &str,
    source: &RolloutCheck,
) -> (result: ExistingRolloutPlan)
    ensures
        result == existing_plan(
            match record {
                Some(r) => Some(*r),
                None => None,
            },
            thread_id@,
            provider_id@,
            *source,
        ),
{
    match source {
        RolloutCheck::Active => ExistingRolloutPlan::SkipActive,
        RolloutCheck::Invalid => ExistingRolloutPlan::SkipInvalid,
        RolloutCheck::Stable { .. } => match record {
            None => ExistingRolloutPlan::RecoverOrphan,
            Some(r) => {
                if !same_text(r.thread_id.as_str(), thread_id) || !same_text(r.provider_id.as_str(), provider_id) {
                    ExistingRolloutPlan::Conflict
                } else {
                    ExistingRolloutPlan::CheckDestination
                }
            },
        },
    }
}

/// Decides what to do once the snapshot was compared with its record.
pub fn plan_checked_rollout(record: &ImportedSessionRecord, source: &RolloutCheck, destination_matches: Option<bool>) -> (result: CheckedRolloutPlan)
    ensures
        result == checked_plan(*record, *source, destination_matches),
{
    let matches = match destination_matches {
        None => return CheckedRolloutPlan::Conflict,
        Some(matches) => matches,
    };
    let same_source = match source {
        RolloutCheck::Stable { len, modified_seconds, modified_nanos, sha256 } => record.source_len == *len
            && record.source_modified_seconds == *modified_seconds && record.source_modified_nanos == *modified_nanos
            && record.source_sha256 == *sha256,
        _ => false,
    };
    if same_source && matches {
        CheckedRolloutPlan::Keep
    } else if !matches {
        CheckedRolloutPlan::RecoverOrphan
    } else {
        CheckedRolloutPlan::Import
    }
}

/// The key of another record of the same thread and provider, the least such key in
/// `str` order, if any: its snapshot moves to `key` when this rollout is settled.
pub open spec fn is_prior_record(files: Map<Seq<char>, ImportedSessionRecord>, key: Seq<char>, thread_id: Seq<char>, provider_id: Seq<char>, other: Seq<char>) -> bool {
    files.contains_key(other) && other != key && record_matches(files[other], thread_id, provider_id)
}

/// Finds the record that a rollout under `key` supersedes: the other record of its thread
/// and provider with the least key.
pub fn prior_thread_record(manifest: &SessionImportManifest, key: &str, thread_id: &str, provider_id: &str) -> (result: Option<String>)
    ensures
        match result {
            Some(prior) => is_prior_record(manifest.files.map(), key@, thread_id@, provider_id@, prior@) && forall|other: Seq<char>|
                is_prior_record(manifest.files.map(), key@, thread_id@, provider_id@, other) && other != prior@
                ==> crate::text::text_lt(prior@, other),
            None => forall|other: Seq<char>| !is_prior_record(manifest.files.map(), key@, thread_id@, provider_id@, other),
        },
{
    let keys = manifest.files.keys();
    let ghost files = manifest.files.map();
    let key_chars = chars_of(key);
    let mut best: Option<String> = None;
    for i in 0..keys.len()
        invariant
            files == manifest.files.map(),
            key_chars@ == key@,
            forall|t: int| 0 <= t < keys@.len() ==> files.contains_key(#[trigger] keys@[t]@),
            forall|k: Seq<char>| #[trigger] files.contains_key(k) ==> exists|t: int| 0 <= t < keys@.len() && keys@[t]@ == k,
            match best {
                Some(b) => is_prior_record(files, key@, thread_id@, provider_id@, b@) && forall|t: int| 0 <= t < i
                    && is_prior_record(files, key@, thread_id@, provider_id@, #[trigger] keys@[t]@) && keys@[t]@ != b@
                    ==> crate::text::text_lt(b@, keys@[t]@),
                None => forall|t: int| 0 <= t < i ==> !is_prior_record(files, key@, thread_id@, provider_id@, #[trigger] keys@[t]@),
            },
    {
        let candidate = &keys[i];
        let candidate_chars = chars_of(candidate.as_str());
        let eligible = match manifest.files.get(candidate.as_str()) {
            Some(record) => !crate::text::chars_equal(candidate_chars.as_slice(), key_chars.as_slice()) && same_text(
                record.thread_id.as_str(),
                thread_id,
            ) && same_text(record.provider_id.as_str(), provider_id),
            None => false,
        };
        proof {
            assert(files.contains_key(keys@[i as int]@));
            assert(eligible == is_prior_record(files, key@, thread_id@, provider_id@, keys@[i as int]@));
        }
        if eligible {
            let better = match &best {
                None => true,
                Some(b) => crate::text::text_less(candidate_chars.as_slice(), chars_of(b.as_str()).as_slice()),
            };
            if better {
                let ghost old_best = best;
                proof {
                    if let Some(b) = old_best {
                        assert forall|t: int| 0 <= t < i + 1 && is_prior_record(files, key@, thread_id@, provider_id@, #[trigger] keys@[t]@)
                            && keys@[t]@ != candidate@ implies crate::text::text_lt(candidate@, keys@[t]@) by {
                            if t < i {
                                if keys@[t]@ == b@ {
                                } else {
                                    crate::text::lemma_text_lt_transitive(candidate@, b@, keys@[t]@);
                                }
                            }
                        }
                    }
                }
                best = Some(candidate.clone());
            } else {
                proof {
                    if let Some(b) = &best {
                        if candidate@ != b@ {
                            crate::text::lemma_text_lt_total(candidate@, b@);
                        }
                    }
                }
            }
        }
    }
    proof {
        match &best {
            Some(b) => {
                assert forall|other: Seq<char>| is_prior_record(files, key@, thread_id@, provider_id@, other) && other != b@
                    implies crate::text::text_lt(b@, other) by {
                    let t = choose|t: int| 0 <= t < keys@.len() && keys@[t]@ == other;
                    assert(is_prior_record(files, key@, thread_id@, provider_id@, keys@[t]@));
                }
            },
            None => {
                assert forall|other: Seq<char>| !is_prior_record(files, key@, thread_id@, provider_id@, other) by {
                    if files.contains_key(other) {
                        let t = choose|t: int| 0 <= t < keys@.len() && keys@[t]@ == other;
                        assert(!is_prior_record(files, key@, thread_id@, provider_id@, keys@[t]@));
                    }
                }
            },
        }
    }
    best
}

/// How an import attempt ended, as the receipt counts it.
#[derive(Debug, Clone, Copy, PartialEq, Eq, Structural)]
pub enum RolloutOutcome {
    Imported,
    Updated,
    Unchanged,
    SkippedActive,
    SkippedInvalid,
    Conflict,
}

/// The outcome of importing a rollout: an update when a record existed or a prior snapshot
/// moved, else a new import.
pub fn import_outcome(had_record: bool, migrated: bool) -> (result: RolloutOutcome)
    ensures
        result == (if had_record || migrated {
            RolloutOutcome::Updated
        } else {
            RolloutOutcome::Imported
        }),
{
    if had_record || migrated {
        RolloutOutcome::Updated
    } else {
        RolloutOutcome::Imported
    }
}

/// The outcome of adopting a snapshot that no record covered: an update when a prior
/// snapshot moved, else nothing changed.
pub fn orphan_outcome(migrated: bool) -> (result: RolloutOutcome)
    ensures
        result == (if migrated {
            RolloutOutcome::Updated
        } else {
            RolloutOutcome::Unchanged
        }),
{
    if migrated {
        RolloutOutcome::Updated
    } else {
        RolloutOutcome::Unchanged
    }
}

/// What a session import did, counted per outcome.
#[derive(Debug, Clone, PartialEq, Eq)]
pub struct NativeSessionSyncReceipt {
    pub imported: usize,
    pub updated: usize,
    pub unchanged: usize,
    pub skipped_active: usize,
    pub skipped_invalid: usize,
    pub conflicts: usize,
    pub session_index_entries: usize,
    pub session_index_skipped: bool,
    pub shared_thread_ids: Vec<String>,
}

impl NativeSessionSyncReceipt {
    /// A receipt with nothing counted.
    pub fn new() -> (result: Self)
        ensures
            result.imported == 0 && result.updated == 0 && result.unchanged == 0 && result.skipped_active == 0
                && result.skipped_invalid == 0 && result.conflicts == 0 && result.session_index_entries == 0
                && !result.session_index_skipped && result.shared_thread_ids@.len() == 0,
    {
        NativeSessionSyncReceipt {
            imported: 0,
            updated: 0,
            unchanged: 0,
            skipped_active: 0,
            skipped_invalid: 0,
            conflicts: 0,
            session_index_entries: 0,
            session_index_skipped: false,
            shared_thread_ids: Vec::new(),
        }
    }

    /// Counts one outcome.
    pub fn count(&mut self, outcome: RolloutOutcome)
        requires
            old(self).imported < usize::MAX && old(self).updated < usize::MAX && old(self).unchanged < usize::MAX
                && old(self).skipped_active < usize::MAX && old(self).skipped_invalid < usize::MAX && old(self).conflicts
                < usize::MAX,
        ensures
            final(self).imported == old(self).imported + if outcome == RolloutOutcome::Imported { 1int } else { 0 },
            final(self).updated == old(self).updated + if outcome == RolloutOutcome::Updated { 1int } else { 0 },
            final(self).unchanged == old(self).unchanged + if outcome == RolloutOutcome::Unchanged { 1int } else { 0 },
            final(self).skipped_active == old(self).skipped_active + if outcome == RolloutOutcome::SkippedActive { 1int } else { 0 },
            final(self).skipped_invalid == old(self).skipped_invalid + if outcome == RolloutOutcome::SkippedInvalid { 1int } else { 0 },
            final(self).conflicts == old(self).conflicts + if outcome == RolloutOutcome::Conflict { 1int } else { 0 },
            final(self).session_index_entries == old(self).session_index_entries,
            final(self).session_index_skipped == old(self).session_index_skipped,
            final(self).shared_thread_ids@ == old(self).shared_thread_ids@,
    {
        match outcome {
            RolloutOutcome::Imported => self.imported = self.imported + 1,
            RolloutOutcome::Updated => self.updated = self.updated + 1,
            RolloutOutcome::Unchanged => self.unchanged = self.unchanged + 1,
            RolloutOutcome::SkippedActive => self.skipped_active = self.skipped_active + 1,
            RolloutOutcome::SkippedInvalid => self.skipped_invalid = self.skipped_invalid + 1,
            RolloutOutcome::Conflict => self.conflicts = self.conflicts + 1,
        }
    }
}

pub open spec fn texts(values: Seq<String>) -> Seq<Seq<char>> {
    values.map_values(|v: String| v@)
}

/// Whether a daily rollout is taken: it is skipped as invalid when its name carries no
/// thread id, when its thread was already taken from an earlier rollout (the candidates
/// come in priority order, so the first one of a thread wins), or when its metadata is
/// unsafe. A taken thread joins `seen`, which thus never holds a thread twice.
pub fn admit_rollout(seen: &mut Vec<String>, thread_id: &Option<String>, metadata_safe: bool) -> (admitted: bool)
    ensures
        admitted == (thread_id matches Some(t) && !texts(old(seen)@).contains(t@) && metadata_safe),
        texts(final(seen)@) == if admitted {
            texts(old(seen)@).push(thread_id.unwrap()@)
        } else {
            texts(old(seen)@)
        },
        texts(old(seen)@).no_duplicates() ==> texts(final(seen)@).no_duplicates(),
{
    let id = match thread_id {
        Some(id) => id,
        None => return false,
    };
    let wanted = chars_of(id.as_str());
    for i in 0..seen.len()
        invariant
            wanted@ == id@,
            seen@ == old(seen)@,
            thread_id == Some(*id),
            forall|j: int| 0 <= j < i ==> (#[trigger] seen@[j])@ != id@,
    {
        let candidate = chars_of(seen[i].as_str());
        if crate::text::chars_equal(candidate.as_slice(), wanted.as_slice()) {
            proof {
                assert(texts(seen@)[i as int] == id@);
                assert(texts(old(seen)@).contains(id@));
            }
            return false;
        }
    }
    proof {
        assert forall|j: int| 0 <= j < texts(seen@).len() implies texts(seen@)[j] != id@ by {
            assert(texts(seen@)[j] == seen@[j]@);
        }
    }
    if !metadata_safe {
        return false;
    }
    let ghost before = seen@;
    seen.push(id.clone());
    proof {
        assert(texts(seen@) =~= texts(before).push(id@));
    }
    true
}

/// A rollout the two homes share: its thread and its key, the relative path in both.
#[derive(Debug, Clone, PartialEq, Eq)]
pub struct NativeSharedSessionRollout {
    pub thread_id: String,
    pub key: String,
}

/// The order of shared rollouts: by thread, then by path component.
pub open spec fn shared_order_key(thread_id: Seq<char>, key: Seq<char>) -> Seq<char> {
    thread_id + seq!['\0'] + component_order_text(key)
}

/// The last `/`-separated component of a key.
pub open spec fn last_component(key: Seq<char>) -> Seq<char> {
    if key.contains('/') {
        key.skip(key.index_of_last('/').unwrap() + 1)
    } else {
        key
    }
}

/// Why a stored record cannot name a shared rollout, if it cannot: its thread id, its
/// path, or a path whose file names another thread.
pub open spec fn shared_record_error(key: Seq<char>, record: ImportedSessionRecord) -> Option<SessionSyncError> {
    if !is_thread_id(record.thread_id@) {
        Some(SessionSyncError::InvalidThreadId)
    } else if !plain_relative(key) {
        Some(SessionSyncError::InvalidRelativePath)
    } else if rollout_thread_id(last_component(key)) != Some(record.thread_id@) {
        Some(SessionSyncError::InvalidThreadId)
    } else {
        None
    }
}


fn last_component_of(key: &str) -> (result: String)
    ensures
        result@ == last_component(key@),
{
    let chars = chars_of(key);
    let n = chars.len();
    let mut start = n;
    while start > 0 && chars[start - 1] != '/'
        invariant
            start <= n == chars@.len(),
            chars@ == key@,
            forall|t: int| start <= t < n ==> chars@[t] != '/',
        decreases start,
    {
        start -= 1;
    }
    proof {
        key@.index_of_last_ensures('/');
        if start > 0 {
            assert(key@.contains('/'));
            let last = key@.index_of_last('/');
            assert(last == Some((start - 1) as int)) by {
                let l = last.unwrap();
                if l > start - 1 {
                    assert(chars@[l] != '/');
                }
                if l < start - 1 {
                    assert(key@[start - 1] != '/');
                }
            }
        } else {
            assert(!key@.contains('/'));
            assert(key@.subrange(0, n as int) =~= key@);
        }
    }
    string_from_chars(slice_chars(chars.as_slice(), start, n).as_slice())
}

/// Checks the record stored under `key` and names the rollout it shares.
pub fn shared_rollout(key: &str, record: &ImportedSessionRecord) -> (result: Result<NativeSharedSessionRollout, SessionSyncError>)
    ensures
        match shared_record_error(key@, *record) {
            Some(error) => result == Err::<NativeSharedSessionRollout, SessionSyncError>(error),
            None => result matches Ok(rollout) && rollout.thread_id@ == record.thread_id@ && rollout.key@ == key@,
        },
{
    validate_thread_id(record.thread_id.as_str())?;
    validate_manifest_relative_path(key)?;
    let name = last_component_of(key);
    match thread_id_from_rollout_name(name.as_str()) {
        Some(id) => {
            if id != record.thread_id {
                return Err(SessionSyncError::InvalidThreadId);
            }
        },
        None => return Err(SessionSyncError::InvalidThreadId),
    }
    Ok(NativeSharedSessionRollout { thread_id: record.thread_id.clone(), key: key.to_string() })
}


/// The error is that of the first record, in key order, that cannot name a shared rollout.
pub open spec fn first_shared_error(files: Map<Seq<char>, ImportedSessionRecord>, error: SessionSyncError) -> bool {
    exists|k: Seq<char>| #[trigger] files.contains_key(k) && shared_record_error(k, files[k]) == Some(error) && forall|
        other: Seq<char>,
    | #[trigger] files.contains_key(other) && crate::text::text_lt(other, k) ==> shared_record_error(other, files[other]) is None
}

/// The rollouts are those the records name, ordered by `shared_order_key`.
pub open spec fn shared_rollouts_listed(files: Map<Seq<char>, ImportedSessionRecord>, rollouts: Seq<NativeSharedSessionRollout>) -> bool {
    &&& forall|k: Seq<char>| #[trigger] files.contains_key(k) ==> shared_record_error(k, files[k]) is None && exists|i: int|
        0 <= i < rollouts.len() && rollouts[i].key@ == k && rollouts[i].thread_id@ == files[k].thread_id@
    &&& forall|i: int| 0 <= i < rollouts.len() ==> files.contains_key(#[trigger] rollouts[i].key@) && rollouts[i].thread_id@
        == files[rollouts[i].key@].thread_id@
    &&& forall|i: int, j: int| 0 <= i < j < rollouts.len() ==> crate::text::text_lt(
        shared_order_key(rollouts[i].thread_id@, rollouts[i].key@),
        shared_order_key(rollouts[j].thread_id@, rollouts[j].key@),
    )
}

/// The shared rollouts a manifest lists, by thread and then by path; or the error of the
/// first record, in key order, that cannot name one.
pub fn shared_session_rollouts(manifest: &SessionImportManifest) -> (result: Result<Vec<NativeSharedSessionRollout>, SessionSyncError>)
    ensures
        match result {
            Err(error) => first_shared_error(manifest.files.map(), error),
            Ok(rollouts) => shared_rollouts_listed(manifest.files.map(), rollouts@),
        },
{
    let ghost files = manifest.files.map();
    let keys = manifest.files.sorted_keys();
    let mut ordered: TextMap<NativeSharedSessionRollout> = TextMap::new();
    for i in 0..keys.len()
        invariant
            files == manifest.files.map(),
            forall|a: int, b: int| 0 <= a < b < keys@.len() ==> crate::text::text_lt(keys@[a]@, keys@[b]@),
            forall|t: int| 0 <= t < keys@.len() ==> files.contains_key(#[trigger] keys@[t]@),
            forall|k: Seq<char>| #[trigger] files.contains_key(k) ==> exists|t: int| 0 <= t < keys@.len() && keys@[t]@ == k,
            forall|t: int| 0 <= t < i ==> shared_record_error(#[trigger] keys@[t]@, files[keys@[t]@]) is None,
            forall|o: Seq<char>| #[trigger] ordered.map().contains_key(o) ==> exists|t: int| 0 <= t < i && o == shared_order_key(
                files[keys@[t]@].thread_id@,
                keys@[t]@,
            ) && ordered.map()[o].key@ == keys@[t]@ && ordered.map()[o].thread_id@ == files[keys@[t]@].thread_id@,
            forall|t: int| 0 <= t < i ==> ordered.map().contains_key(
                #[trigger] shared_order_key(files[keys@[t]@].thread_id@, keys@[t]@),
            ),
    {
        let key = &keys[i];
        let record = match manifest.files.get(key.as_str()) {
            Some(record) => record,
            None => {
                proof {
                    assert(files.contains_key(keys@[i as int]@));
                }
                return Err(SessionSyncError::InvalidRelativePath);
            },
        };
        let rollout = match shared_rollout(key.as_str(), record) {
            Ok(rollout) => rollout,
            Err(error) => {
                proof {
                    let k = keys@[i as int]@;
                    assert(files.contains_key(k));
                    assert(shared_record_error(k, files[k]) == Some(error));
                    assert forall|other: Seq<char>| #[trigger] files.contains_key(other) && crate::text::text_lt(other, k)
                        implies shared_record_error(other, files[other]) is None by {
                        let t = choose|t: int| 0 <= t < keys@.len() && keys@[t]@ == other;
                        if t >= i {
                            if t > i {
                                assert(crate::text::text_lt(k, other));
                                crate::text::lemma_text_lt_asymmetric(k, other);
                            } else {
                                crate::text::lemma_text_lt_irreflexive(k);
                            }
                        }
                    }
                    assert(first_shared_error(files, error));
                }
                return Err(error);
            },
        };
        let mut order: Vec<char> = chars_of(rollout.thread_id.as_str());
        order.push('\0');
        let rest = component_order_chars(rollout.key.as_str());
        let mut j: usize = 0;
        let ghost head = order@;
        while j < rest.len()
            invariant
                order@ == head + rest@.take(j as int),
                j <= rest@.len(),
            decreases rest@.len() - j,
        {
            order.push(rest[j]);
            proof {
                assert(rest@.take(j + 1) =~= rest@.take(j as int).push(rest@[j as int]));
            }
            j += 1;
        }
        proof {
            assert(rest@.take(rest@.len() as int) =~= rest@);
            assert(order@ =~= shared_order_key(files[keys@[i as int]@].thread_id@, keys@[i as int]@));
        }
        ordered.insert(string_from_chars(order.as_slice()), rollout);
    }
    let sorted = ordered.into_sorted_entries();
    let mut rollouts: Vec<NativeSharedSessionRollout> = Vec::new();
    for i in 0..sorted.len()
        invariant
            rollouts@.len() == i,
            forall|t: int| 0 <= t < i ==> (#[trigger] rollouts@[t]).key@ == sorted@[t].1.key@ && rollouts@[t].thread_id@
                == sorted@[t].1.thread_id@,
    {
        let item = &sorted[i].1;
        rollouts.push(NativeSharedSessionRollout { thread_id: item.thread_id.clone(), key: item.key.clone() });
    }
    proof {
        let m = entries_map(sorted@);
        assert forall|i: int| 0 <= i < rollouts@.len() implies files.contains_key(#[trigger] rollouts@[i].key@)
            && rollouts@[i].thread_id@ == files[rollouts@[i].key@].thread_id@ by {
            crate::text_map::lemma_entry_in_map(sorted@, i);
            let o = sorted@[i].0@;
            let t = choose|t: int| 0 <= t < keys@.len() && o == shared_order_key(files[keys@[t]@].thread_id@, keys@[t]@)
                && m[o].key@ == keys@[t]@ && m[o].thread_id@ == files[keys@[t]@].thread_id@;
        }
        assert forall|k: Seq<char>| #[trigger] files.contains_key(k) implies shared_record_error(k, files[k]) is None
            && exists|i: int| 0 <= i < rollouts@.len() && rollouts@[i].key@ == k && rollouts@[i].thread_id@
            == files[k].thread_id@ by {
            let t = choose|t: int| 0 <= t < keys@.len() && keys@[t]@ == k;
            let o = shared_order_key(files[keys@[t]@].thread_id@, keys@[t]@);
            assert(m.contains_key(o));
            let u = choose|u: int| 0 <= u < sorted@.len() && #[trigger] sorted@[u].0@ == o;
            crate::text_map::lemma_entry_in_map(sorted@, u);
            let t2 = choose|t2: int| 0 <= t2 < keys@.len() && o == shared_order_key(files[keys@[t2]@].thread_id@, keys@[t2]@)
                && m[o].key@ == keys@[t2]@ && m[o].thread_id@ == files[keys@[t2]@].thread_id@;
            assert(shared_record_error(keys@[t2]@, files[keys@[t2]@]) is None);
            lemma_shared_order_key_injective(files[keys@[t]@].thread_id@, keys@[t]@, files[keys@[t2]@].thread_id@, keys@[t2]@);
            assert(rollouts@[u].key@ == k);
        }
        assert forall|i: int, j: int| 0 <= i < j < rollouts@.len() implies crate::text::text_lt(
            shared_order_key(rollouts@[i].thread_id@, rollouts@[i].key@),
            shared_order_key(rollouts@[j].thread_id@, rollouts@[j].key@),
        ) by {
            crate::text_map::lemma_entry_in_map(sorted@, i);
            crate::text_map::lemma_entry_in_map(sorted@, j);
            let oi = sorted@[i].0@;
            let oj = sorted@[j].0@;
            let ti = choose|t: int| 0 <= t < keys@.len() && oi == shared_order_key(files[keys@[t]@].thread_id@, keys@[t]@)
                && m[oi].key@ == keys@[t]@ && m[oi].thread_id@ == files[keys@[t]@].thread_id@;
            let tj = choose|t: int| 0 <= t < keys@.len() && oj == shared_order_key(files[keys@[t]@].thread_id@, keys@[t]@)
                && m[oj].key@ == keys@[t]@ && m[oj].thread_id@ == files[keys@[t]@].thread_id@;
        }
    }
    assert(shared_rollouts_listed(files, rollouts@));
    Ok(rollouts)
}

proof fn lemma_shared_order_key_injective(ta: Seq<char>, ka: Seq<char>, tb: Seq<char>, kb: Seq<char>)
    requires
        is_thread_id(ta),
        is_thread_id(tb),
        shared_order_key(ta, ka) == shared_order_key(tb, kb),
    ensures
        ta == tb && ka == kb,
{
    let x = shared_order_key(ta, ka);
    assert(x.take(36) =~= ta);
    assert(shared_order_key(tb, kb).take(36) =~= tb);
    assert(x.skip(37) =~= component_order_text(ka));
    assert(shared_order_key(tb, kb).skip(37) =~= component_order_text(kb));
    lemma_order_text_injective(ka, kb);
}

} // verus!
