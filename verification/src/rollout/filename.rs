//! Names of rollout files:
//! `rollout-YYYY-MM-DDThh-mm-ss-<uuid>.jsonl`, with `.zst` behind it where the
//! file is compressed.

use vstd::prelude::*;
use vstd::string::*;
use vstd::utf8::*;

use crate::ids;
use crate::moment;
use crate::moment::Timestamp;
use crate::paths;
use crate::state::schedule;
use crate::text;

verus! {

/// The directory of active sessions.
pub const SESSIONS_SUBDIR: &'static str = "sessions";

/// The directory of archived sessions.
pub const ARCHIVED_SESSIONS_SUBDIR: &'static str = "archived_sessions";

/// The name of a rollout file without the mark of compression.
pub open spec fn plain_name(name: Seq<char>) -> Option<Seq<char>> {
    let plain = match text::before_suffix(name, ".zst"@) {
        Some(p) => p,
        None => name,
    };
    if text::has_prefix(plain, "rollout-"@) && text::has_suffix(plain, ".jsonl"@) {
        Some(plain)
    } else {
        None
    }
}

/// The name of a rollout file without the mark of compression, where it is one.
pub fn parse_rollout_file_name(name: &str) -> (r: Option<String>)
    ensures
        text::opt_view(r) == plain_name(name@),
{
    let plain = match text::strip_suffix(name, ".zst") {
        Some(p) => p,
        None => name.to_owned(),
    };
    if text::starts_with(plain.as_str(), "rollout-") && text::ends_with(plain.as_str(), ".jsonl") {
        Some(plain)
    } else {
        None
    }
}

/// What stands between `rollout-` and `.jsonl`.
pub open spec fn core_of(plain: Seq<char>) -> Option<Seq<char>> {
    match text::after_prefix(plain, "rollout-"@) {
        Some(rest) => text::before_suffix(rest, ".jsonl"@),
        None => None,
    }
}

/// Whether every character is ASCII.
pub open spec fn all_ascii(s: Seq<char>) -> bool {
    forall|i: int| 0 <= i < s.len() ==> #[trigger] s[i] <= '\u{7f}'
}

/// The stamp and the identifier that the last thirty-six characters write,
/// with a hyphen between the two.
pub open spec fn split_core(core: Seq<char>) -> Option<(Seq<char>, u128)> {
    let at = core.len() - 36;
    if at >= 1 && core[at - 1] == '-' && all_ascii(core.skip(at)) {
        match ids::uuid_value(core.skip(at)) {
            Some(id) => Some((core.take(at - 1), id)),
            None => None,
        }
    } else {
        None
    }
}

/// The number that the digits from `from` up to `to` write.
pub open spec fn field(s: Seq<char>, from: int, to: int, max: nat) -> Option<nat> {
    text::bounded_digits(s.subrange(from, to), max)
}

/// The seconds since the epoch that a stamp `YYYY-MM-DDThh-mm-ss` writes.
pub open spec fn stamp_seconds(s: Seq<char>) -> Option<int> {
    if s.len() == 19 && s[4] == '-' && s[7] == '-' && s[10] == 'T' && s[13] == '-' && s[16] == '-' {
        match (
            field(s, 0, 4, i32::MAX as nat),
            field(s, 5, 7, u8::MAX as nat),
            field(s, 8, 10, u8::MAX as nat),
            field(s, 11, 13, u8::MAX as nat),
            field(s, 14, 16, u8::MAX as nat),
            field(s, 17, 19, u8::MAX as nat),
        ) {
            (Some(y), Some(mo), Some(d), Some(h), Some(mi), Some(sec)) => if moment::is_date(
                y as int,
                mo as int,
                d as int,
            ) && moment::is_time(h as int, mi as int, sec as int) {
                Some(moment::civil_seconds(y as int, mo as int, d as int, h as int, mi as int, sec as int))
            } else {
                None
            },
            _ => None,
        }
    } else {
        None
    }
}

/// The creation second and the identifier that a rollout file's name writes.
pub open spec fn name_parts(name: Seq<char>) -> Option<(int, u128)> {
    match plain_name(name) {
        Some(plain) => match core_of(plain) {
            Some(core) => match split_core(core) {
                Some((stamp, id)) => match stamp_seconds(stamp) {
                    Some(seconds) => Some((seconds, id)),
                    None => None,
                },
                None => None,
            },
            None => None,
        },
        None => None,
    }
}

/// Reads four digits or fewer as a year.
fn parse_decimal_i32(v: &Vec<char>, from: usize, to: usize) -> (r: Option<i32>)
    requires
        from <= to <= v.len(),
    ensures
        match r {
            Some(n) => 0 <= n && field(v@, from as int, to as int, i32::MAX as nat) == Some(n as nat),
            None => field(v@, from as int, to as int, i32::MAX as nat) is None,
        },
{
    match text::digits_between(v, from, to, i32::MAX as u64) {
        Some(n) => Some(n as i32),
        None => None,
    }
}

/// Reads digits as a small number.
fn parse_decimal_u8(v: &Vec<char>, from: usize, to: usize) -> (r: Option<u8>)
    requires
        from <= to <= v.len(),
    ensures
        match r {
            Some(n) => field(v@, from as int, to as int, u8::MAX as nat) == Some(n as nat),
            None => field(v@, from as int, to as int, u8::MAX as nat) is None,
        },
{
    match text::digits_between(v, from, to, u8::MAX as u64) {
        Some(n) => Some(n as u8),
        None => None,
    }
}

/// Reads a stamp `YYYY-MM-DDThh-mm-ss` as seconds since the epoch.
pub fn parse_rollout_filename_timestamp(stamp: &str) -> (r: Option<i64>)
    ensures
        match r {
            Some(seconds) => stamp_seconds(stamp@) == Some(seconds as int),
            None => stamp_seconds(stamp@) is None,
        },
{
    let v = text::char_vec(stamp);
    if v.len() != 19 || v[4] != '-' || v[7] != '-' || v[10] != 'T' || v[13] != '-' || v[16] != '-' {
        return None;
    }
    match (
        parse_decimal_i32(&v, 0, 4),
        parse_decimal_u8(&v, 5, 7),
        parse_decimal_u8(&v, 8, 10),
        parse_decimal_u8(&v, 11, 13),
        parse_decimal_u8(&v, 14, 16),
        parse_decimal_u8(&v, 17, 19),
    ) {
        (Some(y), Some(mo), Some(d), Some(h), Some(mi), Some(s)) => moment::utc_seconds(y, mo, d, h, mi, s),
        _ => None,
    }
}

/// Whether every character from `from` on is ASCII.
fn ascii_from(v: &Vec<char>, from: usize) -> (r: bool)
    requires
        from <= v.len(),
    ensures
        r == all_ascii(v@.skip(from as int)),
{
    let mut i: usize = from;
    while i < v.len()
        invariant
            from <= i <= v.len(),
            forall|j: int| 0 <= j < i - from ==> #[trigger] v@.skip(from as int)[j] <= '\u{7f}',
        decreases v.len() - i,
    {
        if v[i] > '\u{7f}' {
            assert(v@.skip(from as int)[i - from] > '\u{7f}');
            return false;
        }
        i = i + 1;
    }
    true
}

/// Parts the stamp from the identifier.
fn parse_core(core: &str) -> (r: Option<(String, u128)>)
    ensures
        match r {
            Some((stamp, id)) => split_core(core@) == Some((stamp@, id)),
            None => split_core(core@) is None,
        },
{
    let v = text::char_vec(core);
    if v.len() < 37 {
        return None;
    }
    let at: usize = v.len() - 36;
    if v[at - 1] != '-' || !ascii_from(&v, at) {
        return None;
    }
    let tail = text::slice_of(&v, at, v.len());
    assert(v@.subrange(at as int, v@.len() as int) =~= core@.skip(at as int));
    assert(v@.subrange(0, at - 1) =~= core@.take(at - 1));
    match ids::parse_uuid(tail.as_str()) {
        Ok(id) => Some((text::slice_of(&v, 0, at - 1), id)),
        Err(_) => None,
    }
}

/// What stands between `rollout-` and `.jsonl`.
fn parse_plain(plain: &str) -> (r: Option<String>)
    ensures
        text::opt_view(r) == core_of(plain@),
{
    match text::strip_prefix(plain, "rollout-") {
        Some(rest) => text::strip_suffix(rest.as_str(), ".jsonl"),
        None => None,
    }
}

/// Reads the creation time and the identifier from a rollout file's name.
pub fn parse_timestamp_uuid_from_filename(name: &str) -> (r: Option<(Timestamp, u128)>)
    ensures
        match r {
            Some((at, id)) => match name_parts(name@) {
                Some((seconds, named)) => named == id && at.nanos == seconds * moment::NANOS_PER_SECOND
                    && at.offset_seconds == 0,
                None => false,
            },
            None => name_parts(name@) is None,
        },
{
    match parse_rollout_file_name(name) {
        Some(plain) => match parse_plain(plain.as_str()) {
            Some(core) => match parse_core(core.as_str()) {
                Some((stamp, id)) => match parse_rollout_filename_timestamp(stamp.as_str()) {
                    Some(seconds) => Some((Timestamp::utc(seconds as i128 * moment::NANOS_PER_SECOND), id)),
                    None => None,
                },
                None => None,
            },
            None => None,
        },
        None => None,
    }
}

/// The identifier that a plain rollout file's name writes, whatever stands
/// where the stamp should be.
pub open spec fn plain_name_id(plain: Seq<char>) -> Option<u128> {
    match core_of(plain) {
        Some(core) => match split_core(core) {
            Some((stamp, id)) => Some(id),
            None => None,
        },
        None => None,
    }
}

/// Reads the identifier from a plain rollout file's name.
pub fn parse_uuid_from_plain_rollout_file_name(plain: &str) -> (r: Option<u128>)
    ensures
        r == plain_name_id(plain@),
{
    match parse_plain(plain) {
        Some(core) => match parse_core(core.as_str()) {
            Some((_, id)) => Some(id),
            None => None,
        },
        None => None,
    }
}

/// The identifier in the name of a directory entry, and whether the entry is
/// the plain file itself.
pub open spec fn entry_id(name: Seq<char>) -> Option<(u128, bool)> {
    match plain_name(name) {
        Some(plain) => match plain_name_id(plain) {
            Some(id) => Some((id, plain.len() == name.len())),
            None => None,
        },
        None => None,
    }
}

/// Reads the identifier in the name of a directory entry, and whether the
/// entry is the plain file itself.
pub fn rollout_id_from_entry_name(name: &str) -> (r: Option<(u128, bool)>)
    ensures
        r == entry_id(name@),
{
    match parse_rollout_file_name(name) {
        Some(plain) => match parse_uuid_from_plain_rollout_file_name(plain.as_str()) {
            Some(id) => {
                let is_plain = text::char_vec(plain.as_str()).len() == text::char_vec(name).len();
                Some((id, is_plain))
            },
            None => None,
        },
        None => None,
    }
}

/// The creation second in the name of the file at `path`, or that of the epoch.
pub open spec fn path_created_seconds(path: Seq<char>) -> int {
    match paths::name_of(path) {
        Some(name) => match name_parts(name) {
            Some((seconds, id)) => seconds,
            None => 0,
        },
        None => 0,
    }
}

/// The creation time in the name of the file at `path`, or the epoch.
pub fn rollout_created_at_from_path(path: &str) -> (r: Timestamp)
    ensures
        r.nanos == path_created_seconds(path@) * moment::NANOS_PER_SECOND,
        r.offset_seconds == 0,
{
    match paths::file_name(path) {
        Some(name) => match parse_timestamp_uuid_from_filename(name.as_str()) {
            Some((at, _)) => at,
            None => Timestamp::utc(0),
        },
        None => Timestamp::utc(0),
    }
}

/// The creation second in the name of the file at `path`, where it has one.
pub open spec fn named_second(path: Seq<char>) -> Option<int> {
    match paths::name_of(path) {
        Some(name) => match name_parts(name) {
            Some((seconds, id)) => Some(seconds),
            None => None,
        },
        None => None,
    }
}

/// The creation time in the name of the file at `path`, to the second and in
/// UTC, as an RFC 3339 text.
pub open spec fn named_time(path: Seq<char>) -> Option<Seq<char>> {
    match named_second(path) {
        Some(seconds) => moment::rfc3339_text((seconds * moment::NANOS_PER_SECOND) as i128, 0),
        None => None,
    }
}

/// Writes the creation time in the name of the file at `path` as an RFC 3339
/// text; there is one wherever the name has a time.
pub fn created_at_in_name(path: &str) -> (r: Option<String>)
    ensures
        text::opt_view(r) == named_time(path@),
        r is Some <==> named_second(path@) is Some,
        r matches Some(s) ==> moment::rfc3339_value(s@) == Some(
            ((named_second(path@)->0 * moment::NANOS_PER_SECOND) as i128, 0i32),
        ),
{
    match paths::file_name(path) {
        Some(name) => match parse_timestamp_uuid_from_filename(name.as_str()) {
            Some((at, _)) => {
                proof {
                    lemma_named_second(path@);
                }
                moment::format_rfc3339(at)
            },
            None => None,
        },
        None => None,
    }
}

proof fn lemma_named_second(path: Seq<char>)
    requires
        named_second(path) is Some,
    ensures
        moment::in_written_years(named_second(path)->0 * moment::NANOS_PER_SECOND),
{
    let name = paths::name_of(path)->0;
    let (stamp, _) = split_core(core_of(plain_name(name)->0)->0)->0;
    let y = field(stamp, 0, 4, i32::MAX as nat)->0;
    moment::lemma_written_years(
        y as int,
        field(stamp, 5, 7, 255)->0 as int,
        field(stamp, 8, 10, 255)->0 as int,
        field(stamp, 11, 13, 255)->0 as int,
        field(stamp, 14, 16, 255)->0 as int,
        field(stamp, 17, 19, 255)->0 as int,
    );
}

/// Whether the name of the file at `path` writes the identifier `target`.
pub open spec fn path_names_id(path: Seq<char>, target: u128) -> bool {
    match paths::name_of(path) {
        Some(name) => match name_parts(name) {
            Some((seconds, id)) => id == target,
            None => false,
        },
        None => false,
    }
}

/// Whether the name of the file at `path` writes the identifier `target`.
pub fn rollout_file_name_matches_uuid(path: &str, target: u128) -> (r: bool)
    ensures
        r == path_names_id(path@, target),
{
    match paths::file_name(path) {
        Some(name) => match parse_timestamp_uuid_from_filename(name.as_str()) {
            Some((_, id)) => id == target,
            None => false,
        },
        None => false,
    }
}

/// A local date and time of day.
#[derive(Clone, Copy, Debug, PartialEq, Eq, Structural)]
pub struct CivilTime {
    pub year: i32,
    pub month: u8,
    pub day: u8,
    pub hour: u8,
    pub minute: u8,
    pub second: u8,
}

/// The year with zeros in front up to four characters, a sign counted.
pub open spec fn year_text(year: int) -> Seq<char> {
    if year < 0 {
        seq!['-'] + text::padded((-year) as nat, 3)
    } else {
        text::padded(year as nat, 4)
    }
}

/// The stamp of a date and time.
pub open spec fn stamp_text(at: CivilTime) -> Seq<char> {
    year_text(at.year as int) + seq!['-'] + text::padded(at.month as nat, 2) + seq!['-'] + text::padded(
        at.day as nat,
        2,
    ) + seq!['T'] + text::padded(at.hour as nat, 2) + seq!['-'] + text::padded(at.minute as nat, 2)
        + seq!['-'] + text::padded(at.second as nat, 2)
}

/// The name of the rollout file of a thread created at a local time.
pub open spec fn rollout_name(at: CivilTime, id: u128) -> Seq<char> {
    "rollout-"@ + stamp_text(at) + seq!['-'] + ids::uuid_text(id) + ".jsonl"@
}

fn push_year(out: &mut String, year: i32)
    ensures
        final(out)@ == old(out)@ + year_text(year as int),
{
    if year < 0 {
        out.push('-');
        text::push_padded(out, (-(year as i64)) as u64, 3);
        assert(out@ =~= old(out)@ + year_text(year as int));
    } else {
        text::push_padded(out, year as u64, 4);
    }
}

fn write_stamp(at: CivilTime) -> (r: String)
    ensures
        r@ == stamp_text(at),
{
    let mut out: String = String::new();
    proof {
        reveal_strlit("-");
        reveal_strlit("T");
        assert("-"@ =~= seq!['-']);
        assert("T"@ =~= seq!['T']);
    }
    push_year(&mut out, at.year);
    assert(out@ =~= year_text(at.year as int));
    out.push_str("-");
    text::push_padded(&mut out, at.month as u64, 2);
    out.push_str("-");
    text::push_padded(&mut out, at.day as u64, 2);
    out.push_str("T");
    text::push_padded(&mut out, at.hour as u64, 2);
    out.push_str("-");
    text::push_padded(&mut out, at.minute as u64, 2);
    out.push_str("-");
    text::push_padded(&mut out, at.second as u64, 2);
    out
}

/// The seconds from the epoch to the date and time, read as UTC.
pub open spec fn civil_stamp(at: CivilTime) -> int {
    moment::civil_seconds(
        at.year as int,
        at.month as int,
        at.day as int,
        at.hour as int,
        at.minute as int,
        at.second as int,
    )
}

/// The name of the rollout file of a thread created at a local time. Where the
/// date and time exist and the year has at most four digits, the name is read
/// back as that second and that identifier.
pub fn rollout_file_name(at: CivilTime, id: u128) -> (r: String)
    ensures
        r@ == rollout_name(at, id),
        is_civil(at) ==> name_parts(r@) == Some((civil_stamp(at), id)),
{
    let mut out: String = "rollout-".to_owned();
    let stamp = write_stamp(at);
    out.push_str(stamp.as_str());
    out.push_str("-");
    let id_text = ids::format_uuid(id);
    out.push_str(id_text.as_str());
    out.push_str(".jsonl");
    proof {
        reveal_strlit("-");
        assert("-"@ =~= seq!['-']);
        if is_civil(at) {
            lemma_rollout_name_reads_back(at, id);
        }
    }
    out
}

/// Where the rollout file of a thread created at a local time is expected:
/// archived files lie side by side, active ones in a directory for each day.
pub open spec fn expected_path(home: Seq<char>, subdir: Seq<char>, at: CivilTime, id: u128) -> Seq<char> {
    let root = paths::joined_path(home, subdir);
    if subdir == ARCHIVED_SESSIONS_SUBDIR@ {
        paths::joined_path(root, rollout_name(at, id))
    } else {
        paths::joined_path(
            paths::joined_path(
                paths::joined_path(
                    paths::joined_path(root, year_text(at.year as int)),
                    text::padded(at.month as nat, 2),
                ),
                text::padded(at.day as nat, 2),
            ),
            rollout_name(at, id),
        )
    }
}

/// Where the rollout file of a thread created at a local time is expected.
pub fn expected_rollout_path(home: &str, subdir: &str, at: CivilTime, id: u128) -> (r: String)
    ensures
        r@ == expected_path(home@, subdir@, at, id),
{
    let name = rollout_file_name(at, id);
    let root = paths::join(home, subdir);
    if text::str_eq(subdir, ARCHIVED_SESSIONS_SUBDIR) {
        return paths::join(root.as_str(), name.as_str());
    }
    let mut year: String = String::new();
    push_year(&mut year, at.year);
    let mut month: String = String::new();
    text::push_padded(&mut month, at.month as u64, 2);
    let mut day: String = String::new();
    text::push_padded(&mut day, at.day as u64, 2);
    assert(year@ =~= year_text(at.year as int));
    assert(month@ =~= text::padded(at.month as nat, 2));
    assert(day@ =~= text::padded(at.day as nat, 2));
    let in_year = paths::join(root.as_str(), year.as_str());
    let in_month = paths::join(in_year.as_str(), month.as_str());
    let in_day = paths::join(in_month.as_str(), day.as_str());
    paths::join(in_day.as_str(), name.as_str())
}

/// Whether the date and time of day exist and can be those of the instant in
/// some time zone: they are less than a day away from it.
pub open spec fn reads_somewhere(at: CivilTime, seconds: int) -> bool {
    &&& 1 <= at.month <= 12
    &&& 1 <= at.day <= moment::days_in_month(at.year as int, at.month as int)
    &&& at.hour < 24 && at.minute < 60 && at.second < 60
    &&& -86400 < moment::civil_seconds(
        at.year as int,
        at.month as int,
        at.day as int,
        at.hour as int,
        at.minute as int,
        at.second as int,
    ) - seconds < 86400
}

/// Whether it is a date and time of day of the instant, for the seconds that the
/// calendar holds and no others.
pub open spec fn is_reading(r: Option<CivilTime>, seconds: int) -> bool {
    match r {
        Some(at) => schedule::in_calendar(seconds) && reads_somewhere(at, seconds),
        None => !schedule::in_calendar(seconds),
    }
}

/// `chrono::DateTime::from_timestamp` and `with_timezone` to the machine's own
/// time zone: the date and time of day there of an instant that the crate can
/// hold. Which ones they are depends on the machine and is left unsaid; an offset
/// of the crate is shorter than a day.
#[verifier::external_body]
pub(crate) fn local_civil_time(seconds: i64) -> (r: Option<CivilTime>)
    ensures
        is_reading(r, seconds as int),
{
    let at = chrono::DateTime::<chrono::Utc>::from_timestamp(seconds, 0)?.with_timezone(&chrono::Local);
    Some(CivilTime {
        year: chrono::Datelike::year(&at),
        month: chrono::Datelike::month(&at) as u8,
        day: chrono::Datelike::day(&at) as u8,
        hour: chrono::Timelike::hour(&at) as u8,
        minute: chrono::Timelike::minute(&at) as u8,
        second: chrono::Timelike::second(&at) as u8,
    })
}

/// Where the rollout file of a thread is expected by its creation time, given
/// in seconds since the epoch and read in the machine's own time zone.
pub fn rollout_path_from_created_at(home: &str, subdir: &str, created_at: i64, id: u128) -> (r: Option<String>)
    ensures
        match r {
            Some(path) => schedule::in_calendar(created_at as int) && exists|at: CivilTime|
                reads_somewhere(at, created_at as int) && path@ == #[trigger] expected_path(home@, subdir@, at, id),
            None => !schedule::in_calendar(created_at as int),
        },
{
    match local_civil_time(created_at) {
        Some(at) => Some(expected_rollout_path(home, subdir, at, id)),
        None => None,
    }
}

/// Whether the date and the time of day exist and the year has four digits.
pub open spec fn is_civil(at: CivilTime) -> bool {
    &&& 0 <= at.year
    &&& moment::is_date(at.year as int, at.month as int, at.day as int)
    &&& moment::is_time(at.hour as int, at.minute as int, at.second as int)
}

proof fn lemma_stamp_layout(y: Seq<char>, mo: Seq<char>, d: Seq<char>, h: Seq<char>, mi: Seq<char>, sec: Seq<char>)
    requires
        y.len() == 4,
        mo.len() == 2,
        d.len() == 2,
        h.len() == 2,
        mi.len() == 2,
        sec.len() == 2,
    ensures
        ({
            let s = y + seq!['-'] + mo + seq!['-'] + d + seq!['T'] + h + seq!['-'] + mi + seq!['-'] + sec;
            &&& s.len() == 19
            &&& s[4] == '-' && s[7] == '-' && s[10] == 'T' && s[13] == '-' && s[16] == '-'
            &&& s.subrange(0, 4) == y
            &&& s.subrange(5, 7) == mo
            &&& s.subrange(8, 10) == d
            &&& s.subrange(11, 13) == h
            &&& s.subrange(14, 16) == mi
            &&& s.subrange(17, 19) == sec
        }),
{
    let s = y + seq!['-'] + mo + seq!['-'] + d + seq!['T'] + h + seq!['-'] + mi + seq!['-'] + sec;
    assert(s.subrange(0, 4) =~= y);
    assert(s.subrange(5, 7) =~= mo);
    assert(s.subrange(8, 10) =~= d);
    assert(s.subrange(11, 13) =~= h);
    assert(s.subrange(14, 16) =~= mi);
    assert(s.subrange(17, 19) =~= sec);
}

proof fn lemma_stamp(at: CivilTime)
    requires
        is_civil(at),
    ensures
        stamp_text(at).len() == 19,
        stamp_seconds(stamp_text(at)) == Some(civil_stamp(at)),
{
    let y = text::padded(at.year as nat, 4);
    let mo = text::padded(at.month as nat, 2);
    let d = text::padded(at.day as nat, 2);
    let h = text::padded(at.hour as nat, 2);
    let mi = text::padded(at.minute as nat, 2);
    let sec = text::padded(at.second as nat, 2);
    text::lemma_padded_four(at.year as nat);
    text::lemma_padded_two(at.month as nat);
    text::lemma_padded_two(at.day as nat);
    text::lemma_padded_two(at.hour as nat);
    text::lemma_padded_two(at.minute as nat);
    text::lemma_padded_two(at.second as nat);
    lemma_stamp_layout(y, mo, d, h, mi, sec);
    let s = stamp_text(at);
    assert(s == y + seq!['-'] + mo + seq!['-'] + d + seq!['T'] + h + seq!['-'] + mi + seq!['-'] + sec);
    assert(field(s, 0, 4, i32::MAX as nat) == Some(at.year as nat));
    assert(field(s, 5, 7, u8::MAX as nat) == Some(at.month as nat));
    assert(field(s, 8, 10, u8::MAX as nat) == Some(at.day as nat));
    assert(field(s, 11, 13, u8::MAX as nat) == Some(at.hour as nat));
    assert(field(s, 14, 16, u8::MAX as nat) == Some(at.minute as nat));
    assert(field(s, 17, 19, u8::MAX as nat) == Some(at.second as nat));
}

proof fn lemma_rollout_name_reads_back(at: CivilTime, id: u128)
    requires
        is_civil(at),
        ids::uuid_text(id).len() == 36,
        forall|i: int| 0 <= i < 36 ==> ids::is_uuid_char(#[trigger] ids::uuid_text(id)[i]),
        ids::uuid_value(ids::uuid_text(id)) == Some(id),
    ensures
        name_parts(rollout_name(at, id)) == Some((civil_stamp(at), id)),
{
    lemma_stamp(at);
    reveal_strlit("rollout-");
    reveal_strlit(".jsonl");
    reveal_strlit(".zst");
    let name = rollout_name(at, id);
    let u = ids::uuid_text(id);
    let stamp = stamp_text(at);
    assert(name.len() == 8 + 19 + 1 + 36 + 6);
    assert(name.last() == 'l');
    assert(".zst"@.last() == 't');
    if text::has_suffix(name, ".zst"@) {
        assert(name.skip(name.len() - 4).last() == ".zst"@.last());
        assert(false);
    }
    assert(name.take(8) =~= "rollout-"@);
    assert(name.skip(name.len() - 6) =~= ".jsonl"@);
    assert(plain_name(name) == Some(name));
    let rest = name.skip(8);
    assert(rest.skip(rest.len() - 6) =~= ".jsonl"@);
    let core = rest.take(rest.len() - 6);
    assert(core =~= stamp + seq!['-'] + u);
    assert(core.skip(core.len() - 36) =~= u);
    assert(core.take(core.len() - 37) =~= stamp);
    assert(all_ascii(u)) by {
        assert forall|i: int| 0 <= i < u.len() implies #[trigger] u[i] <= '\u{7f}' by {
            assert(ids::is_uuid_char(u[i]));
        }
    }
}

// ---------------------------------------------------------------------
// Session directories
// ---------------------------------------------------------------------

/// Whether only archived or only active threads are meant.
pub open spec fn archived_only(subdir: Seq<char>) -> Option<bool> {
    if subdir == SESSIONS_SUBDIR@ {
        Some(false)
    } else if subdir == ARCHIVED_SESSIONS_SUBDIR@ {
        Some(true)
    } else {
        None
    }
}

/// Whether only archived or only active threads are meant.
pub fn archived_only_for_subdir(subdir: &str) -> (r: Option<bool>)
    ensures
        r == archived_only(subdir@),
{
    if text::str_eq(subdir, SESSIONS_SUBDIR) {
        Some(false)
    } else if text::str_eq(subdir, ARCHIVED_SESSIONS_SUBDIR) {
        Some(true)
    } else {
        None
    }
}

/// One of the two session directories.
#[derive(Clone, Copy, Debug, PartialEq, Eq, Structural)]
pub enum SessionDir {
    Active,
    Archived,
}

impl SessionDir {
    /// The directory's name.
    pub open spec fn name(self) -> Seq<char> {
        match self {
            SessionDir::Active => SESSIONS_SUBDIR@,
            SessionDir::Archived => ARCHIVED_SESSIONS_SUBDIR@,
        }
    }

    /// The directory's name.
    pub fn subdir(self) -> (r: &'static str)
        ensures
            r@ == self.name(),
    {
        match self {
            SessionDir::Active => SESSIONS_SUBDIR,
            SessionDir::Archived => ARCHIVED_SESSIONS_SUBDIR,
        }
    }

    /// Whether the directory holds archived sessions.
    pub fn archived(self) -> (r: bool)
        ensures
            r == (self is Archived),
    {
        match self {
            SessionDir::Active => false,
            SessionDir::Archived => true,
        }
    }
}

/// The session directory that a path lies in.
pub open spec fn subdir_hint(home: Seq<char>, path: Seq<char>) -> Option<SessionDir> {
    if paths::is_under(path, paths::joined_path(home, ARCHIVED_SESSIONS_SUBDIR@)) {
        Some(SessionDir::Archived)
    } else if paths::is_under(path, paths::joined_path(home, SESSIONS_SUBDIR@)) {
        Some(SessionDir::Active)
    } else {
        None
    }
}

/// The session directory that a path lies in.
pub fn rollout_subdir_hint(home: &str, path: &str) -> (r: Option<SessionDir>)
    ensures
        r == subdir_hint(home@, path@),
{
    let archived = paths::join(home, ARCHIVED_SESSIONS_SUBDIR);
    if paths::starts_with(path, archived.as_str()) {
        return Some(SessionDir::Archived);
    }
    let active = paths::join(home, SESSIONS_SUBDIR);
    if paths::starts_with(path, active.as_str()) {
        return Some(SessionDir::Active);
    }
    None
}

/// The order in which the session directories are searched.
pub open spec fn search_order(preferred: Option<SessionDir>) -> Seq<SessionDir> {
    if preferred == Some(SessionDir::Archived) {
        seq![SessionDir::Archived, SessionDir::Active]
    } else {
        seq![SessionDir::Active, SessionDir::Archived]
    }
}

/// The order in which the session directories are searched: the preferred one
/// first, active sessions before archived ones otherwise.
pub fn ordered_session_subdirs(preferred: Option<SessionDir>) -> (r: Vec<SessionDir>)
    ensures
        r@ == search_order(preferred),
{
    match preferred {
        Some(SessionDir::Archived) => vec![SessionDir::Archived, SessionDir::Active],
        _ => vec![SessionDir::Active, SessionDir::Archived],
    }
}

// ---------------------------------------------------------------------
// Date directories
// ---------------------------------------------------------------------

/// What follows `rollout-` in a name, as UTF-8.
pub open spec fn date_bytes(name: Seq<char>) -> Option<Seq<u8>> {
    match text::after_prefix(name, "rollout-"@) {
        Some(rest) => Some(encode_utf8(rest)),
        None => None,
    }
}

/// Whether the first ten bytes can be cut into year, month and day.
pub open spec fn has_date_parts(b: Seq<u8>) -> bool {
    &&& b.len() >= 10
    &&& is_char_boundary(b, 4)
    &&& is_char_boundary(b, 5)
    &&& is_char_boundary(b, 7)
    &&& is_char_boundary(b, 8)
    &&& is_char_boundary(b, 10)
}

/// The `YYYY`, `MM` and `DD` directory names in a rollout file's name.
pub fn rollout_date_parts(name: &str) -> (r: Option<(String, String, String)>)
    ensures
        match r {
            Some((year, month, day)) => date_bytes(name@) matches Some(b) && has_date_parts(b) && encode_utf8(year@)
                == b.subrange(0, 4) && encode_utf8(month@) == b.subrange(5, 7) && encode_utf8(day@) == b.subrange(8, 10),
            None => date_bytes(name@) matches Some(b) ==> !has_date_parts(b),
        },
{
    broadcast use vstd::utf8::group_utf8_lib;

    let rest = match text::strip_prefix(name, "rollout-") {
        Some(rest) => rest,
        None => return None,
    };
    let rest = rest.as_str();
    let ghost b = rest.spec_bytes();
    if rest.as_bytes().len() < 10 || !rest.is_char_boundary(4) || !rest.is_char_boundary(5) || !rest.is_char_boundary(7)
        || !rest.is_char_boundary(8) || !rest.is_char_boundary(10) {
        return None;
    }
    let (year, _) = rest.split_at(4);
    let (_, from_month) = rest.split_at(5);
    assert(is_continuation_byte(from_month.spec_bytes()[2]) == is_continuation_byte(b[7]));
    let (month, _) = from_month.split_at(2);
    let (_, from_day) = rest.split_at(8);
    assert(b.len() > 10 ==> is_continuation_byte(from_day.spec_bytes()[2]) == is_continuation_byte(b[10]));
    let (day, _) = from_day.split_at(2);
    assert(month.spec_bytes() =~= b.subrange(5, 7));
    assert(day.spec_bytes() =~= b.subrange(8, 10));
    Some((year.to_owned(), month.to_owned(), day.to_owned()))
}

/// A compressed rollout file is named as the plain one is, with an ending more,
/// and stands for the same thread and time. Both begin and end as rollout files
/// do.
pub proof fn law_compressed_name_says_the_same(plain: Seq<char>)
    requires
        text::has_prefix(plain, "rollout-"@),
        text::has_suffix(plain, ".jsonl"@),
    ensures
        plain_name(plain) == Some(plain),
        plain_name(plain + ".zst"@) == Some(plain),
        name_parts(plain + ".zst"@) == name_parts(plain),
        entry_id(plain) matches Some(found) ==> found.1 && entry_id(plain + ".zst"@) == Some((found.0, false)),
        entry_id(plain) is None ==> entry_id(plain + ".zst"@) is None,
{
    reveal_strlit(".zst");
    reveal_strlit(".jsonl");
    let packed = plain + ".zst"@;
    assert(packed.skip(packed.len() - 4) =~= ".zst"@);
    assert(packed.take(packed.len() - 4) =~= plain);
    if text::has_suffix(plain, ".zst"@) {
        let end = plain.skip(plain.len() - 4);
        assert(end[3] == 't');
        assert(plain.skip(plain.len() - 6)[5] == 'l');
    }
}

/// A name that does not begin with `rollout-`, or does not end as a rollout file
/// does, is that of none.
pub proof fn law_other_files_are_no_rollouts(name: Seq<char>)
    ensures
        !text::has_prefix(name, "rollout-"@) ==> plain_name(name) is None,
        !text::has_suffix(name, ".jsonl"@) && !text::has_suffix(name, ".jsonl.zst"@) ==> plain_name(name) is None,
        plain_name(name) is None ==> name_parts(name) is None && entry_id(name) is None,
{
    reveal_strlit(".zst");
    reveal_strlit(".jsonl");
    reveal_strlit(".jsonl.zst");
    reveal_strlit("rollout-");
    if let Some(plain) = text::before_suffix(name, ".zst"@) {
        if text::has_prefix(plain, "rollout-"@) {
            assert(name.take(8) =~= plain.take(8));
        }
        if text::has_suffix(plain, ".jsonl"@) {
            assert(name.skip(name.len() - 10) =~= plain.skip(plain.len() - 6) + ".zst"@) by {
                assert(name =~= plain + ".zst"@) by {
                    assert(name =~= name.take(name.len() - 4) + name.skip(name.len() - 4));
                }
            }
            assert(".jsonl"@ + ".zst"@ =~= ".jsonl.zst"@);
        }
    }
}

/// A stamp is read as its year, month, day, hour, minute and second, in that
/// order, where they make a date and a time.
pub proof fn law_stamp_is_read_field_by_field(
    year: Seq<char>,
    month: Seq<char>,
    day: Seq<char>,
    hour: Seq<char>,
    minute: Seq<char>,
    second: Seq<char>,
)
    requires
        year.len() == 4 && text::all_digits(year),
        month.len() == 2 && text::all_digits(month),
        day.len() == 2 && text::all_digits(day),
        hour.len() == 2 && text::all_digits(hour),
        minute.len() == 2 && text::all_digits(minute),
        second.len() == 2 && text::all_digits(second),
    ensures
        ({
            let y = text::digits_value(year) as int;
            let mo = text::digits_value(month) as int;
            let d = text::digits_value(day) as int;
            let h = text::digits_value(hour) as int;
            let mi = text::digits_value(minute) as int;
            let s = text::digits_value(second) as int;
            stamp_seconds(
                year + seq!['-'] + month + seq!['-'] + day + seq!['T'] + hour + seq!['-'] + minute + seq!['-'] + second,
            ) == (if moment::is_date(y, mo, d) && moment::is_time(h, mi, s) {
                Some(moment::civil_seconds(y, mo, d, h, mi, s))
            } else {
                None
            })
        }),
{
    let stamp = year + seq!['-'] + month + seq!['-'] + day + seq!['T'] + hour + seq!['-'] + minute + seq!['-'] + second;
    assert(stamp.len() == 19);
    assert(stamp[4] == '-' && stamp[7] == '-' && stamp[10] == 'T' && stamp[13] == '-' && stamp[16] == '-');
    assert(stamp.subrange(0, 4) =~= year);
    assert(stamp.subrange(5, 7) =~= month);
    assert(stamp.subrange(8, 10) =~= day);
    assert(stamp.subrange(11, 13) =~= hour);
    assert(stamp.subrange(14, 16) =~= minute);
    assert(stamp.subrange(17, 19) =~= second);
    lemma_small_number(year);
    lemma_small_number(month);
    lemma_small_number(day);
    lemma_small_number(hour);
    lemma_small_number(minute);
    lemma_small_number(second);
}

proof fn lemma_small_number(s: Seq<char>)
    requires
        text::all_digits(s),
        s.len() == 2 || s.len() == 4,
    ensures
        s.len() == 2 ==> text::digits_value(s) <= 99,
        s.len() == 4 ==> text::digits_value(s) <= 9999,
{
    reveal_with_fuel(text::digits_value, 5);
    assert(text::is_digit(s[0]) && text::is_digit(s[1]));
    if s.len() == 4 {
        assert(text::is_digit(s[2]) && text::is_digit(s[3]));
    }
}

/// The thread of a file is what its last 36 characters before the ending say, and
/// its time what stands in front of them.
pub proof fn law_core_is_stamp_and_thread(stamp: Seq<char>, id: Seq<char>)
    requires
        id.len() == 36,
        all_ascii(id),
    ensures
        core_of("rollout-"@ + (stamp + seq!['-'] + id) + ".jsonl"@) == Some(stamp + seq!['-'] + id),
        split_core(stamp + seq!['-'] + id) == (match ids::uuid_value(id) {
            Some(v) => Some((stamp, v)),
            None => None,
        }),
{
    reveal_strlit(".jsonl");
    reveal_strlit("rollout-");
    let core = stamp + seq!['-'] + id;
    let plain = "rollout-"@ + core + ".jsonl"@;
    let rest = core + ".jsonl"@;
    assert(plain.take(8) =~= "rollout-"@);
    assert(plain.skip(8) =~= rest);
    assert(rest.skip(rest.len() - 6) =~= ".jsonl"@);
    assert(rest.take(rest.len() - 6) =~= core);
    assert(core.skip(core.len() - 36) =~= id);
    assert(core.take(core.len() - 37) =~= stamp);
}

/// An archived session lies in the directory of the archived ones itself; one
/// that is not lies in a directory for its day, in one for its month, in one for
/// its year.
pub proof fn law_sessions_lie_by_their_day(home: Seq<char>, at: CivilTime, id: u128)
    ensures
        expected_path(home, "archived_sessions"@, at, id) == paths::joined_path(
            paths::joined_path(home, "archived_sessions"@),
            rollout_name(at, id),
        ),
        ({
            let year = paths::joined_path(paths::joined_path(home, "sessions"@), year_text(at.year as int));
            let month = paths::joined_path(year, text::padded(at.month as nat, 2));
            let day = paths::joined_path(month, text::padded(at.day as nat, 2));
            expected_path(home, "sessions"@, at, id) == paths::joined_path(day, rollout_name(at, id))
        }),
        archived_only("sessions"@) == Some(false),
        archived_only("archived_sessions"@) == Some(true),
        SessionDir::Active.name() == "sessions"@,
        SessionDir::Archived.name() == "archived_sessions"@,
{
    reveal_strlit("sessions");
    reveal_strlit("archived_sessions");
    assert("sessions"@.len() != "archived_sessions"@.len());
}

/// A directory that is neither of the two says nothing of whether its sessions
/// are archived.
pub proof fn law_other_directories_say_nothing(subdir: Seq<char>)
    ensures
        archived_only(subdir) is None <==> subdir != "sessions"@ && subdir != "archived_sessions"@,
{
}

/// Where a path lies says where to look first; both directories are looked in,
/// and the one of active sessions first where nothing is said.
pub proof fn law_both_directories_are_looked_in(preferred: Option<SessionDir>, home: Seq<char>, path: Seq<char>)
    ensures
        search_order(preferred).len() == 2,
        search_order(preferred)[0] != search_order(preferred)[1],
        preferred matches Some(dir) ==> search_order(preferred)[0] == dir,
        preferred is None ==> search_order(preferred)[0] is Active,
        paths::is_under(path, paths::joined_path(home, "archived_sessions"@)) ==> subdir_hint(home, path) == Some(
            SessionDir::Archived,
        ),
        subdir_hint(home, path) == Some(SessionDir::Active) ==> paths::is_under(
            path,
            paths::joined_path(home, "sessions"@),
        ),
        subdir_hint(home, path) is None <==> !paths::is_under(path, paths::joined_path(home, "sessions"@))
            && !paths::is_under(path, paths::joined_path(home, "archived_sessions"@)),
{
}

/// A path says when its session was created and whose it is as its file name
/// does; one whose name says neither is taken to be of the start of 1970, and of
/// no thread.
pub proof fn law_path_says_what_its_name_says(path: Seq<char>, target: u128)
    ensures
        paths::name_of(path) matches Some(name) ==> match name_parts(name) {
            Some((seconds, id)) => path_created_seconds(path) == seconds && named_second(path) == Some(seconds) && (
            path_names_id(path, target) <==> id == target),
            None => path_created_seconds(path) == 0 && named_second(path) is None && !path_names_id(path, target),
        },
        paths::name_of(path) is None ==> path_created_seconds(path) == 0 && named_second(path) is None
            && !path_names_id(path, target),
{
}

} // verus!
