//! Where the event log is, and how it is split over files.
//!
//! The active file is rotated out once it is large. Rotated segments stand beside it, and their
//! names sort in the order in which they were rotated.

use crate::order::{is_stable_sort_of, stable_sort, Ranked};
use crate::text::{
    chars_of, ends_with, is_text_le, join, lemma_text_le_total, lemma_text_le_transitive, numeral,
    numeral_of, same_text, starts_with, str_view, text_le,
};
use vstd::prelude::*;

verus! {

/// Rotate the active event log once it grows beyond this size.
pub const EVENT_LOG_ROTATE_BYTES: u64 = 65_536;

/// Keep at most this many rotated segments alongside the active log.
pub const EVENT_LOG_MAX_SEGMENTS: usize = 4;

/// A path below another one.
pub open spec fn path_below(base: Seq<char>, relative: Seq<char>) -> Seq<char> {
    if base.len() == 0 || base.last() == '/' {
        base + relative
    } else {
        base + seq!['/'] + relative
    }
}

/// Puts a relative path below another one.
pub fn join_path(base: &str, relative: &str) -> (path: String)
    ensures
        path@ == path_below(base@, relative@),
{
    let len: usize = base.unicode_len();
    if len == 0 || base.get_char(len - 1) == '/' {
        join(base, relative)
    } else {
        proof {
            reveal_strlit("/");
            assert("/"@ =~= seq!['/']);
        }
        let mut path = join(base, "/");
        path.append(relative);
        path
    }
}

/// The home directory; without one, where the program runs.
pub open spec fn home_or_here(home: Option<Seq<char>>) -> Seq<char> {
    match home {
        Some(home) => home,
        None => "."@,
    }
}

/// Where the log is by default.
pub open spec fn default_log_path(home: Option<Seq<char>>) -> Seq<char> {
    path_below(home_or_here(home), ".cache/vmux/recent-activity.jsonl"@)
}

/// The path of a file in the home directory.
pub fn path_in_home(home: Option<&str>, relative: &str) -> (path: String)
    ensures
        path@ == path_below(home_or_here(str_view(home)), relative@),
{
    match home {
        Some(home) => join_path(home, relative),
        None => join_path(".", relative),
    }
}

/// Where the log is by default, given the value of `HOME`.
pub fn default_event_log_path(home: Option<&str>) -> (path: String)
    ensures
        path@ == default_log_path(str_view(home)),
{
    path_in_home(home, ".cache/vmux/recent-activity.jsonl")
}

/// Where the log is, given the values of `VMUX_RECENT_ACTIVITY_LOG_PATH` and `HOME`.
pub fn event_log_path_from_env(log_path: Option<&str>, home: Option<&str>) -> (path: String)
    ensures
        path@ == match log_path {
            Some(log_path) => log_path@,
            None => default_log_path(str_view(home)),
        },
{
    match log_path {
        Some(log_path) => log_path.to_owned(),
        None => default_event_log_path(home),
    }
}

/// Where the last dot of a name is; before its beginning if there is none.
pub open spec fn last_dot(name: Seq<char>) -> int
    decreases name.len(),
{
    if name.len() == 0 {
        -1
    } else if name.last() == '.' {
        name.len() - 1
    } else {
        last_dot(name.drop_last())
    }
}

/// Whether a file name has an extension: a dot that it does not begin with.
pub open spec fn has_extension(name: Seq<char>) -> bool {
    last_dot(name) > 0 && name != ".."@
}

/// A file name without its extension.
pub open spec fn stem_of(name: Seq<char>) -> Seq<char> {
    if has_extension(name) {
        name.take(last_dot(name))
    } else {
        name
    }
}

/// The extension of a file name, which may be empty; also empty where there is none.
pub open spec fn extension_of(name: Seq<char>) -> Seq<char> {
    if has_extension(name) {
        name.skip(last_dot(name) + 1)
    } else {
        Seq::empty()
    }
}

pub proof fn lemma_last_dot(name: Seq<char>)
    ensures
        -1 <= last_dot(name) < name.len(),
        last_dot(name) >= 0 ==> name[last_dot(name)] == '.',
    decreases name.len(),
{
    if name.len() > 0 {
        lemma_last_dot(name.drop_last());
    }
}

/// Splits a file name into its stem and its extension.
pub fn split_file_name(name: &str) -> (parts: (String, String))
    ensures
        parts.0@ == stem_of(name@),
        parts.1@ == extension_of(name@),
{
    let chars = chars_of(name);
    let mut i: usize = chars.len();
    assert(name@.take(i as int) =~= name@);
    while i > 0 && chars[i - 1] != '.'
        invariant
            i <= chars@.len(),
            chars@ == name@,
            last_dot(name@) == last_dot(name@.take(i as int)),
        decreases i,
    {
        assert(name@.take(i as int).drop_last() =~= name@.take(i - 1));
        i = i - 1;
    }
    proof {
        reveal_strlit("");
        assert(""@ =~= Seq::empty());
        assert(last_dot(name@) == i - 1);
    }
    if i <= 1 || same_text(name, "..") {
        (name.to_owned(), "".to_owned())
    } else {
        let stem = name.substring_char(0, i - 1).to_owned();
        let extension = name.substring_char(i, chars.len()).to_owned();
        assert(stem@ =~= name@.take(i - 1));
        assert(extension@ =~= name@.skip(i as int));
        (stem, extension)
    }
}

/// A number with at least twenty digits, with zeros in front.
pub open spec fn padded(n: nat) -> Seq<char> {
    let digits = numeral_of(n);
    if digits.len() < 20 {
        Seq::new((20 - digits.len()) as nat, |i: int| '0') + digits
    } else {
        digits
    }
}

fn padded_numeral(n: u128) -> (text: String)
    ensures
        text@ == padded(n as nat),
{
    let digits = numeral(n);
    let len: usize = digits.as_str().unicode_len();
    if len >= 20 {
        return digits;
    }
    proof {
        reveal_strlit("");
        reveal_strlit("0");
    }
    let mut text = "".to_owned();
    let mut i: usize = len;
    assert(text@ =~= Seq::new((i - len) as nat, |i: int| '0'));
    while i < 20
        invariant
            len <= i <= 20,
            "0"@.len() == 1,
            "0"@[0] == '0',
            text@ == Seq::new((i - len) as nat, |i: int| '0'),
        decreases 20 - i,
    {
        text.append("0");
        i = i + 1;
        assert(text@ =~= Seq::new((i - len) as nat, |i: int| '0'));
    }
    text.append(digits.as_str());
    text
}

/// A dot and an extension, if there is one.
pub open spec fn dotted(extension: Seq<char>) -> Seq<char> {
    if extension.len() == 0 {
        Seq::empty()
    } else {
        seq!['.'] + extension
    }
}

/// The name of a segment that is rotated out at a time, in milliseconds, by a process.
pub open spec fn rotated_name_of(file_name: Option<Seq<char>>, millis: nat, pid: nat) -> Seq<char> {
    let (stem, extension) = match file_name {
        Some(name) => (stem_of(name), extension_of(name)),
        None => ("recent-activity"@, Seq::empty()),
    };
    stem + seq!['.'] + padded(millis) + seq!['-'] + numeral_of(pid) + dotted(extension)
}

/// Names the segment that is rotated out of the log with the given file name.
pub fn rotated_event_log_name(file_name: Option<&str>, millis: u128, pid: u32) -> (name: String)
    ensures
        name@ == rotated_name_of(str_view(file_name), millis as nat, pid as nat),
{
    proof {
        reveal_strlit("");
        reveal_strlit(".");
        reveal_strlit("-");
        assert(""@ =~= Seq::empty());
        assert("."@ =~= seq!['.']);
        assert("-"@ =~= seq!['-']);
    }
    let (stem, extension) = match file_name {
        Some(name) => split_file_name(name),
        None => ("recent-activity".to_owned(), "".to_owned()),
    };
    let mut name = join(stem.as_str(), ".");
    let time = padded_numeral(millis);
    name.append(time.as_str());
    name.append("-");
    let process = numeral(pid as u128);
    name.append(process.as_str());
    if extension.as_str().unicode_len() > 0 {
        name.append(".");
        name.append(extension.as_str());
    }
    assert(name@ =~= rotated_name_of(str_view(file_name), millis as nat, pid as nat));
    name
}

/// The name that the active log is to be given, if it is large enough to be rotated out.
pub fn rotation_name(len: u64, file_name: Option<&str>, millis: u128, pid: u32) -> (name: Option<
    String,
>)
    ensures
        match name {
            Some(name) => len > EVENT_LOG_ROTATE_BYTES && name@ == rotated_name_of(
                str_view(file_name),
                millis as nat,
                pid as nat,
            ),
            None => len <= EVENT_LOG_ROTATE_BYTES,
        },
        name is Some == (len > 65_536),
{
    if len <= EVENT_LOG_ROTATE_BYTES {
        None
    } else {
        Some(rotated_event_log_name(file_name, millis, pid))
    }
}

/// Whether a file beside the log with the given file name is a segment of it.
pub open spec fn is_segment(name: Seq<char>, file_name: Option<Seq<char>>) -> bool {
    let (stem, extension) = match file_name {
        Some(name) => (stem_of(name), extension_of(name)),
        None => (Seq::empty(), Seq::empty()),
    };
    (stem + seq!['.']).is_prefix_of(name) && dotted(extension).is_suffix_of(name)
}

/// Tells the segments of the log with the given file name by their names.
pub fn is_rotated_segment(name: &str, file_name: Option<&str>) -> (yes: bool)
    ensures
        yes == is_segment(name@, str_view(file_name)),
{
    proof {
        reveal_strlit("");
        reveal_strlit(".");
        assert(""@ =~= Seq::empty());
        assert("."@ =~= seq!['.']);
    }
    let (stem, extension) = match file_name {
        Some(name) => split_file_name(name),
        None => ("".to_owned(), "".to_owned()),
    };
    let prefix = join(stem.as_str(), ".");
    if !starts_with(name, prefix.as_str()) {
        return false;
    }
    if extension.as_str().unicode_len() > 0 {
        let suffix = join(".", extension.as_str());
        ends_with(name, suffix.as_str())
    } else {
        assert(dotted(extension@).is_suffix_of(name@));
        true
    }
}

/// A file beside the log.
#[derive(Clone, Debug, PartialEq, Eq)]
pub struct LogEntry {
    pub name: String,
    /// Whether it is the active log itself.
    pub is_active: bool,
    /// Where it stands in the directory as it was read.
    pub index: usize,
}

/// Segments are read in the order of their names.
impl Ranked for LogEntry {
    open spec fn rank_le(self, other: Self) -> bool {
        text_le(self.name@, other.name@)
    }

    proof fn rank_total(a: Self, b: Self) {
        lemma_text_le_total(a.name@, b.name@);
    }

    proof fn rank_transitive(a: Self, b: Self, c: Self) {
        lemma_text_le_transitive(a.name@, b.name@, c.name@);
    }

    fn is_rank_le(&self, other: &Self) -> (yes: bool) {
        is_text_le(self.name.as_str(), other.name.as_str())
    }
}

/// The segments of the log among the files beside it, as they were read.
pub open spec fn segments_among(entries: Seq<LogEntry>, file_name: Option<Seq<char>>) -> Seq<
    LogEntry,
> {
    entries.filter(|entry: LogEntry| !entry.is_active && is_segment(entry.name@, file_name))
}

/// The segments of the log among the files beside it, the oldest first.
pub fn rotated_segments(entries: Vec<LogEntry>, file_name: Option<&str>) -> (segments: Vec<
    LogEntry,
>)
    ensures
        is_stable_sort_of(segments@, segments_among(entries@, str_view(file_name))),
{
    let ghost all = entries@;
    let ghost wanted = |entry: LogEntry|
        !entry.is_active && is_segment(entry.name@, str_view(file_name));
    let mut rest = entries;
    let mut kept: Vec<LogEntry> = Vec::new();
    let ghost mut taken: int = 0;
    proof {
        assert(all.skip(0) =~= all);
        assert(all.take(0) =~= Seq::empty());
        reveal(Seq::filter);
    }
    while rest.len() > 0
        invariant
            0 <= taken <= all.len(),
            wanted == (|entry: LogEntry|
                !entry.is_active && is_segment(entry.name@, str_view(file_name))),
            rest@ == all.skip(taken),
            kept@ == all.take(taken).filter(wanted),
        decreases rest@.len(),
    {
        let entry = rest.remove(0);
        proof {
            assert(entry == all[taken]);
            assert(all.take(taken + 1) =~= all.take(taken).push(entry));
            all.take(taken).lemma_filter_push(entry, wanted);
            assert(rest@ =~= all.skip(taken + 1));
            taken = taken + 1;
        }
        if !entry.is_active && is_rotated_segment(entry.name.as_str(), file_name) {
            kept.push(entry);
        }
    }
    assert(all.take(taken) =~= all);
    stable_sort(kept)
}

/// A file of the log.
#[derive(Clone, Copy, Debug, PartialEq, Eq, Structural)]
pub enum ReplaySource {
    /// The file with this index in the directory.
    Segment(usize),
    Active,
}

/// The files to replay: the segments in their order, and then the active log if there is one.
pub open spec fn sources_of(segments: Seq<LogEntry>, active_exists: bool) -> Seq<ReplaySource> {
    segments.map_values(|entry: LogEntry| ReplaySource::Segment(entry.index)) + if active_exists {
        seq![ReplaySource::Active]
    } else {
        Seq::empty()
    }
}

/// Lists the files to replay, given the segments in their order.
pub fn replay_sources(segments: &Vec<LogEntry>, active_exists: bool) -> (sources: Vec<ReplaySource>)
    ensures
        sources@ == sources_of(segments@, active_exists),
{
    let ghost listed = segments@.map_values(|entry: LogEntry| ReplaySource::Segment(entry.index));
    let mut sources: Vec<ReplaySource> = Vec::new();
    let mut i: usize = 0;
    while i < segments.len()
        invariant
            i <= segments@.len(),
            listed == segments@.map_values(
                |entry: LogEntry| ReplaySource::Segment(entry.index),
            ),
            sources@ == listed.take(i as int),
        decreases segments@.len() - i,
    {
        sources.push(ReplaySource::Segment(segments[i].index));
        assert(sources@ =~= listed.take(i + 1));
        i = i + 1;
    }
    assert(listed.take(i as int) =~= listed);
    if active_exists {
        sources.push(ReplaySource::Active);
    }
    assert(sources@ =~= sources_of(segments@, active_exists));
    sources
}

/// The segments to remove: all but the latest few.
pub open spec fn surplus_of(segments: Seq<LogEntry>) -> Seq<usize> {
    let surplus = if segments.len() <= EVENT_LOG_MAX_SEGMENTS {
        0
    } else {
        segments.len() - EVENT_LOG_MAX_SEGMENTS
    };
    segments.take(surplus).map_values(|entry: LogEntry| entry.index)
}

/// Lists the segments to remove by their indices in the directory, given all in their order.
pub fn prune_old_segments(segments: &Vec<LogEntry>) -> (surplus: Vec<usize>)
    ensures
        surplus@ == surplus_of(segments@),
{
    let mut surplus: Vec<usize> = Vec::new();
    if segments.len() <= EVENT_LOG_MAX_SEGMENTS {
        assert(surplus@ =~= surplus_of(segments@));
        return surplus;
    }
    let count: usize = segments.len() - EVENT_LOG_MAX_SEGMENTS;
    let mut i: usize = 0;
    while i < count
        invariant
            i <= count < segments@.len(),
            surplus@ == segments@.take(i as int).map_values(|entry: LogEntry| entry.index),
        decreases count - i,
    {
        surplus.push(segments[i].index);
        assert(surplus@ =~= segments@.take(i + 1).map_values(|entry: LogEntry| entry.index));
        i = i + 1;
    }
    surplus
}

} // verus!
