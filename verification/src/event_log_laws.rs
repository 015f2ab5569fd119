//! What holds of the files of the event log.

use crate::event_log::{
    default_log_path, dotted, extension_of, is_segment, last_dot, lemma_last_dot, padded,
    path_below, rotated_name_of, segments_among, sources_of, stem_of, surplus_of, LogEntry,
    ReplaySource,
};
use crate::order::{is_stable_sort_of, Ranked};
use crate::text::{
    all_digits, digit_char, is_digit, lemma_numeral_round_trip, numeral_of, numeral_value, text_le,
};
use vstd::prelude::*;

verus! {

/// A number in exactly `width` digits, if it has no more.
spec fn digits_of(n: nat, width: nat) -> Seq<char>
    decreases width,
{
    if width == 0 {
        Seq::empty()
    } else {
        digits_of(n / 10, (width - 1) as nat).push(digit_char(n % 10))
    }
}

spec fn pow10(width: nat) -> nat
    decreases width,
{
    if width == 0 {
        1
    } else {
        10 * pow10((width - 1) as nat)
    }
}

spec fn zeros(count: nat) -> Seq<char> {
    Seq::new(count, |i: int| '0')
}

proof fn lemma_digits_of_zero(width: nat)
    ensures
        digits_of(0, width) == zeros(width),
    decreases width,
{
    if width > 0 {
        lemma_digits_of_zero((width - 1) as nat);
    }
    assert(digits_of(0, width) =~= zeros(width));
}

proof fn lemma_digits_are_padded(n: nat, width: nat)
    requires
        n < pow10(width),
        width > 0,
    ensures
        numeral_of(n).len() <= width,
        digits_of(n, width) == zeros((width - numeral_of(n).len()) as nat) + numeral_of(n),
    decreases width,
{
    let shorter = (width - 1) as nat;
    if n < 10 {
        assert(n / 10 == 0);
        lemma_digits_of_zero(shorter);
        assert(digits_of(n, width) =~= zeros((width - numeral_of(n).len()) as nat) + numeral_of(n));
    } else {
        assert(pow10(width) == 10 * pow10(shorter));
        assert(shorter > 0);
        lemma_digits_are_padded(n / 10, shorter);
        assert(digits_of(n, width) =~= zeros((width - numeral_of(n).len()) as nat) + numeral_of(n));
    }
}

proof fn lemma_digits_len(n: nat, width: nat)
    ensures
        digits_of(n, width).len() == width,
    decreases width,
{
    if width > 0 {
        lemma_digits_len(n / 10, (width - 1) as nat);
    }
}

/// Where two texts first differ, the first one has the smaller character.
spec fn differs_below(a: Seq<char>, b: Seq<char>, at: int) -> bool {
    &&& 0 <= at < a.len()
    &&& at < b.len()
    &&& a.take(at) == b.take(at)
    &&& (a[at] as int) < (b[at] as int)
}

proof fn lemma_digits_in_order(m: nat, n: nat, width: nat) -> (at: int)
    requires
        m < n < pow10(width),
    ensures
        differs_below(digits_of(m, width), digits_of(n, width), at),
    decreases width,
{
    let shorter = (width - 1) as nat;
    let a = digits_of(m, width);
    let b = digits_of(n, width);
    lemma_digits_len(m, width);
    lemma_digits_len(n, width);
    lemma_digits_len(m / 10, shorter);
    lemma_digits_len(n / 10, shorter);
    assert(a.drop_last() =~= digits_of(m / 10, shorter));
    assert(b.drop_last() =~= digits_of(n / 10, shorter));
    if m / 10 < n / 10 {
        let at = lemma_digits_in_order(m / 10, n / 10, shorter);
        assert(a.take(at) =~= a.drop_last().take(at));
        assert(b.take(at) =~= b.drop_last().take(at));
        at
    } else {
        assert(m / 10 == n / 10);
        assert(a.take(width - 1) =~= a.drop_last());
        assert(b.take(width - 1) =~= b.drop_last());
        width - 1
    }
}

proof fn lemma_differing_texts_are_ordered(a: Seq<char>, b: Seq<char>, at: int)
    requires
        differs_below(a, b, at),
    ensures
        text_le(a, b),
        !text_le(b, a),
    decreases at,
{
    if at > 0 {
        assert(a[0] == a.take(at)[0]);
        assert(b[0] == b.take(at)[0]);
        assert(a.drop_first().take(at - 1) =~= a.take(at).drop_first());
        assert(b.drop_first().take(at - 1) =~= b.take(at).drop_first());
        lemma_differing_texts_are_ordered(a.drop_first(), b.drop_first(), at - 1);
    }
}

/// The names of segments sort in the order of the times at which they were rotated out, whatever
/// processes did it.
pub proof fn law_segments_sort_by_time(
    file_name: Option<Seq<char>>,
    earlier: nat,
    later: nat,
    pid: nat,
    other_pid: nat,
)
    requires
        earlier < later < 100_000_000_000_000_000_000,
    ensures
        text_le(
            rotated_name_of(file_name, earlier, pid),
            rotated_name_of(file_name, later, other_pid),
        ),
        !text_le(
            rotated_name_of(file_name, later, other_pid),
            rotated_name_of(file_name, earlier, pid),
        ),
{
    let a = rotated_name_of(file_name, earlier, pid);
    let b = rotated_name_of(file_name, later, other_pid);
    assert(pow10(20) == 100_000_000_000_000_000_000) by {
        reveal_with_fuel(pow10, 21);
    }
    lemma_digits_are_padded(earlier, 20);
    lemma_digits_are_padded(later, 20);
    assert(padded(earlier) =~= digits_of(earlier, 20));
    assert(padded(later) =~= digits_of(later, 20));
    let at = lemma_digits_in_order(earlier, later, 20);
    let stem = match file_name {
        Some(name) => stem_of(name),
        None => "recent-activity"@,
    };
    let start = stem.len() as int + 1;
    assert(a.subrange(start, start + 20) =~= digits_of(earlier, 20)) by {
        lemma_digits_len(earlier, 20);
    }
    assert(b.subrange(start, start + 20) =~= digits_of(later, 20)) by {
        lemma_digits_len(later, 20);
    }
    lemma_digits_len(earlier, 20);
    lemma_digits_len(later, 20);
    assert(a[start + at] == a.subrange(start, start + 20)[at]);
    assert(b[start + at] == b.subrange(start, start + 20)[at]);
    assert forall|i: int| 0 <= i < start + at implies a[i] == b[i] by {
        if i >= start {
            assert(a[i] == a.subrange(start, start + 20).take(at)[i - start]);
            assert(b[i] == b.subrange(start, start + 20).take(at)[i - start]);
        }
    }
    assert(a.take(start + at) =~= b.take(start + at));
    lemma_differing_texts_are_ordered(a, b, start + at);
}

/// What is rotated out of a log is found again as a segment of it, and never mistaken for the
/// log itself.
pub proof fn law_rotated_log_is_a_segment(file_name: Seq<char>, millis: nat, pid: nat)
    ensures
        is_segment(rotated_name_of(Some(file_name), millis, pid), Some(file_name)),
        rotated_name_of(Some(file_name), millis, pid) != file_name,
{
    let name = rotated_name_of(Some(file_name), millis, pid);
    let stem = stem_of(file_name);
    let extension = extension_of(file_name);
    lemma_last_dot(file_name);
    assert((stem + seq!['.']) =~= name.subrange(0, stem.len() as int + 1));
    assert(dotted(extension) =~= name.subrange(
        name.len() - dotted(extension).len(),
        name.len() as int,
    ));
    assert(padded(millis).len() >= 20);
    assert(stem.len() + 1 + extension.len() >= file_name.len());
}

/// The active log is replayed after all segments, which keep their order.
pub proof fn law_active_log_is_replayed_last(segments: Seq<LogEntry>)
    ensures
        sources_of(segments, true).last() == ReplaySource::Active,
        sources_of(segments, true).drop_last() == sources_of(segments, false),
        forall|i: int|
            0 <= i < segments.len() ==> #[trigger] sources_of(segments, true)[i]
                == ReplaySource::Segment(segments[i].index),
{
    assert(sources_of(segments, true).drop_last() =~= sources_of(segments, false));
}

/// Of many segments the latest four stay, of few all; the oldest ones go.
pub proof fn law_latest_segments_stay(segments: Seq<LogEntry>)
    ensures
        segments.len() - surplus_of(segments).len() == if segments.len() < 4 {
            segments.len() as int
        } else {
            4
        },
        forall|i: int|
            0 <= i < surplus_of(segments).len() ==> #[trigger] surplus_of(segments)[i]
                == segments[i].index,
{
}

/// A path below another one is that one, a slash if it does not end with one, and the rest.
pub proof fn law_paths_are_joined_by_one_slash(base: Seq<char>, relative: Seq<char>)
    ensures
        base.len() == 0 ==> path_below(base, relative) == relative,
        path_below(base.push('/'), relative) == base.push('/') + relative,
        base.len() > 0 && base.last() != '/' ==> path_below(base, relative) == base.push('/')
            + relative,
{
    if base.len() == 0 {
        assert(base + relative =~= relative);
    } else {
        assert(base + seq!['/'] =~= base.push('/'));
    }
}

/// The log is in the cache of the home directory; without one, of where the program runs.
pub proof fn law_log_is_in_the_cache_of_the_home(home: Seq<char>)
    ensures
        home.len() > 0 && home.last() != '/' ==> default_log_path(Some(home)) == home.push('/')
            + ".cache/vmux/recent-activity.jsonl"@,
        default_log_path(None) == seq!['.', '/'] + ".cache/vmux/recent-activity.jsonl"@,
{
    reveal_strlit(".");
    let rest = ".cache/vmux/recent-activity.jsonl"@;
    law_paths_are_joined_by_one_slash(home, rest);
    law_paths_are_joined_by_one_slash("."@, rest);
    assert("."@.push('/') =~= seq!['.', '/']);
}

proof fn lemma_nothing_after_the_last_dot(name: Seq<char>)
    ensures
        forall|i: int| last_dot(name) < i < name.len() ==> #[trigger] name[i] != '.',
    decreases name.len(),
{
    if name.len() > 0 && name.last() != '.' {
        lemma_last_dot(name);
        lemma_nothing_after_the_last_dot(name.drop_last());
        assert forall|i: int| last_dot(name) < i < name.len() implies #[trigger] name[i] != '.' by {
            if i < name.len() - 1 {
                assert(name.drop_last()[i] == name[i]);
            }
        }
    }
}

/// A file name is cut at its last dot, unless that is the first character; the two parts and the
/// dot are the whole name.
pub proof fn law_name_is_cut_at_its_last_dot(stem: Seq<char>, extension: Seq<char>)
    requires
        !extension.contains('.'),
    ensures
        stem.len() > 0 && stem.push('.') + extension != ".."@ ==> stem_of(
            stem.push('.') + extension,
        ) == stem && extension_of(stem.push('.') + extension) == extension,
        stem_of(extension) == extension,
        extension_of(extension).len() == 0,
        stem_of(seq!['.'] + extension) == seq!['.'] + extension,
        extension_of(seq!['.'] + extension).len() == 0,
        stem_of(".."@) == ".."@,
        extension_of(".."@).len() == 0,
{
    let name = stem.push('.') + extension;
    lemma_last_dot(name);
    lemma_nothing_after_the_last_dot(name);
    assert(name[stem.len() as int] == '.');
    if last_dot(name) > stem.len() {
        assert(extension[last_dot(name) - stem.len() - 1] == '.');
    }
    assert(name.take(stem.len() as int) =~= stem);
    assert(name.skip(stem.len() as int + 1) =~= extension);
    lemma_last_dot(extension);
    if last_dot(extension) >= 0 {
        assert(extension.contains(extension[last_dot(extension)]));
    }
    let hidden = seq!['.'] + extension;
    lemma_last_dot(hidden);
    if last_dot(hidden) > 0 {
        assert(extension.contains(extension[last_dot(hidden) - 1]));
    }
}

/// A padded number has at least twenty characters, all of them digits, and is still that number.
pub proof fn law_padding_keeps_the_number(n: nat)
    ensures
        padded(n).len() >= 20,
        all_digits(padded(n)),
        numeral_value(padded(n)) == n,
{
    lemma_numeral_round_trip(n);
    let digits = numeral_of(n);
    if digits.len() < 20 {
        lemma_zeros_in_front((20 - digits.len()) as nat, digits);
        assert(padded(n) =~= zeros((20 - digits.len()) as nat) + digits);
    }
}

proof fn lemma_zeros_in_front(count: nat, digits: Seq<char>)
    requires
        all_digits(digits),
    ensures
        all_digits(zeros(count) + digits),
        numeral_value(zeros(count) + digits) == numeral_value(digits),
    decreases digits.len() + count,
{
    let whole = zeros(count) + digits;
    assert forall|i: int| 0 <= i < whole.len() implies is_digit(#[trigger] whole[i]) by {
        if i >= count {
            assert(is_digit(digits[i - count]));
        }
    }
    if digits.len() > 0 {
        assert forall|i: int| 0 <= i < digits.drop_last().len() implies is_digit(
            #[trigger] digits.drop_last()[i],
        ) by {
            assert(is_digit(digits[i]));
        }
        lemma_zeros_in_front(count, digits.drop_last());
        assert(whole.drop_last() =~= zeros(count) + digits.drop_last());
    } else if count > 0 {
        lemma_zeros_in_front((count - 1) as nat, digits);
        assert(whole.drop_last() =~= zeros((count - 1) as nat) + digits);
        assert(whole.last() == '0');
    }
}

/// Two processes that rotate the log out at the same time give it different names.
pub proof fn law_processes_name_segments_apart(
    file_name: Option<Seq<char>>,
    millis: nat,
    pid: nat,
    other_pid: nat,
)
    requires
        pid != other_pid,
    ensures
        rotated_name_of(file_name, millis, pid) != rotated_name_of(file_name, millis, other_pid),
{
    let a = rotated_name_of(file_name, millis, pid);
    let b = rotated_name_of(file_name, millis, other_pid);
    let (p, q) = (numeral_of(pid), numeral_of(other_pid));
    lemma_numeral_round_trip(pid);
    lemma_numeral_round_trip(other_pid);
    if a == b {
        let (stem, extension) = match file_name {
            Some(name) => (stem_of(name), extension_of(name)),
            None => ("recent-activity"@, Seq::empty()),
        };
        let start = stem.len() + 1 + padded(millis).len() + 1;
        assert(a.len() == start + p.len() + dotted(extension).len());
        assert(b.len() == start + q.len() + dotted(extension).len());
        assert(p.len() == q.len());
        assert(a.subrange(start as int, (start + p.len()) as int) =~= p);
        assert(b.subrange(start as int, (start + q.len()) as int) =~= q);
        assert(false);
    }
}

/// A file is taken for a segment only if it begins with the stem of the log's name and a dot, and
/// ends with a dot and its extension if there is one.
pub proof fn law_segments_share_stem_and_extension(name: Seq<char>, file_name: Seq<char>)
    ensures
        is_segment(name, Some(file_name)) == ({
            let stem = stem_of(file_name);
            let extension = extension_of(file_name);
            &&& name.len() > stem.len() && name.take(stem.len() as int) == stem
                && name[stem.len() as int] == '.'
            &&& extension.len() > 0 ==> name.len() > extension.len() && name.skip(
                name.len() - extension.len(),
            ) == extension && name[name.len() - extension.len() - 1] == '.'
        }),
{
    let stem = stem_of(file_name);
    let extension = extension_of(file_name);
    let head = stem + seq!['.'];
    if head.is_prefix_of(name) {
        assert(name.subrange(0, head.len() as int) == head);
        assert(name.take(stem.len() as int) =~= name.subrange(0, head.len() as int).take(
            stem.len() as int,
        ));
        assert(head.take(stem.len() as int) =~= stem);
        assert(name.subrange(0, head.len() as int)[stem.len() as int] == '.');
    }
    if name.len() > stem.len() && name.take(stem.len() as int) == stem && name[stem.len() as int]
        == '.' {
        assert(name.subrange(0, head.len() as int) =~= name.take(stem.len() as int) + seq!['.']);
        assert(head.is_prefix_of(name));
    }
    let tail = dotted(extension);
    if extension.len() > 0 {
        let from = name.len() - tail.len();
        if tail.is_suffix_of(name) {
            let end = name.subrange(from, name.len() as int);
            assert(end == tail);
            assert(end[0] == '.');
            assert(name.skip(from + 1) =~= end.drop_first());
            assert(tail.drop_first() =~= extension);
        }
        if name.len() > extension.len() && name.skip(name.len() - extension.len()) == extension
            && name[from] == '.' {
            assert(name.subrange(from, name.len() as int) =~= seq!['.'] + name.skip(from + 1));
            assert(tail.is_suffix_of(name));
        }
    } else {
        assert(name.subrange(name.len() as int, name.len() as int) =~= tail);
    }
}

/// All segments beside the log are found, and no other file; the log itself is none of them.
pub proof fn law_all_segments_are_found(
    entries: Seq<LogEntry>,
    file_name: Option<Seq<char>>,
    entry: LogEntry,
)
    ensures
        segments_among(entries, file_name).contains(entry) == (entries.contains(entry)
            && !entry.is_active && is_segment(entry.name@, file_name)),
{
    let wanted = |entry: LogEntry| !entry.is_active && is_segment(entry.name@, file_name);
    entries.filter_lemma(wanted);
    lemma_kept_are_there(entries, wanted, entry);
}

proof fn lemma_kept_are_there(
    entries: Seq<LogEntry>,
    wanted: spec_fn(LogEntry) -> bool,
    entry: LogEntry,
)
    ensures
        entries.filter(wanted).contains(entry) == (entries.contains(entry) && wanted(entry)),
    decreases entries.len(),
{
    reveal(Seq::filter);
    if entries.len() > 0 {
        let shorter = entries.drop_last();
        lemma_kept_are_there(shorter, wanted, entry);
        let kept = shorter.filter(wanted);
        let all = entries.filter(wanted);
        if kept.contains(entry) {
            let i = choose|i: int| 0 <= i < kept.len() && kept[i] == entry;
            assert(all[i] == entry);
        }
        if shorter.contains(entry) {
            let i = choose|i: int| 0 <= i < shorter.len() && shorter[i] == entry;
            assert(entries[i] == entry);
        }
        if entries.contains(entry) {
            let i = choose|i: int| 0 <= i < entries.len() && entries[i] == entry;
            if i < shorter.len() {
                assert(shorter[i] == entry);
            }
        }
        if entries.last() == entry {
            assert(entries[entries.len() - 1] == entry);
            if wanted(entry) {
                assert(all[all.len() - 1] == entry);
            }
        }
        if all.contains(entry) {
            let i = choose|i: int| 0 <= i < all.len() && all[i] == entry;
            if i < kept.len() {
                assert(kept[i] == entry);
            }
        }
    }
}

/// Segments are read in the order of their names.
pub proof fn law_segments_are_read_by_name(
    sorted: Seq<LogEntry>,
    entries: Seq<LogEntry>,
    i: int,
    j: int,
)
    requires
        is_stable_sort_of(sorted, entries),
        0 <= i < j < sorted.len(),
    ensures
        text_le(sorted[i].name@, sorted[j].name@),
        sorted.len() == entries.len(),
        sorted.to_multiset() == entries.to_multiset(),
{
    sorted.to_multiset_ensures();
    entries.to_multiset_ensures();
    assert(sorted[i].rank_le(sorted[j]));
}

/// Without an active log the segments alone are replayed, all of them and in order.
pub proof fn law_every_segment_is_replayed(segments: Seq<LogEntry>, active_exists: bool)
    ensures
        sources_of(segments, active_exists).len() == segments.len() + if active_exists {
            1int
        } else {
            0
        },
        forall|i: int|
            0 <= i < segments.len() ==> #[trigger] sources_of(segments, active_exists)[i]
                == ReplaySource::Segment(segments[i].index),
{
}

/// A log whose path has no file name has the name that logs have by default, and takes hidden
/// files for its segments.
pub proof fn law_log_without_a_name(name: Seq<char>, millis: nat, pid: nat)
    ensures
        is_segment(name, None) == (name.len() > 0 && name[0] == '.'),
        rotated_name_of(None, millis, pid) == "recent-activity"@.push('.') + padded(millis).push(
            '-',
        ) + numeral_of(pid),
{
    let dot = Seq::<char>::empty() + seq!['.'];
    assert(dot =~= seq!['.']);
    if name.len() > 0 {
        assert(name.subrange(0, 1)[0] == name[0]);
        if name[0] == '.' {
            assert(name.subrange(0, 1) =~= dot);
        }
    }
    assert(name.subrange(name.len() as int, name.len() as int) =~= dotted(Seq::empty()));
    assert(rotated_name_of(None, millis, pid) =~= "recent-activity"@.push('.') + padded(
        millis,
    ).push('-') + numeral_of(pid));
}

} // verus!
