//! Reading a Shanghai Stock Exchange–shaped published session table into rules.
//!
//! This is a parser and a mapping; it holds no session times. The schedule stays in the
//! operator's fetched document and is read out of it at assembly time. What is here is the
//! reading: which published session name corresponds to which phase of the shared
//! vocabulary, and the refusal to invent what the document does not say. The published
//! table does not tile the trading day, and an interval between published sessions is
//! never filled by inference: it needs a [`GapRuling`] carrying the reasoning.

use crate::civil::{nanos_of_day, CivilTime};
use crate::format::ChangePointRecord;
use crate::phase::phase_text;
use crate::text::push_zero_padded;
use crate::zone::time_text;
use crate::phase::Phase;
use vstd::prelude::*;

verus! {

/// Whether a character is an ASCII decimal digit.
pub open spec fn is_digit(c: char) -> bool {
    '0' <= c <= '9'
}

/// The characters of a text, one by one.
pub fn chars_of(text: &str) -> (r: Vec<char>)
    ensures
        r@ == text@,
{
    let n = text.unicode_len();
    let mut out: Vec<char> = Vec::new();
    let mut i: usize = 0;
    while i < n
        invariant
            n == text@.len(),
            i <= n,
            out@ == text@.subrange(0, i as int),
        decreases n - i,
    {
        out.push(text.get_char(i));
        i = i + 1;
        assert(out@ =~= text@.subrange(0, i as int));
    }
    out
}

// ---------------------------------------------------------------------------------- lines

/// The index of the first line feed at or after `i`, or the length when there is none.
pub open spec fn line_end(text: Seq<char>, i: int) -> int
    decreases text.len() - i,
{
    if i < 0 || i >= text.len() {
        text.len() as int
    } else if text[i] == '\n' {
        i
    } else {
        line_end(text, i + 1)
    }
}

/// A line that ended with a line feed, with a carriage return before it removed.
pub open spec fn without_cr(line: Seq<char>) -> Seq<char> {
    if line.len() > 0 && line.last() == '\r' {
        line.drop_last()
    } else {
        line
    }
}

/// The lines of `text` from index `i`, as `str::lines` splits them: at each line feed,
/// dropping a carriage return right before it; a last line without a line feed is kept
/// as it is, and a final line feed starts no empty line.
pub open spec fn lines_from(text: Seq<char>, i: int) -> Seq<Seq<char>>
    decreases text.len() - i,
{
    if i < 0 || i >= text.len() {
        Seq::empty()
    } else {
        let e = line_end(text, i);
        proof {
            lemma_line_end_bounds(text, i);
        }
        if e >= text.len() {
            seq![text.subrange(i, text.len() as int)]
        } else {
            seq![without_cr(text.subrange(i, e))] + lines_from(text, e + 1)
        }
    }
}

/// The lines of a text.
pub open spec fn lines_of(text: Seq<char>) -> Seq<Seq<char>> {
    lines_from(text, 0)
}

pub proof fn lemma_line_end_bounds(text: Seq<char>, i: int)
    requires
        0 <= i,
    ensures
        i <= line_end(text, i) <= text.len() || (i > text.len() && line_end(text, i) == text.len()),
        line_end(text, i) < text.len() ==> text[line_end(text, i)] == '\n',
        forall|k: int| i <= k < line_end(text, i) ==> text[k] != '\n',
    decreases text.len() - i,
{
    if i < text.len() && text[i] != '\n' {
        lemma_line_end_bounds(text, i + 1);
    }
}

// ----------------------------------------------------------------------------- times

/// The index just after the run of digits starting at `i`.
pub open spec fn digits_end(line: Seq<char>, i: int) -> int
    decreases line.len() - i,
{
    if 0 <= i < line.len() && is_digit(line[i]) {
        digits_end(line, i + 1)
    } else {
        i
    }
}

pub proof fn lemma_digits_end(line: Seq<char>, i: int)
    requires
        0 <= i,
    ensures
        i <= digits_end(line, i),
        i <= line.len() ==> digits_end(line, i) <= line.len(),
        forall|k: int| i <= k < digits_end(line, i) ==> is_digit(line[k]),
        digits_end(line, i) < line.len() ==> !is_digit(line[digits_end(line, i)]),
    decreases line.len() - i,
{
    if 0 <= i < line.len() && is_digit(line[i]) {
        lemma_digits_end(line, i + 1);
    }
}

/// The value of a digit character.
pub open spec fn digit_value(c: char) -> int {
    (c as int) - ('0' as int)
}

/// A time of day written at `i`: one or two digits of hour, a colon, and exactly two
/// digits of minute, naming a valid time; as (index after it, hour, minute).
pub open spec fn time_at(line: Seq<char>, i: int) -> Option<(int, int, int)> {
    let h_end = digits_end(line, i);
    let m_end = digits_end(line, h_end + 1);
    let hour = if h_end - i == 1 {
        digit_value(line[i])
    } else {
        digit_value(line[i]) * 10 + digit_value(line[i + 1])
    };
    let minute = digit_value(line[h_end + 1]) * 10 + digit_value(line[h_end + 2]);
    if h_end < line.len() && line[h_end] == ':' && h_end - i <= 2 && m_end - (h_end + 1) == 2
        && hour <= 23 && minute <= 59 {
        Some((m_end, hour, minute))
    } else {
        None
    }
}

/// Where the scan resumes after a run of digits starting at `i`: after the minute digits
/// when the run is followed by a colon and is at most two digits long, else after the run.
pub open spec fn scan_resume(line: Seq<char>, i: int) -> int {
    let h_end = digits_end(line, i);
    if h_end < line.len() && line[h_end] == ':' && h_end - i <= 2 {
        digits_end(line, h_end + 1)
    } else {
        h_end
    }
}

/// The times of day written on a line from index `i`, read left to right: each digit run
/// is an hour unless it was read as a minute, and a run that does not make a time is
/// passed over. Each is (index after it, hour, minute).
pub open spec fn scan_times(line: Seq<char>, i: int) -> Seq<(int, int, int)>
    decreases line.len() - i,
{
    if i < 0 || i >= line.len() {
        Seq::empty()
    } else if !is_digit(line[i]) {
        scan_times(line, i + 1)
    } else {
        let next = scan_resume(line, i);
        proof {
            lemma_digits_end(line, i);
            lemma_digits_end(line, digits_end(line, i) + 1);
        }
        if next <= i {
            Seq::empty()
        } else {
            match time_at(line, i) {
                Some(t) => seq![t] + scan_times(line, next),
                None => scan_times(line, next),
            }
        }
    }
}

/// A time of day at whole minutes.
pub open spec fn minute_time(hour: int, minute: int) -> (int, int, int, int) {
    (hour, minute, 0, 0)
}

/// The times of day written on a line, each with the index just after it.
pub fn time_positions(line: &Vec<char>) -> (r: Vec<(usize, CivilTime)>)
    ensures
        r@.len() == scan_times(line@, 0).len(),
        forall|k: int|
            0 <= k < r@.len() ==> (#[trigger] r@[k]).0 == scan_times(line@, 0)[k].0 && r@[k].1@
                == minute_time(scan_times(line@, 0)[k].1, scan_times(line@, 0)[k].2),
{
    let n = line.len();
    let mut found: Vec<(usize, CivilTime)> = Vec::new();
    let ghost mut read: Seq<(int, int, int)> = Seq::empty();
    let mut index: usize = 0;
    while index < n
        invariant
            n == line@.len(),
            index <= n,
            scan_times(line@, 0) == read + scan_times(line@, index as int),
            found@.len() == read.len(),
            forall|k: int|
                0 <= k < found@.len() ==> (#[trigger] found@[k]).0 == read[k].0 && found@[k].1@
                    == minute_time(read[k].1, read[k].2),
        decreases n - index,
    {
        if !('0' <= line[index] && line[index] <= '9') {
            index = index + 1;
            continue;
        }
        let start = index;
        proof {
            lemma_digits_end(line@, start as int);
        }
        while index < n && '0' <= line[index] && line[index] <= '9'
            invariant
                n == line@.len(),
                start <= index <= n,
                digits_end(line@, start as int) == digits_end(line@, index as int),
            decreases n - index,
        {
            index = index + 1;
        }
        let h_end = index;
        assert(h_end == digits_end(line@, start as int));
        if index >= n || line[index] != ':' || index - start > 2 {
            proof {
                assert(scan_resume(line@, start as int) == h_end);
            }
            continue;
        }
        index = index + 1;
        let minute_start = index;
        proof {
            lemma_digits_end(line@, minute_start as int);
        }
        while index < n && '0' <= line[index] && line[index] <= '9'
            invariant
                n == line@.len(),
                minute_start <= index <= n,
                digits_end(line@, minute_start as int) == digits_end(line@, index as int),
            decreases n - index,
        {
            index = index + 1;
        }
        assert(index == digits_end(line@, minute_start as int));
        assert(scan_resume(line@, start as int) == index);
        if index - minute_start != 2 {
            continue;
        }
        let tens = (line[start] as u32) - ('0' as u32);
        let hour: u32 = if h_end - start == 1 {
            tens
        } else {
            tens * 10 + ((line[start + 1] as u32) - ('0' as u32))
        };
        let minute: u32 = ((line[minute_start] as u32) - ('0' as u32)) * 10 + ((
        line[minute_start + 1] as u32) - ('0' as u32));
        if hour <= 23 && minute <= 59 {
            match CivilTime::new(hour as i8, minute as i8, 0, 0) {
                Ok(time) => {
                    proof {
                        read = read.push((index as int, hour as int, minute as int));
                    }
                    found.push((index, time));
                },
                Err(_) => {},
            }
        }
    }
    proof {
        assert(read + scan_times(line@, n as int) =~= read);
    }
    found
}

/// Times read from a line lie after `i`, strictly increase in position, and stay on the
/// line.
pub proof fn lemma_scan_positions(line: Seq<char>, i: int)
    requires
        0 <= i,
    ensures
        forall|k: int|
            0 <= k < scan_times(line, i).len() ==> i < (#[trigger] scan_times(line, i)[k]).0
                <= line.len(),
        forall|k: int, j: int|
            0 <= k < j < scan_times(line, i).len() ==> (#[trigger] scan_times(line, i)[k]).0 < (
            #[trigger] scan_times(line, i)[j]).0,
    decreases line.len() - i,
{
    if i < line.len() {
        if !is_digit(line[i]) {
            lemma_scan_positions(line, i + 1);
            assert(scan_times(line, i) == scan_times(line, i + 1));
        } else {
            let next = scan_resume(line, i);
            lemma_digits_end(line, i);
            lemma_digits_end(line, digits_end(line, i) + 1);
            if next > i {
                lemma_scan_positions(line, next);
                match time_at(line, i) {
                    Some(t) => {
                        assert(t.0 == next);
                        let all = scan_times(line, i);
                        let rest = scan_times(line, next);
                        assert(all == seq![t] + rest);
                        assert forall|k: int| 0 <= k < all.len() implies i < (#[trigger] all[k]).0
                            <= line.len() by {
                            if k > 0 {
                                assert(all[k] == rest[k - 1]);
                            }
                        }
                        assert forall|k: int, j: int|
                            0 <= k < j < all.len() implies (#[trigger] all[k]).0 < (
                            #[trigger] all[j]).0 by {
                            assert(all[j] == rest[j - 1]);
                            if k > 0 {
                                assert(all[k] == rest[k - 1]);
                            }
                        }
                    },
                    None => {
                        assert(scan_times(line, i) == scan_times(line, next));
                    },
                }
            }
        }
    }
}

// ----------------------------------------------------------------------------- separators

/// A text with its trailing white space removed.
pub open spec fn trim_end(s: Seq<char>) -> Seq<char>
    decreases s.len(),
{
    if s.len() > 0 && crate::text::is_white_space(s.last()) {
        trim_end(s.drop_last())
    } else {
        s
    }
}

/// A text with its leading white space removed.
pub open spec fn trim_start(s: Seq<char>) -> Seq<char>
    decreases s.len(),
{
    if s.len() > 0 && crate::text::is_white_space(s[0]) {
        trim_start(s.drop_first())
    } else {
        s
    }
}

/// A text with its leading and trailing white space removed, as `str::trim` does.
pub open spec fn trimmed(s: Seq<char>) -> Seq<char> {
    trim_start(trim_end(s))
}

/// Whether a character survives when digits and colons are taken out.
pub open spec fn keeps(c: char) -> bool {
    !is_digit(c) && c != ':'
}

/// A text with its digits and colons taken out.
pub open spec fn without_times(s: Seq<char>) -> Seq<char>
    decreases s.len(),
{
    if s.len() == 0 {
        s
    } else if keeps(s.last()) {
        without_times(s.drop_last()).push(s.last())
    } else {
        without_times(s.drop_last())
    }
}

/// The words that join two times into a range.
pub open spec fn separator_word(t: Seq<char>) -> bool {
    ||| t == seq!['至']
    ||| t == seq!['-']
    ||| t == seq!['–']
    ||| t == seq!['—']
    ||| t == seq!['~']
    ||| t == seq!['到']
    ||| t == seq!['、', '至']
}

/// What lies between two times joins them into a range: once trimmed, stripped of digits
/// and colons, and trimmed again, it is a separator word.
pub open spec fn is_range_separator(between: Seq<char>) -> bool {
    separator_word(trimmed(without_times(trimmed(between))))
}

/// The bounds of `s[lo..hi]` once trimmed.
fn trim_bounds(s: &Vec<char>, lo: usize, hi: usize) -> (r: (usize, usize))
    requires
        lo <= hi <= s@.len(),
    ensures
        lo <= r.0 <= r.1 <= hi,
        s@.subrange(r.0 as int, r.1 as int) == trimmed(s@.subrange(lo as int, hi as int)),
{
    let mut b = hi;
    while b > lo && crate::text::char_is_white_space(s[b - 1])
        invariant
            lo <= b <= hi <= s@.len(),
            trim_end(s@.subrange(lo as int, hi as int)) == trim_end(s@.subrange(lo as int, b as int)),
        decreases b,
    {
        assert(s@.subrange(lo as int, b - 1) =~= s@.subrange(lo as int, b as int).drop_last());
        b = b - 1;
    }
    assert(trim_end(s@.subrange(lo as int, b as int)) == s@.subrange(lo as int, b as int));
    let mut a = lo;
    while a < b && crate::text::char_is_white_space(s[a])
        invariant
            lo <= a <= b <= hi <= s@.len(),
            trimmed(s@.subrange(lo as int, hi as int)) == trim_start(s@.subrange(a as int, b as int)),
        decreases b - a,
    {
        assert(s@.subrange(a + 1, b as int) =~= s@.subrange(a as int, b as int).drop_first());
        a = a + 1;
    }
    (a, b)
}

/// The characters of `s[lo..hi]` other than digits and colons.
fn strip_times(s: &Vec<char>, lo: usize, hi: usize) -> (r: Vec<char>)
    requires
        lo <= hi <= s@.len(),
    ensures
        r@ == without_times(s@.subrange(lo as int, hi as int)),
{
    let mut out: Vec<char> = Vec::new();
    let mut i = lo;
    while i < hi
        invariant
            lo <= i <= hi <= s@.len(),
            out@ == without_times(s@.subrange(lo as int, i as int)),
        decreases hi - i,
    {
        let c = s[i];
        assert(s@.subrange(lo as int, i + 1).drop_last() =~= s@.subrange(lo as int, i as int));
        if !('0' <= c && c <= '9') && c != ':' {
            out.push(c);
        }
        i = i + 1;
    }
    out
}

/// Whether `s[lo..hi]` is exactly `word`.
fn slice_is(s: &Vec<char>, lo: usize, hi: usize, word: &str) -> (r: bool)
    requires
        lo <= hi <= s@.len(),
    ensures
        r == (s@.subrange(lo as int, hi as int) == word@),
{
    let n = word.unicode_len();
    if hi - lo != n {
        return false;
    }
    let mut i: usize = 0;
    while i < n
        invariant
            n == word@.len(),
            hi - lo == n,
            lo <= hi <= s@.len(),
            i <= n,
            forall|k: int| 0 <= k < i ==> s@[lo + k] == word@[k],
        decreases n - i,
    {
        if s[lo + i] != word.get_char(i) {
            assert(s@.subrange(lo as int, hi as int)[i as int] != word@[i as int]);
            return false;
        }
        i = i + 1;
    }
    assert(s@.subrange(lo as int, hi as int) =~= word@);
    true
}

/// Whether `line[lo..hi]` joins the times on either side of it into a range.
fn range_separator(line: &Vec<char>, lo: usize, hi: usize) -> (r: bool)
    requires
        lo <= hi <= line@.len(),
    ensures
        r == is_range_separator(line@.subrange(lo as int, hi as int)),
{
    let (a, b) = trim_bounds(line, lo, hi);
    let kept = strip_times(line, a, b);
    assert(kept@.subrange(0, kept@.len() as int) =~= kept@);
    let (c, d) = trim_bounds(&kept, 0, kept.len());
    proof {
        reveal_strlit("至");
        reveal_strlit("-");
        reveal_strlit("–");
        reveal_strlit("—");
        reveal_strlit("~");
        reveal_strlit("到");
        reveal_strlit("、至");
        assert("至"@ =~= seq!['至']);
        assert("-"@ =~= seq!['-']);
        assert("–"@ =~= seq!['–']);
        assert("—"@ =~= seq!['—']);
        assert("~"@ =~= seq!['~']);
        assert("到"@ =~= seq!['到']);
        assert("、至"@ =~= seq!['、', '至']);
    }
    slice_is(&kept, c, d, "至") || slice_is(&kept, c, d, "-") || slice_is(&kept, c, d, "–")
        || slice_is(&kept, c, d, "—") || slice_is(&kept, c, d, "~") || slice_is(&kept, c, d, "到")
        || slice_is(&kept, c, d, "、至")
}

// --------------------------------------------------------------------------------- ranges

/// The ranges the times read from a line make, from the `k`-th time on: two consecutive
/// times joined by a separator word, the first earlier than the second, as
/// ((hour, minute), (hour, minute)).
pub open spec fn ranges_from(line: Seq<char>, times: Seq<(int, int, int)>, k: int) -> Seq<
    ((int, int), (int, int)),
>
    decreases times.len() - k,
{
    if k < 0 || k + 1 >= times.len() {
        Seq::empty()
    } else {
        let a = times[k];
        let b = times[k + 1];
        let rest = ranges_from(line, times, k + 1);
        if is_range_separator(line.subrange(a.0, b.0)) && a.1 * 60 + a.2 < b.1 * 60 + b.2 {
            seq![((a.1, a.2), (b.1, b.2))] + rest
        } else {
            rest
        }
    }
}

/// The time ranges written on a line.
pub open spec fn time_ranges_of(line: Seq<char>) -> Seq<((int, int), (int, int))> {
    ranges_from(line, scan_times(line, 0), 0)
}

/// The time ranges written on a line, in order.
fn time_ranges(line: &Vec<char>) -> (r: Vec<(CivilTime, CivilTime)>)
    ensures
        r@.len() == time_ranges_of(line@).len(),
        forall|k: int|
            0 <= k < r@.len() ==> (#[trigger] r@[k]).0@ == minute_time(
                time_ranges_of(line@)[k].0.0,
                time_ranges_of(line@)[k].0.1,
            ) && r@[k].1@ == minute_time(time_ranges_of(line@)[k].1.0, time_ranges_of(line@)[k].1.1),
{
    let times = time_positions(line);
    let ghost scanned = scan_times(line@, 0);
    proof {
        lemma_scan_positions(line@, 0);
    }
    let mut ranges: Vec<(CivilTime, CivilTime)> = Vec::new();
    let ghost mut got: Seq<((int, int), (int, int))> = Seq::empty();
    let mut k: usize = 0;
    while k < times.len() && k + 1 < times.len()
        invariant
            scanned == scan_times(line@, 0),
            times@.len() == scanned.len(),
            forall|j: int|
                0 <= j < times@.len() ==> (#[trigger] times@[j]).0 == scanned[j].0 && times@[j].1@
                    == minute_time(scanned[j].1, scanned[j].2),
            forall|j: int| 0 <= j < scanned.len() ==> 0 < (#[trigger] scanned[j]).0 <= line@.len(),
            forall|i: int, j: int|
                0 <= i < j < scanned.len() ==> (#[trigger] scanned[i]).0 < (#[trigger] scanned[j]).0,
            time_ranges_of(line@) == got + ranges_from(line@, scanned, k as int),
            ranges@.len() == got.len(),
            forall|j: int|
                0 <= j < ranges@.len() ==> (#[trigger] ranges@[j]).0@ == minute_time(
                    got[j].0.0,
                    got[j].0.1,
                ) && ranges@[j].1@ == minute_time(got[j].1.0, got[j].1.1),
        decreases times@.len() - k,
    {
        let (first_end, first) = times[k];
        let (second_end, second) = times[k + 1];
        let ghost a = scanned[k as int];
        let ghost b = scanned[k as int + 1];
        assert(first_end < second_end);
        if range_separator(line, first_end, second_end)
            && first.nanos_since_midnight() < second.nanos_since_midnight() {
            proof {
                got = got.push(((a.1, a.2), (b.1, b.2)));
            }
            ranges.push((first, second));
        }
        k = k + 1;
    }
    proof {
        assert(got + ranges_from(line@, scanned, k as int) =~= got);
    }
    ranges
}

// --------------------------------------------------------------------------------- labels

/// The published session names the mapping reads, in the order they are tried: a name
/// that contains another is tried first.
pub open spec fn label_word(k: int) -> Seq<char> {
    if k == 0 {
        "开盘集合竞价"@
    } else if k == 1 {
        "收盘集合竞价"@
    } else if k == 2 {
        "连续竞价"@
    } else if k == 3 {
        "盘后固定价格交易"@
    } else if k == 4 {
        "午间休市"@
    } else if k == 5 {
        "中午休市"@
    } else {
        "集合竞价"@
    }
}

/// The phase each published session name maps to. This mapping is our reading, not the
/// venue's wording, and it is the whole of what is asserted about the venue.
pub open spec fn label_phase(k: int) -> Phase {
    if k == 0 {
        Phase::OpeningAuction
    } else if k == 1 {
        Phase::ClosingAuction
    } else if k == 2 {
        Phase::ContinuousTrading
    } else if k == 3 {
        Phase::PostClose
    } else if k == 4 || k == 5 {
        Phase::MidDayBreak
    } else {
        Phase::OpeningAuction
    }
}

/// The number of published session names.
pub open spec fn label_count() -> int {
    7
}

fn label_text(k: usize) -> (r: &'static str)
    requires
        k < 7,
    ensures
        r@ == label_word(k as int),
{
    if k == 0 {
        "开盘集合竞价"
    } else if k == 1 {
        "收盘集合竞价"
    } else if k == 2 {
        "连续竞价"
    } else if k == 3 {
        "盘后固定价格交易"
    } else if k == 4 {
        "午间休市"
    } else if k == 5 {
        "中午休市"
    } else {
        "集合竞价"
    }
}

fn label_phase_of(k: usize) -> (r: Phase)
    requires
        k < 7,
    ensures
        r == label_phase(k as int),
{
    if k == 0 {
        Phase::OpeningAuction
    } else if k == 1 {
        Phase::ClosingAuction
    } else if k == 2 {
        Phase::ContinuousTrading
    } else if k == 3 {
        Phase::PostClose
    } else if k == 4 || k == 5 {
        Phase::MidDayBreak
    } else {
        Phase::OpeningAuction
    }
}

/// Whether `needle` occurs in `hay`.
pub open spec fn contains_word(hay: Seq<char>, needle: Seq<char>) -> bool {
    exists|i: int| 0 <= i && i + needle.len() <= hay.len() && #[trigger] hay.subrange(i, i + needle.len()) == needle
}

/// The first published session name, from the `k`-th on, that a line contains; the
/// count of names when it contains none.
pub open spec fn first_label_from(line: Seq<char>, k: int) -> int
    decreases label_count() - k,
{
    if k < 0 || k >= label_count() {
        label_count()
    } else if contains_word(line, label_word(k)) {
        k
    } else {
        first_label_from(line, k + 1)
    }
}

fn occurs_in(hay: &Vec<char>, needle: &Vec<char>) -> (r: bool)
    ensures
        r == contains_word(hay@, needle@),
{
    let n = hay.len();
    let m = needle.len();
    if m > n {
        return false;
    }
    let last = n - m;
    let mut i: usize = 0;
    loop
        invariant
            n == hay@.len(),
            m == needle@.len(),
            last == n - m,
            i <= last,
            forall|j: int| 0 <= j < i ==> #[trigger] hay@.subrange(j, j + m) != needle@,
        decreases last - i,
    {
        if slice_matches(hay, i, needle) {
            return true;
        }
        if i == last {
            proof {
                if contains_word(hay@, needle@) {
                    let j = choose|j: int| 0 <= j && j + needle@.len() <= hay@.len() && #[trigger] hay@.subrange(j, j + needle@.len()) == needle@;
                    assert(j <= last);
                }
            }
            return false;
        }
        i = i + 1;
    }
}

fn slice_matches(hay: &Vec<char>, at: usize, needle: &Vec<char>) -> (r: bool)
    requires
        at + needle@.len() <= hay@.len(),
    ensures
        r == (hay@.subrange(at as int, at + needle@.len()) == needle@),
{
    let m = needle.len();
    let n = hay.len();
    let mut j: usize = 0;
    while j < m
        invariant
            m == needle@.len(),
            n == hay@.len(),
            at + m <= n,
            j <= m,
            forall|k: int| 0 <= k < j ==> hay@[at + k] == needle@[k],
        decreases m - j,
    {
        if hay[at + j] != needle[j] {
            assert(hay@.subrange(at as int, at + m)[j as int] != needle@[j as int]);
            return false;
        }
        j = j + 1;
    }
    assert(hay@.subrange(at as int, at + m) =~= needle@);
    true
}

/// The first published session name a line contains, by its place in the mapping.
fn line_label(line: &Vec<char>) -> (r: usize)
    ensures
        r == first_label_from(line@, 0),
{
    let mut k: usize = 0;
    while k < 7
        invariant
            k <= 7,
            first_label_from(line@, 0) == first_label_from(line@, k as int),
        decreases 7 - k,
    {
        let word = chars_of(label_text(k));
        if occurs_in(line, &word) {
            return k;
        }
        k = k + 1;
    }
    7
}

// ------------------------------------------------------------------------------- sessions

/// One published session, as the document names it.
#[derive(Debug, Clone, PartialEq, Eq)]
pub struct PublishedSession {
    /// The venue's own label for the session, kept verbatim.
    pub label: String,
    /// The phase it maps to in the shared vocabulary.
    pub phase: Phase,
    /// Local start, inclusive.
    pub start: CivilTime,
    /// Local end, exclusive.
    pub end: CivilTime,
}

/// A published session by its label's text and its times of day.
pub struct SessionView {
    pub label: Seq<char>,
    pub phase: Phase,
    pub start: (int, int, int, int),
    pub end: (int, int, int, int),
}

impl View for PublishedSession {
    type V = SessionView;

    open spec fn view(&self) -> SessionView {
        SessionView { label: self.label@, phase: self.phase, start: self.start@, end: self.end@ }
    }
}

/// Sessions by their views.
pub open spec fn session_views(sessions: Seq<PublishedSession>) -> Seq<SessionView> {
    sessions.map_values(|s: PublishedSession| s@)
}

/// The sessions a line publishes: one per time range on it, under the first session name
/// it contains; none when it contains no session name.
pub open spec fn line_sessions(line: Seq<char>) -> Seq<SessionView> {
    let k = first_label_from(line, 0);
    if k >= label_count() {
        Seq::empty()
    } else {
        time_ranges_of(line).map_values(
            |r: ((int, int), (int, int))|
                SessionView {
                    label: label_word(k),
                    phase: label_phase(k),
                    start: minute_time(r.0.0, r.0.1),
                    end: minute_time(r.1.0, r.1.1),
                },
        )
    }
}

/// The sessions a list of lines publishes, line by line.
pub open spec fn sessions_in(lines: Seq<Seq<char>>) -> Seq<SessionView>
    decreases lines.len(),
{
    if lines.len() == 0 {
        Seq::empty()
    } else {
        line_sessions(lines[0]) + sessions_in(lines.drop_first())
    }
}

/// Appends the sessions a line publishes.
fn push_line_sessions(out: &mut Vec<PublishedSession>, line: &Vec<char>)
    ensures
        session_views(final(out)@) == session_views(old(out)@) + line_sessions(line@),
{
    let k = line_label(line);
    if k >= 7 {
        assert(session_views(out@) =~= session_views(out@) + line_sessions(line@));
        return;
    }
    let ranges = time_ranges(line);
    let ghost start = session_views(out@);
    let ghost wanted = line_sessions(line@);
    let mut i: usize = 0;
    while i < ranges.len()
        invariant
            k < 7,
            k == first_label_from(line@, 0),
            wanted == line_sessions(line@),
            ranges@.len() == time_ranges_of(line@).len(),
            forall|j: int|
                0 <= j < ranges@.len() ==> (#[trigger] ranges@[j]).0@ == minute_time(
                    time_ranges_of(line@)[j].0.0,
                    time_ranges_of(line@)[j].0.1,
                ) && ranges@[j].1@ == minute_time(
                    time_ranges_of(line@)[j].1.0,
                    time_ranges_of(line@)[j].1.1,
                ),
            i <= ranges@.len(),
            session_views(out@) == start + wanted.subrange(0, i as int),
        decreases ranges@.len() - i,
    {
        let (first, second) = ranges[i];
        let session = PublishedSession {
            label: String::from_str(label_text(k)),
            phase: label_phase_of(k),
            start: first,
            end: second,
        };
        let ghost before = out@;
        proof {
            let ranges_spec = time_ranges_of(line@);
            assert(wanted == ranges_spec.map_values(
                |r: ((int, int), (int, int))|
                    SessionView {
                        label: label_word(k as int),
                        phase: label_phase(k as int),
                        start: minute_time(r.0.0, r.0.1),
                        end: minute_time(r.1.0, r.1.1),
                    },
            ));
            assert(wanted[i as int] == session@);
        }
        out.push(session);
        assert(session_views(out@) =~= session_views(before).push(session@));
        assert(session_views(out@) =~= start + wanted.subrange(0, i + 1));
        i = i + 1;
    }
    assert(wanted.subrange(0, i as int) =~= wanted);
}

/// The sessions published in a text, line by line, in the order they are written.
fn sessions_of_text(text: &Vec<char>) -> (r: Vec<PublishedSession>)
    ensures
        session_views(r@) == sessions_in(lines_of(text@)),
{
    let n = text.len();
    let mut out: Vec<PublishedSession> = Vec::new();
    let mut pos: usize = 0;
    while pos < n
        invariant
            n == text@.len(),
            pos <= n,
            sessions_in(lines_of(text@)) == session_views(out@) + sessions_in(lines_from(text@, pos as int)),
        decreases n - pos,
    {
        let mut end = pos;
        proof {
            lemma_line_end_bounds(text@, pos as int);
        }
        while end < n && text[end] != '\n'
            invariant
                n == text@.len(),
                pos <= end <= n,
                line_end(text@, pos as int) == line_end(text@, end as int),
            decreases n - end,
        {
            end = end + 1;
        }
        assert(end == line_end(text@, pos as int));
        let mut line: Vec<char> = Vec::new();
        let mut i = pos;
        while i < end
            invariant
                pos <= i <= end <= n,
                n == text@.len(),
                line@ == text@.subrange(pos as int, i as int),
            decreases end - i,
        {
            line.push(text[i]);
            i = i + 1;
            assert(line@ =~= text@.subrange(pos as int, i as int));
        }
        if end < n && line.len() > 0 && line[line.len() - 1] == '\r' {
            line.pop();
        }
        let ghost piece = line@;
        let ghost rest = if end < n {
            lines_from(text@, end + 1)
        } else {
            Seq::<Seq<char>>::empty()
        };
        proof {
            if end < n {
                assert(piece == without_cr(text@.subrange(pos as int, end as int)));
            }
            assert(lines_from(text@, pos as int) == seq![piece] + rest);
            assert((seq![piece] + rest).drop_first() =~= rest);
            assert(sessions_in(seq![piece] + rest) == line_sessions(piece) + sessions_in(rest));
        }
        push_line_sessions(&mut out, &line);
        proof {
            assert(sessions_in(lines_of(text@)) =~= session_views(out@) + sessions_in(rest));
        }
        if end < n {
            pos = end + 1;
        } else {
            pos = n;
            proof {
                assert(lines_from(text@, n as int) =~= Seq::<Seq<char>>::empty());
            }
        }
    }
    proof {
        assert(sessions_in(lines_from(text@, pos as int)) =~= Seq::<SessionView>::empty());
        assert(session_views(out@) + Seq::<SessionView>::empty() =~= session_views(out@));
    }
    out
}

// -------------------------------------------------------------------- order and overlap

/// Where a session starts, in nanoseconds since midnight.
pub open spec fn start_key(s: SessionView) -> int {
    nanos_of_day(s.start.0, s.start.1, s.start.2, s.start.3)
}

/// Where a session ends, in nanoseconds since midnight.
pub open spec fn end_key(s: SessionView) -> int {
    nanos_of_day(s.end.0, s.end.1, s.end.2, s.end.3)
}

/// A session put into a list ordered by start, after every session that starts no later.
pub open spec fn insert_by_start(sorted: Seq<SessionView>, x: SessionView) -> Seq<SessionView>
    decreases sorted.len(),
{
    if sorted.len() == 0 {
        seq![x]
    } else if start_key(sorted.last()) <= start_key(x) {
        sorted.push(x)
    } else {
        insert_by_start(sorted.drop_last(), x).push(sorted.last())
    }
}

/// Sessions ordered by start; sessions that start together keep the order they were
/// written in.
pub open spec fn sort_by_start(s: Seq<SessionView>) -> Seq<SessionView>
    decreases s.len(),
{
    if s.len() == 0 {
        s
    } else {
        insert_by_start(sort_by_start(s.drop_last()), s.last())
    }
}

/// The first place, from `k` on, where a session starts before the one before it ends;
/// -1 when there is none.
pub open spec fn first_overlap_from(s: Seq<SessionView>, k: int) -> int
    decreases s.len() - k,
{
    if k < 0 || k + 1 >= s.len() {
        -1
    } else if start_key(s[k + 1]) < end_key(s[k]) {
        k
    } else {
        first_overlap_from(s, k + 1)
    }
}

/// Puts `x` into `out`, which is ordered by start, after every session starting no later.
fn insert_session(out: &mut Vec<PublishedSession>, x: PublishedSession)
    ensures
        session_views(final(out)@) == insert_by_start(session_views(old(out)@), x@),
{
    let ghost sorted = session_views(out@);
    let key = x.start.nanos_since_midnight();
    let mut j = out.len();
    proof {
        assert(sorted.subrange(0, j as int) =~= sorted);
        assert(insert_by_start(sorted, x@) + sorted.subrange(j as int, sorted.len() as int)
            =~= insert_by_start(sorted, x@));
    }
    while j > 0 && out[j - 1].start.nanos_since_midnight() > key
        invariant
            j <= out@.len(),
            sorted == session_views(out@),
            key == start_key(x@),
            insert_by_start(sorted, x@) == insert_by_start(sorted.subrange(0, j as int), x@) + sorted.subrange(
                j as int,
                sorted.len() as int,
            ),
        decreases j,
    {
        let ghost prefix = sorted.subrange(0, j as int);
        assert(prefix.drop_last() =~= sorted.subrange(0, j - 1));
        assert(prefix.last() == sorted[j - 1]);
        assert(insert_by_start(prefix, x@) == insert_by_start(sorted.subrange(0, j - 1), x@).push(
            sorted[j - 1],
        ));
        assert(sorted.subrange(j - 1, sorted.len() as int) =~= seq![sorted[j - 1]] + sorted.subrange(
            j as int,
            sorted.len() as int,
        ));
        assert(insert_by_start(sorted.subrange(0, j - 1), x@).push(sorted[j - 1]) + sorted.subrange(
            j as int,
            sorted.len() as int,
        ) =~= insert_by_start(sorted.subrange(0, j - 1), x@) + sorted.subrange(
            j - 1,
            sorted.len() as int,
        ));
        j = j - 1;
    }
    proof {
        let prefix = sorted.subrange(0, j as int);
        if j > 0 {
            assert(prefix.last() == sorted[j - 1]);
        }
        assert(insert_by_start(prefix, x@) =~= prefix.push(x@));
    }
    let ghost before = out@;
    out.insert(j, x);
    assert(session_views(out@) =~= sorted.subrange(0, j as int).push(x@) + sorted.subrange(
        j as int,
        sorted.len() as int,
    ));
}

/// Sessions ordered by start, keeping the written order among those that start together.
fn sort_sessions(sessions: Vec<PublishedSession>) -> (r: Vec<PublishedSession>)
    ensures
        session_views(r@) == sort_by_start(session_views(sessions@)),
{
    let ghost all = session_views(sessions@);
    let mut rest = sessions;
    let mut out: Vec<PublishedSession> = Vec::new();
    let ghost mut taken: int = 0;
    while rest.len() > 0
        invariant
            0 <= taken <= all.len(),
            session_views(rest@) == all.subrange(taken, all.len() as int),
            session_views(out@) == sort_by_start(all.subrange(0, taken)),
        decreases rest@.len(),
    {
        let ghost before_rest = rest@;
        let x = rest.remove(0);
        proof {
            assert(x@ == session_views(before_rest)[0]);
            assert(session_views(rest@) =~= session_views(before_rest).drop_first());
            assert(all.subrange(0, taken + 1).drop_last() =~= all.subrange(0, taken));
            assert(all.subrange(0, taken + 1).last() == all[taken]);
        }
        insert_session(&mut out, x);
        proof {
            taken = taken + 1;
            assert(session_views(rest@) =~= all.subrange(taken, all.len() as int));
        }
    }
    proof {
        assert(all.subrange(0, taken) =~= all);
    }
    out
}

/// The first place where a session starts before the one before it ends, if any.
fn find_overlap(sessions: &Vec<PublishedSession>) -> (r: Option<usize>)
    ensures
        match r {
            Some(k) => k == first_overlap_from(session_views(sessions@), 0),
            None => first_overlap_from(session_views(sessions@), 0) == -1,
        },
{
    let ghost views = session_views(sessions@);
    let mut k: usize = 0;
    while k < sessions.len() && k + 1 < sessions.len()
        invariant
            views == session_views(sessions@),
            first_overlap_from(views, 0) == first_overlap_from(views, k as int),
        decreases sessions@.len() - k,
    {
        if sessions[k + 1].start.nanos_since_midnight() < sessions[k].end.nanos_since_midnight() {
            return Some(k);
        }
        k = k + 1;
    }
    None
}

// --------------------------------------------------------------------------------- errors

/// Why an SSE-shaped document could not be read.
#[derive(Debug, Clone, PartialEq, Eq)]
pub enum SseError {
    /// The document is not UTF-8 text.
    NotText,
    /// No session the mapping recognises was found.
    NoSessions,
    /// Two parsed sessions overlap.
    Overlapping {
        /// The earlier session's label.
        first: String,
        /// The later session's label.
        second: String,
    },
    /// Intervals between published sessions have no ruling.
    UnassignedIntervals {
        /// The intervals, in local time.
        intervals: Vec<String>,
    },
}

// ---------------------------------------------------------------------------- reading

/// What reading a document's text gives: its sessions ordered by start, unless there are
/// none or two of them overlap.
pub open spec fn sessions_outcome(text: Seq<char>) -> Result<Seq<SessionView>, (int, Seq<SessionView>)> {
    let sorted = sort_by_start(sessions_in(lines_of(text)));
    if sorted.len() == 0 {
        Err((-1, sorted))
    } else if first_overlap_from(sorted, 0) >= 0 {
        Err((first_overlap_from(sorted, 0), sorted))
    } else {
        Ok(sorted)
    }
}

/// Reads the published sessions out of a fetched document.
///
/// A line that names a session (by the first name of the mapping it contains) yields one
/// session per time range on it: two times such as `9:15 至 9:25`, `9:15-9:25` or
/// `09:15–09:25`, the first earlier than the second. Sessions come back ordered by start.
/// A document that is not UTF-8 is `NotText`; one with no recognisable session is
/// `NoSessions`, which means it changed shape and a person needs to look; two sessions
/// where one starts before the other ends are `Overlapping`, naming both.
pub fn parse_sessions(document: &crate::fetch::FetchedDocument) -> (r: Result<
    Vec<PublishedSession>,
    SseError,
>)
    ensures
        match crate::fetch::utf8_decode(document.spec_bytes()) {
            None => r == Err::<Vec<PublishedSession>, SseError>(SseError::NotText),
            Some(text) => match sessions_outcome(text) {
                Ok(sorted) => r matches Ok(sessions) && session_views(sessions@) == sorted,
                Err((k, sorted)) => if k < 0 {
                    r == Err::<Vec<PublishedSession>, SseError>(SseError::NoSessions)
                } else {
                    r matches Err(SseError::Overlapping { first, second }) && first@ == sorted[k].label
                        && second@ == sorted[k + 1].label
                },
            },
        },
{
    let text = match document.text() {
        Ok(text) => text,
        Err(_) => return Err(SseError::NotText),
    };
    let chars = chars_of(text);
    let collected = sessions_of_text(&chars);
    let sorted = sort_sessions(collected);
    if sorted.len() == 0 {
        return Err(SseError::NoSessions);
    }
    match find_overlap(&sorted) {
        Some(k) => {
            proof {
                lemma_first_overlap_in_range(session_views(sorted@), 0);
            }
            Err(SseError::Overlapping {
                first: sorted[k].label.clone(),
                second: sorted[k + 1].label.clone(),
            })
        },
        None => Ok(sorted),
    }
}

/// A place where sessions overlap has a session after it.
proof fn lemma_first_overlap_in_range(s: Seq<SessionView>, k: int)
    requires
        0 <= k,
    ensures
        first_overlap_from(s, k) >= 0 ==> k <= first_overlap_from(s, k) && first_overlap_from(s, k)
            + 1 < s.len(),
    decreases s.len() - k,
{
    if k + 1 < s.len() && !(start_key(s[k + 1]) < end_key(s[k])) {
        lemma_first_overlap_in_range(s, k + 1);
    }
}

// ------------------------------------------------------------------------- day schedule

/// A ruling on an interval the published table leaves unassigned. The reasoning is
/// required, and it ends up on the rule as a derivation note: an interval settled
/// "because it is obvious" is not settled.
#[derive(Debug, Clone, PartialEq, Eq)]
pub struct GapRuling {
    /// Start of the interval this ruling covers.
    pub start: CivilTime,
    /// End of the interval.
    pub end: CivilTime,
    /// The phase it takes.
    pub phase: Phase,
    /// Why, in enough detail that a reader can check it against the source.
    pub reasoning: String,
}

/// A time of day by its view, in nanoseconds since midnight.
pub open spec fn time_key(t: (int, int, int, int)) -> int {
    nanos_of_day(t.0, t.1, t.2, t.3)
}

/// A stretch of the day and the phase it is in: (start, end, phase).
pub type SpanView = ((int, int, int, int), (int, int, int, int), Phase);

/// A point where a phase opens or a session closes: (time, phase, whether it opens).
pub type TransitionView = ((int, int, int, int), Phase, bool);

/// Whether a ruling covers the gap from `start` to `end` (nanoseconds since midnight).
pub open spec fn ruling_covers(r: GapRuling, start: int, end: int) -> bool {
    time_key(r.start@) <= start && time_key(r.end@) >= end
}

/// The first ruling, from the `k`-th on, covering a gap; the number of rulings when none does.
pub open spec fn first_ruling_from(rulings: Seq<GapRuling>, start: int, end: int, k: int) -> int
    decreases rulings.len() - k,
{
    if k < 0 || k >= rulings.len() {
        rulings.len() as int
    } else if ruling_covers(rulings[k], start, end) {
        k
    } else {
        first_ruling_from(rulings, start, end, k + 1)
    }
}

/// The gap after the `k`-th session: from its end to the next session's start.
pub open spec fn gap_after(sessions: Seq<SessionView>, k: int) -> ((int, int, int, int), (int, int, int, int)) {
    (sessions[k].end, sessions[k + 1].start)
}

/// A gap between consecutive sessions that is really there: the next starts after this
/// one ends.
pub open spec fn is_gap(sessions: Seq<SessionView>, k: int) -> bool {
    time_key(gap_after(sessions, k).0) < time_key(gap_after(sessions, k).1)
}

/// Whether a ruling settles the gap after the `k`-th session.
pub open spec fn gap_ruled(sessions: Seq<SessionView>, rulings: Seq<GapRuling>, k: int) -> bool {
    let g = gap_after(sessions, k);
    first_ruling_from(rulings, time_key(g.0), time_key(g.1), 0) < rulings.len()
}

/// The gaps from the `k`-th session on that a ruling settles, each with the phase of the
/// first ruling that covers it.
pub open spec fn ruled_gaps_from(sessions: Seq<SessionView>, rulings: Seq<GapRuling>, k: int) -> Seq<SpanView>
    decreases sessions.len() - k,
{
    if k < 0 || k + 1 >= sessions.len() {
        Seq::empty()
    } else {
        let g = gap_after(sessions, k);
        let rest = ruled_gaps_from(sessions, rulings, k + 1);
        if is_gap(sessions, k) && gap_ruled(sessions, rulings, k) {
            let i = first_ruling_from(rulings, time_key(g.0), time_key(g.1), 0);
            seq![(g.0, g.1, rulings[i].phase)] + rest
        } else {
            rest
        }
    }
}

/// The gaps from the `k`-th session on that no ruling settles, as `start–end` texts.
pub open spec fn unruled_gaps_from(sessions: Seq<SessionView>, rulings: Seq<GapRuling>, k: int) -> Seq<Seq<char>>
    decreases sessions.len() - k,
{
    if k < 0 || k + 1 >= sessions.len() {
        Seq::empty()
    } else {
        let g = gap_after(sessions, k);
        let rest = unruled_gaps_from(sessions, rulings, k + 1);
        if is_gap(sessions, k) && !gap_ruled(sessions, rulings, k) {
            seq![
                crate::civil::time_of_day_text(g.0.0, g.0.1, g.0.2, g.0.3) + "–"@
                    + crate::civil::time_of_day_text(g.1.0, g.1.1, g.1.2, g.1.3),
            ] + rest
        } else {
            rest
        }
    }
}

/// The stretches the sessions themselves assign.
pub open spec fn session_spans(sessions: Seq<SessionView>) -> Seq<SpanView> {
    sessions.map_values(|s: SessionView| (s.start, s.end, s.phase))
}

/// An item put into a list ordered by `key`, after every item whose key is no greater.
pub open spec fn insert_by<T>(sorted: Seq<T>, x: T, key: spec_fn(T) -> int) -> Seq<T>
    decreases sorted.len(),
{
    if sorted.len() == 0 {
        seq![x]
    } else if key(sorted.last()) <= key(x) {
        sorted.push(x)
    } else {
        insert_by(sorted.drop_last(), x, key).push(sorted.last())
    }
}

/// A list ordered by `key`; items with equal keys keep their order.
pub open spec fn sort_by<T>(s: Seq<T>, key: spec_fn(T) -> int) -> Seq<T>
    decreases s.len(),
{
    if s.len() == 0 {
        s
    } else {
        insert_by(sort_by(s.drop_last(), key), s.last(), key)
    }
}

/// Orders stretches by start.
pub open spec fn span_key() -> spec_fn(SpanView) -> int {
    |s: SpanView| time_key(s.0)
}

/// Orders transitions by time, an opening before a closing at the same time.
pub open spec fn transition_key() -> spec_fn(TransitionView) -> int {
    |t: TransitionView| time_key(t.0) * 2 + if t.2 {
        0int
    } else {
        1int
    }
}

/// Each stretch opens its phase at its start and closes at its end.
pub open spec fn transition_pairs(spans: Seq<SpanView>) -> Seq<TransitionView>
    decreases spans.len(),
{
    if spans.len() == 0 {
        Seq::empty()
    } else {
        let s = spans.last();
        transition_pairs(spans.drop_last()) + seq![(s.0, s.2, true), (s.1, Phase::Closed, false)]
    }
}

/// Keeps the first of each run of transitions at the same time.
pub open spec fn first_at_each_time(s: Seq<TransitionView>) -> Seq<TransitionView>
    decreases s.len(),
{
    if s.len() == 0 {
        s
    } else {
        let kept = first_at_each_time(s.drop_last());
        if kept.len() > 0 && time_key(kept.last().0) == time_key(s.last().0) {
            kept
        } else {
            kept.push(s.last())
        }
    }
}

/// Keeps the first of each run of transitions into the same phase.
pub open spec fn first_of_each_phase(s: Seq<TransitionView>) -> Seq<TransitionView>
    decreases s.len(),
{
    if s.len() == 0 {
        s
    } else {
        let kept = first_of_each_phase(s.drop_last());
        if kept.len() > 0 && kept.last().1 == s.last().1 {
            kept
        } else {
            kept.push(s.last())
        }
    }
}

/// The change points a table of sessions and rulings makes: the day is closed at
/// midnight, each stretch opens its phase at its start and closes at its end, an opening
/// wins over a closing at the same time, the first change at each time is kept, and a
/// change into the phase already in force is dropped.
pub open spec fn schedule_points(sessions: Seq<SessionView>, rulings: Seq<GapRuling>) -> Seq<TransitionView> {
    let spans = sort_by(session_spans(sessions) + ruled_gaps_from(sessions, rulings, 0), span_key());
    let transitions = seq![((0int, 0int, 0int, 0int), Phase::Closed, false)] + transition_pairs(spans);
    first_of_each_phase(first_at_each_time(sort_by(transitions, transition_key())))
}

/// A time of day as `HH:MM`.
pub open spec fn hour_minute_text(t: (int, int, int, int)) -> Seq<char> {
    crate::text::zero_padded(crate::text::decimal_of(t.0 as nat), 2) + ":"@
        + crate::text::zero_padded(crate::text::decimal_of(t.1 as nat), 2)
}

/// Stretches by their views.
pub open spec fn span_views(v: Seq<(CivilTime, CivilTime, Phase)>) -> Seq<SpanView> {
    v.map_values(|t: (CivilTime, CivilTime, Phase)| (t.0@, t.1@, t.2))
}

/// Transitions by their views.
pub open spec fn transition_views(v: Seq<(CivilTime, Phase, bool)>) -> Seq<TransitionView> {
    v.map_values(|t: (CivilTime, Phase, bool)| (t.0@, t.1, t.2))
}

/// The first ruling covering the gap from `start` to `end`.
fn find_ruling(rulings: &[GapRuling], start: i64, end: i64) -> (r: usize)
    ensures
        r == first_ruling_from(rulings@, start as int, end as int, 0),
{
    let mut k: usize = 0;
    while k < rulings.len()
        invariant
            k <= rulings@.len(),
            first_ruling_from(rulings@, start as int, end as int, 0) == first_ruling_from(
                rulings@,
                start as int,
                end as int,
                k as int,
            ),
        decreases rulings@.len() - k,
    {
        if rulings[k].start.nanos_since_midnight() <= start && rulings[k].end.nanos_since_midnight() >= end {
            return k;
        }
        k = k + 1;
    }
    k
}

/// Puts a stretch into a list ordered by start, after every stretch starting no later.
fn insert_span(out: &mut Vec<(CivilTime, CivilTime, Phase)>, x: (CivilTime, CivilTime, Phase))
    ensures
        span_views(final(out)@) == insert_by(span_views(old(out)@), (x.0@, x.1@, x.2), span_key()),
{
    let ghost sorted = span_views(out@);
    let ghost xv: SpanView = (x.0@, x.1@, x.2);
    let key = x.0.nanos_since_midnight();
    let mut j = out.len();
    proof {
        assert(sorted.subrange(0, j as int) =~= sorted);
        assert(insert_by(sorted, xv, span_key()) + sorted.subrange(j as int, sorted.len() as int)
            =~= insert_by(sorted, xv, span_key()));
    }
    while j > 0 && out[j - 1].0.nanos_since_midnight() > key
        invariant
            j <= out@.len(),
            sorted == span_views(out@),
            key == time_key(xv.0),
            insert_by(sorted, xv, span_key()) == insert_by(sorted.subrange(0, j as int), xv, span_key())
                + sorted.subrange(j as int, sorted.len() as int),
        decreases j,
    {
        let ghost prefix = sorted.subrange(0, j as int);
        assert(prefix.drop_last() =~= sorted.subrange(0, j - 1));
        assert(prefix.last() == sorted[j - 1]);
        assert(insert_by(prefix, xv, span_key()) == insert_by(sorted.subrange(0, j - 1), xv, span_key()).push(
            sorted[j - 1],
        ));
        assert(insert_by(sorted.subrange(0, j - 1), xv, span_key()).push(sorted[j - 1]) + sorted.subrange(
            j as int,
            sorted.len() as int,
        ) =~= insert_by(sorted.subrange(0, j - 1), xv, span_key()) + sorted.subrange(
            j - 1,
            sorted.len() as int,
        ));
        j = j - 1;
    }
    proof {
        let prefix = sorted.subrange(0, j as int);
        if j > 0 {
            assert(prefix.last() == sorted[j - 1]);
        }
        assert(insert_by(prefix, xv, span_key()) =~= prefix.push(xv));
    }
    out.insert(j, x);
    assert(span_views(out@) =~= sorted.subrange(0, j as int).push(xv) + sorted.subrange(
        j as int,
        sorted.len() as int,
    ));
}

/// Stretches ordered by start, keeping their order among those that start together.
fn sort_spans(spans: Vec<(CivilTime, CivilTime, Phase)>) -> (r: Vec<(CivilTime, CivilTime, Phase)>)
    ensures
        span_views(r@) == sort_by(span_views(spans@), span_key()),
{
    let ghost all = span_views(spans@);
    let mut rest = spans;
    let mut out: Vec<(CivilTime, CivilTime, Phase)> = Vec::new();
    let ghost mut taken: int = 0;
    while rest.len() > 0
        invariant
            0 <= taken <= all.len(),
            span_views(rest@) == all.subrange(taken, all.len() as int),
            span_views(out@) == sort_by(all.subrange(0, taken), span_key()),
        decreases rest@.len(),
    {
        let ghost before_rest = rest@;
        let x = rest.remove(0);
        proof {
            assert((x.0@, x.1@, x.2) == span_views(before_rest)[0]);
            assert(span_views(rest@) =~= span_views(before_rest).drop_first());
            assert(all.subrange(0, taken + 1).drop_last() =~= all.subrange(0, taken));
            assert(all.subrange(0, taken + 1).last() == all[taken]);
        }
        insert_span(&mut out, x);
        proof {
            taken = taken + 1;
            assert(span_views(rest@) =~= all.subrange(taken, all.len() as int));
        }
    }
    proof {
        assert(all.subrange(0, taken) =~= all);
    }
    out
}

/// The sort key of a transition.
fn transition_order(t: &(CivilTime, Phase, bool)) -> (r: i64)
    ensures
        r == transition_key()((t.0@, t.1, t.2)),
{
    t.0.check_valid();
    let at = t.0.nanos_since_midnight();
    if t.2 {
        at * 2
    } else {
        at * 2 + 1
    }
}

/// Puts a transition into a list ordered by time, openings first.
fn insert_transition(out: &mut Vec<(CivilTime, Phase, bool)>, x: (CivilTime, Phase, bool))
    ensures
        transition_views(final(out)@) == insert_by(transition_views(old(out)@), (x.0@, x.1, x.2), transition_key()),
{
    let ghost sorted = transition_views(out@);
    let ghost xv: TransitionView = (x.0@, x.1, x.2);
    let key = transition_order(&x);
    let mut j = out.len();
    proof {
        assert(sorted.subrange(0, j as int) =~= sorted);
        assert(insert_by(sorted, xv, transition_key()) + sorted.subrange(j as int, sorted.len() as int)
            =~= insert_by(sorted, xv, transition_key()));
    }
    while j > 0 && transition_order(&out[j - 1]) > key
        invariant
            j <= out@.len(),
            sorted == transition_views(out@),
            key == transition_key()(xv),
            insert_by(sorted, xv, transition_key()) == insert_by(sorted.subrange(0, j as int), xv, transition_key())
                + sorted.subrange(j as int, sorted.len() as int),
        decreases j,
    {
        let ghost prefix = sorted.subrange(0, j as int);
        assert(prefix.drop_last() =~= sorted.subrange(0, j - 1));
        assert(prefix.last() == sorted[j - 1]);
        assert(insert_by(prefix, xv, transition_key()) == insert_by(sorted.subrange(0, j - 1), xv, transition_key()).push(
            sorted[j - 1],
        ));
        assert(insert_by(sorted.subrange(0, j - 1), xv, transition_key()).push(sorted[j - 1]) + sorted.subrange(
            j as int,
            sorted.len() as int,
        ) =~= insert_by(sorted.subrange(0, j - 1), xv, transition_key()) + sorted.subrange(
            j - 1,
            sorted.len() as int,
        ));
        j = j - 1;
    }
    proof {
        let prefix = sorted.subrange(0, j as int);
        if j > 0 {
            assert(prefix.last() == sorted[j - 1]);
        }
        assert(insert_by(prefix, xv, transition_key()) =~= prefix.push(xv));
    }
    out.insert(j, x);
    assert(transition_views(out@) =~= sorted.subrange(0, j as int).push(xv) + sorted.subrange(
        j as int,
        sorted.len() as int,
    ));
}

/// Transitions ordered by time, openings first, keeping their order otherwise.
fn sort_transitions(transitions: Vec<(CivilTime, Phase, bool)>) -> (r: Vec<(CivilTime, Phase, bool)>)
    ensures
        transition_views(r@) == sort_by(transition_views(transitions@), transition_key()),
{
    let ghost all = transition_views(transitions@);
    let mut rest = transitions;
    let mut out: Vec<(CivilTime, Phase, bool)> = Vec::new();
    let ghost mut taken: int = 0;
    while rest.len() > 0
        invariant
            0 <= taken <= all.len(),
            transition_views(rest@) == all.subrange(taken, all.len() as int),
            transition_views(out@) == sort_by(all.subrange(0, taken), transition_key()),
        decreases rest@.len(),
    {
        let ghost before_rest = rest@;
        let x = rest.remove(0);
        proof {
            assert((x.0@, x.1, x.2) == transition_views(before_rest)[0]);
            assert(transition_views(rest@) =~= transition_views(before_rest).drop_first());
            assert(all.subrange(0, taken + 1).drop_last() =~= all.subrange(0, taken));
            assert(all.subrange(0, taken + 1).last() == all[taken]);
        }
        insert_transition(&mut out, x);
        proof {
            taken = taken + 1;
            assert(transition_views(rest@) =~= all.subrange(taken, all.len() as int));
        }
    }
    proof {
        assert(all.subrange(0, taken) =~= all);
    }
    out
}

/// Keeps the first transition at each time.
fn keep_first_at_each_time(s: &Vec<(CivilTime, Phase, bool)>) -> (r: Vec<(CivilTime, Phase, bool)>)
    ensures
        transition_views(r@) == first_at_each_time(transition_views(s@)),
{
    let ghost all = transition_views(s@);
    let mut kept: Vec<(CivilTime, Phase, bool)> = Vec::new();
    let mut i: usize = 0;
    while i < s.len()
        invariant
            i <= s@.len(),
            all == transition_views(s@),
            transition_views(kept@) == first_at_each_time(all.subrange(0, i as int)),
        decreases s@.len() - i,
    {
        proof {
            assert(all.subrange(0, i + 1).drop_last() =~= all.subrange(0, i as int));
            assert(all.subrange(0, i + 1).last() == all[i as int]);
        }
        let at = s[i].0.nanos_since_midnight();
        let n = kept.len();
        if n > 0 && kept[n - 1].0.nanos_since_midnight() == at {
        } else {
            let ghost before = kept@;
            kept.push(s[i]);
            assert(transition_views(kept@) =~= transition_views(before).push(all[i as int]));
        }
        i = i + 1;
    }
    assert(all.subrange(0, i as int) =~= all);
    kept
}

/// Keeps the first transition of each run into the same phase.
fn keep_first_of_each_phase(s: &Vec<(CivilTime, Phase, bool)>) -> (r: Vec<(CivilTime, Phase, bool)>)
    ensures
        transition_views(r@) == first_of_each_phase(transition_views(s@)),
{
    let ghost all = transition_views(s@);
    let mut kept: Vec<(CivilTime, Phase, bool)> = Vec::new();
    let mut i: usize = 0;
    while i < s.len()
        invariant
            i <= s@.len(),
            all == transition_views(s@),
            transition_views(kept@) == first_of_each_phase(all.subrange(0, i as int)),
        decreases s@.len() - i,
    {
        proof {
            assert(all.subrange(0, i + 1).drop_last() =~= all.subrange(0, i as int));
            assert(all.subrange(0, i + 1).last() == all[i as int]);
        }
        let n = kept.len();
        if n > 0 && kept[n - 1].1 == s[i].1 {
        } else {
            let ghost before = kept@;
            kept.push(s[i]);
            assert(transition_views(kept@) =~= transition_views(before).push(all[i as int]));
        }
        i = i + 1;
    }
    assert(all.subrange(0, i as int) =~= all);
    kept
}

/// A change point record by its texts.
pub open spec fn point_texts(points: Seq<ChangePointRecord>) -> Seq<(Seq<char>, Seq<char>)> {
    points.map_values(|p: ChangePointRecord| (p.at@, p.phase@))
}

/// The records change points are written as: `HH:MM` and the phase's name.
pub open spec fn points_as_records(points: Seq<TransitionView>) -> Seq<(Seq<char>, Seq<char>)> {
    points.map_values(|t: TransitionView| (hour_minute_text(t.0), phase_text(t.1)))
}

/// A time of day as `HH:MM`.
fn format_hour_minute(t: CivilTime) -> (r: String)
    ensures
        r@ == hour_minute_text(t@),
{
    t.check_valid();
    let mut out = String::new();
    push_zero_padded(&mut out, t.hour() as u128, 2);
    out.append(":");
    push_zero_padded(&mut out, t.minute() as u128, 2);
    proof {
        reveal_strlit(":");
    }
    out
}

/// The gap text `start–end` in the venue's local time.
fn gap_text(start: CivilTime, end: CivilTime) -> (r: String)
    ensures
        r@ == crate::civil::time_of_day_text(start@.0, start@.1, start@.2, start@.3) + "–"@
            + crate::civil::time_of_day_text(end@.0, end@.1, end@.2, end@.3),
{
    start.check_valid();
    end.check_valid();
    let mut out = time_text(start.hour(), start.minute(), start.second(), start.subsec_nanosecond());
    out.append("–");
    let end_text = time_text(end.hour(), end.minute(), end.second(), end.subsec_nanosecond());
    out.append(end_text.as_str());
    out
}

/// Turns published sessions plus rulings into a day schedule.
///
/// Every gap between consecutive sessions (the next starting after one ends) needs a
/// ruling covering it; the first such ruling gives the gap its phase. When any gap has
/// none, the error lists each unsettled gap, in order: the table does not tile the day and
/// it is not filled by inference. Otherwise the day is closed at midnight and outside
/// every stretch, and the change points are as `schedule_points` describes them.
pub fn day_schedule(sessions: &[PublishedSession], rulings: &[GapRuling]) -> (r: Result<
    Vec<ChangePointRecord>,
    SseError,
>)
    ensures
        ({
            let s = session_views(sessions@);
            let unruled = unruled_gaps_from(s, rulings@, 0);
            match r {
                Ok(points) => {
                    let sp = schedule_points(s, rulings@);
                    &&& unruled.len() == 0
                    &&& point_texts(points@) == points_as_records(sp)
                    &&& sp.len() > 0
                    &&& time_key(sp[0].0) == 0
                    &&& forall|i: int, j: int|
                        0 <= i < j < sp.len() ==> time_key((#[trigger] sp[i]).0) < time_key((#[trigger] sp[j]).0)
                    &&& forall|i: int| 0 <= i < sp.len() - 1 ==> (#[trigger] sp[i]).1 != sp[i + 1].1
                },
                Err(e) => unruled.len() > 0 && (e matches SseError::UnassignedIntervals { intervals }
                    && intervals@.map_values(|t: String| t@) == unruled),
            }
        }),
{
    let ghost views = session_views(sessions@);
    let mut spans: Vec<(CivilTime, CivilTime, Phase)> = Vec::new();
    let mut i: usize = 0;
    while i < sessions.len()
        invariant
            i <= sessions@.len(),
            views == session_views(sessions@),
            span_views(spans@) == session_spans(views.subrange(0, i as int)),
            forall|q: int| 0 <= q < i ==> valid_view((#[trigger] views[q]).start) && valid_view(views[q].end),
        decreases sessions@.len() - i,
    {
        let ghost before = spans@;
        sessions[i].start.check_valid();
        sessions[i].end.check_valid();
        spans.push((sessions[i].start, sessions[i].end, sessions[i].phase));
        proof {
            let v = views[i as int];
            assert(v == sessions@[i as int]@);
            assert(span_views(spans@) =~= span_views(before).push((v.start, v.end, v.phase)));
            assert(session_spans(views.subrange(0, i + 1)) =~= session_spans(views.subrange(0, i as int)).push(
                (v.start, v.end, v.phase),
            ));
        }
        i = i + 1;
    }
    assert(views.subrange(0, i as int) =~= views);
    let ghost session_part = span_views(spans@);
    let mut unassigned: Vec<String> = Vec::new();
    let ghost mut ruled: Seq<SpanView> = Seq::empty();
    let ghost mut unruled: Seq<Seq<char>> = Seq::empty();
    let mut k: usize = 0;
    while k < sessions.len() && k + 1 < sessions.len()
        invariant
            views == session_views(sessions@),
            session_part == session_spans(views),
            span_views(spans@) == session_part + ruled,
            unassigned@.map_values(|t: String| t@) == unruled,
            ruled_gaps_from(views, rulings@, 0) == ruled + ruled_gaps_from(views, rulings@, k as int),
            unruled_gaps_from(views, rulings@, 0) == unruled + unruled_gaps_from(views, rulings@, k as int),
        decreases sessions@.len() - k,
    {
        let gap_start = sessions[k].end;
        let gap_end = sessions[k + 1].start;
        let from = gap_start.nanos_since_midnight();
        let to = gap_end.nanos_since_midnight();
        if from < to {
            let found = find_ruling(rulings, from, to);
            if found < rulings.len() {
                let ghost before = spans@;
                spans.push((gap_start, gap_end, rulings[found].phase));
                proof {
                    ruled = ruled.push((gap_start@, gap_end@, rulings@[found as int].phase));
                    assert(span_views(spans@) =~= span_views(before).push((gap_start@, gap_end@, rulings@[found as int].phase)));
                    assert(ruled_gaps_from(views, rulings@, k as int) =~= seq![(gap_start@, gap_end@, rulings@[found as int].phase)] + ruled_gaps_from(views, rulings@, k + 1));
                }
            } else {
                let text = gap_text(gap_start, gap_end);
                let ghost before = unassigned@;
                unassigned.push(text);
                proof {
                    unruled = unruled.push(text@);
                    assert(unassigned@.map_values(|t: String| t@) =~= before.map_values(|t: String| t@).push(text@));
                }
            }
        }
        k = k + 1;
    }
    proof {
        assert(ruled + ruled_gaps_from(views, rulings@, k as int) =~= ruled);
        assert(unruled + unruled_gaps_from(views, rulings@, k as int) =~= unruled);
    }
    if unassigned.len() > 0 {
        return Err(SseError::UnassignedIntervals { intervals: unassigned });
    }
    let sorted = sort_spans(spans);
    let mut transitions: Vec<(CivilTime, Phase, bool)> = Vec::new();
    transitions.push((CivilTime::midnight(), Phase::Closed, false));
    let ghost sorted_views = span_views(sorted@);
    let ghost head: Seq<TransitionView> = seq![((0int, 0int, 0int, 0int), Phase::Closed, false)];
    assert(transition_views(transitions@) =~= head + transition_pairs(sorted_views.subrange(0, 0)));
    let mut j: usize = 0;
    while j < sorted.len()
        invariant
            j <= sorted@.len(),
            sorted_views == span_views(sorted@),
            transition_views(transitions@) == head + transition_pairs(sorted_views.subrange(0, j as int)),
        decreases sorted@.len() - j,
    {
        let (start, end, phase) = sorted[j];
        let ghost before = transitions@;
        transitions.push((start, phase, true));
        transitions.push((end, Phase::Closed, false));
        proof {
            let sv = sorted_views[j as int];
            assert(sv == (start@, end@, phase));
            assert(sorted_views.subrange(0, j + 1).drop_last() =~= sorted_views.subrange(0, j as int));
            assert(sorted_views.subrange(0, j + 1).last() == sv);
            assert(transition_pairs(sorted_views.subrange(0, j + 1)) == transition_pairs(
                sorted_views.subrange(0, j as int),
            ) + seq![(sv.0, sv.2, true), (sv.1, Phase::Closed, false)]);
            assert(transition_views(transitions@) =~= transition_views(before) + seq![
                (start@, phase, true),
                (end@, Phase::Closed, false),
            ]);
            assert(transition_views(transitions@) =~= head + transition_pairs(sorted_views.subrange(0, j + 1)));
        }
        j = j + 1;
    }
    assert(sorted_views.subrange(0, j as int) =~= sorted_views);
    let ordered = sort_transitions(transitions);
    let at_each_time = keep_first_at_each_time(&ordered);
    let points = keep_first_of_each_phase(&at_each_time);
    let ghost point_views = transition_views(points@);
    let mut records: Vec<ChangePointRecord> = Vec::new();
    let mut p: usize = 0;
    while p < points.len()
        invariant
            p <= points@.len(),
            point_views == transition_views(points@),
            point_texts(records@) == points_as_records(point_views.subrange(0, p as int)),
        decreases points@.len() - p,
    {
        let (at, phase, _) = points[p];
        let ghost before = records@;
        let record = ChangePointRecord { at: format_hour_minute(at), phase: String::from_str(phase.as_str()) };
        proof {
            let pv = point_views[p as int];
            assert(pv.0 == at@ && pv.1 == phase);
            assert(record.at@ == hour_minute_text(pv.0) && record.phase@ == phase_text(pv.1));
            assert(points_as_records(point_views.subrange(0, p + 1)) =~= points_as_records(
                point_views.subrange(0, p as int),
            ).push((hour_minute_text(pv.0), phase_text(pv.1))));
        }
        records.push(record);
        assert(point_texts(records@) =~= point_texts(before).push((record.at@, record.phase@)));
        assert(point_texts(records@) =~= points_as_records(point_views.subrange(0, p + 1)));
        p = p + 1;
    }
    assert(point_views.subrange(0, p as int) =~= point_views);
    proof {
        assert(sessions_valid(views));
        a_day_schedule_tiles_the_day(views, rulings@);
    }
    Ok(records)
}

// ---------------------------------------------------------------- what a schedule keeps

/// Inserting into a list ordered by `key` leaves it ordered, and keeps every item.
proof fn lemma_insert_by<T>(sorted: Seq<T>, x: T, key: spec_fn(T) -> int)
    requires
        forall|i: int, j: int| 0 <= i < j < sorted.len() ==> key(#[trigger] sorted[i]) <= key(#[trigger] sorted[j]),
    ensures
        forall|i: int, j: int|
            0 <= i < j < insert_by(sorted, x, key).len() ==> key(#[trigger] insert_by(sorted, x, key)[i])
                <= key(#[trigger] insert_by(sorted, x, key)[j]),
        insert_by(sorted, x, key).contains(x),
        forall|y: T| sorted.contains(y) ==> #[trigger] insert_by(sorted, x, key).contains(y),
        insert_by(sorted, x, key).len() == sorted.len() + 1,
    decreases sorted.len(),
{
    let r = insert_by(sorted, x, key);
    if sorted.len() == 0 {
        assert(r[0] == x);
    } else if key(sorted.last()) <= key(x) {
        assert(r[r.len() - 1] == x);
        assert forall|y: T| sorted.contains(y) implies #[trigger] r.contains(y) by {
            let k = choose|k: int| 0 <= k < sorted.len() && sorted[k] == y;
            assert(r[k] == y);
        }
    } else {
        let front = sorted.drop_last();
        let inner = insert_by(front, x, key);
        lemma_insert_by(front, x, key);
        assert(r == inner.push(sorted.last()));
        assert forall|i: int, j: int| 0 <= i < j < r.len() implies key(#[trigger] r[i]) <= key(#[trigger] r[j]) by {
            if j == r.len() - 1 {
                assert(r[j] == sorted.last());
                if inner[i] == x {
                } else {
                    assert(front.contains(inner[i]) || inner[i] == x) by {
                        lemma_insert_by_members(front, x, key, i);
                    }
                    if front.contains(inner[i]) {
                        let k = choose|k: int| 0 <= k < front.len() && front[k] == inner[i];
                        assert(sorted[k] == front[k]);
                        assert(key(sorted[k]) <= key(sorted[sorted.len() - 1]));
                    }
                }
            } else {
                assert(r[i] == inner[i] && r[j] == inner[j]);
            }
        }
        let k = choose|k: int| 0 <= k < inner.len() && inner[k] == x;
        assert(r[k] == inner[k]);
        assert forall|y: T| sorted.contains(y) implies #[trigger] r.contains(y) by {
            let k2 = choose|k2: int| 0 <= k2 < sorted.len() && sorted[k2] == y;
            if k2 == sorted.len() - 1 {
                assert(r[r.len() - 1] == y);
            } else {
                assert(front.len() == sorted.len() - 1);
                assert(front[k2] == y);
                assert(front.contains(y));
                assert(inner.contains(y));
                let k3 = choose|k3: int| 0 <= k3 < inner.len() && inner[k3] == y;
                assert(r[k3] == inner[k3]);
            }
        }
    }
}

/// Every item of an insertion is the inserted one or one that was there.
proof fn lemma_insert_by_members<T>(sorted: Seq<T>, x: T, key: spec_fn(T) -> int, i: int)
    requires
        0 <= i < insert_by(sorted, x, key).len(),
    ensures
        insert_by(sorted, x, key)[i] == x || sorted.contains(insert_by(sorted, x, key)[i]),
    decreases sorted.len(),
{
    let r = insert_by(sorted, x, key);
    if sorted.len() == 0 {
    } else if key(sorted.last()) <= key(x) {
        if i < sorted.len() {
            assert(sorted[i] == r[i]);
        }
    } else {
        let front = sorted.drop_last();
        let inner = insert_by(front, x, key);
        assert(r == inner.push(sorted.last()));
        if i == r.len() - 1 {
            assert(sorted[sorted.len() - 1] == r[i]);
        } else {
            lemma_insert_by_members(front, x, key, i);
            if front.contains(inner[i]) {
                let k = choose|k: int| 0 <= k < front.len() && front[k] == inner[i];
                assert(sorted[k] == r[i]);
            }
        }
    }
}

/// An ordered list is ordered by `key`, and keeps every item.
proof fn lemma_sort_by<T>(s: Seq<T>, key: spec_fn(T) -> int)
    ensures
        forall|i: int, j: int|
            0 <= i < j < sort_by(s, key).len() ==> key(#[trigger] sort_by(s, key)[i]) <= key(
                #[trigger] sort_by(s, key)[j],
            ),
        forall|y: T| s.contains(y) ==> #[trigger] sort_by(s, key).contains(y),
        forall|i: int| 0 <= i < sort_by(s, key).len() ==> s.contains(#[trigger] sort_by(s, key)[i]),
        sort_by(s, key).len() == s.len(),
    decreases s.len(),
{
    if s.len() > 0 {
        let front = s.drop_last();
        lemma_sort_by(front, key);
        lemma_insert_by(sort_by(front, key), s.last(), key);
        assert forall|i: int| 0 <= i < sort_by(s, key).len() implies s.contains(#[trigger] sort_by(s, key)[i]) by {
            lemma_insert_by_members(sort_by(front, key), s.last(), key, i);
            let y = sort_by(s, key)[i];
            if y == s.last() {
                assert(s[s.len() - 1] == y);
            } else {
                let k = choose|k: int| 0 <= k < sort_by(front, key).len() && sort_by(front, key)[k] == y;
                assert(front.contains(y));
                let k2 = choose|k2: int| 0 <= k2 < front.len() && front[k2] == y;
                assert(s[k2] == y);
            }
        }
        assert forall|y: T| s.contains(y) implies #[trigger] sort_by(s, key).contains(y) by {
            let k = choose|k: int| 0 <= k < s.len() && s[k] == y;
            if k < s.len() - 1 {
                assert(front[k] == y);
                assert(front.contains(y));
            }
        }
    }
}

/// Keeping the first at each time keeps the first item.
proof fn lemma_first_at_each_time_head(s: Seq<TransitionView>)
    requires
        s.len() > 0,
    ensures
        first_at_each_time(s).len() > 0,
        first_at_each_time(s)[0] == s[0],
    decreases s.len(),
{
    let front = s.drop_last();
    let kept = first_at_each_time(front);
    if s.len() == 1 {
        assert(front.len() == 0);
        assert(kept == front);
        assert(first_at_each_time(s) == kept.push(s.last()));
    } else {
        lemma_first_at_each_time_head(front);
        assert(front[0] == s[0]);
        if !(kept.len() > 0 && time_key(kept.last().0) == time_key(s.last().0)) {
            assert(first_at_each_time(s) == kept.push(s.last()));
            assert(kept.push(s.last())[0] == kept[0]);
        }
    }
}

/// Keeping the first of each phase keeps the first item.
proof fn lemma_first_of_each_phase_head(s: Seq<TransitionView>)
    requires
        s.len() > 0,
    ensures
        first_of_each_phase(s).len() > 0,
        first_of_each_phase(s)[0] == s[0],
    decreases s.len(),
{
    let front = s.drop_last();
    let kept = first_of_each_phase(front);
    if s.len() == 1 {
        assert(front.len() == 0);
        assert(kept == front);
        assert(first_of_each_phase(s) == kept.push(s.last()));
    } else {
        lemma_first_of_each_phase_head(front);
        assert(front[0] == s[0]);
        if !(kept.len() > 0 && kept.last().1 == s.last().1) {
            assert(first_of_each_phase(s) == kept.push(s.last()));
            assert(kept.push(s.last())[0] == kept[0]);
        }
    }
}

/// Keeping the first at each time of a list ordered by time leaves times strictly
/// increasing, each kept item being one of the list.
proof fn lemma_first_at_each_time_increasing(s: Seq<TransitionView>)
    requires
        forall|i: int, j: int| 0 <= i < j < s.len() ==> time_key((#[trigger] s[i]).0) <= time_key((#[trigger] s[j]).0),
    ensures
        forall|i: int, j: int|
            0 <= i < j < first_at_each_time(s).len() ==> time_key((#[trigger] first_at_each_time(s)[i]).0)
                < time_key((#[trigger] first_at_each_time(s)[j]).0),
        forall|i: int| 0 <= i < first_at_each_time(s).len() ==> s.contains(#[trigger] first_at_each_time(s)[i]),
    decreases s.len(),
{
    if s.len() > 0 {
        let front = s.drop_last();
        lemma_first_at_each_time_increasing(front);
        let kept = first_at_each_time(front);
        let r = first_at_each_time(s);
        assert forall|i: int| 0 <= i < kept.len() implies s.contains(#[trigger] kept[i]) by {
            assert(front.contains(kept[i]));
            let k = choose|k: int| 0 <= k < front.len() && front[k] == kept[i];
            assert(s[k] == kept[i]);
        }
        if kept.len() > 0 && time_key(kept.last().0) == time_key(s.last().0) {
        } else {
            assert(r == kept.push(s.last()));
            assert(r[r.len() - 1] == s[s.len() - 1]);
            if kept.len() > 0 {
                assert(front.contains(kept.last()));
                let k = choose|k: int| 0 <= k < front.len() && front[k] == kept.last();
                assert(s[k] == kept.last());
                assert(time_key(kept.last().0) <= time_key(s.last().0));
            }
            assert forall|i: int, j: int|
                0 <= i < j < r.len() implies time_key((#[trigger] r[i]).0) < time_key((#[trigger] r[j]).0) by {
                if j == r.len() - 1 && i < kept.len() {
                    assert(r[i] == kept[i]);
                    if i < kept.len() - 1 {
                        assert(time_key(kept[i].0) < time_key(kept[kept.len() - 1].0));
                    }
                } else {
                    assert(r[i] == kept[i] && r[j] == kept[j]);
                }
            }
            assert forall|i: int| 0 <= i < r.len() implies s.contains(#[trigger] r[i]) by {
                if i == r.len() - 1 {
                    assert(s[s.len() - 1] == r[i]);
                } else {
                    assert(r[i] == kept[i]);
                }
            }
        }
    }
}

/// Keeping the first of each phase keeps a subsequence in which no two neighbours share
/// a phase; strictly increasing times stay strictly increasing.
proof fn lemma_first_of_each_phase(s: Seq<TransitionView>)
    requires
        forall|i: int, j: int| 0 <= i < j < s.len() ==> time_key((#[trigger] s[i]).0) < time_key((#[trigger] s[j]).0),
    ensures
        forall|i: int| 0 <= i < first_of_each_phase(s).len() - 1 ==> (#[trigger] first_of_each_phase(s)[i]).1
            != first_of_each_phase(s)[i + 1].1,
        forall|i: int, j: int|
            0 <= i < j < first_of_each_phase(s).len() ==> time_key((#[trigger] first_of_each_phase(s)[i]).0)
                < time_key((#[trigger] first_of_each_phase(s)[j]).0),
        forall|i: int| 0 <= i < first_of_each_phase(s).len() ==> s.contains(#[trigger] first_of_each_phase(s)[i]),
    decreases s.len(),
{
    if s.len() > 0 {
        let front = s.drop_last();
        lemma_first_of_each_phase(front);
        let kept = first_of_each_phase(front);
        let r = first_of_each_phase(s);
        assert forall|i: int| 0 <= i < kept.len() implies s.contains(#[trigger] kept[i]) by {
            assert(front.contains(kept[i]));
            let k = choose|k: int| 0 <= k < front.len() && front[k] == kept[i];
            assert(s[k] == kept[i]);
        }
        if kept.len() > 0 && kept.last().1 == s.last().1 {
        } else {
            assert(r == kept.push(s.last()));
            if kept.len() > 0 {
                assert(front.contains(kept.last()));
                let k = choose|k: int| 0 <= k < front.len() && front[k] == kept.last();
                assert(s[k] == kept.last());
                assert(time_key(kept.last().0) < time_key(s.last().0));
            }
            assert forall|i: int| 0 <= i < r.len() - 1 implies (#[trigger] r[i]).1 != r[i + 1].1 by {
                if i + 1 == r.len() - 1 {
                    assert(r[i] == kept.last());
                } else {
                    assert(r[i] == kept[i] && r[i + 1] == kept[i + 1]);
                }
            }
            assert forall|i: int, j: int|
                0 <= i < j < r.len() implies time_key((#[trigger] r[i]).0) < time_key((#[trigger] r[j]).0) by {
                if j == r.len() - 1 && i < kept.len() {
                    assert(r[i] == kept[i]);
                    if i < kept.len() - 1 {
                        assert(time_key(kept[i].0) < time_key(kept[kept.len() - 1].0));
                    }
                } else {
                    assert(r[i] == kept[i] && r[j] == kept[j]);
                }
            }
            assert forall|i: int| 0 <= i < r.len() implies s.contains(#[trigger] r[i]) by {
                if i == r.len() - 1 {
                    assert(s[s.len() - 1] == r[i]);
                } else {
                    assert(r[i] == kept[i]);
                }
            }
        }
    }
}

/// A time of day that names one.
pub open spec fn valid_view(t: (int, int, int, int)) -> bool {
    crate::civil::valid_time(t.0, t.1, t.2, t.3)
}

/// Sessions whose times of day are all valid, as every constructed session's are.
pub open spec fn sessions_valid(sessions: Seq<SessionView>) -> bool {
    forall|i: int| 0 <= i < sessions.len() ==> valid_view((#[trigger] sessions[i]).start) && valid_view(sessions[i].end)
}

proof fn lemma_spans_valid(sessions: Seq<SessionView>, rulings: Seq<GapRuling>, k: int)
    requires
        sessions_valid(sessions),
    ensures
        forall|i: int|
            0 <= i < ruled_gaps_from(sessions, rulings, k).len() ==> valid_view(
                (#[trigger] ruled_gaps_from(sessions, rulings, k)[i]).0,
            ) && valid_view(ruled_gaps_from(sessions, rulings, k)[i].1),
    decreases sessions.len() - k,
{
    if 0 <= k && k + 1 < sessions.len() {
        lemma_spans_valid(sessions, rulings, k + 1);
        let rest = ruled_gaps_from(sessions, rulings, k + 1);
        let all = ruled_gaps_from(sessions, rulings, k);
        assert(valid_view(sessions[k].end) && valid_view(sessions[k + 1].start));
        assert forall|i: int| 0 <= i < all.len() implies valid_view((#[trigger] all[i]).0) && valid_view(all[i].1) by {
            if all.len() > rest.len() {
                if i > 0 {
                    assert(all[i] == rest[i - 1]);
                }
            } else {
                assert(all[i] == rest[i]);
            }
        }
    }
}

proof fn lemma_transition_pairs_valid(spans: Seq<SpanView>)
    requires
        forall|i: int| 0 <= i < spans.len() ==> valid_view((#[trigger] spans[i]).0) && valid_view(spans[i].1),
    ensures
        forall|i: int| 0 <= i < transition_pairs(spans).len() ==> valid_view((#[trigger] transition_pairs(spans)[i]).0),
    decreases spans.len(),
{
    if spans.len() > 0 {
        let front = spans.drop_last();
        assert forall|i: int| 0 <= i < front.len() implies valid_view((#[trigger] front[i]).0) && valid_view(front[i].1) by {
            assert(front[i] == spans[i]);
        }
        lemma_transition_pairs_valid(front);
        let before = transition_pairs(front);
        let all = transition_pairs(spans);
        assert forall|i: int| 0 <= i < all.len() implies valid_view((#[trigger] all[i]).0) by {
            if i < before.len() {
                assert(all[i] == before[i]);
            }
        }
    }
}

/// A day schedule read from a table of sessions tiles the day: its first change point is
/// at midnight, its times strictly increase, and no change point repeats the phase already
/// in force, so it is a day schedule a rule can hold.
pub proof fn a_day_schedule_tiles_the_day(sessions: Seq<SessionView>, rulings: Seq<GapRuling>)
    requires
        sessions_valid(sessions),
    ensures
        schedule_points(sessions, rulings).len() > 0,
        time_key(schedule_points(sessions, rulings)[0].0) == 0,
        hour_minute_text(schedule_points(sessions, rulings)[0].0) == "00:00"@,
        forall|i: int, j: int|
            0 <= i < j < schedule_points(sessions, rulings).len() ==> time_key(
                (#[trigger] schedule_points(sessions, rulings)[i]).0,
            ) < time_key((#[trigger] schedule_points(sessions, rulings)[j]).0),
        forall|i: int|
            0 <= i < schedule_points(sessions, rulings).len() - 1 ==> (
            #[trigger] schedule_points(sessions, rulings)[i]).1 != schedule_points(
                sessions,
                rulings,
            )[i + 1].1,
{
    let assigned = session_spans(sessions) + ruled_gaps_from(sessions, rulings, 0);
    lemma_spans_valid(sessions, rulings, 0);
    assert forall|i: int| 0 <= i < assigned.len() implies valid_view((#[trigger] assigned[i]).0) && valid_view(
        assigned[i].1,
    ) by {
        if i < session_spans(sessions).len() {
            assert(assigned[i] == (sessions[i].start, sessions[i].end, sessions[i].phase));
        } else {
            assert(assigned[i] == ruled_gaps_from(sessions, rulings, 0)[i - session_spans(sessions).len()]);
        }
    }
    let spans = sort_by(assigned, span_key());
    lemma_sort_by(assigned, span_key());
    assert forall|i: int| 0 <= i < spans.len() implies valid_view((#[trigger] spans[i]).0) && valid_view(spans[i].1) by {
        assert(assigned.contains(spans[i]));
        let k = choose|k: int| 0 <= k < assigned.len() && assigned[k] == spans[i];
    }
    lemma_transition_pairs_valid(spans);
    let midnight: TransitionView = ((0int, 0int, 0int, 0int), Phase::Closed, false);
    let transitions = seq![midnight] + transition_pairs(spans);
    assert forall|i: int| 0 <= i < transitions.len() implies valid_view((#[trigger] transitions[i]).0) by {
        if i > 0 {
            assert(transitions[i] == transition_pairs(spans)[i - 1]);
        }
    }
    let ordered = sort_by(transitions, transition_key());
    lemma_sort_by(transitions, transition_key());
    assert(transitions[0] == midnight);
    assert(transitions.contains(midnight));
    assert(ordered.contains(midnight));
    assert forall|i: int| 0 <= i < ordered.len() implies valid_view((#[trigger] ordered[i]).0) && 0
        <= time_key(ordered[i].0) by {
        assert(transitions.contains(ordered[i]));
        let k = choose|k: int| 0 <= k < transitions.len() && transitions[k] == ordered[i];
        crate::civil::lemma_nanos_of_day_bounds(ordered[i].0.0, ordered[i].0.1, ordered[i].0.2, ordered[i].0.3);
    }
    let m = choose|m: int| 0 <= m < ordered.len() && ordered[m] == midnight;
    assert(transition_key()(ordered[0]) <= transition_key()(ordered[m])) by {
        if m > 0 {
            assert(transition_key()(ordered[0]) <= transition_key()(ordered[m]));
        }
    }
    assert(time_key(ordered[0].0) == 0);
    assert forall|i: int, j: int| 0 <= i < j < ordered.len() implies time_key((#[trigger] ordered[i]).0) <= time_key(
        (#[trigger] ordered[j]).0,
    ) by {
        assert(transition_key()(ordered[i]) <= transition_key()(ordered[j]));
    }
    let at_times = first_at_each_time(ordered);
    lemma_first_at_each_time_head(ordered);
    lemma_first_at_each_time_increasing(ordered);
    lemma_first_of_each_phase_head(at_times);
    lemma_first_of_each_phase(at_times);
    let head = ordered[0].0;
    assert(valid_view(head));
    assert(head.0 == 0 && head.1 == 0 && head.2 == 0 && head.3 == 0) by (nonlinear_arith)
        requires
            valid_view(head),
            nanos_of_day(head.0, head.1, head.2, head.3) == 0,
    ;
    reveal_strlit("00:00");
    reveal_strlit(":");
    assert(crate::text::decimal_of(head.0 as nat) == seq!['0']);
    assert(crate::text::decimal_of(head.1 as nat) == seq!['0']);
    assert(crate::text::zero_padded(seq!['0'], 2) =~= seq!['0', '0']);
    assert(hour_minute_text(head) =~= "00:00"@);
}

// ------------------------------------------------------------------- notes and messages

/// How one ruling is written into a derivation note.
pub open spec fn ruling_text(r: GapRuling) -> Seq<char> {
    crate::civil::time_of_day_text(r.start@.0, r.start@.1, r.start@.2, r.start@.3) + "–"@
        + crate::civil::time_of_day_text(r.end@.0, r.end@.1, r.end@.2, r.end@.3) + " mapped to "@
        + phase_text(r.phase) + ": "@ + r.reasoning@
}

/// Rulings written one after another, separated by `; `.
pub open spec fn rulings_text(rulings: Seq<GapRuling>) -> Seq<char>
    decreases rulings.len(),
{
    if rulings.len() == 0 {
        Seq::empty()
    } else if rulings.len() == 1 {
        ruling_text(rulings[0])
    } else {
        rulings_text(rulings.drop_last()) + "; "@ + ruling_text(rulings.last())
    }
}

/// The rulings that were applied, as derivation reasoning for the rule: a rule whose day
/// needed a ruling is partly our reading, and says so. `None` when there are no rulings.
pub fn derivation_note(rulings: &[GapRuling]) -> (r: Option<String>)
    ensures
        rulings@.len() == 0 ==> r is None,
        rulings@.len() > 0 ==> (r matches Some(note) && note@ == rulings_text(rulings@)),
{
    if rulings.len() == 0 {
        return None;
    }
    let mut note = String::new();
    let mut i: usize = 0;
    while i < rulings.len()
        invariant
            i <= rulings@.len(),
            rulings@.len() > 0,
            note@ == rulings_text(rulings@.subrange(0, i as int)),
        decreases rulings@.len() - i,
    {
        let ruling = &rulings[i];
        proof {
            reveal_strlit("; ");
            reveal_strlit(" mapped to ");
            reveal_strlit(": ");
            let prefix = rulings@.subrange(0, i + 1);
            assert(prefix.drop_last() =~= rulings@.subrange(0, i as int));
            assert(prefix.last() == rulings@[i as int]);
            if i == 0 {
                assert(prefix.len() == 1);
                assert(prefix[0] == rulings@[0]);
            }
        }
        if i > 0 {
            note.append("; ");
        }
        ruling.start.check_valid();
        ruling.end.check_valid();
        let start = time_text(
            ruling.start.hour(),
            ruling.start.minute(),
            ruling.start.second(),
            ruling.start.subsec_nanosecond(),
        );
        note.append(start.as_str());
        note.append("–");
        let end = time_text(
            ruling.end.hour(),
            ruling.end.minute(),
            ruling.end.second(),
            ruling.end.subsec_nanosecond(),
        );
        note.append(end.as_str());
        note.append(" mapped to ");
        note.append(ruling.phase.as_str());
        note.append(": ");
        note.append(ruling.reasoning.as_str());
        proof {
            if i == 0 {
                assert(note@ =~= rulings_text(rulings@.subrange(0, 1)));
            } else {
                assert(note@ =~= rulings_text(rulings@.subrange(0, i + 1)));
            }
        }
        i = i + 1;
    }
    assert(rulings@.subrange(0, i as int) =~= rulings@);
    Some(note)
}

/// Evidence for a rule read out of `document`: its source, retrieval time, terms and
/// digest, taking effect from `effective_from`.
pub fn evidence(document: &crate::fetch::FetchedDocument, effective_from: &str) -> (r: crate::format::EvidenceRecord)
    ensures
        r.source_url@ == document.spec_source().spec_url(),
        r.fetched_at@ == crate::instant::instant_text(document.spec_fetched_at().nanos()),
        r.effective_from@ == effective_from@,
        r.publisher_last_changed is None,
        crate::text::optional_text(r.terms) == Some(document.spec_source().spec_terms()),
        crate::text::optional_text(r.digest) == Some(crate::fetch::digest_text(document.spec_bytes())),
{
    crate::revision::evidence_from(document, effective_from.to_owned())
}

/// Texts joined by `, `.
pub open spec fn joined(items: Seq<Seq<char>>) -> Seq<char>
    decreases items.len(),
{
    if items.len() == 0 {
        Seq::empty()
    } else if items.len() == 1 {
        items[0]
    } else {
        joined(items.drop_last()) + ", "@ + items.last()
    }
}

/// The message for an SSE reading error.
pub open spec fn sse_error_text(e: SseError) -> Seq<char> {
    match e {
        SseError::NotText => "the fetched document is not UTF-8 text"@,
        SseError::NoSessions => "no recognised session was found; the document changed shape and a person needs to look at it"@,
        SseError::Overlapping { first, second } => "parsed sessions overlap: "@ + first@ + " and "@
            + second@,
        SseError::UnassignedIntervals { intervals } => "the published table leaves "@ + joined(
            intervals@.map_values(|t: String| t@),
        ) + " unassigned. Supply a GapRuling carrying the reasoning that settles each one from the source — these are not to be filled by inference"@,
    }
}

impl SseError {
    /// The message a shell prints for this error.
    pub fn describe(&self) -> (r: String)
        ensures
            r@ == sse_error_text(*self),
    {
        proof {
            reveal_strlit("parsed sessions overlap: ");
            reveal_strlit(" and ");
            reveal_strlit("the published table leaves ");
            reveal_strlit(", ");
        }
        match self {
            SseError::NotText => String::from_str("the fetched document is not UTF-8 text"),
            SseError::NoSessions => String::from_str(
                "no recognised session was found; the document changed shape and a person needs to look at it",
            ),
            SseError::Overlapping { first, second } => {
                let mut out = String::from_str("parsed sessions overlap: ");
                out.append(first.as_str());
                out.append(" and ");
                out.append(second.as_str());
                out
            },
            SseError::UnassignedIntervals { intervals } => {
                let ghost texts = intervals@.map_values(|t: String| t@);
                let mut out = String::from_str("the published table leaves ");
                let ghost start = out@;
                let mut i: usize = 0;
                while i < intervals.len()
                    invariant
                        i <= intervals@.len(),
                        texts == intervals@.map_values(|t: String| t@),
                        out@ == start + joined(texts.subrange(0, i as int)),
                    decreases intervals@.len() - i,
                {
                    proof {
                        reveal_strlit(", ");
                        let prefix = texts.subrange(0, i + 1);
                        assert(prefix.drop_last() =~= texts.subrange(0, i as int));
                        assert(prefix.last() == intervals@[i as int]@);
                    }
                    if i > 0 {
                        out.append(", ");
                    }
                    out.append(intervals[i].as_str());
                    proof {
                        if i == 0 {
                            assert(joined(texts.subrange(0, 1)) == texts.subrange(0, 1)[0]);
                        }
                        assert(out@ =~= start + joined(texts.subrange(0, i + 1)));
                    }
                    i = i + 1;
                }
                assert(texts.subrange(0, i as int) =~= texts);
                out.append(
                    " unassigned. Supply a GapRuling carrying the reasoning that settles each one from the source — these are not to be filled by inference",
                );
                out
            },
        }
    }
}

/// Whether a published session name is one of the venue's names for its lunch break.
pub open spec fn is_break_name(label: Seq<char>) -> bool {
    label == "午间休市"@ || label == "中午休市"@
}

/// Whether a session's phase is the one its published name stands for: a break name is
/// the mid-day break, 连续竞价 (continuous bidding) is continuous trading, 盘后固定价格交易
/// (after-hours fixed-price trading) is the post-close, 收盘集合竞价 (closing call auction)
/// is the closing auction, and 开盘集合竞价 or a bare 集合竞价 (opening or plain call
/// auction) is the opening auction.
pub open spec fn phase_matches_name(s: SessionView) -> bool {
    &&& (s.phase == Phase::MidDayBreak <==> is_break_name(s.label))
    &&& (s.phase == Phase::ContinuousTrading <==> s.label == "连续竞价"@)
    &&& (s.phase == Phase::PostClose <==> s.label == "盘后固定价格交易"@)
    &&& (s.phase == Phase::ClosingAuction <==> s.label == "收盘集合竞价"@)
    &&& (s.phase == Phase::OpeningAuction <==> (s.label == "开盘集合竞价"@ || s.label == "集合竞价"@))
}

proof fn lemma_label_phase_matches(k: int)
    requires
        0 <= k < label_count(),
    ensures
        phase_matches_name(SessionView { label: label_word(k), phase: label_phase(k), start: (0, 0, 0, 0), end: (0, 0, 0, 0) }),
{
    reveal_strlit("开盘集合竞价");
    reveal_strlit("收盘集合竞价");
    reveal_strlit("连续竞价");
    reveal_strlit("盘后固定价格交易");
    reveal_strlit("午间休市");
    reveal_strlit("中午休市");
    reveal_strlit("集合竞价");
    assert("开盘集合竞价"@[0] == '开');
    assert("收盘集合竞价"@[0] == '收');
    assert("连续竞价"@[0] == '连');
    assert("盘后固定价格交易"@[0] == '盘');
    assert("午间休市"@[0] == '午');
    assert("中午休市"@[0] == '中');
    assert("集合竞价"@[0] == '集');
}

proof fn lemma_line_sessions_match(line: Seq<char>)
    ensures
        forall|i: int| 0 <= i < line_sessions(line).len() ==> phase_matches_name(#[trigger] line_sessions(line)[i]),
{
    let k = first_label_from(line, 0);
    lemma_first_label_range(line, 0);
    if k < label_count() {
        lemma_label_phase_matches(k);
        assert forall|i: int| 0 <= i < line_sessions(line).len() implies phase_matches_name(
            #[trigger] line_sessions(line)[i],
        ) by {
            let s = line_sessions(line)[i];
            assert(s.label == label_word(k) && s.phase == label_phase(k));
        }
    }
}

proof fn lemma_first_label_range(line: Seq<char>, k: int)
    requires
        0 <= k,
    ensures
        0 <= first_label_from(line, k) <= label_count(),
    decreases label_count() - k,
{
    if k < label_count() && !contains_word(line, label_word(k)) {
        lemma_first_label_range(line, k + 1);
    }
}

proof fn lemma_sessions_in_match(lines: Seq<Seq<char>>)
    ensures
        forall|i: int| 0 <= i < sessions_in(lines).len() ==> phase_matches_name(#[trigger] sessions_in(lines)[i]),
    decreases lines.len(),
{
    if lines.len() > 0 {
        lemma_line_sessions_match(lines[0]);
        lemma_sessions_in_match(lines.drop_first());
        let head = line_sessions(lines[0]);
        let rest = sessions_in(lines.drop_first());
        assert forall|i: int| 0 <= i < sessions_in(lines).len() implies phase_matches_name(
            #[trigger] sessions_in(lines)[i],
        ) by {
            if i < head.len() {
                assert(sessions_in(lines)[i] == head[i]);
            } else {
                assert(sessions_in(lines)[i] == rest[i - head.len()]);
            }
        }
    }
}

proof fn lemma_insert_by_start_match(sorted: Seq<SessionView>, x: SessionView)
    requires
        forall|i: int| 0 <= i < sorted.len() ==> phase_matches_name(#[trigger] sorted[i]),
        phase_matches_name(x),
    ensures
        forall|i: int| 0 <= i < insert_by_start(sorted, x).len() ==> phase_matches_name(
            #[trigger] insert_by_start(sorted, x)[i],
        ),
    decreases sorted.len(),
{
    if sorted.len() > 0 {
        let r = insert_by_start(sorted, x);
        if start_key(sorted.last()) <= start_key(x) {
            assert forall|i: int| 0 <= i < r.len() implies phase_matches_name(#[trigger] r[i]) by {
                if i < sorted.len() {
                    assert(r[i] == sorted[i]);
                }
            }
        } else {
            let front = sorted.drop_last();
            assert forall|i: int| 0 <= i < front.len() implies phase_matches_name(#[trigger] front[i]) by {
                assert(front[i] == sorted[i]);
            }
            lemma_insert_by_start_match(front, x);
            let inner = insert_by_start(front, x);
            assert forall|i: int| 0 <= i < r.len() implies phase_matches_name(#[trigger] r[i]) by {
                if i < inner.len() {
                    assert(r[i] == inner[i]);
                } else {
                    assert(r[i] == sorted[sorted.len() - 1]);
                }
            }
        }
    }
}

proof fn lemma_sort_by_start_match(s: Seq<SessionView>)
    requires
        forall|i: int| 0 <= i < s.len() ==> phase_matches_name(#[trigger] s[i]),
    ensures
        forall|i: int| 0 <= i < sort_by_start(s).len() ==> phase_matches_name(#[trigger] sort_by_start(s)[i]),
    decreases s.len(),
{
    if s.len() > 0 {
        let front = s.drop_last();
        assert forall|i: int| 0 <= i < front.len() implies phase_matches_name(#[trigger] front[i]) by {
            assert(front[i] == s[i]);
        }
        lemma_sort_by_start_match(front);
        assert(phase_matches_name(s[s.len() - 1]));
        lemma_insert_by_start_match(sort_by_start(front), s.last());
    }
}

/// Every session read from a published table has the phase its published name stands
/// for: the lunch break (午间休市, 中午休市) is always the mid-day break, and only a session
/// named 连续竞价 is continuous trading; so too for every session `parse_sessions` returns.
pub proof fn every_session_takes_the_phase_its_name_stands_for(text: Seq<char>)
    ensures
        forall|i: int|
            0 <= i < sessions_in(lines_of(text)).len() ==> phase_matches_name(
                #[trigger] sessions_in(lines_of(text))[i],
            ),
        forall|i: int|
            0 <= i < sort_by_start(sessions_in(lines_of(text))).len() ==> phase_matches_name(
                #[trigger] sort_by_start(sessions_in(lines_of(text)))[i],
            ),
        sessions_outcome(text) matches Ok(sorted) ==> forall|i: int|
            0 <= i < sorted.len() ==> phase_matches_name(#[trigger] sorted[i]),
{
    lemma_sessions_in_match(lines_of(text));
    lemma_sort_by_start_match(sessions_in(lines_of(text)));
}

} // verus!
