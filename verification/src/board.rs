//! The trading-hours board, as text: one row per venue, each venue's phases laid out on a
//! shared axis, a marker on the instant being viewed.
//!
//! The board decides how to draw; the timelines decide what is true. Every cell comes from
//! a segment the core returned, an unknown stretch draws as `?` and never as closed, and
//! showing "now" always says how well that instant is known.

use crate::civil::{local_time_at, utc_civil};
use crate::instant::{clamp_i128, Interval, UtcInstant, JIFF_MAX_NANOS, JIFF_MIN_NANOS};
use crate::phase::{phase_text, Phase};
use crate::query::{segment_interval, Timeline, TimelineSegment};
use crate::text::{decimal_of, digit_char, push_decimal, zero_padded};
use crate::zone::{civil_reading_at, tz_civil, tz_known, utc_reading_at, zone_is_known};
use vstd::prelude::*;

verus! {

/// How well the host's own clock is disciplined.
#[derive(Debug, Clone, PartialEq, Eq)]
pub enum ClockDiscipline {
    /// The host reports a bound, e.g. from an NTP or PTP daemon.
    BoundedNanos {
        /// The reported bound.
        nanos: i128,
        /// What reported it.
        source: String,
    },
    /// No discipline data is available; the clock is never presented as exact.
    Unmeasured {
        /// Where the instant came from.
        source: String,
    },
    /// The instant was supplied rather than read from a clock.
    Given {
        /// Who supplied it.
        source: String,
    },
}

/// The instant the board is drawing, and how well that instant is known.
#[derive(Debug, Clone, PartialEq, Eq)]
pub struct NowMarker {
    /// The instant, read by the shell and passed in.
    pub instant: UtcInstant,
    /// How well the host's clock is disciplined.
    pub discipline: ClockDiscipline,
}

/// What the board renders.
#[derive(Debug, Clone)]
pub struct BoardView {
    /// The interval the axis spans.
    pub interval: Interval,
    /// One timeline per venue, all over the same interval.
    pub rows: Vec<Timeline>,
    /// The instant being viewed, when the board is showing one.
    pub now: Option<NowMarker>,
    /// The IANA zone the axis is labelled in. Labelling only: the answers stay UTC.
    pub axis_zone: String,
    /// How many columns the timeline occupies.
    pub columns: usize,
}

/// The glyph a phase renders as. No phase renders as `?`, which means "not known".
pub open spec fn glyph_of(p: Phase) -> char {
    match p {
        Phase::Closed => '.',
        Phase::PreOpen => '-',
        Phase::OpeningAuction => '=',
        Phase::ClosingAuction => '=',
        Phase::ContinuousTrading => '#',
        Phase::MidDayBreak => ':',
        Phase::PostClose => '_',
        Phase::NonTradingInterruption => '!',
    }
}

/// The glyph a phase renders as.
pub fn glyph(phase: Phase) -> (r: char)
    ensures
        r == glyph_of(phase),
        r != '?',
{
    match phase {
        Phase::Closed => '.',
        Phase::PreOpen => '-',
        Phase::OpeningAuction => '=',
        Phase::ClosingAuction => '=',
        Phase::ContinuousTrading => '#',
        Phase::MidDayBreak => ':',
        Phase::PostClose => '_',
        Phase::NonTradingInterruption => '!',
    }
}

/// The key printed under the board.
pub open spec fn legend_text() -> Seq<char> {
    "# trading  = auction  - pre-open  : break  _ post-close  . closed  ! halt  ? not known"@
}

/// The key printed under the board.
pub fn legend() -> (r: String)
    ensures
        r@ == legend_text(),
{
    String::from_str("# trading  = auction  - pre-open  : break  _ post-close  . closed  ! halt  ? not known")
}

/// `m` divided by `d`, rounded to the nearest integer, halves to the even neighbour.
pub open spec fn round_half_even(m: nat, d: nat) -> nat
    recommends
        d > 0,
{
    let q = m / d;
    let r = m % d;
    if r * 2 > d {
        q + 1
    } else if r * 2 < d {
        q
    } else if q % 2 == 0 {
        q
    } else {
        q + 1
    }
}

/// A non-negative nanosecond count as milliseconds to one decimal place.
pub open spec fn unsigned_millis_text(m: nat) -> Seq<char> {
    let tenths = round_half_even(m, 100_000);
    decimal_of(tenths / 10) + seq!['.', digit_char((tenths % 10) as int)]
}

/// A nanosecond count as milliseconds to one decimal place, signed.
pub open spec fn millis_text(n: int) -> Seq<char> {
    if n < 0 {
        seq!['-'] + unsigned_millis_text((-n) as nat)
    } else {
        unsigned_millis_text(n as nat)
    }
}

/// A clock discipline in one line.
pub open spec fn discipline_text(d: ClockDiscipline) -> Seq<char> {
    match d {
        ClockDiscipline::BoundedNanos { nanos, source } => "host clock within "@ + millis_text(
            nanos as int,
        ) + "ms ("@ + source@ + ")"@,
        ClockDiscipline::Unmeasured { source } => "host clock discipline unmeasured ("@ + source@
            + ")"@,
        ClockDiscipline::Given { source } => "instant supplied, not read from a clock ("@ + source@
            + ")"@,
    }
}

/// Appends a non-negative nanosecond count as milliseconds to one decimal place.
fn push_unsigned_millis(out: &mut String, m: u128)
    ensures
        final(out)@ == old(out)@ + unsigned_millis_text(m as nat),
{
    let q = m / 100_000;
    let r = m % 100_000;
    let tenths = if r * 2 > 100_000 {
        q + 1
    } else if r * 2 < 100_000 {
        q
    } else if q % 2 == 0 {
        q
    } else {
        q + 1
    };
    assert(tenths == round_half_even(m as nat, 100_000));
    push_decimal(out, tenths / 10);
    out.append(".");
    let digit = tenths % 10;
    let mut last = String::new();
    push_decimal(&mut last, digit);
    proof {
        reveal_strlit(".");
        assert(decimal_of(digit as nat) =~= seq![digit_char(digit as int)]);
    }
    out.append(last.as_str());
    proof {
        assert(out@ =~= old(out)@ + unsigned_millis_text(m as nat));
    }
}

impl ClockDiscipline {
    /// A one-line rendering of the bound. An unmeasured clock says so; it is never
    /// presented as exact.
    pub fn describe(&self) -> (r: String)
        ensures
            r@ == discipline_text(*self),
    {
        match self {
            ClockDiscipline::BoundedNanos { nanos, source } => {
                let mut out = String::from_str("host clock within ");
                if *nanos < 0 {
                    out.append("-");
                    let magnitude: u128 = ((-(*nanos + 1)) as u128) + 1;
                    push_unsigned_millis(&mut out, magnitude);
                    proof {
                        reveal_strlit("-");
                    }
                } else {
                    push_unsigned_millis(&mut out, *nanos as u128);
                }
                out.append("ms (");
                out.append(source.as_str());
                out.append(")");
                proof {
                    assert(out@ =~= discipline_text(*self));
                }
                out
            },
            ClockDiscipline::Unmeasured { source } => {
                let mut out = String::from_str("host clock discipline unmeasured (");
                out.append(source.as_str());
                out.append(")");
                out
            },
            ClockDiscipline::Given { source } => {
                let mut out = String::from_str("instant supplied, not read from a clock (");
                out.append(source.as_str());
                out.append(")");
                out
            },
        }
    }
}

/// A stretch outside coverage draws as `?` and a phase never does: an unknown never
/// reads as a quiet closed market on the board.
pub proof fn unknown_never_draws_as_a_phase(tl: Timeline, t: int)
    ensures
        owner_of(tl, t) >= 0 && tl.segments@[owner_of(tl, t)] is Unknown ==> cell_of(tl, t) == '?',
        owner_of(tl, t) >= 0 && tl.segments@[owner_of(tl, t)] is Phase ==> cell_of(tl, t) != '?',
{
}

/// Among the first `n` segments, the index of the first holding `t`, or -1.
pub open spec fn first_holding(segs: Seq<TimelineSegment>, t: int, n: nat) -> int
    decreases n,
{
    if n == 0 {
        -1
    } else {
        let before = first_holding(segs, t, (n - 1) as nat);
        let iv = segment_interval(segs[n - 1]);
        if before >= 0 {
            before
        } else if iv.start.nanos() <= t < iv.end.nanos() {
            n - 1
        } else {
            -1
        }
    }
}

/// The segment of a timeline that owns `t`: the first holding it, or -1.
pub open spec fn owner_of(tl: Timeline, t: int) -> int {
    first_holding(tl.segments@, t, tl.segments@.len())
}

/// The character a cell at `t` shows: the owning segment's glyph, `?` for a stretch
/// outside coverage, blank where no segment reaches.
pub open spec fn cell_of(tl: Timeline, t: int) -> char {
    let i = owner_of(tl, t);
    if i < 0 {
        ' '
    } else {
        match tl.segments@[i] {
            TimelineSegment::Phase { answer, .. } => glyph_of(answer.phase),
            TimelineSegment::Unknown { .. } => '?',
        }
    }
}

/// The interval's length in nanoseconds, at least one.
pub open spec fn span_of(iv: Interval) -> int {
    let s = clamp_i128(iv.end.nanos() - iv.start.nanos());
    if s < 1 {
        1
    } else {
        s
    }
}

/// The instant column `c` of `columns` samples.
pub open spec fn column_at(iv: Interval, columns: int, c: int) -> int {
    clamp_i128(iv.start.nanos() + span_of(iv) * c / columns)
}

/// The column the now marker falls in.
pub open spec fn now_column(iv: Interval, columns: int, at: UtcInstant) -> int {
    clamp_i128(at.nanos() - iv.start.nanos()) * columns / span_of(iv)
}

/// The cells of a row: each column's sample, with the now marker over the column it falls
/// in when it lies inside the interval.
pub open spec fn row_cells(tl: Timeline, iv: Interval, columns: nat, now: Option<NowMarker>) -> Seq<char> {
    let cells = Seq::new(columns, |c: int| cell_of(tl, column_at(iv, columns as int, c)));
    match now {
        Some(m) => if iv.spec_contains(m.instant) && now_column(iv, columns as int, m.instant) < columns {
            cells.update(now_column(iv, columns as int, m.instant), '|')
        } else {
            cells
        },
        None => cells,
    }
}

/// A rendered row: its cells between brackets.
pub open spec fn row_text(tl: Timeline, iv: Interval, columns: nat, now: Option<NowMarker>) -> Seq<char> {
    seq!['['] + row_cells(tl, iv, columns, now) + seq![']']
}

/// What a row says of the now instant: its phase, `not known` outside coverage, `not
/// shown` where no segment reaches, nothing without a now marker.
pub open spec fn status_text(tl: Timeline, now: Option<NowMarker>) -> Seq<char> {
    match now {
        None => Seq::empty(),
        Some(m) => {
            let i = owner_of(tl, m.instant.nanos());
            if i < 0 {
                "not shown"@
            } else {
                match tl.segments@[i] {
                    TimelineSegment::Phase { answer, .. } => phase_text(answer.phase),
                    TimelineSegment::Unknown { .. } => "not known"@,
                }
            }
        },
    }
}

/// Whether `c` is a character a board row or axis line is drawn with.
pub open spec fn drawable(c: char) -> bool {
    c == ' ' || c == '.' || c == '-' || c == '=' || c == '#' || c == ':' || c == '_' || c == '!'
        || c == '?' || c == '|' || ('0' <= c && c <= '9')
}

/// A drawable character as a one-character text.
fn char_text(c: char) -> (r: &'static str)
    requires
        drawable(c),
    ensures
        r@ == seq![c],
{
    let r = if c == ' ' {
        " "
    } else if c == '.' {
        "."
    } else if c == '-' {
        "-"
    } else if c == '=' {
        "="
    } else if c == '#' {
        "#"
    } else if c == ':' {
        ":"
    } else if c == '_' {
        "_"
    } else if c == '!' {
        "!"
    } else if c == '?' {
        "?"
    } else if c == '|' {
        "|"
    } else if c == '0' {
        "0"
    } else if c == '1' {
        "1"
    } else if c == '2' {
        "2"
    } else if c == '3' {
        "3"
    } else if c == '4' {
        "4"
    } else if c == '5' {
        "5"
    } else if c == '6' {
        "6"
    } else if c == '7' {
        "7"
    } else if c == '8' {
        "8"
    } else {
        "9"
    };
    proof {
        reveal_strlit(" ");
        reveal_strlit(".");
        reveal_strlit("-");
        reveal_strlit("=");
        reveal_strlit("#");
        reveal_strlit(":");
        reveal_strlit("_");
        reveal_strlit("!");
        reveal_strlit("?");
        reveal_strlit("|");
        reveal_strlit("0");
        reveal_strlit("1");
        reveal_strlit("2");
        reveal_strlit("3");
        reveal_strlit("4");
        reveal_strlit("5");
        reveal_strlit("6");
        reveal_strlit("7");
        reveal_strlit("8");
        reveal_strlit("9");
    }
    assert(r@ =~= seq![c]);
    r
}

/// Appends drawable characters to a text.
fn push_chars(out: &mut String, cells: &Vec<char>)
    requires
        forall|i: int| 0 <= i < cells@.len() ==> drawable(#[trigger] cells@[i]),
    ensures
        final(out)@ == old(out)@ + cells@,
{
    let mut i: usize = 0;
    while i < cells.len()
        invariant
            i <= cells@.len(),
            forall|k: int| 0 <= k < cells@.len() ==> drawable(#[trigger] cells@[k]),
            out@ == old(out)@ + cells@.subrange(0, i as int),
        decreases cells@.len() - i,
    {
        out.append(char_text(cells[i]));
        i = i + 1;
        assert(out@ =~= old(out)@ + cells@.subrange(0, i as int));
    }
    assert(cells@.subrange(0, cells@.len() as int) =~= cells@);
}

/// The index of the first segment holding `at`, or `None`.
fn segment_index(timeline: &Timeline, at: UtcInstant) -> (r: Option<usize>)
    ensures
        r matches Some(i) ==> i == owner_of(*timeline, at.nanos()) && i < timeline.segments@.len(),
        r is None <==> owner_of(*timeline, at.nanos()) < 0,
{
    let ghost segs = timeline.segments@;
    let mut i: usize = 0;
    while i < timeline.segments.len()
        invariant
            i <= segs.len(),
            segs == timeline.segments@,
            first_holding(segs, at.nanos(), i as nat) < 0,
        decreases segs.len() - i,
    {
        if timeline.segments[i].interval().contains(at) {
            proof {
                assert(first_holding(segs, at.nanos(), (i + 1) as nat) == i);
                lemma_first_holding_stays(segs, at.nanos(), (i + 1) as nat, segs.len());
            }
            return Some(i);
        }
        i = i + 1;
    }
    None
}

proof fn lemma_first_holding_stays(segs: Seq<TimelineSegment>, t: int, n: nat, m: nat)
    requires
        n <= m,
        first_holding(segs, t, n) >= 0,
    ensures
        first_holding(segs, t, m) == first_holding(segs, t, n),
    decreases m - n,
{
    if n < m {
        lemma_first_holding_stays(segs, t, n, (m - 1) as nat);
    }
}

/// The character the cell at `at` shows.
fn cell_at(timeline: &Timeline, at: UtcInstant) -> (r: char)
    ensures
        r == cell_of(*timeline, at.nanos()),
        drawable(r),
{
    match segment_index(timeline, at) {
        Some(i) => match &timeline.segments[i] {
            TimelineSegment::Phase { answer, .. } => glyph(answer.phase),
            TimelineSegment::Unknown { .. } => '?',
        },
        None => ' ',
    }
}

/// The interval's length in nanoseconds, at least one.
fn span(interval: Interval) -> (r: i128)
    ensures
        r == span_of(interval),
        r >= 1,
{
    let s = interval.start.saturating_nanos_until(interval.end);
    if s < 1 {
        1
    } else {
        s
    }
}

/// Renders one venue's row: a cell per column, sampled from the timeline, with the now
/// marker over its column.
pub fn render_row(timeline: &Timeline, interval: Interval, columns: usize, now: Option<&NowMarker>) -> (r: String)
    requires
        span_of(interval) * columns <= i128::MAX,
    ensures
        r@ == row_text(*timeline, interval, columns as nat, match now {
            Some(m) => Some(*m),
            None => None,
        }),
{
    let ghost now_value = match now {
        Some(m) => Some(*m),
        None => None::<NowMarker>,
    };
    let total = span(interval);
    let ghost plain = Seq::new(columns as nat, |c: int| cell_of(*timeline, column_at(interval, columns as int, c)));
    let mut cells: Vec<char> = Vec::new();
    let mut c: usize = 0;
    while c < columns
        invariant
            c <= columns,
            total == span_of(interval),
            total >= 1,
            span_of(interval) * columns <= i128::MAX,
            plain == Seq::new(columns as nat, |c: int| cell_of(*timeline, column_at(interval, columns as int, c))),
            cells@ == plain.subrange(0, c as int),
            forall|k: int| 0 <= k < cells@.len() ==> drawable(#[trigger] cells@[k]),
        decreases columns - c,
    {
        assert(total * (c as int) <= total * (columns as int)) by (nonlinear_arith)
            requires
                c < columns,
                total >= 1,
        ;
        let offset = total * (c as i128) / (columns as i128);
        let at = interval.start.saturating_add_nanos(offset);
        let cell = cell_at(timeline, at);
        cells.push(cell);
        c = c + 1;
        assert(cells@ =~= plain.subrange(0, c as int));
    }
    assert(cells@ =~= plain);
    let ghost before_marker = cells@;
    match now {
        Some(marker) => {
            if interval.contains(marker.instant) {
                let offset = interval.start.saturating_nanos_until(marker.instant);
                assert(0 <= offset <= total);
                assert(offset * (columns as int) <= total * (columns as int)) by (nonlinear_arith)
                    requires
                        0 <= offset <= total,
                ;
                let scaled = offset * (columns as i128) / total;
                if scaled < columns as i128 {
                    cells.set(scaled as usize, '|');
                }
            }
        },
        None => {},
    }
    assert(cells@ =~= row_cells(*timeline, interval, columns as nat, now_value));
    let mut out = String::from_str("[");
    push_chars(&mut out, &cells);
    out.append("]");
    proof {
        reveal_strlit("[");
        reveal_strlit("]");
        assert(out@ =~= row_text(*timeline, interval, columns as nat, now_value));
    }
    out
}

/// What a row says of the now instant.
pub fn status(timeline: &Timeline, now: Option<&NowMarker>) -> (r: String)
    ensures
        r@ == status_text(*timeline, match now {
            Some(m) => Some(*m),
            None => None,
        }),
{
    match now {
        None => String::new(),
        Some(marker) => match segment_index(timeline, marker.instant) {
            Some(i) => match &timeline.segments[i] {
                TimelineSegment::Phase { answer, .. } => String::from_str(answer.phase.as_str()),
                TimelineSegment::Unknown { .. } => String::from_str("not known"),
            },
            None => String::from_str("not shown"),
        },
    }
}

/// The instant the axis formats: the instant itself inside `jiff`'s range, the Unix
/// epoch outside it.
pub open spec fn board_nanos(t: int) -> int {
    if JIFF_MIN_NANOS <= t <= JIFF_MAX_NANOS {
        t
    } else {
        0
    }
}

/// A number from 0 to 99 as two digits.
pub open spec fn two_digits(n: int) -> Seq<char> {
    seq![digit_char(n / 10), digit_char(n % 10)]
}

/// A year as `{:04}` writes it: four digits, or a minus sign and three.
pub open spec fn padded_year(y: int) -> Seq<char> {
    if y < 0 {
        seq!['-'] + zero_padded(decimal_of((-y) as nat), 3)
    } else {
        zero_padded(decimal_of(y as nat), 4)
    }
}

/// The reading the axis zone shows at `t`: an axis zone the bundled database does not
/// know is read as UTC.
pub open spec fn axis_civil(zone: Seq<char>, t: int) -> (int, int, int, int, int, int, int) {
    if tz_known(zone) {
        tz_civil(zone, board_nanos(t))
    } else {
        utc_civil(board_nanos(t))
    }
}

/// The `HH:MM` the axis zone shows at `t`.
pub open spec fn hour_text(zone: Seq<char>, t: int) -> Seq<char> {
    let r = axis_civil(zone, t);
    two_digits(r.3) + seq![':'] + two_digits(r.4)
}

/// The `YYYY-MM-DD HH:MM:SS` the axis zone shows at `t`.
pub open spec fn reading_text(zone: Seq<char>, t: int) -> Seq<char> {
    let r = axis_civil(zone, t);
    padded_year(r.0) + seq!['-'] + two_digits(r.1) + seq!['-'] + two_digits(r.2) + seq![' ']
        + two_digits(r.3) + seq![':'] + two_digits(r.4) + seq![':'] + two_digits(r.5)
}

/// `line` with `label` written over it from `pos`, clipped to the line.
pub open spec fn overwrite(line: Seq<char>, pos: int, label: Seq<char>) -> Seq<char> {
    Seq::new(line.len(), |i: int| if pos <= i < pos + label.len() { label[i - pos] } else { line[i] })
}

/// The axis line after the first `k` of its six tick labels.
pub open spec fn axis_upto(zone: Seq<char>, iv: Interval, columns: nat, k: nat) -> Seq<char>
    decreases k,
{
    if k == 0 {
        Seq::new(columns + 2, |i: int| ' ')
    } else {
        let tick = k - 1;
        overwrite(
            axis_upto(zone, iv, columns, (k - 1) as nat),
            1 + columns * tick / 6,
            hour_text(zone, clamp_i128(iv.start.nanos() + span_of(iv) * tick / 6)),
        )
    }
}

/// Appends a number from 0 to 99 as two digits.
fn two_digit_chars(line: &mut Vec<char>, n: i8)
    requires
        0 <= n <= 99,
    ensures
        final(line)@ == old(line)@ + two_digits(n as int),
{
    let tens = digit(n / 10);
    let ones = digit(n % 10);
    line.push(tens);
    line.push(ones);
    assert(line@ =~= old(line)@ + two_digits(n as int));
}

/// The digit character for 0-9.
fn digit(d: i8) -> (r: char)
    requires
        0 <= d <= 9,
    ensures
        r == digit_char(d as int),
        drawable(r),
{
    if d == 0 {
        '0'
    } else if d == 1 {
        '1'
    } else if d == 2 {
        '2'
    } else if d == 3 {
        '3'
    } else if d == 4 {
        '4'
    } else if d == 5 {
        '5'
    } else if d == 6 {
        '6'
    } else if d == 7 {
        '7'
    } else if d == 8 {
        '8'
    } else {
        '9'
    }
}

/// The wall-clock reading the axis zone shows at `at`; an axis zone the bundled database
/// does not know is read as UTC.
fn axis_reading(zone: &str, at: UtcInstant) -> (r: (i16, i8, i8, i8, i8, i8, i32))
    ensures
        (r.0 as int, r.1 as int, r.2 as int, r.3 as int, r.4 as int, r.5 as int, r.6 as int)
            == axis_civil(zone@, at.nanos()),
        crate::civil::valid_date(r.0 as int, r.1 as int, r.2 as int),
        crate::civil::valid_time(r.3 as int, r.4 as int, r.5 as int, r.6 as int),
{
    let n = at.as_nanos_since_unix_epoch();
    let nanos = if JIFF_MIN_NANOS <= n && n <= JIFF_MAX_NANOS {
        n
    } else {
        0
    };
    if zone_is_known(zone) {
        match civil_reading_at(zone, nanos) {
            Some(reading) => reading,
            None => {
                proof {
                    assert(false);
                }
                (1970, 1, 1, 0, 0, 0, 0)
            },
        }
    } else {
        utc_reading_at(nanos)
    }
}

/// The `HH:MM` label the axis zone shows at `at`.
fn hour_label(zone: &str, at: UtcInstant) -> (r: Vec<char>)
    ensures
        r@ == hour_text(zone@, at.nanos()),
        forall|i: int| 0 <= i < r@.len() ==> drawable(#[trigger] r@[i]),
{
    let (_, _, _, hour, minute, _, _) = axis_reading(zone, at);
    let mut label: Vec<char> = Vec::new();
    two_digit_chars(&mut label, hour);
    label.push(':');
    two_digit_chars(&mut label, minute);
    proof {
        assert(label@ =~= hour_text(zone@, at.nanos()));
        assert forall|i: int| 0 <= i < label@.len() implies drawable(#[trigger] label@[i]) by {
            if i != 2 {
                let n = if i < 2 {
                    axis_civil(zone@, at.nanos()).3
                } else {
                    axis_civil(zone@, at.nanos()).4
                };
                assert(0 <= n / 10 <= 9);
                assert(0 <= n % 10 <= 9);
            }
        }
    }
    label
}

/// The axis line: the axis zone's hour at six evenly spaced ticks.
pub fn axis_labels(zone: &str, interval: Interval, columns: usize) -> (r: String)
    requires
        columns * 6 + 2 <= usize::MAX,
        span_of(interval) * 6 <= i128::MAX,
    ensures
        r@ == axis_upto(zone@, interval, columns as nat, 6),
{
    let total = span(interval);
    let width = columns + 2;
    let mut line: Vec<char> = Vec::new();
    let mut i: usize = 0;
    while i < width
        invariant
            i <= width,
            width == columns + 2,
            line@ == Seq::new(i as nat, |k: int| ' '),
        decreases width - i,
    {
        line.push(' ');
        i = i + 1;
        assert(line@ =~= Seq::new(i as nat, |k: int| ' '));
    }
    let mut tick: usize = 0;
    while tick < 6
        invariant
            tick <= 6,
            total == span_of(interval),
            total >= 1,
            span_of(interval) * 6 <= i128::MAX,
            columns * 6 + 2 <= usize::MAX,
            width == columns + 2,
            line@ == axis_upto(zone@, interval, columns as nat, tick as nat),
            line@.len() == width,
            forall|k: int| 0 <= k < line@.len() ==> drawable(#[trigger] line@[k]),
        decreases 6 - tick,
    {
        assert(total * (tick as int) <= total * 6) by (nonlinear_arith)
            requires
                tick < 6,
                total >= 1,
        ;
        let offset = total * (tick as i128) / 6;
        let at = interval.start.saturating_add_nanos(offset);
        let label = hour_label(zone, at);
        assert(columns * tick <= columns * 6) by (nonlinear_arith)
            requires
                tick < 6,
        ;
        let column = 1 + columns * tick / 6;
        let ghost before = line@;
        let mut index: usize = 0;
        while index < label.len()
            invariant
                index <= label@.len(),
                label@.len() == 5,
                columns * 6 + 2 <= usize::MAX,
                width == columns + 2,
                line@.len() == width,
                column <= columns + 1,
                forall|k: int| 0 <= k < line@.len() ==> drawable(#[trigger] line@[k]),
                forall|k: int| 0 <= k < label@.len() ==> drawable(#[trigger] label@[k]),
                line@ == Seq::new(width as nat, |i: int| if column <= i < column + index { label@[i - column] } else { before[i] }),
            decreases label@.len() - index,
        {
            if column + index < width {
                line.set(column + index, label[index]);
            }
            index = index + 1;
            assert(line@ =~= Seq::new(width as nat, |i: int| if column <= i < column + index { label@[i - column] } else { before[i] }));
        }
        tick = tick + 1;
        assert(line@ =~= axis_upto(zone@, interval, columns as nat, tick as nat));
    }
    let mut out = String::new();
    push_chars(&mut out, &line);
    assert(out@ =~= axis_upto(zone@, interval, columns as nat, 6));
    out
}

/// The decimal digits of a number below 10000, most significant first.
proof fn lemma_digits(n: nat)
    requires
        n < 10000,
    ensures
        n < 10 ==> decimal_of(n) == seq![digit_char(n as int)],
        10 <= n < 100 ==> decimal_of(n) == seq![digit_char((n / 10) as int), digit_char((n % 10) as int)],
        100 <= n < 1000 ==> decimal_of(n) == seq![
            digit_char((n / 100) as int),
            digit_char(((n / 10) % 10) as int),
            digit_char((n % 10) as int),
        ],
        1000 <= n ==> decimal_of(n) == seq![
            digit_char((n / 1000) as int),
            digit_char(((n / 100) % 10) as int),
            digit_char(((n / 10) % 10) as int),
            digit_char((n % 10) as int),
        ],
{
    if n >= 10 {
        let a = n / 10;
        assert(decimal_of(n) == decimal_of(a).push(digit_char((n % 10) as int)));
        if a >= 10 {
            let b = a / 10;
            assert(decimal_of(a) == decimal_of(b).push(digit_char((a % 10) as int)));
            if b >= 10 {
                let c = b / 10;
                assert(decimal_of(b) == decimal_of(c).push(digit_char((b % 10) as int)));
                assert(c < 10);
                assert(decimal_of(c) == seq![digit_char(c as int)]);
                assert(c == n / 1000);
                assert(b % 10 == (n / 100) % 10);
                assert(a % 10 == (n / 10) % 10);
                assert(decimal_of(n) =~= seq![
                    digit_char((n / 1000) as int),
                    digit_char(((n / 100) % 10) as int),
                    digit_char(((n / 10) % 10) as int),
                    digit_char((n % 10) as int),
                ]);
            } else {
                assert(decimal_of(b) == seq![digit_char(b as int)]);
                assert(b == n / 100);
                assert(a % 10 == (n / 10) % 10);
                assert(decimal_of(n) =~= seq![
                    digit_char((n / 100) as int),
                    digit_char(((n / 10) % 10) as int),
                    digit_char((n % 10) as int),
                ]);
            }
        } else {
            assert(decimal_of(a) == seq![digit_char(a as int)]);
            assert(decimal_of(n) =~= seq![digit_char((n / 10) as int), digit_char((n % 10) as int)]);
        }
    }
}

/// Appends a number below 10000, zero-padded to `width` digits (3 or 4).
fn push_padded(line: &mut Vec<char>, n: i16, width: usize)
    requires
        0 <= n < 10000,
        width == 3 || width == 4,
    ensures
        final(line)@ == old(line)@ + zero_padded(decimal_of(n as nat), width as nat),
{
    proof {
        lemma_digits(n as nat);
    }
    let thousands = (n / 1000) as i8;
    let hundreds = ((n / 100) % 10) as i8;
    let tens = ((n / 10) % 10) as i8;
    let ones = (n % 10) as i8;
    if n >= 1000 || width == 4 {
        line.push(digit(thousands));
    }
    line.push(digit(hundreds));
    line.push(digit(tens));
    line.push(digit(ones));
    proof {
        if n < 10 {
            assert(Seq::new((width - 1) as nat, |i: int| '0') + seq![digit_char(n as int)] =~= if width == 4 {
                seq!['0', '0', '0', digit_char(n as int)]
            } else {
                seq!['0', '0', digit_char(n as int)]
            });
        } else if n < 100 {
            assert(Seq::new((width - 2) as nat, |i: int| '0') + decimal_of(n as nat) =~= if width == 4 {
                seq!['0', '0', digit_char((n / 10) as int), digit_char((n % 10) as int)]
            } else {
                seq!['0', digit_char((n / 10) as int), digit_char((n % 10) as int)]
            });
        } else if n < 1000 && width == 4 {
            assert(Seq::new(1, |i: int| '0') + decimal_of(n as nat) =~= seq![
                '0',
                digit_char((n / 100) as int),
                digit_char(((n / 10) % 10) as int),
                digit_char((n % 10) as int),
            ]);
        }
        assert(line@ =~= old(line)@ + zero_padded(decimal_of(n as nat), width as nat));
    }
}

/// The `YYYY-MM-DD HH:MM:SS` the axis zone shows at `at`.
pub fn format_instant(zone: &str, at: UtcInstant) -> (r: String)
    ensures
        r@ == reading_text(zone@, at.nanos()),
{
    let (year, month, day, hour, minute, second, _) = axis_reading(zone, at);
    let mut line: Vec<char> = Vec::new();
    if year < 0 {
        line.push('-');
        push_padded(&mut line, -year, 3);
    } else {
        push_padded(&mut line, year, 4);
    }
    line.push('-');
    two_digit_chars(&mut line, month);
    line.push('-');
    two_digit_chars(&mut line, day);
    line.push(' ');
    two_digit_chars(&mut line, hour);
    line.push(':');
    two_digit_chars(&mut line, minute);
    line.push(':');
    two_digit_chars(&mut line, second);
    assert(line@ =~= reading_text(zone@, at.nanos()));
    proof {
        assert forall|i: int| 0 <= i < line@.len() implies drawable(#[trigger] line@[i]) by {
            lemma_reading_drawable(zone@, at.nanos(), i);
        }
    }
    let mut out = String::new();
    push_chars(&mut out, &line);
    assert(out@ =~= reading_text(zone@, at.nanos()));
    out
}

/// Every character of a formatted reading is a digit or a separator.
proof fn lemma_reading_drawable(zone: Seq<char>, t: int, i: int)
    requires
        0 <= i < reading_text(zone, t).len(),
        ({
            let r = axis_civil(zone, t);
            crate::civil::valid_date(r.0, r.1, r.2) && crate::civil::valid_time(r.3, r.4, r.5, r.6)
        }),
    ensures
        drawable(reading_text(zone, t)[i]),
{
    let r = axis_civil(zone, t);
    let y = if r.0 < 0 { -r.0 } else { r.0 };
    lemma_digits(y as nat);
    assert forall|d: int| 0 <= d <= 9 implies drawable(#[trigger] digit_char(d)) by {}
    assert forall|n: int| 0 <= n <= 99 implies ({
        let s = #[trigger] two_digits(n);
        drawable(s[0]) && drawable(s[1])
    }) by {
        assert(0 <= n / 10 <= 9);
        assert(0 <= n % 10 <= 9);
    }
    assert(0 <= y / 1000 <= 9);
    assert(0 <= (y / 100) % 10 <= 9);
    assert(0 <= (y / 10) % 10 <= 9);
    assert(0 <= y % 10 <= 9);
}

/// The widest venue identifier among the first `n` rows, in UTF-8 bytes, and at least 6.
pub open spec fn label_width_upto(rows: Seq<Timeline>, n: nat) -> nat
    decreases n,
{
    if n == 0 {
        6
    } else {
        let before = label_width_upto(rows, (n - 1) as nat);
        let here = (vstd::utf8::encode_utf8(rows[n - 1].venue@).len() as usize) as nat;
        if here > before {
            here
        } else {
            before
        }
    }
}

/// A text padded with spaces to `w` characters.
pub open spec fn padded(s: Seq<char>, w: nat) -> Seq<char> {
    if s.len() < w {
        s + Seq::new((w - s.len()) as nat, |i: int| ' ')
    } else {
        s
    }
}

/// The first `n` venue rows of the board, one line each.
pub open spec fn rows_text(
    rows: Seq<Timeline>,
    iv: Interval,
    columns: nat,
    now: Option<NowMarker>,
    width: nat,
    n: nat,
) -> Seq<char>
    decreases n,
{
    if n == 0 {
        Seq::empty()
    } else {
        rows_text(rows, iv, columns, now, width, (n - 1) as nat) + padded(rows[n - 1].venue@, width)
            + "  "@ + row_text(rows[n - 1], iv, columns, now) + "  "@ + status_text(rows[n - 1], now)
            + "\n"@
    }
}

/// How many columns the board draws: as asked, but at least 12.
pub open spec fn board_columns(view: BoardView) -> nat {
    if view.columns < 12 {
        12
    } else {
        view.columns as nat
    }
}

/// The whole board as text: the axis line, a row per venue, the axis zone, the now
/// instant with how well it is known, and the key.
pub open spec fn board_text(view: BoardView) -> Seq<char> {
    let columns = board_columns(view);
    let width = label_width_upto(view.rows@, view.rows@.len());
    let zone = view.axis_zone@;
    padded(Seq::empty(), width) + "  "@ + axis_upto(zone, view.interval, columns, 6) + "\n"@
        + rows_text(view.rows@, view.interval, columns, view.now, width, view.rows@.len()) + "\n"@
        + "  axis: "@ + zone + " ("@ + decimal_of(columns) + " columns)\n"@ + match view.now {
        Some(m) => "  now:  "@ + reading_text(zone, m.instant.nanos()) + " — "@ + discipline_text(
            m.discipline,
        ) + "\n"@,
        None => Seq::empty(),
    } + "  key:  "@ + legend_text() + "\n"@
}

/// Appends a text padded with spaces to `width` characters.
fn push_padded_text(out: &mut String, text: &str, width: usize)
    ensures
        final(out)@ == old(out)@ + padded(text@, width as nat),
{
    out.append(text);
    let n = text.unicode_len();
    let mut i = n;
    while i < width
        invariant
            n == text@.len(),
            n <= i,
            i <= width || n >= width,
            n >= width ==> i == n,
            out@ == old(out)@ + text@ + Seq::new((i - n) as nat, |k: int| ' '),
        decreases width - i,
    {
        out.append(" ");
        proof {
            reveal_strlit(" ");
        }
        i = i + 1;
        assert(out@ =~= old(out)@ + text@ + Seq::new((i - n) as nat, |k: int| ' '));
    }
    proof {
        if n < width {
            assert(out@ =~= old(out)@ + padded(text@, width as nat));
        } else {
            assert(Seq::new((i - n) as nat, |k: int| ' ') =~= Seq::<char>::empty());
            assert(out@ =~= old(out)@ + padded(text@, width as nat));
        }
    }
}

/// Renders the board as text. Every cell comes from a segment the timelines hold: there
/// is no schedule here and no fallback, and an empty row draws as an empty row.
pub fn render(view: &BoardView) -> (r: String)
    requires
        span_of(view.interval) * board_columns(*view) <= i128::MAX,
        board_columns(*view) * 6 + 2 <= usize::MAX,
    ensures
        r@ == board_text(*view),
{
    let columns = if view.columns < 12 {
        12
    } else {
        view.columns
    };
    let mut width: usize = 6;
    let mut k: usize = 0;
    while k < view.rows.len()
        invariant
            k <= view.rows@.len(),
            width == label_width_upto(view.rows@, k as nat),
        decreases view.rows@.len() - k,
    {
        let here = view.rows[k].venue.as_str().len();
        if here > width {
            width = here;
        }
        k = k + 1;
    }
    let zone = view.axis_zone.as_str();
    let now = match &view.now {
        Some(m) => Some(m),
        None => None,
    };
    proof {
        assert(span_of(view.interval) * 6 <= span_of(view.interval) * columns) by (nonlinear_arith)
            requires
                columns >= 12,
                span_of(view.interval) >= 1,
        ;
    }
    let mut out = String::new();
    push_padded_text(&mut out, "", width);
    out.append("  ");
    out.append(axis_labels(zone, view.interval, columns).as_str());
    out.append("\n");
    proof {
        reveal_strlit("");
    }
    let ghost head = out@;
    let mut k: usize = 0;
    while k < view.rows.len()
        invariant
            k <= view.rows@.len(),
            columns == board_columns(*view),
            width == label_width_upto(view.rows@, view.rows@.len()),
            span_of(view.interval) * columns <= i128::MAX,
            now == match view.now {
                Some(m) => Some(&m),
                None => None,
            },
            out@ == head + rows_text(view.rows@, view.interval, columns as nat, view.now, width as nat, k as nat),
        decreases view.rows@.len() - k,
    {
        let row = &view.rows[k];
        push_padded_text(&mut out, row.venue.as_str(), width);
        out.append("  ");
        out.append(render_row(row, view.interval, columns, now).as_str());
        out.append("  ");
        out.append(status(row, now).as_str());
        out.append("\n");
        k = k + 1;
        proof {
            reveal_strlit("  ");
            reveal_strlit("\n");
            assert(out@ =~= head + rows_text(view.rows@, view.interval, columns as nat, view.now, width as nat, k as nat));
        }
    }
    out.append("\n");
    out.append("  axis: ");
    out.append(zone);
    out.append(" (");
    crate::text::push_decimal(&mut out, columns as u128);
    out.append(" columns)\n");
    match &view.now {
        Some(marker) => {
            out.append("  now:  ");
            out.append(format_instant(zone, marker.instant).as_str());
            out.append(" — ");
            out.append(marker.discipline.describe().as_str());
            out.append("\n");
        },
        None => {},
    }
    out.append("  key:  ");
    out.append(legend().as_str());
    out.append("\n");
    proof {
        assert(out@ =~= board_text(*view));
    }
    out
}

/// The word the printed key gives a phase.
pub open spec fn key_word(p: Phase) -> Seq<char> {
    match p {
        Phase::Closed => "closed"@,
        Phase::PreOpen => "pre-open"@,
        Phase::OpeningAuction => "auction"@,
        Phase::ClosingAuction => "auction"@,
        Phase::ContinuousTrading => "trading"@,
        Phase::MidDayBreak => "break"@,
        Phase::PostClose => "post-close"@,
        Phase::NonTradingInterruption => "halt"@,
    }
}

/// Whether the key printed under the board has the entry `glyph word`.
pub open spec fn key_lists(glyph: char, word: Seq<char>) -> bool {
    exists|i: int|
        0 <= i && i + 2 + word.len() <= legend_text().len()
            && #[trigger] legend_text().subrange(i, i + 2 + word.len()) == seq![glyph, ' '] + word
}

/// The board draws each phase with the glyph its key gives it, and no two phases alike but
/// the two auctions: only continuous trading draws as `#`, the mid-day break as `:`, and
/// no phase draws as `?`, which the key reserves for "not known".
pub proof fn each_phase_draws_as_its_key_says(p: Phase, q: Phase)
    ensures
        key_lists(glyph_of(p), key_word(p)),
        glyph_of(p) == glyph_of(q) ==> p == q || (p is OpeningAuction || p is ClosingAuction) && (
        q is OpeningAuction || q is ClosingAuction),
        glyph_of(p) != '?',
{
    reveal_strlit("# trading  = auction  - pre-open  : break  _ post-close  . closed  ! halt  ? not known");
    reveal_strlit("closed");
    reveal_strlit("pre-open");
    reveal_strlit("auction");
    reveal_strlit("trading");
    reveal_strlit("break");
    reveal_strlit("post-close");
    reveal_strlit("halt");
    let key = legend_text();
    let w = key_word(p);
    let g = glyph_of(p);
    let i: int = match p {
        Phase::ContinuousTrading => 0,
        Phase::OpeningAuction => 11,
        Phase::ClosingAuction => 11,
        Phase::PreOpen => 22,
        Phase::MidDayBreak => 34,
        Phase::PostClose => 43,
        Phase::Closed => 57,
        Phase::NonTradingInterruption => 67,
    };
    assert(key.subrange(i, i + 2 + w.len()) =~= seq![g, ' '] + w);
}

} // verus!
