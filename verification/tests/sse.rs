//! The SSE-shaped adapter, exercised on documents shaped like the venue's publications.
//!
//! The times below are invented. They are in the form the venue publishes (Chinese session
//! labels, `至` and dash separators, several ranges on one line) because that is what the
//! parser has to handle; they are not the venue's schedule.

use market_time::adapters::sse::{self, GapRuling, PublishedSession, SseError};
use market_time::civil::CivilTime;
use market_time::fetch::{FetchedDocument, SourceRegistration};
use market_time::format::{DateRangeRecord, RuleKindRecord, RuleRecord, UncertaintyRecord};
use market_time::ids::VenueId;
use market_time::instant::UtcInstant;
use market_time::load::dataset_from_parts;
use market_time::phase::Phase;
use market_time::query::PhaseOutcome;
use market_time::resolve::resolve_phase;
use market_time::revision::RevisionAssembly;

fn instant(text: &str) -> UtcInstant {
    let timestamp: jiff::Timestamp = text.parse().expect("test instant parses");
    UtcInstant::from_nanos_since_unix_epoch(timestamp.as_nanosecond())
}

fn document(body: &str) -> FetchedDocument {
    let source = SourceRegistration::new(
        "https://synthetic.test/sse-shaped/trading-rules".to_string(),
        "invented for this test; no venue terms apply".to_string(),
    )
    .expect("valid registration");
    FetchedDocument::new(source, instant("2026-07-30T00:00:00Z"), body.as_bytes().to_vec())
}

fn time(hour: i8, minute: i8) -> CivilTime {
    CivilTime::new(hour, minute, 0, 0).expect("valid time")
}

/// A document in the venue's published shape, with invented times.
const SHAPED_LIKE_SSE: &str = "\
第二章 交易时间

10:15 至 10:25 开盘集合竞价时间
10:35 至 12:00、13:30 至 15:30 连续竞价时间
15:30 至 15:40 收盘集合竞价时间
15:50 至 16:20 盘后固定价格交易时间
";

fn rulings() -> Vec<GapRuling> {
    vec![
        GapRuling {
            start: time(12, 0),
            end: time(13, 30),
            phase: Phase::MidDayBreak,
            reasoning: "the two continuous windows are published separately and nothing is accepted between them; the venue does not label the interval itself".to_owned(),
        },
        GapRuling {
            start: time(10, 25),
            end: time(10, 35),
            phase: Phase::Closed,
            reasoning: "no order acceptance, no matching, no quotations — three provisions draw the boundary and none includes this interval".to_owned(),
        },
        GapRuling {
            start: time(15, 40),
            end: time(15, 50),
            phase: Phase::PreOpen,
            reasoning: "orders are accepted and cancellable but not matched, ahead of the fixed-price session".to_owned(),
        },
    ]
}

#[test]
fn published_sessions_are_read_with_their_own_labels() {
    let sessions = sse::parse_sessions(&document(SHAPED_LIKE_SSE)).expect("the document parses");
    let phases: Vec<Phase> = sessions.iter().map(|session| session.phase).collect();
    assert_eq!(
        phases,
        vec![
            Phase::OpeningAuction,
            Phase::ContinuousTrading,
            Phase::ContinuousTrading,
            Phase::ClosingAuction,
            Phase::PostClose,
        ],
        "the label mapping is the whole of what this adapter asserts about the venue"
    );
    assert!(
        sessions.iter().any(|session| session.label == "开盘集合竞价"),
        "the venue's own wording is kept, not replaced by ours"
    );
}

#[test]
fn a_line_with_two_ranges_yields_two_sessions() {
    let sessions = sse::parse_sessions(&document(SHAPED_LIKE_SSE)).expect("parses");
    let continuous: Vec<&PublishedSession> =
        sessions.iter().filter(|session| session.phase == Phase::ContinuousTrading).collect();
    assert_eq!(continuous.len(), 2, "the continuous line carries two windows");
    assert!(
        continuous[0].end.nanos_since_midnight() < continuous[1].start.nanos_since_midnight(),
        "with a break between"
    );
}

#[test]
fn a_gap_between_published_sessions_is_refused_not_filled() {
    let sessions = sse::parse_sessions(&document(SHAPED_LIKE_SSE)).expect("parses");
    let error = sse::day_schedule(&sessions, &[]).expect_err("the table does not tile the day");
    let SseError::UnassignedIntervals { intervals } = &error else {
        panic!("expected unassigned intervals, got {}", error.describe());
    };
    assert!(
        intervals.iter().any(|interval| interval.contains("10:25")),
        "the interval between the opening auction and continuous trading is named: {intervals:?}"
    );
    assert!(error.describe().contains("not to be filled by inference"), "{}", error.describe());
    assert!(
        intervals.iter().any(|interval| interval.contains("12:00")),
        "even the lunch break needs a ruling: {intervals:?}"
    );
}

#[test]
fn a_ruling_settles_a_gap_and_says_why() {
    let sessions = sse::parse_sessions(&document(SHAPED_LIKE_SSE)).expect("parses");
    let rulings = rulings();
    let schedule = sse::day_schedule(&sessions, &rulings).expect("every gap is ruled on");
    assert_eq!(schedule.first().map(|point| point.at.as_str()), Some("00:00"));

    let note = sse::derivation_note(&rulings).expect("rulings produce a note");
    assert!(note.contains("no order acceptance"), "{note}");
    assert!(note.contains("10:25"), "the note names the interval it settles: {note}");
}

#[test]
fn overlapping_sessions_are_an_error_rather_than_a_silent_pick() {
    let overlapping = "\
10:15 至 11:00 开盘集合竞价时间
10:30 至 12:00 连续竞价时间
";
    let error = sse::parse_sessions(&document(overlapping)).expect_err("overlap is refused");
    assert!(matches!(error, SseError::Overlapping { .. }), "{}", error.describe());
}

#[test]
fn a_document_that_changed_shape_asks_for_a_person() {
    let error = sse::parse_sessions(&document("欢迎访问本所网站")).expect_err("nothing to parse");
    assert!(matches!(error, SseError::NoSessions), "{}", error.describe());
    assert!(error.describe().contains("a person"), "{}", error.describe());
}

#[test]
fn parsed_sessions_become_a_revision_that_answers_questions() {
    let fetched = document(SHAPED_LIKE_SSE);
    let sessions = sse::parse_sessions(&fetched).expect("parses");
    let rulings = rulings();
    let schedule = sse::day_schedule(&sessions, &rulings).expect("ruled");

    let assembly =
        RevisionAssembly::new("sse-shaped-2026-07".to_string(), instant("2026-07-30T01:00:00Z"));
    let rule = RuleRecord {
        kind: RuleKindRecord::WeeklyPattern {
            weekdays: ["mon", "tue", "wed", "thu", "fri", "sat", "sun"]
                .iter()
                .map(|day| day.to_string())
                .collect(),
        },
        schedule,
        applies: DateRangeRecord { start: "2026-08-01".to_owned(), end: "2026-08-31".to_owned() },
        boundary_uncertainty: UncertaintyRecord::PublishedGranularity { seconds: 60 },
        evidence: sse::evidence(&fetched, "2026-08-01"),
        derived_reasoning: sse::derivation_note(&rulings),
        revision: String::new(),
    };
    let venue = assembly.venue(
        "SSE-SHAPED".to_string(),
        "Asia/Shanghai".to_string(),
        (instant("2026-07-31T16:00:00Z"), instant("2026-08-31T16:00:00Z")),
        vec![sse::evidence(&fetched, "2026-08-01")],
        vec![rule],
        Vec::new(),
    );
    let assembly = assembly.with_venue(venue);
    assert_eq!(assembly.validate(), Ok(()));
    let dataset = dataset_from_parts(
        &vec![assembly.revision().clone()],
        &assembly.venues().to_vec(),
        &Vec::new(),
    )
    .expect("the assembled revision loads");

    // 11:00 Shanghai on 3 August, inside the invented continuous window.
    let outcome = resolve_phase(
        instant("2026-08-03T03:00:00Z"),
        &VenueId::new("SSE-SHAPED".to_string()).expect("valid id"),
        &dataset.ruleset,
    );
    let PhaseOutcome::Known(answer) = outcome else {
        panic!("the revision covers that instant");
    };
    assert_eq!(answer.phase, Phase::ContinuousTrading);
    assert!(
        answer.derived_reasoning.is_some(),
        "a day that needed a ruling says so, rather than passing as the venue's own wording"
    );
    assert!(
        answer.evidence.iter().any(|evidence| evidence.source_url().contains("trading-rules")),
        "and the answer traces to the document the sessions were read from"
    );
}

#[test]
fn the_schedule_reads_each_session_and_ruling_in_order() {
    let sessions = sse::parse_sessions(&document(SHAPED_LIKE_SSE)).expect("parses");
    let schedule = sse::day_schedule(&sessions, &rulings()).expect("ruled");
    let points: Vec<(String, String)> =
        schedule.iter().map(|point| (point.at.clone(), point.phase.clone())).collect();
    let expected: Vec<(&str, &str)> = vec![
        ("00:00", "closed"),
        ("10:15", "opening_auction"),
        ("10:25", "closed"),
        ("10:35", "continuous_trading"),
        ("12:00", "mid_day_break"),
        ("13:30", "continuous_trading"),
        ("15:30", "closing_auction"),
        ("15:40", "pre_open"),
        ("15:50", "post_close"),
        ("16:20", "closed"),
    ];
    assert_eq!(
        points,
        expected.iter().map(|(at, phase)| (at.to_string(), phase.to_string())).collect::<Vec<_>>()
    );
}

#[test]
fn separators_and_stray_numbers_are_told_apart() {
    let text = "\
9:15-9:25 开盘集合竞价
第3条 09:30–11:30 连续竞价
14:57~15:00 收盘集合竞价 (rule 1:2)
";
    let sessions = sse::parse_sessions(&document(text)).expect("parses");
    let read: Vec<(i8, i8, i8, i8, Phase)> = sessions
        .iter()
        .map(|s| (s.start.hour(), s.start.minute(), s.end.hour(), s.end.minute(), s.phase))
        .collect();
    assert_eq!(
        read,
        vec![
            (9, 15, 9, 25, Phase::OpeningAuction),
            (9, 30, 11, 30, Phase::ContinuousTrading),
            (14, 57, 15, 0, Phase::ClosingAuction),
        ]
    );
}

#[test]
fn a_document_that_is_not_text_is_refused() {
    let source = SourceRegistration::new("https://synthetic.test/x".to_string(), "terms".to_string())
        .expect("valid registration");
    let binary = FetchedDocument::new(source, instant("2026-07-30T00:00:00Z"), vec![0xff, 0xfe, 0x00]);
    assert_eq!(sse::parse_sessions(&binary), Err(SseError::NotText));
    assert_eq!(SseError::NotText.describe(), "the fetched document is not UTF-8 text");
}

#[test]
fn the_derivation_note_writes_each_ruling() {
    let rulings = vec![GapRuling {
        start: time(11, 30),
        end: time(13, 0),
        phase: Phase::MidDayBreak,
        reasoning: "lunch".to_owned(),
    }];
    assert_eq!(
        sse::derivation_note(&rulings),
        Some("11:30:00–13:00:00 mapped to mid_day_break: lunch".to_owned())
    );
    assert_eq!(sse::derivation_note(&[]), None);
}
