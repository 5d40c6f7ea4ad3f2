//! Turning dataset records into a validated ruleset and its session bands.
//!
//! Every check happens here, before any query is asked: a phase name outside the shared
//! vocabulary, a text that is not an instant, a date or a time of day, a blank identifier,
//! a rule without evidence, and whatever the ruleset itself refuses. The first problem
//! met, in the order the records are read, is the one reported.

use crate::bands::{band_error_text, first_repeat_upto, BandDefinition, BandError};
use crate::catalog::{family_of_text, AssetFamily, VenueProfile};
use crate::civil::{date_ordinal, date_text, days_from_civil, nanos_of_day, weekday_from_civil, weekday_numbered, CivilDate, CivilTime, Weekday};
use crate::coverage::CoverageRange;
use crate::event::{EventKind, EventRule};
use crate::evidence::{evidence_message, DerivationNote, EvidenceError, EvidenceRef};
use crate::format::{
    BandRecord, ChangePointRecord, DatasetFile, DateRangeRecord, EventRecord, EvidenceRecord,
    RevisionRecord, RuleKindRecord, RuleRecord, UncertaintyRecord, VenueRecord,
};
use crate::ids::{identifier_message, BandId, DatasetRevisionId, IanaZoneId, IdentifierKind, VenueId};
use crate::instant::{instant_text, parse_timestamp, rfc3339_parse, Interval, UtcInstant, NANOS_PER_SECOND};
use crate::phase::{phase_of_text, Phase};
use crate::rule::{tiles_day, CivilDaySchedule, DateRange, Rule, RuleError, RuleKind};
use crate::ruleset::{
    parts_valid, ruleset_reports, ruleset_error_text, same_venues, DatasetRevision, Ruleset,
    RulesetError, VenueRuleset,
};
use crate::text::{
    ascii_lower, copy_optional_text, is_blank, is_blank_text, lowers_to, optional_text, text_eq,
};
use crate::uncertainty::Uncertainty;
use crate::zone::{jiff_date_parse, jiff_time_parse, parse_date, parse_time};
use vstd::prelude::*;

verus! {

/// Why a dataset could not be loaded.
#[derive(Debug, Clone, PartialEq, Eq)]
pub enum LoadError {
    /// The file could not be read.
    Unreadable {
        /// The path that was tried.
        path: String,
        /// What the operating system said.
        source: String,
    },
    /// The file is not valid JSON in the dataset format.
    Malformed(String),
    /// The data is well-formed but does not describe a valid ruleset.
    Invalid(String),
    /// A phase name outside the shared vocabulary.
    UnknownPhase {
        /// The name the dataset used.
        phase: String,
    },
    /// An asset family outside the closed set.
    UnknownFamily {
        /// The name the dataset used.
        family: String,
    },
    /// An event kind outside the shared vocabulary.
    UnknownEventKind {
        /// The name the dataset used.
        kind: String,
    },
    /// An instant that is not RFC 3339.
    BadInstant {
        /// The value that could not be parsed.
        value: String,
    },
    /// A date that is not `YYYY-MM-DD`.
    BadDate {
        /// The value that could not be parsed.
        value: String,
    },
    /// A time of day that is not `HH:MM` or `HH:MM:SS`.
    BadTime {
        /// The value that could not be parsed.
        value: String,
    },
    /// A weekday name that is not recognised.
    BadWeekday {
        /// The value that could not be parsed.
        value: String,
    },
    /// A band named a venue this file does not declare.
    UnknownBandMember {
        /// The band that named it.
        band: String,
        /// The venue id that is not among this file's venues.
        venue: String,
    },
    /// Two bands in one file share the same identifier.
    DuplicateBandId {
        /// The id used by more than one band.
        id: String,
    },
}

/// What `str`'s `Debug` impl writes for a text: the text between double quotes, with
/// quotes, backslashes and characters that do not print written as escapes.
pub uninterp spec fn debug_quoted(text: Seq<char>) -> Seq<char>;

/// Formats the text with `str`'s `Debug` impl, as `{:?}` does.
#[verifier::external_body]
fn quoted(text: &str) -> (r: String)
    ensures
        r@ == debug_quoted(text@),
{
    format!("{text:?}")
}

/// The message a shell prints for a load error.
pub open spec fn load_error_text(e: LoadError) -> Seq<char> {
    match e {
        LoadError::Unreadable { path, source } => "cannot read "@ + path@ + ": "@ + source@,
        LoadError::Malformed(detail) => "dataset is not in the expected format: "@ + detail@,
        LoadError::Invalid(detail) => "dataset does not describe a valid ruleset: "@ + detail@,
        LoadError::UnknownPhase { phase } => "dataset uses phase "@ + debug_quoted(phase@)
            + ", which is not in the shared vocabulary; a venue may not introduce a phase name of its own"@,
        LoadError::UnknownFamily { family } => "dataset uses asset family "@ + debug_quoted(family@)
            + ", which is not one of equities,                  spot_and_fx, or futures"@,
        LoadError::UnknownEventKind { kind } => "dataset uses event kind "@ + debug_quoted(kind@)
            + ", which is not in the vocabulary"@,
        LoadError::BadInstant { value } => debug_quoted(value@) + " is not an RFC 3339 instant"@,
        LoadError::BadDate { value } => debug_quoted(value@) + " is not a YYYY-MM-DD date"@,
        LoadError::BadTime { value } => debug_quoted(value@) + " is not an HH:MM time of day"@,
        LoadError::BadWeekday { value } => debug_quoted(value@) + " is not a weekday name"@,
        LoadError::UnknownBandMember { band, venue } => "band "@ + debug_quoted(band@) + " names venue "@
            + debug_quoted(venue@)
            + ", which is not among this file's venues; a band may not name a venue the dataset cannot answer for"@,
        LoadError::DuplicateBandId { id } => "band id "@ + debug_quoted(id@)
            + " is used by more than one band in this file"@,
    }
}

impl LoadError {
    /// The message a shell prints for this error.
    pub fn describe(&self) -> (r: String)
        ensures
            r@ == load_error_text(*self),
    {
        match self {
            LoadError::Unreadable { path, source } => {
                let mut out = String::from_str("cannot read ");
                out.append(path.as_str());
                out.append(": ");
                out.append(source.as_str());
                out
            },
            LoadError::Malformed(detail) => {
                let mut out = String::from_str("dataset is not in the expected format: ");
                out.append(detail.as_str());
                out
            },
            LoadError::Invalid(detail) => {
                let mut out = String::from_str("dataset does not describe a valid ruleset: ");
                out.append(detail.as_str());
                out
            },
            LoadError::UnknownPhase { phase } => {
                let mut out = String::from_str("dataset uses phase ");
                out.append(quoted(phase.as_str()).as_str());
                out.append(
                    ", which is not in the shared vocabulary; a venue may not introduce a phase name of its own",
                );
                out
            },
            LoadError::UnknownFamily { family } => {
                let mut out = String::from_str("dataset uses asset family ");
                out.append(quoted(family.as_str()).as_str());
                out.append(", which is not one of equities,                  spot_and_fx, or futures");
                out
            },
            LoadError::UnknownEventKind { kind } => {
                let mut out = String::from_str("dataset uses event kind ");
                out.append(quoted(kind.as_str()).as_str());
                out.append(", which is not in the vocabulary");
                out
            },
            LoadError::BadInstant { value } => {
                let mut out = quoted(value.as_str());
                out.append(" is not an RFC 3339 instant");
                out
            },
            LoadError::BadDate { value } => {
                let mut out = quoted(value.as_str());
                out.append(" is not a YYYY-MM-DD date");
                out
            },
            LoadError::BadTime { value } => {
                let mut out = quoted(value.as_str());
                out.append(" is not an HH:MM time of day");
                out
            },
            LoadError::BadWeekday { value } => {
                let mut out = quoted(value.as_str());
                out.append(" is not a weekday name");
                out
            },
            LoadError::UnknownBandMember { band, venue } => {
                let mut out = String::from_str("band ");
                out.append(quoted(band.as_str()).as_str());
                out.append(" names venue ");
                out.append(quoted(venue.as_str()).as_str());
                out.append(
                    ", which is not among this file's venues; a band may not name a venue the dataset cannot answer for",
                );
                out
            },
            LoadError::DuplicateBandId { id } => {
                let mut out = String::from_str("band id ");
                out.append(quoted(id.as_str()).as_str());
                out.append(" is used by more than one band in this file");
                out
            },
        }
    }
}

/// A load error by the texts it carries.
pub enum LoadFailure {
    Unreadable(Seq<char>, Seq<char>),
    Malformed(Seq<char>),
    Invalid(Seq<char>),
    UnknownPhase(Seq<char>),
    UnknownFamily(Seq<char>),
    UnknownEventKind(Seq<char>),
    BadInstant(Seq<char>),
    BadDate(Seq<char>),
    BadTime(Seq<char>),
    BadWeekday(Seq<char>),
    UnknownBandMember(Seq<char>, Seq<char>),
    DuplicateBandId(Seq<char>),
}

impl View for LoadError {
    type V = LoadFailure;

    open spec fn view(&self) -> LoadFailure {
        match self {
            LoadError::Unreadable { path, source } => LoadFailure::Unreadable(path@, source@),
            LoadError::Malformed(detail) => LoadFailure::Malformed(detail@),
            LoadError::Invalid(detail) => LoadFailure::Invalid(detail@),
            LoadError::UnknownPhase { phase } => LoadFailure::UnknownPhase(phase@),
            LoadError::UnknownFamily { family } => LoadFailure::UnknownFamily(family@),
            LoadError::UnknownEventKind { kind } => LoadFailure::UnknownEventKind(kind@),
            LoadError::BadInstant { value } => LoadFailure::BadInstant(value@),
            LoadError::BadDate { value } => LoadFailure::BadDate(value@),
            LoadError::BadTime { value } => LoadFailure::BadTime(value@),
            LoadError::BadWeekday { value } => LoadFailure::BadWeekday(value@),
            LoadError::UnknownBandMember { band, venue } => LoadFailure::UnknownBandMember(
                band@,
                venue@,
            ),
            LoadError::DuplicateBandId { id } => LoadFailure::DuplicateBandId(id@),
        }
    }
}

/// The first failure of a list of items, reading from the front.
pub open spec fn list_failure<T>(items: Seq<T>, failure: spec_fn(T) -> Option<LoadFailure>) -> Option<
    LoadFailure,
>
    decreases items.len(),
{
    if items.len() == 0 {
        None
    } else {
        match list_failure(items.drop_last(), failure) {
            Some(e) => Some(e),
            None => failure(items.last()),
        }
    }
}

/// The first of two failures.
pub open spec fn either(first: Option<LoadFailure>, then: Option<LoadFailure>) -> Option<LoadFailure> {
    if first is Some {
        first
    } else {
        then
    }
}

/// A failure that is there exactly when `failed` holds.
pub open spec fn failing_when(failed: bool, failure: LoadFailure) -> Option<LoadFailure> {
    if failed {
        Some(failure)
    } else {
        None
    }
}

/// Extending a list by one item: its failure is the earlier one, or the new item's.
proof fn lemma_list_failure_push<T>(items: Seq<T>, i: int, failure: spec_fn(T) -> Option<LoadFailure>)
    requires
        0 <= i < items.len(),
    ensures
        list_failure(items.take(i + 1), failure) == either(
            list_failure(items.take(i), failure),
            failure(items[i]),
        ),
{
    assert(items.take(i + 1).drop_last() =~= items.take(i));
}

// ------------------------------------------------------------------ instants, dates, times

/// A text that does not read as an RFC 3339 instant.
pub open spec fn instant_failure(text: Seq<char>) -> Option<LoadFailure> {
    failing_when(rfc3339_parse(text) is None, LoadFailure::BadInstant(text))
}

/// `at` is the instant the text reads as.
pub open spec fn instant_read(text: Seq<char>, at: UtcInstant) -> bool {
    rfc3339_parse(text) == Some(at.nanos())
}

/// Reads an RFC 3339 instant.
pub fn read_instant(text: &str) -> (r: Result<UtcInstant, LoadError>)
    ensures
        match r {
            Ok(at) => instant_failure(text@) is None && instant_read(text@, at),
            Err(e) => instant_failure(text@) == Some(e@),
        },
{
    match parse_timestamp(text) {
        Some(nanos) => Ok(UtcInstant::from_nanos_since_unix_epoch(nanos)),
        None => Err(LoadError::BadInstant { value: text.to_owned() }),
    }
}

/// A text that does not read as a calendar date.
pub open spec fn date_failure(text: Seq<char>) -> Option<LoadFailure> {
    failing_when(jiff_date_parse(text) is None, LoadFailure::BadDate(text))
}

/// `d` is the date the text reads as.
pub open spec fn date_read(text: Seq<char>, d: CivilDate) -> bool {
    jiff_date_parse(text) == Some(d@)
}

/// Reads a `YYYY-MM-DD` date.
pub fn read_date(text: &str) -> (r: Result<CivilDate, LoadError>)
    ensures
        match r {
            Ok(d) => date_failure(text@) is None && date_read(text@, d),
            Err(e) => date_failure(text@) == Some(e@),
        },
{
    match parse_date(text) {
        Some((year, month, day)) => match CivilDate::new(year, month, day) {
            Ok(date) => Ok(date),
            Err(_) => Err(LoadError::BadDate { value: text.to_owned() }),
        },
        None => Err(LoadError::BadDate { value: text.to_owned() }),
    }
}

/// The text a time of day is parsed from: an `HH:MM` text (five bytes) gains `:00`.
pub open spec fn time_input(text: Seq<char>) -> Seq<char> {
    if vstd::utf8::encode_utf8(text).len() == 5 {
        text + ":00"@
    } else {
        text
    }
}

/// A text that does not read as a time of day.
pub open spec fn time_failure(text: Seq<char>) -> Option<LoadFailure> {
    failing_when(jiff_time_parse(time_input(text)) is None, LoadFailure::BadTime(text))
}

/// `t` is the time of day the text reads as.
pub open spec fn time_read(text: Seq<char>, t: CivilTime) -> bool {
    jiff_time_parse(time_input(text)) == Some(t@)
}

/// Reads an `HH:MM` or `HH:MM:SS` time of day.
pub fn read_time(text: &str) -> (r: Result<CivilTime, LoadError>)
    ensures
        match r {
            Ok(t) => time_failure(text@) is None && time_read(text@, t),
            Err(e) => time_failure(text@) == Some(e@),
        },
{
    let bytes = text.as_bytes();
    let padded = if bytes.len() == 5 {
        let mut padded = text.to_owned();
        padded.append(":00");
        padded
    } else {
        text.to_owned()
    };
    proof {
        reveal_strlit(":00");
        assert(padded@ == time_input(text@));
    }
    match parse_time(padded.as_str()) {
        Some((hour, minute, second, nanos)) => match CivilTime::new(hour, minute, second, nanos) {
            Ok(time) => Ok(time),
            Err(_) => Err(LoadError::BadTime { value: text.to_owned() }),
        },
        None => Err(LoadError::BadTime { value: text.to_owned() }),
    }
}

/// The weekday a lower-case name names, in three letters or in full.
pub open spec fn weekday_named(name: Seq<char>) -> Option<Weekday> {
    if name == "mon"@ || name == "monday"@ {
        Some(Weekday::Monday)
    } else if name == "tue"@ || name == "tuesday"@ {
        Some(Weekday::Tuesday)
    } else if name == "wed"@ || name == "wednesday"@ {
        Some(Weekday::Wednesday)
    } else if name == "thu"@ || name == "thursday"@ {
        Some(Weekday::Thursday)
    } else if name == "fri"@ || name == "friday"@ {
        Some(Weekday::Friday)
    } else if name == "sat"@ || name == "saturday"@ {
        Some(Weekday::Saturday)
    } else if name == "sun"@ || name == "sunday"@ {
        Some(Weekday::Sunday)
    } else {
        None
    }
}

/// A text that names no weekday, whatever its ASCII case.
pub open spec fn weekday_failure(text: Seq<char>) -> Option<LoadFailure> {
    failing_when(weekday_named(ascii_lower(text)) is None, LoadFailure::BadWeekday(text))
}

/// Reads a weekday name such as `mon` or `Monday`; ASCII case does not matter.
pub fn read_weekday(text: &str) -> (r: Result<Weekday, LoadError>)
    ensures
        match r {
            Ok(w) => weekday_named(ascii_lower(text@)) == Some(w),
            Err(e) => weekday_failure(text@) == Some(e@),
        },
{
    if lowers_to(text, "mon") || lowers_to(text, "monday") {
        Ok(Weekday::Monday)
    } else if lowers_to(text, "tue") || lowers_to(text, "tuesday") {
        Ok(Weekday::Tuesday)
    } else if lowers_to(text, "wed") || lowers_to(text, "wednesday") {
        Ok(Weekday::Wednesday)
    } else if lowers_to(text, "thu") || lowers_to(text, "thursday") {
        Ok(Weekday::Thursday)
    } else if lowers_to(text, "fri") || lowers_to(text, "friday") {
        Ok(Weekday::Friday)
    } else if lowers_to(text, "sat") || lowers_to(text, "saturday") {
        Ok(Weekday::Saturday)
    } else if lowers_to(text, "sun") || lowers_to(text, "sunday") {
        Ok(Weekday::Sunday)
    } else {
        Err(LoadError::BadWeekday { value: text.to_owned() })
    }
}

// ------------------------------------------------------------ uncertainty and evidence

/// The uncertainty a record describes; whole seconds become nanoseconds.
pub open spec fn uncertainty_of(record: UncertaintyRecord) -> Uncertainty {
    match record {
        UncertaintyRecord::Exact => Uncertainty::Exact,
        UncertaintyRecord::PublishedGranularity { seconds } => Uncertainty::PublishedGranularity {
            nanos: (seconds * NANOS_PER_SECOND) as i128,
        },
        UncertaintyRecord::PublishedBound { seconds, published_as } => Uncertainty::PublishedBound {
            nanos: (seconds * NANOS_PER_SECOND) as i128,
            published_as,
        },
        UncertaintyRecord::ProcessStart { process } => Uncertainty::ProcessStart { process },
    }
}

/// Reads an uncertainty record.
pub fn read_uncertainty(record: &UncertaintyRecord) -> (r: Uncertainty)
    ensures
        r == uncertainty_of(*record),
{
    match record {
        UncertaintyRecord::Exact => Uncertainty::Exact,
        UncertaintyRecord::PublishedGranularity { seconds } => Uncertainty::seconds(*seconds as i128),
        UncertaintyRecord::PublishedBound { seconds, published_as } => Uncertainty::PublishedBound {
            nanos: (*seconds as i128) * NANOS_PER_SECOND,
            published_as: published_as.clone(),
        },
        UncertaintyRecord::ProcessStart { process } => Uncertainty::ProcessStart {
            process: process.clone(),
        },
    }
}

/// The first problem with an evidence record: its retrieval instant, then a blank source
/// URL, then a blank effective date.
pub open spec fn evidence_failure(record: EvidenceRecord) -> Option<LoadFailure> {
    either(
        instant_failure(record.fetched_at@),
        either(
            failing_when(
                is_blank_text(record.source_url@),
                LoadFailure::Invalid(evidence_message(EvidenceError::MissingSourceUrl)),
            ),
            failing_when(
                is_blank_text(record.effective_from@),
                LoadFailure::Invalid(evidence_message(EvidenceError::MissingEffectiveFrom)),
            ),
        ),
    )
}

/// `e` is the evidence the record describes. Terms and digest are the operator's record
/// of the retrieval and are not carried into a rule's provenance.
pub open spec fn evidence_read(record: EvidenceRecord, e: EvidenceRef) -> bool {
    &&& e.spec_source_url() == record.source_url@
    &&& instant_read(record.fetched_at@, e.spec_fetched_at())
    &&& e.spec_effective_from() == record.effective_from@
    &&& e.spec_publisher_last_changed() == optional_text(record.publisher_last_changed)
}

/// Reads an evidence record.
pub fn read_evidence(record: &EvidenceRecord) -> (r: Result<EvidenceRef, LoadError>)
    ensures
        match r {
            Ok(e) => evidence_failure(*record) is None && evidence_read(*record, e),
            Err(e) => evidence_failure(*record) == Some(e@),
        },
{
    let fetched_at = match read_instant(record.fetched_at.as_str()) {
        Ok(at) => at,
        Err(e) => return Err(e),
    };
    let reference = match EvidenceRef::new(
        record.source_url.clone(),
        fetched_at,
        record.effective_from.clone(),
    ) {
        Ok(reference) => reference,
        Err(e) => return Err(LoadError::Invalid(String::from_str(e.message()))),
    };
    match &record.publisher_last_changed {
        Some(when) => Ok(reference.with_publisher_last_changed(when.clone())),
        None => Ok(reference),
    }
}

/// The first problem with a date range record: its start, its end, then an end before
/// the start.
pub open spec fn date_range_failure(record: DateRangeRecord) -> Option<LoadFailure> {
    either(date_failure(record.start@), either(date_failure(record.end@), reversed_range_failure(record)))
}

/// A date range record whose end reads as a date before its start.
pub open spec fn reversed_range_failure(record: DateRangeRecord) -> Option<LoadFailure> {
    let s = jiff_date_parse(record.start@).unwrap();
    let e = jiff_date_parse(record.end@).unwrap();
    failing_when(
        date_ordinal(e.0, e.1, e.2) < date_ordinal(s.0, s.1, s.2),
        LoadFailure::Invalid(
            "date range ends at "@ + date_text(e) + ", before it starts at "@ + date_text(s),
        ),
    )
}

/// `range` is the date range the record describes.
pub open spec fn date_range_read(record: DateRangeRecord, range: DateRange) -> bool {
    date_read(record.start@, range.start) && date_read(record.end@, range.end)
}

/// Reads an inclusive date range.
pub fn read_date_range(record: &DateRangeRecord) -> (r: Result<DateRange, LoadError>)
    ensures
        match r {
            Ok(range) => date_range_failure(*record) is None && date_range_read(*record, range),
            Err(e) => date_range_failure(*record) == Some(e@),
        },
{
    let start = match read_date(record.start.as_str()) {
        Ok(d) => d,
        Err(e) => return Err(e),
    };
    let end = match read_date(record.end.as_str()) {
        Ok(d) => d,
        Err(e) => return Err(e),
    };
    match DateRange::new(start, end) {
        Ok(range) => Ok(range),
        Err(e) => {
            let message = e.describe();
            Err(LoadError::Invalid(message))
        },
    }
}

/// A failure stays the failure of every longer list that starts with the same items.
proof fn lemma_list_failure_stays<T>(items: Seq<T>, k: int, failure: spec_fn(T) -> Option<LoadFailure>)
    requires
        0 <= k <= items.len(),
        list_failure(items.take(k), failure) is Some,
    ensures
        list_failure(items, failure) == list_failure(items.take(k), failure),
    decreases items.len() - k,
{
    if k < items.len() {
        lemma_list_failure_push(items, k, failure);
        lemma_list_failure_stays(items, k + 1, failure);
    } else {
        assert(items.take(k) =~= items);
    }
}

/// A blank identifier of a kind.
pub open spec fn identifier_failure(text: Seq<char>, kind: IdentifierKind) -> Option<LoadFailure> {
    failing_when(is_blank_text(text), LoadFailure::Invalid(identifier_message(kind)))
}

/// Reads a dataset revision identifier.
fn read_revision_id(text: &String) -> (r: Result<DatasetRevisionId, LoadError>)
    ensures
        match r {
            Ok(id) => identifier_failure(text@, IdentifierKind::DatasetRevision) is None && id@
                == text@,
            Err(e) => identifier_failure(text@, IdentifierKind::DatasetRevision) == Some(e@),
        },
{
    match DatasetRevisionId::new(text.clone()) {
        Ok(id) => Ok(id),
        Err(e) => Err(LoadError::Invalid(String::from_str(e.message()))),
    }
}

// ------------------------------------------------------------------------------- rules

/// The check applied to each weekday name.
pub open spec fn weekday_check() -> spec_fn(String) -> Option<LoadFailure> {
    |name: String| weekday_failure(name@)
}

/// The first problem with a rule kind record: for a weekly pattern, its first weekday
/// name that names no weekday.
pub open spec fn rule_kind_failure(record: RuleKindRecord) -> Option<LoadFailure> {
    match record {
        RuleKindRecord::WeeklyPattern { weekdays } => list_failure(weekdays@, weekday_check()),
        _ => None,
    }
}

/// `kind` is the rule kind the record describes.
pub open spec fn rule_kind_read(record: RuleKindRecord, kind: RuleKind) -> bool {
    match record {
        RuleKindRecord::WeeklyPattern { weekdays } => match kind {
            RuleKind::WeeklyPattern { weekdays: days } => days@.len() == weekdays@.len() && forall|
                i: int,
            |
                0 <= i < days@.len() ==> weekday_named(ascii_lower((#[trigger] weekdays@[i])@))
                    == Some(days@[i]),
            _ => false,
        },
        RuleKindRecord::Holiday { name } => kind == (RuleKind::Holiday { name }),
        RuleKindRecord::ShortenedSession { name } => kind == (RuleKind::ShortenedSession { name }),
        RuleKindRecord::AnnouncedChange { note } => kind == (RuleKind::AnnouncedChange { note }),
    }
}

/// Reads a rule kind.
pub fn read_rule_kind(record: &RuleKindRecord) -> (r: Result<RuleKind, LoadError>)
    ensures
        match r {
            Ok(kind) => rule_kind_failure(*record) is None && rule_kind_read(*record, kind),
            Err(e) => rule_kind_failure(*record) == Some(e@),
        },
{
    match record {
        RuleKindRecord::WeeklyPattern { weekdays } => {
            let mut days: Vec<Weekday> = Vec::new();
            let mut i: usize = 0;
            while i < weekdays.len()
                invariant
                    *record == (RuleKindRecord::WeeklyPattern { weekdays: *weekdays }),
                    i <= weekdays@.len(),
                    list_failure(weekdays@.take(i as int), weekday_check()) is None,
                    days@.len() == i,
                    forall|k: int|
                        0 <= k < i ==> weekday_named(ascii_lower((#[trigger] weekdays@[k])@))
                            == Some(days@[k]),
                decreases weekdays@.len() - i,
            {
                proof {
                    lemma_list_failure_push(weekdays@, i as int, weekday_check());
                }
                match read_weekday(weekdays[i].as_str()) {
                    Ok(day) => days.push(day),
                    Err(e) => {
                        proof {
                            lemma_list_failure_stays(weekdays@, i + 1, weekday_check());
                        }
                        return Err(e);
                    },
                }
                i = i + 1;
            }
            proof {
                assert(weekdays@.take(weekdays@.len() as int) =~= weekdays@);
            }
            Ok(RuleKind::WeeklyPattern { weekdays: days })
        },
        RuleKindRecord::Holiday { name } => Ok(RuleKind::Holiday { name: name.clone() }),
        RuleKindRecord::ShortenedSession { name } => Ok(
            RuleKind::ShortenedSession { name: name.clone() },
        ),
        RuleKindRecord::AnnouncedChange { note } => Ok(RuleKind::AnnouncedChange { note: note.clone() }),
    }
}

/// The first problem with a change point record: a phase name outside the vocabulary,
/// then a time of day that does not read.
pub open spec fn change_point_failure(record: ChangePointRecord) -> Option<LoadFailure> {
    either(
        failing_when(phase_of_text(record.phase@) is None, LoadFailure::UnknownPhase(record.phase@)),
        time_failure(record.at@),
    )
}

/// `point` is the change point the record describes.
pub open spec fn change_point_read(record: ChangePointRecord, point: (CivilTime, Phase)) -> bool {
    time_read(record.at@, point.0) && phase_of_text(record.phase@) == Some(point.1)
}

/// Reads a change point.
pub fn read_change_point(record: &ChangePointRecord) -> (r: Result<(CivilTime, Phase), LoadError>)
    ensures
        match r {
            Ok(point) => change_point_failure(*record) is None && change_point_read(*record, point),
            Err(e) => change_point_failure(*record) == Some(e@),
        },
{
    let phase = match Phase::from_str_exact(record.phase.as_str()) {
        Some(phase) => phase,
        None => return Err(LoadError::UnknownPhase { phase: record.phase.clone() }),
    };
    match read_time(record.at.as_str()) {
        Ok(time) => Ok((time, phase)),
        Err(e) => Err(e),
    }
}

/// The check applied to each change point.
pub open spec fn change_point_check() -> spec_fn(ChangePointRecord) -> Option<LoadFailure> {
    |record: ChangePointRecord| change_point_failure(record)
}

/// `points` are the change points the records describe, in order.
pub open spec fn change_points_read(records: Seq<ChangePointRecord>, points: Seq<(CivilTime, Phase)>) -> bool {
    points.len() == records.len() && forall|i: int|
        0 <= i < records.len() ==> change_point_read(#[trigger] records[i], points[i])
}

/// Reads change points in order.
fn read_change_points(records: &Vec<ChangePointRecord>) -> (r: Result<Vec<(CivilTime, Phase)>, LoadError>)
    ensures
        match r {
            Ok(points) => list_failure(records@, change_point_check()) is None && change_points_read(
                records@,
                points@,
            ),
            Err(e) => list_failure(records@, change_point_check()) == Some(e@),
        },
{
    let mut points: Vec<(CivilTime, Phase)> = Vec::new();
    let mut i: usize = 0;
    while i < records.len()
        invariant
            i <= records@.len(),
            list_failure(records@.take(i as int), change_point_check()) is None,
            points@.len() == i,
            forall|k: int| 0 <= k < i ==> change_point_read(#[trigger] records@[k], points@[k]),
        decreases records@.len() - i,
    {
        proof {
            lemma_list_failure_push(records@, i as int, change_point_check());
        }
        match read_change_point(&records[i]) {
            Ok(point) => points.push(point),
            Err(e) => {
                proof {
                    lemma_list_failure_stays(records@, i + 1, change_point_check());
                }
                return Err(e);
            },
        }
        i = i + 1;
    }
    proof {
        assert(records@.take(records@.len() as int) =~= records@);
    }
    Ok(points)
}

/// The nanoseconds since midnight a change point record's time reads as.
pub open spec fn point_nanos(record: ChangePointRecord) -> int {
    let t = jiff_time_parse(time_input(record.at@)).unwrap();
    nanos_of_day(t.0, t.1, t.2, t.3)
}

/// Change points that do not tile a day: the first is not midnight, or they do not
/// strictly increase.
pub open spec fn schedule_failure(records: Seq<ChangePointRecord>) -> Option<LoadFailure> {
    if records.len() == 0 || point_nanos(records[0]) != 0 {
        Some(LoadFailure::Invalid("a day schedule must start at 00:00, or it leaves a gap"@))
    } else if !(forall|i: int, j: int|
        0 <= i < j < records.len() ==> point_nanos(#[trigger] records[i]) < point_nanos(
            #[trigger] records[j],
        )) {
        Some(LoadFailure::Invalid("day schedule change points must strictly increase"@))
    } else {
        None
    }
}

/// A derivation note that is present but blank.
pub open spec fn derived_failure(reasoning: Option<String>) -> Option<LoadFailure> {
    match reasoning {
        Some(text) => failing_when(
            is_blank_text(text@),
            LoadFailure::Invalid(evidence_message(EvidenceError::DerivedWithoutReasoning)),
        ),
        None => None,
    }
}

/// `note` is the derivation note the optional reasoning describes.
pub open spec fn derived_read(reasoning: Option<String>, note: Option<DerivationNote>) -> bool {
    match reasoning {
        Some(text) => note matches Some(n) && n.spec_reasoning() == text@,
        None => note is None,
    }
}

/// The first problem with a rule record, in the order it is read: its change points, its
/// kind, whether the points tile a day, its dates, its evidence, its derivation note, and
/// its revision.
pub open spec fn rule_failure(record: RuleRecord) -> Option<LoadFailure> {
    either(
        list_failure(record.schedule@, change_point_check()),
        either(
            rule_kind_failure(record.kind),
            either(
                schedule_failure(record.schedule@),
                either(
                    date_range_failure(record.applies),
                    either(
                        evidence_failure(record.evidence),
                        either(
                            derived_failure(record.derived_reasoning),
                            identifier_failure(record.revision@, IdentifierKind::DatasetRevision),
                        ),
                    ),
                ),
            ),
        ),
    )
}

/// `rule` is the rule the record describes.
pub open spec fn rule_read(record: RuleRecord, rule: Rule) -> bool {
    &&& rule_kind_read(record.kind, rule.kind)
    &&& change_points_read(record.schedule@, rule.schedule.points())
    &&& date_range_read(record.applies, rule.applies)
    &&& rule.boundary_uncertainty == uncertainty_of(record.boundary_uncertainty)
    &&& evidence_read(record.evidence, rule.evidence)
    &&& derived_read(record.derived_reasoning, rule.derived)
    &&& rule.revision@ == record.revision@
}

/// Read change points tile a day exactly when their records' times do.
proof fn lemma_schedule_tiles(records: Seq<ChangePointRecord>, points: Seq<(CivilTime, Phase)>)
    requires
        change_points_read(records, points),
        records.len() > 0,
        point_nanos(records[0]) == 0,
    ensures
        tiles_day(points) <==> schedule_failure(records) is None,
{
    assert forall|i: int| 0 <= i < records.len() implies (#[trigger] points[i]).0.since_midnight()
        == point_nanos(records[i]) by {
        assert(change_point_read(records[i], points[i]));
    }
    if tiles_day(points) {
        assert forall|i: int, j: int|
            0 <= i < j < records.len() implies point_nanos(#[trigger] records[i]) < point_nanos(
            #[trigger] records[j],
        ) by {
            assert(points[i].0.since_midnight() < points[j].0.since_midnight());
        }
    }
    if schedule_failure(records) is None {
        assert forall|i: int, j: int|
            0 <= i < j < points.len() implies (#[trigger] points[i]).0.since_midnight() < (
            #[trigger] points[j]).0.since_midnight() by {
            assert(point_nanos(records[i]) < point_nanos(records[j]));
        }
    }
}

/// Reads a rule record.
pub fn read_rule(record: &RuleRecord) -> (r: Result<Rule, LoadError>)
    ensures
        match r {
            Ok(rule) => rule_failure(*record) is None && rule_read(*record, rule),
            Err(e) => rule_failure(*record) == Some(e@),
        },
{
    let points = match read_change_points(&record.schedule) {
        Ok(points) => points,
        Err(e) => return Err(e),
    };
    let kind = match read_rule_kind(&record.kind) {
        Ok(kind) => kind,
        Err(e) => return Err(e),
    };
    let ghost read_points = points@;
    proof {
        if record.schedule@.len() > 0 && point_nanos(record.schedule@[0]) == 0 {
            lemma_schedule_tiles(record.schedule@, points@);
        }
        if points@.len() > 0 {
            assert(change_point_read(record.schedule@[0], points@[0]));
        }
        reveal_strlit("a day schedule must start at 00:00, or it leaves a gap");
        reveal_strlit("day schedule change points must strictly increase");
    }
    let schedule = match CivilDaySchedule::new(points) {
        Ok(schedule) => schedule,
        Err(e) => {
            let message = e.describe();
            return Err(LoadError::Invalid(message));
        },
    };
    let applies = match read_date_range(&record.applies) {
        Ok(range) => range,
        Err(e) => return Err(e),
    };
    let boundary_uncertainty = read_uncertainty(&record.boundary_uncertainty);
    let evidence = match read_evidence(&record.evidence) {
        Ok(evidence) => evidence,
        Err(e) => return Err(e),
    };
    let derived = match &record.derived_reasoning {
        Some(text) => match DerivationNote::new(text.clone()) {
            Ok(note) => Some(note),
            Err(e) => return Err(LoadError::Invalid(String::from_str(e.message()))),
        },
        None => None,
    };
    let revision = match read_revision_id(&record.revision) {
        Ok(id) => id,
        Err(e) => return Err(e),
    };
    Ok(Rule { kind, schedule, applies, boundary_uncertainty, evidence, derived, revision })
}

// ------------------------------------------------------------------------------ events

/// The check applied to each time of day of an event rule.
pub open spec fn time_check() -> spec_fn(String) -> Option<LoadFailure> {
    |text: String| time_failure(text@)
}

/// The event kind a name names.
pub open spec fn event_kind_named(name: Seq<char>) -> Option<EventKind> {
    if name == "funding_settlement"@ {
        Some(EventKind::FundingSettlement)
    } else {
        None
    }
}

/// The first problem with an event record, in the order it is read: its kind, its times,
/// its dates, its evidence, and its revision.
pub open spec fn event_failure(record: EventRecord) -> Option<LoadFailure> {
    either(
        failing_when(
            event_kind_named(record.kind@) is None,
            LoadFailure::UnknownEventKind(record.kind@),
        ),
        either(
            list_failure(record.times@, time_check()),
            either(
                date_range_failure(record.applies),
                either(
                    evidence_failure(record.evidence),
                    identifier_failure(record.revision@, IdentifierKind::DatasetRevision),
                ),
            ),
        ),
    )
}

/// `event` is the event rule the record describes.
pub open spec fn event_read(record: EventRecord, event: EventRule) -> bool {
    &&& event_kind_named(record.kind@) == Some(event.kind)
    &&& event.times@.len() == record.times@.len()
    &&& forall|i: int|
        0 <= i < event.times@.len() ==> time_read((#[trigger] record.times@[i])@, event.times@[i])
    &&& date_range_read(record.applies, event.applies)
    &&& event.uncertainty == uncertainty_of(record.uncertainty)
    &&& evidence_read(record.evidence, event.evidence)
    &&& event.revision@ == record.revision@
}

/// Reads an event record.
pub fn read_event(record: &EventRecord) -> (r: Result<EventRule, LoadError>)
    ensures
        match r {
            Ok(event) => event_failure(*record) is None && event_read(*record, event),
            Err(e) => event_failure(*record) == Some(e@),
        },
{
    let kind = match EventKind::from_str_exact(record.kind.as_str()) {
        Some(kind) => kind,
        None => return Err(LoadError::UnknownEventKind { kind: record.kind.clone() }),
    };
    let mut times: Vec<CivilTime> = Vec::new();
    let mut i: usize = 0;
    while i < record.times.len()
        invariant
            i <= record.times@.len(),
            list_failure(record.times@.take(i as int), time_check()) is None,
            times@.len() == i,
            forall|k: int| 0 <= k < i ==> time_read((#[trigger] record.times@[k])@, times@[k]),
            event_kind_named(record.kind@) is Some,
        decreases record.times@.len() - i,
    {
        proof {
            lemma_list_failure_push(record.times@, i as int, time_check());
        }
        match read_time(record.times[i].as_str()) {
            Ok(time) => times.push(time),
            Err(e) => {
                proof {
                    lemma_list_failure_stays(record.times@, i + 1, time_check());
                }
                return Err(e);
            },
        }
        i = i + 1;
    }
    proof {
        assert(record.times@.take(record.times@.len() as int) =~= record.times@);
    }
    let applies = match read_date_range(&record.applies) {
        Ok(range) => range,
        Err(e) => return Err(e),
    };
    let uncertainty = read_uncertainty(&record.uncertainty);
    let evidence = match read_evidence(&record.evidence) {
        Ok(evidence) => evidence,
        Err(e) => return Err(e),
    };
    let revision = match read_revision_id(&record.revision) {
        Ok(id) => id,
        Err(e) => return Err(e),
    };
    Ok(EventRule { kind, times, applies, uncertainty, evidence, revision })
}

// ------------------------------------------------------------------------------ venues

/// The check applied to each rule record.
pub open spec fn rule_check() -> spec_fn(RuleRecord) -> Option<LoadFailure> {
    |record: RuleRecord| rule_failure(record)
}

/// The check applied to each event record.
pub open spec fn event_check() -> spec_fn(EventRecord) -> Option<LoadFailure> {
    |record: EventRecord| event_failure(record)
}

/// The check applied to each venue-level evidence record.
pub open spec fn evidence_check() -> spec_fn(EvidenceRecord) -> Option<LoadFailure> {
    |record: EvidenceRecord| evidence_failure(record)
}

/// A coverage record whose end does not read as an instant after its start.
pub open spec fn coverage_failure(record: VenueRecord) -> Option<LoadFailure> {
    either(
        instant_failure(record.coverage.start@),
        either(instant_failure(record.coverage.end@), empty_coverage_failure(record)),
    )
}

/// A coverage record whose end reads as an instant no later than its start.
pub open spec fn empty_coverage_failure(record: VenueRecord) -> Option<LoadFailure> {
    let start = rfc3339_parse(record.coverage.start@).unwrap();
    let end = rfc3339_parse(record.coverage.end@).unwrap();
    failing_when(
        end <= start,
        LoadFailure::Invalid(
            "interval end "@ + instant_text(end) + " is not after its start "@ + instant_text(start),
        ),
    )
}

/// An asset family name outside the closed set.
pub open spec fn family_failure(family: Option<String>) -> Option<LoadFailure> {
    match family {
        Some(name) => failing_when(
            family_of_text(name@) is None,
            LoadFailure::UnknownFamily(name@),
        ),
        None => None,
    }
}

/// The first problem with a venue record, in the order it is read: its coverage, its
/// identifier, its zone, its family, its rules, its events, and its evidence.
pub open spec fn venue_failure(record: VenueRecord) -> Option<LoadFailure> {
    either(
        coverage_failure(record),
        either(
            identifier_failure(record.venue@, IdentifierKind::Venue),
            either(
                identifier_failure(record.home_zone@, IdentifierKind::IanaZone),
                either(
                    family_failure(record.family),
                    either(
                        list_failure(record.rules@, rule_check()),
                        either(
                            list_failure(record.events@, event_check()),
                            list_failure(record.evidence@, evidence_check()),
                        ),
                    ),
                ),
            ),
        ),
    )
}

/// `venue` is the venue the record describes.
pub open spec fn venue_read(record: VenueRecord, venue: VenueRuleset) -> bool {
    &&& venue.venue@ == record.venue@
    &&& venue.home_zone@ == record.home_zone@
    &&& venue.profile.display_name == record.display_name
    &&& venue.profile.location == record.location
    &&& venue.profile.family == match record.family {
        Some(name) => family_of_text(name@),
        None => None::<AssetFamily>,
    }
    &&& instant_read(record.coverage.start@, venue.coverage.spec_interval().start)
    &&& instant_read(record.coverage.end@, venue.coverage.spec_interval().end)
    &&& venue.rules@.len() == record.rules@.len()
    &&& forall|i: int| 0 <= i < venue.rules@.len() ==> rule_read(#[trigger] record.rules@[i], venue.rules@[i])
    &&& venue.events@.len() == record.events@.len()
    &&& forall|i: int|
        0 <= i < venue.events@.len() ==> event_read(#[trigger] record.events@[i], venue.events@[i])
    &&& venue.evidence@.len() == record.evidence@.len()
    &&& forall|i: int|
        0 <= i < venue.evidence@.len() ==> evidence_read(
            #[trigger] record.evidence@[i],
            venue.evidence@[i],
        )
}

/// Reads rule records in order.
fn read_rules(records: &Vec<RuleRecord>) -> (r: Result<Vec<Rule>, LoadError>)
    ensures
        match r {
            Ok(rules) => list_failure(records@, rule_check()) is None && rules@.len()
                == records@.len() && forall|i: int|
                0 <= i < rules@.len() ==> rule_read(#[trigger] records@[i], rules@[i]),
            Err(e) => list_failure(records@, rule_check()) == Some(e@),
        },
{
    let mut rules: Vec<Rule> = Vec::new();
    let mut i: usize = 0;
    while i < records.len()
        invariant
            i <= records@.len(),
            list_failure(records@.take(i as int), rule_check()) is None,
            rules@.len() == i,
            forall|k: int| 0 <= k < i ==> rule_read(#[trigger] records@[k], rules@[k]),
        decreases records@.len() - i,
    {
        proof {
            lemma_list_failure_push(records@, i as int, rule_check());
        }
        match read_rule(&records[i]) {
            Ok(rule) => rules.push(rule),
            Err(e) => {
                proof {
                    lemma_list_failure_stays(records@, i + 1, rule_check());
                }
                return Err(e);
            },
        }
        i = i + 1;
    }
    proof {
        assert(records@.take(records@.len() as int) =~= records@);
    }
    Ok(rules)
}

/// Reads event records in order.
fn read_events(records: &Vec<EventRecord>) -> (r: Result<Vec<EventRule>, LoadError>)
    ensures
        match r {
            Ok(events) => list_failure(records@, event_check()) is None && events@.len()
                == records@.len() && forall|i: int|
                0 <= i < events@.len() ==> event_read(#[trigger] records@[i], events@[i]),
            Err(e) => list_failure(records@, event_check()) == Some(e@),
        },
{
    let mut events: Vec<EventRule> = Vec::new();
    let mut i: usize = 0;
    while i < records.len()
        invariant
            i <= records@.len(),
            list_failure(records@.take(i as int), event_check()) is None,
            events@.len() == i,
            forall|k: int| 0 <= k < i ==> event_read(#[trigger] records@[k], events@[k]),
        decreases records@.len() - i,
    {
        proof {
            lemma_list_failure_push(records@, i as int, event_check());
        }
        match read_event(&records[i]) {
            Ok(event) => events.push(event),
            Err(e) => {
                proof {
                    lemma_list_failure_stays(records@, i + 1, event_check());
                }
                return Err(e);
            },
        }
        i = i + 1;
    }
    proof {
        assert(records@.take(records@.len() as int) =~= records@);
    }
    Ok(events)
}

/// Reads evidence records in order.
fn read_evidence_list(records: &Vec<EvidenceRecord>) -> (r: Result<Vec<EvidenceRef>, LoadError>)
    ensures
        match r {
            Ok(list) => list_failure(records@, evidence_check()) is None && list@.len()
                == records@.len() && forall|i: int|
                0 <= i < list@.len() ==> evidence_read(#[trigger] records@[i], list@[i]),
            Err(e) => list_failure(records@, evidence_check()) == Some(e@),
        },
{
    let mut list: Vec<EvidenceRef> = Vec::new();
    let mut i: usize = 0;
    while i < records.len()
        invariant
            i <= records@.len(),
            list_failure(records@.take(i as int), evidence_check()) is None,
            list@.len() == i,
            forall|k: int| 0 <= k < i ==> evidence_read(#[trigger] records@[k], list@[k]),
        decreases records@.len() - i,
    {
        proof {
            lemma_list_failure_push(records@, i as int, evidence_check());
        }
        match read_evidence(&records[i]) {
            Ok(evidence) => list.push(evidence),
            Err(e) => {
                proof {
                    lemma_list_failure_stays(records@, i + 1, evidence_check());
                }
                return Err(e);
            },
        }
        i = i + 1;
    }
    proof {
        assert(records@.take(records@.len() as int) =~= records@);
    }
    Ok(list)
}

/// Reads a venue record.
pub fn read_venue(record: &VenueRecord) -> (r: Result<VenueRuleset, LoadError>)
    ensures
        match r {
            Ok(venue) => venue_failure(*record) is None && venue_read(*record, venue),
            Err(e) => venue_failure(*record) == Some(e@),
        },
{
    let start = match read_instant(record.coverage.start.as_str()) {
        Ok(at) => at,
        Err(e) => return Err(e),
    };
    let end = match read_instant(record.coverage.end.as_str()) {
        Ok(at) => at,
        Err(e) => return Err(e),
    };
    let interval = match Interval::new(start, end) {
        Ok(interval) => interval,
        Err(e) => {
            let message = e.describe();
            return Err(LoadError::Invalid(message));
        },
    };
    let coverage = CoverageRange::new(interval);
    let venue = match VenueId::new(record.venue.clone()) {
        Ok(id) => id,
        Err(e) => return Err(LoadError::Invalid(String::from_str(e.message()))),
    };
    let home_zone = match IanaZoneId::new(record.home_zone.clone()) {
        Ok(id) => id,
        Err(e) => return Err(LoadError::Invalid(String::from_str(e.message()))),
    };
    let family = match &record.family {
        Some(name) => match AssetFamily::from_str_exact(name.as_str()) {
            Some(family) => Some(family),
            None => return Err(LoadError::UnknownFamily { family: name.clone() }),
        },
        None => None,
    };
    let profile = VenueProfile {
        display_name: copy_optional_text(&record.display_name),
        location: copy_optional_text(&record.location),
        family,
    };
    let rules = match read_rules(&record.rules) {
        Ok(rules) => rules,
        Err(e) => return Err(e),
    };
    let events = match read_events(&record.events) {
        Ok(events) => events,
        Err(e) => return Err(e),
    };
    let evidence = match read_evidence_list(&record.evidence) {
        Ok(list) => list,
        Err(e) => return Err(e),
    };
    Ok(VenueRuleset { venue, profile, home_zone, coverage, rules, events, evidence })
}

// ---------------------------------------------------------------------------- revisions

/// A blank replaced-revision identifier.
pub open spec fn supersedes_failure(supersedes: Option<String>) -> Option<LoadFailure> {
    match supersedes {
        Some(text) => identifier_failure(text@, IdentifierKind::DatasetRevision),
        None => None,
    }
}

/// The first problem with a revision record: its identifier, the identifier it replaces,
/// then its assembly instant.
pub open spec fn revision_failure(record: RevisionRecord) -> Option<LoadFailure> {
    either(
        identifier_failure(record.id@, IdentifierKind::DatasetRevision),
        either(supersedes_failure(record.supersedes), instant_failure(record.assembled_at@)),
    )
}

/// `revision` is the revision the record describes.
pub open spec fn revision_read(record: RevisionRecord, revision: DatasetRevision) -> bool {
    &&& revision.id@ == record.id@
    &&& match record.supersedes {
        Some(text) => revision.supersedes matches Some(id) && id@ == text@,
        None => revision.supersedes is None,
    }
    &&& revision.iana_tzdb_version == record.iana_tzdb_version
    &&& instant_read(record.assembled_at@, revision.assembled_at)
}

/// Reads a revision record.
pub fn read_revision(record: &RevisionRecord) -> (r: Result<DatasetRevision, LoadError>)
    ensures
        match r {
            Ok(revision) => revision_failure(*record) is None && revision_read(*record, revision),
            Err(e) => revision_failure(*record) == Some(e@),
        },
{
    let id = match read_revision_id(&record.id) {
        Ok(id) => id,
        Err(e) => return Err(e),
    };
    let supersedes = match &record.supersedes {
        Some(text) => match read_revision_id(text) {
            Ok(id) => Some(id),
            Err(e) => return Err(e),
        },
        None => None,
    };
    let assembled_at = match read_instant(record.assembled_at.as_str()) {
        Ok(at) => at,
        Err(e) => return Err(e),
    };
    Ok(DatasetRevision {
        id,
        supersedes,
        iana_tzdb_version: copy_optional_text(&record.iana_tzdb_version),
        assembled_at,
    })
}

/// The check applied to each revision record.
pub open spec fn revision_check() -> spec_fn(RevisionRecord) -> Option<LoadFailure> {
    |record: RevisionRecord| revision_failure(record)
}

/// The check applied to each venue record.
pub open spec fn venue_check() -> spec_fn(VenueRecord) -> Option<LoadFailure> {
    |record: VenueRecord| venue_failure(record)
}

/// `revisions` are the revisions the records describe, in order.
pub open spec fn revisions_read(records: Seq<RevisionRecord>, revisions: Seq<DatasetRevision>) -> bool {
    revisions.len() == records.len() && forall|i: int|
        0 <= i < records.len() ==> revision_read(#[trigger] records[i], revisions[i])
}

/// `venues` are the venues the records describe, in order.
pub open spec fn venues_read(records: Seq<VenueRecord>, venues: Seq<VenueRuleset>) -> bool {
    venues.len() == records.len() && forall|i: int|
        0 <= i < records.len() ==> venue_read(#[trigger] records[i], venues[i])
}

/// Reads revision records in order.
fn read_revisions(records: &Vec<RevisionRecord>) -> (r: Result<Vec<DatasetRevision>, LoadError>)
    ensures
        match r {
            Ok(list) => list_failure(records@, revision_check()) is None && revisions_read(
                records@,
                list@,
            ),
            Err(e) => list_failure(records@, revision_check()) == Some(e@),
        },
{
    let mut list: Vec<DatasetRevision> = Vec::new();
    let mut i: usize = 0;
    while i < records.len()
        invariant
            i <= records@.len(),
            list_failure(records@.take(i as int), revision_check()) is None,
            list@.len() == i,
            forall|k: int| 0 <= k < i ==> revision_read(#[trigger] records@[k], list@[k]),
        decreases records@.len() - i,
    {
        proof {
            lemma_list_failure_push(records@, i as int, revision_check());
        }
        match read_revision(&records[i]) {
            Ok(revision) => list.push(revision),
            Err(e) => {
                proof {
                    lemma_list_failure_stays(records@, i + 1, revision_check());
                }
                return Err(e);
            },
        }
        i = i + 1;
    }
    proof {
        assert(records@.take(records@.len() as int) =~= records@);
    }
    Ok(list)
}

/// Reads venue records in order.
fn read_venues(records: &Vec<VenueRecord>) -> (r: Result<Vec<VenueRuleset>, LoadError>)
    ensures
        match r {
            Ok(list) => list_failure(records@, venue_check()) is None && venues_read(records@, list@),
            Err(e) => list_failure(records@, venue_check()) == Some(e@),
        },
{
    let mut list: Vec<VenueRuleset> = Vec::new();
    let mut i: usize = 0;
    while i < records.len()
        invariant
            i <= records@.len(),
            list_failure(records@.take(i as int), venue_check()) is None,
            list@.len() == i,
            forall|k: int| 0 <= k < i ==> venue_read(#[trigger] records@[k], list@[k]),
        decreases records@.len() - i,
    {
        proof {
            lemma_list_failure_push(records@, i as int, venue_check());
        }
        match read_venue(&records[i]) {
            Ok(venue) => list.push(venue),
            Err(e) => {
                proof {
                    lemma_list_failure_stays(records@, i + 1, venue_check());
                }
                return Err(e);
            },
        }
        i = i + 1;
    }
    proof {
        assert(records@.take(records@.len() as int) =~= records@);
    }
    Ok(list)
}

// -------------------------------------------------------------------------------- bands

/// The identifiers of a list of venues.
pub open spec fn venue_ids_of(venues: Seq<VenueRuleset>) -> Seq<Seq<char>> {
    venues.map_values(|v: VenueRuleset| v.venue@)
}

/// The texts of a list of venue identifiers.
pub open spec fn id_texts(ids: Seq<VenueId>) -> Seq<Seq<char>> {
    ids.map_values(|v: VenueId| v@)
}

/// The identifiers a list of venue records declares.
pub open spec fn venue_names(records: Seq<VenueRecord>) -> Seq<Seq<char>> {
    records.map_values(|v: VenueRecord| v.venue@)
}

/// The texts of a list of strings.
pub open spec fn texts_of(items: Seq<String>) -> Seq<Seq<char>> {
    items.map_values(|t: String| t@)
}

/// The index of the first text that repeats an earlier one, among the first `n`; -1
/// when there is none.
pub open spec fn first_repeated_text(texts: Seq<Seq<char>>, n: nat) -> int
    decreases n,
{
    if n == 0 {
        -1
    } else {
        let before = first_repeated_text(texts, (n - 1) as nat);
        if before >= 0 {
            before
        } else if texts.subrange(0, n - 1).contains(texts[n - 1]) {
            n - 1
        } else {
            -1
        }
    }
}

/// The first problem with one band member: a blank identifier, then a venue the dataset
/// does not declare.
pub open spec fn member_failure(band: Seq<char>, known: Seq<Seq<char>>, member: Seq<char>) -> Option<
    LoadFailure,
> {
    either(
        identifier_failure(member, IdentifierKind::Venue),
        failing_when(!known.contains(member), LoadFailure::UnknownBandMember(band, member)),
    )
}

/// The check applied to each member of a band.
pub open spec fn member_check(band: Seq<char>, known: Seq<Seq<char>>) -> spec_fn(String) -> Option<
    LoadFailure,
> {
    |member: String| member_failure(band, known, member@)
}

/// What the band definition refuses of a member list: an empty one, then the first
/// member listed twice.
pub open spec fn definition_failure(members: Seq<String>) -> Option<LoadFailure> {
    if members.len() == 0 {
        Some(LoadFailure::Invalid("a session band needs at least one member venue"@))
    } else {
        let k = first_repeated_text(texts_of(members), members.len());
        failing_when(
            k >= 0,
            LoadFailure::Invalid(
                "venue "@ + members[k]@ + " is listed as a member more than once"@,
            ),
        )
    }
}

/// The first problem with the band record at `k`, in the order it is read: an identifier
/// an earlier band already used, a blank identifier, its members, a blank reasoning, and
/// what the band definition refuses.
pub open spec fn band_failure(records: Seq<BandRecord>, k: int, known: Seq<Seq<char>>) -> Option<
    LoadFailure,
> {
    let record = records[k];
    either(
        failing_when(
            exists|j: int| 0 <= j < k && (#[trigger] records[j]).id@ == record.id@,
            LoadFailure::DuplicateBandId(record.id@),
        ),
        either(
            identifier_failure(record.id@, IdentifierKind::Band),
            either(
                list_failure(record.members@, member_check(record.id@, known)),
                either(
                    failing_when(
                        is_blank_text(record.derived_reasoning@),
                        LoadFailure::Invalid(evidence_message(EvidenceError::DerivedWithoutReasoning)),
                    ),
                    definition_failure(record.members@),
                ),
            ),
        ),
    )
}

/// The first problem among the first `n` band records.
pub open spec fn bands_failure_upto(records: Seq<BandRecord>, n: nat, known: Seq<Seq<char>>) -> Option<
    LoadFailure,
>
    decreases n,
{
    if n == 0 {
        None
    } else {
        either(bands_failure_upto(records, (n - 1) as nat, known), band_failure(records, n - 1, known))
    }
}

/// The first problem among all band records.
pub open spec fn bands_failure(records: Seq<BandRecord>, known: Seq<Seq<char>>) -> Option<LoadFailure> {
    bands_failure_upto(records, records.len(), known)
}

/// `band` is the band definition the record describes.
pub open spec fn band_read(record: BandRecord, band: BandDefinition) -> bool {
    &&& band.spec_id()@ == record.id@
    &&& band.spec_display_name() == record.display_name@
    &&& band.spec_members().len() == record.members@.len()
    &&& forall|i: int|
        0 <= i < band.spec_members().len() ==> (#[trigger] band.spec_members()[i])@
            == record.members@[i]@
    &&& band.spec_derivation().spec_reasoning() == record.derived_reasoning@
}

/// `bands` are the band definitions the records describe, in order.
pub open spec fn bands_read(records: Seq<BandRecord>, bands: Seq<BandDefinition>) -> bool {
    bands.len() == records.len() && forall|i: int|
        0 <= i < records.len() ==> band_read(#[trigger] records[i], bands[i])
}

/// The first repeat, when there is one, is among the entries looked at.
proof fn lemma_first_repeat_in_range(texts: Seq<Seq<char>>, n: nat)
    ensures
        first_repeated_text(texts, n) < n,
    decreases n,
{
    if n > 0 {
        lemma_first_repeat_in_range(texts, (n - 1) as nat);
    }
}

/// A member list's first repeat is the same whether read by identifier or by text.
proof fn lemma_first_repeat_texts(ids: Seq<VenueId>, texts: Seq<Seq<char>>, n: nat)
    requires
        ids.len() == texts.len(),
        n <= ids.len(),
        forall|i: int| 0 <= i < ids.len() ==> (#[trigger] ids[i])@ == texts[i],
    ensures
        crate::bands::first_repeat_upto(ids, n) == first_repeated_text(texts, n),
    decreases n,
{
    if n > 0 {
        lemma_first_repeat_texts(ids, texts, (n - 1) as nat);
        let prefix_ids = ids.subrange(0, n - 1);
        let prefix_texts = texts.subrange(0, n - 1);
        if crate::bands::lists(prefix_ids, ids[n - 1]@) {
            let j = choose|j: int| 0 <= j < prefix_ids.len() && (#[trigger] prefix_ids[j])@ == ids[n
                - 1]@;
            assert(prefix_texts[j] == texts[n - 1]);
        }
        if prefix_texts.contains(texts[n - 1]) {
            let j = choose|j: int| 0 <= j < prefix_texts.len() && prefix_texts[j] == texts[n - 1];
            assert(prefix_ids[j]@ == ids[n - 1]@);
        }
    }
}

/// Whether a venue identifier is among those known.
fn knows_venue(known: &Vec<VenueId>, venue: &VenueId) -> (r: bool)
    ensures
        r == id_texts(known@).contains(venue@),
{
    let ghost names = id_texts(known@);
    let mut i: usize = 0;
    while i < known.len()
        invariant
            i <= known@.len(),
            names == id_texts(known@),
            forall|k: int| 0 <= k < i ==> (#[trigger] known@[k])@ != venue@,
        decreases known@.len() - i,
    {
        if known[i].same_as(venue) {
            assert(names[i as int] == venue@);
            return true;
        }
        i = i + 1;
    }
    proof {
        if names.contains(venue@) {
            let k = choose|k: int| 0 <= k < names.len() && names[k] == venue@;
            assert(known@[k]@ == venue@);
        }
    }
    false
}

/// Reads a band's members, each a declared venue.
fn read_members(band: &String, members: &Vec<String>, known: &Vec<VenueId>) -> (r: Result<
    Vec<VenueId>,
    LoadError,
>)
    ensures
        match r {
            Ok(ids) => list_failure(
                members@,
                member_check(band@, id_texts(known@)),
            ) is None && ids@.len() == members@.len() && forall|i: int|
                0 <= i < ids@.len() ==> (#[trigger] ids@[i])@ == members@[i]@,
            Err(e) => list_failure(members@, member_check(band@, id_texts(known@)))
                == Some(e@),
        },
{
    let ghost names = id_texts(known@);
    let mut ids: Vec<VenueId> = Vec::new();
    let mut i: usize = 0;
    while i < members.len()
        invariant
            i <= members@.len(),
            names == id_texts(known@),
            list_failure(members@.take(i as int), member_check(band@, names)) is None,
            ids@.len() == i,
            forall|k: int| 0 <= k < i ==> (#[trigger] ids@[k])@ == members@[k]@,
        decreases members@.len() - i,
    {
        proof {
            lemma_list_failure_push(members@, i as int, member_check(band@, names));
        }
        let id = match VenueId::new(members[i].clone()) {
            Ok(id) => id,
            Err(e) => {
                proof {
                    lemma_list_failure_stays(members@, i + 1, member_check(band@, names));
                }
                return Err(LoadError::Invalid(String::from_str(e.message())));
            },
        };
        if !knows_venue(known, &id) {
            proof {
                lemma_list_failure_stays(members@, i + 1, member_check(band@, names));
            }
            return Err(LoadError::UnknownBandMember { band: band.clone(), venue: members[i].clone() });
        }
        ids.push(id);
        i = i + 1;
    }
    proof {
        assert(members@.take(members@.len() as int) =~= members@);
    }
    Ok(ids)
}

/// Whether an earlier band record used this identifier.
fn id_used_before(records: &Vec<BandRecord>, k: usize) -> (r: bool)
    requires
        k < records@.len(),
    ensures
        r == exists|j: int| 0 <= j < k && (#[trigger] records@[j]).id@ == records@[k as int].id@,
{
    let mut j: usize = 0;
    while j < k
        invariant
            k < records@.len(),
            j <= k,
            forall|i: int| 0 <= i < j ==> (#[trigger] records@[i]).id@ != records@[k as int].id@,
        decreases k - j,
    {
        if text_eq(records[j].id.as_str(), records[k].id.as_str()) {
            return true;
        }
        j = j + 1;
    }
    false
}

/// Reads the band records at `k`.
fn read_band(records: &Vec<BandRecord>, k: usize, known: &Vec<VenueId>) -> (r: Result<
    BandDefinition,
    LoadError,
>)
    requires
        k < records@.len(),
    ensures
        match r {
            Ok(band) => band_failure(records@, k as int, id_texts(known@)) is None
                && band_read(records@[k as int], band),
            Err(e) => band_failure(records@, k as int, id_texts(known@)) == Some(
                e@,
            ),
        },
{
    let record = &records[k];
    if id_used_before(records, k) {
        return Err(LoadError::DuplicateBandId { id: record.id.clone() });
    }
    let id = match BandId::new(record.id.clone()) {
        Ok(id) => id,
        Err(e) => return Err(LoadError::Invalid(String::from_str(e.message()))),
    };
    let members = match read_members(&record.id, &record.members, known) {
        Ok(ids) => ids,
        Err(e) => return Err(e),
    };
    let derivation = match DerivationNote::new(record.derived_reasoning.clone()) {
        Ok(note) => note,
        Err(e) => return Err(LoadError::Invalid(String::from_str(e.message()))),
    };
    proof {
        lemma_first_repeat_texts(members@, texts_of(record.members@), members@.len());
        reveal_strlit("a session band needs at least one member venue");
        reveal_strlit("venue ");
        reveal_strlit(" is listed as a member more than once");
    }
    let ghost member_ids = members@;
    let ghost known_names = id_texts(known@);
    assert(list_failure(record.members@, member_check(record.id@, known_names)) is None);
    assert(!is_blank_text(record.derived_reasoning@));
    assert(identifier_failure(record.id@, IdentifierKind::Band) is None);
    match BandDefinition::new(id, record.display_name.clone(), members, derivation) {
        Ok(band) => {
            assert(definition_failure(record.members@) is None);
            assert(band_read(records@[k as int], band));
            Ok(band)
        },
        Err(e) => {
            let message = e.describe();
            proof {
                if member_ids.len() > 0 {
                    let at = crate::bands::first_repeat_upto(member_ids, member_ids.len());
                    assert(at == first_repeated_text(texts_of(record.members@), record.members@.len()));
                    assert(at >= 0);
                    lemma_first_repeat_in_range(texts_of(record.members@), record.members@.len());
                    match e {
                        BandError::DuplicateMember(m) => {
                            assert(m@ == member_ids[at]@);
                            assert(member_ids[at]@ == record.members@[at]@);
                            assert(message@ == "venue "@ + m@ + " is listed as a member more than once"@);
                            assert(definition_failure(record.members@) == Some(LoadFailure::Invalid("venue "@ + record.members@[at]@ + " is listed as a member more than once"@)));
                        },
                        _ => {},
                    }
                } else {
                    assert(e == BandError::NoMembers);
                    assert(message@ == "a session band needs at least one member venue"@);
                }
            }
            assert(definition_failure(record.members@) == Some(LoadFailure::Invalid(message@)));
            Err(LoadError::Invalid(message))
        },
    }
}

/// Reads band records in order, each checked against the venues `ruleset` declares.
pub fn read_bands(records: &Vec<BandRecord>, ruleset: &Ruleset) -> (r: Result<Vec<BandDefinition>, LoadError>)
    ensures
        match r {
            Ok(bands) => bands_failure(records@, venue_ids_of(ruleset.venue_list())) is None
                && bands_read(records@, bands@),
            Err(e) => bands_failure(records@, venue_ids_of(ruleset.venue_list())) == Some(e@),
        },
{
    let known = ruleset.venues();
    let ghost names = venue_ids_of(ruleset.venue_list());
    proof {
        assert(id_texts(known@) =~= names);
    }
    let mut bands: Vec<BandDefinition> = Vec::new();
    let mut k: usize = 0;
    while k < records.len()
        invariant
            k <= records@.len(),
            names == id_texts(known@),
            names == venue_ids_of(ruleset.venue_list()),
            bands_failure_upto(records@, k as nat, names) is None,
            bands@.len() == k,
            forall|i: int| 0 <= i < k ==> band_read(#[trigger] records@[i], bands@[i]),
        decreases records@.len() - k,
    {
        match read_band(records, k, &known) {
            Ok(band) => bands.push(band),
            Err(e) => {
                proof {
                    lemma_bands_failure_stays(records@, (k + 1) as nat, names);
                }
                return Err(e);
            },
        }
        k = k + 1;
    }
    Ok(bands)
}

/// A failure among the first `n` band records is the failure of all of them.
proof fn lemma_bands_failure_stays(records: Seq<BandRecord>, n: nat, known: Seq<Seq<char>>)
    requires
        n <= records.len(),
        bands_failure_upto(records, n, known) is Some,
    ensures
        bands_failure(records, known) == bands_failure_upto(records, n, known),
    decreases records.len() - n,
{
    if n < records.len() {
        lemma_bands_failure_stays(records, n + 1, known);
    }
}

/// Band failures are the same against any two lists that know the same venues.
proof fn lemma_bands_failure_known(
    records: Seq<BandRecord>,
    n: nat,
    known: Seq<Seq<char>>,
    other: Seq<Seq<char>>,
)
    requires
        forall|t: Seq<char>| known.contains(t) <==> other.contains(t),
    ensures
        bands_failure_upto(records, n, known) == bands_failure_upto(records, n, other),
    decreases n,
{
    if n > 0 {
        lemma_bands_failure_known(records, (n - 1) as nat, known, other);
        let band = records[n - 1].id@;
        assert(member_check(band, known) =~= member_check(band, other));
    }
}

/// The venues a validated ruleset holds are named exactly as the venue records name them.
proof fn lemma_known_venues(list: Seq<VenueRuleset>, venues: Seq<VenueRuleset>, records: Seq<VenueRecord>)
    requires
        same_venues(list, venues),
        venues_read(records, venues),
    ensures
        forall|t: Seq<char>| venue_ids_of(list).contains(t) <==> venue_names(records).contains(t),
{
    assert forall|t: Seq<char>| venue_ids_of(list).contains(t) <==> venue_names(records).contains(t) by {
        if venue_ids_of(list).contains(t) {
            let i = choose|i: int| 0 <= i < venue_ids_of(list).len() && venue_ids_of(list)[i] == t;
            vstd::seq_lib::to_multiset_contains(list, list[i]);
            vstd::seq_lib::to_multiset_contains(venues, list[i]);
            assert(list.contains(list[i]));
            let j = choose|j: int| 0 <= j < venues.len() && venues[j] == list[i];
            assert(venue_read(records[j], venues[j]));
            assert(venue_names(records)[j] == t);
        }
        if venue_names(records).contains(t) {
            let j = choose|j: int| 0 <= j < venue_names(records).len() && venue_names(records)[j] == t;
            assert(venue_read(records[j], venues[j]));
            vstd::seq_lib::to_multiset_contains(list, venues[j]);
            vstd::seq_lib::to_multiset_contains(venues, venues[j]);
            assert(venues.contains(venues[j]));
            let i = choose|i: int| 0 <= i < list.len() && list[i] == venues[j];
            assert(venue_ids_of(list)[i] == t);
        }
    }
}

// ------------------------------------------------------------------------------ datasets

/// Everything a dataset file materializes: the validated ruleset and the session bands it
/// defines, each checked against that same ruleset's venues.
#[derive(Debug)]
pub struct LoadedDataset {
    /// The validated ruleset.
    pub ruleset: Ruleset,
    /// The session bands the file defines.
    pub bands: Vec<BandDefinition>,
}

/// A problem in the records themselves, before the ruleset is checked: the revisions are
/// read first, then the venues.
pub open spec fn record_failure(revisions: Seq<RevisionRecord>, venues: Seq<VenueRecord>) -> Option<
    LoadFailure,
> {
    either(list_failure(revisions, revision_check()), list_failure(venues, venue_check()))
}

/// The revisions and venues the records describe make a valid ruleset.
pub open spec fn ruleset_accepted(revisions: Seq<RevisionRecord>, venues: Seq<VenueRecord>) -> bool {
    exists|read_revisions: Seq<DatasetRevision>, read_venues: Seq<VenueRuleset>|
        #![trigger revisions_read(revisions, read_revisions), venues_read(venues, read_venues)]
        revisions_read(revisions, read_revisions) && venues_read(venues, read_venues) && parts_valid(
            read_revisions,
            read_venues,
        )
}

/// The revisions and venues the records describe do not make a valid ruleset, and `e`
/// states the violation the ruleset reports for them: the first problem of the first
/// venue that fails.
pub open spec fn ruleset_refused(
    revisions: Seq<RevisionRecord>,
    venues: Seq<VenueRecord>,
    e: LoadFailure,
) -> bool {
    exists|read_revisions: Seq<DatasetRevision>, read_venues: Seq<VenueRuleset>, err: RulesetError|
        #![trigger revisions_read(revisions, read_revisions), venues_read(venues, read_venues), ruleset_reports(err, read_revisions, read_venues)]
        revisions_read(revisions, read_revisions) && venues_read(venues, read_venues) && !parts_valid(
            read_revisions,
            read_venues,
        ) && ruleset_reports(err, read_revisions, read_venues) && e == LoadFailure::Invalid(
            ruleset_error_text(err),
        )
}

/// The records load: every record reads, the ruleset accepts them, and every band reads
/// against the venues they declare.
pub open spec fn accepted(
    revisions: Seq<RevisionRecord>,
    venues: Seq<VenueRecord>,
    bands: Seq<BandRecord>,
) -> bool {
    &&& record_failure(revisions, venues) is None
    &&& ruleset_accepted(revisions, venues)
    &&& bands_failure(bands, venue_names(venues)) is None
}

/// `e` is what loading the records reports: the first record problem; else a violation
/// the ruleset refuses them for; else, the ruleset accepting them, the first band problem.
pub open spec fn refused_with(
    revisions: Seq<RevisionRecord>,
    venues: Seq<VenueRecord>,
    bands: Seq<BandRecord>,
    e: LoadFailure,
) -> bool {
    match record_failure(revisions, venues) {
        Some(first) => first == e,
        None => ruleset_refused(revisions, venues, e) || (ruleset_accepted(revisions, venues)
            && bands_failure(bands, venue_names(venues)) == Some(e)),
    }
}

/// `d` is what the records load as: the revisions as read, the venues as read (in the
/// ruleset's identifier order), and the bands as read.
pub open spec fn loads_as(
    revisions: Seq<RevisionRecord>,
    venues: Seq<VenueRecord>,
    bands: Seq<BandRecord>,
    d: LoadedDataset,
) -> bool {
    &&& revisions_read(revisions, d.ruleset.revision_list())
    &&& exists|read_venues: Seq<VenueRuleset>|
        #![trigger venues_read(venues, read_venues)]
        venues_read(venues, read_venues) && same_venues(d.ruleset.venue_list(), read_venues)
    &&& bands_read(bands, d.bands@)
}

/// Builds the validated ruleset and the session bands that dataset records describe.
///
/// The revisions are read, then the venues; the first problem in a record is the error.
/// With every record read, the ruleset either accepts them, or the error names one of its
/// violations; then the bands are read against the venues the records declare.
pub fn dataset_from_parts(
    revisions: &Vec<RevisionRecord>,
    venues: &Vec<VenueRecord>,
    bands: &Vec<BandRecord>,
) -> (r: Result<LoadedDataset, LoadError>)
    ensures
        record_failure(revisions@, venues@) is Some ==> r is Err,
        match r {
            Ok(d) => accepted(revisions@, venues@, bands@) && loads_as(
                revisions@,
                venues@,
                bands@,
                d,
            ),
            Err(e) => refused_with(revisions@, venues@, bands@, e@),
        },
{
    let read_revision_list = match read_revisions(revisions) {
        Ok(list) => list,
        Err(e) => return Err(e),
    };
    let read_venue_list = match read_venues(venues) {
        Ok(list) => list,
        Err(e) => return Err(e),
    };
    let ghost read_revs = read_revision_list@;
    let ghost read_vens = read_venue_list@;
    let ruleset = match Ruleset::from_parts(read_revision_list, read_venue_list) {
        Ok(ruleset) => ruleset,
        Err(e) => {
            let message = e.describe();
            proof {
                assert(revisions_read(revisions@, read_revs) && venues_read(venues@, read_vens)
                    && ruleset_reports(e, read_revs, read_vens));
            }
            return Err(LoadError::Invalid(message));
        },
    };
    proof {
        assert(revisions_read(revisions@, read_revs) && venues_read(venues@, read_vens));
        lemma_known_venues(ruleset.venue_list(), read_vens, venues@);
        lemma_bands_failure_known(
            bands@,
            bands@.len(),
            venue_ids_of(ruleset.venue_list()),
            venue_names(venues@),
        );
    }
    let band_list = match read_bands(bands, &ruleset) {
        Ok(list) => list,
        Err(e) => return Err(e),
    };
    Ok(LoadedDataset { ruleset, bands: band_list })
}

/// Builds the validated ruleset and the session bands a dataset file describes; see
/// [`dataset_from_parts`].
pub fn dataset_from_file(file: &DatasetFile) -> (r: Result<LoadedDataset, LoadError>)
    ensures
        record_failure(file.revisions@, file.venues@) is Some ==> r is Err,
        match r {
            Ok(d) => accepted(file.revisions@, file.venues@, file.bands@) && loads_as(
                file.revisions@,
                file.venues@,
                file.bands@,
                d,
            ),
            Err(e) => refused_with(file.revisions@, file.venues@, file.bands@, e@),
        },
{
    dataset_from_parts(&file.revisions, &file.venues, &file.bands)
}

/// The English weekday abbreviations in the order the days run from 1970-01-01, a
/// Thursday: the `n`-th day after that date is named by entry `n % 7`.
pub open spec fn abbreviations_from_epoch() -> Seq<Seq<char>> {
    seq!["thu"@, "fri"@, "sat"@, "sun"@, "mon"@, "tue"@, "wed"@]
}

/// The English weekday names in full, in the same order.
pub open spec fn full_names_from_epoch() -> Seq<Seq<char>> {
    seq!["thursday"@, "friday"@, "saturday"@, "sunday"@, "monday"@, "tuesday"@, "wednesday"@]
}

/// A weekday name reads as the weekday the calendar gives the dates it names: for any date,
/// its English abbreviation and its full name both read as the weekday the calendar
/// computes for it; and nothing but those fourteen names reads as a weekday at all.
pub proof fn a_weekday_name_reads_as_the_day_the_calendar_names(y: int, m: int, d: int, name: Seq<char>)
    ensures
        weekday_named(abbreviations_from_epoch()[days_from_civil(y, m, d) % 7])
            == Some(weekday_numbered(weekday_from_civil(y, m, d))),
        weekday_named(full_names_from_epoch()[days_from_civil(y, m, d) % 7])
            == Some(weekday_numbered(weekday_from_civil(y, m, d))),
        weekday_named(name) is Some ==> exists|k: int|
            0 <= k < 7 && (name == #[trigger] abbreviations_from_epoch()[k] || name == full_names_from_epoch()[k]),
{
    reveal_strlit("mon");
    reveal_strlit("monday");
    reveal_strlit("tue");
    reveal_strlit("tuesday");
    reveal_strlit("wed");
    reveal_strlit("wednesday");
    reveal_strlit("thu");
    reveal_strlit("thursday");
    reveal_strlit("fri");
    reveal_strlit("friday");
    reveal_strlit("sat");
    reveal_strlit("saturday");
    reveal_strlit("sun");
    reveal_strlit("sunday");
    let n = days_from_civil(y, m, d);
    let r = n % 7;
    assert((n + 3) % 7 == (r + 3) % 7);
    let abbr = abbreviations_from_epoch();
    let full = full_names_from_epoch();
    assert("mon"@[0] == 'm' && "mon"@[1] == 'o');
    assert("monday"@[0] == 'm' && "monday"@[1] == 'o');
    assert("tue"@[0] == 't' && "tue"@[1] == 'u');
    assert("tuesday"@[0] == 't' && "tuesday"@[1] == 'u');
    assert("wed"@[0] == 'w' && "wed"@[1] == 'e');
    assert("wednesday"@[0] == 'w' && "wednesday"@[1] == 'e');
    assert("thu"@[0] == 't' && "thu"@[1] == 'h');
    assert("thursday"@[0] == 't' && "thursday"@[1] == 'h');
    assert("fri"@[0] == 'f' && "fri"@[1] == 'r');
    assert("friday"@[0] == 'f' && "friday"@[1] == 'r');
    assert("sat"@[0] == 's' && "sat"@[1] == 'a');
    assert("saturday"@[0] == 's' && "saturday"@[1] == 'a');
    assert("sun"@[0] == 's' && "sun"@[1] == 'u');
    assert("sunday"@[0] == 's' && "sunday"@[1] == 'u');
    if r == 0 {
        assert(abbr[r] == "thu"@ && full[r] == "thursday"@);
    } else if r == 1 {
        assert(abbr[r] == "fri"@ && full[r] == "friday"@);
    } else if r == 2 {
        assert(abbr[r] == "sat"@ && full[r] == "saturday"@);
    } else if r == 3 {
        assert(abbr[r] == "sun"@ && full[r] == "sunday"@);
    } else if r == 4 {
        assert(abbr[r] == "mon"@ && full[r] == "monday"@);
    } else if r == 5 {
        assert(abbr[r] == "tue"@ && full[r] == "tuesday"@);
    } else {
        assert(abbr[r] == "wed"@ && full[r] == "wednesday"@);
    }
    if weekday_named(name) is Some {
        if name == "mon"@ || name == "monday"@ {
            assert(name == abbr[4] || name == full[4]);
        } else if name == "tue"@ || name == "tuesday"@ {
            assert(name == abbr[5] || name == full[5]);
        } else if name == "wed"@ || name == "wednesday"@ {
            assert(name == abbr[6] || name == full[6]);
        } else if name == "thu"@ || name == "thursday"@ {
            assert(name == abbr[0] || name == full[0]);
        } else if name == "fri"@ || name == "friday"@ {
            assert(name == abbr[1] || name == full[1]);
        } else if name == "sat"@ || name == "saturday"@ {
            assert(name == abbr[2] || name == full[2]);
        } else {
            assert(name == abbr[3] || name == full[3]);
        }
    }
}

} // verus!
