//! Opaque identifiers carried by rule data and answers.

use crate::text::{is_blank, is_blank_text};
use vstd::prelude::*;

verus! {

/// Which identifier an [`IdentifierError`] is about.
#[derive(Debug, Clone, Copy, PartialEq, Eq)]
pub enum IdentifierKind {
    /// A venue identifier.
    Venue,
    /// A dataset revision identifier.
    DatasetRevision,
    /// An IANA zone identifier.
    IanaZone,
    /// A session band identifier.
    Band,
}

/// An error returned when an opaque identifier is empty or white space only.
#[derive(Debug, Clone, PartialEq, Eq)]
pub struct IdentifierError {
    /// Which identifier was blank.
    pub kind: IdentifierKind,
}

/// The message for a blank identifier of a kind.
pub open spec fn identifier_message(kind: IdentifierKind) -> Seq<char> {
    match kind {
        IdentifierKind::Venue => "venue id must not be empty"@,
        IdentifierKind::DatasetRevision => "dataset revision id must not be empty"@,
        IdentifierKind::IanaZone => "IANA zone id must not be empty"@,
        IdentifierKind::Band => "band id must not be empty"@,
    }
}

impl IdentifierError {
    /// The message a shell prints for this error.
    pub fn message(&self) -> (r: &'static str)
        ensures
            r@ == identifier_message(self.kind),
    {
        match self.kind {
            IdentifierKind::Venue => "venue id must not be empty",
            IdentifierKind::DatasetRevision => "dataset revision id must not be empty",
            IdentifierKind::IanaZone => "IANA zone id must not be empty",
            IdentifierKind::Band => "band id must not be empty",
        }
    }
}

/// An opaque venue identifier such as `SSE`.
#[derive(Debug, Clone, PartialEq, Eq, PartialOrd, Ord, Hash)]
pub struct VenueId(String);

impl View for VenueId {
    type V = Seq<char>;

    closed spec fn view(&self) -> Seq<char> {
        self.0@
    }
}

impl VenueId {
    /// Validates and constructs a venue identifier.
    pub fn new(value: String) -> (r: Result<Self, IdentifierError>)
        ensures
            is_blank_text(value@) <==> r is Err,
            r matches Ok(id) ==> id@ == value@,
            r matches Err(e) ==> e.kind == IdentifierKind::Venue,
    {
        if is_blank(value.as_str()) {
            Err(IdentifierError { kind: IdentifierKind::Venue })
        } else {
            Ok(VenueId(value))
        }
    }

    /// Borrows the identifier as text.
    pub fn as_str(&self) -> (r: &str)
        ensures
            r@ == self@,
    {
        self.0.as_str()
    }

    /// Whether two identifiers name the same venue.
    pub fn same_as(&self, other: &VenueId) -> (r: bool)
        ensures
            r == (self@ == other@),
    {
        self.0 == other.0
    }

    /// A copy of this identifier.
    pub fn duplicate(&self) -> (r: VenueId)
        ensures
            r@ == self@,
    {
        VenueId(self.0.clone())
    }
}

/// The stable identifier of one immutable rule-data revision.
#[derive(Debug, Clone, PartialEq, Eq, PartialOrd, Ord, Hash)]
pub struct DatasetRevisionId(String);

impl View for DatasetRevisionId {
    type V = Seq<char>;

    closed spec fn view(&self) -> Seq<char> {
        self.0@
    }
}

impl DatasetRevisionId {
    /// Validates and constructs a dataset revision identifier.
    pub fn new(value: String) -> (r: Result<Self, IdentifierError>)
        ensures
            is_blank_text(value@) <==> r is Err,
            r matches Ok(id) ==> id@ == value@,
            r matches Err(e) ==> e.kind == IdentifierKind::DatasetRevision,
    {
        if is_blank(value.as_str()) {
            Err(IdentifierError { kind: IdentifierKind::DatasetRevision })
        } else {
            Ok(DatasetRevisionId(value))
        }
    }

    /// Borrows the identifier as text.
    pub fn as_str(&self) -> (r: &str)
        ensures
            r@ == self@,
    {
        self.0.as_str()
    }

    /// Whether two identifiers name the same revision.
    pub fn same_as(&self, other: &DatasetRevisionId) -> (r: bool)
        ensures
            r == (self@ == other@),
    {
        self.0 == other.0
    }

    /// A copy of this identifier.
    pub fn duplicate(&self) -> (r: DatasetRevisionId)
        ensures
            r@ == self@,
    {
        DatasetRevisionId(self.0.clone())
    }
}

/// An opaque IANA time-zone identifier such as `America/New_York`.
#[derive(Debug, Clone, PartialEq, Eq, PartialOrd, Ord, Hash)]
pub struct IanaZoneId(String);

impl View for IanaZoneId {
    type V = Seq<char>;

    closed spec fn view(&self) -> Seq<char> {
        self.0@
    }
}

impl IanaZoneId {
    /// Validates and constructs an IANA zone identifier.
    pub fn new(value: String) -> (r: Result<Self, IdentifierError>)
        ensures
            is_blank_text(value@) <==> r is Err,
            r matches Ok(id) ==> id@ == value@,
            r matches Err(e) ==> e.kind == IdentifierKind::IanaZone,
    {
        if is_blank(value.as_str()) {
            Err(IdentifierError { kind: IdentifierKind::IanaZone })
        } else {
            Ok(IanaZoneId(value))
        }
    }

    /// Borrows the identifier as text.
    pub fn as_str(&self) -> (r: &str)
        ensures
            r@ == self@,
    {
        self.0.as_str()
    }

    /// A copy of this identifier.
    pub fn duplicate(&self) -> (r: IanaZoneId)
        ensures
            r@ == self@,
    {
        IanaZoneId(self.0.clone())
    }
}

/// The identifier of a derived session band.
#[derive(Debug, Clone, PartialEq, Eq, PartialOrd, Ord, Hash)]
pub struct BandId(String);

impl View for BandId {
    type V = Seq<char>;

    closed spec fn view(&self) -> Seq<char> {
        self.0@
    }
}

impl BandId {
    /// Validates and constructs a band identifier.
    pub fn new(value: String) -> (r: Result<Self, IdentifierError>)
        ensures
            is_blank_text(value@) <==> r is Err,
            r matches Ok(id) ==> id@ == value@,
            r matches Err(e) ==> e.kind == IdentifierKind::Band,
    {
        if is_blank(value.as_str()) {
            Err(IdentifierError { kind: IdentifierKind::Band })
        } else {
            Ok(BandId(value))
        }
    }

    /// Borrows the identifier as text.
    pub fn as_str(&self) -> (r: &str)
        ensures
            r@ == self@,
    {
        self.0.as_str()
    }

    /// Whether two identifiers name the same band.
    pub fn same_as(&self, other: &BandId) -> (r: bool)
        ensures
            r == (self@ == other@),
    {
        self.0 == other.0
    }

    /// A copy of this identifier.
    pub fn duplicate(&self) -> (r: BandId)
        ensures
            r@ == self@,
    {
        BandId(self.0.clone())
    }
}

} // verus!
