//! Provenance carried on every rule, and therefore on every answer.

use crate::instant::UtcInstant;
use crate::text::{is_blank, is_blank_text};
use vstd::prelude::*;

verus! {

/// Where a rule came from.
#[derive(Debug, Clone, PartialEq, Eq)]
pub struct EvidenceRef {
    source_url: String,
    fetched_at: UtcInstant,
    effective_from: String,
    publisher_last_changed: Option<String>,
}

/// Why an evidence reference or a derivation note could not be built.
#[derive(Debug, Clone, Copy, PartialEq, Eq)]
pub enum EvidenceError {
    /// No source document was given.
    MissingSourceUrl,
    /// No effective date was given.
    MissingEffectiveFrom,
    /// A rule was marked derived without reasoning.
    DerivedWithoutReasoning,
}

/// The message for an evidence error.
pub open spec fn evidence_message(e: EvidenceError) -> Seq<char> {
    match e {
        EvidenceError::MissingSourceUrl => "evidence has no source document"@,
        EvidenceError::MissingEffectiveFrom => "evidence has no effective date"@,
        EvidenceError::DerivedWithoutReasoning => "a derived rule must carry its reasoning"@,
    }
}

impl EvidenceError {
    /// The message a shell prints for this error.
    pub fn message(&self) -> (r: &'static str)
        ensures
            r@ == evidence_message(*self),
    {
        match self {
            EvidenceError::MissingSourceUrl => "evidence has no source document",
            EvidenceError::MissingEffectiveFrom => "evidence has no effective date",
            EvidenceError::DerivedWithoutReasoning => "a derived rule must carry its reasoning",
        }
    }
}

impl EvidenceRef {
    /// The source document's location.
    pub closed spec fn spec_source_url(self) -> Seq<char> {
        self.source_url@
    }

    /// When the source was retrieved.
    pub closed spec fn spec_fetched_at(self) -> UtcInstant {
        self.fetched_at
    }

    /// The date the rule takes effect.
    pub closed spec fn spec_effective_from(self) -> Seq<char> {
        self.effective_from@
    }

    /// When the publisher last changed the document, where known.
    pub closed spec fn spec_publisher_last_changed(self) -> Option<Seq<char>> {
        match self.publisher_last_changed {
            Some(s) => Some(s@),
            None => None,
        }
    }

    /// Builds an evidence reference; a blank source URL or effective date is rejected,
    /// the URL being checked first.
    pub fn new(source_url: String, fetched_at: UtcInstant, effective_from: String) -> (r: Result<
        EvidenceRef,
        EvidenceError,
    >)
        ensures
            is_blank_text(source_url@) ==> r == Err::<EvidenceRef, _>(
                EvidenceError::MissingSourceUrl,
            ),
            !is_blank_text(source_url@) && is_blank_text(effective_from@) ==> r == Err::<
                EvidenceRef,
                _,
            >(EvidenceError::MissingEffectiveFrom),
            !is_blank_text(source_url@) && !is_blank_text(effective_from@) ==> r is Ok,
            r matches Ok(e) ==> e.spec_source_url() == source_url@ && e.spec_fetched_at()
                == fetched_at && e.spec_effective_from() == effective_from@
                && e.spec_publisher_last_changed() is None,
    {
        if is_blank(source_url.as_str()) {
            return Err(EvidenceError::MissingSourceUrl);
        }
        if is_blank(effective_from.as_str()) {
            return Err(EvidenceError::MissingEffectiveFrom);
        }
        Ok(EvidenceRef { source_url, fetched_at, effective_from, publisher_last_changed: None })
    }

    /// Records when the publisher last changed the document.
    pub fn with_publisher_last_changed(self, when: String) -> (r: EvidenceRef)
        ensures
            r.spec_source_url() == self.spec_source_url(),
            r.spec_fetched_at() == self.spec_fetched_at(),
            r.spec_effective_from() == self.spec_effective_from(),
            r.spec_publisher_last_changed() == Some(when@),
    {
        EvidenceRef { publisher_last_changed: Some(when), ..self }
    }

    /// The source document.
    pub fn source_url(&self) -> (r: &str)
        ensures
            r@ == self.spec_source_url(),
    {
        self.source_url.as_str()
    }

    /// When the source was retrieved.
    pub fn fetched_at(&self) -> (r: UtcInstant)
        ensures
            r == self.spec_fetched_at(),
    {
        self.fetched_at
    }

    /// The date the rule takes effect.
    pub fn effective_from(&self) -> (r: &str)
        ensures
            r@ == self.spec_effective_from(),
    {
        self.effective_from.as_str()
    }

    /// When the publisher last changed the document, where known.
    pub fn publisher_last_changed(&self) -> (r: Option<&str>)
        ensures
            r matches Some(s) ==> self.spec_publisher_last_changed() == Some(s@),
            r is None <==> self.spec_publisher_last_changed() is None,
    {
        match &self.publisher_last_changed {
            Some(s) => Some(s.as_str()),
            None => None,
        }
    }

    /// A copy of this reference.
    pub fn duplicate(&self) -> (r: EvidenceRef)
        ensures
            r == *self,
    {
        EvidenceRef {
            source_url: self.source_url.clone(),
            fetched_at: self.fetched_at,
            effective_from: self.effective_from.clone(),
            publisher_last_changed: match &self.publisher_last_changed {
                Some(s) => Some(s.clone()),
                None => None,
            },
        }
    }
}

/// Why a rule is a reading of a source rather than a quotation of one. The reasoning is
/// never blank.
#[derive(Debug, Clone, PartialEq, Eq)]
pub struct DerivationNote {
    reasoning: String,
}

impl DerivationNote {
    /// The reasoning behind the derivation.
    pub closed spec fn spec_reasoning(self) -> Seq<char> {
        self.reasoning@
    }

    /// Builds a derivation note; blank reasoning is rejected.
    pub fn new(reasoning: String) -> (r: Result<DerivationNote, EvidenceError>)
        ensures
            is_blank_text(reasoning@) <==> r is Err,
            r matches Err(e) ==> e == EvidenceError::DerivedWithoutReasoning,
            r matches Ok(n) ==> n.spec_reasoning() == reasoning@,
    {
        if is_blank(reasoning.as_str()) {
            return Err(EvidenceError::DerivedWithoutReasoning);
        }
        Ok(DerivationNote { reasoning })
    }

    /// The reasoning behind the derivation.
    pub fn reasoning(&self) -> (r: &str)
        ensures
            r@ == self.spec_reasoning(),
    {
        self.reasoning.as_str()
    }

    /// A copy of this note.
    pub fn duplicate(&self) -> (r: DerivationNote)
        ensures
            r == *self,
    {
        DerivationNote { reasoning: self.reasoning.clone() }
    }
}

} // verus!
