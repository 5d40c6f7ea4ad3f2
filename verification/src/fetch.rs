//! Recording what was retrieved, and under what terms.
//!
//! The library is a client, not a redistributor: the operator fetches under their own
//! relationship with a venue. A source's terms are recorded at registration, before any
//! retrieval, and a retrieval carries a digest of exactly the bytes it returned.

use crate::instant::UtcInstant;
use crate::text::is_blank;
use crate::text::is_blank_text;
use sha2::{Digest, Sha256};
use vstd::prelude::*;

verus! {

/// The SHA-256 digest of a byte string, as `sha2` computes it.
pub uninterp spec fn sha256_of(bytes: Seq<u8>) -> Seq<u8>;

/// The text a byte string decodes to as UTF-8, or `None` when it is not UTF-8.
pub open spec fn utf8_decode(bytes: Seq<u8>) -> Option<Seq<char>> {
    if vstd::utf8::valid_utf8(bytes) {
        Some(vstd::utf8::decode_utf8(bytes))
    } else {
        None
    }
}

/// Calls `sha2::Sha256::digest`: the 32-byte SHA-256 digest of the bytes.
#[verifier::external_body]
fn sha256(bytes: &[u8]) -> (r: Vec<u8>)
    ensures
        r@ == sha256_of(bytes@),
        r@.len() == 32,
{
    Sha256::digest(bytes).to_vec()
}

/// Calls `std::str::from_utf8`: the text the bytes encode when they are valid UTF-8, or
/// `None` when they are not.
#[verifier::external_body]
fn decode_utf8(bytes: &[u8]) -> (r: Option<&str>)
    ensures
        r matches Some(text) ==> utf8_decode(bytes@) == Some(text@),
        r is None <==> utf8_decode(bytes@) is None,
{
    std::str::from_utf8(bytes).ok()
}

/// The lowercase hexadecimal digit for `d` (0-15).
pub open spec fn hex_char(d: int) -> char {
    if d < 10 {
        crate::text::digit_char(d)
    } else if d == 10 {
        'a'
    } else if d == 11 {
        'b'
    } else if d == 12 {
        'c'
    } else if d == 13 {
        'd'
    } else if d == 14 {
        'e'
    } else {
        'f'
    }
}

/// Bytes as lowercase hexadecimal, two digits per byte.
pub open spec fn hex_of(bytes: Seq<u8>) -> Seq<char>
    decreases bytes.len(),
{
    if bytes.len() == 0 {
        Seq::empty()
    } else {
        hex_of(bytes.drop_last()) + seq![
            hex_char((bytes.last() / 16) as int),
            hex_char((bytes.last() % 16) as int),
        ]
    }
}

/// The digest text of a byte string: `sha256:` and the digest in lowercase hex.
pub open spec fn digest_text(bytes: Seq<u8>) -> Seq<char> {
    "sha256:"@ + hex_of(sha256_of(bytes))
}

/// A source, registered together with the terms it may be used under.
#[derive(Debug, Clone, PartialEq, Eq)]
pub struct SourceRegistration {
    url: String,
    terms: String,
    note: Option<String>,
}

/// Why a source could not be registered or retrieved.
#[derive(Debug, Clone, PartialEq, Eq)]
pub enum FetchError {
    /// The registration had no URL.
    MissingUrl,
    /// The registration had no terms.
    MissingTerms {
        /// The URL that was being registered.
        url: String,
    },
    /// The document could not be read.
    Unreadable {
        /// The registered URL.
        url: String,
        /// Where the fetcher looked.
        path: String,
        /// What the operating system said.
        detail: String,
    },
    /// The document is not UTF-8 text.
    NotText {
        /// The registered URL.
        url: String,
    },
}

/// The message for a fetch error.
pub open spec fn fetch_error_text(e: FetchError) -> Seq<char> {
    match e {
        FetchError::MissingUrl => "a source registration needs a URL"@,
        FetchError::MissingTerms { url } => "no terms recorded for "@ + url@
            + "; terms are recorded at registration, before anything is fetched"@,
        FetchError::Unreadable { url, path, detail } => "cannot read "@ + url@ + " from "@ + path@
            + ": "@ + detail@,
        FetchError::NotText { url } => url@ + " is not UTF-8 text"@,
    }
}

impl FetchError {
    /// The message a shell prints for this error.
    pub fn describe(&self) -> (r: String)
        ensures
            r@ == fetch_error_text(*self),
    {
        proof {
            reveal_strlit("no terms recorded for ");
            reveal_strlit("; terms are recorded at registration, before anything is fetched");
            reveal_strlit("cannot read ");
            reveal_strlit(" from ");
            reveal_strlit(": ");
            reveal_strlit(" is not UTF-8 text");
        }
        match self {
            FetchError::MissingUrl => String::from_str("a source registration needs a URL"),
            FetchError::MissingTerms { url } => {
                let mut out = String::from_str("no terms recorded for ");
                out.append(url.as_str());
                out.append("; terms are recorded at registration, before anything is fetched");
                out
            },
            FetchError::Unreadable { url, path, detail } => {
                let mut out = String::from_str("cannot read ");
                out.append(url.as_str());
                out.append(" from ");
                out.append(path.as_str());
                out.append(": ");
                out.append(detail.as_str());
                out
            },
            FetchError::NotText { url } => {
                let mut out = url.clone();
                out.append(" is not UTF-8 text");
                out
            },
        }
    }
}

impl SourceRegistration {
    /// The document's location.
    pub closed spec fn spec_url(self) -> Seq<char> {
        self.url@
    }

    /// The recorded terms.
    pub closed spec fn spec_terms(self) -> Seq<char> {
        self.terms@
    }

    /// The registration note.
    pub closed spec fn spec_note(self) -> Option<Seq<char>> {
        match self.note {
            Some(n) => Some(n@),
            None => None,
        }
    }

    /// Registers a source together with its terms. A blank URL is `MissingUrl`; blank
    /// terms are `MissingTerms`, naming the URL: a document whose terms nobody wrote down
    /// is one nobody can say was allowed to be used.
    pub fn new(url: String, terms: String) -> (r: Result<SourceRegistration, FetchError>)
        ensures
            is_blank_text(url@) ==> r == Err::<SourceRegistration, FetchError>(FetchError::MissingUrl),
            !is_blank_text(url@) && is_blank_text(terms@) ==> (r matches Err(FetchError::MissingTerms { url: u })
                && u@ == url@),
            !is_blank_text(url@) && !is_blank_text(terms@) ==> (r matches Ok(s) && s.spec_url() == url@
                && s.spec_terms() == terms@ && s.spec_note() is None),
    {
        if is_blank(url.as_str()) {
            return Err(FetchError::MissingUrl);
        }
        if is_blank(terms.as_str()) {
            return Err(FetchError::MissingTerms { url });
        }
        Ok(SourceRegistration { url, terms, note: None })
    }

    /// Adds a free-text note, e.g. which page of the terms a quotation came from.
    pub fn with_note(self, note: String) -> (r: SourceRegistration)
        ensures
            r.spec_url() == self.spec_url(),
            r.spec_terms() == self.spec_terms(),
            r.spec_note() == Some(note@),
    {
        SourceRegistration { url: self.url, terms: self.terms, note: Some(note) }
    }

    /// The document's location.
    pub fn url(&self) -> (r: &str)
        ensures
            r@ == self.spec_url(),
    {
        self.url.as_str()
    }

    /// The terms recorded at registration.
    pub fn terms(&self) -> (r: &str)
        ensures
            r@ == self.spec_terms(),
    {
        self.terms.as_str()
    }

    /// The registration note, where one was given.
    pub fn note(&self) -> (r: Option<&str>)
        ensures
            match r {
                Some(n) => self.spec_note() == Some(n@),
                None => self.spec_note() is None,
            },
    {
        match &self.note {
            Some(n) => Some(n.as_str()),
            None => None,
        }
    }

    /// A copy of this registration.
    pub fn duplicate(&self) -> (r: SourceRegistration)
        ensures
            r.spec_url() == self.spec_url(),
            r.spec_terms() == self.spec_terms(),
            r.spec_note() == self.spec_note(),
    {
        SourceRegistration {
            url: self.url.clone(),
            terms: self.terms.clone(),
            note: match &self.note {
                Some(n) => Some(n.clone()),
                None => None,
            },
        }
    }
}

/// A retrieved document with the provenance of the retrieval. The digest is computed
/// from the bytes, so it cannot disagree with them.
#[derive(Debug, PartialEq, Eq)]
pub struct FetchedDocument {
    source: SourceRegistration,
    fetched_at: UtcInstant,
    bytes: Vec<u8>,
    digest: String,
}

impl FetchedDocument {
    #[verifier::type_invariant]
    closed spec fn inv(self) -> bool {
        self.digest@ == digest_text(self.bytes@)
    }

    /// Where it came from.
    pub closed spec fn spec_source(self) -> SourceRegistration {
        self.source
    }

    /// When it was retrieved.
    pub closed spec fn spec_fetched_at(self) -> UtcInstant {
        self.fetched_at
    }

    /// The bytes as retrieved.
    pub closed spec fn spec_bytes(self) -> Seq<u8> {
        self.bytes@
    }

    /// Records a retrieval, computing the digest of the bytes.
    pub fn new(source: SourceRegistration, fetched_at: UtcInstant, bytes: Vec<u8>) -> (r: FetchedDocument)
        ensures
            r.spec_source() == source,
            r.spec_fetched_at() == fetched_at,
            r.spec_bytes() == bytes@,
    {
        let raw = sha256(bytes.as_slice());
        let mut digest = String::from_str("sha256:");
        proof {
            reveal_strlit("sha256:");
        }
        let mut i: usize = 0;
        while i < raw.len()
            invariant
                i <= raw@.len(),
                digest@ == "sha256:"@ + hex_of(raw@.subrange(0, i as int)),
            decreases raw@.len() - i,
        {
            let byte = raw[i];
            digest.append(hex_digit(byte / 16));
            digest.append(hex_digit(byte % 16));
            proof {
                let next = raw@.subrange(0, i + 1);
                assert(next.drop_last() =~= raw@.subrange(0, i as int));
                assert(next.last() == byte);
                assert(digest@ =~= "sha256:"@ + hex_of(next));
            }
            i = i + 1;
        }
        proof {
            assert(raw@.subrange(0, raw@.len() as int) =~= raw@);
        }
        FetchedDocument { source, fetched_at, bytes, digest }
    }

    /// Where it came from.
    pub fn source(&self) -> (r: &SourceRegistration)
        ensures
            *r == self.spec_source(),
    {
        &self.source
    }

    /// When it was retrieved.
    pub fn fetched_at(&self) -> (r: UtcInstant)
        ensures
            r == self.spec_fetched_at(),
    {
        self.fetched_at
    }

    /// The bytes as retrieved.
    pub fn bytes(&self) -> (r: &[u8])
        ensures
            r@ == self.spec_bytes(),
    {
        self.bytes.as_slice()
    }

    /// The content digest, `sha256:<hex>`: two retrievals of the same bytes agree on it.
    pub fn digest(&self) -> (r: &str)
        ensures
            r@ == digest_text(self.spec_bytes()),
    {
        proof {
            use_type_invariant(self);
        }
        self.digest.as_str()
    }

    /// The document as UTF-8 text; `NotText`, naming the URL, when it is not UTF-8.
    pub fn text(&self) -> (r: Result<&str, FetchError>)
        ensures
            match r {
                Ok(text) => utf8_decode(self.spec_bytes()) == Some(text@),
                Err(e) => utf8_decode(self.spec_bytes()) is None && (e matches FetchError::NotText { url }
                    && url@ == self.spec_source().spec_url()),
            },
    {
        match decode_utf8(self.bytes.as_slice()) {
            Some(text) => Ok(text),
            None => Err(FetchError::NotText { url: self.source.url.clone() }),
        }
    }
}

impl Clone for FetchedDocument {
    fn clone(&self) -> (r: FetchedDocument)
        ensures
            r.spec_source().spec_url() == self.spec_source().spec_url(),
            r.spec_source().spec_terms() == self.spec_source().spec_terms(),
            r.spec_fetched_at() == self.spec_fetched_at(),
            r.spec_bytes() == self.spec_bytes(),
    {
        proof {
            use_type_invariant(self);
        }
        let mut bytes: Vec<u8> = Vec::new();
        let mut i: usize = 0;
        while i < self.bytes.len()
            invariant
                i <= self.bytes@.len(),
                bytes@ == self.bytes@.subrange(0, i as int),
            decreases self.bytes@.len() - i,
        {
            bytes.push(self.bytes[i]);
            i = i + 1;
            assert(bytes@ =~= self.bytes@.subrange(0, i as int));
        }
        assert(bytes@ =~= self.bytes@);
        FetchedDocument {
            source: self.source.duplicate(),
            fetched_at: self.fetched_at,
            bytes,
            digest: self.digest.clone(),
        }
    }
}

/// The hexadecimal digit for `d` as a one-character text.
fn hex_digit(d: u8) -> (r: &'static str)
    requires
        d < 16,
    ensures
        r@ == seq![hex_char(d as int)],
{
    proof {
        reveal_strlit("0");
        reveal_strlit("1");
        reveal_strlit("2");
        reveal_strlit("3");
        reveal_strlit("4");
        reveal_strlit("5");
        reveal_strlit("6");
        reveal_strlit("7");
        reveal_strlit("8");
        reveal_strlit("9");
        reveal_strlit("a");
        reveal_strlit("b");
        reveal_strlit("c");
        reveal_strlit("d");
        reveal_strlit("e");
        reveal_strlit("f");
    }
    let r = if d == 0 {
        "0"
    } else if d == 1 {
        "1"
    } else if d == 2 {
        "2"
    } else if d == 3 {
        "3"
    } else if d == 4 {
        "4"
    } else if d == 5 {
        "5"
    } else if d == 6 {
        "6"
    } else if d == 7 {
        "7"
    } else if d == 8 {
        "8"
    } else if d == 9 {
        "9"
    } else if d == 10 {
        "a"
    } else if d == 11 {
        "b"
    } else if d == 12 {
        "c"
    } else if d == 13 {
        "d"
    } else if d == 14 {
        "e"
    } else {
        "f"
    };
    assert(r@ =~= seq![hex_char(d as int)]);
    r
}

/// A text without its trailing `/` characters.
pub open spec fn trim_slashes(s: Seq<char>) -> Seq<char>
    decreases s.len(),
{
    if s.len() > 0 && s.last() == '/' {
        trim_slashes(s.drop_last())
    } else {
        s
    }
}

/// The characters after the last `/` of a text (all of it when it has none).
pub open spec fn tail_segment(s: Seq<char>) -> Seq<char>
    decreases s.len(),
{
    if s.len() == 0 || s.last() == '/' {
        Seq::empty()
    } else {
        tail_segment(s.drop_last()).push(s.last())
    }
}

/// The last non-empty `/`-separated segment of a URL, or `document` when it has none.
pub open spec fn last_segment(url: Seq<char>) -> Seq<char> {
    if trim_slashes(url).len() == 0 {
        "document"@
    } else {
        tail_segment(trim_slashes(url))
    }
}

proof fn lemma_trim(s: Seq<char>, end: int)
    requires
        0 <= end <= s.len(),
        forall|k: int| end <= k < s.len() ==> s[k] == '/',
        end == 0 || s[end - 1] != '/',
    ensures
        trim_slashes(s) == s.subrange(0, end),
    decreases s.len(),
{
    if s.len() == end {
        assert(s.subrange(0, end) =~= s);
    } else {
        lemma_trim(s.drop_last(), end);
        assert(s.drop_last().subrange(0, end) =~= s.subrange(0, end));
    }
}

proof fn lemma_tail(t: Seq<char>, start: int)
    requires
        0 <= start <= t.len(),
        forall|k: int| start <= k < t.len() ==> t[k] != '/',
        start == 0 || t[start - 1] == '/',
    ensures
        tail_segment(t) == t.subrange(start, t.len() as int),
    decreases t.len(),
{
    if t.len() == start {
        assert(t.subrange(start, start) =~= Seq::<char>::empty());
    } else {
        lemma_tail(t.drop_last(), start);
        assert(t.subrange(start, t.len() as int) =~= t.drop_last().subrange(
            start,
            t.len() - 1,
        ).push(t.last()));
    }
}

proof fn lemma_no_segment(url: Seq<char>)
    requires
        forall|k: int| 0 <= k < url.len() ==> url[k] == '/',
    ensures
        last_segment(url) == "document"@,
{
    lemma_trim(url, 0);
}

proof fn lemma_last_segment(url: Seq<char>, start: int, end: int)
    requires
        0 <= start < end <= url.len(),
        url[end - 1] != '/',
        forall|k: int| end <= k < url.len() ==> url[k] == '/',
        forall|k: int| start <= k < end ==> url[k] != '/',
        start == 0 || url[start - 1] == '/',
    ensures
        last_segment(url) == url.subrange(start, end),
{
    lemma_trim(url, end);
    let t = url.subrange(0, end);
    lemma_tail(t, start);
    assert(t.subrange(start, end) =~= url.subrange(start, end));
}

impl SourceRegistration {
    /// The file name a local copy of this source's document is expected under: the URL's
    /// last non-empty path segment, or `document`.
    pub fn file_name(&self) -> (r: String)
        ensures
            r@ == last_segment(self.spec_url()),
    {
        let url = self.url.as_str();
        let n = url.unicode_len();
        let mut end: usize = n;
        while end > 0 && url.get_char(end - 1) == '/'
            invariant
                n == url@.len(),
                end <= n,
                forall|k: int| end <= k < n ==> url@[k] == '/',
            decreases end,
        {
            end = end - 1;
        }
        if end == 0 {
            proof {
                reveal_strlit("document");
                lemma_no_segment(url@);
            }
            return String::from_str("document");
        }
        let mut start: usize = end;
        while start > 0 && url.get_char(start - 1) != '/'
            invariant
                n == url@.len(),
                0 < end <= n,
                start <= end,
                url@[end - 1] != '/',
                forall|k: int| end <= k < n ==> url@[k] == '/',
                forall|k: int| start <= k < end ==> url@[k] != '/',
            decreases start,
        {
            start = start - 1;
        }
        let ghost before_start = start == 0 || url@[start - 1] == '/';
        assert(before_start);
        proof {
            lemma_last_segment(url@, start as int, end as int);
        }
        String::from_str(url.substring_char(start, end))
    }
}

} // verus!
