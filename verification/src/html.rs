//! The pieces of the interactive HTML board that are decided rather than drawn: which
//! zones the axis may be relabelled into, the footer that names the data, and how text is
//! escaped for the inline JSON payload.
//!
//! The page embeds operator-supplied text inside a `<script>` element, so the payload
//! escaping is stricter than JSON needs: every `<`, `>`, `&` and `'` is written as a
//! `\u00XX` escape, and no hostile name can end the element early.

use crate::fetch::hex_char;
use crate::instant::UtcInstant;
use crate::svg::{escape, markup_text, SvgOptions};
use crate::text::{decimal_of, push_decimal, signed_decimal_of};
use crate::uncertainty::{magnitude, sign_of, uncertainty_text, Uncertainty};
use vstd::prelude::*;

verus! {

/// One dataset revision named in the page's footer.
#[derive(Debug, Clone, PartialEq, Eq)]
pub struct DatasetRevisionFooter {
    /// The revision identifier.
    pub id: String,
    /// The IANA tzdb release the revision was prepared against, where recorded.
    pub iana_tzdb_version: Option<String>,
}

/// Layout and metadata for the interactive HTML surface.
#[derive(Debug, Clone, PartialEq, Eq)]
pub struct HtmlOptions {
    /// The picture's own layout.
    pub svg: SvgOptions,
    /// IANA zones the viewer may relabel the axis into, in the order offered.
    pub zones: Vec<String>,
    /// The dataset revisions this render was produced from, named in the footer.
    pub dataset_revisions: Vec<DatasetRevisionFooter>,
}

impl Default for HtmlOptions {
    fn default() -> (r: HtmlOptions)
        ensures
            r.svg == SvgOptions::default_layout(),
            r.zones@.len() == 0,
            r.dataset_revisions@.len() == 0,
    {
        HtmlOptions { svg: SvgOptions::default(), zones: Vec::new(), dataset_revisions: Vec::new() }
    }
}

impl SvgOptions {
    /// The default layout.
    pub open spec fn default_layout() -> SvgOptions {
        SvgOptions { width: 1180, row_height: 34, label_width: 200, status_width: 190, show_sources: true }
    }
}

// ---------------------------------------------------------------------------------- zones

/// The texts of a list of strings.
pub open spec fn string_texts(items: Seq<String>) -> Seq<Seq<char>> {
    items.map_values(|t: String| t@)
}

/// A list with every repeat of an earlier entry left out.
pub open spec fn first_occurrences(items: Seq<Seq<char>>) -> Seq<Seq<char>>
    decreases items.len(),
{
    if items.len() == 0 {
        items
    } else {
        let kept = first_occurrences(items.drop_last());
        if kept.contains(items.last()) {
            kept
        } else {
            kept.push(items.last())
        }
    }
}

/// The zones the axis may be relabelled into: those requested, then the axis zone and
/// `UTC`, in the order first seen and each once.
pub open spec fn zone_choices(requested: Seq<Seq<char>>, axis_zone: Seq<char>) -> Seq<Seq<char>> {
    first_occurrences(requested + seq![axis_zone, "UTC"@])
}

fn listed(items: &Vec<String>, item: &str) -> (r: bool)
    ensures
        r == string_texts(items@).contains(item@),
{
    let mut i: usize = 0;
    while i < items.len()
        invariant
            i <= items@.len(),
            forall|k: int| 0 <= k < i ==> (#[trigger] items@[k])@ != item@,
        decreases items@.len() - i,
    {
        if crate::text::text_eq(items[i].as_str(), item) {
            assert(string_texts(items@)[i as int] == item@);
            return true;
        }
        i = i + 1;
    }
    proof {
        if string_texts(items@).contains(item@) {
            let k = choose|k: int| 0 <= k < string_texts(items@).len() && string_texts(items@)[k] == item@;
            assert(items@[k]@ == item@);
        }
    }
    false
}

fn push_once(zones: &mut Vec<String>, zone: &str)
    ensures
        string_texts(final(zones)@) == if string_texts(old(zones)@).contains(zone@) {
            string_texts(old(zones)@)
        } else {
            string_texts(old(zones)@).push(zone@)
        },
{
    if !listed(zones, zone) {
        let ghost before = zones@;
        zones.push(String::from_str(zone));
        assert(string_texts(zones@) =~= string_texts(before).push(zone@));
    }
}

/// The zones the axis may be relabelled into: `requested`, then `axis_zone` and `UTC`,
/// in the order first seen and each once, so the page's own default is always a choice.
pub fn normalized_zones(requested: &Vec<String>, axis_zone: &str) -> (r: Vec<String>)
    ensures
        string_texts(r@) == zone_choices(string_texts(requested@), axis_zone@),
{
    let ghost all = string_texts(requested@) + seq![axis_zone@, "UTC"@];
    let mut zones: Vec<String> = Vec::new();
    let mut i: usize = 0;
    while i < requested.len()
        invariant
            i <= requested@.len(),
            all == string_texts(requested@) + seq![axis_zone@, "UTC"@],
            string_texts(zones@) == first_occurrences(all.subrange(0, i as int)),
        decreases requested@.len() - i,
    {
        proof {
            assert(all.subrange(0, i + 1).drop_last() =~= all.subrange(0, i as int));
            assert(all.subrange(0, i + 1).last() == requested@[i as int]@);
        }
        push_once(&mut zones, requested[i].as_str());
        i = i + 1;
    }
    let n = requested.len();
    proof {
        assert(all.subrange(0, n + 1).drop_last() =~= all.subrange(0, n as int));
        assert(all.subrange(0, n + 1).last() == axis_zone@);
    }
    push_once(&mut zones, axis_zone);
    assert(string_texts(zones@) == first_occurrences(all.subrange(0, n + 1)));
    proof {
        reveal_strlit("UTC");
        assert(all.subrange(0, n + 2).drop_last() =~= all.subrange(0, n + 1));
        assert(all.subrange(0, n + 2).last() == "UTC"@);
    }
    push_once(&mut zones, "UTC");
    assert(string_texts(zones@) == first_occurrences(all.subrange(0, n + 2)));
    assert(all.subrange(0, n + 2) =~= all);
    zones
}

/// The zone choices hold the axis zone and `UTC`, every requested zone, and nothing
/// twice.
pub proof fn zone_choices_keep_the_default_and_utc(requested: Seq<Seq<char>>, axis_zone: Seq<char>)
    ensures
        zone_choices(requested, axis_zone).contains(axis_zone),
        zone_choices(requested, axis_zone).contains("UTC"@),
        forall|z: Seq<char>| requested.contains(z) ==> #[trigger] zone_choices(requested, axis_zone).contains(z),
        forall|i: int, j: int|
            0 <= i < j < zone_choices(requested, axis_zone).len() ==> (#[trigger] zone_choices(
                requested,
                axis_zone,
            )[i]) != (#[trigger] zone_choices(requested, axis_zone)[j]),
{
    let all = requested + seq![axis_zone, "UTC"@];
    lemma_first_occurrences(all);
    assert(all[requested.len() as int] == axis_zone);
    assert(all[requested.len() as int + 1] == "UTC"@);
    assert(all.contains(axis_zone));
    assert(all.contains("UTC"@));
    assert forall|z: Seq<char>| requested.contains(z) implies #[trigger] zone_choices(requested, axis_zone).contains(z) by {
        let k = choose|k: int| 0 <= k < requested.len() && requested[k] == z;
        assert(all[k] == z);
        assert(all.contains(z));
    }
}

/// Leaving out repeats keeps every entry once and nothing twice.
proof fn lemma_first_occurrences(items: Seq<Seq<char>>)
    ensures
        forall|z: Seq<char>| items.contains(z) ==> #[trigger] first_occurrences(items).contains(z),
        forall|i: int, j: int|
            0 <= i < j < first_occurrences(items).len() ==> (#[trigger] first_occurrences(items)[i]) != (
            #[trigger] first_occurrences(items)[j]),
    decreases items.len(),
{
    if items.len() > 0 {
        let front = items.drop_last();
        lemma_first_occurrences(front);
        let kept = first_occurrences(front);
        let r = first_occurrences(items);
        assert forall|z: Seq<char>| items.contains(z) implies #[trigger] r.contains(z) by {
            let k = choose|k: int| 0 <= k < items.len() && items[k] == z;
            if k < items.len() - 1 {
                assert(front[k] == z);
                assert(front.contains(z));
                assert(kept.contains(z));
                if !kept.contains(items.last()) {
                    let m = choose|m: int| 0 <= m < kept.len() && kept[m] == z;
                    assert(r[m] == z);
                }
            } else {
                if !kept.contains(items.last()) {
                    assert(r[r.len() - 1] == z);
                }
            }
        }
        if !kept.contains(items.last()) {
            assert forall|i: int, j: int| 0 <= i < j < r.len() implies (#[trigger] r[i]) != (#[trigger] r[j]) by {
                if j == r.len() - 1 {
                    assert(r[i] == kept[i]);
                } else {
                    assert(r[i] == kept[i] && r[j] == kept[j]);
                }
            }
        }
    }
}

/// One `<option>` of the zone selector.
pub open spec fn zone_option(zone: Seq<char>, default_zone: Seq<char>) -> Seq<char> {
    "<option value=\""@ + markup_text(zone) + "\""@ + (if zone == default_zone {
        " selected"@
    } else {
        Seq::<char>::empty()
    }) + ">"@ + markup_text(zone) + "</option>"@
}

/// The options of the zone selector, in order.
pub open spec fn zone_options_text(zones: Seq<Seq<char>>, default_zone: Seq<char>) -> Seq<char>
    decreases zones.len(),
{
    if zones.len() == 0 {
        Seq::empty()
    } else {
        zone_options_text(zones.drop_last(), default_zone) + zone_option(zones.last(), default_zone)
    }
}

/// The zone selector's options, the default one marked selected, every name escaped.
pub fn zone_options(zones: &Vec<String>, default_zone: &str) -> (r: String)
    ensures
        r@ == zone_options_text(string_texts(zones@), default_zone@),
{
    proof {
        reveal_strlit("<option value=\"");
        reveal_strlit("\"");
        reveal_strlit(" selected");
        reveal_strlit(">");
        reveal_strlit("</option>");
    }
    let ghost names = string_texts(zones@);
    let mut out = String::new();
    let mut i: usize = 0;
    while i < zones.len()
        invariant
            i <= zones@.len(),
            names == string_texts(zones@),
            out@ == zone_options_text(names.subrange(0, i as int), default_zone@),
        decreases zones@.len() - i,
    {
        let zone = zones[i].as_str();
        let escaped = escape(zone);
        let ghost before = out@;
        out.append("<option value=\"");
        out.append(escaped.as_str());
        out.append("\"");
        if crate::text::text_eq(zone, default_zone) {
            out.append(" selected");
        }
        out.append(">");
        out.append(escaped.as_str());
        out.append("</option>");
        proof {
            assert(names.subrange(0, i + 1).drop_last() =~= names.subrange(0, i as int));
            assert(names.subrange(0, i + 1).last() == zone@);
            assert(out@ =~= before + zone_option(zone@, default_zone@));
        }
        i = i + 1;
    }
    assert(names.subrange(0, i as int) =~= names);
    out
}

// --------------------------------------------------------------------------------- footer

/// How one revision is named in the footer.
pub open spec fn footer_entry(r: DatasetRevisionFooter) -> Seq<char> {
    r.id@ + " (IANA tzdb "@ + match r.iana_tzdb_version {
        Some(v) => v@,
        None => "not recorded"@,
    } + ")"@
}

/// Footer entries separated by `; `.
pub open spec fn footer_entries(revisions: Seq<DatasetRevisionFooter>) -> Seq<char>
    decreases revisions.len(),
{
    if revisions.len() == 0 {
        Seq::empty()
    } else if revisions.len() == 1 {
        footer_entry(revisions[0])
    } else {
        footer_entries(revisions.drop_last()) + "; "@ + footer_entry(revisions.last())
    }
}

/// The footer: the dataset revisions the render came from, or a plain statement that
/// none was recorded.
pub open spec fn footer_text(revisions: Seq<DatasetRevisionFooter>) -> Seq<char> {
    if revisions.len() == 0 {
        "no dataset revision was recorded for this render"@
    } else {
        "rendered from dataset revision(s): "@ + footer_entries(revisions)
    }
}

/// The footer line naming the dataset revisions a render came from.
pub fn footer_line(revisions: &Vec<DatasetRevisionFooter>) -> (r: String)
    ensures
        r@ == footer_text(revisions@),
{
    proof {
        reveal_strlit(" (IANA tzdb ");
        reveal_strlit("not recorded");
        reveal_strlit(")");
        reveal_strlit("; ");
        reveal_strlit("rendered from dataset revision(s): ");
    }
    if revisions.len() == 0 {
        return String::from_str("no dataset revision was recorded for this render");
    }
    let mut out = String::from_str("rendered from dataset revision(s): ");
    let ghost start = out@;
    let mut i: usize = 0;
    while i < revisions.len()
        invariant
            i <= revisions@.len(),
            revisions@.len() > 0,
            out@ == start + footer_entries(revisions@.subrange(0, i as int)),
        decreases revisions@.len() - i,
    {
        let revision = &revisions[i];
        let ghost before = out@;
        if i > 0 {
            out.append("; ");
        }
        out.append(revision.id.as_str());
        out.append(" (IANA tzdb ");
        match &revision.iana_tzdb_version {
            Some(v) => out.append(v.as_str()),
            None => out.append("not recorded"),
        }
        out.append(")");
        proof {
            let prefix = revisions@.subrange(0, i + 1);
            assert(prefix.drop_last() =~= revisions@.subrange(0, i as int));
            assert(prefix.last() == revisions@[i as int]);
            if i == 0 {
                assert(prefix.len() == 1 && prefix[0] == revisions@[0]);
                assert(out@ =~= start + footer_entries(prefix));
            } else {
                assert(out@ =~= start + footer_entries(prefix));
            }
        }
        i = i + 1;
    }
    assert(revisions@.subrange(0, i as int) =~= revisions@);
    out
}

// ------------------------------------------------------------------------ payload values

/// Whole milliseconds since the epoch, counted toward zero.
pub open spec fn millis_of(nanos: int) -> int {
    sign_of(nanos) * (magnitude(nanos) / 1_000_000)
}

/// An instant as whole milliseconds since the epoch, counted toward zero: precise enough
/// to place a marker, never claimed as more.
pub fn epoch_millis(at: UtcInstant) -> (r: String)
    ensures
        r@ == signed_decimal_of(millis_of(at.nanos())),
{
    let nanos = at.as_nanos_since_unix_epoch();
    let size: u128 = if nanos < 0 {
        ((-(nanos + 1)) as u128) + 1
    } else {
        nanos as u128
    };
    let millis = size / 1_000_000;
    let mut out = String::new();
    if nanos < 0 && millis > 0 {
        out.append("-");
    }
    push_decimal(&mut out, millis);
    proof {
        reveal_strlit("-");
        if nanos < 0 && millis > 0 {
            assert(out@ =~= signed_decimal_of(millis_of(nanos as int)));
        } else {
            assert(out@ =~= signed_decimal_of(millis_of(nanos as int)));
        }
    }
    out
}

/// An uncertainty in words for a hover panel; the absence of one is said in words too,
/// and is never "exact".
pub open spec fn uncertainty_words_text(u: Option<Uncertainty>) -> Seq<char> {
    match u {
        Some(u) => uncertainty_text(u),
        None => "no schedule known for this stretch"@,
    }
}

/// An uncertainty in words, or that no schedule is known for the stretch.
pub fn uncertainty_words(uncertainty: Option<&Uncertainty>) -> (r: String)
    ensures
        r@ == uncertainty_words_text(match uncertainty {
            Some(u) => Some(*u),
            None => None,
        }),
{
    match uncertainty {
        Some(u) => u.describe(),
        None => String::from_str("no schedule known for this stretch"),
    }
}

/// How one character is written inside a JSON string that sits in a `<script>` element.
pub open spec fn json_char(c: char) -> Seq<char> {
    if c == '"' {
        "\\\""@
    } else if c == '\\' {
        "\\\\"@
    } else if c == '\n' {
        "\\n"@
    } else if c == '\r' {
        "\\r"@
    } else if c == '\t' {
        "\\t"@
    } else if c == '<' {
        "\\u003c"@
    } else if c == '>' {
        "\\u003e"@
    } else if c == '&' {
        "\\u0026"@
    } else if c == '\'' {
        "\\u0027"@
    } else if (c as int) < 0x20 {
        "\\u00"@ + seq![hex_char((c as int) / 16), hex_char((c as int) % 16)]
    } else {
        seq![c]
    }
}

/// A text as a JSON string's contents, character by character.
pub open spec fn json_text(t: Seq<char>) -> Seq<char>
    decreases t.len(),
{
    if t.len() == 0 {
        Seq::empty()
    } else {
        json_text(t.drop_last()) + json_char(t.last())
    }
}

/// Escapes a text for a JSON string literal inside a `<script>` element: the JSON
/// escapes, plus `<`, `>`, `&` and `'` as `\\u00XX`, so no sequence of characters in the
/// text can end the element.
pub fn json_escape(text: &str) -> (r: String)
    ensures
        r@ == json_text(text@),
{
    let n = text.unicode_len();
    let mut out = String::new();
    let mut i: usize = 0;
    while i < n
        invariant
            n == text@.len(),
            i <= n,
            out@ == json_text(text@.subrange(0, i as int)),
        decreases n - i,
    {
        let c = text.get_char(i);
        let ghost before = out@;
        proof {
            reveal_strlit("\\\"");
            reveal_strlit("\\\\");
            reveal_strlit("\\n");
            reveal_strlit("\\r");
            reveal_strlit("\\t");
            reveal_strlit("\\u003c");
            reveal_strlit("\\u003e");
            reveal_strlit("\\u0026");
            reveal_strlit("\\u0027");
            reveal_strlit("\\u00");
        }
        if c == '"' {
            out.append("\\\"");
        } else if c == '\\' {
            out.append("\\\\");
        } else if c == '\n' {
            out.append("\\n");
        } else if c == '\r' {
            out.append("\\r");
        } else if c == '\t' {
            out.append("\\t");
        } else if c == '<' {
            out.append("\\u003c");
        } else if c == '>' {
            out.append("\\u003e");
        } else if c == '&' {
            out.append("\\u0026");
        } else if c == '\'' {
            out.append("\\u0027");
        } else if (c as u32) < 0x20 {
            out.append("\\u00");
            out.append(hex_digit_text((c as u32) / 16));
            out.append(hex_digit_text((c as u32) % 16));
        } else {
            out.append(text.substring_char(i, i + 1));
        }
        proof {
            assert(text@.subrange(0, i + 1).drop_last() =~= text@.subrange(0, i as int));
            assert(text@.subrange(i as int, i + 1) =~= seq![c]);
            assert(out@ =~= before + json_char(c));
        }
        i = i + 1;
    }
    assert(text@.subrange(0, n as int) =~= text@);
    out
}

/// A hexadecimal digit as a one-character text.
fn hex_digit_text(d: u32) -> (r: &'static str)
    requires
        d < 16,
    ensures
        r@ == seq![hex_char(d as int)],
{
    proof {
        reveal_strlit("0");
        reveal_strlit("1");
        reveal_strlit("2");
        reveal_strlit("3");
        reveal_strlit("4");
        reveal_strlit("5");
        reveal_strlit("6");
        reveal_strlit("7");
        reveal_strlit("8");
        reveal_strlit("9");
        reveal_strlit("a");
        reveal_strlit("b");
        reveal_strlit("c");
        reveal_strlit("d");
        reveal_strlit("e");
        reveal_strlit("f");
    }
    let r = if d == 0 {
        "0"
    } else if d == 1 {
        "1"
    } else if d == 2 {
        "2"
    } else if d == 3 {
        "3"
    } else if d == 4 {
        "4"
    } else if d == 5 {
        "5"
    } else if d == 6 {
        "6"
    } else if d == 7 {
        "7"
    } else if d == 8 {
        "8"
    } else if d == 9 {
        "9"
    } else if d == 10 {
        "a"
    } else if d == 11 {
        "b"
    } else if d == 12 {
        "c"
    } else if d == 13 {
        "d"
    } else if d == 14 {
        "e"
    } else {
        "f"
    };
    assert(r@ =~= seq![hex_char(d as int)]);
    r
}

/// A JSON-escaped text holds no `<`, `>`, `&` or `'`, and every `"` in it is escaped:
/// whatever it came from, it cannot end a `<script>` element or a JSON string.
pub proof fn json_escaped_text_cannot_end_the_script(t: Seq<char>)
    ensures
        !json_text(t).contains('<'),
        !json_text(t).contains('>'),
        !json_text(t).contains('&'),
        !json_text(t).contains('\''),
    decreases t.len(),
{
    reveal_strlit("\\\"");
    reveal_strlit("\\\\");
    reveal_strlit("\\n");
    reveal_strlit("\\r");
    reveal_strlit("\\t");
    reveal_strlit("\\u003c");
    reveal_strlit("\\u003e");
    reveal_strlit("\\u0026");
    reveal_strlit("\\u0027");
    reveal_strlit("\\u00");
    if t.len() > 0 {
        json_escaped_text_cannot_end_the_script(t.drop_last());
        let before = json_text(t.drop_last());
        let piece = json_char(t.last());
        let c = t.last();
        if (c as int) < 0x20 && c != '\n' && c != '\r' && c != '\t' {
            let d1 = hex_char((c as int) / 16);
            let d2 = hex_char((c as int) % 16);
            assert(piece =~= seq!['\\', 'u', '0', '0', d1, d2]);
        }
        assert(!piece.contains('<') && !piece.contains('>') && !piece.contains('&') && !piece.contains('\''));
        assert forall|i: int| 0 <= i < json_text(t).len() implies json_text(t)[i] != '<' && json_text(t)[i] != '>'
            && json_text(t)[i] != '&' && json_text(t)[i] != '\'' by {
            if i < before.len() {
                assert(json_text(t)[i] == before[i]);
            } else {
                assert(json_text(t)[i] == piece[i - before.len()]);
            }
        }
    }
}

} // verus!
