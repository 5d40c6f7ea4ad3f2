//! Layout and text escaping for the board drawn as SVG.
//!
//! Every piece of operator-supplied text that lands in markup goes through [`escape`], so
//! a venue name can never close an element or open a new one.

use vstd::prelude::*;

verus! {

/// Layout of the SVG board.
#[derive(Debug, Clone, PartialEq, Eq)]
pub struct SvgOptions {
    /// Overall width in pixels.
    pub width: u32,
    /// Height of one venue row.
    pub row_height: u32,
    /// Width of the left-hand venue label column.
    pub label_width: u32,
    /// Width of the right-hand status column.
    pub status_width: u32,
    /// Whether to print the sources block beneath the board.
    pub show_sources: bool,
}

impl Default for SvgOptions {
    fn default() -> (r: SvgOptions)
        ensures
            r == (SvgOptions {
                width: 1180,
                row_height: 34,
                label_width: 200,
                status_width: 190,
                show_sources: true,
            }),
    {
        SvgOptions { width: 1180, row_height: 34, label_width: 200, status_width: 190, show_sources: true }
    }
}

/// How one character is written in markup: the five characters that can end or open an
/// element or an attribute become entities, every other character stands for itself.
pub open spec fn markup_char(c: char) -> Seq<char> {
    if c == '&' {
        "&amp;"@
    } else if c == '<' {
        "&lt;"@
    } else if c == '>' {
        "&gt;"@
    } else if c == '"' {
        "&quot;"@
    } else if c == '\'' {
        "&apos;"@
    } else {
        seq![c]
    }
}

/// A text as it is written in markup, character by character.
pub open spec fn markup_text(t: Seq<char>) -> Seq<char>
    decreases t.len(),
{
    if t.len() == 0 {
        Seq::empty()
    } else {
        markup_text(t.drop_last()) + markup_char(t.last())
    }
}

/// Escapes a text for markup, in element content and in attribute values alike.
pub fn escape(text: &str) -> (r: String)
    ensures
        r@ == markup_text(text@),
{
    proof {
        reveal_strlit("&amp;");
        reveal_strlit("&lt;");
        reveal_strlit("&gt;");
        reveal_strlit("&quot;");
        reveal_strlit("&apos;");
    }
    let n = text.unicode_len();
    let mut out = String::new();
    let mut i: usize = 0;
    while i < n
        invariant
            n == text@.len(),
            i <= n,
            out@ == markup_text(text@.subrange(0, i as int)),
        decreases n - i,
    {
        let c = text.get_char(i);
        if c == '&' {
            out.append("&amp;");
        } else if c == '<' {
            out.append("&lt;");
        } else if c == '>' {
            out.append("&gt;");
        } else if c == '"' {
            out.append("&quot;");
        } else if c == '\'' {
            out.append("&apos;");
        } else {
            out.append(text.substring_char(i, i + 1));
        }
        proof {
            assert(text@.subrange(0, i + 1).drop_last() =~= text@.subrange(0, i as int));
            assert(text@.subrange(i as int, i + 1) =~= seq![c]);
        }
        i = i + 1;
    }
    assert(text@.subrange(0, n as int) =~= text@);
    out
}

/// Escaped text holds no `<` or `>`: nothing written through it can open or close an
/// element.
pub proof fn escaped_text_holds_no_angle_bracket(t: Seq<char>)
    ensures
        !markup_text(t).contains('<'),
        !markup_text(t).contains('>'),
    decreases t.len(),
{
    reveal_strlit("&amp;");
    reveal_strlit("&lt;");
    reveal_strlit("&gt;");
    reveal_strlit("&quot;");
    reveal_strlit("&apos;");
    if t.len() > 0 {
        escaped_text_holds_no_angle_bracket(t.drop_last());
        let before = markup_text(t.drop_last());
        let piece = markup_char(t.last());
        assert(!piece.contains('<') && !piece.contains('>'));
        assert forall|i: int| 0 <= i < markup_text(t).len() implies markup_text(t)[i] != '<' && markup_text(t)[i] != '>' by {
            if i < before.len() {
                assert(markup_text(t)[i] == before[i]);
            } else {
                assert(markup_text(t)[i] == piece[i - before.len()]);
            }
        }
    }
}

} // verus!
