//! Character-level text checks shared by the identifier and vocabulary types.

use vstd::prelude::*;

verus! {

/// Whether `c` has the Unicode `White_Space` property, the set `char::is_whitespace` tests.
pub open spec fn is_white_space(c: char) -> bool {
    let n = c as u32;
    ||| 0x09 <= n <= 0x0d
    ||| n == 0x20
    ||| n == 0x85
    ||| n == 0xa0
    ||| n == 0x1680
    ||| 0x2000 <= n <= 0x200a
    ||| n == 0x2028
    ||| n == 0x2029
    ||| n == 0x202f
    ||| n == 0x205f
    ||| n == 0x3000
}

/// A text is blank when trimming its white space leaves nothing: every character is white
/// space (the empty text included).
pub open spec fn is_blank_text(s: Seq<char>) -> bool {
    forall|i: int| 0 <= i < s.len() ==> is_white_space(#[trigger] s[i])
}

/// Executable white-space test for one character.
pub fn char_is_white_space(c: char) -> (r: bool)
    ensures
        r == is_white_space(c),
{
    let n = c as u32;
    (0x09 <= n && n <= 0x0d) || n == 0x20 || n == 0x85 || n == 0xa0 || n == 0x1680 || (0x2000
        <= n && n <= 0x200a) || n == 0x2028 || n == 0x2029 || n == 0x202f || n == 0x205f || n
        == 0x3000
}

/// Whether the text is empty once its white space is trimmed.
pub fn is_blank(s: &str) -> (r: bool)
    ensures
        r == is_blank_text(s@),
{
    let n = s.unicode_len();
    let mut i: usize = 0;
    while i < n
        invariant
            n == s@.len(),
            i <= n,
            forall|j: int| 0 <= j < i ==> is_white_space(#[trigger] s@[j]),
        decreases n - i,
    {
        let c = s.get_char(i);
        if !char_is_white_space(c) {
            return false;
        }
        i = i + 1;
    }
    true
}

/// Exact text equality, character by character.
pub fn text_eq(a: &str, b: &str) -> (r: bool)
    ensures
        r == (a@ == b@),
{
    let n = a.unicode_len();
    let m = b.unicode_len();
    if n != m {
        return false;
    }
    let mut i: usize = 0;
    while i < n
        invariant
            n == a@.len(),
            m == b@.len(),
            n == m,
            i <= n,
            forall|j: int| 0 <= j < i ==> a@[j] == b@[j],
        decreases n - i,
    {
        if a.get_char(i) != b.get_char(i) {
            return false;
        }
        i = i + 1;
    }
    assert(a@ =~= b@);
    true
}

/// Text `a` sorts strictly before text `b`: after their longest common prefix, `a` ends
/// or has the smaller character (the order `String`'s `Ord` gives).
pub open spec fn text_lt(a: Seq<char>, b: Seq<char>) -> bool {
    exists|k: int| #![trigger a.subrange(0, k), b.subrange(0, k)] lt_at(a, b, k)
}

/// `a` sorts before `b`, and `k` is where they first differ.
pub open spec fn lt_at(a: Seq<char>, b: Seq<char>, k: int) -> bool {
    &&& 0 <= k <= a.len()
    &&& k <= b.len()
    &&& a.subrange(0, k) == b.subrange(0, k)
    &&& ((k == a.len() && k < b.len()) || (k < a.len() && k < b.len() && (a[k] as u32) < (
    b[k] as u32)))
}

/// No text sorts before itself.
pub proof fn text_lt_irreflexive(a: Seq<char>)
    ensures
        !text_lt(a, a),
{
}

/// Sorting order on texts is transitive.
pub proof fn text_lt_transitive(a: Seq<char>, b: Seq<char>, c: Seq<char>)
    requires
        text_lt(a, b),
        text_lt(b, c),
    ensures
        text_lt(a, c),
{
    let k1 = choose|k: int| lt_at(a, b, k);
    let k2 = choose|k: int| lt_at(b, c, k);
    if k1 < k2 {
        assert(b.subrange(0, k1) =~= c.subrange(0, k2).subrange(0, k1));
        assert(b.subrange(0, k1) =~= b.subrange(0, k2).subrange(0, k1));
        assert(a.subrange(0, k1) =~= c.subrange(0, k1));
        assert(b[k1] == b.subrange(0, k2)[k1]);
        assert(c[k1] == c.subrange(0, k2)[k1]);
        assert(lt_at(a, c, k1));
        assert(a.subrange(0, k1) == c.subrange(0, k1));
    } else if k2 < k1 {
        assert(b.subrange(0, k2) =~= a.subrange(0, k1).subrange(0, k2));
        assert(b.subrange(0, k2) =~= b.subrange(0, k1).subrange(0, k2));
        assert(a.subrange(0, k2) =~= c.subrange(0, k2));
        assert(a[k2] == a.subrange(0, k1)[k2]);
        assert(b[k2] == b.subrange(0, k1)[k2]);
        assert(lt_at(a, c, k2));
        assert(a.subrange(0, k2) == c.subrange(0, k2));
    } else {
        assert(a.subrange(0, k1) =~= c.subrange(0, k1));
        assert(lt_at(a, c, k1));
        assert(a.subrange(0, k1) == c.subrange(0, k1));
    }
}

/// Three-way text comparison: negative when `a` sorts first, zero when equal, positive
/// when `b` sorts first.
pub fn text_compare(a: &str, b: &str) -> (r: i8)
    ensures
        r < 0 <==> text_lt(a@, b@),
        r == 0 <==> a@ == b@,
        r > 0 <==> text_lt(b@, a@),
{
    let n = a.unicode_len();
    let m = b.unicode_len();
    let mut i: usize = 0;
    while i < n && i < m
        invariant
            n == a@.len(),
            m == b@.len(),
            i <= n,
            i <= m,
            a@.subrange(0, i as int) == b@.subrange(0, i as int),
        decreases n - i,
    {
        let x = a.get_char(i);
        let y = b.get_char(i);
        if x != y {
            proof {
                text_lt_irreflexive(a@);
                if (x as u32) < (y as u32) {
                    assert(lt_at(a@, b@, i as int));
                    assert(a@ != b@);
                    text_lt_asymmetric_at(a@, b@, i as int);
                } else {
                    assert(lt_at(b@, a@, i as int));
                    assert(a@ != b@);
                    text_lt_asymmetric_at(b@, a@, i as int);
                }
            }
            return if (x as u32) < (y as u32) {
                -1
            } else {
                1
            };
        }
        assert(a@.subrange(0, i + 1) =~= a@.subrange(0, i as int).push(x));
        assert(b@.subrange(0, i + 1) =~= b@.subrange(0, i as int).push(y));
        i = i + 1;
    }
    if n < m {
        proof {
            assert(a@.subrange(0, n as int) =~= a@);
            assert(lt_at(a@, b@, n as int));
            text_lt_asymmetric_at(a@, b@, n as int);
        }
        -1
    } else if m < n {
        proof {
            assert(b@.subrange(0, m as int) =~= b@);
            assert(lt_at(b@, a@, m as int));
            text_lt_asymmetric_at(b@, a@, m as int);
        }
        1
    } else {
        proof {
            assert(a@ =~= a@.subrange(0, n as int));
            assert(b@ =~= b@.subrange(0, m as int));
            text_lt_irreflexive(a@);
        }
        0
    }
}

/// If `a` sorts before `b` (first differing at `k`), then `b` does not sort before `a`
/// and they differ.
proof fn text_lt_asymmetric_at(a: Seq<char>, b: Seq<char>, k: int)
    requires
        lt_at(a, b, k),
    ensures
        text_lt(a, b),
        !text_lt(b, a),
        a != b,
{
    assert(a.subrange(0, k) == b.subrange(0, k));
    if text_lt(b, a) {
        text_lt_transitive(a, b, a);
        text_lt_irreflexive(a);
    }
    if a == b {
        text_lt_irreflexive(a);
    }
}

/// The decimal digit character for `d` (0-9).
pub open spec fn digit_char(d: int) -> char {
    if d == 0 {
        '0'
    } else if d == 1 {
        '1'
    } else if d == 2 {
        '2'
    } else if d == 3 {
        '3'
    } else if d == 4 {
        '4'
    } else if d == 5 {
        '5'
    } else if d == 6 {
        '6'
    } else if d == 7 {
        '7'
    } else if d == 8 {
        '8'
    } else {
        '9'
    }
}

/// The decimal digits of a natural number, most significant first, without leading
/// zeros (zero is `"0"`).
pub open spec fn decimal_of(n: nat) -> Seq<char>
    decreases n,
{
    if n < 10 {
        seq![digit_char(n as int)]
    } else {
        decimal_of(n / 10).push(digit_char((n % 10) as int))
    }
}

/// The decimal text of a signed integer, with a leading `-` when negative.
pub open spec fn signed_decimal_of(n: int) -> Seq<char> {
    if n < 0 {
        seq!['-'] + decimal_of((-n) as nat)
    } else {
        decimal_of(n as nat)
    }
}

/// The digit `d` as a one-character text.
fn digit_text(d: u128) -> (r: &'static str)
    requires
        d < 10,
    ensures
        r@ == seq![digit_char(d as int)],
{
    proof {
        reveal_strlit("0");
        reveal_strlit("1");
        reveal_strlit("2");
        reveal_strlit("3");
        reveal_strlit("4");
        reveal_strlit("5");
        reveal_strlit("6");
        reveal_strlit("7");
        reveal_strlit("8");
        reveal_strlit("9");
    }
    let r = if d == 0 {
        "0"
    } else if d == 1 {
        "1"
    } else if d == 2 {
        "2"
    } else if d == 3 {
        "3"
    } else if d == 4 {
        "4"
    } else if d == 5 {
        "5"
    } else if d == 6 {
        "6"
    } else if d == 7 {
        "7"
    } else if d == 8 {
        "8"
    } else {
        "9"
    };
    assert(r@ =~= seq![digit_char(d as int)]);
    r
}

/// Appends the decimal digits of `n` to `out`.
pub fn push_decimal(out: &mut String, n: u128)
    ensures
        final(out)@ == old(out)@ + decimal_of(n as nat),
    decreases n,
{
    if n < 10 {
        out.append(digit_text(n));
    } else {
        push_decimal(out, n / 10);
        out.append(digit_text(n % 10));
        assert(decimal_of(n as nat) == decimal_of((n / 10) as nat).push(digit_char((n % 10) as int)));
        assert(out@ =~= old(out)@ + decimal_of(n as nat));
    }
}

/// Appends the decimal text of a signed `n` to `out`.
pub fn push_signed_decimal(out: &mut String, n: i128)
    ensures
        final(out)@ == old(out)@ + signed_decimal_of(n as int),
{
    if n < 0 {
        out.append("-");
        let magnitude: u128 = ((-(n + 1)) as u128) + 1;
        push_decimal(out, magnitude);
        proof {
            reveal_strlit("-");
            assert(out@ =~= old(out)@ + signed_decimal_of(n as int));
        }
    } else {
        push_decimal(out, n as u128);
    }
}

/// Digits padded with leading zeros to width `w`.
pub open spec fn zero_padded(d: Seq<char>, w: nat) -> Seq<char> {
    if d.len() < w {
        Seq::new((w - d.len()) as nat, |i: int| '0') + d
    } else {
        d
    }
}

/// The number of decimal digits of a number below 10000.
pub proof fn lemma_decimal_len(n: nat)
    requires
        n < 10000,
    ensures
        decimal_of(n).len() == (if n < 10 {
            1int
        } else if n < 100 {
            2int
        } else if n < 1000 {
            3int
        } else {
            4int
        }),
    decreases n,
{
    if n >= 10 {
        lemma_decimal_len(n / 10);
    }
}

/// Appends a number below 10000 in decimal, zero-padded to `width` digits.
pub fn push_zero_padded(out: &mut String, n: u128, width: u128)
    requires
        n < 10000,
        width <= 4,
    ensures
        final(out)@ == old(out)@ + zero_padded(decimal_of(n as nat), width as nat),
{
    proof {
        lemma_decimal_len(n as nat);
        reveal_strlit("0");
    }
    let ghost digits = decimal_of(n as nat);
    let mut count: u128 = if n < 10 {
        1
    } else if n < 100 {
        2
    } else if n < 1000 {
        3
    } else {
        4
    };
    let ghost start = out@;
    while count < width
        invariant
            digits == decimal_of(n as nat),
            digits.len() <= count <= 4,
            width <= 4,
            out@ == start + Seq::new((count - digits.len()) as nat, |i: int| '0'),
            count <= width || count == digits.len(),
        decreases width - count,
    {
        proof {
            reveal_strlit("0");
        }
        out.append("0");
        assert(out@ =~= start + Seq::new((count + 1 - digits.len()) as nat, |i: int| '0'));
        count = count + 1;
    }
    let ghost zeros = out@;
    push_decimal(out, n);
    assert(out@ =~= start + zero_padded(digits, width as nat));
}

/// An optional text by its view.
pub open spec fn optional_text(value: Option<String>) -> Option<Seq<char>> {
    match value {
        Some(text) => Some(text@),
        None => None,
    }
}

/// A copy of an optional text.
pub fn copy_optional_text(value: &Option<String>) -> (r: Option<String>)
    ensures
        r == *value,
{
    match value {
        Some(text) => Some(text.clone()),
        None => None,
    }
}

/// A character with ASCII upper case letters lowered.
pub open spec fn lower_char(c: char) -> char {
    if 'A' <= c <= 'Z' {
        ((c as int) + 32) as char
    } else {
        c
    }
}

/// A text with ASCII upper case letters lowered.
pub open spec fn ascii_lower(t: Seq<char>) -> Seq<char> {
    t.map_values(|c: char| lower_char(c))
}

/// Whether `text`, with ASCII upper case letters lowered, is `lower`.
pub fn lowers_to(text: &str, lower: &str) -> (r: bool)
    ensures
        r == (ascii_lower(text@) == lower@),
{
    let n = text.unicode_len();
    if n != lower.unicode_len() {
        proof {
            assert(ascii_lower(text@).len() != lower@.len());
        }
        return false;
    }
    let mut i: usize = 0;
    while i < n
        invariant
            n == text@.len(),
            n == lower@.len(),
            0 <= i <= n,
            forall|j: int| 0 <= j < i ==> lower_char(text@[j]) == lower@[j],
        decreases n - i,
    {
        let a = text.get_char(i);
        let b = lower.get_char(i);
        let same = if 'A' <= a && a <= 'Z' {
            (a as u32) + 32 == (b as u32)
        } else {
            a == b
        };
        if !same {
            proof {
                assert(ascii_lower(text@)[i as int] != lower@[i as int]);
            }
            return false;
        }
        i = i + 1;
    }
    assert(ascii_lower(text@) =~= lower@);
    true
}

} // verus!
