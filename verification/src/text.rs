//! Comparison of strings by their characters.

use vstd::prelude::*;

verus! {

/// The code point of a character.
pub open spec fn code(c: char) -> int {
    c as int
}

/// Lexicographic order on character sequences by code point: `a` comes
/// strictly before `b`.
pub open spec fn text_lt(a: Seq<char>, b: Seq<char>) -> bool
    decreases a.len(),
{
    if b.len() == 0 {
        false
    } else if a.len() == 0 {
        true
    } else if a[0] == b[0] {
        text_lt(a.drop_first(), b.drop_first())
    } else {
        code(a[0]) < code(b[0])
    }
}

/// `a` comes before `b` or equals it.
pub open spec fn text_le(a: Seq<char>, b: Seq<char>) -> bool {
    !text_lt(b, a)
}

/// No sequence comes before itself.
pub proof fn lemma_text_lt_irreflexive(a: Seq<char>)
    ensures
        !text_lt(a, a),
    decreases a.len(),
{
    if a.len() > 0 {
        lemma_text_lt_irreflexive(a.drop_first());
    }
}

/// Of two different sequences exactly one comes before the other.
pub proof fn lemma_text_lt_total(a: Seq<char>, b: Seq<char>)
    ensures
        a != b ==> (text_lt(a, b) || text_lt(b, a)),
        !(text_lt(a, b) && text_lt(b, a)),
    decreases a.len(),
{
    if a.len() > 0 && b.len() > 0 {
        if a[0] == b[0] {
            lemma_text_lt_total(a.drop_first(), b.drop_first());
            if a.drop_first() == b.drop_first() {
                assert(a =~= seq![a[0]] + a.drop_first());
                assert(b =~= seq![b[0]] + b.drop_first());
            }
        }
    } else if a.len() == 0 && b.len() == 0 {
        assert(a =~= b);
    }
}

/// The order is transitive.
pub proof fn lemma_text_lt_transitive(a: Seq<char>, b: Seq<char>, c: Seq<char>)
    requires
        text_lt(a, b),
        text_lt(b, c),
    ensures
        text_lt(a, c),
    decreases a.len(),
{
    if a.len() > 0 {
        if a[0] == b[0] && b[0] == c[0] {
            lemma_text_lt_transitive(a.drop_first(), b.drop_first(), c.drop_first());
        }
    }
}

/// `text_le` is transitive.
pub proof fn lemma_text_le_transitive(a: Seq<char>, b: Seq<char>, c: Seq<char>)
    requires
        text_le(a, b),
        text_le(b, c),
    ensures
        text_le(a, c),
{
    if text_lt(c, a) {
        lemma_text_lt_total(a, b);
        lemma_text_lt_total(b, c);
        if a == b {
        } else if b == c {
        } else {
            lemma_text_lt_transitive(c, a, b);
        }
    }
}

/// Whether two strings hold the same characters.
pub fn str_equal(a: &str, b: &str) -> (r: bool)
    ensures
        r == (a@ == b@),
{
    let n: usize = a.unicode_len();
    if n != b.unicode_len() {
        return false;
    }
    let mut i: usize = 0;
    while i < n
        invariant
            i <= n,
            n == a@.len(),
            n == b@.len(),
            forall|j: int| 0 <= j < i ==> a@[j] == b@[j],
        decreases n - i,
    {
        if a.get_char(i) != b.get_char(i) {
            return false;
        }
        i += 1;
    }
    assert(a@ =~= b@);
    true
}

/// Whether `a` comes strictly before `b` in lexicographic order.
pub fn str_lt(a: &str, b: &str) -> (r: bool)
    ensures
        r == text_lt(a@, b@),
{
    let na: usize = a.unicode_len();
    let nb: usize = b.unicode_len();
    let mut i: usize = 0;
    assert(a@.skip(0) =~= a@ && b@.skip(0) =~= b@);
    while i < na && i < nb
        invariant
            i <= na,
            i <= nb,
            na == a@.len(),
            nb == b@.len(),
            text_lt(a@, b@) == text_lt(a@.skip(i as int), b@.skip(i as int)),
        decreases na - i,
    {
        let ca: char = a.get_char(i);
        let cb: char = b.get_char(i);
        proof {
            let sa = a@.skip(i as int);
            let sb = b@.skip(i as int);
            assert(sa[0] == ca);
            assert(sb[0] == cb);
            assert(sa.drop_first() =~= a@.skip(i + 1));
            assert(sb.drop_first() =~= b@.skip(i + 1));
        }
        if ca != cb {
            return (ca as u32) < (cb as u32);
        }
        i += 1;
    }
    i < nb
}

/// The character is white space: one of the code points with the Unicode
/// property `White_Space`.
pub open spec fn is_space(c: char) -> bool {
    let n = code(c);
    (9 <= n <= 13) || n == 32 || n == 133 || n == 160 || n == 5760 || (8192 <= n <= 8202) || n
        == 8232 || n == 8233 || n == 8239 || n == 8287 || n == 12288
}

/// Whether the character is white space.
pub fn char_is_space(c: char) -> (b: bool)
    ensures
        b == is_space(c),
{
    let n: u32 = c as u32;
    (9 <= n && n <= 13) || n == 32 || n == 133 || n == 160 || n == 5760 || (8192 <= n && n
        <= 8202) || n == 8232 || n == 8233 || n == 8239 || n == 8287 || n == 12288
}

/// The number of white-space characters at the start of the text.
pub open spec fn leading_spaces(s: Seq<char>) -> int
    decreases s.len(),
{
    if s.len() == 0 || !is_space(s[0]) {
        0
    } else {
        1 + leading_spaces(s.drop_first())
    }
}

/// The number of white-space characters at the end of the text.
pub open spec fn trailing_spaces(s: Seq<char>) -> int
    decreases s.len(),
{
    if s.len() == 0 || !is_space(s.last()) {
        0
    } else {
        1 + trailing_spaces(s.drop_last())
    }
}

/// The text without the white space at its start and at its end.
pub open spec fn trimmed(s: Seq<char>) -> Seq<char> {
    if leading_spaces(s) == s.len() {
        Seq::empty()
    } else {
        s.subrange(leading_spaces(s), s.len() - trailing_spaces(s))
    }
}

/// The leading white space lies within the text and ends at the first
/// character that is none.
pub proof fn lemma_leading_spaces(s: Seq<char>)
    ensures
        0 <= leading_spaces(s) <= s.len(),
        forall|i: int| 0 <= i < leading_spaces(s) ==> is_space(#[trigger] s[i]),
        leading_spaces(s) < s.len() ==> !is_space(s[leading_spaces(s)]),
    decreases s.len(),
{
    if s.len() > 0 && is_space(s[0]) {
        let rest = s.drop_first();
        lemma_leading_spaces(rest);
        assert forall|i: int| 0 <= i < leading_spaces(s) implies is_space(#[trigger] s[i]) by {
            if i > 0 {
                assert(rest[i - 1] == s[i]);
            }
        }
        if leading_spaces(s) < s.len() {
            assert(rest[leading_spaces(rest)] == s[leading_spaces(s)]);
        }
    }
}

/// The trailing white space lies within the text and starts behind the last
/// character that is none.
pub proof fn lemma_trailing_spaces(s: Seq<char>)
    ensures
        0 <= trailing_spaces(s) <= s.len(),
        forall|i: int| s.len() - trailing_spaces(s) <= i < s.len() ==> is_space(#[trigger] s[i]),
        trailing_spaces(s) < s.len() ==> !is_space(s[s.len() - trailing_spaces(s) - 1]),
    decreases s.len(),
{
    if s.len() > 0 && is_space(s.last()) {
        let rest = s.drop_last();
        lemma_trailing_spaces(rest);
        assert forall|i: int| s.len() - trailing_spaces(s) <= i < s.len() implies is_space(
            #[trigger] s[i],
        ) by {
            if i < s.len() - 1 {
                assert(rest[i] == s[i]);
            }
        }
        if trailing_spaces(s) < s.len() {
            assert(rest[rest.len() - trailing_spaces(rest) - 1] == s[s.len() - trailing_spaces(s)
                - 1]);
        }
    }
}

/// The leading white space ends at `a` where all in front of `a` is white
/// space and the character at `a`, if there is one, is none.
pub proof fn lemma_leading_spaces_is(s: Seq<char>, a: int)
    requires
        0 <= a <= s.len(),
        forall|i: int| 0 <= i < a ==> is_space(#[trigger] s[i]),
        a < s.len() ==> !is_space(s[a]),
    ensures
        leading_spaces(s) == a,
{
    lemma_leading_spaces(s);
    let b = leading_spaces(s);
    if b < a {
        assert(is_space(s[b]));
    } else if a < b {
        assert(is_space(s[a]));
    }
}

/// The trailing white space has length `t` where all of the last `t`
/// characters is white space and the character in front, if there is one,
/// is none.
pub proof fn lemma_trailing_spaces_is(s: Seq<char>, t: int)
    requires
        0 <= t <= s.len(),
        forall|i: int| s.len() - t <= i < s.len() ==> is_space(#[trigger] s[i]),
        t < s.len() ==> !is_space(s[s.len() - t - 1]),
    ensures
        trailing_spaces(s) == t,
{
    lemma_trailing_spaces(s);
    let u = trailing_spaces(s);
    if u < t {
        assert(is_space(s[s.len() - u - 1]));
    } else if t < u {
        assert(is_space(s[s.len() - t - 1]));
    }
}

/// The text without the white space at its start and at its end.
pub fn trim(text: &str) -> (r: &str)
    ensures
        r@ == trimmed(text@),
{
    let n: usize = text.unicode_len();
    let mut a: usize = 0;
    while a < n && char_is_space(text.get_char(a))
        invariant
            a <= n,
            n == text@.len(),
            forall|i: int| 0 <= i < a ==> is_space(#[trigger] text@[i]),
        decreases n - a,
    {
        a += 1;
    }
    proof {
        lemma_leading_spaces_is(text@, a as int);
    }
    if a == n {
        let empty: &str = text.substring_char(0, 0);
        assert(empty@ =~= Seq::<char>::empty());
        return empty;
    }
    let mut b: usize = n;
    while b > a && char_is_space(text.get_char(b - 1))
        invariant
            a <= b <= n,
            a < n,
            n == text@.len(),
            !is_space(text@[a as int]),
            forall|i: int| b <= i < n ==> is_space(#[trigger] text@[i]),
        decreases b,
    {
        b -= 1;
    }
    proof {
        lemma_trailing_spaces_is(text@, n - b);
    }
    text.substring_char(a, b)
}

/// The number of characters in front of the first `c`, or the length of the
/// text where it holds no `c`.
pub open spec fn position_of(s: Seq<char>, c: char) -> int
    decreases s.len(),
{
    if s.len() == 0 || s[0] == c {
        0
    } else {
        1 + position_of(s.drop_first(), c)
    }
}

/// `position_of` lies within the text; no character in front of it is `c`,
/// and the character at it, if there is one, is.
pub proof fn lemma_position_of(s: Seq<char>, c: char)
    ensures
        0 <= position_of(s, c) <= s.len(),
        forall|i: int| 0 <= i < position_of(s, c) ==> #[trigger] s[i] != c,
        position_of(s, c) < s.len() ==> s[position_of(s, c)] == c,
    decreases s.len(),
{
    if s.len() > 0 && s[0] != c {
        let rest = s.drop_first();
        lemma_position_of(rest, c);
        assert forall|i: int| 0 <= i < position_of(s, c) implies #[trigger] s[i] != c by {
            if i > 0 {
                assert(rest[i - 1] == s[i]);
            }
        }
        if position_of(s, c) < s.len() {
            assert(rest[position_of(rest, c)] == s[position_of(s, c)]);
        }
    }
}

/// The position of the first `c` in the text, if it holds one.
pub fn find_char(text: &str, c: char) -> (r: Option<usize>)
    ensures
        match r {
            Some(p) => p == position_of(text@, c) && p < text@.len(),
            None => position_of(text@, c) == text@.len(),
        },
{
    let n: usize = text.unicode_len();
    let mut i: usize = 0;
    while i < n
        invariant
            i <= n,
            n == text@.len(),
            forall|x: int| 0 <= x < i ==> #[trigger] text@[x] != c,
        decreases n - i,
    {
        if text.get_char(i) == c {
            proof {
                lemma_position_of(text@, c);
                let q = position_of(text@, c);
                if q < i {
                    assert(text@[q] != c);
                } else if i < q {
                    assert(text@[i as int] != c);
                }
            }
            return Some(i);
        }
        i += 1;
    }
    proof {
        lemma_position_of(text@, c);
        let q = position_of(text@, c);
        if q < n {
            assert(text@[q] != c);
        }
    }
    None
}

/// The number of characters in front of the first two spaces in a row, or
/// the length of the text where there are none.
pub open spec fn double_space_position(s: Seq<char>) -> int
    decreases s.len(),
{
    if s.len() < 2 {
        s.len() as int
    } else if s[0] == ' ' && s[1] == ' ' {
        0
    } else {
        1 + double_space_position(s.drop_first())
    }
}

/// `double_space_position` lies within the text; two spaces in a row stand
/// at it, if it is not the length of the text, and nowhere in front of it.
pub proof fn lemma_double_space_position(s: Seq<char>)
    ensures
        0 <= double_space_position(s) <= s.len(),
        double_space_position(s) < s.len() ==> double_space_position(s) + 1 < s.len()
            && s[double_space_position(s)] == ' ' && s[double_space_position(s) + 1] == ' ',
        forall|i: int|
            0 <= i < double_space_position(s) && i + 1 < s.len() ==> !(#[trigger] s[i] == ' '
                && s[i + 1] == ' '),
    decreases s.len(),
{
    if s.len() >= 2 && !(s[0] == ' ' && s[1] == ' ') {
        let rest = s.drop_first();
        lemma_double_space_position(rest);
        let p = double_space_position(s);
        let q = double_space_position(rest);
        if p < s.len() {
            assert(rest[q] == s[p]);
            assert(rest[q + 1] == s[p + 1]);
        }
        assert forall|i: int| 0 <= i < p && i + 1 < s.len() implies !(#[trigger] s[i] == ' '
            && s[i + 1] == ' ') by {
            if i > 0 {
                assert(rest[i - 1] == s[i]);
                assert(rest[i] == s[i + 1]);
            }
        }
    }
}

/// The position of the first two spaces in a row, if there are any.
pub fn find_double_space(text: &str) -> (r: Option<usize>)
    ensures
        match r {
            Some(p) => p == double_space_position(text@) && p + 1 < text@.len(),
            None => double_space_position(text@) == text@.len(),
        },
{
    let n: usize = text.unicode_len();
    if n < 2 {
        return None;
    }
    let mut i: usize = 0;
    while i < n - 1
        invariant
            i <= n - 1,
            n >= 2,
            n == text@.len(),
            forall|x: int|
                0 <= x < i && x + 1 < n ==> !(#[trigger] text@[x] == ' ' && text@[x + 1] == ' '),
        decreases n - i,
    {
        if text.get_char(i) == ' ' && text.get_char(i + 1) == ' ' {
            proof {
                lemma_double_space_position(text@);
                let q = double_space_position(text@);
                if q < i {
                    assert(!(text@[q] == ' ' && text@[q + 1] == ' '));
                } else if i < q {
                    assert(!(text@[i as int] == ' ' && text@[i + 1] == ' '));
                }
            }
            return Some(i);
        }
        i += 1;
    }
    proof {
        lemma_double_space_position(text@);
        let q = double_space_position(text@);
        if q < n {
            assert(!(text@[q] == ' ' && text@[q + 1] == ' '));
        }
    }
    None
}

} // verus!
