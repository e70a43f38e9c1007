//! Character classes, label sanitizing, and decimal and hexadecimal text of integers.

use vstd::prelude::*;

verus! {

// ---------------------------------------------------------------------------
// Character classes (ASCII only, as `char::is_ascii_*` define them)
// ---------------------------------------------------------------------------

/// `char::is_ascii_alphanumeric`: `0-9`, `A-Z` or `a-z`.
pub open spec fn is_ascii_alnum(c: char) -> bool {
    ('0' <= c && c <= '9') || ('A' <= c && c <= 'Z') || ('a' <= c && c <= 'z')
}

/// `char::is_ascii_whitespace`: space, tab, line feed, form feed, carriage return.
pub open spec fn is_ascii_ws(c: char) -> bool {
    c == ' ' || c == '\t' || c == '\n' || c == '\x0C' || c == '\r'
}

/// Characters that a label keeps as a word separator.
pub open spec fn is_label_separator(c: char) -> bool {
    is_ascii_ws(c) || c == '-' || c == '_' || c == '.' || c == '(' || c == ')' || c == '['
        || c == ']'
}

pub open spec fn is_ascii_digit(c: char) -> bool {
    '0' <= c && c <= '9'
}

pub fn char_is_ascii_alnum(c: char) -> (r: bool)
    ensures
        r == is_ascii_alnum(c),
{
    ('0' <= c && c <= '9') || ('A' <= c && c <= 'Z') || ('a' <= c && c <= 'z')
}

pub fn char_is_label_separator(c: char) -> (r: bool)
    ensures
        r == is_label_separator(c),
{
    c == ' ' || c == '\t' || c == '\n' || c == '\x0C' || c == '\r' || c == '-' || c == '_' || c
        == '.' || c == '(' || c == ')' || c == '[' || c == ']'
}

/// ASCII lower-casing of one character (`char::to_ascii_lowercase`).
pub open spec fn ascii_lower(c: char) -> char {
    if 'A' <= c && c <= 'Z' {
        ((c as u32) + 32) as char
    } else {
        c
    }
}

/// `str::eq_ignore_ascii_case`.
pub open spec fn eq_ignore_ascii_case(a: Seq<char>, b: Seq<char>) -> bool {
    a.len() == b.len() && forall|i: int| 0 <= i < a.len() ==> ascii_lower(a[i]) == ascii_lower(b[i])
}

fn char_ascii_lower(c: char) -> (r: char)
    ensures
        r == ascii_lower(c),
{
    if 'A' <= c && c <= 'Z' {
        let code: u32 = (c as u32) + 32;
        // an ASCII letter shifted by 32 is still ASCII
        (code as u8) as char
    } else {
        c
    }
}

/// Compares two strings, ignoring the case of ASCII letters.
pub fn str_eq_ignore_ascii_case(a: &str, b: &str) -> (r: bool)
    ensures
        r == eq_ignore_ascii_case(a@, b@),
{
    let n = a.unicode_len();
    let m = b.unicode_len();
    if n != m {
        return false;
    }
    let mut i: usize = 0;
    while i < n
        invariant
            n == a@.len(),
            m == b@.len(),
            n == m,
            i <= n,
            forall|j: int| 0 <= j < i ==> ascii_lower(a@[j]) == ascii_lower(b@[j]),
        decreases n - i,
    {
        if char_ascii_lower(a.get_char(i)) != char_ascii_lower(b.get_char(i)) {
            return false;
        }
        i = i + 1;
    }
    true
}

/// Exact equality of two strings, character by character.
pub fn str_equals(a: &str, b: &str) -> (r: bool)
    ensures
        r == (a@ == b@),
{
    let n = a.unicode_len();
    let m = b.unicode_len();
    if n != m {
        return false;
    }
    let mut i: usize = 0;
    while i < n
        invariant
            n == a@.len(),
            m == b@.len(),
            n == m,
            i <= n,
            forall|j: int| 0 <= j < i ==> a@[j] == b@[j],
        decreases n - i,
    {
        if a.get_char(i) != b.get_char(i) {
            return false;
        }
        i = i + 1;
    }
    assert(a@ =~= b@);
    true
}

// ---------------------------------------------------------------------------
// String building (std `String` methods without a vstd specification)
// ---------------------------------------------------------------------------

/// `String::push`: appends one character at the end.
#[verifier::external_body]
pub(crate) fn string_push(s: &mut String, c: char)
    ensures
        final(s)@ == old(s)@.push(c),
{
    s.push(c)
}

/// `String::pop`: removes the last character and hands it back.
#[verifier::external_body]
pub(crate) fn string_pop(s: &mut String) -> (r: Option<char>)
    ensures
        old(s)@.len() == 0 ==> r is None && final(s)@ == old(s)@,
        old(s)@.len() > 0 ==> r == Some(old(s)@.last()) && final(s)@ == old(s)@.drop_last(),
{
    s.pop()
}

/// Appends `t` to `s`.
pub fn string_append(s: &mut String, t: &str)
    ensures
        final(s)@ == old(s)@ + t@,
{
    let n = t.unicode_len();
    let mut i: usize = 0;
    while i < n
        invariant
            n == t@.len(),
            i <= n,
            s@ == old(s)@ + t@.take(i as int),
        decreases n - i,
    {
        let c = t.get_char(i);
        string_push(s, c);
        assert(t@.take(i + 1) =~= t@.take(i as int).push(c));
        i = i + 1;
    }
    assert(t@.take(n as int) =~= t@);
}

/// A fresh `String` holding the characters of `t`.
pub fn string_from(t: &str) -> (s: String)
    ensures
        s@ == t@,
{
    let mut s = String::new();
    string_append(&mut s, t);
    assert(s@ =~= t@);
    s
}

// ---------------------------------------------------------------------------
// Label sanitizing
// ---------------------------------------------------------------------------

/// Labels before trimming: ASCII letters and digits are kept, every run of
/// separators becomes one space (none at the start), everything else is dropped.
/// `after_sep` tells whether the output so far ends in a separator (or is empty).
pub open spec fn collapse_label(s: Seq<char>, after_sep: bool) -> Seq<char>
    decreases s.len(),
{
    if s.len() == 0 {
        Seq::empty()
    } else {
        let c = s[0];
        let rest = s.drop_first();
        if is_ascii_alnum(c) {
            seq![c] + collapse_label(rest, false)
        } else if is_label_separator(c) {
            if after_sep {
                collapse_label(rest, true)
            } else {
                seq![' '] + collapse_label(rest, true)
            }
        } else {
            collapse_label(rest, after_sep)
        }
    }
}

/// The sanitized label of `s`: the collapsed label without a trailing space.
pub open spec fn sanitized_label(s: Seq<char>) -> Seq<char> {
    let c = collapse_label(s, true);
    if c.len() > 0 && c.last() == ' ' {
        c.drop_last()
    } else {
        c
    }
}

/// A label as sanitizing leaves it: letters, digits and single spaces between words.
pub open spec fn is_clean_label(s: Seq<char>) -> bool {
    &&& forall|i: int| 0 <= i < s.len() ==> is_ascii_alnum(#[trigger] s[i]) || s[i] == ' '
    &&& s.len() > 0 ==> s[0] != ' ' && s.last() != ' '
    &&& forall|i: int| 0 <= i < s.len() - 1 ==> !(#[trigger] s[i] == ' ' && s[i + 1] == ' ')
}

proof fn lemma_collapse_push(s: Seq<char>, after_sep: bool, c: char)
    ensures
        collapse_label(s.push(c), after_sep) == collapse_label(s, after_sep) + collapse_label(
            seq![c],
            collapse_end_sep(s, after_sep),
        ),
    decreases s.len(),
{
    if s.len() == 0 {
        assert(s.push(c) =~= seq![c]);
        assert(collapse_label(s, after_sep) =~= Seq::empty());
        assert(collapse_label(seq![c], after_sep) + Seq::empty() =~= collapse_label(
            seq![c],
            after_sep,
        ));
        assert(Seq::<char>::empty() + collapse_label(seq![c], after_sep) =~= collapse_label(
            seq![c],
            after_sep,
        ));
    } else {
        let d = s[0];
        assert(s.push(c).drop_first() =~= s.drop_first().push(c));
        assert(s.push(c)[0] == d);
        let next = if is_ascii_alnum(d) {
            false
        } else if is_label_separator(d) {
            true
        } else {
            after_sep
        };
        lemma_collapse_push(s.drop_first(), next, c);
        assert(collapse_end_sep(s, after_sep) == collapse_end_sep(s.drop_first(), next));
        let tail = collapse_label(seq![c], collapse_end_sep(s, after_sep));
        if is_ascii_alnum(d) {
            assert(seq![d] + (collapse_label(s.drop_first(), false) + tail) =~= (seq![d]
                + collapse_label(s.drop_first(), false)) + tail);
        } else if is_label_separator(d) {
            if !after_sep {
                assert(seq![' '] + (collapse_label(s.drop_first(), true) + tail) =~= (seq![' ']
                    + collapse_label(s.drop_first(), true)) + tail);
            }
        }
    }
}

proof fn lemma_collapse_single(c: char, after_sep: bool)
    ensures
        collapse_label(seq![c], after_sep) == (if is_ascii_alnum(c) {
            seq![c]
        } else if is_label_separator(c) && !after_sep {
            seq![' ']
        } else {
            Seq::<char>::empty()
        }),
{
    reveal_with_fuel(collapse_label, 2);
    assert(seq![c].drop_first() =~= Seq::<char>::empty());
    assert(seq![c] + Seq::<char>::empty() =~= seq![c]);
    assert(seq![' '] + Seq::<char>::empty() =~= seq![' ']);
}

/// Whether the collapsed label of `s` ends in a separator state.
pub open spec fn collapse_end_sep(s: Seq<char>, after_sep: bool) -> bool
    decreases s.len(),
{
    if s.len() == 0 {
        after_sep
    } else {
        let c = s[0];
        let next = if is_ascii_alnum(c) {
            false
        } else if is_label_separator(c) {
            true
        } else {
            after_sep
        };
        collapse_end_sep(s.drop_first(), next)
    }
}

proof fn lemma_collapse_end_sep_push(s: Seq<char>, after_sep: bool, c: char)
    ensures
        collapse_end_sep(s.push(c), after_sep) == (if is_ascii_alnum(c) {
            false
        } else if is_label_separator(c) {
            true
        } else {
            collapse_end_sep(s, after_sep)
        }),
    decreases s.len(),
{
    if s.len() == 0 {
        reveal_with_fuel(collapse_end_sep, 2);
        assert(s.push(c) =~= seq![c]);
        assert(seq![c].drop_first() =~= Seq::<char>::empty());
    } else {
        assert(s.push(c).drop_first() =~= s.drop_first().push(c));
        let d = s[0];
        let next = if is_ascii_alnum(d) {
            false
        } else if is_label_separator(d) {
            true
        } else {
            after_sep
        };
        lemma_collapse_end_sep_push(s.drop_first(), next, c);
    }
}

/// The collapsed label ends in a space exactly when it is non-empty and the
/// separator state at its end is set; it never starts with a space when the
/// state at the start is set.
proof fn lemma_collapse_shape(s: Seq<char>, after_sep: bool)
    ensures
        ({
            let c = collapse_label(s, after_sep);
            &&& forall|i: int| 0 <= i < c.len() ==> is_ascii_alnum(#[trigger] c[i]) || c[i] == ' '
            &&& after_sep && c.len() > 0 ==> c[0] != ' '
            &&& forall|i: int| 0 <= i < c.len() - 1 ==> !(#[trigger] c[i] == ' ' && c[i + 1] == ' ')
            &&& c.len() > 0 ==> (c.last() == ' ' <==> collapse_end_sep(s, after_sep))
            &&& c.len() == 0 ==> (collapse_end_sep(s, after_sep) == after_sep)
        }),
    decreases s.len(),
{
    if s.len() > 0 {
        let d = s[0];
        let rest = s.drop_first();
        let next = if is_ascii_alnum(d) {
            false
        } else if is_label_separator(d) {
            true
        } else {
            after_sep
        };
        lemma_collapse_shape(rest, next);
        let r = collapse_label(rest, next);
        let c = collapse_label(s, after_sep);
        if is_ascii_alnum(d) {
            assert(c =~= seq![d] + r);
            assert forall|i: int| 0 <= i < c.len() - 1 implies !(#[trigger] c[i] == ' ' && c[i
                + 1] == ' ') by {
                if i > 0 {
                    assert(c[i] == r[i - 1] && c[i + 1] == r[i]);
                }
            }
            assert forall|i: int| 0 <= i < c.len() implies is_ascii_alnum(#[trigger] c[i]) || c[i]
                == ' ' by {
                if i > 0 {
                    assert(c[i] == r[i - 1]);
                }
            }
        } else if is_label_separator(d) {
            if !after_sep {
                assert(c =~= seq![' '] + r);
                assert forall|i: int| 0 <= i < c.len() - 1 implies !(#[trigger] c[i] == ' ' && c[i
                    + 1] == ' ') by {
                    if i > 0 {
                        assert(c[i] == r[i - 1] && c[i + 1] == r[i]);
                    }
                }
                assert forall|i: int| 0 <= i < c.len() implies is_ascii_alnum(#[trigger] c[i])
                    || c[i] == ' ' by {
                    if i > 0 {
                        assert(c[i] == r[i - 1]);
                    }
                }
            }
        }
    }
}

/// Every sanitized label is clean.
pub proof fn lemma_sanitized_label_is_clean(s: Seq<char>)
    ensures
        is_clean_label(sanitized_label(s)),
{
    lemma_collapse_shape(s, true);
    let c = collapse_label(s, true);
    let r = sanitized_label(s);
    if c.len() > 0 && c.last() == ' ' {
        assert(r =~= c.drop_last());
        if r.len() > 0 {
            assert(r[0] == c[0]);
            assert(r.last() == c[c.len() - 2]);
            assert(!(c[c.len() - 2] == ' ' && c[c.len() - 1] == ' '));
        }
        assert forall|i: int| 0 <= i < r.len() implies is_ascii_alnum(#[trigger] r[i]) || r[i]
            == ' ' by {
            assert(r[i] == c[i]);
        }
        assert forall|i: int| 0 <= i < r.len() - 1 implies !(#[trigger] r[i] == ' ' && r[i + 1]
            == ' ') by {
            assert(r[i] == c[i] && r[i + 1] == c[i + 1]);
        }
    }
}

/// A clean label collapses to itself.
proof fn lemma_collapse_clean(s: Seq<char>, after_sep: bool)
    requires
        forall|i: int| 0 <= i < s.len() ==> is_ascii_alnum(#[trigger] s[i]) || s[i] == ' ',
        forall|i: int| 0 <= i < s.len() - 1 ==> !(#[trigger] s[i] == ' ' && s[i + 1] == ' '),
        s.len() > 0 && after_sep ==> s[0] != ' ',
    ensures
        collapse_label(s, after_sep) == s,
    decreases s.len(),
{
    if s.len() > 0 {
        let rest = s.drop_first();
        let d = s[0];
        assert forall|i: int| 0 <= i < rest.len() implies is_ascii_alnum(#[trigger] rest[i])
            || rest[i] == ' ' by {
            assert(rest[i] == s[i + 1]);
        }
        assert forall|i: int| 0 <= i < rest.len() - 1 implies !(#[trigger] rest[i] == ' ' && rest[i
            + 1] == ' ') by {
            assert(rest[i] == s[i + 1] && rest[i + 1] == s[i + 2]);
        }
        if is_ascii_alnum(d) {
            lemma_collapse_clean(rest, false);
            assert(s =~= seq![d] + rest);
        } else {
            assert(d == ' ');
            if rest.len() > 0 {
                assert(rest[0] == s[1]);
                assert(!(s[0] == ' ' && s[1] == ' '));
            }
            lemma_collapse_clean(rest, true);
            assert(s =~= seq![' '] + rest);
        }
    }
}

/// Sanitizing a sanitized label changes nothing.
pub proof fn lemma_sanitized_label_idempotent(s: Seq<char>)
    ensures
        sanitized_label(sanitized_label(s)) == sanitized_label(s),
{
    let r = sanitized_label(s);
    lemma_sanitized_label_is_clean(s);
    lemma_collapse_clean(r, true);
}

/// The ASCII letters and digits of `s`, in order.
pub open spec fn alnum_chars(s: Seq<char>) -> Seq<char>
    decreases s.len(),
{
    if s.len() == 0 {
        Seq::empty()
    } else if is_ascii_alnum(s[0]) {
        seq![s[0]] + alnum_chars(s.drop_first())
    } else {
        alnum_chars(s.drop_first())
    }
}

/// Collapsing keeps the letters and digits, in order, and makes nothing longer.
proof fn lemma_collapse_keeps_alnum(s: Seq<char>, after_sep: bool)
    ensures
        alnum_chars(collapse_label(s, after_sep)) == alnum_chars(s),
        collapse_label(s, after_sep).len() <= s.len(),
    decreases s.len(),
{
    if s.len() > 0 {
        let c = s[0];
        let rest = s.drop_first();
        if is_ascii_alnum(c) {
            lemma_collapse_keeps_alnum(rest, false);
            let x = seq![c] + collapse_label(rest, false);
            assert(x[0] == c);
            assert(x.drop_first() =~= collapse_label(rest, false));
        } else if is_label_separator(c) {
            lemma_collapse_keeps_alnum(rest, true);
            if !after_sep {
                let x = seq![' '] + collapse_label(rest, true);
                assert(x[0] == ' ');
                assert(x.drop_first() =~= collapse_label(rest, true));
            }
        } else {
            lemma_collapse_keeps_alnum(rest, after_sep);
        }
    }
}

/// A trailing space adds no letter or digit.
proof fn lemma_alnum_chars_push_space(s: Seq<char>)
    ensures
        alnum_chars(s.push(' ')) == alnum_chars(s),
    decreases s.len(),
{
    if s.len() == 0 {
        assert(s.push(' ').drop_first() =~= Seq::<char>::empty());
        assert(!is_ascii_alnum(s.push(' ')[0]));
        assert(alnum_chars(Seq::<char>::empty()) =~= Seq::<char>::empty());
        assert(alnum_chars(s) =~= Seq::<char>::empty());
    } else {
        assert(s.push(' ')[0] == s[0]);
        assert(s.push(' ').drop_first() =~= s.drop_first().push(' '));
        lemma_alnum_chars_push_space(s.drop_first());
    }
}

/// A sanitized label keeps exactly the ASCII letters and digits of its input,
/// in order, and is no longer than the input.
pub proof fn lemma_sanitized_label_keeps_alnum(s: Seq<char>)
    ensures
        alnum_chars(sanitized_label(s)) == alnum_chars(s),
        sanitized_label(s).len() <= s.len(),
{
    lemma_collapse_keeps_alnum(s, true);
    let c = collapse_label(s, true);
    if c.len() > 0 && c.last() == ' ' {
        assert(c =~= c.drop_last().push(' '));
        lemma_alnum_chars_push_space(c.drop_last());
    }
}

/// A character that is neither an ASCII letter or digit, nor ASCII
/// whitespace, nor one of `- _ . ( ) [ ]`, written out.
pub open spec fn is_dropped_char(c: char) -> bool {
    &&& !('0' <= c && c <= '9')
    &&& !('A' <= c && c <= 'Z')
    &&& !('a' <= c && c <= 'z')
    &&& c != ' ' && c != '\t' && c != '\n' && c != '\x0C' && c != '\r'
    &&& c != '-' && c != '_' && c != '.' && c != '(' && c != ')' && c != '[' && c != ']'
}

/// ASCII whitespace or one of `- _ . ( ) [ ]`, written out.
pub open spec fn is_written_separator(c: char) -> bool {
    ||| c == ' ' || c == '\t' || c == '\n' || c == '\x0C' || c == '\r'
    ||| c == '-' || c == '_' || c == '.' || c == '(' || c == ')' || c == '[' || c == ']'
}

proof fn lemma_collapse_skips_dropped(s1: Seq<char>, c: char, s2: Seq<char>, after_sep: bool)
    requires
        is_dropped_char(c),
    ensures
        collapse_label(s1 + seq![c] + s2, after_sep) == collapse_label(s1 + s2, after_sep),
    decreases s1.len(),
{
    if s1.len() == 0 {
        assert(s1 + seq![c] + s2 =~= seq![c] + s2);
        assert(s1 + s2 =~= s2);
        assert((seq![c] + s2).drop_first() =~= s2);
    } else {
        let d = s1[0];
        let t = s1.drop_first();
        assert((s1 + seq![c] + s2)[0] == d);
        assert((s1 + seq![c] + s2).drop_first() =~= t + seq![c] + s2);
        assert((s1 + s2)[0] == d);
        assert((s1 + s2).drop_first() =~= t + s2);
        lemma_collapse_skips_dropped(t, c, s2, false);
        lemma_collapse_skips_dropped(t, c, s2, true);
        lemma_collapse_skips_dropped(t, c, s2, after_sep);
    }
}

proof fn lemma_collapse_separator_as_space(s1: Seq<char>, c: char, s2: Seq<char>, after_sep: bool)
    requires
        is_written_separator(c),
    ensures
        collapse_label(s1 + seq![c] + s2, after_sep) == collapse_label(s1 + seq![' '] + s2, after_sep),
    decreases s1.len(),
{
    if s1.len() == 0 {
        assert(s1 + seq![c] + s2 =~= seq![c] + s2);
        assert(s1 + seq![' '] + s2 =~= seq![' '] + s2);
        assert((seq![c] + s2).drop_first() =~= s2);
        assert((seq![' '] + s2).drop_first() =~= s2);
    } else {
        let d = s1[0];
        let t = s1.drop_first();
        assert((s1 + seq![c] + s2)[0] == d);
        assert((s1 + seq![c] + s2).drop_first() =~= t + seq![c] + s2);
        assert((s1 + seq![' '] + s2)[0] == d);
        assert((s1 + seq![' '] + s2).drop_first() =~= t + seq![' '] + s2);
        lemma_collapse_separator_as_space(t, c, s2, false);
        lemma_collapse_separator_as_space(t, c, s2, true);
    }
}

/// A character other than ASCII letters and digits, ASCII whitespace and
/// `- _ . ( ) [ ]` leaves no trace: sanitizing a text with it gives the same
/// label as sanitizing the text without it.
pub proof fn lemma_sanitize_drops_other_chars(s1: Seq<char>, c: char, s2: Seq<char>)
    requires
        is_dropped_char(c),
    ensures
        sanitized_label(s1 + seq![c] + s2) == sanitized_label(s1 + s2),
{
    lemma_collapse_skips_dropped(s1, c, s2, true);
}

/// ASCII whitespace and `- _ . ( ) [ ]` separate words as a space does.
pub proof fn lemma_sanitize_separators_act_as_spaces(s1: Seq<char>, c: char, s2: Seq<char>)
    requires
        is_written_separator(c),
    ensures
        sanitized_label(s1 + seq![c] + s2) == sanitized_label(s1 + seq![' '] + s2),
{
    lemma_collapse_separator_as_space(s1, c, s2, true);
}

/// A text of ASCII letters and digits only is its own label.
pub proof fn lemma_sanitize_keeps_words(s: Seq<char>)
    requires
        forall|i: int| 0 <= i < s.len() ==> ('0' <= #[trigger] s[i] && s[i] <= '9') || ('A' <= s[i] && s[i] <= 'Z')
            || ('a' <= s[i] && s[i] <= 'z'),
    ensures
        sanitized_label(s) == s,
{
    lemma_collapse_clean(s, true);
    if s.len() > 0 {
        assert(s.last() == s[s.len() - 1]);
    }
}

/// Sanitizes a display label: keeps ASCII letters and digits, turns each run of
/// whitespace and `- _ . ( ) [ ]` into one space, drops everything else, and
/// trims the ends.
pub fn sanitize_ascii_label(name: &str) -> (r: String)
    ensures
        r@ == sanitized_label(name@),
        is_clean_label(r@),
        alnum_chars(r@) == alnum_chars(name@),
        r@.len() <= name@.len(),
{
    let n = name.unicode_len();
    let mut out = String::new();
    let mut previous_was_separator = true;
    let mut i: usize = 0;
    while i < n
        invariant
            n == name@.len(),
            i <= n,
            out@ == collapse_label(name@.take(i as int), true),
            previous_was_separator == collapse_end_sep(name@.take(i as int), true),
        decreases n - i,
    {
        let ch = name.get_char(i);
        proof {
            assert(name@.take(i + 1) =~= name@.take(i as int).push(ch));
            lemma_collapse_push(name@.take(i as int), true, ch);
            lemma_collapse_end_sep_push(name@.take(i as int), true, ch);
            lemma_collapse_single(ch, collapse_end_sep(name@.take(i as int), true));
            assert(collapse_label(name@.take(i as int), true) + Seq::<char>::empty()
                =~= collapse_label(name@.take(i as int), true));
            assert(collapse_label(name@.take(i as int), true) + seq![ch]
                =~= collapse_label(name@.take(i as int), true).push(ch));
            assert(collapse_label(name@.take(i as int), true) + seq![' ']
                =~= collapse_label(name@.take(i as int), true).push(' '));
        }
        if char_is_ascii_alnum(ch) {
            string_push(&mut out, ch);
            previous_was_separator = false;
        } else if char_is_label_separator(ch) {
            if !previous_was_separator {
                string_push(&mut out, ' ');
                previous_was_separator = true;
            }
        }
        i = i + 1;
    }
    assert(name@.take(n as int) =~= name@);
    proof {
        lemma_collapse_shape(name@, true);
    }
    if previous_was_separator {
        string_pop(&mut out);
    }
    proof {
        lemma_sanitized_label_is_clean(name@);
        lemma_sanitized_label_keeps_alnum(name@);
    }
    out
}

// ---------------------------------------------------------------------------
// Decimal numbers
// ---------------------------------------------------------------------------

pub open spec fn digit_char(d: nat) -> char {
    ((d % 10) + 48) as char
}

/// The decimal representation of `n`, without leading zeros (`"0"` for zero).
pub open spec fn decimal(n: nat) -> Seq<char>
    decreases n,
{
    if n < 10 {
        seq![digit_char(n)]
    } else {
        decimal(n / 10).push(digit_char(n % 10))
    }
}

/// The value of a sequence of decimal digits.
pub open spec fn digits_value(s: Seq<char>) -> nat
    decreases s.len(),
{
    if s.len() == 0 {
        0
    } else {
        digits_value(s.drop_last()) * 10 + ((s.last() as u32) - 48) as nat
    }
}

pub open spec fn all_digits(s: Seq<char>) -> bool {
    forall|i: int| 0 <= i < s.len() ==> is_ascii_digit(#[trigger] s[i])
}

proof fn lemma_digit_char(d: nat)
    requires
        d < 10,
    ensures
        is_ascii_digit(digit_char(d)),
        (digit_char(d) as u32) - 48 == d,
{
    assert(d % 10 == d);
}

pub proof fn lemma_decimal_digits(n: nat)
    ensures
        all_digits(decimal(n)),
        decimal(n).len() > 0,
        digits_value(decimal(n)) == n,
    decreases n,
{
    lemma_digit_char(n % 10);
    if n >= 10 {
        lemma_decimal_digits(n / 10);
        let s = decimal(n / 10);
        assert(decimal(n).drop_last() =~= s);
        assert(decimal(n).last() == digit_char(n % 10));
        assert(n == (n / 10) * 10 + n % 10);
        assert(digits_value(decimal(n)) == digits_value(decimal(n).drop_last()) * 10 + ((
        decimal(n).last() as u32) - 48) as nat);
        assert forall|i: int| 0 <= i < decimal(n).len() implies is_ascii_digit(
            #[trigger] decimal(n)[i],
        ) by {
            if i < s.len() {
                assert(decimal(n)[i] == s[i]);
            }
        }
    } else {
        assert(seq![digit_char(n)].drop_last() =~= Seq::<char>::empty());
        assert(seq![digit_char(n)].last() == digit_char(n));
        assert(n % 10 == n);
        assert(digits_value(Seq::<char>::empty()) == 0);
        assert(digits_value(seq![digit_char(n)]) == digits_value(seq![digit_char(n)].drop_last())
            * 10 + ((digit_char(n) as u32) - 48) as nat);
    }
}

/// Different numbers have different decimal representations.
pub proof fn lemma_decimal_injective(a: nat, b: nat)
    requires
        decimal(a) == decimal(b),
    ensures
        a == b,
{
    lemma_decimal_digits(a);
    lemma_decimal_digits(b);
}

fn push_decimal(s: &mut String, n: u64)
    ensures
        final(s)@ == old(s)@ + decimal(n as nat),
    decreases n,
{
    if n < 10 {
        let c = ((n as u8) + 48u8) as char;
        string_push(s, c);
        assert(old(s)@.push(c) =~= old(s)@ + seq![c]);
    } else {
        push_decimal(s, n / 10);
        let d = n % 10;
        let c = ((d as u8) + 48u8) as char;
        string_push(s, c);
        assert(decimal(n as nat) == decimal((n / 10) as nat).push(digit_char((n % 10) as nat)));
        assert((old(s)@ + decimal((n / 10) as nat)).push(c) =~= old(s)@ + decimal((n / 10) as nat).push(c));
    }
}

/// Appends the decimal digits of `n` to `s`.
pub fn append_u64(s: &mut String, n: u64)
    ensures
        final(s)@ == old(s)@ + decimal(n as nat),
{
    push_decimal(s, n)
}

/// The decimal digits of `n` as a `String`.
pub fn u64_to_decimal(n: u64) -> (r: String)
    ensures
        r@ == decimal(n as nat),
{
    let mut s = String::new();
    push_decimal(&mut s, n);
    assert(s@ =~= decimal(n as nat));
    s
}

/// What `u32::from_str` accepts: an optional `+`, then one or more ASCII
/// digits, whose value fits in a `u32`.
pub open spec fn parse_u32_spec(s: Seq<char>) -> Option<u32> {
    let d = if s.len() > 0 && s[0] == '+' {
        s.drop_first()
    } else {
        s
    };
    if d.len() > 0 && all_digits(d) && digits_value(d) <= u32::MAX {
        Some(digits_value(d) as u32)
    } else {
        None
    }
}

proof fn lemma_digits_value_monotone(s: Seq<char>, i: int)
    requires
        0 <= i <= s.len(),
        all_digits(s),
    ensures
        digits_value(s.take(i)) <= digits_value(s),
    decreases s.len() - i,
{
    if i < s.len() {
        lemma_digits_value_monotone(s, i + 1);
        assert(s.take(i + 1).drop_last() =~= s.take(i));
        assert(s.take(i + 1).last() == s[i]);
    } else {
        assert(s.take(i) =~= s);
    }
}

/// Parses a decimal `u32` as `str::parse::<u32>` does.
pub fn parse_u32(s: &str) -> (r: Option<u32>)
    ensures
        r == parse_u32_spec(s@),
{
    let n = s.unicode_len();
    let mut start: usize = 0;
    if n > 0 && s.get_char(0) == '+' {
        start = 1;
    }
    let ghost d = if s@.len() > 0 && s@[0] == '+' {
        s@.drop_first()
    } else {
        s@
    };
    assert(d =~= s@.subrange(start as int, n as int));
    if start == n {
        return None;
    }
    let mut value: u64 = 0;
    let mut i: usize = start;
    while i < n
        invariant
            n == s@.len(),
            start <= i <= n,
            d == s@.subrange(start as int, n as int),
            d == (if s@.len() > 0 && s@[0] == '+' {
                s@.drop_first()
            } else {
                s@
            }),
            forall|j: int| 0 <= j < i - start ==> is_ascii_digit(#[trigger] d[j]),
            value == digits_value(d.take(i - start)),
            value <= u32::MAX,
        decreases n - i,
    {
        let c = s.get_char(i);
        assert(c == d[i - start]);
        if !('0' <= c && c <= '9') {
            assert(!is_ascii_digit(d[i - start]));
            assert(!all_digits(d));
            assert(parse_u32_spec(s@) is None);
            return None;
        }
        let digit: u64 = ((c as u32) - 48) as u64;
        let ghost k = i - start;
        assert(d.take(k + 1).drop_last() =~= d.take(k));
        assert(d.take(k + 1).last() == c);
        value = value * 10 + digit;
        assert(value == digits_value(d.take(k + 1)));
        if value > 0xFFFF_FFFFu64 {
            proof {
                if all_digits(d) {
                    lemma_digits_value_monotone(d, k + 1);
                }
            }
            return None;
        }
        i = i + 1;
    }
    assert(d.take(n - start) =~= d);
    Some(value as u32)
}

// ---------------------------------------------------------------------------
// Hexadecimal numbers
// ---------------------------------------------------------------------------

/// The lower-case hexadecimal digit for `d` (taken modulo 16).
pub open spec fn hex_digit_char(d: nat) -> char {
    if d % 16 < 10 {
        ((d % 16) + 48) as char
    } else {
        ((d % 16) + 87) as char
    }
}

/// The lower-case hexadecimal representation of `n`, without leading zeros
/// (`"0"` for zero).
pub open spec fn hex(n: nat) -> Seq<char>
    decreases n,
{
    if n < 16 {
        seq![hex_digit_char(n)]
    } else {
        hex(n / 16).push(hex_digit_char(n % 16))
    }
}

/// `n` spaces.
pub open spec fn spaces(n: nat) -> Seq<char> {
    Seq::new(n, |i: int| ' ')
}

/// `s`, right-aligned in a field of `width` characters padded with spaces.
pub open spec fn right_aligned(s: Seq<char>, width: nat) -> Seq<char> {
    if s.len() < width {
        spaces((width - s.len()) as nat) + s
    } else {
        s
    }
}

fn push_hex(s: &mut String, n: u64)
    ensures
        final(s)@ == old(s)@ + hex(n as nat),
    decreases n,
{
    let d = n % 16;
    let c = if d < 10 {
        ((d as u8) + 48u8) as char
    } else {
        ((d as u8) + 87u8) as char
    };
    assert(c == hex_digit_char(n as nat)) by {
        assert((n as nat) % 16 == d);
    }
    if n < 16 {
        string_push(s, c);
        assert(old(s)@.push(c) =~= old(s)@ + seq![c]);
    } else {
        push_hex(s, n / 16);
        string_push(s, c);
        assert(hex(n as nat) == hex((n / 16) as nat).push(hex_digit_char((n % 16) as nat)));
        assert((old(s)@ + hex((n / 16) as nat)).push(c) =~= old(s)@ + hex((n / 16) as nat).push(c));
    }
}

/// Appends `n` in lower-case hexadecimal, right-aligned in `width` characters
/// (what the format `{:width$x}` writes).
pub fn append_hex_padded(s: &mut String, n: u64, width: usize)
    ensures
        final(s)@ == old(s)@ + right_aligned(hex(n as nat), width as nat),
{
    let mut digits = String::new();
    push_hex(&mut digits, n);
    assert(digits@ =~= hex(n as nat));
    let len = digits.as_str().unicode_len();
    let mut k: usize = len;
    while k < width
        invariant
            len == hex(n as nat).len(),
            len <= k <= width || (k == len && len >= width),
            s@ == old(s)@ + spaces((k - len) as nat),
        decreases width - k,
    {
        string_push(s, ' ');
        assert(spaces((k + 1 - len) as nat) =~= spaces((k - len) as nat).push(' '));
        k = k + 1;
    }
    string_append(s, digits.as_str());
    proof {
        if len < width {
            assert(k == width);
            assert(s@ =~= old(s)@ + right_aligned(hex(n as nat), width as nat));
        } else {
            assert(spaces(0) =~= Seq::<char>::empty());
            assert(s@ =~= old(s)@ + right_aligned(hex(n as nat), width as nat));
        }
    }
}

} // verus!
