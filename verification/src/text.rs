//! Character-level helpers shared by the parsers and diagnostics: building
//! strings, comparing them, decimal rendering, joining, searching for a
//! substring and Unicode whitespace.

use vstd::prelude::*;

verus! {

/// Appends one character to a string (`String::push`): the string's
/// characters afterwards are the old characters followed by `c`.
#[verifier::external_body]
pub(crate) fn push_char(s: &mut String, c: char)
    ensures
        final(s)@ == old(s)@.push(c),
{
    s.push(c);
}

/// Unicode `White_Space` property, which `char::is_whitespace` and
/// `str::trim` use.
pub open spec fn is_unicode_whitespace(c: char) -> bool {
    let u = c as u32;
    ||| (0x09 <= u && u <= 0x0d)
    ||| u == 0x20
    ||| u == 0x85
    ||| u == 0xa0
    ||| u == 0x1680
    ||| (0x2000 <= u && u <= 0x200a)
    ||| u == 0x2028
    ||| u == 0x2029
    ||| u == 0x202f
    ||| u == 0x205f
    ||| u == 0x3000
}

/// Executable test for [`is_unicode_whitespace`].
pub fn is_whitespace_char(c: char) -> (r: bool)
    ensures
        r == is_unicode_whitespace(c),
{
    let u = c as u32;
    (0x09 <= u && u <= 0x0d) || u == 0x20 || u == 0x85 || u == 0xa0 || u == 0x1680 || (0x2000
        <= u && u <= 0x200a) || u == 0x2028 || u == 0x2029 || u == 0x202f || u == 0x205f || u
        == 0x3000
}

/// ASCII letters.
pub open spec fn is_ascii_alpha(c: char) -> bool {
    ('a' <= c && c <= 'z') || ('A' <= c && c <= 'Z')
}

/// ASCII letters and digits.
pub open spec fn is_ascii_alnum(c: char) -> bool {
    is_ascii_alpha(c) || ('0' <= c && c <= '9')
}

/// ASCII lower-casing of one character (`char::to_ascii_lowercase`).
pub open spec fn ascii_lower(c: char) -> char {
    if 'A' <= c && c <= 'Z' {
        ((c as u32) + 32) as char
    } else {
        c
    }
}

/// ASCII lower-casing of a character sequence.
pub open spec fn ascii_lower_seq(s: Seq<char>) -> Seq<char> {
    s.map_values(|c: char| ascii_lower(c))
}

/// Executable [`ascii_lower`].
pub fn to_ascii_lower(c: char) -> (r: char)
    ensures
        r == ascii_lower(c),
{
    if 'A' <= c && c <= 'Z' {
        let u = c as u32 + 32;
        assert(0x61 <= u <= 0x7a);
        char_from_ascii(u as u8)
    } else {
        c
    }
}

/// Character of an ASCII code.
pub fn char_from_ascii(b: u8) -> (c: char)
    requires
        b < 128,
    ensures
        c == b as char,
        c as u32 == b as u32,
{
    b as char
}

/// The characters of a string slice.
pub fn chars_of(s: &str) -> (v: Vec<char>)
    ensures
        v@ == s@,
{
    let mut v: Vec<char> = Vec::new();
    for c in it: s.chars()
        invariant
            v@ == it.seq().take(it.index() as int),
    {
        v.push(c);
    }
    v
}

/// A string made of the given characters.
pub fn string_from_chars(cs: &[char]) -> (s: String)
    ensures
        s@ == cs@,
{
    let mut s = String::new();
    let mut i: usize = 0;
    while i < cs.len()
        invariant
            i <= cs.len(),
            s@ == cs@.take(i as int),
        decreases cs.len() - i,
    {
        push_char(&mut s, cs[i]);
        i += 1;
        assert(cs@.take(i as int) == cs@.take((i - 1) as int).push(cs@[i - 1]));
    }
    assert(cs@.take(cs.len() as int) == cs@);
    s
}

/// A string made of the characters `cs[from..to]`.
pub fn string_from_range(cs: &[char], from: usize, to: usize) -> (s: String)
    requires
        from <= to <= cs.len(),
    ensures
        s@ == cs@.subrange(from as int, to as int),
{
    let mut s = String::new();
    let mut i: usize = from;
    while i < to
        invariant
            from <= i <= to <= cs.len(),
            s@ == cs@.subrange(from as int, i as int),
        decreases to - i,
    {
        push_char(&mut s, cs[i]);
        i += 1;
        assert(cs@.subrange(from as int, i as int) == cs@.subrange(from as int, (i - 1) as int).push(
            cs@[i - 1],
        ));
    }
    s
}

/// Appends all characters of `t` to `s`.
pub fn push_str(s: &mut String, t: &str)
    ensures
        final(s)@ == old(s)@ + t@,
{
    let cs = chars_of(t);
    let ghost start = s@;
    let mut i: usize = 0;
    while i < cs.len()
        invariant
            i <= cs.len(),
            cs@ == t@,
            s@ == start + cs@.take(i as int),
        decreases cs.len() - i,
    {
        push_char(s, cs[i]);
        i += 1;
        assert(cs@.take(i as int) == cs@.take((i - 1) as int).push(cs@[i - 1]));
    }
    assert(cs@.take(cs.len() as int) == cs@);
}

/// A copy of a string slice as an owned string.
pub fn owned(t: &str) -> (s: String)
    ensures
        s@ == t@,
{
    let mut s = String::new();
    push_str(&mut s, t);
    s
}

/// Whether two character sequences are equal.
pub fn chars_eq(a: &[char], b: &[char]) -> (r: bool)
    ensures
        r == (a@ == b@),
{
    if a.len() != b.len() {
        return false;
    }
    let mut i: usize = 0;
    while i < a.len()
        invariant
            a.len() == b.len(),
            i <= a.len(),
            forall|k: int| 0 <= k < i ==> a@[k] == b@[k],
        decreases a.len() - i,
    {
        if a[i] != b[i] {
            return false;
        }
        i += 1;
    }
    assert(a@ =~= b@);
    true
}

/// Whether two string slices hold the same characters.
pub fn str_eq(a: &str, b: &str) -> (r: bool)
    ensures
        r == (a@ == b@),
{
    let ca = chars_of(a);
    let cb = chars_of(b);
    chars_eq(ca.as_slice(), cb.as_slice())
}

/// Decimal digit character for `d < 10`.
pub open spec fn digit_char(d: nat) -> char {
    ((d + 48) as u8) as char
}

/// Decimal rendering of a natural number, without leading zeros.
pub open spec fn decimal(n: nat) -> Seq<char>
    decreases n,
{
    if n < 10 {
        seq![digit_char(n)]
    } else {
        decimal(n / 10).push(digit_char(n % 10))
    }
}

/// Decimal rendering of `n` (`usize::to_string`).
pub fn usize_to_string(n: usize) -> (s: String)
    ensures
        s@ == decimal(n as nat),
{
    // Collect the digits from least to most significant.
    let mut rev: Vec<char> = Vec::new();
    let mut m: usize = n;
    loop
        invariant_except_break
            decimal(n as nat) == decimal_prefix_of(m as nat, rev@),
        ensures
            decimal(n as nat) == reversed(rev@),
        decreases m,
    {
        let d = m % 10;
        let c = char_from_ascii((d + 48) as u8);
        proof {
            lemma_decimal_step(m as nat, rev@, c);
        }
        rev.push(c);
        if m < 10 {
            break;
        }
        m = m / 10;
    }
    let mut s = String::new();
    let mut i: usize = rev.len();
    assert(rev@.take(rev.len() as int) =~= rev@);
    while i > 0
        invariant
            i <= rev.len(),
            decimal(n as nat) == s@ + reversed(rev@.take(i as int)),
        decreases i,
    {
        i -= 1;
        proof {
            lemma_reversed_take(rev@, i as int);
        }
        push_char(&mut s, rev[i]);
    }
    assert(rev@.take(0) =~= Seq::<char>::empty());
    assert(reversed(Seq::<char>::empty()) =~= Seq::<char>::empty());
    s
}

/// The reverse of a sequence.
pub open spec fn reversed(s: Seq<char>) -> Seq<char>
    decreases s.len(),
{
    if s.len() == 0 {
        s
    } else {
        seq![s.last()] + reversed(s.drop_last())
    }
}

/// The decimal rendering of a number whose high part is `m` and whose low
/// digits, least significant first, are `low_rev`.
pub open spec fn decimal_prefix_of(m: nat, low_rev: Seq<char>) -> Seq<char> {
    if low_rev.len() == 0 {
        decimal(m)
    } else {
        decimal(m) + reversed(low_rev)
    }
}

proof fn lemma_reversed_push(s: Seq<char>, c: char)
    ensures
        reversed(s.push(c)) == seq![c] + reversed(s),
{
    assert(s.push(c).drop_last() =~= s);
}

proof fn lemma_reversed_take(s: Seq<char>, i: int)
    requires
        0 <= i < s.len(),
    ensures
        reversed(s.take(i + 1)) == seq![s[i]] + reversed(s.take(i)),
{
    assert(s.take(i + 1) =~= s.take(i).push(s[i]));
    lemma_reversed_push(s.take(i), s[i]);
}

proof fn lemma_decimal_step(m: nat, rev: Seq<char>, c: char)
    requires
        c == digit_char(m % 10),
    ensures
        m < 10 ==> decimal_prefix_of(m, rev) == reversed(rev.push(c)),
        m >= 10 ==> decimal_prefix_of(m, rev) == decimal_prefix_of(m / 10, rev.push(c)),
{
    lemma_reversed_push(rev, c);
    if m < 10 {
        assert(decimal(m) == seq![c]);
        if rev.len() == 0 {
            assert(reversed(rev) =~= Seq::<char>::empty());
            assert(seq![c] + reversed(rev) =~= seq![c]);
        }
    } else {
        assert(decimal(m) == decimal(m / 10).push(c));
        if rev.len() == 0 {
            assert(reversed(rev) =~= Seq::<char>::empty());
            assert(decimal(m / 10).push(c) =~= decimal(m / 10) + (seq![c] + reversed(rev)));
        } else {
            assert(decimal(m / 10).push(c) + reversed(rev) =~= decimal(m / 10) + (seq![c]
                + reversed(rev)));
        }
    }
}

/// Elements of `parts` separated by `sep` (`[..].join(sep)`).
pub open spec fn join(parts: Seq<Seq<char>>, sep: Seq<char>) -> Seq<char>
    decreases parts.len(),
{
    if parts.len() == 0 {
        seq![]
    } else if parts.len() == 1 {
        parts[0]
    } else {
        join(parts.drop_last(), sep) + sep + parts.last()
    }
}

/// The character sequences of a slice of strings.
pub open spec fn views(v: Seq<String>) -> Seq<Seq<char>> {
    v.map_values(|s: String| s@)
}

/// `parts.join(sep)` for owned strings.
pub fn join_strings(parts: &[String], sep: &str) -> (r: String)
    ensures
        r@ == join(views(parts@), sep@),
{
    let mut r = String::new();
    let mut i: usize = 0;
    while i < parts.len()
        invariant
            i <= parts.len(),
            r@ == join(views(parts@.take(i as int)), sep@),
        decreases parts.len() - i,
    {
        let ghost before = parts@.take(i as int);
        if i > 0 {
            push_str(&mut r, sep);
        }
        push_str(&mut r, parts[i].as_str());
        i += 1;
        proof {
            let now = parts@.take(i as int);
            assert(now.drop_last() =~= before);
            assert(views(now).drop_last() =~= views(before));
            if i == 1 {
                assert(views(before) =~= Seq::<Seq<char>>::empty());
            }
        }
    }
    assert(parts@.take(parts.len() as int) =~= parts@);
    r
}

/// `pattern` occurs in `text` at character index `i`.
pub open spec fn occurs_at(text: Seq<char>, pattern: Seq<char>, i: int) -> bool {
    0 <= i && i + pattern.len() <= text.len() && text.subrange(i, i + pattern.len()) == pattern
}

/// `pattern` occurs somewhere in `text` (`str::contains`).
pub open spec fn contains_seq(text: Seq<char>, pattern: Seq<char>) -> bool {
    exists|i: int| occurs_at(text, pattern, i)
}

/// Whether `pattern` occurs in `text`.
pub fn contains_str(text: &str, pattern: &str) -> (r: bool)
    ensures
        r == contains_seq(text@, pattern@),
{
    let t = chars_of(text);
    let p = chars_of(pattern);
    if p.len() > t.len() {
        return false;
    }
    let mut i: usize = 0;
    while i <= t.len() - p.len()
        invariant
            t@ == text@,
            p@ == pattern@,
            p.len() <= t.len(),
            i <= t.len() - p.len() + 1,
            forall|k: int| 0 <= k < i ==> !occurs_at(text@, pattern@, k),
        decreases t.len() - i,
    {
        let mut j: usize = 0;
        let mut same = true;
        while j < p.len()
            invariant
                t@ == text@,
                p@ == pattern@,
                i + p.len() <= t.len(),
                j <= p.len(),
                same == (forall|k: int| 0 <= k < j ==> t@[i + k] == p@[k]),
            decreases p.len() - j,
        {
            if t[i + j] != p[j] {
                same = false;
            }
            j += 1;
        }
        if same {
            assert(t@.subrange(i as int, i + p.len()) =~= p@);
            assert(occurs_at(text@, pattern@, i as int));
            return true;
        }
        assert(!occurs_at(text@, pattern@, i as int)) by {
            if occurs_at(text@, pattern@, i as int) {
                let k = choose|k: int| 0 <= k < p.len() && t@[i + k] != p@[k];
                assert(t@.subrange(i as int, i + p.len())[k] == t@[i + k]);
            }
        }
        i += 1;
    }
    assert forall|k: int| !occurs_at(text@, pattern@, k) by {
        if occurs_at(text@, pattern@, k) {
            assert(k < i);
        }
    }
    false
}

/// Every character of `s` is Unicode whitespace (`s.trim().is_empty()`).
pub open spec fn all_whitespace(s: Seq<char>) -> bool {
    forall|i: int| 0 <= i < s.len() ==> is_unicode_whitespace(#[trigger] s[i])
}

/// Whether a string slice is empty after trimming whitespace.
pub fn trims_to_empty(s: &str) -> (r: bool)
    ensures
        r == all_whitespace(s@),
{
    let cs = chars_of(s);
    let mut i: usize = 0;
    while i < cs.len()
        invariant
            cs@ == s@,
            i <= cs.len(),
            forall|k: int| 0 <= k < i ==> is_unicode_whitespace(#[trigger] cs@[k]),
        decreases cs.len() - i,
    {
        if !is_whitespace_char(cs[i]) {
            return false;
        }
        i += 1;
    }
    true
}

/// Number of UTF-8 bytes of a character (`char::len_utf8`).
pub open spec fn utf8_width(c: char) -> nat {
    let u = c as u32;
    if u <= 0x7f {
        1
    } else if u <= 0x7ff {
        2
    } else if u <= 0xffff {
        3
    } else {
        4
    }
}

/// UTF-8 byte offset of character index `i` in `s`.
pub open spec fn utf8_offset(s: Seq<char>, i: int) -> nat {
    vstd::utf8::encode_utf8(s.take(i)).len()
}

/// Executable [`utf8_width`].
pub fn char_width(c: char) -> (w: usize)
    ensures
        w == utf8_width(c),
{
    let u = c as u32;
    if u <= 0x7f {
        1
    } else if u <= 0x7ff {
        2
    } else if u <= 0xffff {
        3
    } else {
        4
    }
}

/// Encoding a sequence with one more character appends that character's
/// encoding.
pub proof fn lemma_encode_push(a: Seq<char>, c: char)
    ensures
        vstd::utf8::encode_utf8(a.push(c)) == vstd::utf8::encode_utf8(a) + vstd::utf8::encode_scalar(
            c as u32,
        ),
    decreases a.len(),
{
    if a.len() == 0 {
        assert(a.push(c).drop_first() =~= Seq::<char>::empty());
        assert(vstd::utf8::encode_utf8(Seq::<char>::empty()) =~= Seq::<u8>::empty());
        assert(vstd::utf8::encode_utf8(a) =~= Seq::<u8>::empty());
        assert(vstd::utf8::encode_scalar(c as u32) + Seq::<u8>::empty() =~= vstd::utf8::encode_scalar(
            c as u32,
        ));
    } else {
        assert(a.push(c).drop_first() =~= a.drop_first().push(c));
        lemma_encode_push(a.drop_first(), c);
        assert(a.push(c)[0] == a[0]);
    }
}

/// The encoding of one character has [`utf8_width`] bytes.
pub proof fn lemma_scalar_width(c: char)
    ensures
        vstd::utf8::encode_scalar(c as u32).len() == utf8_width(c),
{
    vstd::utf8::char_is_scalar(c);
}

/// The offset of the next character is the offset of this one plus its
/// width.
pub proof fn lemma_offset_step(s: Seq<char>, i: int)
    requires
        0 <= i < s.len(),
    ensures
        utf8_offset(s, i + 1) == utf8_offset(s, i) + utf8_width(s[i]),
{
    assert(s.take(i + 1) =~= s.take(i).push(s[i]));
    lemma_encode_push(s.take(i), s[i]);
    lemma_scalar_width(s[i]);
}

/// The offset of the end of `s` is its encoded length.
pub proof fn lemma_offset_end(s: Seq<char>)
    ensures
        utf8_offset(s, s.len() as int) == vstd::utf8::encode_utf8(s).len(),
        utf8_offset(s, 0) == 0,
{
    assert(s.take(s.len() as int) =~= s);
    assert(s.take(0) =~= Seq::<char>::empty());
}

/// Offsets grow with the character index.
pub proof fn lemma_offset_mono(s: Seq<char>, i: int, j: int)
    requires
        0 <= i <= j <= s.len(),
    ensures
        utf8_offset(s, i) <= utf8_offset(s, j),
    decreases j - i,
{
    if i < j {
        lemma_offset_step(s, j - 1);
        lemma_offset_mono(s, i, j - 1);
    }
}

} // verus!
