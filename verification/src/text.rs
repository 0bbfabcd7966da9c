use vstd::prelude::*;

verus! {

/// Whether `c` is an ASCII letter or digit.
pub open spec fn is_ascii_alphanumeric(c: char) -> bool {
    ('a' <= c && c <= 'z') || ('A' <= c && c <= 'Z') || ('0' <= c && c <= '9')
}

/// What `char::is_alphanumeric` answers for `c` (Unicode alphabetic or numeric).
pub uninterp spec fn is_alphanumeric_char(c: char) -> bool;

/// What `char::to_lowercase` yields for `c` (Unicode lowercase mapping).
pub uninterp spec fn lowercase_of(c: char) -> Seq<char>;

/// Calls `char::is_alphanumeric`. Its documentation defines it as Unicode `Alphabetic` or
/// `Numeric`; below U+0080 those are exactly the ASCII letters and digits, which is the only
/// fact stated beyond the name.
#[verifier::external_body]
pub(crate) fn char_is_alphanumeric(c: char) -> (result: bool)
    ensures
        result == is_alphanumeric_char(c),
        (c as u32) < 128 ==> (result <==> is_ascii_alphanumeric(c)),
{
    c.is_alphanumeric()
}

/// Calls `char::to_lowercase` and collects the characters it yields. Below U+0080 the
/// mapping is the ASCII one: `A`..=`Z` become `a`..=`z`, every other character stays.
#[verifier::external_body]
pub(crate) fn char_to_lowercase(c: char) -> (lower: Vec<char>)
    ensures
        lower@ == lowercase_of(c),
        ('A' <= c && c <= 'Z') ==> lower@ == seq![((c as u8) + 32) as char],
        ((c as u32) < 128 && !('A' <= c && c <= 'Z')) ==> lower@ == seq![c],
{
    c.to_lowercase().collect()
}

/// Builds a `String` from characters (`FromIterator<char>`).
#[verifier::external_body]
pub(crate) fn string_from_chars(chars: &[char]) -> (text: String)
    ensures
        text@ == chars@,
{
    chars.iter().collect()
}

/// The characters of a string slice.
pub fn chars_of(text: &str) -> (chars: Vec<char>)
    ensures
        chars@ == text@,
{
    let length = text.unicode_len();
    let mut chars: Vec<char> = Vec::new();
    let mut i: usize = 0;
    while i < length
        invariant
            length == text@.len(),
            i <= length,
            chars@ == text@.take(i as int),
        decreases length - i,
    {
        chars.push(text.get_char(i));
        i += 1;
        assert(chars@ =~= text@.take(i as int));
    }
    assert(text@.take(length as int) =~= text@);
    chars
}

/// Whether `needle` occurs in `haystack` as a contiguous run.
pub open spec fn contains_run(haystack: Seq<char>, needle: Seq<char>) -> bool {
    exists|start: int|
        0 <= start && start + needle.len() <= haystack.len() && #[trigger] haystack.subrange(
            start,
            start + needle.len(),
        ) == needle
}

fn matches_at(haystack: &Vec<char>, needle: &Vec<char>, start: usize) -> (found: bool)
    requires
        start + needle@.len() <= haystack@.len(),
    ensures
        found == (haystack@.subrange(start as int, start + needle@.len()) == needle@),
{
    let mut i: usize = 0;
    while i < needle.len()
        invariant
            i <= needle@.len(),
            start + needle@.len() <= haystack@.len(),
            haystack@.len() == haystack.len(),
            forall|j: int| 0 <= j < i ==> haystack@[start + j] == needle@[j],
        decreases needle@.len() - i,
    {
        if haystack[start + i] != needle[i] {
            assert(haystack@.subrange(start as int, start + needle@.len())[i as int] != needle@[i as int]);
            return false;
        }
        i += 1;
    }
    assert(haystack@.subrange(start as int, start + needle@.len()) =~= needle@);
    true
}

/// Substring search on characters, as `str::contains` with a `&str` pattern.
pub fn contains_text(haystack: &str, needle: &str) -> (found: bool)
    ensures
        found == contains_run(haystack@, needle@),
{
    let hay = chars_of(haystack);
    let pattern = chars_of(needle);
    if pattern.len() > hay.len() {
        assert(!contains_run(haystack@, needle@));
        return false;
    }
    if pattern.len() == 0 {
        assert(haystack@.subrange(0int, 0int + needle@.len()) =~= needle@);
        return true;
    }
    let last = hay.len() - pattern.len();
    let mut start: usize = 0;
    while start <= last
        invariant
            hay@ == haystack@,
            pattern@ == needle@,
            last == hay@.len() - pattern@.len(),
            pattern@.len() >= 1,
            hay@.len() == hay.len(),
            start <= last + 1,
            forall|s: int| 0 <= s < start ==> #[trigger] hay@.subrange(s, s + pattern@.len()) != pattern@,
        decreases last + 1 - start,
    {
        if matches_at(&hay, &pattern, start) {
            return true;
        }
        start += 1;
    }
    false
}

/// ASCII case folding of one character.
pub open spec fn ascii_lower(c: char) -> char {
    if 'A' <= c && c <= 'Z' {
        ((c as u8) + 32) as char
    } else {
        c
    }
}

fn ascii_lower_exec(c: char) -> (lower: char)
    ensures
        lower == ascii_lower(c),
{
    if 'A' <= c && c <= 'Z' {
        ((c as u8) + 32) as char
    } else {
        c
    }
}

/// Equality up to ASCII case, as `str::eq_ignore_ascii_case`.
pub open spec fn spec_eq_ignore_ascii_case(left: Seq<char>, right: Seq<char>) -> bool {
    &&& left.len() == right.len()
    &&& forall|i: int| 0 <= i < left.len() ==> ascii_lower(#[trigger] left[i]) == ascii_lower(right[i])
}

pub fn eq_ignore_ascii_case(left: &str, right: &str) -> (equal: bool)
    ensures
        equal == spec_eq_ignore_ascii_case(left@, right@),
{
    let a = chars_of(left);
    let b = chars_of(right);
    if a.len() != b.len() {
        return false;
    }
    let mut i: usize = 0;
    while i < a.len()
        invariant
            a@ == left@,
            b@ == right@,
            a@.len() == b@.len(),
            i <= a@.len(),
            forall|j: int| 0 <= j < i ==> ascii_lower(#[trigger] a@[j]) == ascii_lower(b@[j]),
        decreases a@.len() - i,
    {
        if ascii_lower_exec(a[i]) != ascii_lower_exec(b[i]) {
            return false;
        }
        i += 1;
    }
    true
}

/// The digit character for `d < 16`, lowercase for letters.
pub open spec fn digit_char(d: nat) -> char {
    if d < 10 {
        ((48 + d) as u8) as char
    } else {
        ((87 + d) as u8) as char
    }
}

/// `value` in base `radix` without leading zeros (`"0"` for zero).
pub open spec fn spec_digits(value: nat, radix: nat) -> Seq<char>
    decreases value,
{
    if radix < 2 || value < radix {
        seq![digit_char(value % 16)]
    } else {
        proof {
            assert(value / radix < value) by (nonlinear_arith)
                requires
                    radix >= 2,
                    value >= radix,
            ;
        }
        spec_digits(value / radix, radix).push(digit_char(value % radix))
    }
}

/// Formats `value` in base 10 or 16, as `{}` and `{:x}` print unsigned integers.
pub fn digits(value: u64, radix: u64) -> (text: Vec<char>)
    requires
        radix == 10 || radix == 16,
    ensures
        text@ == spec_digits(value as nat, radix as nat),
    decreases value,
{
    if value < radix {
        let mut text: Vec<char> = Vec::new();
        text.push(digit_exec(value));
        text
    } else {
        let mut text = digits(value / radix, radix);
        text.push(digit_exec(value % radix));
        text
    }
}

fn digit_exec(d: u64) -> (c: char)
    requires
        d < 16,
    ensures
        c == digit_char(d as nat),
{
    if d < 10 {
        (48 + d as u8) as char
    } else {
        (87 + d as u8) as char
    }
}

} // verus!
