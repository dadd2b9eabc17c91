use vstd::prelude::*;

verus! {

/// `char::is_whitespace`: the Unicode White_Space property.
pub open spec fn is_whitespace(c: char) -> bool {
    ||| '\u{9}' <= c <= '\u{d}'
    ||| c == ' '
    ||| c == '\u{85}'
    ||| c == '\u{a0}'
    ||| c == '\u{1680}'
    ||| '\u{2000}' <= c <= '\u{200a}'
    ||| c == '\u{2028}'
    ||| c == '\u{2029}'
    ||| c == '\u{202f}'
    ||| c == '\u{205f}'
    ||| c == '\u{3000}'
}

/// `char::is_ascii_alphanumeric`.
pub open spec fn is_ascii_alphanumeric(c: char) -> bool {
    ||| '0' <= c <= '9'
    ||| 'a' <= c <= 'z'
    ||| 'A' <= c <= 'Z'
}

/// `char::to_ascii_lowercase`.
pub open spec fn ascii_lower(c: char) -> char {
    if 'A' <= c <= 'Z' {
        ((c as u32) + 32) as char
    } else {
        c
    }
}

/// `str::trim_start`.
pub open spec fn trim_start(s: Seq<char>) -> Seq<char>
    decreases s.len(),
{
    if s.len() > 0 && is_whitespace(s[0]) {
        trim_start(s.drop_first())
    } else {
        s
    }
}

/// `str::trim_end`.
pub open spec fn trim_end(s: Seq<char>) -> Seq<char>
    decreases s.len(),
{
    if s.len() > 0 && is_whitespace(s.last()) {
        trim_end(s.drop_last())
    } else {
        s
    }
}

/// `str::trim`: whitespace removed from both ends.
pub open spec fn trim(s: Seq<char>) -> Seq<char> {
    trim_end(trim_start(s))
}

/// `str::to_ascii_lowercase`.
pub open spec fn lower(s: Seq<char>) -> Seq<char> {
    s.map_values(|c: char| ascii_lower(c))
}

/// Only the ASCII letters and digits, lowercased: how board and vendor names
/// are compared.
pub open spec fn normalize(s: Seq<char>) -> Seq<char>
    decreases s.len(),
{
    if s.len() == 0 {
        Seq::empty()
    } else if is_ascii_alphanumeric(s.last()) {
        normalize(s.drop_last()).push(ascii_lower(s.last()))
    } else {
        normalize(s.drop_last())
    }
}

/// How names are compared: appending a character to a name appends to its
/// normalized form exactly the ASCII digits and small letters unchanged, the
/// ASCII capitals as small letters, and nothing for any other character; an
/// empty name normalizes to nothing. So two names that differ in a digit or a
/// letter (other than by case) never normalize alike.
pub proof fn lemma_normalize_step(s: Seq<char>, c: char)
    ensures
        normalize(Seq::<char>::empty()) == Seq::<char>::empty(),
        ('0' <= c <= '9' || 'a' <= c <= 'z') ==> normalize(s.push(c)) == normalize(s).push(c),
        'A' <= c <= 'Z' ==> normalize(s.push(c)) == normalize(s).push(
            ((c as u32) + 32) as char,
        ),
        !('0' <= c <= '9' || 'a' <= c <= 'z' || 'A' <= c <= 'Z') ==> normalize(s.push(c))
            == normalize(s),
{
    assert(s.push(c).drop_last() =~= s);
    assert(s.push(c).last() == c);
}

/// `needle` occurs in `hay` as a contiguous run (always true for an empty needle).
pub open spec fn contains(hay: Seq<char>, needle: Seq<char>) -> bool {
    exists|i: int| 0 <= i <= hay.len() - needle.len() && #[trigger] hay.subrange(i, i + needle.len()) == needle
}

/// The characters of `s`.
pub fn chars_of(s: &str) -> (chars: Vec<char>)
    ensures
        chars@ == s@,
{
    let n = s.unicode_len();
    let mut chars: Vec<char> = Vec::with_capacity(n);
    let mut i: usize = 0;
    while i < n
        invariant
            n == s@.len(),
            i <= n,
            chars@ == s@.take(i as int),
        decreases n - i,
    {
        chars.push(s.get_char(i));
        i = i + 1;
        assert(chars@ =~= s@.take(i as int));
    }
    assert(s@.take(n as int) =~= s@);
    chars
}

/// Whether `c` is whitespace.
pub fn char_is_whitespace(c: char) -> (b: bool)
    ensures
        b == is_whitespace(c),
{
    ('\u{9}' <= c && c <= '\u{d}') || c == ' ' || c == '\u{85}' || c == '\u{a0}' || c == '\u{1680}'
        || ('\u{2000}' <= c && c <= '\u{200a}') || c == '\u{2028}' || c == '\u{2029}' || c
        == '\u{202f}' || c == '\u{205f}' || c == '\u{3000}'
}

/// Whether `c` is an ASCII letter or digit.
pub fn char_is_ascii_alphanumeric(c: char) -> (b: bool)
    ensures
        b == is_ascii_alphanumeric(c),
{
    ('0' <= c && c <= '9') || ('a' <= c && c <= 'z') || ('A' <= c && c <= 'Z')
}

/// `c` with an ASCII capital turned into a small letter.
pub fn char_to_ascii_lowercase(c: char) -> (l: char)
    ensures
        l == ascii_lower(c),
{
    if 'A' <= c && c <= 'Z' {
        let code: u8 = c as u8;
        let lowered: u8 = code + 32;
        lowered as char
    } else {
        c
    }
}

/// Trimming starts where the first non-whitespace character is.
proof fn lemma_trim_start_skips(s: Seq<char>, i: int)
    requires
        0 <= i < s.len(),
        is_whitespace(s[i]),
    ensures
        trim_start(s.subrange(i, s.len() as int)) == trim_start(s.subrange(i + 1, s.len() as int)),
{
    assert(s.subrange(i, s.len() as int).drop_first() =~= s.subrange(i + 1, s.len() as int));
}

/// Trimming ends where the last non-whitespace character is.
proof fn lemma_trim_end_skips(s: Seq<char>, j: int)
    requires
        0 < j <= s.len(),
        is_whitespace(s[j - 1]),
    ensures
        trim_end(s.subrange(0, j)) == trim_end(s.subrange(0, j - 1)),
{
    assert(s.subrange(0, j).drop_last() =~= s.subrange(0, j - 1));
}

/// `s` with whitespace removed from both ends.
pub fn trim_chars(s: &Vec<char>) -> (trimmed: Vec<char>)
    ensures
        trimmed@ == trim(s@),
{
    let n = s.len();
    let mut i: usize = 0;
    assert(s@.subrange(0, n as int) =~= s@);
    while i < n && char_is_whitespace(s[i])
        invariant
            n == s@.len(),
            i <= n,
            trim_start(s@) == trim_start(s@.subrange(i as int, n as int)),
        decreases n - i,
    {
        proof {
            lemma_trim_start_skips(s@, i as int);
        }
        i = i + 1;
    }
    let ghost start = s@.subrange(i as int, n as int);
    assert(trim_start(s@) == start);
    let mut j: usize = n;
    assert(start.subrange(0, (n - i) as int) =~= start);
    while j > i && char_is_whitespace(s[j - 1])
        invariant
            n == s@.len(),
            i <= j <= n,
            start == s@.subrange(i as int, n as int),
            trim_end(start) == trim_end(start.subrange(0, (j - i) as int)),
        decreases j,
    {
        proof {
            lemma_trim_end_skips(start, (j - i) as int);
        }
        j = j - 1;
    }
    let mut trimmed: Vec<char> = Vec::with_capacity(j - i);
    let mut k: usize = i;
    while k < j
        invariant
            n == s@.len(),
            i <= k <= j <= n,
            trimmed@ == s@.subrange(i as int, k as int),
        decreases j - k,
    {
        trimmed.push(s[k]);
        k = k + 1;
        assert(trimmed@ =~= s@.subrange(i as int, k as int));
    }
    assert(start.subrange(0, (j - i) as int) =~= s@.subrange(i as int, j as int));
    trimmed
}

/// `s` with ASCII capitals turned into small letters.
pub fn lower_chars(s: &Vec<char>) -> (lowered: Vec<char>)
    ensures
        lowered@ == lower(s@),
{
    let mut lowered: Vec<char> = Vec::with_capacity(s.len());
    let mut i: usize = 0;
    while i < s.len()
        invariant
            i <= s@.len(),
            lowered@ == lower(s@.take(i as int)),
        decreases s@.len() - i,
    {
        lowered.push(char_to_ascii_lowercase(s[i]));
        i = i + 1;
        assert(lowered@ =~= lower(s@.take(i as int)));
    }
    assert(s@.take(s@.len() as int) =~= s@);
    lowered
}

/// `s` trimmed and lowercased: how profile keywords are read.
pub fn trim_lower(s: &str) -> (keyword: Vec<char>)
    ensures
        keyword@ == lower(trim(s@)),
{
    let chars = chars_of(s);
    let trimmed = trim_chars(&chars);
    lower_chars(&trimmed)
}

/// `s` is empty once trimmed.
pub fn is_blank(s: &str) -> (blank: bool)
    ensures
        blank == (trim(s@).len() == 0),
{
    let chars = chars_of(s);
    let trimmed = trim_chars(&chars);
    trimmed.len() == 0
}

/// Only the ASCII letters and digits of `s`, lowercased.
pub fn normalize_str(s: &str) -> (normalized: Vec<char>)
    ensures
        normalized@ == normalize(s@),
{
    let chars = chars_of(s);
    let mut normalized: Vec<char> = Vec::new();
    let mut i: usize = 0;
    while i < chars.len()
        invariant
            chars@ == s@,
            i <= chars@.len(),
            normalized@ == normalize(chars@.take(i as int)),
        decreases chars@.len() - i,
    {
        let c = chars[i];
        assert(chars@.take(i + 1).drop_last() =~= chars@.take(i as int));
        if char_is_ascii_alphanumeric(c) {
            normalized.push(char_to_ascii_lowercase(c));
        }
        i = i + 1;
    }
    assert(chars@.take(chars@.len() as int) =~= chars@);
    normalized
}

/// The two character sequences are equal.
pub fn chars_equal(a: &Vec<char>, b: &Vec<char>) -> (equal: bool)
    ensures
        equal == (a@ == b@),
{
    if a.len() != b.len() {
        return false;
    }
    let mut i: usize = 0;
    while i < a.len()
        invariant
            a@.len() == b@.len(),
            i <= a@.len(),
            forall|k: int| 0 <= k < i ==> a@[k] == b@[k],
        decreases a@.len() - i,
    {
        if a[i] != b[i] {
            return false;
        }
        i = i + 1;
    }
    assert(a@ =~= b@);
    true
}

/// `needle` occurs in `hay` as a contiguous run.
pub fn contains_chars(hay: &Vec<char>, needle: &Vec<char>) -> (found: bool)
    ensures
        found == contains(hay@, needle@),
{
    if needle.len() > hay.len() {
        return false;
    }
    let hay_len = hay.len();
    let last = hay_len - needle.len();
    let mut i: usize = 0;
    loop
        invariant
            i <= last,
            hay_len == hay@.len(),
            needle@.len() <= hay@.len(),
            last == hay@.len() - needle@.len(),
            forall|k: int| 0 <= k < i ==> #[trigger] hay@.subrange(k, k + needle@.len()) != needle@,
        decreases last - i,
    {
        let mut j: usize = 0;
        while j < needle.len()
            invariant
                hay_len == hay@.len(),
                i + needle@.len() <= hay@.len(),
                j <= needle@.len(),
                forall|k: int| 0 <= k < j ==> hay@[i + k] == needle@[k],
            ensures
                j <= needle@.len(),
                forall|k: int| 0 <= k < j ==> hay@[i + k] == needle@[k],
                j < needle@.len() ==> hay@[i + j] != needle@[j as int],
            decreases needle@.len() - j,
        {
            let at: usize = i + j;
            if hay[at] != needle[j] {
                break;
            }
            j = j + 1;
        }
        if j == needle.len() {
            assert(hay@.subrange(i as int, i + needle@.len()) =~= needle@);
            return true;
        }
        assert(hay@.subrange(i as int, i + needle@.len())[j as int] != needle@[j as int]);
        if i == last {
            return false;
        }
        i = i + 1;
    }
}

/// The string made of these characters, in order.
///
/// Trusted: calls std's `String::from_iter` (the `FromIterator<&char>` impl
/// for `String`), which appends each character of the iterator in turn; the
/// contract claims only that the characters of the result are exactly
/// `chars`, in the same order.
#[verifier::external_body]
pub(crate) fn string_from_chars(chars: &Vec<char>) -> (s: String)
    ensures
        s@ == chars@,
{
    String::from_iter(chars.iter())
}

} // verus!
