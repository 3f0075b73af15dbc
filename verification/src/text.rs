//! Character-level text handling: Unicode whitespace trimming and ASCII case
//! folding, stated over the characters of a string.

use vstd::prelude::*;
use vstd::string::*;

verus! {

/// Whether `c` carries the Unicode `White_Space` property, which is the test
/// `char::is_whitespace` makes and so the one `str::trim` strips by.
pub open spec fn is_white_space(c: char) -> bool {
    let u = c as u32;
    ||| (0x9 <= u && u <= 0xD)
    ||| u == 0x20
    ||| u == 0x85
    ||| u == 0xA0
    ||| u == 0x1680
    ||| (0x2000 <= u && u <= 0x200A)
    ||| u == 0x2028
    ||| u == 0x2029
    ||| u == 0x202F
    ||| u == 0x205F
    ||| u == 0x3000
}

/// `s` without its leading whitespace.
pub open spec fn trim_start(s: Seq<char>) -> Seq<char>
    decreases s.len(),
{
    if s.len() > 0 && is_white_space(s[0]) {
        trim_start(s.drop_first())
    } else {
        s
    }
}

/// `s` without its trailing whitespace.
pub open spec fn trim_end(s: Seq<char>) -> Seq<char>
    decreases s.len(),
{
    if s.len() > 0 && is_white_space(s.last()) {
        trim_end(s.drop_last())
    } else {
        s
    }
}

/// `s` without leading or trailing whitespace: what `str::trim` returns.
pub open spec fn trimmed(s: Seq<char>) -> Seq<char> {
    trim_end(trim_start(s))
}

/// A text with no whitespace and no ASCII capital is its own trimmed,
/// lower-cased form.
pub proof fn lemma_plain_text_is_its_own_key(s: Seq<char>)
    requires
        forall|i: int|
            0 <= i < s.len() ==> !is_white_space(#[trigger] s[i]) && !('A' <= s[i] && s[i] <= 'Z'),
    ensures
        ascii_lowercase(trimmed(s)) == s,
{
    if s.len() > 0 {
        assert(!is_white_space(s[0]));
    }
    lemma_trim_start_at(s, 0);
    assert(s.subrange(0, s.len() as int) =~= s);
    if s.len() > 0 {
        assert(!is_white_space(s[s.len() - 1]));
    }
    lemma_trim_end_at(s, s.len() as int);
    assert(ascii_lowercase(s) =~= s);
}

/// The ASCII lower-case form of one character; every other character is its own.
pub open spec fn ascii_lower(c: char) -> char {
    if 'A' <= c && c <= 'Z' {
        ((c as u8) + 32) as char
    } else {
        c
    }
}

/// Whether two texts are equal once ASCII letters are folded to lower case.
///
/// Over characters this is the same relation `str::eq_ignore_ascii_case` decides
/// over UTF-8 bytes: folding leaves every non-ASCII character (and byte) alone.
pub open spec fn eq_ignore_ascii_case(a: Seq<char>, b: Seq<char>) -> bool {
    &&& a.len() == b.len()
    &&& forall|i: int| 0 <= i < a.len() ==> ascii_lower(#[trigger] a[i]) == ascii_lower(b[i])
}

/// `s` with every ASCII letter folded to lower case.
pub open spec fn ascii_lowercase(s: Seq<char>) -> Seq<char> {
    s.map_values(|c: char| ascii_lower(c))
}

/// Executable form of [`is_white_space`].
pub fn white_space(c: char) -> (b: bool)
    ensures
        b == is_white_space(c),
{
    let u = c as u32;
    (0x9 <= u && u <= 0xD) || u == 0x20 || u == 0x85 || u == 0xA0 || u == 0x1680 || (0x2000 <= u
        && u <= 0x200A) || u == 0x2028 || u == 0x2029 || u == 0x202F || u == 0x205F || u == 0x3000
}

/// Executable form of [`ascii_lower`].
pub fn to_ascii_lower(c: char) -> (r: char)
    ensures
        r == ascii_lower(c),
{
    if 'A' <= c && c <= 'Z' {
        ((c as u8) + 32) as char
    } else {
        c
    }
}

/// The characters of `s`, one per element.
pub fn chars_of(s: &str) -> (v: Vec<char>)
    ensures
        v@ == s@,
{
    let n = s.unicode_len();
    let mut v: Vec<char> = Vec::new();
    let mut i: usize = 0;
    while i < n
        invariant
            n == s@.len(),
            i <= n,
            v@ == s@.subrange(0, i as int),
        decreases n - i,
    {
        v.push(s.get_char(i));
        i = i + 1;
    }
    assert(v@ =~= s@);
    v
}

/// Leading whitespace up to a first non-whitespace character at `k` is what
/// `trim_start` removes.
proof fn lemma_trim_start_at(s: Seq<char>, k: int)
    requires
        0 <= k <= s.len(),
        forall|i: int| 0 <= i < k ==> is_white_space(#[trigger] s[i]),
        k < s.len() ==> !is_white_space(s[k]),
    ensures
        trim_start(s) == s.subrange(k, s.len() as int),
    decreases k,
{
    if k == 0 {
        assert(s.subrange(0, s.len() as int) =~= s);
    } else {
        let t = s.drop_first();
        assert forall|i: int| 0 <= i < k - 1 implies is_white_space(#[trigger] t[i]) by {
            assert(t[i] == s[i + 1]);
        }
        lemma_trim_start_at(t, k - 1);
        assert(t.subrange(k - 1, t.len() as int) =~= s.subrange(k, s.len() as int));
    }
}

/// Trailing whitespace from a last non-whitespace character at `k - 1` is what
/// `trim_end` removes.
proof fn lemma_trim_end_at(s: Seq<char>, k: int)
    requires
        0 <= k <= s.len(),
        forall|i: int| k <= i < s.len() ==> is_white_space(#[trigger] s[i]),
        k > 0 ==> !is_white_space(s[k - 1]),
    ensures
        trim_end(s) == s.subrange(0, k),
    decreases s.len() - k,
{
    if k == s.len() {
        assert(s.subrange(0, k) =~= s);
    } else {
        let t = s.drop_last();
        assert forall|i: int| k <= i < t.len() implies is_white_space(#[trigger] t[i]) by {
            assert(t[i] == s[i]);
        }
        lemma_trim_end_at(t, k);
        assert(t.subrange(0, k) =~= s.subrange(0, k));
    }
}

/// The characters of `s` with leading and trailing whitespace removed, as
/// `str::trim` leaves them.
pub fn trimmed_chars(s: &str) -> (r: Vec<char>)
    ensures
        r@ == trimmed(s@),
{
    let v = chars_of(s);
    let n = v.len();
    let mut start: usize = 0;
    while start < n && white_space(v[start])
        invariant
            n == v@.len(),
            start <= n,
            forall|i: int| 0 <= i < start ==> is_white_space(#[trigger] v@[i]),
        decreases n - start,
    {
        start = start + 1;
    }
    proof {
        lemma_trim_start_at(v@, start as int);
    }
    let ghost rest = v@.subrange(start as int, n as int);
    let mut end: usize = n;
    while end > start && white_space(v[end - 1])
        invariant
            n == v@.len(),
            start <= end <= n,
            forall|i: int| end <= i < n ==> is_white_space(#[trigger] v@[i]),
        decreases end - start,
    {
        end = end - 1;
    }
    proof {
        assert forall|i: int| end - start <= i < rest.len() implies is_white_space(
            #[trigger] rest[i],
        ) by {
            assert(rest[i] == v@[i + start]);
        }
        if end > start {
            assert(rest[end - start - 1] == v@[end - 1]);
        }
        lemma_trim_end_at(rest, end - start);
    }
    let mut r: Vec<char> = Vec::new();
    let mut i: usize = start;
    while i < end
        invariant
            start <= i <= end <= n,
            n == v@.len(),
            r@ == v@.subrange(start as int, i as int),
        decreases end - i,
    {
        r.push(v[i]);
        i = i + 1;
    }
    assert(r@ =~= rest.subrange(0, end - start));
    r
}

/// Whether the characters `s` spell `word` once ASCII case is set aside.
pub fn eq_ignore_case_chars(s: &Vec<char>, word: &str) -> (b: bool)
    ensures
        b == eq_ignore_ascii_case(s@, word@),
{
    let w = chars_of(word);
    if s.len() != w.len() {
        return false;
    }
    let mut i: usize = 0;
    while i < s.len()
        invariant
            s@.len() == w@.len(),
            w@ == word@,
            i <= s@.len(),
            forall|j: int| 0 <= j < i ==> ascii_lower(#[trigger] s@[j]) == ascii_lower(w@[j]),
        decreases s@.len() - i,
    {
        if to_ascii_lower(s[i]) != to_ascii_lower(w[i]) {
            return false;
        }
        i = i + 1;
    }
    true
}

/// `s` with every ASCII letter folded to lower case.
pub fn ascii_lower_chars(s: &Vec<char>) -> (r: Vec<char>)
    ensures
        r@ == ascii_lowercase(s@),
{
    let mut r: Vec<char> = Vec::new();
    let mut i: usize = 0;
    while i < s.len()
        invariant
            i <= s@.len(),
            r@ == ascii_lowercase(s@.subrange(0, i as int)),
        decreases s@.len() - i,
    {
        r.push(to_ascii_lower(s[i]));
        proof {
            assert(ascii_lowercase(s@.subrange(0, i + 1)) =~= ascii_lowercase(
                s@.subrange(0, i as int),
            ).push(ascii_lower(s@[i as int])));
        }
        i = i + 1;
    }
    assert(s@.subrange(0, s@.len() as int) =~= s@);
    r
}

/// The text a selector name is compared as: trimmed, and folded to ASCII lower case.
pub open spec fn selector_key(value: Seq<char>) -> Seq<char> {
    ascii_lowercase(trimmed(value))
}

/// A text with each hyphen written as an underscore.
pub open spec fn underscored(s: Seq<char>) -> Seq<char> {
    s.map_values(|c: char| if c == '-' { '_' } else { c })
}

/// A text whose underscored form is `t` agrees with `t` wherever `t` has no
/// underscore, and has an underscore or a hyphen wherever `t` has one.
pub proof fn lemma_underscored_preimage(k: Seq<char>, t: Seq<char>)
    requires
        underscored(k) == t,
    ensures
        k.len() == t.len(),
        forall|i: int|
            0 <= i < t.len() ==> (#[trigger] k[i] == t[i]) || (t[i] == '_' && k[i] == '-'),
{
    assert forall|i: int| 0 <= i < t.len() implies (#[trigger] k[i] == t[i]) || (t[i] == '_' && k[i]
        == '-') by {
        assert(underscored(k)[i] == t[i]);
    }
}

/// The underscored form of a text has no hyphen.
pub proof fn lemma_underscored_has_no_hyphen(s: Seq<char>)
    ensures
        forall|i: int| 0 <= i < underscored(s).len() ==> underscored(s)[i] != '-',
{
}

/// Executable form of [`selector_key`].
pub fn selector_key_chars(value: &str) -> (r: Vec<char>)
    ensures
        r@ == selector_key(value@),
{
    let t = trimmed_chars(value);
    ascii_lower_chars(&t)
}

/// Whether two texts are the same characters.
pub fn same_text(a: &str, b: &str) -> (r: bool)
    ensures
        r == (a@ == b@),
{
    let v = chars_of(a);
    chars_equal(&v, b)
}

/// Whether the characters `s` are exactly `word`.
pub fn chars_equal(s: &Vec<char>, word: &str) -> (b: bool)
    ensures
        b == (s@ == word@),
{
    let w = chars_of(word);
    if s.len() != w.len() {
        return false;
    }
    let mut i: usize = 0;
    while i < s.len()
        invariant
            s@.len() == w@.len(),
            w@ == word@,
            i <= s@.len(),
            forall|j: int| 0 <= j < i ==> #[trigger] s@[j] == w@[j],
        decreases s@.len() - i,
    {
        if s[i] != w[i] {
            return false;
        }
        i = i + 1;
    }
    assert(s@ =~= w@);
    true
}

/// A `String` holding exactly the characters `v`.
///
/// Trusted: collects the characters with `Iterator::collect` into a `String`,
/// which appends them in order.
#[verifier::external_body]
pub(crate) fn string_from_chars(v: &Vec<char>) -> (s: String)
    ensures
        s@ == v@,
{
    v.iter().collect::<String>()
}

/// What `str::to_lowercase` returns for a text: its full Unicode lower-case
/// mapping, which can change a text's length and is stated by the Unicode tables.
pub uninterp spec fn unicode_lowercase(s: Seq<char>) -> Seq<char>;

/// The Unicode lower-case form of `s`.
///
/// Trusted: calls `str::to_lowercase`; the claim is only that the result is a
/// function of the text's characters.
#[verifier::external_body]
pub(crate) fn to_lowercase(s: &str) -> (r: String)
    ensures
        r@ == unicode_lowercase(s@),
{
    s.to_lowercase()
}

/// `a` orders before or with `b` as `String`'s `Ord` orders them: by byte
/// value, which for UTF-8 is the order of the characters' code points, with a
/// proper prefix first.
pub open spec fn text_le(a: Seq<char>, b: Seq<char>) -> bool {
    ||| a.is_prefix_of(b)
    ||| exists|k: int|
        0 <= k < a.len() && k < b.len() && a.take(k) == b.take(k) && (a[k] as u32) < (
        b[k] as u32)
}

/// The characters of a run of strings.
pub open spec fn texts(v: Seq<String>) -> Seq<Seq<char>> {
    v.map_values(|s: String| s@)
}

/// Sort strings into ascending order.
///
/// Trusted: calls `slice::sort`, which rearranges the strings into the order
/// `String`'s `Ord` gives them - byte-wise lexicographic - keeping every one.
#[verifier::external_body]
pub(crate) fn sort_texts(v: &mut Vec<String>)
    ensures
        texts(final(v)@).to_multiset() == texts(old(v)@).to_multiset(),
        forall|i: int, j: int|
            0 <= i <= j < final(v)@.len() ==> text_le(#[trigger] final(v)@[i]@, #[trigger] final(v)@[j]@),
{
    v.sort();
}

} // verus!
