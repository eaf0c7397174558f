//! Character-level text helpers that the mixer's naming and parsing rules are built on.
use vstd::prelude::*;
use vstd::std_specs::iter::IteratorSpec;

verus! {

broadcast use vstd::string::group_string_axioms;

/// `p` is a prefix of `s`.
pub open spec fn has_prefix(s: Seq<char>, p: Seq<char>) -> bool {
    p.len() <= s.len() && s.subrange(0, p.len() as int) == p
}

/// `p` is a suffix of `s`.
pub open spec fn has_suffix(s: Seq<char>, p: Seq<char>) -> bool {
    p.len() <= s.len() && s.subrange(s.len() - p.len(), s.len() as int) == p
}

/// `p` occurs in `s` starting at position `i`.
pub open spec fn occurs_at(s: Seq<char>, p: Seq<char>, i: int) -> bool {
    0 <= i && i + p.len() <= s.len() && s.subrange(i, i + p.len()) == p
}

/// `p` occurs somewhere in `s`.
pub open spec fn has_infix(s: Seq<char>, p: Seq<char>) -> bool {
    exists|i: int| occurs_at(s, p, i)
}

/// The characters that carry the Unicode `White_Space` property, which is what
/// `char::is_whitespace` and `str::trim` go by.
pub open spec fn is_white_space(c: char) -> bool {
    ||| ('\t' <= c && c <= '\r')
    ||| c == ' '
    ||| c == '\u{85}'
    ||| c == '\u{a0}'
    ||| c == '\u{1680}'
    ||| ('\u{2000}' <= c && c <= '\u{200a}')
    ||| c == '\u{2028}'
    ||| c == '\u{2029}'
    ||| c == '\u{202f}'
    ||| c == '\u{205f}'
    ||| c == '\u{3000}'
}

/// An ASCII letter or digit.
pub open spec fn is_ascii_alnum(c: char) -> bool {
    ('0' <= c && c <= '9') || ('a' <= c && c <= 'z') || ('A' <= c && c <= 'Z')
}

/// An ASCII decimal digit.
pub open spec fn is_digit(c: char) -> bool {
    '0' <= c && c <= '9'
}

/// Number of leading white-space characters of `s`.
pub open spec fn leading_ws(s: Seq<char>) -> nat
    decreases s.len(),
{
    if s.len() > 0 && is_white_space(s[0]) {
        1 + leading_ws(s.drop_first())
    } else {
        0
    }
}

/// Number of trailing white-space characters of `s`.
pub open spec fn trailing_ws(s: Seq<char>) -> nat
    decreases s.len(),
{
    if s.len() > 0 && is_white_space(s.last()) {
        1 + trailing_ws(s.drop_last())
    } else {
        0
    }
}

/// `s` without leading and trailing white space, as `str::trim` gives it.
pub open spec fn trimmed(s: Seq<char>) -> Seq<char> {
    let lead = leading_ws(s);
    if lead == s.len() {
        Seq::empty()
    } else {
        s.subrange(lead as int, s.len() - trailing_ws(s))
    }
}

/// The ASCII upper-case form of a character (other characters are kept).
pub open spec fn ascii_upper(c: char) -> char {
    if 'a' <= c && c <= 'z' {
        ((c as u32) - 32) as char
    } else {
        c
    }
}

/// The ASCII lower-case form of a character (other characters are kept).
pub open spec fn ascii_lower(c: char) -> char {
    if 'A' <= c && c <= 'Z' {
        ((c as u32) + 32) as char
    } else {
        c
    }
}

/// The value of a non-empty run of decimal digits.
pub open spec fn digits_value(s: Seq<char>) -> nat
    decreases s.len(),
{
    if s.len() == 0 {
        0
    } else {
        digits_value(s.drop_last()) * 10 + ((s.last() as u32) - ('0' as u32)) as nat
    }
}

/// The digits of a decimal number as `str::parse` reads it: an optional `+`
/// sign, then one or more digits.
pub open spec fn number_digits(s: Seq<char>) -> Seq<char> {
    if s.len() > 0 && s[0] == '+' {
        s.drop_first()
    } else {
        s
    }
}

/// `s` is a well-formed unsigned decimal number.
pub open spec fn is_decimal(s: Seq<char>) -> bool {
    let d = number_digits(s);
    d.len() > 0 && forall|i: int| 0 <= i < d.len() ==> is_digit(#[trigger] d[i])
}

/// What `str::parse::<u32>` gives: the value when `s` is a decimal number that
/// fits in 32 bits, otherwise nothing.
pub open spec fn parsed_u32(s: Seq<char>) -> Option<u32> {
    if is_decimal(s) && digits_value(number_digits(s)) <= u32::MAX {
        Some(digits_value(number_digits(s)) as u32)
    } else {
        None
    }
}

/// What `str::parse::<usize>` gives.
pub open spec fn parsed_usize(s: Seq<char>) -> Option<usize> {
    if is_decimal(s) && digits_value(number_digits(s)) <= usize::MAX {
        Some(digits_value(number_digits(s)) as usize)
    } else {
        None
    }
}

/// Unicode lower-case mapping of a whole string, as `str::to_lowercase` computes it.
pub uninterp spec fn unicode_lowercase(s: Seq<char>) -> Seq<char>;

/// Whether a character has the Unicode `Lowercase` property, as `char::is_lowercase` says.
pub uninterp spec fn unicode_is_lowercase(c: char) -> bool;

/// The UTF-8 bytes of a string with characters `s`.
pub open spec fn utf8_of(s: Seq<char>) -> Seq<u8> {
    vstd::utf8::encode_utf8(s)
}

/// The characters of `s`, in order.
pub fn chars_of(s: &str) -> (v: Vec<char>)
    ensures
        v@ == s@,
{
    let mut v: Vec<char> = Vec::new();
    for c in it: s.chars()
        invariant
            it.seq() == s@,
            v@ == it.seq().take(it.index() as int),
    {
        v.push(c);
    }
    v
}

/// A `String` holding exactly the characters of `v` (std's `FromIterator<char>`).
#[verifier::external_body]
pub(crate) fn string_from_chars(v: &[char]) -> (s: String)
    ensures
        s@ == v@,
{
    v.iter().collect()
}

/// `str::to_lowercase`: the claim is that the result is the Unicode lower-case
/// mapping of the argument, which is named rather than written out.
#[verifier::external_body]
pub(crate) fn to_lowercase(s: &str) -> (r: String)
    ensures
        r@ == unicode_lowercase(s@),
{
    s.to_lowercase()
}

/// `char::is_lowercase`: the claim is that it tests the Unicode `Lowercase`
/// property, which is named rather than written out.
#[verifier::external_body]
pub(crate) fn char_is_lowercase(c: char) -> (b: bool)
    ensures
        b == unicode_is_lowercase(c),
{
    c.is_lowercase()
}

/// Character sequences are equal.
pub fn chars_eq(a: &[char], b: &[char]) -> (r: bool)
    ensures
        r == (a@ == b@),
{
    if a.len() != b.len() {
        return false;
    }
    let mut i: usize = 0;
    while i < a.len()
        invariant
            a@.len() == b@.len(),
            i <= a@.len(),
            forall|j: int| 0 <= j < i ==> a@[j] == b@[j],
        decreases a@.len() - i,
    {
        if a[i] != b[i] {
            return false;
        }
        i = i + 1;
    }
    assert(a@ =~= b@);
    true
}

/// Two strings hold the same characters.
pub fn str_eq(a: &str, b: &str) -> (r: bool)
    ensures
        r == (a@ == b@),
{
    let x = chars_of(a);
    let y = chars_of(b);
    chars_eq(x.as_slice(), y.as_slice())
}

/// `p` occurs in `s` at position `i` (exec form).
pub fn chars_occur_at(s: &[char], p: &[char], i: usize) -> (r: bool)
    ensures
        r == occurs_at(s@, p@, i as int),
{
    if i > s.len() || p.len() > s.len() - i {
        return false;
    }
    let n = s.len();
    let mut k: usize = 0;
    while k < p.len()
        invariant
            n == s@.len(),
            i + p@.len() <= s@.len(),
            i <= s@.len(),
            k <= p@.len(),
            forall|j: int| 0 <= j < k ==> s@[i + j] == p@[j],
        decreases p@.len() - k,
    {
        if s[i + k] != p[k] {
            assert(s@.subrange(i as int, i + p@.len())[k as int] != p@[k as int]);
            return false;
        }
        k = k + 1;
    }
    assert(s@.subrange(i as int, i + p@.len()) =~= p@);
    true
}

/// `s` starts with `p`.
pub fn chars_start_with(s: &[char], p: &[char]) -> (r: bool)
    ensures
        r == has_prefix(s@, p@),
{
    chars_occur_at(s, p, 0)
}

/// `s` ends with `p`.
pub fn chars_end_with(s: &[char], p: &[char]) -> (r: bool)
    ensures
        r == has_suffix(s@, p@),
{
    if p.len() > s.len() {
        return false;
    }
    chars_occur_at(s, p, s.len() - p.len())
}

/// `p` occurs somewhere in `s`.
pub fn chars_contain(s: &[char], p: &[char]) -> (r: bool)
    ensures
        r == has_infix(s@, p@),
{
    if p.len() > s.len() {
        assert forall|i: int| !occurs_at(s@, p@, i) by {}
        return false;
    }
    let last = s.len() - p.len();
    let mut i: usize = 0;
    while i < last
        invariant
            p@.len() <= s@.len(),
            last == s@.len() - p@.len(),
            i <= last,
            forall|j: int| 0 <= j < i ==> !occurs_at(s@, p@, j),
        decreases last - i,
    {
        if chars_occur_at(s, p, i) {
            return true;
        }
        i = i + 1;
    }
    if chars_occur_at(s, p, last) {
        return true;
    }
    assert forall|j: int| !occurs_at(s@, p@, j) by {
        if 0 <= j < i {
        }
    }
    false
}

/// `s` starts with `p`.
pub fn str_starts_with(s: &str, p: &str) -> (r: bool)
    ensures
        r == has_prefix(s@, p@),
{
    let x = chars_of(s);
    let y = chars_of(p);
    chars_start_with(x.as_slice(), y.as_slice())
}

/// `s` ends with `p`.
pub fn str_ends_with(s: &str, p: &str) -> (r: bool)
    ensures
        r == has_suffix(s@, p@),
{
    let x = chars_of(s);
    let y = chars_of(p);
    chars_end_with(x.as_slice(), y.as_slice())
}

/// `p` occurs somewhere in `s`.
pub fn str_contains(s: &str, p: &str) -> (r: bool)
    ensures
        r == has_infix(s@, p@),
{
    let x = chars_of(s);
    let y = chars_of(p);
    chars_contain(x.as_slice(), y.as_slice())
}

/// Whether a character carries the Unicode `White_Space` property (`char::is_whitespace`).
pub fn is_white_space_char(c: char) -> (b: bool)
    ensures
        b == is_white_space(c),
{
    ('\t' <= c && c <= '\r') || c == ' ' || c == '\u{85}' || c == '\u{a0}' || c == '\u{1680}'
        || ('\u{2000}' <= c && c <= '\u{200a}') || c == '\u{2028}' || c == '\u{2029}'
        || c == '\u{202f}' || c == '\u{205f}' || c == '\u{3000}'
}

proof fn lemma_leading_ws(s: Seq<char>, k: int)
    requires
        0 <= k <= s.len(),
        forall|j: int| 0 <= j < k ==> is_white_space(#[trigger] s[j]),
    ensures
        leading_ws(s) == k + leading_ws(s.subrange(k, s.len() as int)),
    decreases k,
{
    if k > 0 {
        lemma_leading_ws(s.drop_first(), k - 1);
        assert(s.drop_first().subrange(k - 1, s.drop_first().len() as int) =~= s.subrange(k, s.len() as int));
    } else {
        assert(s.subrange(0, s.len() as int) =~= s);
    }
}

proof fn lemma_trailing_ws(s: Seq<char>, e: int)
    requires
        0 <= e <= s.len(),
        forall|j: int| e <= j < s.len() ==> is_white_space(#[trigger] s[j]),
    ensures
        trailing_ws(s) == (s.len() - e) + trailing_ws(s.subrange(0, e)),
    decreases s.len() - e,
{
    if e < s.len() {
        lemma_trailing_ws(s.drop_last(), e);
        assert(s.drop_last().subrange(0, e) =~= s.subrange(0, e));
    } else {
        assert(s.subrange(0, e) =~= s);
    }
}

/// `v` without leading and trailing white space.
pub fn trim_chars(v: &[char]) -> (r: Vec<char>)
    ensures
        r@ == trimmed(v@),
{
    let n = v.len();
    let mut start: usize = 0;
    while start < n && is_white_space_char(v[start])
        invariant
            n == v@.len(),
            start <= n,
            forall|j: int| 0 <= j < start ==> is_white_space(#[trigger] v@[j]),
        decreases n - start,
    {
        start = start + 1;
    }
    proof {
        lemma_leading_ws(v@, start as int);
        if start < n {
            assert(!is_white_space(v@.subrange(start as int, n as int)[0]));
        }
    }
    let mut r: Vec<char> = Vec::new();
    if start == n {
        return r;
    }
    let mut end: usize = n;
    while end > start && is_white_space_char(v[end - 1])
        invariant
            n == v@.len(),
            start < n,
            start <= end <= n,
            !is_white_space(v@[start as int]),
            forall|j: int| end <= j < n ==> is_white_space(#[trigger] v@[j]),
        decreases end,
    {
        end = end - 1;
    }
    proof {
        lemma_trailing_ws(v@, end as int);
        assert(!is_white_space(v@.subrange(0, end as int).last()));
    }
    let mut i: usize = start;
    while i < end
        invariant
            n == v@.len(),
            start <= i <= end <= n,
            r@ == v@.subrange(start as int, i as int),
        decreases end - i,
    {
        r.push(v[i]);
        i = i + 1;
        assert(r@ =~= v@.subrange(start as int, i as int));
    }
    r
}

/// `str::trim`: `s` without leading and trailing white space.
pub fn trim_str(s: &str) -> (r: String)
    ensures
        r@ == trimmed(s@),
{
    let v = chars_of(s);
    let t = trim_chars(v.as_slice());
    string_from_chars(t.as_slice())
}

/// Length of the run of non-white-space characters at the start of `s`.
pub open spec fn word_len(s: Seq<char>) -> nat
    decreases s.len(),
{
    if s.len() == 0 || is_white_space(s[0]) {
        0
    } else {
        1 + word_len(s.drop_first())
    }
}

pub proof fn lemma_word_len_bound(s: Seq<char>)
    ensures
        word_len(s) <= s.len(),
        s.len() > 0 && !is_white_space(s[0]) ==> word_len(s) >= 1,
    decreases s.len(),
{
    if s.len() > 0 {
        lemma_word_len_bound(s.drop_first());
    }
}

/// The white-space separated words of `s`, as `str::split_whitespace` yields them.
pub open spec fn words(s: Seq<char>) -> Seq<Seq<char>>
    decreases s.len(),
{
    if s.len() == 0 {
        Seq::empty()
    } else if is_white_space(s[0]) {
        words(s.drop_first())
    } else {
        let n = word_len(s);
        proof {
            lemma_word_len_bound(s);
        }
        seq![s.take(n as int)] + words(s.skip(n as int))
    }
}

/// Index of the first occurrence of `c` in `s`, or -1.
pub open spec fn index_of(s: Seq<char>, c: char) -> int
    decreases s.len(),
{
    if s.len() == 0 {
        -1
    } else {
        let f = index_of(s.drop_last(), c);
        if f >= 0 {
            f
        } else if s.last() == c {
            s.len() - 1
        } else {
            -1
        }
    }
}

/// Index of the last occurrence of `c` in `s`, or -1.
pub open spec fn last_index_of(s: Seq<char>, c: char) -> int
    decreases s.len(),
{
    if s.len() == 0 {
        -1
    } else if s.last() == c {
        s.len() - 1
    } else {
        last_index_of(s.drop_last(), c)
    }
}

/// The lines of `s`, as `str::lines` yields them: split after each `\n`, with the
/// `\n` (and a `\r` just before it) removed; no line after a final `\n`.
pub open spec fn lines(s: Seq<char>) -> Seq<Seq<char>>
    decreases s.len(),
{
    if s.len() == 0 {
        Seq::empty()
    } else {
        let k = index_of(s, '\n');
        proof {
            lemma_index_of_bound(s, '\n');
        }
        if k < 0 {
            seq![s]
        } else {
            let line = if k > 0 && s[k - 1] == '\r' { s.take(k - 1) } else { s.take(k) };
            seq![line] + lines(s.skip(k + 1))
        }
    }
}

/// `a` comes before `b` in lexicographic character order (the order of `String`).
pub open spec fn seq_less(a: Seq<char>, b: Seq<char>) -> bool
    decreases a.len(),
{
    if b.len() == 0 {
        false
    } else if a.len() == 0 {
        true
    } else if a[0] != b[0] {
        (a[0] as u32) < (b[0] as u32)
    } else {
        seq_less(a.drop_first(), b.drop_first())
    }
}

pub proof fn lemma_index_of_bound(s: Seq<char>, c: char)
    ensures
        -1 <= index_of(s, c) < s.len(),
        index_of(s, c) >= 0 ==> s[index_of(s, c)] == c,
        forall|j: int| 0 <= j < s.len() && (index_of(s, c) < 0 || j < index_of(s, c)) ==> s[j] != c,
    decreases s.len(),
{
    if s.len() > 0 {
        lemma_index_of_bound(s.drop_last(), c);
        assert forall|j: int| 0 <= j < s.len() && (index_of(s, c) < 0 || j < index_of(s, c)) implies s[j] != c by {
            if j < s.len() - 1 {
                assert(s.drop_last()[j] == s[j]);
            }
        }
    }
}

proof fn lemma_index_of_from(s: Seq<char>, c: char, k: int)
    requires
        0 <= k <= s.len(),
        forall|j: int| 0 <= j < k ==> s[j] != c,
    ensures
        index_of(s.take(k), c) == -1,
    decreases k,
{
    if k > 0 {
        assert(s.take(k).drop_last() =~= s.take(k - 1));
        lemma_index_of_from(s, c, k - 1);
    }
}

proof fn lemma_index_of_prefix(s: Seq<char>, c: char, m: int)
    requires
        0 <= m <= s.len(),
        index_of(s.take(m), c) >= 0,
    ensures
        index_of(s, c) == index_of(s.take(m), c),
    decreases s.len(),
{
    if m == s.len() {
        assert(s.take(m) =~= s);
    } else {
        assert(s.drop_last().take(m) =~= s.take(m));
        lemma_index_of_prefix(s.drop_last(), c, m);
    }
}

/// Index of the first `c` in `v`, if any.
pub fn chars_index_of(v: &[char], c: char) -> (r: Option<usize>)
    ensures
        match r {
            Some(k) => index_of(v@, c) == k as int && k < v@.len(),
            None => index_of(v@, c) == -1,
        },
{
    let mut j: usize = 0;
    while j < v.len()
        invariant
            j <= v@.len(),
            forall|k: int| 0 <= k < j ==> v@[k] != c,
        decreases v@.len() - j,
    {
        if v[j] == c {
            proof {
                lemma_index_of_from(v@, c, j as int);
                assert(v@.take(j + 1).drop_last() =~= v@.take(j as int));
                lemma_index_of_prefix(v@, c, j + 1);
            }
            return Some(j);
        }
        j = j + 1;
    }
    proof {
        lemma_index_of_from(v@, c, j as int);
        assert(v@.take(j as int) =~= v@);
    }
    None
}

/// Index of the last `c` in `v`, if any.
pub fn chars_last_index_of(v: &[char], c: char) -> (r: Option<usize>)
    ensures
        match r {
            Some(k) => last_index_of(v@, c) == k as int && k < v@.len(),
            None => last_index_of(v@, c) == -1,
        },
{
    let mut j: usize = v.len();
    assert(v@.take(j as int) =~= v@);
    while j > 0
        invariant
            j <= v@.len(),
            last_index_of(v@, c) == last_index_of(v@.take(j as int), c),
        decreases j,
    {
        assert(v@.take(j as int).drop_last() =~= v@.take(j - 1));
        if v[j - 1] == c {
            return Some(j - 1);
        }
        j = j - 1;
    }
    None
}

/// The characters `v[from..to]`.
pub fn chars_range(v: &[char], from: usize, to: usize) -> (r: Vec<char>)
    requires
        from <= to <= v@.len(),
    ensures
        r@ == v@.subrange(from as int, to as int),
{
    let mut r: Vec<char> = Vec::new();
    let mut i: usize = from;
    while i < to
        invariant
            from <= i <= to <= v@.len(),
            r@ == v@.subrange(from as int, i as int),
        decreases to - i,
    {
        r.push(v[i]);
        i = i + 1;
        assert(r@ =~= v@.subrange(from as int, i as int));
    }
    r
}

proof fn lemma_word_len(s: Seq<char>, i: int, j: int)
    requires
        0 <= i <= j <= s.len(),
        forall|k: int| i <= k < j ==> !is_white_space(#[trigger] s[k]),
    ensures
        word_len(s.skip(i)) == (j - i) + word_len(s.skip(j)),
    decreases j - i,
{
    if i < j {
        assert(s.skip(i).drop_first() =~= s.skip(i + 1));
        lemma_word_len(s, i + 1, j);
    }
}

/// The white-space separated words of `v` (see [`words`]).
pub fn chars_words(v: &[char]) -> (r: Vec<Vec<char>>)
    ensures
        r@.map_values(|w: Vec<char>| w@) == words(v@),
{
    let n = v.len();
    let mut acc: Vec<Vec<char>> = Vec::new();
    let mut i: usize = 0;
    assert(v@.skip(0) =~= v@);
    while i < n
        invariant
            n == v@.len(),
            i <= n,
            words(v@) == acc@.map_values(|w: Vec<char>| w@) + words(v@.skip(i as int)),
        decreases n - i,
    {
        if is_white_space_char(v[i]) {
            assert(v@.skip(i as int).drop_first() =~= v@.skip(i + 1));
            i = i + 1;
        } else {
            let mut j: usize = i;
            while j < n && !is_white_space_char(v[j])
                invariant
                    n == v@.len(),
                    i <= j <= n,
                    forall|k: int| i <= k < j ==> !is_white_space(#[trigger] v@[k]),
                decreases n - j,
            {
                j = j + 1;
            }
            proof {
                lemma_word_len(v@, i as int, j as int);
                if j < n {
                    assert(v@.skip(j as int)[0] == v@[j as int]);
                }
                assert(word_len(v@.skip(j as int)) == 0);
                assert(v@.skip(i as int).take(j - i) =~= v@.subrange(i as int, j as int));
                assert(v@.skip(i as int).skip(j - i) =~= v@.skip(j as int));
            }
            let w = chars_range(v, i, j);
            let ghost before = acc@.map_values(|w: Vec<char>| w@);
            acc.push(w);
            assert(acc@.map_values(|w: Vec<char>| w@) =~= before.push(v@.subrange(i as int, j as int)));
            assert(words(v@) =~= acc@.map_values(|w: Vec<char>| w@) + words(v@.skip(j as int)));
            i = j;
        }
    }
    assert(v@.skip(i as int).len() == 0);
    assert(acc@.map_values(|w: Vec<char>| w@) =~= words(v@));
    acc
}

/// The lines of `v` (see [`lines`]).
pub fn chars_lines(v: &[char]) -> (r: Vec<Vec<char>>)
    ensures
        r@.map_values(|w: Vec<char>| w@) == lines(v@),
{
    let mut acc: Vec<Vec<char>> = Vec::new();
    let mut rest: Vec<char> = chars_range(v, 0, v.len());
    assert(v@.subrange(0, v@.len() as int) =~= v@);
    while rest.len() > 0
        invariant
            lines(v@) == acc@.map_values(|w: Vec<char>| w@) + lines(rest@),
        decreases rest@.len(),
    {
        let ghost before = acc@.map_values(|w: Vec<char>| w@);
        match chars_index_of(rest.as_slice(), '\n') {
            None => {
                let line = chars_range(rest.as_slice(), 0, rest.len());
                assert(rest@.subrange(0, rest@.len() as int) =~= rest@);
                acc.push(line);
                assert(acc@.map_values(|w: Vec<char>| w@) =~= before.push(rest@));
                rest = Vec::new();
                assert(lines(v@) =~= acc@.map_values(|w: Vec<char>| w@) + lines(rest@));
            },
            Some(k) => {
                proof {
                    lemma_index_of_bound(rest@, '\n');
                }
                let end = if k > 0 && rest[k - 1] == '\r' { k - 1 } else { k };
                let line = chars_range(rest.as_slice(), 0, end);
                let next = chars_range(rest.as_slice(), k + 1, rest.len());
                proof {
                    assert(rest@.take(end as int) =~= rest@.subrange(0, end as int));
                    assert(rest@.skip(k + 1) =~= rest@.subrange(k + 1, rest@.len() as int));
                }
                acc.push(line);
                assert(acc@.map_values(|w: Vec<char>| w@) =~= before.push(rest@.subrange(0, end as int)));
                assert(lines(v@) =~= acc@.map_values(|w: Vec<char>| w@) + lines(next@));
                rest = next;
            },
        }
    }
    assert(acc@.map_values(|w: Vec<char>| w@) =~= lines(v@));
    acc
}

/// Whether `a` comes before `b` (see [`seq_less`]).
pub fn chars_less(a: &[char], b: &[char]) -> (r: bool)
    ensures
        r == seq_less(a@, b@),
{
    let mut i: usize = 0;
    assert(a@.skip(0) =~= a@);
    assert(b@.skip(0) =~= b@);
    while i < a.len() && i < b.len() && a[i] == b[i]
        invariant
            i <= a@.len(),
            i <= b@.len(),
            seq_less(a@, b@) == seq_less(a@.skip(i as int), b@.skip(i as int)),
        decreases a@.len() - i,
    {
        assert(a@.skip(i as int).drop_first() =~= a@.skip(i + 1));
        assert(b@.skip(i as int).drop_first() =~= b@.skip(i + 1));
        i = i + 1;
    }
    if i == b.len() {
        false
    } else if i == a.len() {
        true
    } else {
        assert(a@.skip(i as int)[0] == a@[i as int]);
        assert(b@.skip(i as int)[0] == b@[i as int]);
        (a[i] as u32) < (b[i] as u32)
    }
}

/// `str::parse::<u32>` on a run of characters (see [`parsed_u32`]).
pub fn parse_u32(v: &[char]) -> (r: Option<u32>)
    ensures
        r == parsed_u32(v@),
{
    let start: usize = if v.len() > 0 && v[0] == '+' { 1 } else { 0 };
    let ghost d = v@.skip(start as int);
    assert(number_digits(v@) =~= d);
    if start == v.len() {
        return None;
    }
    let mut value: u64 = 0;
    let mut i: usize = start;
    assert(v@.subrange(start as int, start as int) =~= Seq::<char>::empty());
    while i < v.len()
        invariant
            start <= i <= v@.len(),
            start < v@.len(),
            d == v@.skip(start as int),
            number_digits(v@) == d,
            forall|k: int| start <= k < i ==> is_digit(#[trigger] v@[k]),
            value == digits_value(v@.subrange(start as int, i as int)),
            value <= u32::MAX,
        decreases v@.len() - i,
    {
        let c = v[i];
        if !('0' <= c && c <= '9') {
            proof {
                assert(d[i - start] == v@[i as int]);
                assert(!is_digit(d[i - start]));
                assert(!is_decimal(v@));
            }
            return None;
        }
        assert(v@.subrange(start as int, i + 1).drop_last() =~= v@.subrange(start as int, i as int));
        assert(v@.subrange(start as int, i + 1).last() == c);
        let next = value * 10 + ((c as u32) - ('0' as u32)) as u64;
        i = i + 1;
        if next > 4294967295 {
            proof {
                if is_decimal(v@) {
                    assert(d.take(i - start) =~= v@.subrange(start as int, i as int));
                    lemma_digits_value_grows(d, (i - start) as int);
                }
            }
            return None;
        }
        value = next;
    }
    assert(v@.subrange(start as int, i as int) =~= d);
    Some(value as u32)
}

proof fn lemma_digits_value_grows(d: Seq<char>, m: int)
    requires
        0 <= m <= d.len(),
        forall|k: int| 0 <= k < d.len() ==> is_digit(#[trigger] d[k]),
    ensures
        digits_value(d) >= digits_value(d.take(m)),
    decreases d.len(),
{
    if m < d.len() {
        assert(d.drop_last().take(m) =~= d.take(m));
        lemma_digits_value_grows(d.drop_last(), m);
    } else {
        assert(d.take(m) =~= d);
    }
}

/// `a` followed by `b`, as a `String`.
pub fn concat(a: &str, b: &str) -> (r: String)
    ensures
        r@ == a@ + b@,
{
    let mut v = chars_of(a);
    let w = chars_of(b);
    let ghost base = v@;
    let mut i: usize = 0;
    while i < w.len()
        invariant
            i <= w@.len(),
            v@ == base + w@.take(i as int),
        decreases w@.len() - i,
    {
        v.push(w[i]);
        i = i + 1;
        assert(v@ =~= base + w@.take(i as int));
    }
    assert(w@.take(i as int) =~= w@);
    string_from_chars(v.as_slice())
}

/// The decimal digits of `n`, as `format!("{}", n)` writes them.
pub open spec fn decimal(n: nat) -> Seq<char>
    decreases n,
{
    if n < 10 {
        seq![(('0' as u32) + n) as char]
    } else {
        decimal(n / 10) + seq![(('0' as u32) + (n % 10)) as char]
    }
}

/// `n` written in decimal.
pub fn decimal_string(n: u64) -> (r: String)
    ensures
        r@ == decimal(n as nat),
{
    let mut digits: Vec<char> = Vec::new();
    let mut m: u64 = n;
    let ghost mut tail: Seq<char> = Seq::empty();
    // digits holds, last first, the digits below those of m.
    while m >= 10
        invariant
            decimal(n as nat) == decimal(m as nat) + digits@.reverse(),
        decreases m,
    {
        let d = m % 10;
        let c = char_of_digit(d);
        let ghost before = digits@;
        digits.push(c);
        assert(decimal(m as nat) == decimal((m / 10) as nat) + seq![c]);
        assert(digits@.reverse() =~= seq![c] + before.reverse());
        m = m / 10;
        assert(decimal(n as nat) =~= decimal(m as nat) + digits@.reverse());
    }
    let c = char_of_digit(m);
    let mut out: Vec<char> = Vec::new();
    out.push(c);
    let mut k: usize = digits.len();
    while k > 0
        invariant
            k <= digits@.len(),
            out@ == seq![c] + digits@.subrange(k as int, digits@.len() as int).reverse(),
        decreases k,
    {
        let ghost before = out@;
        out.push(digits[k - 1]);
        k = k - 1;
        assert(digits@.subrange(k as int, digits@.len() as int).reverse() =~= digits@.subrange(k + 1, digits@.len() as int).reverse().push(digits@[k as int]));
        assert(out@ =~= seq![c] + digits@.subrange(k as int, digits@.len() as int).reverse());
    }
    assert(digits@.subrange(0, digits@.len() as int) =~= digits@);
    assert(out@ =~= decimal(n as nat));
    string_from_chars(out.as_slice())
}

/// The character of a decimal digit.
fn char_of_digit(d: u64) -> (c: char)
    requires
        d < 10,
    ensures
        c == (('0' as u32) + d) as char,
{
    if d == 0 { '0' } else if d == 1 { '1' } else if d == 2 { '2' } else if d == 3 { '3' } else if d == 4 { '4' }
    else if d == 5 { '5' } else if d == 6 { '6' } else if d == 7 { '7' } else if d == 8 { '8' } else { '9' }
}

/// What `str::parse::<usize>` gives on a run of characters (see [`parsed_usize`]).
pub fn parse_usize(v: &[char]) -> (r: Option<usize>)
    ensures
        r == parsed_usize(v@),
{
    let start: usize = if v.len() > 0 && v[0] == '+' { 1 } else { 0 };
    let ghost d = v@.skip(start as int);
    assert(number_digits(v@) =~= d);
    if start == v.len() {
        return None;
    }
    let mut value: usize = 0;
    let mut i: usize = start;
    assert(v@.subrange(start as int, start as int) =~= Seq::<char>::empty());
    while i < v.len()
        invariant
            start <= i <= v@.len(),
            start < v@.len(),
            d == v@.skip(start as int),
            number_digits(v@) == d,
            forall|k: int| start <= k < i ==> is_digit(#[trigger] v@[k]),
            value == digits_value(v@.subrange(start as int, i as int)),
        decreases v@.len() - i,
    {
        let c = v[i];
        if !('0' <= c && c <= '9') {
            proof {
                assert(d[i - start] == v@[i as int]);
                assert(!is_digit(d[i - start]));
                assert(!is_decimal(v@));
            }
            return None;
        }
        assert(v@.subrange(start as int, i + 1).drop_last() =~= v@.subrange(start as int, i as int));
        assert(v@.subrange(start as int, i + 1).last() == c);
        let digit = ((c as u32) - ('0' as u32)) as usize;
        i = i + 1;
        if value > (usize::MAX - digit) / 10 {
            proof {
                assert(value * 10 + digit > usize::MAX) by (nonlinear_arith)
                    requires value > (usize::MAX - digit) / 10, digit <= 9;
                if is_decimal(v@) {
                    assert(d.take(i - start) =~= v@.subrange(start as int, i as int));
                    lemma_digits_value_grows(d, (i - start) as int);
                }
            }
            return None;
        }
        proof {
            assert(value * 10 + digit <= usize::MAX) by (nonlinear_arith)
                requires value <= (usize::MAX - digit) / 10, digit <= 9;
        }
        value = value * 10 + digit;
    }
    assert(v@.subrange(start as int, i as int) =~= d);
    Some(value)
}

/// `s` is made of ASCII letters and digits only.
pub open spec fn all_ascii_alnum(s: Seq<char>) -> bool {
    forall|i: int| 0 <= i < s.len() ==> is_ascii_alnum(#[trigger] s[i])
}

/// Length of the run of ASCII letters and digits at the start of `s`.
pub open spec fn alnum_len(s: Seq<char>) -> nat
    decreases s.len(),
{
    if s.len() == 0 || !is_ascii_alnum(s[0]) {
        0
    } else {
        1 + alnum_len(s.drop_first())
    }
}

pub proof fn lemma_alnum_len_bound(s: Seq<char>)
    ensures
        alnum_len(s) <= s.len(),
        s.len() > 0 && is_ascii_alnum(s[0]) ==> alnum_len(s) >= 1,
    decreases s.len(),
{
    if s.len() > 0 {
        lemma_alnum_len_bound(s.drop_first());
    }
}

/// The non-empty runs of ASCII letters and digits in `s`, in order: `s` split at
/// every other character, empty pieces dropped.
pub open spec fn alnum_runs(s: Seq<char>) -> Seq<Seq<char>>
    decreases s.len(),
{
    if s.len() == 0 {
        Seq::empty()
    } else if !is_ascii_alnum(s[0]) {
        alnum_runs(s.drop_first())
    } else {
        let n = alnum_len(s);
        proof {
            lemma_alnum_len_bound(s);
        }
        seq![s.take(n as int)] + alnum_runs(s.skip(n as int))
    }
}

/// The pieces joined with `sep` between them.
pub open spec fn joined(pieces: Seq<Seq<char>>, sep: Seq<char>) -> Seq<char>
    decreases pieces.len(),
{
    if pieces.len() == 0 {
        Seq::empty()
    } else if pieces.len() == 1 {
        pieces[0]
    } else {
        joined(pieces.drop_last(), sep) + sep + pieces.last()
    }
}

/// Whether a character is an ASCII letter or digit.
pub fn is_ascii_alnum_char(c: char) -> (b: bool)
    ensures
        b == is_ascii_alnum(c),
{
    ('0' <= c && c <= '9') || ('a' <= c && c <= 'z') || ('A' <= c && c <= 'Z')
}

proof fn lemma_alnum_len(s: Seq<char>, i: int, j: int)
    requires
        0 <= i <= j <= s.len(),
        forall|k: int| i <= k < j ==> is_ascii_alnum(#[trigger] s[k]),
    ensures
        alnum_len(s.skip(i)) == (j - i) + alnum_len(s.skip(j)),
    decreases j - i,
{
    if i < j {
        assert(s.skip(i).drop_first() =~= s.skip(i + 1));
        lemma_alnum_len(s, i + 1, j);
    }
}

/// The runs of ASCII letters and digits of `v` (see [`alnum_runs`]).
pub fn chars_alnum_runs(v: &[char]) -> (r: Vec<Vec<char>>)
    ensures
        r@.map_values(|w: Vec<char>| w@) == alnum_runs(v@),
{
    let n = v.len();
    let mut acc: Vec<Vec<char>> = Vec::new();
    let mut i: usize = 0;
    assert(v@.skip(0) =~= v@);
    while i < n
        invariant
            n == v@.len(),
            i <= n,
            alnum_runs(v@) == acc@.map_values(|w: Vec<char>| w@) + alnum_runs(v@.skip(i as int)),
        decreases n - i,
    {
        if !is_ascii_alnum_char(v[i]) {
            assert(v@.skip(i as int).drop_first() =~= v@.skip(i + 1));
            i = i + 1;
        } else {
            let mut j: usize = i;
            while j < n && is_ascii_alnum_char(v[j])
                invariant
                    n == v@.len(),
                    i <= j <= n,
                    forall|k: int| i <= k < j ==> is_ascii_alnum(#[trigger] v@[k]),
                decreases n - j,
            {
                j = j + 1;
            }
            proof {
                lemma_alnum_len(v@, i as int, j as int);
                if j < n {
                    assert(v@.skip(j as int)[0] == v@[j as int]);
                }
                assert(alnum_len(v@.skip(j as int)) == 0);
                assert(v@.skip(i as int).take(j - i) =~= v@.subrange(i as int, j as int));
                assert(v@.skip(i as int).skip(j - i) =~= v@.skip(j as int));
            }
            let w = chars_range(v, i, j);
            let ghost before = acc@.map_values(|w: Vec<char>| w@);
            acc.push(w);
            assert(acc@.map_values(|w: Vec<char>| w@) =~= before.push(v@.subrange(i as int, j as int)));
            assert(alnum_runs(v@) =~= acc@.map_values(|w: Vec<char>| w@) + alnum_runs(v@.skip(j as int)));
            i = j;
        }
    }
    assert(v@.skip(i as int).len() == 0);
    assert(acc@.map_values(|w: Vec<char>| w@) =~= alnum_runs(v@));
    acc
}

/// The pieces joined with `sep` between them (see [`joined`]).
pub fn join_chars(pieces: &Vec<Vec<char>>, sep: &[char]) -> (r: Vec<char>)
    ensures
        r@ == joined(pieces@.map_values(|w: Vec<char>| w@), sep@),
{
    let ghost ps = pieces@.map_values(|w: Vec<char>| w@);
    let mut out: Vec<char> = Vec::new();
    let mut i: usize = 0;
    while i < pieces.len()
        invariant
            i <= pieces@.len(),
            ps == pieces@.map_values(|w: Vec<char>| w@),
            out@ == joined(ps.take(i as int), sep@),
        decreases pieces@.len() - i,
    {
        let ghost before = out@;
        if i > 0 {
            let mut k: usize = 0;
            while k < sep.len()
                invariant
                    k <= sep@.len(),
                    out@ == before + sep@.take(k as int),
                decreases sep@.len() - k,
            {
                out.push(sep[k]);
                k = k + 1;
                assert(out@ =~= before + sep@.take(k as int));
            }
            assert(sep@.take(k as int) =~= sep@);
        }
        let ghost mid = out@;
        let piece = &pieces[i];
        let mut k: usize = 0;
        while k < piece.len()
            invariant
                k <= piece@.len(),
                out@ == mid + piece@.take(k as int),
            decreases piece@.len() - k,
        {
            out.push(piece[k]);
            k = k + 1;
            assert(out@ =~= mid + piece@.take(k as int));
        }
        assert(piece@.take(k as int) =~= piece@);
        assert(ps.take(i + 1).drop_last() =~= ps.take(i as int));
        if i == 0 {
            assert(out@ =~= joined(ps.take(i + 1), sep@));
        } else {
            assert(out@ =~= joined(ps.take(i + 1), sep@));
        }
        i = i + 1;
    }
    assert(ps.take(i as int) =~= ps);
    out
}

/// Index of the first white-space character of `s`, or -1.
pub open spec fn first_ws_index(s: Seq<char>) -> int
    decreases s.len(),
{
    if s.len() == 0 {
        -1
    } else {
        let f = first_ws_index(s.drop_last());
        if f >= 0 {
            f
        } else if is_white_space(s.last()) {
            s.len() - 1
        } else {
            -1
        }
    }
}

pub proof fn lemma_first_ws_index_prefix(s: Seq<char>, m: int)
    requires
        0 <= m <= s.len(),
        first_ws_index(s.take(m)) >= 0,
    ensures
        first_ws_index(s) == first_ws_index(s.take(m)),
    decreases s.len(),
{
    if m == s.len() {
        assert(s.take(m) =~= s);
    } else {
        assert(s.drop_last().take(m) =~= s.take(m));
        lemma_first_ws_index_prefix(s.drop_last(), m);
    }
}

/// Index of the first white-space character of `v`, if any.
pub fn chars_first_ws(v: &[char]) -> (r: Option<usize>)
    ensures
        match r {
            Some(k) => first_ws_index(v@) == k as int && k < v@.len(),
            None => first_ws_index(v@) == -1,
        },
{
    let mut j: usize = 0;
    while j < v.len()
        invariant
            j <= v@.len(),
            first_ws_index(v@.take(j as int)) == -1,
        decreases v@.len() - j,
    {
        assert(v@.take(j + 1).drop_last() =~= v@.take(j as int));
        if is_white_space_char(v[j]) {
            proof {
                lemma_first_ws_index_prefix(v@, j + 1);
            }
            return Some(j);
        }
        j = j + 1;
    }
    assert(v@.take(j as int) =~= v@);
    None
}

/// Places `x` in a sorted list after every element that is not greater than it.
pub open spec fn insert_sorted(sorted: Seq<Seq<char>>, x: Seq<char>) -> Seq<Seq<char>>
    decreases sorted.len(),
{
    if sorted.len() == 0 {
        seq![x]
    } else if seq_less(x, sorted.last()) {
        insert_sorted(sorted.drop_last(), x).push(sorted.last())
    } else {
        sorted.push(x)
    }
}

/// `s` in ascending order (the order that `sort` gives a list of strings).
pub open spec fn sorted_seq(s: Seq<Seq<char>>) -> Seq<Seq<char>>
    decreases s.len(),
{
    if s.len() == 0 {
        Seq::empty()
    } else {
        insert_sorted(sorted_seq(s.drop_last()), s.last())
    }
}

proof fn lemma_insert_sorted_at(sorted: Seq<Seq<char>>, x: Seq<char>, j: int)
    requires
        0 <= j <= sorted.len(),
        forall|k: int| j <= k < sorted.len() ==> seq_less(x, #[trigger] sorted[k]),
        j == 0 || !seq_less(x, sorted[j - 1]),
    ensures
        insert_sorted(sorted, x) == sorted.take(j).push(x) + sorted.skip(j),
    decreases sorted.len(),
{
    if sorted.len() == j {
        if j == 0 {
            assert(sorted.take(j).push(x) + sorted.skip(j) =~= seq![x]);
        } else {
            assert(sorted.take(j).push(x) + sorted.skip(j) =~= sorted.push(x));
        }
    } else {
        lemma_insert_sorted_at(sorted.drop_last(), x, j);
        assert(sorted.drop_last().take(j) =~= sorted.take(j));
        assert((sorted.take(j).push(x) + sorted.drop_last().skip(j)).push(sorted.last()) =~= sorted.take(j).push(x) + sorted.skip(j));
    }
}

/// Inserts `x` into a list sorted by [`sorted_seq`], where [`insert_sorted`] puts it.
fn insert_string_sorted(v: &mut Vec<String>, x: String)
    ensures
        final(v)@.map_values(|p: String| p@) == insert_sorted(old(v)@.map_values(|p: String| p@), x@),
{
    let ghost ns = v@.map_values(|p: String| p@);
    let key = chars_of(x.as_str());
    let mut j: usize = v.len();
    let mut stop = false;
    while j > 0 && !stop
        invariant
            j <= v@.len(),
            ns == v@.map_values(|p: String| p@),
            key@ == x@,
            forall|k: int| j <= k < v@.len() ==> seq_less(x@, #[trigger] ns[k]),
            stop ==> j > 0 && !seq_less(x@, ns[j - 1]),
        decreases j + (if stop { 0int } else { 1int }),
    {
        let other = chars_of(v[j - 1].as_str());
        if !chars_less(key.as_slice(), other.as_slice()) {
            stop = true;
        } else {
            j = j - 1;
        }
    }
    proof {
        lemma_insert_sorted_at(ns, x@, j as int);
    }
    v.insert(j, x);
    assert(v@.map_values(|p: String| p@) =~= ns.take(j as int).push(x@) + ns.skip(j as int));
}

/// Sorts a list of strings in ascending order (see [`sorted_seq`]).
pub fn sort_strings(v: Vec<String>) -> (r: Vec<String>)
    ensures
        r@.map_values(|p: String| p@) == sorted_seq(v@.map_values(|p: String| p@)),
{
    let ghost ns = v@.map_values(|p: String| p@);
    let mut out: Vec<String> = Vec::new();
    let mut i: usize = 0;
    while i < v.len()
        invariant
            i <= v@.len(),
            ns == v@.map_values(|p: String| p@),
            out@.map_values(|p: String| p@) == sorted_seq(ns.take(i as int)),
        decreases v@.len() - i,
    {
        assert(ns.take(i + 1).drop_last() =~= ns.take(i as int));
        assert(ns.take(i + 1).last() == v@[i as int]@);
        insert_string_sorted(&mut out, v[i].clone());
        i = i + 1;
    }
    assert(ns.take(i as int) =~= ns);
    out
}


/// Places `x` in a list sorted by `key` after every element whose key is not
/// greater than its own.
pub open spec fn insert_by<T>(sorted: Seq<T>, x: T, key: spec_fn(T) -> Seq<char>) -> Seq<T>
    decreases sorted.len(),
{
    if sorted.len() == 0 {
        seq![x]
    } else if seq_less(key(x), key(sorted.last())) {
        insert_by(sorted.drop_last(), x, key).push(sorted.last())
    } else {
        sorted.push(x)
    }
}

/// `s` sorted by `key` in ascending order, elements with equal keys kept in their
/// order (the order that a stable sort by that key gives).
pub open spec fn sorted_by<T>(s: Seq<T>, key: spec_fn(T) -> Seq<char>) -> Seq<T>
    decreases s.len(),
{
    if s.len() == 0 {
        Seq::empty()
    } else {
        insert_by(sorted_by(s.drop_last(), key), s.last(), key)
    }
}

/// Where [`insert_by`] puts `x`: after the first `j` elements, when every later
/// element's key is greater and the one before is not.
pub proof fn lemma_insert_by_at<T>(sorted: Seq<T>, x: T, key: spec_fn(T) -> Seq<char>, j: int)
    requires
        0 <= j <= sorted.len(),
        forall|k: int| j <= k < sorted.len() ==> seq_less(key(x), key(#[trigger] sorted[k])),
        j == 0 || !seq_less(key(x), key(sorted[j - 1])),
    ensures
        insert_by(sorted, x, key) == sorted.take(j).push(x) + sorted.skip(j),
    decreases sorted.len(),
{
    if sorted.len() == j {
        if j == 0 {
            assert(sorted.take(j).push(x) + sorted.skip(j) =~= seq![x]);
        } else {
            assert(sorted.take(j).push(x) + sorted.skip(j) =~= sorted.push(x));
        }
    } else {
        lemma_insert_by_at(sorted.drop_last(), x, key, j);
        assert(sorted.drop_last().take(j) =~= sorted.take(j));
        assert((sorted.take(j).push(x) + sorted.drop_last().skip(j)).push(sorted.last()) =~= sorted.take(j).push(x) + sorted.skip(j));
    }
}

/// [`seq_less`] is asymmetric.
pub proof fn lemma_seq_less_asymmetric(a: Seq<char>, b: Seq<char>)
    ensures
        seq_less(a, b) ==> !seq_less(b, a),
    decreases a.len(),
{
    if a.len() > 0 && b.len() > 0 && a[0] == b[0] {
        lemma_seq_less_asymmetric(a.drop_first(), b.drop_first());
    }
}

/// [`seq_less`] is transitive.
pub proof fn lemma_seq_less_transitive(a: Seq<char>, b: Seq<char>, c: Seq<char>)
    requires
        seq_less(a, b),
        seq_less(b, c),
    ensures
        seq_less(a, c),
    decreases a.len(),
{
    if a.len() > 0 && a[0] == b[0] && b[0] == c[0] {
        lemma_seq_less_transitive(a.drop_first(), b.drop_first(), c.drop_first());
    }
}

/// Of two different character sequences, one comes before the other.
pub proof fn lemma_seq_less_total(a: Seq<char>, b: Seq<char>)
    ensures
        a != b ==> seq_less(a, b) || seq_less(b, a),
    decreases a.len(),
{
    if a.len() == 0 && b.len() == 0 {
        assert(a =~= b);
    } else if a.len() > 0 && b.len() > 0 {
        if a[0] == b[0] {
            lemma_seq_less_total(a.drop_first(), b.drop_first());
            if a.drop_first() == b.drop_first() {
                assert(a =~= seq![a[0]] + a.drop_first());
                assert(b =~= seq![b[0]] + b.drop_first());
            }
        } else {
            let (x, y) = (a[0], b[0]);
            vstd::utf8::char_u32_cast(x, x as u32);
            vstd::utf8::char_u32_cast(y, y as u32);
            assert((x as u32) != (y as u32));
        }
    }
}

/// A list whose keys never decrease.
pub open spec fn ascending_by<T>(s: Seq<T>, key: spec_fn(T) -> Seq<char>) -> bool {
    forall|i: int, j: int| 0 <= i < j < s.len() ==> !seq_less(key(#[trigger] s[j]), key(#[trigger] s[i]))
}

proof fn lemma_insert_by_multiset<T>(sorted: Seq<T>, x: T, key: spec_fn(T) -> Seq<char>)
    ensures
        insert_by(sorted, x, key).to_multiset() == sorted.to_multiset().insert(x),
    decreases sorted.len(),
{
    broadcast use vstd::seq_lib::to_multiset_build;
    broadcast use vstd::multiset::group_multiset_axioms;
    if sorted.len() > 0 && seq_less(key(x), key(sorted.last())) {
        lemma_insert_by_multiset(sorted.drop_last(), x, key);
        assert(sorted =~= sorted.drop_last().push(sorted.last()));
        assert(insert_by(sorted, x, key).to_multiset() =~= sorted.to_multiset().insert(x));
    } else if sorted.len() == 0 {
        assert(insert_by(sorted, x, key) =~= sorted.push(x));
    }
}

/// Sorting keeps the elements: the sorted list holds each element as often as the list.
pub proof fn lemma_sorted_by_multiset<T>(s: Seq<T>, key: spec_fn(T) -> Seq<char>)
    ensures
        sorted_by(s, key).to_multiset() == s.to_multiset(),
    decreases s.len(),
{
    broadcast use vstd::seq_lib::to_multiset_build;
    if s.len() == 0 {
        assert(sorted_by(s, key) =~= s);
    } else {
        lemma_sorted_by_multiset(s.drop_last(), key);
        lemma_insert_by_multiset(sorted_by(s.drop_last(), key), s.last(), key);
        assert(s =~= s.drop_last().push(s.last()));
    }
}

proof fn lemma_insert_by_ascending<T>(sorted: Seq<T>, x: T, key: spec_fn(T) -> Seq<char>)
    requires
        ascending_by(sorted, key),
    ensures
        ascending_by(insert_by(sorted, x, key), key),
    decreases sorted.len(),
{
    broadcast use vstd::seq_lib::to_multiset_build;
    broadcast use vstd::seq_lib::to_multiset_contains;
    if sorted.len() == 0 {
    } else if seq_less(key(x), key(sorted.last())) {
        let d = sorted.drop_last();
        let l = sorted.last();
        assert(ascending_by(d, key)) by {
            assert forall|i: int, j: int| 0 <= i < j < d.len() implies !seq_less(key(#[trigger] d[j]), key(#[trigger] d[i])) by {
                assert(d[i] == sorted[i] && d[j] == sorted[j]);
            }
        }
        lemma_insert_by_ascending(d, x, key);
        lemma_insert_by_multiset(d, x, key);
        let m = insert_by(d, x, key);
        let r = m.push(l);
        lemma_seq_less_asymmetric(key(x), key(l));
        assert forall|i: int, j: int| 0 <= i < j < r.len() implies !seq_less(key(#[trigger] r[j]), key(#[trigger] r[i])) by {
            if j == m.len() {
                assert(r[i] == m[i]);
                assert(m.contains(m[i]));
                assert(m.to_multiset().count(m[i]) > 0);
                assert(d.push(x).to_multiset().count(m[i]) > 0);
                assert(d.push(x).contains(m[i]));
                let k = choose|k: int| 0 <= k < d.push(x).len() && d.push(x)[k] == m[i];
                if k < d.len() {
                    assert(sorted[k] == d[k]);
                    assert(!seq_less(key(sorted[sorted.len() - 1]), key(sorted[k])));
                }
            } else {
                assert(r[i] == m[i] && r[j] == m[j]);
            }
        }
    } else {
        let r = sorted.push(x);
        let l = sorted.last();
        assert forall|i: int, j: int| 0 <= i < j < r.len() implies !seq_less(key(#[trigger] r[j]), key(#[trigger] r[i])) by {
            if j == sorted.len() {
                assert(r[i] == sorted[i]);
                if i < sorted.len() - 1 {
                    assert(!seq_less(key(sorted[sorted.len() - 1]), key(sorted[i])));
                    lemma_seq_less_total(key(sorted[i]), key(l));
                    if seq_less(key(x), key(sorted[i])) {
                        if key(sorted[i]) != key(l) {
                            lemma_seq_less_transitive(key(x), key(sorted[i]), key(l));
                        }
                    }
                }
            } else {
                assert(r[i] == sorted[i] && r[j] == sorted[j]);
            }
        }
    }
}

/// A list sorted by [`sorted_by`] is in ascending order of its keys.
pub proof fn lemma_sorted_by_ascending<T>(s: Seq<T>, key: spec_fn(T) -> Seq<char>)
    ensures
        ascending_by(sorted_by(s, key), key),
    decreases s.len(),
{
    if s.len() > 0 {
        lemma_sorted_by_ascending(s.drop_last(), key);
        lemma_insert_by_ascending(sorted_by(s.drop_last(), key), s.last(), key);
    }
}
} // verus!
