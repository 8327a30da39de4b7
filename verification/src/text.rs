//! Text as sequences of characters: searching, trimming, splitting, replacing and numbers.
use vstd::prelude::*;

verus! {

broadcast use vstd::seq::group_seq_axioms;

// ---------------------------------------------------------------------------
// Characters
// ---------------------------------------------------------------------------

/// The characters with the Unicode `White_Space` property.
pub open spec fn white_space(c: char) -> bool {
    let n = c as int;
    ||| 0x09 <= n <= 0x0d
    ||| n == 0x20
    ||| n == 0x85
    ||| n == 0xa0
    ||| n == 0x1680
    ||| 0x2000 <= n <= 0x200a
    ||| n == 0x2028
    ||| n == 0x2029
    ||| n == 0x202f
    ||| n == 0x205f
    ||| n == 0x3000
}

/// Whether `c` is white space.
pub fn is_whitespace(c: char) -> (r: bool)
    ensures
        r == white_space(c),
{
    let n: u32 = c as u32;
    (0x09 <= n && n <= 0x0d) || n == 0x20 || n == 0x85 || n == 0xa0 || n == 0x1680 || (0x2000 <= n
        && n <= 0x200a) || n == 0x2028 || n == 0x2029 || n == 0x202f || n == 0x205f || n == 0x3000
}

/// The control codes: the general category `Cc`.
pub open spec fn control_code(c: char) -> bool {
    c as int <= 0x1f || 0x7f <= c as int <= 0x9f
}

/// Whether `c` is a control code.
pub fn is_control(c: char) -> (r: bool)
    ensures
        r == control_code(c),
{
    let n: u32 = c as u32;
    n <= 0x1f || (0x7f <= n && n <= 0x9f)
}

/// An ASCII decimal digit.
pub open spec fn ascii_digit(c: char) -> bool {
    '0' <= c <= '9'
}

/// An ASCII letter or digit.
pub open spec fn ascii_alphanumeric(c: char) -> bool {
    ('a' <= c <= 'z') || ('A' <= c <= 'Z') || ascii_digit(c)
}

/// Whether `c` is an ASCII letter or digit.
pub fn is_ascii_alphanumeric(c: char) -> (r: bool)
    ensures
        r == ascii_alphanumeric(c),
{
    ('a' <= c && c <= 'z') || ('A' <= c && c <= 'Z') || ('0' <= c && c <= '9')
}

/// ASCII white space: space, tab, line feed, form feed, carriage return.
pub open spec fn ascii_white_space(c: char) -> bool {
    c == ' ' || c == '\t' || c == '\n' || c as int == 0x0c || c == '\r'
}

/// Whether `c` is ASCII white space.
pub fn is_ascii_whitespace(c: char) -> (r: bool)
    ensures
        r == ascii_white_space(c),
{
    c == ' ' || c == '\t' || c == '\n' || c as u32 == 0x0c || c == '\r'
}

/// `c` with an ASCII upper-case letter turned into its lower-case letter.
pub open spec fn ascii_lower(c: char) -> char {
    if 'A' <= c <= 'Z' {
        (c as int + 32) as char
    } else {
        c
    }
}

/// `c` in ASCII lower case.
pub fn to_ascii_lower(c: char) -> (r: char)
    ensures
        r == ascii_lower(c),
{
    if 'A' <= c && c <= 'Z' {
        ((c as u8) + 32) as char
    } else {
        c
    }
}

// ---------------------------------------------------------------------------
// Strings and character vectors
// ---------------------------------------------------------------------------

/// `String::push` of std appends the one character to the string and changes nothing else.
pub assume_specification[ String::push ](s: &mut String, c: char)
    ensures
        final(s)@ == old(s)@.push(c),
;

/// The characters of `s`, in order.
pub fn chars_of(s: &str) -> (r: Vec<char>)
    ensures
        r@ == s@,
{
    let mut out: Vec<char> = Vec::new();
    for c in it: s.chars()
        invariant
            out@ == it.seq().take(it.index() as int),
            it.seq() == s@,
    {
        out.push(c);
    }
    out
}

/// The string of the characters `chars`.
pub fn string_of(chars: &[char]) -> (r: String)
    ensures
        r@ == chars@,
{
    let mut out = String::new();
    for i in 0..chars.len()
        invariant
            out@ == chars@.take(i as int),
    {
        out.push(chars[i]);
    }
    out
}

/// The string of the characters `chars[from..to]`.
pub fn string_between(chars: &[char], from: usize, to: usize) -> (r: String)
    requires
        from <= to <= chars@.len(),
    ensures
        r@ == chars@.subrange(from as int, to as int),
{
    let mut out = String::new();
    let mut i: usize = from;
    while i < to
        invariant
            from <= i <= to <= chars@.len(),
            out@ == chars@.subrange(from as int, i as int),
        decreases to - i,
    {
        out.push(chars[i]);
        i += 1;
        assert(chars@.subrange(from as int, i as int) =~= chars@.subrange(
            from as int,
            i - 1,
        ).push(chars@[i - 1]));
    }
    out
}

/// Whether the two strings hold the same characters.
pub fn same(a: &str, b: &str) -> (r: bool)
    ensures
        r == (a@ == b@),
{
    let x = chars_of(a);
    let y = chars_of(b);
    if x.len() != y.len() {
        return false;
    }
    for i in 0..x.len()
        invariant
            x@ == a@,
            y@ == b@,
            x@.len() == y@.len(),
            forall|j: int| 0 <= j < i ==> x@[j] == y@[j],
    {
        if x[i] != y[i] {
            assert(a@[i as int] != b@[i as int]);
            return false;
        }
    }
    assert(a@ =~= b@);
    true
}

/// The last `n` characters of `s`, or all of `s` when it has no more than `n`.
pub open spec fn tail_of(s: Seq<char>, n: nat) -> Seq<char> {
    if s.len() <= n {
        s
    } else {
        s.skip(s.len() - n)
    }
}

/// The last `max_chars` characters of `input`, or all of it when it is no longer.
pub fn tail_chars(input: &str, max_chars: usize) -> (r: String)
    ensures
        r@ == tail_of(input@, max_chars as nat),
{
    let chars = chars_of(input);
    if chars.len() <= max_chars {
        return string_of(chars.as_slice());
    }
    let from: usize = chars.len() - max_chars;
    string_between(chars.as_slice(), from, chars.len())
}

/// The first `n` characters of `s`, or all of `s` when it has no more than `n`.
pub open spec fn head_of(s: Seq<char>, n: nat) -> Seq<char> {
    if s.len() <= n {
        s
    } else {
        s.take(n as int)
    }
}

/// The first `max_chars` characters of `input`, or all of it when it is no longer.
pub fn truncate_chars(input: &str, max_chars: usize) -> (r: String)
    ensures
        r@ == head_of(input@, max_chars as nat),
{
    let chars = chars_of(input);
    if chars.len() <= max_chars {
        return string_of(chars.as_slice());
    }
    string_between(chars.as_slice(), 0, max_chars)
}

// ---------------------------------------------------------------------------
// Letter case
// ---------------------------------------------------------------------------

/// `s` with every ASCII upper-case letter in lower case.
pub open spec fn ascii_lowercase(s: Seq<char>) -> Seq<char> {
    s.map_values(|c: char| ascii_lower(c))
}

/// `s` with every ASCII upper-case letter in lower case.
pub fn to_ascii_lowercase(s: &str) -> (r: String)
    ensures
        r@ == ascii_lowercase(s@),
{
    let chars = chars_of(s);
    let mut out = String::new();
    for i in 0..chars.len()
        invariant
            chars@ == s@,
            out@ == ascii_lowercase(s@).take(i as int),
    {
        out.push(to_ascii_lower(chars[i]));
    }
    out
}

/// Whether the two strings are equal but for the case of ASCII letters.
pub fn eq_ignore_ascii_case(a: &str, b: &str) -> (r: bool)
    ensures
        r == (ascii_lowercase(a@) == ascii_lowercase(b@)),
{
    let x = to_ascii_lowercase(a);
    let y = to_ascii_lowercase(b);
    x == y
}

/// What `str::to_lowercase` of std returns for the string with these characters.
pub uninterp spec fn unicode_lowercase(s: Seq<char>) -> Seq<char>;

/// `str::to_lowercase` of std: the lower-case equivalent of the string by the Unicode property
/// `Lowercase`. Nothing is claimed but that the result is a function of the characters.
#[verifier::external_body]
pub(crate) fn to_lowercase(s: &str) -> (r: String)
    ensures
        r@ == unicode_lowercase(s@),
{
    s.to_lowercase()
}

// ---------------------------------------------------------------------------
// Trimming
// ---------------------------------------------------------------------------

/// `s` without its leading white space.
pub open spec fn trim_start(s: Seq<char>) -> Seq<char>
    decreases s.len(),
{
    if s.len() > 0 && white_space(s[0]) {
        trim_start(s.drop_first())
    } else {
        s
    }
}

/// `s` without its trailing white space.
pub open spec fn trim_end(s: Seq<char>) -> Seq<char>
    decreases s.len(),
{
    if s.len() > 0 && white_space(s.last()) {
        trim_end(s.drop_last())
    } else {
        s
    }
}

/// `s` without white space at its two ends.
pub open spec fn trimmed(s: Seq<char>) -> Seq<char> {
    trim_end(trim_start(s))
}

/// Where the white space at the two ends of `s` stops.
proof fn lemma_trim_bounds(s: Seq<char>) -> (r: (int, int))
    ensures
        0 <= r.0 <= r.1 <= s.len(),
        trimmed(s) == s.subrange(r.0, r.1),
        forall|i: int| 0 <= i < r.0 ==> white_space(#[trigger] s[i]),
        forall|i: int| r.1 <= i < s.len() ==> white_space(#[trigger] s[i]),
        r.0 < r.1 ==> !white_space(s[r.0]) && !white_space(s[r.1 - 1]),
    decreases s.len(),
{
    if s.len() > 0 && white_space(s[0]) {
        let rest = s.drop_first();
        let (a, b) = lemma_trim_bounds(rest);
        assert(trimmed(s) =~= s.subrange(a + 1, b + 1));
        assert forall|i: int| 0 <= i < a + 1 implies white_space(#[trigger] s[i]) by {
            if i > 0 {
                assert(rest[i - 1] == s[i]);
            }
        }
        assert forall|i: int| b + 1 <= i < s.len() implies white_space(#[trigger] s[i]) by {
            assert(rest[i - 1] == s[i]);
        }
        if a < b {
            assert(rest[a] == s[a + 1] && rest[b - 1] == s[b]);
        }
        (a + 1, b + 1)
    } else {
        let b = lemma_trim_end_bound(s);
        (0, b)
    }
}

proof fn lemma_trim_end_bound(s: Seq<char>) -> (r: int)
    ensures
        0 <= r <= s.len(),
        trim_end(s) == s.subrange(0, r),
        forall|i: int| r <= i < s.len() ==> white_space(#[trigger] s[i]),
        r > 0 ==> !white_space(s[r - 1]),
    decreases s.len(),
{
    if s.len() > 0 && white_space(s.last()) {
        let shorter = s.drop_last();
        let r = lemma_trim_end_bound(shorter);
        assert(trim_end(s) =~= s.subrange(0, r));
        assert forall|i: int| r <= i < s.len() implies white_space(#[trigger] s[i]) by {
            if i < shorter.len() {
                assert(shorter[i] == s[i]);
            }
        }
        if r > 0 {
            assert(shorter[r - 1] == s[r - 1]);
        }
        r
    } else {
        assert(s =~= s.subrange(0, s.len() as int));
        s.len() as int
    }
}

/// Trimming leaves a part of the text: all before it and all after it is white space, and where
/// any of it is left it neither begins nor ends with white space.
pub proof fn law_trimming_takes_white_space_off(s: Seq<char>)
    ensures
        exists|a: int, b: int|
            {
                &&& 0 <= a <= b <= s.len()
                &&& trimmed(s) == #[trigger] s.subrange(a, b)
                &&& forall|i: int| 0 <= i < a || b <= i < s.len() ==> white_space(#[trigger] s[i])
                &&& a < b ==> !white_space(s[a]) && !white_space(s[b - 1])
            },
        trimmed(s).len() == 0 <==> forall|i: int| 0 <= i < s.len() ==> white_space(#[trigger] s[i]),
{
    let (a, b) = lemma_trim_bounds(s);
    assert(trimmed(s) == s.subrange(a, b));
    if a < b {
        assert(!white_space(s[a]));
    }
}

/// A text that was trimmed stays as it is, and so does one that neither begins nor ends with white
/// space.
pub proof fn law_trimming_is_settled(s: Seq<char>)
    ensures
        trimmed(trimmed(s)) == trimmed(s),
        s.len() > 0 && !white_space(s[0]) && !white_space(s.last()) ==> trimmed(s) == s,
{
    let (a, b) = lemma_trim_bounds(s);
    let inner = s.subrange(a, b);
    let (c, d) = lemma_trim_bounds(inner);
    if a < b {
        assert(inner[0] == s[a] && inner[inner.len() - 1] == s[b - 1]);
        if c > 0 {
            assert(white_space(inner[0]));
        }
        if d < inner.len() {
            assert(white_space(inner[inner.len() - 1]));
        }
    }
    assert(inner.subrange(c, d) =~= inner);
    if s.len() > 0 && !white_space(s[0]) && !white_space(s.last()) {
        assert(s.subrange(a, b) =~= s);
    }
}

/// White space is what Unicode calls so: tab, line feed, vertical tab, form feed, carriage return,
/// space, next line, no-break space, and the spaces and separators of higher planes. Letters,
/// digits and punctuation of ASCII are not.
pub proof fn law_white_space_is_known(c: char)
    ensures
        c == ' ' || c == '\t' || c == '\n' || c == '\r' || c as u32 == 11 || c as u32 == 12 || c
            as u32 == 0x85 || c as u32 == 0xa0 || c as u32 == 0x3000 || c as u32 == 0x2028 || c
            as u32 == 0x2029 || c as u32 == 0x1680 || c as u32 == 0x202f || c as u32 == 0x205f
            || 0x2000 <= c as u32 <= 0x200a ==> white_space(c),
        0x21 <= c as u32 <= 0x7e ==> !white_space(c),
        white_space(c) ==> c as u32 <= 0x20 || c as u32 == 0x85 || c as u32 == 0xa0 || c as u32
            >= 0x1680,
{
}

/// `s` without white space at its two ends.
pub fn trim(s: &str) -> (r: String)
    ensures
        r@ == trimmed(s@),
{
    let chars = chars_of(s);
    let n: usize = chars.len();
    let mut from: usize = 0;
    assert(s@.subrange(0, n as int) =~= s@);
    while from < n && is_whitespace(chars[from])
        invariant
            n == chars@.len(),
            chars@ == s@,
            from <= n,
            trim_start(s@) == trim_start(s@.subrange(from as int, n as int)),
        decreases n - from,
    {
        assert(s@.subrange(from as int, n as int).drop_first() =~= s@.subrange(
            from + 1,
            n as int,
        ));
        from += 1;
    }
    let mut to: usize = n;
    while from < to && is_whitespace(chars[to - 1])
        invariant
            n == chars@.len(),
            chars@ == s@,
            from <= to <= n,
            trimmed(s@) == trim_end(s@.subrange(from as int, to as int)),
        decreases to - from,
    {
        assert(s@.subrange(from as int, to as int).drop_last() =~= s@.subrange(
            from as int,
            to - 1,
        ));
        to -= 1;
    }
    string_between(chars.as_slice(), from, to)
}

/// `s` without the characters `c` that end it.
pub open spec fn without_trailing(s: Seq<char>, c: char) -> Seq<char>
    decreases s.len(),
{
    if s.len() > 0 && s.last() == c {
        without_trailing(s.drop_last(), c)
    } else {
        s
    }
}

/// `s` without the characters `c` that end it.
pub fn trim_end_char(s: &str, c: char) -> (r: String)
    ensures
        r@ == without_trailing(s@, c),
{
    let chars = chars_of(s);
    let mut to: usize = chars.len();
    assert(s@.subrange(0, to as int) =~= s@);
    while 0 < to && chars[to - 1] == c
        invariant
            chars@ == s@,
            to <= chars@.len(),
            without_trailing(s@, c) == without_trailing(s@.subrange(0, to as int), c),
        decreases to,
    {
        assert(s@.subrange(0, to as int).drop_last() =~= s@.subrange(0, to - 1));
        to -= 1;
    }
    string_between(chars.as_slice(), 0, to)
}

// ---------------------------------------------------------------------------
// Searching
// ---------------------------------------------------------------------------

/// `part` stands in `s` at the position `i`.
pub open spec fn occurs_at(s: Seq<char>, part: Seq<char>, i: int) -> bool {
    0 <= i && i + part.len() <= s.len() && s.subrange(i, i + part.len()) == part
}

/// `part` stands in `s` somewhere.
pub open spec fn contains(s: Seq<char>, part: Seq<char>) -> bool {
    exists|i: int| #[trigger] occurs_at(s, part, i)
}

/// The first position from `from` on at which `part` stands in `s`.
pub open spec fn find_from(s: Seq<char>, part: Seq<char>, from: int) -> Option<int>
    decreases s.len() - from + 1,
{
    if from < 0 || from + part.len() > s.len() {
        None
    } else if occurs_at(s, part, from) {
        Some(from)
    } else {
        find_from(s, part, from + 1)
    }
}

/// `find_from` finds the first occurrence and misses none.
pub proof fn lemma_find_from(s: Seq<char>, part: Seq<char>, from: int)
    requires
        0 <= from,
    ensures
        match find_from(s, part, from) {
            Some(i) => from <= i && occurs_at(s, part, i) && forall|j: int|
                from <= j < i ==> !#[trigger] occurs_at(s, part, j),
            None => forall|j: int| from <= j ==> !#[trigger] occurs_at(s, part, j),
        },
    decreases s.len() - from + 1,
{
    if from + part.len() <= s.len() && !occurs_at(s, part, from) {
        lemma_find_from(s, part, from + 1);
    }
}

/// Whether `part` stands in `chars` at the position `i`.
fn occurs_at_exec(chars: &[char], part: &[char], i: usize) -> (r: bool)
    requires
        i <= chars@.len(),
    ensures
        r == occurs_at(chars@, part@, i as int),
{
    let n: usize = chars.len();
    if part.len() > n - i {
        return false;
    }
    for k in 0..part.len()
        invariant
            n == chars@.len(),
            i + part@.len() <= n,
            forall|j: int| 0 <= j < k ==> chars@[i + j] == part@[j],
    {
        if chars[i + k] != part[k] {
            assert(chars@.subrange(i as int, i + part@.len())[k as int] != part@[k as int]);
            return false;
        }
    }
    assert(chars@.subrange(i as int, i + part@.len()) =~= part@);
    true
}

/// The first position from `from` on at which `part` stands in `chars`.
fn find_from_exec(chars: &[char], part: &[char], from: usize) -> (r: Option<usize>)
    requires
        from <= chars@.len(),
    ensures
        match r {
            Some(i) => find_from(chars@, part@, from as int) == Some(i as int) && i + part@.len()
                <= chars@.len(),
            None => find_from(chars@, part@, from as int) is None,
        },
{
    let mut i: usize = from;
    while part.len() <= chars.len() - i
        invariant
            from <= i <= chars@.len(),
            find_from(chars@, part@, from as int) == find_from(chars@, part@, i as int),
        decreases chars@.len() - i,
    {
        if occurs_at_exec(chars, part, i) {
            return Some(i);
        }
        if i == chars.len() {
            assert(find_from(chars@, part@, i + 1) is None);
            return None;
        }
        i += 1;
    }
    None
}

/// Whether `part` stands in `s`.
pub fn str_contains(s: &str, part: &str) -> (r: bool)
    ensures
        r == contains(s@, part@),
{
    let chars = chars_of(s);
    let wanted = chars_of(part);
    proof {
        lemma_find_from(s@, part@, 0);
    }
    match find_from_exec(chars.as_slice(), wanted.as_slice(), 0) {
        Some(i) => {
            assert(occurs_at(s@, part@, i as int));
            true
        },
        None => {
            assert forall|i: int| !#[trigger] occurs_at(s@, part@, i) by {
                if i >= 0 {
                }
            }
            false
        },
    }
}

/// `s` begins with `prefix`.
pub open spec fn starts_with(s: Seq<char>, prefix: Seq<char>) -> bool {
    occurs_at(s, prefix, 0)
}

/// Whether `s` begins with `prefix`.
pub fn str_starts_with(s: &str, prefix: &str) -> (r: bool)
    ensures
        r == starts_with(s@, prefix@),
{
    let chars = chars_of(s);
    let wanted = chars_of(prefix);
    occurs_at_exec(chars.as_slice(), wanted.as_slice(), 0)
}

/// `s` ends with `suffix`.
pub open spec fn ends_with(s: Seq<char>, suffix: Seq<char>) -> bool {
    occurs_at(s, suffix, s.len() - suffix.len())
}

/// Whether `s` ends with `suffix`.
pub fn str_ends_with(s: &str, suffix: &str) -> (r: bool)
    ensures
        r == ends_with(s@, suffix@),
{
    let chars = chars_of(s);
    let wanted = chars_of(suffix);
    if wanted.len() > chars.len() {
        return false;
    }
    occurs_at_exec(chars.as_slice(), wanted.as_slice(), chars.len() - wanted.len())
}

/// `s` without `suffix`, where it ends with it.
pub fn strip_suffix(s: &str, suffix: &str) -> (r: Option<String>)
    ensures
        match r {
            Some(rest) => ends_with(s@, suffix@) && rest@ == s@.take(s@.len() - suffix@.len())
                && rest@ + suffix@ == s@,
            None => !ends_with(s@, suffix@),
        },
{
    if !str_ends_with(s, suffix) {
        return None;
    }
    let chars = chars_of(s);
    let n: usize = chars_of(suffix).len();
    let rest = string_between(chars.as_slice(), 0, chars.len() - n);
    assert(rest@ + suffix@ =~= s@);
    Some(rest)
}

/// `s` without `prefix`, where it begins with it.
pub fn strip_prefix(s: &str, prefix: &str) -> (r: Option<String>)
    ensures
        match r {
            Some(rest) => starts_with(s@, prefix@) && rest@ == s@.skip(prefix@.len() as int)
                && prefix@ + rest@ == s@,
            None => !starts_with(s@, prefix@),
        },
{
    if !str_starts_with(s, prefix) {
        return None;
    }
    let chars = chars_of(s);
    let n: usize = chars_of(prefix).len();
    let rest = string_between(chars.as_slice(), n, chars.len());
    assert(prefix@ + rest@ =~= s@);
    Some(rest)
}

/// What stands before and after the first occurrence of `separator` in `s`.
pub open spec fn split_once(s: Seq<char>, separator: Seq<char>) -> Option<(Seq<char>, Seq<char>)> {
    match find_from(s, separator, 0) {
        Some(i) => Some((s.take(i), s.skip(i + separator.len()))),
        None => None,
    }
}

/// What stands before and after the first occurrence of `separator` in `s`.
pub fn str_split_once(s: &str, separator: &str) -> (r: Option<(String, String)>)
    ensures
        match r {
            Some((before, after)) => split_once(s@, separator@) == Some((before@, after@)),
            None => split_once(s@, separator@) is None,
        },
{
    let chars = chars_of(s);
    let wanted = chars_of(separator);
    let n: usize = chars.len();
    match find_from_exec(chars.as_slice(), wanted.as_slice(), 0) {
        Some(i) => {
            let before = string_between(chars.as_slice(), 0, i);
            let after = string_between(chars.as_slice(), i + wanted.len(), n);
            Some((before, after))
        },
        None => None,
    }
}

// ---------------------------------------------------------------------------
// Replacing
// ---------------------------------------------------------------------------

/// `s` with every occurrence of `from`, taken from the left and without overlap, replaced by `to`.
pub open spec fn replaced(s: Seq<char>, from: Seq<char>, to: Seq<char>) -> Seq<char>
    decreases s.len(),
{
    if s.len() == 0 || from.len() == 0 {
        s
    } else if starts_with(s, from) {
        to + replaced(s.skip(from.len() as int), from, to)
    } else {
        seq![s[0]] + replaced(s.drop_first(), from, to)
    }
}

/// `s` with every occurrence of `from`, taken from the left and without overlap, replaced by `to`.
pub fn replace(s: &str, from: &str, to: &str) -> (r: String)
    requires
        from@.len() > 0,
    ensures
        r@ == replaced(s@, from@, to@),
{
    let chars = chars_of(s);
    let wanted = chars_of(from);
    let mut out = String::new();
    let mut i: usize = 0;
    assert(s@.skip(0) =~= s@);
    while i < chars.len()
        invariant
            chars@ == s@,
            wanted@ == from@,
            from@.len() > 0,
            i <= chars@.len(),
            replaced(s@, from@, to@) == out@ + replaced(s@.skip(i as int), from@, to@),
        decreases chars@.len() - i,
    {
        let ghost rest = s@.skip(i as int);
        let ghost before = out@;
        assert(occurs_at(s@, from@, i as int) == starts_with(rest, from@)) by {
            if i + from@.len() <= s@.len() {
                assert(s@.subrange(i as int, i + from@.len()) =~= rest.subrange(
                    0,
                    from@.len() as int,
                ));
            }
        }
        if occurs_at_exec(chars.as_slice(), wanted.as_slice(), i) {
            out.append(to);
            assert(rest.skip(from@.len() as int) =~= s@.skip(i + from@.len()));
            i += wanted.len();
            assert(before + (to@ + replaced(s@.skip(i as int), from@, to@)) =~= out@ + replaced(
                s@.skip(i as int),
                from@,
                to@,
            ));
        } else {
            out.push(chars[i]);
            assert(rest.drop_first() =~= s@.skip(i + 1));
            i += 1;
            assert(before + (seq![rest[0]] + replaced(s@.skip(i as int), from@, to@)) =~= out@
                + replaced(s@.skip(i as int), from@, to@));
        }
    }
    assert(replaced(s@.skip(i as int), from@, to@) =~= Seq::<char>::empty());
    assert(out@ + Seq::<char>::empty() =~= out@);
    out
}

// ---------------------------------------------------------------------------
// Splitting and joining
// ---------------------------------------------------------------------------

/// The first position from `from` on of the character `c` in `s`, or the length of `s`.
pub open spec fn char_position(s: Seq<char>, c: char, from: int) -> int
    decreases s.len() - from,
{
    if from < 0 || from >= s.len() || s[from] == c {
        from
    } else {
        char_position(s, c, from + 1)
    }
}

/// `char_position` lies within `s`.
pub proof fn lemma_char_position(s: Seq<char>, c: char, from: int)
    requires
        0 <= from <= s.len(),
    ensures
        from <= char_position(s, c, from) <= s.len(),
        char_position(s, c, from) < s.len() ==> s[char_position(s, c, from)] == c,
        forall|j: int| from <= j < char_position(s, c, from) ==> s[j] != c,
    decreases s.len() - from,
{
    if from < s.len() && s[from] != c {
        lemma_char_position(s, c, from + 1);
    }
}

/// The parts of `s` between the occurrences of `separator`.
pub open spec fn split(s: Seq<char>, separator: char) -> Seq<Seq<char>>
    decreases s.len(),
    via split_decreases
{
    let i = char_position(s, separator, 0);
    if i < 0 || i >= s.len() {
        seq![s]
    } else {
        seq![s.take(i)] + split(s.skip(i + 1), separator)
    }
}

#[via_fn]
proof fn split_decreases(s: Seq<char>, separator: char) {
    lemma_char_position(s, separator, 0);
}

/// The texts that a vector of strings holds.
pub open spec fn texts(v: Seq<String>) -> Seq<Seq<char>> {
    v.map_values(|s: String| s@)
}

/// The parts of `s` between the occurrences of `separator`.
pub fn str_split(s: &str, separator: char) -> (r: Vec<String>)
    ensures
        texts(r@) == split(s@, separator),
        r@.len() > 0,
{
    let chars = chars_of(s);
    let mut parts: Vec<String> = Vec::new();
    let mut start: usize = 0;
    let mut i: usize = 0;
    assert(s@.skip(0) =~= s@);
    assert(texts(parts@) + split(s@, separator) =~= split(s@, separator));
    while i < chars.len()
        invariant
            chars@ == s@,
            start <= i <= chars@.len(),
            forall|j: int| start <= j < i ==> s@[j] != separator,
            split(s@, separator) == texts(parts@) + split(s@.skip(start as int), separator),
        decreases chars@.len() - i,
    {
        if chars[i] == separator {
            let ghost rest = s@.skip(start as int);
            let ghost before = texts(parts@);
            proof {
                lemma_char_position(rest, separator, 0);
                let p = char_position(rest, separator, 0);
                assert(rest[i - start] == separator);
                assert(p == i - start) by {
                    if p < i - start {
                        assert(rest[p] == s@[start + p]);
                    }
                }
                assert(rest.take(p) =~= s@.subrange(start as int, i as int));
                assert(rest.skip(p + 1) =~= s@.skip(i + 1));
            }
            parts.push(string_between(chars.as_slice(), start, i));
            assert(texts(parts@) =~= before.push(s@.subrange(start as int, i as int)));
            assert(before + (seq![s@.subrange(start as int, i as int)] + split(
                s@.skip(i + 1),
                separator,
            )) =~= texts(parts@) + split(s@.skip(i + 1), separator));
            start = i + 1;
        }
        i += 1;
    }
    proof {
        let rest = s@.skip(start as int);
        lemma_char_position(rest, separator, 0);
        let p = char_position(rest, separator, 0);
        if p < rest.len() {
            assert(rest[p] == s@[start + p]);
        }
        assert(split(rest, separator) == seq![rest]);
        assert(rest =~= s@.subrange(start as int, s@.len() as int));
    }
    let ghost before = texts(parts@);
    parts.push(string_between(chars.as_slice(), start, chars.len()));
    assert(texts(parts@) =~= before + seq![s@.skip(start as int)]);
    parts
}

/// The texts of `list` with `separator` between each two.
pub open spec fn joined(list: Seq<Seq<char>>, separator: Seq<char>) -> Seq<char>
    decreases list.len(),
{
    if list.len() == 0 {
        Seq::empty()
    } else if list.len() == 1 {
        list[0]
    } else {
        list[0] + separator + joined(list.drop_first(), separator)
    }
}

/// The strings of `list` with `separator` between each two.
pub fn join(list: &[String], separator: &str) -> (r: String)
    ensures
        r@ == joined(texts(list@), separator@),
{
    let mut out = String::new();
    let ghost all = texts(list@);
    assert(all.skip(0) =~= all);
    let mut i: usize = 0;
    while i < list.len()
        invariant
            i <= list@.len(),
            all == texts(list@),
            i == 0 ==> out@.len() == 0,
            i == 0 || i < list@.len() ==> joined(all, separator@) == out@ + (if i == 0 {
                joined(all.skip(0), separator@)
            } else {
                separator@ + joined(all.skip(i as int), separator@)
            }),
            0 < i == list@.len() ==> joined(all, separator@) == out@,
        decreases list@.len() - i,
    {
        let ghost before = out@;
        let ghost rest = all.skip(i as int);
        if i > 0 {
            out.append(separator);
        }
        out.append(list[i].as_str());
        assert(rest[0] == list@[i as int]@);
        assert(rest.drop_first() =~= all.skip(i + 1));
        proof {
            let tail = joined(all.skip(i + 1), separator@);
            if i > 0 {
                assert(out@ == before + separator@ + rest[0]);
                assert(before + (separator@ + rest[0]) =~= out@);
                assert(before + (separator@ + (rest[0] + separator@ + tail)) =~= out@ + (separator@
                    + tail));
            } else {
                assert(out@ =~= rest[0]);
                assert(before + rest[0] =~= out@);
                assert(before + (rest[0] + separator@ + tail) =~= out@ + (separator@ + tail));
            }
        }
        i += 1;
    }
    out
}

/// A list of texts with one more.
pub fn push_text(out: &mut Vec<String>, s: &str)
    ensures
        texts(final(out)@) == texts(old(out)@).push(s@),
{
    let ghost before = texts(out@);
    out.push(s.to_string());
    assert(texts(out@) =~= before.push(s@));
}

/// A line that is put together out of three texts.
pub fn push_line(out: &mut Vec<String>, before: &str, middle: &str, after: &str)
    ensures
        texts(final(out)@) == texts(old(out)@).push(before@ + middle@ + after@),
{
    let mut line = String::new();
    line.append(before);
    line.append(middle);
    line.append(after);
    assert(line@ =~= before@ + middle@ + after@);
    push_text(out, line.as_str());
}

// ---------------------------------------------------------------------------
// Numbers
// ---------------------------------------------------------------------------

/// The decimal digit of `d`, for `d` below ten.
pub open spec fn digit_char(d: nat) -> char {
    (48 + d) as char
}

/// The decimal notation of `n`.
pub open spec fn decimal(n: nat) -> Seq<char>
    decreases n,
{
    if n < 10 {
        seq![digit_char(n)]
    } else {
        decimal(n / 10).push(digit_char(n % 10))
    }
}

/// A row of decimal digits, at least one.
pub open spec fn is_number(s: Seq<char>) -> bool {
    s.len() > 0 && forall|i: int| 0 <= i < s.len() ==> '0' <= #[trigger] s[i] && s[i] <= '9'
}

/// The decimal notation of a number is a row of digits that stands for the number, without a zero
/// in front but for zero itself.
pub proof fn law_decimal_reads_back(n: nat)
    ensures
        is_number(decimal(n)),
        digits_value(decimal(n)) == n,
        decimal(n).len() > 1 ==> decimal(n)[0] != '0',
        n < 10 <==> decimal(n).len() == 1,
    decreases n,
{
    reveal_with_fuel(digits_value, 2);
    if n < 10 {
        let s = decimal(n);
        assert(s.drop_last() =~= Seq::<char>::empty());
        assert(s.last() as nat == 48 + n);
    } else {
        law_decimal_reads_back(n / 10);
        let s = decimal(n);
        assert(s.drop_last() =~= decimal(n / 10));
        assert(s.last() as nat == 48 + n % 10);
        assert forall|i: int| 0 <= i < s.len() implies '0' <= #[trigger] s[i] && s[i] <= '9' by {
            if i < decimal(n / 10).len() {
                assert(s[i] == decimal(n / 10)[i]);
            }
        }
    }
}

/// Appends the decimal notation of `n`.
pub fn push_decimal(out: &mut String, n: u64)
    ensures
        final(out)@ == old(out)@ + decimal(n as nat),
    decreases n,
{
    if n >= 10 {
        push_decimal(out, n / 10);
    }
    let ghost before = out@;
    out.push((48u8 + (n % 10) as u8) as char);
    assert(out@ =~= before + seq![digit_char((n % 10) as nat)]);
    assert(out@ =~= old(out)@ + decimal(n as nat));
}

/// The decimal notation of `n`.
pub fn u64_text(n: u64) -> (r: String)
    ensures
        r@ == decimal(n as nat),
{
    let mut out = String::new();
    push_decimal(&mut out, n);
    assert(out@ =~= decimal(n as nat));
    out
}

/// The decimal notation of `n`, with a leading zero where it has one digit.
pub open spec fn decimal2(n: nat) -> Seq<char> {
    if n < 10 {
        seq!['0', digit_char(n)]
    } else {
        decimal(n)
    }
}

/// A number below a hundred in two digits reads back.
pub proof fn law_two_digits_read_back(n: nat)
    requires
        n < 100,
    ensures
        is_number(decimal2(n)),
        decimal2(n).len() == 2,
        digits_value(decimal2(n)) == n,
{
    reveal_with_fuel(digits_value, 3);
    reveal_with_fuel(decimal, 3);
    let s = decimal2(n);
    if n < 10 {
        assert(s.drop_last() =~= seq!['0']);
        assert(seq!['0'].drop_last() =~= Seq::<char>::empty());
        assert(s.last() as nat == 48 + n);
    } else {
        law_decimal_reads_back(n);
        assert(s =~= seq![digit_char(n / 10), digit_char(n % 10)]);
    }
}

/// Appends the decimal notation of `n`, with a leading zero where it has one digit.
pub fn push_decimal2(out: &mut String, n: u64)
    ensures
        final(out)@ == old(out)@ + decimal2(n as nat),
{
    if n < 10 {
        out.push('0');
    }
    push_decimal(out, n);
    assert(out@ =~= old(out)@ + decimal2(n as nat));
}

/// The decimal notation of a number that may be negative.
pub open spec fn signed_decimal(n: int) -> Seq<char> {
    if n < 0 {
        seq!['-'] + decimal((-n) as nat)
    } else {
        decimal(n as nat)
    }
}

/// The decimal notation of a number that may be negative.
pub fn i64_text(n: i64) -> (r: String)
    ensures
        r@ == signed_decimal(n as int),
{
    let mut out = String::new();
    if n < 0 {
        out.push('-');
        let magnitude: u64 = if n == i64::MIN {
            0x8000_0000_0000_0000
        } else {
            (-n) as u64
        };
        push_decimal(&mut out, magnitude);
    } else {
        push_decimal(&mut out, n as u64);
    }
    assert(out@ =~= signed_decimal(n as int));
    out
}

/// The value of a sequence of decimal digits.
pub open spec fn digits_value(s: Seq<char>) -> nat
    decreases s.len(),
{
    if s.len() == 0 {
        0
    } else {
        digits_value(s.drop_last()) * 10 + (s.last() as int - 48) as nat
    }
}

/// Every character of `s` is a decimal digit.
pub open spec fn all_digits(s: Seq<char>) -> bool {
    forall|i: int| 0 <= i < s.len() ==> ascii_digit(#[trigger] s[i])
}

/// The value that a decimal number of one plus sign at most and one digit at least stands for,
/// where it fits 64 bits.
pub open spec fn parsed_u64(s: Seq<char>) -> Option<u64> {
    let digits = if s.len() > 0 && s[0] == '+' {
        s.drop_first()
    } else {
        s
    };
    if digits.len() > 0 && all_digits(digits) && digits_value(digits) <= u64::MAX {
        Some(digits_value(digits) as u64)
    } else {
        None
    }
}

proof fn lemma_digits_value_monotone(s: Seq<char>, n: int)
    requires
        0 <= n <= s.len(),
    ensures
        digits_value(s.take(n)) <= digits_value(s),
    decreases s.len(),
{
    if n == s.len() {
        assert(s.take(n) =~= s);
    } else {
        lemma_digits_value_monotone(s.drop_last(), n);
        assert(s.drop_last().take(n) =~= s.take(n));
    }
}

/// A number of 64 bits is read back from its decimal notation, with or without a plus sign.
pub proof fn law_numbers_are_parsed(n: u64)
    ensures
        parsed_u64(decimal(n as nat)) == Some(n),
        parsed_u64(seq!['+'] + decimal(n as nat)) == Some(n),
{
    law_decimal_reads_back(n as nat);
    let s = decimal(n as nat);
    assert('0' <= s[0] && s[0] <= '9');
    assert((seq!['+'] + s).drop_first() =~= s);
}

/// Reads a decimal number.
pub fn parse_u64(s: &str) -> (r: Option<u64>)
    ensures
        r == parsed_u64(s@),
{
    let chars = chars_of(s);
    let start: usize = if chars.len() > 0 && chars[0] == '+' {
        1
    } else {
        0
    };
    let ghost digits = s@.skip(start as int);
    proof {
        if start == 1 {
            assert(digits =~= s@.drop_first());
        } else {
            assert(digits =~= s@);
        }
    }
    if start == chars.len() {
        return None;
    }
    let mut value: u64 = 0;
    let mut i: usize = start;
    assert(digits.take(0) =~= Seq::<char>::empty());
    while i < chars.len()
        invariant
            chars@ == s@,
            start <= i <= chars@.len(),
            digits == s@.skip(start as int),
            parsed_u64(s@) == (if digits.len() > 0 && all_digits(digits) && digits_value(digits)
                <= u64::MAX {
                Some(digits_value(digits) as u64)
            } else {
                None
            }),
            forall|j: int| 0 <= j < i - start ==> ascii_digit(#[trigger] digits[j]),
            value == digits_value(digits.take(i - start)),
        decreases chars@.len() - i,
    {
        let c = chars[i];
        assert(digits[i - start] == c);
        if !('0' <= c && c <= '9') {
            return None;
        }
        let d: u64 = (c as u32 - 48) as u64;
        assert(digits.take(i - start + 1).drop_last() =~= digits.take(i - start));
        assert(digits_value(digits.take(i - start + 1)) == value * 10 + d);
        proof {
            lemma_digits_value_monotone(digits, i - start + 1);
        }
        if value > (u64::MAX - d) / 10 {
            assert(value * 10 + d > u64::MAX);
            return None;
        }
        value = value * 10 + d;
        i += 1;
    }
    assert(digits.take(i - start) =~= digits);
    Some(value)
}

// ---------------------------------------------------------------------------
// Optional texts
// ---------------------------------------------------------------------------

/// The contents of an optional text.
pub open spec fn opt_text(s: Option<String>) -> Option<Seq<char>> {
    match s {
        Some(s) => Some(s@),
        None => None,
    }
}

/// A text without the white space round it, unless nothing is left.
pub open spec fn nonblank(s: Option<Seq<char>>) -> Option<Seq<char>> {
    match s {
        Some(s) => if trimmed(s).len() == 0 {
            None
        } else {
            Some(trimmed(s))
        },
        None => None,
    }
}

/// A text without the white space round it, unless nothing is left.
pub fn trim_nonblank(s: Option<String>) -> (r: Option<String>)
    ensures
        opt_text(r) == nonblank(opt_text(s)),
{
    match s {
        Some(s) => {
            let inner = trim(s.as_str());
            if is_empty(inner.as_str()) {
                None
            } else {
                Some(inner)
            }
        },
        None => None,
    }
}

/// Whether a text has no characters.
pub fn is_empty(s: &str) -> (r: bool)
    ensures
        r == (s@.len() == 0),
{
    s.unicode_len() == 0
}

// ---------------------------------------------------------------------------
// Quoting
// ---------------------------------------------------------------------------

/// What the `Debug` form of a text is: the text in double quotes, with escapes.
pub uninterp spec fn debug_form(s: Seq<char>) -> Seq<char>;

/// The `{:?}` form of a `str`. It depends on the text alone; which characters are written as
/// escapes is left unsaid.
#[verifier::external_body]
pub(crate) fn debug_text(s: &str) -> (r: String)
    ensures
        r@ == debug_form(s@),
{
    format!("{s:?}")
}

// ---------------------------------------------------------------------------
// Laws of texts
// ---------------------------------------------------------------------------

/// Cut to a number of characters, a text keeps its end, or its beginning, whole where it is no
/// longer than that.
pub proof fn law_texts_are_cut_to_size(s: Seq<char>, n: nat)
    ensures
        ({
            let size = if s.len() < n {
                s.len()
            } else {
                n
            };
            &&& tail_of(s, n) == s.subrange(s.len() - size, s.len() as int)
            &&& head_of(s, n) == s.subrange(0, size as int)
        }),
{
    let size = if s.len() < n {
        s.len()
    } else {
        n
    };
    assert(tail_of(s, n) =~= s.subrange(s.len() - size, s.len() as int));
    assert(head_of(s, n) =~= s.subrange(0, size as int));
}

/// Letters and digits, and the codes that print nothing.
pub proof fn law_characters_are_known(c: char)
    ensures
        ascii_alphanumeric(c) <==> 48 <= c as int <= 57 || 65 <= c as int <= 90 || 97 <= c as int
            <= 122,
        control_code(c) <==> c as int <= 31 || 127 <= c as int <= 159,
        ascii_white_space(c) <==> c as int == 9 || c as int == 10 || c as int == 12 || c as int == 13
            || c as int == 32,
        ascii_white_space(c) ==> white_space(c),
{
}

/// Lower case changes the capital letters of a text, each to its small one, and nothing else.
pub proof fn law_lower_case_changes_capitals(s: Seq<char>, i: int)
    requires
        0 <= i < s.len(),
    ensures
        ascii_lowercase(s).len() == s.len(),
        'A' <= s[i] <= 'Z' ==> ascii_lowercase(s)[i] as int == s[i] as int + 32,
        !('A' <= s[i] <= 'Z') ==> ascii_lowercase(s)[i] == s[i],
        ascii_lowercase(ascii_lowercase(s)) == ascii_lowercase(s),
{
    assert forall|k: int| 0 <= k < s.len() implies ascii_lower(ascii_lower(#[trigger] s[k]))
        == ascii_lower(s[k]) by {}
    assert(ascii_lowercase(ascii_lowercase(s)) =~= ascii_lowercase(s));
}

/// What is taken off the end is the one character, as often as it stands there.
pub proof fn law_trailing_characters_go(s: Seq<char>, c: char)
    ensures
        ({
            let kept = without_trailing(s, c);
            &&& kept.len() <= s.len()
            &&& kept == s.subrange(0, kept.len() as int)
            &&& forall|i: int| kept.len() <= i < s.len() ==> #[trigger] s[i] == c
            &&& kept.len() > 0 ==> kept[kept.len() - 1] != c
        }),
    decreases s.len(),
{
    if s.len() > 0 && s.last() == c {
        law_trailing_characters_go(s.drop_last(), c);
        let kept = without_trailing(s, c);
        assert(kept =~= s.subrange(0, kept.len() as int));
        assert forall|i: int| kept.len() <= i < s.len() implies #[trigger] s[i] == c by {
            if i < s.len() - 1 {
                assert(s.drop_last()[i] == s[i]);
            }
        }
    } else {
        assert(s =~= s.subrange(0, s.len() as int));
    }
}

/// A part is found wherever it stands, and only there: in the middle, at the beginning, at the end.
pub proof fn law_parts_are_found(a: Seq<char>, part: Seq<char>, b: Seq<char>, s: Seq<char>)
    ensures
        contains(a + part + b, part),
        starts_with(part + b, part),
        ends_with(a + part, part),
        contains(s, part) ==> exists|i: int|
            0 <= i && i + part.len() <= s.len() && #[trigger] s.subrange(i, i + part.len()) == part,
        starts_with(s, part) <==> part.len() <= s.len() && s.subrange(0, part.len() as int) == part,
        ends_with(s, part) <==> part.len() <= s.len() && s.subrange(
            s.len() - part.len(),
            s.len() as int,
        ) == part,
{
    let whole = a + part + b;
    assert(whole.subrange(a.len() as int, (a.len() + part.len()) as int) =~= part);
    assert(occurs_at(whole, part, a.len() as int));
    assert((part + b).subrange(0, 0int + part.len()) =~= part);
    assert((a + part).subrange(a.len() as int, (a.len() + part.len()) as int) =~= part);
    if contains(s, part) {
        let i = choose|i: int| #[trigger] occurs_at(s, part, i);
        assert(s.subrange(i, i + part.len()) == part);
    }
}

/// A text is split at the first place where the separator stands: the two halves and the separator
/// make it up, and there is no earlier place. One without the separator is not split.
pub proof fn law_texts_split_at_the_first_place(s: Seq<char>, separator: Seq<char>)
    ensures
        split_once(s, separator) is None <==> !contains(s, separator),
        split_once(s, separator) matches Some((before, after)) ==> {
            &&& s == before + separator + after
            &&& forall|j: int|
                0 <= j < before.len() && j + separator.len() <= s.len() ==> #[trigger] s.subrange(
                    j,
                    j + separator.len(),
                ) != separator
        },
{
    lemma_find_from(s, separator, 0);
    match find_from(s, separator, 0) {
        Some(i) => {
            assert(occurs_at(s, separator, i));
            assert(s =~= s.take(i) + separator + s.skip(i + separator.len())) by {
                assert(separator =~= s.subrange(i, i + separator.len()));
                assert forall|k: int| 0 <= k < separator.len() implies separator[k] == s[i + k] by {
                    assert(s.subrange(i, i + separator.len())[k] == s[i + k]);
                }
            }
            assert forall|j: int| 0 <= j < i && j + separator.len() <= s.len() implies
                #[trigger] s.subrange(j, j + separator.len()) != separator by {
                assert(!occurs_at(s, separator, j));
            }
        },
        None => {
            assert forall|j: int| !#[trigger] occurs_at(s, separator, j) by {
                if j >= 0 {
                    assert(!occurs_at(s, separator, j));
                }
            }
        },
    }
}

/// Replacing puts the one text in the place of the other, from the first place on where that
/// stands, and leaves the rest as it is.
pub proof fn law_replacing_goes_from_place_to_place(
    before: Seq<char>,
    from: Seq<char>,
    after: Seq<char>,
    to: Seq<char>,
)
    requires
        from.len() > 0,
        forall|j: int|
            0 <= j < before.len() && j + from.len() <= before.len() + from.len() + after.len()
                ==> #[trigger] (before + from + after).subrange(j, j + from.len()) != from,
    ensures
        replaced(before + from + after, from, to) == before + to + replaced(after, from, to),
        replaced(Seq::empty(), from, to) == Seq::<char>::empty(),
    decreases before.len(),
{
    let s = before + from + after;
    if before.len() == 0 {
        assert(s.subrange(0, 0int + from.len()) =~= from);
        assert(starts_with(s, from));
        assert(s.skip(from.len() as int) =~= after);
        assert(before + to + replaced(after, from, to) =~= to + replaced(after, from, to));
    } else {
        assert(s.subrange(0int, 0int + from.len()) != from);
        assert(!starts_with(s, from));
        let rest = before.drop_first();
        let shorter = rest + from + after;
        assert(s.drop_first() =~= shorter);
        assert forall|j: int|
            0 <= j < rest.len() && j + from.len() <= rest.len() + from.len() + after.len() implies
            #[trigger] shorter.subrange(j, j + from.len()) != from by {
            assert(shorter.subrange(j, j + from.len()) =~= s.subrange(j + 1, j + 1 + from.len()));
        }
        law_replacing_goes_from_place_to_place(rest, from, after, to);
        assert(seq![s[0]] + (rest + to + replaced(after, from, to)) =~= before + to + replaced(
            after,
            from,
            to,
        ));
    }
}

/// The value of a number's digits is ten times that of the digits before the last, and the last.
pub proof fn law_digits_count_by_tens(s: Seq<char>, c: char)
    requires
        '0' <= c <= '9',
    ensures
        digits_value(s.push(c)) == 10 * digits_value(s) + (c as int - '0' as int),
        digits_value(Seq::empty()) == 0,
{
    assert(s.push(c).drop_last() =~= s);
}

/// A negative number is written with its sign, any other without one.
pub proof fn law_signs_are_written(n: int)
    ensures
        n < 0 ==> signed_decimal(n)[0] == '-' && digits_value(signed_decimal(n).skip(1)) == -n
            && is_number(signed_decimal(n).skip(1)),
        n >= 0 ==> digits_value(signed_decimal(n)) == n && is_number(signed_decimal(n)),
{
    if n < 0 {
        law_decimal_reads_back((-n) as nat);
        assert(signed_decimal(n).skip(1) =~= decimal((-n) as nat));
    } else {
        law_decimal_reads_back(n as nat);
    }
}

/// A text is read as a number exactly where it is one or more digits, after a plus or without, and
/// their value is not too large; and then as their value.
pub proof fn law_only_numbers_are_parsed(s: Seq<char>)
    ensures
        ({
            let digits = if s.len() > 0 && s[0] == '+' {
                s.subrange(1, s.len() as int)
            } else {
                s
            };
            &&& parsed_u64(s) is Some <==> is_number(digits) && digits_value(digits)
                <= 18_446_744_073_709_551_615
            &&& parsed_u64(s) matches Some(n) ==> n == digits_value(digits)
        }),
{
    if s.len() > 0 && s[0] == '+' {
        assert(s.drop_first() =~= s.subrange(1, s.len() as int));
    }
}

/// An optional text is kept without the white space round it, and not at all where it holds nothing
/// else.
pub proof fn law_blank_texts_are_none(s: Seq<char>)
    ensures
        nonblank(None) is None,
        nonblank(Some(s)) is None <==> forall|i: int|
            0 <= i < s.len() ==> white_space(#[trigger] s[i]),
        nonblank(Some(s)) matches Some(kept) ==> kept == trimmed(s),
{
    law_trimming_takes_white_space_off(s);
}

} // verus!
