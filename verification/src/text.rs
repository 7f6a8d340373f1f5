//! Text as sequences of characters: the scanning, trimming and splitting that
//! the format-string rules are stated in.

use vstd::prelude::*;
use vstd::string::*;

verus! {

/// Whether `c` has the Unicode property White_Space.
pub open spec fn is_whitespace(c: char) -> bool {
    let n = c as u32;
    (0x09 <= n <= 0x0d) || n == 0x20 || n == 0x85 || n == 0xa0 || n == 0x1680 || (0x2000 <= n
        <= 0x200a) || n == 0x2028 || n == 0x2029 || n == 0x202f || n == 0x205f || n == 0x3000
}

/// Whether `c` is one of the ASCII digits `0` to `9`.
pub open spec fn is_ascii_digit(c: char) -> bool {
    '0' <= c <= '9'
}

/// Whether `c` is below U+0080.
pub open spec fn is_ascii(c: char) -> bool {
    (c as u32) < 0x80
}

/// The first index at or after `i` whose character is `c`, or the length of
/// `s` where there is none.
pub open spec fn find_char(s: Seq<char>, c: char, i: int) -> int
    decreases s.len() - i,
{
    if i < 0 || i >= s.len() {
        s.len() as int
    } else if s[i] == c {
        i
    } else {
        find_char(s, c, i + 1)
    }
}

/// The last index below `j` whose character is `c`, or -1 where there is
/// none.
pub open spec fn rfind_char(s: Seq<char>, c: char, j: int) -> int
    decreases j,
{
    if j <= 0 || j > s.len() {
        -1
    } else if s[j - 1] == c {
        j - 1
    } else {
        rfind_char(s, c, j - 1)
    }
}

/// The first index at or after `i` at which `c` stands twice in a row, or the
/// length of `s` where it never does.
pub open spec fn find_double(s: Seq<char>, c: char, i: int) -> int
    decreases s.len() - i,
{
    if i < 0 || i + 1 >= s.len() {
        s.len() as int
    } else if s[i] == c && s[i + 1] == c {
        i
    } else {
        find_double(s, c, i + 1)
    }
}

/// The first index at or after `i` whose character is not white space, or
/// the length of `s`.
pub open spec fn skip_whitespace(s: Seq<char>, i: int) -> int
    decreases s.len() - i,
{
    if i < 0 || i >= s.len() {
        s.len() as int
    } else if !is_whitespace(s[i]) {
        i
    } else {
        skip_whitespace(s, i + 1)
    }
}

/// The smallest end `e` with `lo <= e <= j` such that only white space
/// stands between `e` and `j`.
pub open spec fn skip_whitespace_back(s: Seq<char>, lo: int, j: int) -> int
    decreases j,
{
    if j <= lo || j <= 0 || j > s.len() {
        j
    } else if !is_whitespace(s[j - 1]) {
        j
    } else {
        skip_whitespace_back(s, lo, j - 1)
    }
}

/// The first index at or after `i` whose character is not `c`, or the length
/// of `s`.
pub open spec fn skip_char(s: Seq<char>, c: char, i: int) -> int
    decreases s.len() - i,
{
    if i < 0 || i >= s.len() {
        s.len() as int
    } else if s[i] != c {
        i
    } else {
        skip_char(s, c, i + 1)
    }
}

/// The smallest end `e <= j` such that only `c` stands between `e` and `j`.
pub open spec fn skip_char_back(s: Seq<char>, c: char, j: int) -> int
    decreases j,
{
    if j <= 0 || j > s.len() {
        j
    } else if s[j - 1] != c {
        j
    } else {
        skip_char_back(s, c, j - 1)
    }
}

/// The first index at or after `i` whose character is not an ASCII digit, or
/// the length of `s`.
pub open spec fn skip_digits(s: Seq<char>, i: int) -> int
    decreases s.len() - i,
{
    if i < 0 || i >= s.len() {
        s.len() as int
    } else if !is_ascii_digit(s[i]) {
        i
    } else {
        skip_digits(s, i + 1)
    }
}

/// The number that the ASCII digits of `s` from `from` up to `to` spell.
pub open spec fn digits_value(s: Seq<char>, from: int, to: int) -> nat
    decreases to - from,
{
    if to <= from || to > s.len() || from < 0 {
        0
    } else {
        (digits_value(s, from, to - 1) * 10 + (s[to - 1] as u32 - '0' as u32)) as nat
    }
}

/// Reading more digits never spells a smaller number.
pub proof fn lemma_digits_value_grows(s: Seq<char>, from: int, mid: int, to: int)
    requires
        0 <= from <= mid <= to <= s.len(),
        forall|k: int| from <= k < to ==> is_ascii_digit(#[trigger] s[k]),
    ensures
        digits_value(s, from, mid) <= digits_value(s, from, to),
    decreases to - mid,
{
    if mid < to {
        lemma_digits_value_grows(s, from, mid, to - 1);
        assert(is_ascii_digit(s[to - 1]));
    }
}

/// Between a start and the end of its run of digits stand digits only.
pub proof fn lemma_skip_digits(s: Seq<char>, i: int)
    requires
        0 <= i <= s.len(),
    ensures
        i <= skip_digits(s, i) <= s.len(),
        forall|k: int| i <= k < skip_digits(s, i) ==> is_ascii_digit(#[trigger] s[k]),
    decreases s.len() - i,
{
    if i < s.len() && is_ascii_digit(s[i]) {
        lemma_skip_digits(s, i + 1);
    }
}

/// The number that the characters of `s` from `from` on spell, where they
/// are digits, at least one, and the number fits in 64 bits.
pub open spec fn digits_from(s: Seq<char>, from: int) -> Option<u64> {
    if 0 <= from < s.len() && skip_digits(s, from) == s.len() && digits_value(
        s,
        from,
        s.len() as int,
    ) <= u64::MAX {
        Some(digits_value(s, from, s.len() as int) as u64)
    } else {
        None
    }
}

/// The number that `s` spells in decimal, where it spells one that fits in
/// 64 bits: digits only, with one `+` allowed in front.
pub open spec fn decimal_value(s: Seq<char>) -> Option<u64> {
    if s.len() > 0 && s[0] == '+' {
        digits_from(s, 1)
    } else {
        digits_from(s, 0)
    }
}

/// The signed number that `s` spells in decimal, where it spells one that
/// fits in 64 bits: digits with one `+` or `-` allowed in front.
pub open spec fn signed_decimal_value(s: Seq<char>) -> Option<i64> {
    if s.len() > 0 && s[0] == '-' {
        match digits_from(s, 1) {
            Some(v) => if v <= 0x8000_0000_0000_0000 {
                Some((-(v as int)) as i64)
            } else {
                None
            },
            None => None,
        }
    } else {
        match decimal_value(s) {
            Some(v) => if v <= i64::MAX {
                Some(v as i64)
            } else {
                None
            },
            None => None,
        }
    }
}

/// Reads the digits of `s` from `from` on.
pub fn parse_digits(s: &Vec<char>, from: usize) -> (r: Option<u64>)
    ensures
        r == digits_from(s@, from as int),
{
    let n: usize = s.len();
    if from >= n {
        return None;
    }
    let e: usize = skip_digits_from(s, from);
    if e != n {
        return None;
    }
    proof {
        lemma_skip_digits(s@, from as int);
    }
    let mut acc: u64 = 0;
    let mut i: usize = from;
    while i < n
        invariant
            from <= i <= n,
            n == s.len(),
            from < n,
            skip_digits(s@, from as int) == n,
            forall|k: int| from <= k < n ==> is_ascii_digit(#[trigger] s@[k]),
            acc == digits_value(s@, from as int, i as int),
        decreases n - i,
    {
        assert(is_ascii_digit(s@[i as int]));
        let d: u128 = (s[i] as u32 - '0' as u32) as u128;
        let next: u128 = acc as u128 * 10 + d;
        if next > 0xffff_ffff_ffff_ffffu128 {
            proof {
                assert(digits_value(s@, from as int, i as int + 1) == next);
                lemma_digits_value_grows(s@, from as int, i as int + 1, n as int);
            }
            return None;
        }
        acc = next as u64;
        i = i + 1;
    }
    Some(acc)
}

/// Reads a decimal number of at most 64 bits.
pub fn parse_decimal(s: &Vec<char>) -> (r: Option<u64>)
    ensures
        r == decimal_value(s@),
{
    if s.len() > 0 && s[0] == '+' {
        parse_digits(s, 1)
    } else {
        parse_digits(s, 0)
    }
}

/// Reads a signed decimal number of at most 64 bits.
pub fn parse_signed_decimal(s: &Vec<char>) -> (r: Option<i64>)
    ensures
        r == signed_decimal_value(s@),
{
    if s.len() > 0 && s[0] == '-' {
        match parse_digits(s, 1) {
            Some(v) => if v < 0x8000_0000_0000_0000u64 {
                Some(-(v as i64))
            } else if v == 0x8000_0000_0000_0000u64 {
                Some(-0x7fff_ffff_ffff_ffffi64 - 1)
            } else {
                None
            },
            None => None,
        }
    } else {
        match parse_decimal(s) {
            Some(v) => if v <= 0x7fff_ffff_ffff_ffffu64 {
                Some(v as i64)
            } else {
                None
            },
            None => None,
        }
    }
}

/// Where the trimmed part of `s` begins.
pub open spec fn trim_start_index(s: Seq<char>) -> int {
    skip_whitespace(s, 0)
}

/// Where the trimmed part of `s` ends.
pub open spec fn trim_end_index(s: Seq<char>) -> int {
    skip_whitespace_back(s, trim_start_index(s), s.len() as int)
}

/// `s` without the white space at its two ends.
pub open spec fn trim(s: Seq<char>) -> Seq<char> {
    s.subrange(trim_start_index(s), trim_end_index(s))
}

/// `s` with every `from` replaced by `to`.
pub open spec fn replace_char(s: Seq<char>, from: char, to: char) -> Seq<char> {
    Seq::new(
        s.len(),
        |i: int|
            if s[i] == from {
                to
            } else {
                s[i]
            },
    )
}

/// `s` with every line feed replaced by a space.
pub open spec fn one_line(s: Seq<char>) -> Seq<char> {
    replace_char(s, '\n', ' ')
}

/// Whether `c` has the Unicode property White_Space.
pub fn char_is_whitespace(c: char) -> (b: bool)
    ensures
        b == is_whitespace(c),
{
    let n: u32 = c as u32;
    (0x09 <= n && n <= 0x0d) || n == 0x20 || n == 0x85 || n == 0xa0 || n == 0x1680 || (0x2000
        <= n && n <= 0x200a) || n == 0x2028 || n == 0x2029 || n == 0x202f || n == 0x205f || n
        == 0x3000
}

/// Whether `c` is one of the ASCII digits.
pub fn char_is_ascii_digit(c: char) -> (b: bool)
    ensures
        b == is_ascii_digit(c),
{
    '0' <= c && c <= '9'
}

/// Whether `c` is below U+0080.
pub fn char_is_ascii(c: char) -> (b: bool)
    ensures
        b == is_ascii(c),
{
    (c as u32) < 0x80
}

/// The lower-case form of a text, as `str::to_lowercase` gives it.
pub uninterp spec fn lowercased(s: Seq<char>) -> Seq<char>;

/// Lowers the case of a text with `str::to_lowercase`.
#[verifier::external_body]
pub(crate) fn to_lowercase(s: &str) -> (r: String)
    ensures
        r@ == lowercased(s@),
{
    s.to_lowercase()
}

/// Appends one character to a `String` with `String::push`, which adds the
/// character at the end and leaves the rest as it was.
#[verifier::external_body]
fn push_char(s: &mut String, c: char)
    ensures
        final(s)@ == old(s)@.push(c),
{
    s.push(c);
}

/// The characters of `s`, in order.
pub fn chars_of(s: &str) -> (v: Vec<char>)
    ensures
        v@ == s@,
{
    let n: usize = s.unicode_len();
    let mut v: Vec<char> = Vec::new();
    let mut i: usize = 0;
    while i < n
        invariant
            i <= n,
            n == s@.len(),
            v@ == s@.subrange(0, i as int),
        decreases n - i,
    {
        v.push(s.get_char(i));
        i = i + 1;
        assert(v@ =~= s@.subrange(0, i as int));
    }
    assert(s@.subrange(0, n as int) =~= s@);
    v
}

/// The text made of the characters of `v` from `from` up to `to`.
pub fn string_of(v: &Vec<char>, from: usize, to: usize) -> (s: String)
    requires
        from <= to <= v.len(),
    ensures
        s@ == v@.subrange(from as int, to as int),
{
    let mut s: String = String::new();
    let mut i: usize = from;
    while i < to
        invariant
            from <= i <= to <= v.len(),
            s@ == v@.subrange(from as int, i as int),
        decreases to - i,
    {
        push_char(&mut s, v[i]);
        i = i + 1;
        assert(s@ =~= v@.subrange(from as int, i as int));
    }
    s
}

/// The characters of `v` from `from` up to `to`.
pub fn slice_of(v: &Vec<char>, from: usize, to: usize) -> (r: Vec<char>)
    requires
        from <= to <= v.len(),
    ensures
        r@ == v@.subrange(from as int, to as int),
{
    let mut r: Vec<char> = Vec::new();
    let mut i: usize = from;
    while i < to
        invariant
            from <= i <= to <= v.len(),
            r@ == v@.subrange(from as int, i as int),
        decreases to - i,
    {
        r.push(v[i]);
        i = i + 1;
        assert(r@ =~= v@.subrange(from as int, i as int));
    }
    r
}

/// The first index at or after `from` whose character is `c`, or the
/// length of `s`.
pub fn index_of_char(s: &Vec<char>, c: char, from: usize) -> (r: usize)
    requires
        from <= s.len(),
    ensures
        r == find_char(s@, c, from as int),
        from <= r <= s.len(),
{
    let mut i: usize = from;
    while i < s.len() && s[i] != c
        invariant
            from <= i <= s.len(),
            find_char(s@, c, from as int) == find_char(s@, c, i as int),
        decreases s.len() - i,
    {
        i = i + 1;
    }
    i
}

/// The index of the last `c` below `to`, if there is one.
pub fn last_index_of_char(s: &Vec<char>, c: char, to: usize) -> (r: Option<usize>)
    requires
        to <= s.len(),
    ensures
        match r {
            Some(k) => k == rfind_char(s@, c, to as int) && k < to,
            None => rfind_char(s@, c, to as int) == -1,
        },
{
    let mut j: usize = to;
    while j > 0 && s[j - 1] != c
        invariant
            j <= to <= s.len(),
            rfind_char(s@, c, to as int) == rfind_char(s@, c, j as int),
        decreases j,
    {
        j = j - 1;
    }
    if j == 0 {
        None
    } else {
        Some(j - 1)
    }
}

/// The first index at or after `from` at which `c` stands twice in a row,
/// or the length of `s`.
pub fn index_of_double(s: &Vec<char>, c: char, from: usize) -> (r: usize)
    requires
        from <= s.len(),
    ensures
        r == find_double(s@, c, from as int),
        from <= r <= s.len(),
        r < s.len() ==> r + 1 < s.len(),
{
    let n: usize = s.len();
    let mut i: usize = from;
    while i < n && i + 1 < n && !(s[i] == c && s[i + 1] == c)
        invariant
            n == s.len(),
            from <= i <= n,
            find_double(s@, c, from as int) == find_double(s@, c, i as int),
        decreases n - i,
    {
        i = i + 1;
    }
    if i < n && i + 1 < n {
        i
    } else {
        n
    }
}

/// The first index at or after `from` whose character is not white space.
pub fn skip_whitespace_from(s: &Vec<char>, from: usize) -> (r: usize)
    requires
        from <= s.len(),
    ensures
        r == skip_whitespace(s@, from as int),
        from <= r <= s.len(),
{
    let mut i: usize = from;
    while i < s.len() && char_is_whitespace(s[i])
        invariant
            from <= i <= s.len(),
            skip_whitespace(s@, from as int) == skip_whitespace(s@, i as int),
        decreases s.len() - i,
    {
        i = i + 1;
    }
    i
}

/// The smallest end from `lo` on with only white space up to `to`.
pub fn skip_whitespace_back_from(s: &Vec<char>, lo: usize, to: usize) -> (r: usize)
    requires
        lo <= to <= s.len(),
    ensures
        r == skip_whitespace_back(s@, lo as int, to as int),
        lo <= r <= to,
{
    let mut j: usize = to;
    while j > lo && char_is_whitespace(s[j - 1])
        invariant
            lo <= j <= to <= s.len(),
            skip_whitespace_back(s@, lo as int, to as int) == skip_whitespace_back(
                s@,
                lo as int,
                j as int,
            ),
        decreases j,
    {
        j = j - 1;
    }
    j
}

/// The first index at or after `from` whose character is not `c`.
pub fn skip_char_from(s: &Vec<char>, c: char, from: usize) -> (r: usize)
    requires
        from <= s.len(),
    ensures
        r == skip_char(s@, c, from as int),
        from <= r <= s.len(),
{
    let mut i: usize = from;
    while i < s.len() && s[i] == c
        invariant
            from <= i <= s.len(),
            skip_char(s@, c, from as int) == skip_char(s@, c, i as int),
        decreases s.len() - i,
    {
        i = i + 1;
    }
    i
}

/// The smallest end with only `c` up to `to`.
pub fn skip_char_back_from(s: &Vec<char>, c: char, to: usize) -> (r: usize)
    requires
        to <= s.len(),
    ensures
        r == skip_char_back(s@, c, to as int),
        r <= to,
{
    let mut j: usize = to;
    while j > 0 && s[j - 1] == c
        invariant
            j <= to <= s.len(),
            skip_char_back(s@, c, to as int) == skip_char_back(s@, c, j as int),
        decreases j,
    {
        j = j - 1;
    }
    j
}

/// The first index at or after `from` whose character is not a digit.
pub fn skip_digits_from(s: &Vec<char>, from: usize) -> (r: usize)
    requires
        from <= s.len(),
    ensures
        r == skip_digits(s@, from as int),
        from <= r <= s.len(),
{
    let mut i: usize = from;
    while i < s.len() && char_is_ascii_digit(s[i])
        invariant
            from <= i <= s.len(),
            skip_digits(s@, from as int) == skip_digits(s@, i as int),
        decreases s.len() - i,
    {
        i = i + 1;
    }
    i
}

/// `s` without the white space at its two ends.
pub fn trimmed(s: &Vec<char>) -> (r: Vec<char>)
    ensures
        r@ == trim(s@),
{
    let a: usize = skip_whitespace_from(s, 0);
    let b: usize = skip_whitespace_back_from(s, a, s.len());
    slice_of(s, a, b)
}

/// `s` with every `from` replaced by `to`.
pub fn replaced(s: &Vec<char>, from: char, to: char) -> (r: Vec<char>)
    ensures
        r@ == replace_char(s@, from, to),
{
    let mut r: Vec<char> = Vec::new();
    let mut i: usize = 0;
    while i < s.len()
        invariant
            i <= s.len(),
            r@ == replace_char(s@, from, to).subrange(0, i as int),
        decreases s.len() - i,
    {
        let c: char = s[i];
        if c == from {
            r.push(to);
        } else {
            r.push(c);
        }
        i = i + 1;
        assert(r@ =~= replace_char(s@, from, to).subrange(0, i as int));
    }
    assert(replace_char(s@, from, to).subrange(0, s.len() as int) =~= replace_char(s@, from, to));
    r
}

/// Whether two texts hold the same characters.
pub fn chars_eq(a: &Vec<char>, b: &Vec<char>) -> (r: bool)
    ensures
        r == (a@ == b@),
{
    if a.len() != b.len() {
        return false;
    }
    let mut i: usize = 0;
    while i < a.len()
        invariant
            i <= a.len(),
            a.len() == b.len(),
            a@.subrange(0, i as int) == b@.subrange(0, i as int),
        decreases a.len() - i,
    {
        if a[i] != b[i] {
            return false;
        }
        i = i + 1;
        assert(a@.subrange(0, i as int) =~= a@.subrange(0, i - 1).push(a@[i - 1]));
        assert(b@.subrange(0, i as int) =~= b@.subrange(0, i - 1).push(b@[i - 1]));
    }
    assert(a@ =~= a@.subrange(0, a.len() as int));
    assert(b@ =~= b@.subrange(0, b.len() as int));
    true
}

/// Whether `v` holds the characters of `s`.
pub fn chars_are(v: &Vec<char>, s: &str) -> (r: bool)
    ensures
        r == (v@ == s@),
{
    let w: Vec<char> = chars_of(s);
    chars_eq(v, &w)
}

/// `a` followed by `b`.
pub fn concat(a: &str, b: &str) -> (r: String)
    ensures
        r@ == a@ + b@,
{
    let mut r: String = String::from_str(a);
    r.append(b);
    r
}

/// How `a` and `b` compare from position `i` on, read character by
/// character: -1 where `a` comes first, 1 where `b` does, 0 where they are
/// alike. A text comes before every text that it begins.
pub open spec fn text_order(a: Seq<char>, b: Seq<char>, i: int) -> int
    decreases a.len() - i,
{
    if i < 0 || (i >= a.len() && i >= b.len()) {
        0
    } else if i >= a.len() {
        -1
    } else if i >= b.len() {
        1
    } else if a[i] < b[i] {
        -1
    } else if a[i] > b[i] {
        1
    } else {
        text_order(a, b, i + 1)
    }
}

/// Whether `a` comes before `b` in the order of texts.
pub open spec fn text_less(a: Seq<char>, b: Seq<char>) -> bool {
    text_order(a, b, 0) < 0
}

/// Texts that compare alike from a position on are alike from there on.
pub proof fn lemma_text_order_alike(a: Seq<char>, b: Seq<char>, i: int)
    requires
        0 <= i,
        text_order(a, b, i) == 0,
    ensures
        i <= a.len() && i <= b.len() ==> a.len() == b.len(),
        forall|k: int| i <= k < a.len() && k < b.len() ==> a[k] == b[k],
    decreases a.len() - i,
{
    if i < a.len() && i < b.len() {
        lemma_text_order_alike(a, b, i + 1);
    }
}

/// Comparing the other way round gives the opposite.
pub proof fn lemma_text_order_opposite(a: Seq<char>, b: Seq<char>, i: int)
    requires
        0 <= i,
    ensures
        text_order(b, a, i) == -text_order(a, b, i),
    decreases a.len() - i,
{
    if i < a.len() && i < b.len() && a[i] == b[i] {
        lemma_text_order_opposite(a, b, i + 1);
    }
}

/// What comes before a text comes before everything behind that text.
pub proof fn lemma_text_order_chain(a: Seq<char>, b: Seq<char>, c: Seq<char>, i: int)
    requires
        0 <= i,
        text_order(a, b, i) < 0,
        text_order(b, c, i) < 0,
    ensures
        text_order(a, c, i) < 0,
    decreases a.len() - i,
{
    if i < a.len() && i < b.len() && i < c.len() && a[i] == b[i] && b[i] == c[i] {
        lemma_text_order_chain(a, b, c, i + 1);
    }
}

/// The order of texts is a strict total order: no text comes before
/// itself, of two different texts one comes before the other, and what
/// comes before a text comes before everything behind it.
pub proof fn lemma_text_less_is_an_order(a: Seq<char>, b: Seq<char>, c: Seq<char>)
    ensures
        !text_less(a, a),
        a != b ==> text_less(a, b) || text_less(b, a),
        !(text_less(a, b) && text_less(b, a)),
        text_less(a, b) && text_less(b, c) ==> text_less(a, c),
{
    lemma_text_order_opposite(a, a, 0);
    lemma_text_order_opposite(a, b, 0);
    if text_order(a, b, 0) == 0 {
        lemma_text_order_alike(a, b, 0);
        assert(a =~= b);
    }
    if text_less(a, b) && text_less(b, c) {
        lemma_text_order_chain(a, b, c, 0);
    }
}

/// Compares two texts character by character.
pub fn compare_texts(a: &str, b: &str) -> (r: i8)
    ensures
        r == text_order(a@, b@, 0),
{
    let x: Vec<char> = chars_of(a);
    let y: Vec<char> = chars_of(b);
    let mut i: usize = 0;
    while i < x.len() && i < y.len()
        invariant
            i <= x.len(),
            i <= y.len(),
            x@ == a@,
            y@ == b@,
            text_order(a@, b@, 0) == text_order(a@, b@, i as int),
        decreases x.len() - i,
    {
        if x[i] < y[i] {
            return -1;
        }
        if x[i] > y[i] {
            return 1;
        }
        i = i + 1;
    }
    if i < y.len() {
        -1
    } else if i < x.len() {
        1
    } else {
        0
    }
}

} // verus!
