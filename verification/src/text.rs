//! Text as sequences of characters: white space, tokens, fields, lines and
//! decimal numbers.
//!
//! Every format this crate reads is line- or field-oriented, so the models
//! here are stated over `Seq<char>` and the executable functions work on
//! `Vec<char>`; `String` only appears at the boundary.
use vstd::prelude::*;

verus! {

/// The Unicode `White_Space` property.
pub open spec fn is_space(c: char) -> bool {
    let n = c as u32;
    ||| 0x09 <= n <= 0x0D
    ||| n == 0x20
    ||| n == 0x85
    ||| n == 0xA0
    ||| n == 0x1680
    ||| 0x2000 <= n <= 0x200A
    ||| n == 0x2028
    ||| n == 0x2029
    ||| n == 0x202F
    ||| n == 0x205F
    ||| n == 0x3000
}

/// Index of the first character at or after `i` that is not white space, or
/// `s.len()` when there is none.
pub open spec fn skip_spaces(s: Seq<char>, i: int) -> int
    decreases s.len() - i,
{
    if 0 <= i < s.len() && is_space(s[i]) {
        skip_spaces(s, i + 1)
    } else {
        i
    }
}

/// Index of the first white space character at or after `i`, or `s.len()`
/// when there is none.
pub open spec fn skip_word(s: Seq<char>, i: int) -> int
    decreases s.len() - i,
{
    if 0 <= i < s.len() && !is_space(s[i]) {
        skip_word(s, i + 1)
    } else {
        i
    }
}

/// One past the last character before `j` that is not white space, or 0 when
/// there is none.
pub open spec fn back_spaces(s: Seq<char>, j: int) -> int
    decreases j,
{
    if 0 < j <= s.len() && is_space(s[j - 1]) {
        back_spaces(s, j - 1)
    } else {
        j
    }
}

/// `s` without its leading and trailing white space.
pub open spec fn trimmed(s: Seq<char>) -> Seq<char> {
    let a = skip_spaces(s, 0);
    let b = back_spaces(s, s.len() as int);
    if a < b {
        s.subrange(a, b)
    } else {
        Seq::empty()
    }
}

/// A line that holds nothing but white space.
pub open spec fn is_blank(s: Seq<char>) -> bool {
    trimmed(s).len() == 0
}

/// The second white-space-delimited token of `s`, if it has two.
pub open spec fn second_word(s: Seq<char>) -> Option<Seq<char>> {
    let first = skip_spaces(s, 0);
    let gap = skip_word(s, first);
    let second = skip_spaces(s, gap);
    if second < s.len() {
        Some(s.subrange(second, skip_word(s, second)))
    } else {
        None
    }
}

/// The last white-space-delimited token of `s`, if it has one.
pub open spec fn last_word(s: Seq<char>) -> Option<Seq<char>> {
    let end = back_spaces(s, s.len() as int);
    if end > 0 {
        Some(s.subrange(back_word(s, end), end))
    } else {
        None
    }
}

/// Start of the run of non-space characters that ends just before `j`.
pub open spec fn back_word(s: Seq<char>, j: int) -> int
    decreases j,
{
    if 0 < j <= s.len() && !is_space(s[j - 1]) {
        back_word(s, j - 1)
    } else {
        j
    }
}

/// The fields of `s` between occurrences of `sep`. There is always at least
/// one field; two separators in a row enclose an empty field.
pub open spec fn split(s: Seq<char>, sep: char) -> Seq<Seq<char>>
    decreases s.len(),
{
    if s.len() == 0 {
        seq![Seq::empty()]
    } else {
        let before = split(s.drop_last(), sep);
        if s.last() == sep {
            before.push(Seq::empty())
        } else {
            before.drop_last().push(before.last().push(s.last()))
        }
    }
}

/// `s` without one trailing carriage return.
pub open spec fn strip_cr(s: Seq<char>) -> Seq<char> {
    if s.len() > 0 && s.last() == '\r' {
        s.drop_last()
    } else {
        s
    }
}

/// The lines of a text. A line ends at `\n`; a `\r` just before that `\n`
/// belongs to the line ending. Text after the last `\n` is a line of its own
/// unless it is empty.
pub open spec fn lines_of(s: Seq<char>) -> Seq<Seq<char>> {
    let fields = split(s, '\n');
    let closed = fields.drop_last().map_values(|l: Seq<char>| strip_cr(l));
    if fields.last().len() > 0 {
        closed.push(fields.last())
    } else {
        closed
    }
}

/// Every line followed by a line feed.
pub open spec fn joined(lines: Seq<Seq<char>>) -> Seq<char>
    decreases lines.len(),
{
    if lines.len() == 0 {
        Seq::empty()
    } else {
        joined(lines.drop_last()) + lines.last() + seq!['\n']
    }
}

/// The text of a file with these lines: the lines separated by line feeds,
/// and one line feed at the end.
pub open spec fn content_of(lines: Seq<Seq<char>>) -> Seq<char> {
    if lines.len() == 0 {
        seq!['\n']
    } else {
        joined(lines)
    }
}

/// The views of a sequence of strings.
pub open spec fn texts(v: Seq<String>) -> Seq<Seq<char>> {
    v.map_values(|s: String| s@)
}

/// The views of a sequence of pairs of strings.
pub open spec fn pair_texts(v: Seq<(String, String)>) -> Seq<(Seq<char>, Seq<char>)> {
    v.map_values(|p: (String, String)| (p.0@, p.1@))
}

pub open spec fn is_digit(c: char) -> bool {
    '0' <= c <= '9'
}

pub open spec fn all_digits(s: Seq<char>) -> bool {
    forall|i: int| 0 <= i < s.len() ==> is_digit(#[trigger] s[i])
}

/// The number that a string of decimal digits denotes.
pub open spec fn decimal_value(s: Seq<char>) -> nat
    decreases s.len(),
{
    if s.len() == 0 {
        0
    } else {
        (decimal_value(s.drop_last()) * 10 + (s.last() as u32 - '0' as u32)) as nat
    }
}

/// An unsigned decimal number as the standard integer parsers read it: an
/// optional `+`, then at least one digit, nothing else.
pub open spec fn unsigned_value(s: Seq<char>) -> Option<nat> {
    let digits = if s.len() > 0 && s[0] == '+' {
        s.drop_first()
    } else {
        s
    };
    if digits.len() > 0 && all_digits(digits) {
        Some(decimal_value(digits))
    } else {
        None
    }
}

/// A port number in decimal; `None` for anything that is not a number of at
/// most 65535.
pub open spec fn port_value(s: Seq<char>) -> Option<u16> {
    match unsigned_value(s) {
        Some(n) => if n <= u16::MAX {
            Some(n as u16)
        } else {
            None
        },
        None => None,
    }
}

/// The decimal digits of `n`, without leading zeros.
pub open spec fn decimal_text(n: nat) -> Seq<char>
    decreases n,
{
    if n < 10 {
        seq![digit_char(n)]
    } else {
        decimal_text(n / 10).push(digit_char(n % 10))
    }
}

pub open spec fn digit_char(d: nat) -> char {
    if d == 0 {
        '0'
    } else if d == 1 {
        '1'
    } else if d == 2 {
        '2'
    } else if d == 3 {
        '3'
    } else if d == 4 {
        '4'
    } else if d == 5 {
        '5'
    } else if d == 6 {
        '6'
    } else if d == 7 {
        '7'
    } else if d == 8 {
        '8'
    } else {
        '9'
    }
}

/// Lexicographic order of two texts by code point.
pub open spec fn text_less(a: Seq<char>, b: Seq<char>) -> bool
    decreases a.len(),
{
    if b.len() == 0 {
        false
    } else if a.len() == 0 {
        true
    } else if a[0] != b[0] {
        a[0] < b[0]
    } else {
        text_less(a.drop_first(), b.drop_first())
    }
}

// ---------------------------------------------------------------------------
// Facts about the scanning functions
// ---------------------------------------------------------------------------

pub proof fn lemma_skip_spaces(s: Seq<char>, i: int)
    requires
        0 <= i <= s.len(),
    ensures
        i <= skip_spaces(s, i) <= s.len(),
        forall|k: int| i <= k < skip_spaces(s, i) ==> is_space(#[trigger] s[k]),
        skip_spaces(s, i) < s.len() ==> !is_space(s[skip_spaces(s, i)]),
    decreases s.len() - i,
{
    if i < s.len() && is_space(s[i]) {
        lemma_skip_spaces(s, i + 1);
    }
}

pub proof fn lemma_skip_word(s: Seq<char>, i: int)
    requires
        0 <= i <= s.len(),
    ensures
        i <= skip_word(s, i) <= s.len(),
        forall|k: int| i <= k < skip_word(s, i) ==> !is_space(#[trigger] s[k]),
        skip_word(s, i) < s.len() ==> is_space(s[skip_word(s, i)]),
    decreases s.len() - i,
{
    if i < s.len() && !is_space(s[i]) {
        lemma_skip_word(s, i + 1);
    }
}

pub proof fn lemma_back_spaces(s: Seq<char>, j: int)
    requires
        0 <= j <= s.len(),
    ensures
        0 <= back_spaces(s, j) <= j,
        forall|k: int| back_spaces(s, j) <= k < j ==> is_space(#[trigger] s[k]),
        back_spaces(s, j) > 0 ==> !is_space(s[back_spaces(s, j) - 1]),
    decreases j,
{
    if 0 < j && is_space(s[j - 1]) {
        lemma_back_spaces(s, j - 1);
    }
}

pub proof fn lemma_back_word(s: Seq<char>, j: int)
    requires
        0 <= j <= s.len(),
    ensures
        0 <= back_word(s, j) <= j,
        forall|k: int| back_word(s, j) <= k < j ==> !is_space(#[trigger] s[k]),
        back_word(s, j) > 0 ==> is_space(s[back_word(s, j) - 1]),
    decreases j,
{
    if 0 < j && !is_space(s[j - 1]) {
        lemma_back_word(s, j - 1);
    }
}

/// A run of white space from `i` to `j` that stops at a visible character (or
/// at the end) is what `skip_spaces` finds.
pub proof fn lemma_skip_spaces_to(s: Seq<char>, i: int, j: int)
    requires
        0 <= i <= j <= s.len(),
        forall|k: int| i <= k < j ==> is_space(#[trigger] s[k]),
        j < s.len() ==> !is_space(s[j]),
    ensures
        skip_spaces(s, i) == j,
    decreases j - i,
{
    if i < j {
        lemma_skip_spaces_to(s, i + 1, j);
    }
}

pub proof fn lemma_skip_word_to(s: Seq<char>, i: int, j: int)
    requires
        0 <= i <= j <= s.len(),
        forall|k: int| i <= k < j ==> !is_space(#[trigger] s[k]),
        j < s.len() ==> is_space(s[j]),
    ensures
        skip_word(s, i) == j,
    decreases j - i,
{
    if i < j {
        lemma_skip_word_to(s, i + 1, j);
    }
}

/// Text that starts and ends with a visible character is its own trimmed
/// form.
pub proof fn lemma_trimmed_identity(s: Seq<char>)
    requires
        s.len() > 0,
        !is_space(s[0]),
        !is_space(s.last()),
    ensures
        trimmed(s) == s,
{
    assert(s.subrange(0, s.len() as int) =~= s);
}


// ---------------------------------------------------------------------------
// Executable counterparts
// ---------------------------------------------------------------------------

/// The views of a sequence of character vectors.
pub open spec fn rows(v: Seq<Vec<char>>) -> Seq<Seq<char>> {
    v.map_values(|r: Vec<char>| r@)
}

/// `String::push` of the standard library: appends the character `c` to the
/// end of `s` and changes nothing else.
#[verifier::external_body]
fn push_char(s: &mut String, c: char)
    ensures
        final(s)@ == old(s)@.push(c),
{
    s.push(c)
}

/// The characters of a string slice.
pub fn chars_of(s: &str) -> (v: Vec<char>)
    ensures
        v@ == s@,
{
    broadcast use vstd::string::group_string_axioms;

    let mut v: Vec<char> = Vec::new();
    let chars = s.chars();
    for c in it: chars
        invariant
            it.seq() == s@,
            v@ == s@.subrange(0, it.index() as int),
    {
        v.push(c);
    }
    assert(v@ == s@.subrange(0, s@.len() as int));
    v
}

/// The string made of these characters.
pub fn string_of(chars: &Vec<char>) -> (s: String)
    ensures
        s@ == chars@,
{
    let mut s = String::new();
    let mut i: usize = 0;
    while i < chars.len()
        invariant
            i <= chars.len(),
            s@ == chars@.subrange(0, i as int),
        decreases chars.len() - i,
    {
        push_char(&mut s, chars[i]);
        i += 1;
    }
    assert(chars@.subrange(0, chars.len() as int) == chars@);
    s
}

pub fn is_whitespace(c: char) -> (r: bool)
    ensures
        r == is_space(c),
{
    let n: u32 = c as u32;
    (0x09 <= n && n <= 0x0D) || n == 0x20 || n == 0x85 || n == 0xA0 || n == 0x1680 || (0x2000 <= n
        && n <= 0x200A) || n == 0x2028 || n == 0x2029 || n == 0x202F || n == 0x205F || n == 0x3000
}

pub fn scan_spaces(s: &Vec<char>, from: usize) -> (r: usize)
    requires
        from <= s.len(),
    ensures
        r == skip_spaces(s@, from as int),
        from <= r <= s.len(),
{
    let mut i: usize = from;
    while i < s.len() && is_whitespace(s[i])
        invariant
            from <= i <= s.len(),
            skip_spaces(s@, i as int) == skip_spaces(s@, from as int),
        decreases s.len() - i,
    {
        i += 1;
    }
    i
}

pub fn scan_word(s: &Vec<char>, from: usize) -> (r: usize)
    requires
        from <= s.len(),
    ensures
        r == skip_word(s@, from as int),
        from <= r <= s.len(),
{
    let mut i: usize = from;
    while i < s.len() && !is_whitespace(s[i])
        invariant
            from <= i <= s.len(),
            skip_word(s@, i as int) == skip_word(s@, from as int),
        decreases s.len() - i,
    {
        i += 1;
    }
    i
}

pub fn scan_back_spaces(s: &Vec<char>, to: usize) -> (r: usize)
    requires
        to <= s.len(),
    ensures
        r == back_spaces(s@, to as int),
        r <= to,
{
    let mut j: usize = to;
    while j > 0 && is_whitespace(s[j - 1])
        invariant
            j <= to <= s.len(),
            back_spaces(s@, j as int) == back_spaces(s@, to as int),
        decreases j,
    {
        j -= 1;
    }
    j
}

pub fn scan_back_word(s: &Vec<char>, to: usize) -> (r: usize)
    requires
        to <= s.len(),
    ensures
        r == back_word(s@, to as int),
        r <= to,
{
    let mut j: usize = to;
    while j > 0 && !is_whitespace(s[j - 1])
        invariant
            j <= to <= s.len(),
            back_word(s@, j as int) == back_word(s@, to as int),
        decreases j,
    {
        j -= 1;
    }
    j
}

/// A copy of the characters from `a` up to `b`.
pub fn slice_of(s: &Vec<char>, a: usize, b: usize) -> (r: Vec<char>)
    requires
        a <= b <= s.len(),
    ensures
        r@ == s@.subrange(a as int, b as int),
{
    let mut r: Vec<char> = Vec::new();
    let mut i: usize = a;
    while i < b
        invariant
            a <= i <= b <= s.len(),
            r@ == s@.subrange(a as int, i as int),
        decreases b - i,
    {
        r.push(s[i]);
        i += 1;
    }
    r
}

/// Appends the characters of `other` to `s`.
pub fn extend_chars(s: &mut Vec<char>, other: &Vec<char>)
    ensures
        final(s)@ == old(s)@ + other@,
{
    let mut i: usize = 0;
    while i < other.len()
        invariant
            i <= other.len(),
            s@ == old(s)@ + other@.subrange(0, i as int),
        decreases other.len() - i,
    {
        s.push(other[i]);
        i += 1;
    }
    assert(other@.subrange(0, other.len() as int) == other@);
}

/// Appends the characters of `text` to `out`.
pub fn push_str(out: &mut Vec<char>, text: &str)
    ensures
        final(out)@ == old(out)@ + text@,
{
    extend_chars(out, &chars_of(text));
}

pub fn trim(s: &Vec<char>) -> (r: Vec<char>)
    ensures
        r@ == trimmed(s@),
{
    let a = scan_spaces(s, 0);
    let b = scan_back_spaces(s, s.len());
    if a < b {
        slice_of(s, a, b)
    } else {
        Vec::new()
    }
}

pub fn same_text(a: &Vec<char>, b: &Vec<char>) -> (r: bool)
    ensures
        r == (a@ == b@),
{
    if a.len() != b.len() {
        return false;
    }
    let mut i: usize = 0;
    while i < a.len()
        invariant
            i <= a.len(),
            a.len() == b.len(),
            forall|k: int| 0 <= k < i ==> a@[k] == b@[k],
        decreases a.len() - i,
    {
        if a[i] != b[i] {
            return false;
        }
        i += 1;
    }
    assert(a@ =~= b@);
    true
}

pub fn has_prefix(s: &Vec<char>, prefix: &Vec<char>) -> (r: bool)
    ensures
        r == prefix@.is_prefix_of(s@),
{
    if prefix.len() > s.len() {
        return false;
    }
    let mut i: usize = 0;
    while i < prefix.len()
        invariant
            i <= prefix.len() <= s.len(),
            forall|k: int| 0 <= k < i ==> s@[k] == prefix@[k],
        decreases prefix.len() - i,
    {
        if s[i] != prefix[i] {
            assert(s@.subrange(0, prefix@.len() as int)[i as int] != prefix@[i as int]);
            return false;
        }
        i += 1;
    }
    assert(s@.subrange(0, prefix@.len() as int) =~= prefix@);
    true
}

pub fn second_token(s: &Vec<char>) -> (r: Option<Vec<char>>)
    ensures
        match r {
            Some(w) => second_word(s@) == Some(w@),
            None => second_word(s@) is None,
        },
{
    let first = scan_spaces(s, 0);
    let gap = scan_word(s, first);
    let second = scan_spaces(s, gap);
    if second < s.len() {
        let end = scan_word(s, second);
        Some(slice_of(s, second, end))
    } else {
        None
    }
}

pub fn last_token(s: &Vec<char>) -> (r: Option<Vec<char>>)
    ensures
        match r {
            Some(w) => last_word(s@) == Some(w@),
            None => last_word(s@) is None,
        },
{
    let end = scan_back_spaces(s, s.len());
    if end > 0 {
        let start = scan_back_word(s, end);
        Some(slice_of(s, start, end))
    } else {
        None
    }
}

pub fn split_fields(s: &Vec<char>, sep: char) -> (fields: Vec<Vec<char>>)
    ensures
        rows(fields@) == split(s@, sep),
        fields.len() >= 1,
{
    let mut fields: Vec<Vec<char>> = Vec::new();
    let mut current: Vec<char> = Vec::new();
    let mut i: usize = 0;
    while i < s.len()
        invariant
            i <= s.len(),
            rows(fields@).push(current@) == split(s@.subrange(0, i as int), sep),
        decreases s.len() - i,
    {
        let c = s[i];
        proof {
            let q = s@.subrange(0, i + 1);
            assert(q.drop_last() == s@.subrange(0, i as int));
            assert(q.last() == c);
            let before = rows(fields@).push(current@);
            assert(before.drop_last() == rows(fields@));
            assert(rows(fields@.push(current)) == before);
        }
        if c == sep {
            fields.push(current);
            current = Vec::new();
        } else {
            current.push(c);
        }
        i += 1;
    }
    proof {
        assert(s@.subrange(0, s.len() as int) == s@);
        assert(rows(fields@.push(current)) == rows(fields@).push(current@));
    }
    fields.push(current);
    fields
}

pub fn split_lines(s: &Vec<char>) -> (lines: Vec<String>)
    ensures
        texts(lines@) == lines_of(s@),
{
    let fields = split_fields(s, '\n');
    let ghost closed = rows(fields@).drop_last().map_values(|l: Seq<char>| strip_cr(l));
    let mut lines: Vec<String> = Vec::new();
    let last = fields.len() - 1;
    let mut k: usize = 0;
    while k < last
        invariant
            k <= last,
            last == fields.len() - 1,
            closed == rows(fields@).drop_last().map_values(|l: Seq<char>| strip_cr(l)),
            texts(lines@) == closed.subrange(0, k as int),
        decreases last - k,
    {
        let field = &fields[k];
        let n = field.len();
        let line = if n > 0 && field[n - 1] == '\r' {
            string_of(&slice_of(field, 0, n - 1))
        } else {
            string_of(field)
        };
        proof {
            assert(line@ == strip_cr(field@));
            assert(rows(fields@).drop_last()[k as int] == field@);
            assert(closed[k as int] == line@);
            assert(texts(lines@.push(line)) =~= texts(lines@).push(line@));
            assert(closed.subrange(0, k + 1) =~= closed.subrange(0, k as int).push(line@));
        }
        lines.push(line);
        k += 1;
    }
    assert(closed.subrange(0, last as int) == closed);
    if fields[last].len() > 0 {
        let line = string_of(&fields[last]);
        assert(texts(lines@.push(line)) =~= texts(lines@).push(line@));
        lines.push(line);
    }
    lines
}

pub fn join_lines(lines: &Vec<String>) -> (out: String)
    ensures
        out@ == content_of(texts(lines@)),
{
    let mut out = String::new();
    if lines.len() == 0 {
        push_char(&mut out, '\n');
        assert(out@ == seq!['\n']);
        return out;
    }
    let mut k: usize = 0;
    while k < lines.len()
        invariant
            k <= lines.len(),
            out@ == joined(texts(lines@).subrange(0, k as int)),
        decreases lines.len() - k,
    {
        proof {
            let next = texts(lines@).subrange(0, k + 1);
            assert(next.drop_last() == texts(lines@).subrange(0, k as int));
            assert(next.last() == lines@[k as int]@);
        }
        out.append(lines[k].as_str());
        push_char(&mut out, '\n');
        k += 1;
    }
    assert(texts(lines@).subrange(0, lines.len() as int) == texts(lines@));
    out
}

/// The value of a string of digits never drops when digits are added.
pub proof fn lemma_decimal_prefix(s: Seq<char>, k: int)
    requires
        0 <= k <= s.len(),
        all_digits(s),
    ensures
        decimal_value(s.subrange(0, k)) <= decimal_value(s),
    decreases s.len() - k,
{
    if k < s.len() {
        let p = s.subrange(0, k + 1);
        assert(p.drop_last() == s.subrange(0, k));
        assert(is_digit(s[k]));
        lemma_decimal_prefix(s, k + 1);
    } else {
        assert(s.subrange(0, k) == s);
    }
}

/// Reads an unsigned decimal number of at most `limit`.
pub fn parse_decimal(s: &Vec<char>, limit: u64) -> (r: Option<u64>)
    ensures
        r == match unsigned_value(s@) {
            Some(n) => if n <= limit {
                Some(n as u64)
            } else {
                None
            },
            None => None,
        },
{
    let start: usize = if s.len() > 0 && s[0] == '+' {
        1
    } else {
        0
    };
    let ghost digits = if start == 1 {
        s@.drop_first()
    } else {
        s@
    };
    if start == s.len() {
        return None;
    }
    let mut acc: u64 = 0;
    let mut i: usize = start;
    assert(digits == s@.subrange(start as int, s.len() as int));
    while i < s.len()
        invariant
            start <= i <= s.len(),
            digits == s@.subrange(start as int, s.len() as int),
            digits == if s@.len() > 0 && s@[0] == '+' {
                s@.drop_first()
            } else {
                s@
            },
            all_digits(digits.subrange(0, i - start)),
            acc == decimal_value(digits.subrange(0, i - start)),
            acc <= limit,
        decreases s.len() - i,
    {
        let c = s[i];
        let ghost seen = digits.subrange(0, i - start + 1);
        proof {
            assert(seen.drop_last() == digits.subrange(0, i - start));
            assert(seen.last() == c);
            assert(digits[i - start] == c);
        }
        if !('0' <= c && c <= '9') {
            return None;
        }
        let d: u64 = (c as u32 - '0' as u32) as u64;
        if d > limit || acc > (limit - d) / 10 {
            proof {
                if all_digits(digits) {
                    lemma_decimal_prefix(digits, i - start + 1);
                }
            }
            return None;
        }
        acc = acc * 10 + d;
        proof {
            assert forall|k: int| 0 <= k < seen.len() implies is_digit(#[trigger] seen[k]) by {
                if k < seen.len() - 1 {
                    assert(seen[k] == digits.subrange(0, i - start)[k]);
                }
            }
        }
        i += 1;
    }
    assert(digits.subrange(0, s.len() - start) == digits);
    Some(acc)
}

pub fn parse_port(s: &Vec<char>) -> (r: Option<u16>)
    ensures
        r == port_value(s@),
{
    match parse_decimal(s, 65535) {
        Some(n) => Some(n as u16),
        None => None,
    }
}

fn digit_of(d: u64) -> (c: char)
    requires
        d < 10,
    ensures
        c == digit_char(d as nat),
{
    if d == 0 {
        '0'
    } else if d == 1 {
        '1'
    } else if d == 2 {
        '2'
    } else if d == 3 {
        '3'
    } else if d == 4 {
        '4'
    } else if d == 5 {
        '5'
    } else if d == 6 {
        '6'
    } else if d == 7 {
        '7'
    } else if d == 8 {
        '8'
    } else {
        '9'
    }
}

/// The decimal digits of `n`.
pub fn decimal_chars(n: u64) -> (r: Vec<char>)
    ensures
        r@ == decimal_text(n as nat),
    decreases n,
{
    if n < 10 {
        let mut r: Vec<char> = Vec::new();
        r.push(digit_of(n));
        r
    } else {
        let mut r = decimal_chars(n / 10);
        r.push(digit_of(n % 10));
        r
    }
}

pub fn text_lt(a: &Vec<char>, b: &Vec<char>) -> (r: bool)
    ensures
        r == text_less(a@, b@),
{
    let mut i: usize = 0;
    assert(a@.subrange(0, a.len() as int) == a@ && b@.subrange(0, b.len() as int) == b@);
    while i < a.len() && i < b.len()
        invariant
            i <= a.len(),
            i <= b.len(),
            text_less(a@, b@) == text_less(
                a@.subrange(i as int, a.len() as int),
                b@.subrange(i as int, b.len() as int),
            ),
        decreases a.len() - i,
    {
        proof {
            let x = a@.subrange(i as int, a.len() as int);
            let y = b@.subrange(i as int, b.len() as int);
            assert(x.drop_first() == a@.subrange(i + 1, a.len() as int));
            assert(y.drop_first() == b@.subrange(i + 1, b.len() as int));
            assert(x[0] == a@[i as int] && y[0] == b@[i as int]);
        }
        if a[i] != b[i] {
            return a[i] < b[i];
        }
        i += 1;
    }
    i < b.len()
}

// ---------------------------------------------------------------------------
// Splitting what was joined
// ---------------------------------------------------------------------------

/// The character `c` does not occur in `s`.
pub open spec fn no_char(s: Seq<char>, c: char) -> bool {
    forall|i: int| 0 <= i < s.len() ==> #[trigger] s[i] != c
}

/// No line holds a line feed.
pub open spec fn single_lines(lines: Seq<Seq<char>>) -> bool {
    forall|i: int| 0 <= i < lines.len() ==> no_char(#[trigger] lines[i], '\n')
}

pub proof fn lemma_split_nonempty(s: Seq<char>, sep: char)
    ensures
        split(s, sep).len() >= 1,
    decreases s.len(),
{
    if s.len() > 0 {
        lemma_split_nonempty(s.drop_last(), sep);
    }
}

/// Text without a separator, appended, extends the last field.
pub proof fn lemma_split_append(a: Seq<char>, b: Seq<char>, sep: char)
    requires
        no_char(b, sep),
    ensures
        split(a, sep).len() >= 1,
        split(a + b, sep) == split(a, sep).drop_last().push(split(a, sep).last() + b),
    decreases b.len(),
{
    lemma_split_nonempty(a, sep);
    let fields = split(a, sep);
    if b.len() == 0 {
        assert(a + b =~= a);
        assert(fields.last() + b =~= fields.last());
        assert(fields.drop_last().push(fields.last()) =~= fields);
    } else {
        let front = b.drop_last();
        assert(no_char(front, sep)) by {
            assert forall|i: int| 0 <= i < front.len() implies #[trigger] front[i] != sep by {
                assert(front[i] == b[i]);
            }
        }
        lemma_split_append(a, front, sep);
        assert((a + b).drop_last() =~= a + front);
        assert((a + b).last() == b.last());
        assert(b.last() == b[b.len() - 1]);
        let before = split(a + front, sep);
        assert(before.drop_last() =~= fields.drop_last());
        assert(before.last() == fields.last() + front);
        assert((fields.last() + front).push(b.last()) =~= fields.last() + b);
    }
}

/// A separator, appended, opens a new and empty field.
pub proof fn lemma_split_separator(a: Seq<char>, sep: char)
    ensures
        split(a + seq![sep], sep) == split(a, sep).push(Seq::empty()),
{
    let s = a + seq![sep];
    assert(s.drop_last() =~= a);
    assert(s.last() == sep);
}

/// Text without a separator is one field.
pub proof fn lemma_split_one(a: Seq<char>, sep: char)
    requires
        no_char(a, sep),
    ensures
        split(a, sep) == seq![a],
{
    let none = Seq::<char>::empty();
    lemma_split_append(none, a, sep);
    assert(none + a =~= a);
    assert(split(none, sep) =~= seq![none]);
    assert(split(none, sep).drop_last().push(split(none, sep).last() + a) =~= seq![a]);
}

/// Two texts without a separator, joined by one, are two fields.
pub proof fn lemma_split_two(a: Seq<char>, b: Seq<char>, sep: char)
    requires
        no_char(a, sep),
        no_char(b, sep),
    ensures
        split(a + seq![sep] + b, sep) == seq![a, b],
{
    lemma_split_one(a, sep);
    lemma_split_separator(a, sep);
    lemma_split_append(a + seq![sep], b, sep);
    let head = split(a + seq![sep], sep);
    assert(head =~= seq![a, Seq::<char>::empty()]);
    assert(head.last() + b =~= b);
    assert(head.drop_last().push(head.last() + b) =~= seq![a, b]);
}

/// Three texts without a separator, joined by two, are three fields.
pub proof fn lemma_split_three(a: Seq<char>, b: Seq<char>, c: Seq<char>, sep: char)
    requires
        no_char(a, sep),
        no_char(b, sep),
        no_char(c, sep),
    ensures
        split(a + seq![sep] + b + seq![sep] + c, sep) == seq![a, b, c],
{
    lemma_split_two(a, b, sep);
    let ab = a + seq![sep] + b;
    lemma_split_separator(ab, sep);
    lemma_split_append(ab + seq![sep], c, sep);
    let head = split(ab + seq![sep], sep);
    assert(head =~= seq![a, b, Seq::<char>::empty()]);
    assert(head.last() + c =~= c);
    assert(head.drop_last().push(head.last() + c) =~= seq![a, b, c]);
}

/// A number holds no character that is not a digit or a plus sign.
pub proof fn lemma_number_has_no(s: Seq<char>, c: char)
    requires
        unsigned_value(s) is Some,
        !is_digit(c),
        c != '+',
    ensures
        no_char(s, c),
{
    assert forall|i: int| 0 <= i < s.len() implies #[trigger] s[i] != c by {
        if s[0] == '+' {
            if i > 0 {
                assert(s.drop_first()[i - 1] == s[i]);
            }
        }
    }
}

/// No field holds the separator.
pub proof fn lemma_split_fields(s: Seq<char>, sep: char)
    ensures
        split(s, sep).len() >= 1,
        forall|i: int| 0 <= i < split(s, sep).len() ==> no_char(#[trigger] split(s, sep)[i], sep),
    decreases s.len(),
{
    if s.len() > 0 {
        lemma_split_fields(s.drop_last(), sep);
        let before = split(s.drop_last(), sep);
        let fields = split(s, sep);
        assert forall|i: int| 0 <= i < fields.len() implies no_char(#[trigger] fields[i], sep) by {
            if s.last() == sep {
                if i < before.len() {
                    assert(fields[i] == before[i]);
                }
            } else {
                if i < before.len() - 1 {
                    assert(fields[i] == before[i]);
                } else {
                    assert(no_char(before.last(), sep));
                    assert(fields[i] == before.last().push(s.last()));
                    assert forall|k: int| 0 <= k < fields[i].len() implies #[trigger] fields[i][k]
                        != sep by {
                        if k < before.last().len() {
                            assert(fields[i][k] == before.last()[k]);
                        }
                    }
                }
            }
        }
    }
}

/// Splitting joined lines at the line feeds gives the lines back, and one
/// empty field after the last line feed.
pub proof fn lemma_split_joined(lines: Seq<Seq<char>>)
    requires
        single_lines(lines),
    ensures
        split(joined(lines), '\n') == lines.push(Seq::empty()),
    decreases lines.len(),
{
    if lines.len() == 0 {
        assert(split(joined(lines), '\n') =~= lines.push(Seq::empty()));
    } else {
        let front = lines.drop_last();
        let last = lines.last();
        assert(single_lines(front)) by {
            assert forall|i: int| 0 <= i < front.len() implies no_char(#[trigger] front[i], '\n') by {
                assert(front[i] == lines[i]);
            }
        }
        assert(no_char(last, '\n')) by {
            assert(last == lines[lines.len() - 1]);
        }
        lemma_split_joined(front);
        lemma_split_append(joined(front), last, '\n');
        lemma_split_separator(joined(front) + last, '\n');
        let fields = split(joined(front), '\n');
        assert(fields.drop_last() =~= front);
        assert(fields.last() + last =~= last);
        assert(front.push(last) =~= lines);
    }
}

/// Reading the lines of a written file gives the lines that were written,
/// each without one trailing carriage return.
pub proof fn lemma_lines_of_content(lines: Seq<Seq<char>>)
    requires
        lines.len() > 0,
        single_lines(lines),
    ensures
        lines_of(content_of(lines)) == lines.map_values(|l: Seq<char>| strip_cr(l)),
{
    lemma_split_joined(lines);
    let fields = split(joined(lines), '\n');
    assert(fields.drop_last() =~= lines);
}

/// No line of a text holds a line feed.
pub proof fn lemma_lines_are_single(s: Seq<char>)
    ensures
        single_lines(lines_of(s)),
{
    lemma_split_fields(s, '\n');
    let fields = split(s, '\n');
    let lines = lines_of(s);
    assert forall|i: int| 0 <= i < lines.len() implies no_char(#[trigger] lines[i], '\n') by {
        if i < fields.len() - 1 {
            let raw = fields[i];
            assert(fields.drop_last()[i] == raw);
            assert(lines[i] == strip_cr(raw));
            assert(no_char(raw, '\n'));
            assert forall|k: int| 0 <= k < lines[i].len() implies #[trigger] lines[i][k] != '\n' by {
                assert(lines[i][k] == raw[k]);
            }
        } else {
            assert(lines[i] == fields.last());
            assert(fields.last() == fields[fields.len() - 1]);
        }
    }
}

} // verus!
