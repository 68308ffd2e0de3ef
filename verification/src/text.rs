//! Character-level building blocks shared by the scanners: Unicode white
//! space, trimming, positions of characters, line splitting and decimal
//! numerals, each with its mathematical model over `Seq<char>`.

use vstd::prelude::*;

verus! {

/// The code points that carry the Unicode `White_Space` property.
pub open spec fn is_whitespace(c: char) -> bool {
    let n = c as int;
    ||| 0x09 <= n <= 0x0D
    ||| n == 0x20
    ||| n == 0x85
    ||| n == 0xA0
    ||| n == 0x1680
    ||| 0x2000 <= n <= 0x200A
    ||| n == 0x2028
    ||| n == 0x2029
    ||| n == 0x202F
    ||| n == 0x205F
    ||| n == 0x3000
}

/// Whether `c` is white space.
pub fn is_whitespace_char(c: char) -> (r: bool)
    ensures
        r == is_whitespace(c),
{
    let n: u32 = c as u32;
    (0x09 <= n && n <= 0x0D) || n == 0x20 || n == 0x85 || n == 0xA0 || n == 0x1680 || (0x2000 <= n
        && n <= 0x200A) || n == 0x2028 || n == 0x2029 || n == 0x202F || n == 0x205F || n == 0x3000
}

/// The first position at or after `from` that holds no white space, or the
/// length of `s` when every later character is white space.
pub open spec fn skip_whitespace(s: Seq<char>, from: int) -> int
    decreases s.len() - from,
{
    if 0 <= from < s.len() && is_whitespace(s[from]) {
        skip_whitespace(s, from + 1)
    } else {
        from
    }
}

/// The end of the text that is left when trailing white space before `to`
/// is dropped.
pub open spec fn drop_whitespace_back(s: Seq<char>, to: int) -> int
    decreases to,
{
    if 0 < to <= s.len() && is_whitespace(s[to - 1]) {
        drop_whitespace_back(s, to - 1)
    } else {
        to
    }
}

/// `s` without its leading white space.
pub open spec fn trim_start(s: Seq<char>) -> Seq<char> {
    s.skip(skip_whitespace(s, 0))
}

/// `s` without its leading and trailing white space.
pub open spec fn trim(s: Seq<char>) -> Seq<char> {
    let a = skip_whitespace(s, 0);
    let b = drop_whitespace_back(s, s.len() as int);
    if a < b {
        s.subrange(a, b)
    } else {
        Seq::empty()
    }
}

/// `skip_whitespace` passes over white space only and stops at the first
/// character that is none.
pub proof fn lemma_skip_whitespace(s: Seq<char>, from: int)
    requires
        0 <= from <= s.len(),
    ensures
        from <= skip_whitespace(s, from) <= s.len(),
        forall|j: int| from <= j < skip_whitespace(s, from) ==> is_whitespace(#[trigger] s[j]),
        skip_whitespace(s, from) < s.len() ==> !is_whitespace(s[skip_whitespace(s, from)]),
    decreases s.len() - from,
{
    if from < s.len() && is_whitespace(s[from]) {
        lemma_skip_whitespace(s, from + 1);
    }
}

/// The position that `skip_whitespace` names is the only one that ends a
/// run of white space starting at `from`.
pub proof fn lemma_skip_whitespace_unique(s: Seq<char>, from: int, k: int)
    requires
        0 <= from <= k <= s.len(),
        forall|j: int| from <= j < k ==> is_whitespace(#[trigger] s[j]),
        k < s.len() ==> !is_whitespace(s[k]),
    ensures
        skip_whitespace(s, from) == k,
    decreases k - from,
{
    if from < k {
        lemma_skip_whitespace_unique(s, from + 1, k);
    }
}

/// `drop_whitespace_back` passes over white space only and stops behind
/// the last character that is none.
pub proof fn lemma_drop_whitespace_back(s: Seq<char>, to: int)
    requires
        0 <= to <= s.len(),
    ensures
        0 <= drop_whitespace_back(s, to) <= to,
        forall|j: int| drop_whitespace_back(s, to) <= j < to ==> is_whitespace(#[trigger] s[j]),
        drop_whitespace_back(s, to) > 0 ==> !is_whitespace(s[drop_whitespace_back(s, to) - 1]),
    decreases to,
{
    if 0 < to && is_whitespace(s[to - 1]) {
        lemma_drop_whitespace_back(s, to - 1);
    }
}

/// The position that `drop_whitespace_back` names is the only one at which
/// a run of white space ending at `to` starts.
pub proof fn lemma_drop_whitespace_back_unique(s: Seq<char>, to: int, k: int)
    requires
        0 <= k <= to <= s.len(),
        forall|j: int| k <= j < to ==> is_whitespace(#[trigger] s[j]),
        k > 0 ==> !is_whitespace(s[k - 1]),
    ensures
        drop_whitespace_back(s, to) == k,
    decreases to - k,
{
    if k < to {
        assert(is_whitespace(s[to - 1]));
        lemma_drop_whitespace_back_unique(s, to - 1, k);
    }
}

/// A trimmed text has no white space at either end.
pub proof fn lemma_trim_ends(s: Seq<char>)
    ensures
        trim(s).len() > 0 ==> !is_whitespace(trim(s)[0]) && !is_whitespace(trim(s).last()),
{
    let a = skip_whitespace(s, 0);
    let b = drop_whitespace_back(s, s.len() as int);
    lemma_skip_whitespace(s, 0);
    lemma_drop_whitespace_back(s, s.len() as int);
    if a < b {
        assert(trim(s)[0] == s[a]);
        assert(trim(s).last() == s[b - 1]);
    }
}

/// A trimmed text holds no character that the text did not hold.
pub proof fn lemma_trim_holds_no(s: Seq<char>, c: char)
    requires
        forall|k: int| 0 <= k < s.len() ==> #[trigger] s[k] != c,
    ensures
        forall|j: int| 0 <= j < trim(s).len() ==> #[trigger] trim(s)[j] != c,
{
    let a = skip_whitespace(s, 0);
    let b = drop_whitespace_back(s, s.len() as int);
    lemma_skip_whitespace(s, 0);
    lemma_drop_whitespace_back(s, s.len() as int);
    if a < b {
        assert forall|j: int| 0 <= j < trim(s).len() implies #[trigger] trim(s)[j] != c by {
            assert(trim(s)[j] == s[a + j]);
        }
    }
}

/// Index of the first character at or after `from` that is no white space.
pub fn skip_whitespace_from(s: &Vec<char>, from: usize) -> (k: usize)
    requires
        from <= s.len(),
    ensures
        k == skip_whitespace(s@, from as int),
        from <= k <= s.len(),
{
    let mut k: usize = from;
    while k < s.len() && is_whitespace_char(s[k])
        invariant
            from <= k <= s.len(),
            forall|j: int| from <= j < k ==> is_whitespace(#[trigger] s@[j]),
        decreases s.len() - k,
    {
        k += 1;
    }
    proof {
        lemma_skip_whitespace_unique(s@, from as int, k as int);
    }
    k
}

/// End of the text before `to` once its trailing white space is dropped.
pub fn drop_whitespace_before(s: &Vec<char>, to: usize) -> (k: usize)
    requires
        to <= s.len(),
    ensures
        k == drop_whitespace_back(s@, to as int),
        k <= to,
{
    let mut k: usize = to;
    while k > 0 && is_whitespace_char(s[k - 1])
        invariant
            k <= to <= s.len(),
            forall|j: int| k <= j < to ==> is_whitespace(#[trigger] s@[j]),
        decreases k,
    {
        k -= 1;
    }
    proof {
        lemma_drop_whitespace_back_unique(s@, to as int, k as int);
    }
    k
}

/// The characters of `s` from `from` up to `to`, as a vector of their own.
pub fn copy_range(s: &Vec<char>, from: usize, to: usize) -> (r: Vec<char>)
    requires
        from <= to <= s.len(),
    ensures
        r@ == s@.subrange(from as int, to as int),
{
    let mut r: Vec<char> = Vec::new();
    let mut i: usize = from;
    while i < to
        invariant
            from <= i <= to <= s.len(),
            r@ == s@.subrange(from as int, i as int),
        decreases to - i,
    {
        r.push(s[i]);
        i += 1;
    }
    r
}

/// `s` without its leading and trailing white space.
pub fn trimmed(s: &Vec<char>) -> (r: Vec<char>)
    ensures
        r@ == trim(s@),
{
    let a = skip_whitespace_from(s, 0);
    let b = drop_whitespace_before(s, s.len());
    if a < b {
        copy_range(s, a, b)
    } else {
        Vec::new()
    }
}

/// The characters of a string slice.
pub fn chars_of(s: &str) -> (v: Vec<char>)
    ensures
        v@ == s@,
{
    let mut v: Vec<char> = Vec::new();
    for c in it: s.chars()
        invariant
            v@ == it.seq().take(it.index() as int),
    {
        v.push(c);
    }
    v
}

/// Builds a `String` of the given characters with `String::from_iter`, which
/// std documents as collecting the characters it is handed, in order.
#[verifier::external_body]
pub(crate) fn string_of(chars: &Vec<char>) -> (s: String)
    ensures
        s@ == chars@,
{
    String::from_iter(chars.iter())
}

/// Appends the characters of `piece` to `out`.
pub fn push_str(out: &mut Vec<char>, piece: &str)
    ensures
        final(out)@ == old(out)@ + piece@,
{
    let ghost before = out@;
    for c in it: piece.chars()
        invariant
            out@ == before + it.seq().take(it.index() as int),
    {
        out.push(c);
    }
}

/// Appends the characters of `piece` to `out`.
pub fn push_chars(out: &mut Vec<char>, piece: &Vec<char>)
    ensures
        final(out)@ == old(out)@ + piece@,
{
    let ghost before = out@;
    let mut i: usize = 0;
    while i < piece.len()
        invariant
            i <= piece.len(),
            out@ == before + piece@.take(i as int),
        decreases piece.len() - i,
    {
        out.push(piece[i]);
        i += 1;
    }
}

/// Appends the characters of `s` from `from` up to `to` to `out`.
pub fn push_range(out: &mut Vec<char>, s: &Vec<char>, from: usize, to: usize)
    requires
        from <= to <= s.len(),
    ensures
        final(out)@ == old(out)@ + s@.subrange(from as int, to as int),
{
    let ghost before = out@;
    let mut i: usize = from;
    while i < to
        invariant
            from <= i <= to <= s.len(),
            out@ == before + s@.subrange(from as int, i as int),
        decreases to - i,
    {
        out.push(s[i]);
        i += 1;
    }
}

/// The text that an optional string holds.
pub open spec fn option_text(o: Option<String>) -> Option<Seq<char>> {
    match o {
        Some(s) => Some(s@),
        None => None,
    }
}

/// Whether `pattern` stands in `s` at position `at`.
pub open spec fn occurs_at(s: Seq<char>, at: int, pattern: Seq<char>) -> bool {
    &&& 0 <= at
    &&& at + pattern.len() <= s.len()
    &&& s.subrange(at, at + pattern.len()) == pattern
}

/// Whether `pattern` stands in `s` at position `at`.
pub fn matches_at(s: &Vec<char>, at: usize, pattern: &str) -> (r: bool)
    ensures
        r == occurs_at(s@, at as int, pattern@),
{
    let p = chars_of(pattern);
    if at > s.len() || p.len() > s.len() - at {
        return false;
    }
    let mut i: usize = 0;
    while i < p.len()
        invariant
            i <= p.len(),
            at + p.len() <= s.len(),
            p@ == pattern@,
            forall|j: int| 0 <= j < i ==> s@[at + j] == p@[j],
        decreases p.len() - i,
    {
        if s[at + i] != p[i] {
            return false;
        }
        i += 1;
    }
    assert(s@.subrange(at as int, at + p.len()) =~= p@);
    true
}

/// Whether `pattern` stands somewhere in `s`.
pub open spec fn contains(s: Seq<char>, pattern: Seq<char>) -> bool {
    exists|at: int| occurs_at(s, at, pattern)
}

/// What stands in a part of a text stands in the text.
pub proof fn lemma_occurs_in_middle(
    before: Seq<char>,
    middle: Seq<char>,
    after: Seq<char>,
    at: int,
    pattern: Seq<char>,
)
    requires
        occurs_at(middle, at, pattern),
    ensures
        occurs_at(before + middle + after, before.len() + at, pattern),
        contains(before + middle + after, pattern),
{
    let whole = before + middle + after;
    assert(whole.subrange(before.len() + at, before.len() + at + pattern.len()) =~= middle.subrange(
        at,
        at + pattern.len(),
    ));
}

/// The first position at or after `from` that holds `c`, or the length of `s`
/// when no later position does.
pub open spec fn find_char(s: Seq<char>, c: char, from: int) -> int
    decreases s.len() - from,
{
    if from < 0 || from >= s.len() {
        s.len() as int
    } else if s[from] == c {
        from
    } else {
        find_char(s, c, from + 1)
    }
}

/// `find_char` passes over other characters only and stops at the first
/// `c`.
pub proof fn lemma_find_char(s: Seq<char>, c: char, from: int)
    requires
        0 <= from <= s.len(),
    ensures
        from <= find_char(s, c, from) <= s.len(),
        forall|j: int| from <= j < find_char(s, c, from) ==> #[trigger] s[j] != c,
        find_char(s, c, from) < s.len() ==> s[find_char(s, c, from)] == c,
    decreases s.len() - from,
{
    if from < s.len() && s[from] != c {
        lemma_find_char(s, c, from + 1);
    }
}

/// The position that `find_char` names is the only one before which no `c`
/// stands and at which one does, or the text ends.
pub proof fn lemma_find_char_unique(s: Seq<char>, c: char, from: int, k: int)
    requires
        0 <= from <= k <= s.len(),
        forall|j: int| from <= j < k ==> #[trigger] s[j] != c,
        k < s.len() ==> s[k] == c,
    ensures
        find_char(s, c, from) == k,
    decreases k - from,
{
    if from < k {
        lemma_find_char_unique(s, c, from + 1, k);
    }
}

/// Looking for a character in the second of two joined texts gives the
/// same place as looking in that text alone.
pub proof fn lemma_find_char_shift(a: Seq<char>, b: Seq<char>, c: char, from: int)
    requires
        0 <= from <= b.len(),
    ensures
        find_char(a + b, c, a.len() + from) == a.len() + find_char(b, c, from),
{
    let k = find_char(b, c, from);
    lemma_find_char(b, c, from);
    let whole = a + b;
    assert forall|j: int| a.len() + from <= j < a.len() + k implies #[trigger] whole[j] != c by {
        assert(whole[j] == b[j - a.len()]);
    }
    lemma_find_char_unique(whole, c, a.len() + from, a.len() + k);
}

/// Index of the first `c` at or after `from`, or the length of `s`.
pub fn find_char_from(s: &Vec<char>, c: char, from: usize) -> (k: usize)
    requires
        from <= s.len(),
    ensures
        k == find_char(s@, c, from as int),
        from <= k <= s.len(),
{
    let mut k: usize = from;
    while k < s.len() && s[k] != c
        invariant
            from <= k <= s.len(),
            forall|j: int| from <= j < k ==> #[trigger] s@[j] != c,
        decreases s.len() - k,
    {
        k += 1;
    }
    proof {
        lemma_find_char_unique(s@, c, from as int, k as int);
    }
    k
}

/// A line without the carriage return that stood before its line feed.
pub open spec fn strip_carriage_return(line: Seq<char>) -> Seq<char> {
    if line.len() > 0 && line.last() == '\r' {
        line.drop_last()
    } else {
        line
    }
}

/// The lines of `s` from position `from` on. A line ends at a line feed; the
/// line feed, and a carriage return directly before it, belong to no line.
/// Text after the last line feed is a line of its own, kept as it stands.
pub open spec fn lines_from(s: Seq<char>, from: int) -> Seq<Seq<char>>
    decreases s.len() - from,
    via lines_from_decreases
{
    if from < 0 || from >= s.len() {
        Seq::empty()
    } else {
        let end = find_char(s, '\n', from);
        if end >= s.len() {
            seq![s.subrange(from, s.len() as int)]
        } else {
            seq![strip_carriage_return(s.subrange(from, end))] + lines_from(s, end + 1)
        }
    }
}

#[via_fn]
proof fn lines_from_decreases(s: Seq<char>, from: int) {
    if 0 <= from < s.len() {
        lemma_find_char(s, '\n', from);
    }
}

/// The lines of a text.
pub open spec fn lines(s: Seq<char>) -> Seq<Seq<char>> {
    lines_from(s, 0)
}

/// Whether a text holds no line feed.
pub open spec fn no_line_feed(line: Seq<char>) -> bool {
    forall|j: int| 0 <= j < line.len() ==> #[trigger] line[j] != '\n'
}

/// The lines of the second of two joined texts are the lines of that text
/// alone.
pub proof fn lemma_lines_from_shift(a: Seq<char>, b: Seq<char>, from: int)
    requires
        0 <= from <= b.len(),
    ensures
        lines_from(a + b, a.len() + from) == lines_from(b, from),
    decreases b.len() - from,
{
    let whole = a + b;
    if from < b.len() {
        lemma_find_char(b, '\n', from);
        lemma_find_char_shift(a, b, '\n', from);
        let end = find_char(b, '\n', from);
        if end >= b.len() {
            assert(whole.subrange(a.len() + from, whole.len() as int) =~= b.subrange(
                from,
                b.len() as int,
            ));
        } else {
            assert(whole.subrange(a.len() + from, a.len() + end) =~= b.subrange(from, end));
            lemma_lines_from_shift(a, b, end + 1);
        }
    }
}

/// A text that starts with a line and its line feed has that line as its
/// first line, and the lines of the rest behind it.
pub proof fn lemma_lines_first(line: Seq<char>, rest: Seq<char>)
    requires
        forall|j: int| 0 <= j < line.len() ==> #[trigger] line[j] != '\n',
    ensures
        lines(line + seq!['\n'] + rest) == seq![strip_carriage_return(line)] + lines(rest),
{
    let head = line + seq!['\n'];
    let whole = head + rest;
    assert forall|j: int| 0 <= j < line.len() implies #[trigger] whole[j] != '\n' by {
        assert(whole[j] == line[j]);
    }
    lemma_find_char_unique(whole, '\n', 0, line.len() as int);
    assert(whole.subrange(0, line.len() as int) =~= line);
    lemma_lines_from_shift(head, rest, 0);
}

/// No line holds a line feed.
pub proof fn lemma_lines_hold_no_feed(s: Seq<char>, from: int)
    requires
        0 <= from <= s.len(),
    ensures
        forall|i: int|
            0 <= i < lines_from(s, from).len() ==> no_line_feed(#[trigger] lines_from(s, from)[i]),
    decreases s.len() - from,
{
    if from < s.len() {
        let end = find_char(s, '\n', from);
        lemma_find_char(s, '\n', from);
        let all = lines_from(s, from);
        if end < s.len() {
            lemma_lines_hold_no_feed(s, end + 1);
            let rest = lines_from(s, end + 1);
            let first = strip_carriage_return(s.subrange(from, end));
            assert forall|i: int| 0 <= i < all.len() implies no_line_feed(#[trigger] all[i]) by {
                if i == 0 {
                    assert forall|j: int| 0 <= j < first.len() implies #[trigger] first[j]
                        != '\n' by {
                        assert(first[j] == s[from + j]);
                    }
                } else {
                    assert(all[i] == rest[i - 1]);
                }
            }
        } else {
            assert forall|i: int| 0 <= i < all.len() implies no_line_feed(#[trigger] all[i]) by {
                assert forall|j: int| 0 <= j < all[0].len() implies #[trigger] all[0][j]
                    != '\n' by {
                    assert(all[0][j] == s[from + j]);
                }
            }
        }
    }
}

/// The views of a vector of character vectors.
pub open spec fn views(v: Seq<Vec<char>>) -> Seq<Seq<char>> {
    Seq::new(v.len(), |i: int| v[i]@)
}

/// Splits a text into its lines.
pub fn split_lines(s: &Vec<char>) -> (r: Vec<Vec<char>>)
    ensures
        views(r@) == lines(s@),
{
    let mut r: Vec<Vec<char>> = Vec::new();
    let mut pos: usize = 0;
    while pos < s.len()
        invariant
            pos <= s.len(),
            lines(s@) == views(r@) + lines_from(s@, pos as int),
        decreases s.len() - pos,
    {
        let end = find_char_from(s, '\n', pos);
        if end >= s.len() {
            let line = copy_range(s, pos, s.len());
            r.push(line);
            pos = s.len();
        } else {
            let stop: usize = if end > pos && s[end - 1] == '\r' {
                end - 1
            } else {
                end
            };
            let line = copy_range(s, pos, stop);
            assert(line@ =~= strip_carriage_return(s@.subrange(pos as int, end as int)));
            r.push(line);
            pos = end + 1;
        }
    }
    r
}

/// The character that stands for a decimal digit.
pub open spec fn digit_char(d: int) -> char {
    if d == 0 {
        '0'
    } else if d == 1 {
        '1'
    } else if d == 2 {
        '2'
    } else if d == 3 {
        '3'
    } else if d == 4 {
        '4'
    } else if d == 5 {
        '5'
    } else if d == 6 {
        '6'
    } else if d == 7 {
        '7'
    } else if d == 8 {
        '8'
    } else {
        '9'
    }
}

/// The decimal numeral of `n`, without leading zeros.
pub open spec fn decimal(n: nat) -> Seq<char>
    decreases n,
{
    if n < 10 {
        seq![digit_char(n as int)]
    } else {
        decimal(n / 10).push(digit_char((n % 10) as int))
    }
}

fn digit_of(d: u128) -> (c: char)
    requires
        d < 10,
    ensures
        c == digit_char(d as int),
{
    if d == 0 {
        '0'
    } else if d == 1 {
        '1'
    } else if d == 2 {
        '2'
    } else if d == 3 {
        '3'
    } else if d == 4 {
        '4'
    } else if d == 5 {
        '5'
    } else if d == 6 {
        '6'
    } else if d == 7 {
        '7'
    } else if d == 8 {
        '8'
    } else {
        '9'
    }
}

/// Appends the decimal numeral of `n` to `out`.
pub fn push_decimal(out: &mut Vec<char>, n: u128)
    ensures
        final(out)@ == old(out)@ + decimal(n as nat),
    decreases n,
{
    if n < 10 {
        out.push(digit_of(n));
    } else {
        push_decimal(out, n / 10);
        out.push(digit_of(n % 10));
        assert(out@ =~= old(out)@ + decimal(n as nat));
    }
}

/// Every numeral has a digit.
pub proof fn lemma_decimal_nonempty(n: nat)
    ensures
        decimal(n).len() >= 1,
    decreases n,
{
    if n >= 10 {
        lemma_decimal_nonempty(n / 10);
    }
}

proof fn lemma_digit_value(d: int)
    requires
        0 <= d < 10,
    ensures
        digit_char(d) as int == 48 + d,
{
}

/// A numeral is made of digits.
pub proof fn lemma_decimal_holds_digits(n: nat)
    ensures
        forall|j: int| 0 <= j < decimal(n).len() ==> '0' <= #[trigger] decimal(n)[j] <= '9',
    decreases n,
{
    lemma_digit_value((n % 10) as int);
    if n >= 10 {
        lemma_decimal_holds_digits(n / 10);
        let front = decimal(n / 10);
        assert forall|j: int| 0 <= j < decimal(n).len() implies '0' <= #[trigger] decimal(n)[j]
            <= '9' by {
            if j < front.len() {
                assert(decimal(n)[j] == front[j]);
            }
        }
    }
}

/// Different numbers have different numerals.
pub proof fn lemma_decimal_injective(a: nat, b: nat)
    requires
        decimal(a) == decimal(b),
    ensures
        a == b,
    decreases a,
{
    lemma_decimal_nonempty(a / 10);
    lemma_decimal_nonempty(b / 10);
    lemma_digit_value((a % 10) as int);
    lemma_digit_value((b % 10) as int);
    if a < 10 {
        assert(decimal(a).len() == 1);
        assert(b < 10);
        assert(decimal(a)[0] == digit_char(a as int));
        assert(decimal(b)[0] == digit_char(b as int));
    } else {
        assert(decimal(a).len() >= 2);
        assert(b >= 10);
        assert(decimal(a).drop_last() =~= decimal(a / 10));
        assert(decimal(b).drop_last() =~= decimal(b / 10));
        assert(decimal(a).last() == digit_char((a % 10) as int));
        assert(decimal(b).last() == digit_char((b % 10) as int));
        lemma_decimal_injective(a / 10, b / 10);
        assert(a % 10 == b % 10);
        assert(a == 10 * (a / 10) + a % 10);
        assert(b == 10 * (b / 10) + b % 10);
    }
}

} // verus!
