//! Text primitives over sequences of characters.
//!
//! Everything the meters read is text: CSV rows, sysfs names, `/proc` files. The spec functions
//! here say what splitting, trimming and number reading mean; the executable functions below them
//! are proved against those definitions and are what the parsers are built from.

use vstd::prelude::*;

verus! {

/// Appends a character to the end of a string, as `String::push` documents.
pub assume_specification[ String::push ](s: &mut String, c: char)
    ensures
        final(s)@ == old(s)@.push(c),
;

/// The characters with Unicode's `White_Space` property.
pub open spec fn is_white_space(c: char) -> bool {
    ||| '\u{9}' <= c <= '\u{d}'
    ||| c == ' '
    ||| c == '\u{85}'
    ||| c == '\u{a0}'
    ||| c == '\u{1680}'
    ||| '\u{2000}' <= c <= '\u{200a}'
    ||| c == '\u{2028}'
    ||| c == '\u{2029}'
    ||| c == '\u{202f}'
    ||| c == '\u{205f}'
    ||| c == '\u{3000}'
}

/// `s` without its leading white space.
pub open spec fn trimmed_start(s: Seq<char>) -> Seq<char>
    decreases s.len(),
{
    if s.len() > 0 && is_white_space(s[0]) {
        trimmed_start(s.skip(1))
    } else {
        s
    }
}

/// `s` without its trailing white space.
pub open spec fn trimmed_end(s: Seq<char>) -> Seq<char>
    decreases s.len(),
{
    if s.len() > 0 && is_white_space(s.last()) {
        trimmed_end(s.drop_last())
    } else {
        s
    }
}

/// `s` without white space at either end.
pub open spec fn trimmed(s: Seq<char>) -> Seq<char> {
    trimmed_end(trimmed_start(s))
}

/// The pieces of `s` between separators: every separator opens a new piece, every other character
/// extends the open one. There is always at least one piece.
pub open spec fn pieces(s: Seq<char>, is_separator: spec_fn(char) -> bool) -> Seq<Seq<char>>
    decreases s.len(),
{
    if s.len() == 0 {
        seq![Seq::<char>::empty()]
    } else {
        let before = pieces(s.drop_last(), is_separator);
        if is_separator(s.last()) {
            before.push(Seq::<char>::empty())
        } else {
            before.drop_last().push(before.last().push(s.last()))
        }
    }
}

/// The test for one particular character.
pub open spec fn is_char(separator: char) -> spec_fn(char) -> bool {
    |c: char| c == separator
}

/// The test for white space.
pub open spec fn is_gap() -> spec_fn(char) -> bool {
    |c: char| is_white_space(c)
}

/// The pieces of `s` between occurrences of `separator`.
pub open spec fn split_at_char(s: Seq<char>, separator: char) -> Seq<Seq<char>> {
    pieces(s, is_char(separator))
}

/// The comma-separated fields of a row, each trimmed.
pub open spec fn trimmed_fields(row: Seq<char>) -> Seq<Seq<char>> {
    split_at_char(row, ',').map_values(|field: Seq<char>| trimmed(field))
}

/// The words of `s`: its non-empty pieces between white space.
pub open spec fn words(s: Seq<char>) -> Seq<Seq<char>> {
    pieces(s, is_gap()).filter(|piece: Seq<char>| piece.len() > 0)
}

/// `needle` occurs in `s`.
pub open spec fn contains_text(s: Seq<char>, needle: Seq<char>) -> bool {
    exists|i: int| #[trigger] occurs_at(s, needle, i)
}

/// `needle` occurs in `s`, starting at `i`.
pub open spec fn occurs_at(s: Seq<char>, needle: Seq<char>, i: int) -> bool {
    0 <= i && i + needle.len() <= s.len() && s.subrange(i, i + needle.len()) == needle
}

/// `s` begins with `prefix`.
pub open spec fn begins_with(s: Seq<char>, prefix: Seq<char>) -> bool {
    prefix.len() <= s.len() && s.take(prefix.len() as int) == prefix
}

/// ASCII upper case mapped to lower case; every other character is kept.
pub open spec fn ascii_lower(c: char) -> char {
    if 'A' <= c <= 'Z' {
        ((c as u32) + 32) as char
    } else {
        c
    }
}

/// Every character of `s` in ASCII lower case.
pub open spec fn lowered(s: Seq<char>) -> Seq<char> {
    s.map_values(|c: char| ascii_lower(c))
}

/// How many characters precede the first `c`; all of them if there is none.
pub open spec fn index_of_first(s: Seq<char>, c: char) -> nat
    decreases s.len(),
{
    if s.len() == 0 || s[0] == c {
        0
    } else {
        1 + index_of_first(s.skip(1), c)
    }
}

/// How many characters precede and hold the last `c`; none if there is none.
pub open spec fn index_after_last(s: Seq<char>, c: char) -> nat
    decreases s.len(),
{
    if s.len() == 0 || s.last() == c {
        s.len()
    } else {
        index_after_last(s.drop_last(), c)
    }
}

/// The text before and after the first `c`.
pub open spec fn split_first(s: Seq<char>, c: char) -> Option<(Seq<char>, Seq<char>)> {
    let i = index_of_first(s, c);
    if i < s.len() {
        Some((s.take(i as int), s.skip(i as int + 1)))
    } else {
        None
    }
}

/// The text before and after the last `c`.
pub open spec fn split_last(s: Seq<char>, c: char) -> Option<(Seq<char>, Seq<char>)> {
    let i = index_after_last(s, c);
    if i > 0 {
        Some((s.take(i - 1), s.skip(i as int)))
    } else {
        None
    }
}

/// The value of one digit, letters of either case standing for ten and up.
pub open spec fn digit_value(c: char) -> nat {
    if '0' <= c <= '9' {
        (c as u32 - '0' as u32) as nat
    } else if 'a' <= c <= 'z' {
        (c as u32 - 'a' as u32 + 10) as nat
    } else if 'A' <= c <= 'Z' {
        (c as u32 - 'A' as u32 + 10) as nat
    } else {
        36
    }
}

/// Every character of `s` is a digit of the given base.
pub open spec fn all_digits(s: Seq<char>, radix: nat) -> bool {
    forall|i: int| 0 <= i < s.len() ==> digit_value(#[trigger] s[i]) < radix
}

/// The number that the digits `s` write in base `radix`.
pub open spec fn digits_value(s: Seq<char>, radix: nat) -> nat
    decreases s.len(),
{
    if s.len() == 0 {
        0
    } else {
        digits_value(s.drop_last(), radix) * radix + digit_value(s.last())
    }
}

/// `s` without one leading plus sign.
pub open spec fn without_plus(s: Seq<char>) -> Seq<char> {
    if s.len() > 0 && s[0] == '+' {
        s.skip(1)
    } else {
        s
    }
}

/// The unsigned number that `s` writes in base `radix`: an optional plus sign, then one or more
/// digits, standing for at most `max`.
pub open spec fn unsigned_value(s: Seq<char>, radix: nat, max: nat) -> Option<nat> {
    let digits = without_plus(s);
    if digits.len() > 0 && all_digits(digits, radix) && digits_value(digits, radix) <= max {
        Some(digits_value(digits, radix))
    } else {
        None
    }
}

/// The signed 32-bit decimal number that `s` writes: an optional sign, then one or more digits.
pub open spec fn i32_value(s: Seq<char>) -> Option<int> {
    if s.len() > 0 && s[0] == '-' {
        let digits = s.skip(1);
        if digits.len() > 0 && all_digits(digits, 10) && digits_value(digits, 10)
            <= 0x8000_0000nat {
            Some(-(digits_value(digits, 10) as int))
        } else {
            None
        }
    } else {
        match unsigned_value(s, 10, 0x7fff_ffffnat) {
            Some(value) => Some(value as int),
            None => None,
        }
    }
}

/// The decimal digit that stands for `d`.
pub open spec fn digit_char(d: nat) -> char {
    (('0' as u32) + d) as char
}

/// The decimal representation of `n`, without leading zeros.
pub open spec fn decimal(n: nat) -> Seq<char>
    decreases n,
{
    if n < 10 {
        seq![digit_char(n)]
    } else {
        decimal(n / 10).push(digit_char(n % 10))
    }
}

/// The views of a sequence of character vectors.
pub open spec fn views(rows: Seq<Vec<char>>) -> Seq<Seq<char>> {
    rows.map_values(|row: Vec<char>| row@)
}

/// The views of a sequence of strings.
pub open spec fn string_views(rows: Seq<String>) -> Seq<Seq<char>> {
    rows.map_values(|row: String| row@)
}

/// The characters of a string slice.
pub fn chars_of(s: &str) -> (chars: Vec<char>)
    ensures
        chars@ == s@,
{
    let mut chars: Vec<char> = Vec::new();
    for c in it: s.chars()
        invariant
            chars@ == it.seq().take(it.index() as int),
            it.seq() == s@,
    {
        chars.push(c);
    }
    chars
}

/// The string that holds the given characters.
pub fn string_of(chars: &[char]) -> (s: String)
    ensures
        s@ == chars@,
{
    let mut s: String = String::new();
    let mut i: usize = 0;
    while i < chars.len()
        invariant
            i <= chars@.len(),
            s@ == chars@.take(i as int),
        decreases chars@.len() - i,
    {
        s.push(chars[i]);
        proof {
            assert(chars@.take(i + 1) =~= chars@.take(i as int).push(chars@[i as int]));
        }
        i = i + 1;
    }
    proof {
        assert(chars@.take(i as int) =~= chars@);
    }
    s
}

/// Whether two character sequences are the same.
pub fn same_text(a: &[char], b: &[char]) -> (same: bool)
    ensures
        same == (a@ == b@),
{
    if a.len() != b.len() {
        return false;
    }
    let mut i: usize = 0;
    while i < a.len()
        invariant
            i <= a@.len() == b@.len(),
            a@.take(i as int) == b@.take(i as int),
        decreases a@.len() - i,
    {
        if a[i] != b[i] {
            return false;
        }
        proof {
            assert(a@.take(i + 1) =~= a@.take(i as int).push(a@[i as int]));
            assert(b@.take(i + 1) =~= b@.take(i as int).push(b@[i as int]));
        }
        i = i + 1;
    }
    proof {
        assert(a@.take(i as int) =~= a@);
        assert(b@.take(i as int) =~= b@);
    }
    true
}

/// The characters from `from` up to `to`.
pub fn slice_of(s: &[char], from: usize, to: usize) -> (part: Vec<char>)
    requires
        from <= to <= s@.len(),
    ensures
        part@ == s@.subrange(from as int, to as int),
{
    let mut part: Vec<char> = Vec::new();
    let mut i: usize = from;
    while i < to
        invariant
            from <= i <= to <= s@.len(),
            part@ == s@.subrange(from as int, i as int),
        decreases to - i,
    {
        part.push(s[i]);
        proof {
            assert(s@.subrange(from as int, i + 1) =~= s@.subrange(from as int, i as int).push(
                s@[i as int],
            ));
        }
        i = i + 1;
    }
    part
}

/// Whether a character has Unicode's `White_Space` property.
pub fn is_space(c: char) -> (space: bool)
    ensures
        space == is_white_space(c),
{
    ('\u{9}' <= c && c <= '\u{d}') || c == ' ' || c == '\u{85}' || c == '\u{a0}' || c
        == '\u{1680}' || ('\u{2000}' <= c && c <= '\u{200a}') || c == '\u{2028}' || c == '\u{2029}'
        || c == '\u{202f}' || c == '\u{205f}' || c == '\u{3000}'
}

/// The text without white space at either end.
pub fn trim(s: &[char]) -> (t: Vec<char>)
    ensures
        t@ == trimmed(s@),
{
    let mut from: usize = 0;
    proof {
        assert(s@.skip(0) =~= s@);
    }
    while from < s.len() && is_space(s[from])
        invariant
            from <= s@.len(),
            trimmed_start(s@) == trimmed_start(s@.skip(from as int)),
        decreases s@.len() - from,
    {
        proof {
            assert(s@.skip(from as int).skip(1) =~= s@.skip(from + 1));
        }
        from = from + 1;
    }
    let ghost start = s@.skip(from as int);
    proof {
        assert(trimmed_start(s@) == start);
    }
    let mut to: usize = s.len();
    proof {
        assert(s@.subrange(from as int, to as int) =~= start);
    }
    while to > from && is_space(s[to - 1])
        invariant
            from <= to <= s@.len(),
            trimmed_end(start) == trimmed_end(s@.subrange(from as int, to as int)),
        decreases to,
    {
        proof {
            assert(s@.subrange(from as int, to as int).drop_last() =~= s@.subrange(
                from as int,
                to - 1,
            ));
        }
        to = to - 1;
    }
    slice_of(s, from, to)
}

/// The pieces of `s` between occurrences of `separator`.
pub fn split(s: &[char], separator: char) -> (parts: Vec<Vec<char>>)
    ensures
        views(parts@) == split_at_char(s@, separator),
{
    let ghost is_separator = is_char(separator);
    let mut parts: Vec<Vec<char>> = Vec::new();
    let mut open: Vec<char> = Vec::new();
    let mut i: usize = 0;
    proof {
        assert(views(parts@).push(open@) =~= pieces(s@.take(0), is_separator));
    }
    while i < s.len()
        invariant
            i <= s@.len(),
            is_separator == is_char(separator),
            views(parts@).push(open@) == pieces(s@.take(i as int), is_separator),
        decreases s@.len() - i,
    {
        let ghost before = views(parts@).push(open@);
        proof {
            assert(s@.take(i + 1).drop_last() =~= s@.take(i as int));
            assert(before.drop_last() =~= views(parts@));
            assert(before.last() == open@);
        }
        if s[i] == separator {
            parts.push(open);
            open = Vec::new();
            proof {
                assert(views(parts@) =~= before);
            }
        } else {
            open.push(s[i]);
        }
        i = i + 1;
    }
    let ghost done = views(parts@).push(open@);
    parts.push(open);
    proof {
        assert(views(parts@) =~= done);
        assert(s@.take(i as int) =~= s@);
    }
    parts
}

/// The comma-separated fields of a row, each trimmed.
pub fn fields_of(row: &[char]) -> (fields: Vec<Vec<char>>)
    ensures
        views(fields@) == trimmed_fields(row@),
{
    let parts = split(row, ',');
    let mut fields: Vec<Vec<char>> = Vec::new();
    let mut i: usize = 0;
    while i < parts.len()
        invariant
            i <= parts@.len(),
            fields@.len() == i,
            forall|k: int| 0 <= k < i ==> (#[trigger] fields@[k])@ == trimmed(parts@[k]@),
        decreases parts@.len() - i,
    {
        fields.push(trim(&parts[i]));
        i = i + 1;
    }
    proof {
        assert(views(fields@) =~= views(parts@).map_values(|field: Seq<char>| trimmed(field)));
    }
    fields
}

/// The words of `s`: its non-empty pieces between white space.
pub fn split_words(s: &[char]) -> (found: Vec<Vec<char>>)
    ensures
        views(found@) == words(s@),
{
    let ghost non_empty = |piece: Seq<char>| piece.len() > 0;
    let mut found: Vec<Vec<char>> = Vec::new();
    let mut open: Vec<char> = Vec::new();
    // The pieces closed so far, the empty ones included.
    let ghost mut closed: Seq<Seq<char>> = Seq::empty();
    let mut i: usize = 0;
    proof {
        reveal(Seq::filter);
        assert(closed.push(open@) =~= pieces(s@.take(0), is_gap()));
        assert(views(found@) =~= closed.filter(non_empty));
    }
    while i < s.len()
        invariant
            i <= s@.len(),
            non_empty == (|piece: Seq<char>| piece.len() > 0),
            closed.push(open@) == pieces(s@.take(i as int), is_gap()),
            views(found@) == closed.filter(non_empty),
        decreases s@.len() - i,
    {
        let ghost before = closed.push(open@);
        proof {
            assert(s@.take(i + 1).drop_last() =~= s@.take(i as int));
            assert(before.drop_last() =~= closed);
            assert(before.last() == open@);
            lemma_filter_push(closed, open@, non_empty);
        }
        if is_space(s[i]) {
            proof {
                closed = before;
            }
            if open.len() > 0 {
                let ghost old_views = views(found@);
                let ghost word = open@;
                found.push(open);
                proof {
                    assert(views(found@) =~= old_views.push(word));
                }
            }
            open = Vec::new();
        } else {
            open.push(s[i]);
        }
        i = i + 1;
    }
    proof {
        assert(s@.take(i as int) =~= s@);
        lemma_filter_push(closed, open@, non_empty);
    }
    if open.len() > 0 {
        let ghost old_views = views(found@);
        let ghost word = open@;
        found.push(open);
        proof {
            assert(views(found@) =~= old_views.push(word));
        }
    }
    found
}

/// Filtering a sequence with one more element keeps that element exactly if it passes.
pub proof fn lemma_filter_push<A>(s: Seq<A>, a: A, keep: spec_fn(A) -> bool)
    ensures
        s.push(a).filter(keep) == if keep(a) {
            s.filter(keep).push(a)
        } else {
            s.filter(keep)
        },
{
    reveal(Seq::filter);
    assert(s.push(a).drop_last() =~= s);
}

/// Whether `s` begins with `prefix`.
pub fn starts_with(s: &[char], prefix: &[char]) -> (found: bool)
    ensures
        found == begins_with(s@, prefix@),
{
    if prefix.len() > s.len() {
        return false;
    }
    let head = slice_of(s, 0, prefix.len());
    proof {
        assert(head@ =~= s@.take(prefix@.len() as int));
    }
    same_text(&head, prefix)
}

/// Whether `needle` occurs in `s`.
pub fn contains(s: &[char], needle: &[char]) -> (found: bool)
    ensures
        found == contains_text(s@, needle@),
{
    if needle.len() > s.len() {
        return false;
    }
    let len: usize = s.len();
    let mut i: usize = 0;
    while i <= len - needle.len()
        invariant
            len == s@.len(),
            needle@.len() <= len,
            i <= len - needle@.len() + 1,
            forall|k: int| 0 <= k < i ==> !#[trigger] occurs_at(s@, needle@, k),
        decreases len + 1 - i,
    {
        let window = slice_of(s, i, i + needle.len());
        if same_text(&window, needle) {
            proof {
                assert(occurs_at(s@, needle@, i as int));
            }
            return true;
        }
        proof {
            assert(!occurs_at(s@, needle@, i as int));
        }
        if i == len {
            return false;
        }
        i = i + 1;
    }
    false
}

/// A character in ASCII lower case.
pub fn lower_char(c: char) -> (l: char)
    ensures
        l == ascii_lower(c),
{
    if 'A' <= c && c <= 'Z' {
        ((c as u8) + 32) as char
    } else {
        c
    }
}

/// The text in ASCII lower case.
pub fn lower(s: &[char]) -> (l: Vec<char>)
    ensures
        l@ == lowered(s@),
{
    let mut l: Vec<char> = Vec::new();
    let mut i: usize = 0;
    while i < s.len()
        invariant
            i <= s@.len(),
            l@.len() == i,
            forall|k: int| 0 <= k < i ==> #[trigger] l@[k] == ascii_lower(s@[k]),
        decreases s@.len() - i,
    {
        l.push(lower_char(s[i]));
        i = i + 1;
    }
    proof {
        assert(l@ =~= lowered(s@));
    }
    l
}

/// The text before and after the first `c`.
pub fn split_once(s: &[char], c: char) -> (halves: Option<(Vec<char>, Vec<char>)>)
    ensures
        match halves {
            Some((head, tail)) => split_first(s@, c) == Some((head@, tail@)),
            None => split_first(s@, c) is None,
        },
{
    let mut i: usize = 0;
    proof {
        assert(s@.skip(0) =~= s@);
    }
    while i < s.len() && s[i] != c
        invariant
            i <= s@.len(),
            index_of_first(s@, c) == i + index_of_first(s@.skip(i as int), c),
        decreases s@.len() - i,
    {
        proof {
            assert(s@.skip(i as int).skip(1) =~= s@.skip(i + 1));
        }
        i = i + 1;
    }
    if i == s.len() {
        return None;
    }
    let head = slice_of(s, 0, i);
    let tail = slice_of(s, i + 1, s.len());
    proof {
        assert(index_of_first(s@, c) == i);
        assert(head@ =~= s@.take(i as int));
        assert(tail@ =~= s@.skip(i as int + 1));
    }
    Some((head, tail))
}

/// The text before and after the last `c`.
pub fn rsplit_once(s: &[char], c: char) -> (halves: Option<(Vec<char>, Vec<char>)>)
    ensures
        match halves {
            Some((head, tail)) => split_last(s@, c) == Some((head@, tail@)),
            None => split_last(s@, c) is None,
        },
{
    let mut i: usize = s.len();
    proof {
        assert(s@.take(i as int) =~= s@);
    }
    while i > 0 && s[i - 1] != c
        invariant
            i <= s@.len(),
            index_after_last(s@, c) == index_after_last(s@.take(i as int), c),
        decreases i,
    {
        proof {
            assert(s@.take(i as int).drop_last() =~= s@.take(i - 1));
        }
        i = i - 1;
    }
    if i == 0 {
        return None;
    }
    let head = slice_of(s, 0, i - 1);
    let tail = slice_of(s, i, s.len());
    proof {
        assert(index_after_last(s@, c) == i);
        assert(head@ =~= s@.take(i - 1));
        assert(tail@ =~= s@.skip(i as int));
    }
    Some((head, tail))
}

/// The value of one digit, or 36 if the character is none.
pub fn digit_of(c: char) -> (d: u32)
    ensures
        d == digit_value(c),
        d <= 36,
{
    if '0' <= c && c <= '9' {
        c as u32 - '0' as u32
    } else if 'a' <= c && c <= 'z' {
        c as u32 - 'a' as u32 + 10
    } else if 'A' <= c && c <= 'Z' {
        c as u32 - 'A' as u32 + 10
    } else {
        36
    }
}

/// More digits never write a smaller number.
pub proof fn lemma_digits_value_grows(s: Seq<char>, i: int, radix: nat)
    requires
        0 <= i <= s.len(),
        radix >= 1,
    ensures
        digits_value(s.take(i), radix) <= digits_value(s, radix),
    decreases s.len() - i,
{
    if i < s.len() {
        lemma_digits_value_grows(s, i + 1, radix);
        let longer = s.take(i + 1);
        assert(longer.drop_last() =~= s.take(i));
        assert(digits_value(s.take(i), radix) <= digits_value(s.take(i), radix) * radix)
            by (nonlinear_arith)
            requires
                radix >= 1,
        ;
    } else {
        assert(s.take(i) =~= s);
    }
}

/// The number that one or more digits write, if it is at most `max`.
fn parse_digits(s: &[char], from: usize, radix: u32, max: u64) -> (value: Option<u64>)
    requires
        from <= s@.len(),
        2 <= radix <= 36,
    ensures
        match value {
            Some(v) => s@.skip(from as int).len() > 0 && all_digits(
                s@.skip(from as int),
                radix as nat,
            ) && v == digits_value(s@.skip(from as int), radix as nat) && v <= max,
            None => s@.skip(from as int).len() == 0 || !all_digits(
                s@.skip(from as int),
                radix as nat,
            ) || digits_value(s@.skip(from as int), radix as nat) > max,
        },
{
    let ghost digits = s@.skip(from as int);
    if from == s.len() {
        return None;
    }
    let mut value: u64 = 0;
    let mut i: usize = from;
    while i < s.len()
        invariant
            from <= i <= s@.len(),
            2 <= radix <= 36,
            digits == s@.skip(from as int),
            forall|k: int| 0 <= k < i - from ==> digit_value(#[trigger] digits[k]) < radix,
            value == digits_value(digits.take(i - from), radix as nat),
            value <= max,
        decreases s@.len() - i,
    {
        let d: u32 = digit_of(s[i]);
        proof {
            assert(digits[i - from] == s@[i as int]);
        }
        if d >= radix {
            return None;
        }
        proof {
            assert(value * radix <= 0xffff_ffff_ffff_ffff * 36) by (nonlinear_arith)
                requires
                    value <= 0xffff_ffff_ffff_ffffu64,
                    radix <= 36,
            ;
        }
        let next: u128 = value as u128 * radix as u128 + d as u128;
        proof {
            assert(digits.take(i + 1 - from).drop_last() =~= digits.take(i - from));
            assert(next == digits_value(digits.take(i + 1 - from), radix as nat));
        }
        if next > max as u128 {
            proof {
                lemma_digits_value_grows(digits, i + 1 - from, radix as nat);
            }
            return None;
        }
        value = next as u64;
        i = i + 1;
    }
    proof {
        assert(digits.take(i - from) =~= digits);
    }
    Some(value)
}

/// The unsigned number that `s` writes in base `radix`, if it is at most `max`.
pub fn parse_unsigned(s: &[char], radix: u32, max: u64) -> (value: Option<u64>)
    requires
        2 <= radix <= 36,
    ensures
        match value {
            Some(v) => unsigned_value(s@, radix as nat, max as nat) == Some(v as nat),
            None => unsigned_value(s@, radix as nat, max as nat) is None,
        },
{
    proof {
        assert(s@.skip(0) =~= s@);
    }
    if s.len() > 0 && s[0] == '+' {
        parse_digits(s, 1, radix, max)
    } else {
        parse_digits(s, 0, radix, max)
    }
}

/// The 32-bit unsigned decimal number that `s` writes.
pub fn parse_u32(s: &[char]) -> (value: Option<u32>)
    ensures
        match value {
            Some(v) => unsigned_value(s@, 10, u32::MAX as nat) == Some(v as nat),
            None => unsigned_value(s@, 10, u32::MAX as nat) is None,
        },
{
    match parse_unsigned(s, 10, 0xffff_ffff) {
        Some(v) => Some(v as u32),
        None => None,
    }
}

/// The 32-bit unsigned hexadecimal number that `s` writes.
pub fn parse_hex_u32(s: &[char]) -> (value: Option<u32>)
    ensures
        match value {
            Some(v) => unsigned_value(s@, 16, u32::MAX as nat) == Some(v as nat),
            None => unsigned_value(s@, 16, u32::MAX as nat) is None,
        },
{
    match parse_unsigned(s, 16, 0xffff_ffff) {
        Some(v) => Some(v as u32),
        None => None,
    }
}

/// The 64-bit unsigned decimal number that `s` writes.
pub fn parse_u64(s: &[char]) -> (value: Option<u64>)
    ensures
        match value {
            Some(v) => unsigned_value(s@, 10, u64::MAX as nat) == Some(v as nat),
            None => unsigned_value(s@, 10, u64::MAX as nat) is None,
        },
{
    parse_unsigned(s, 10, 0xffff_ffff_ffff_ffff)
}

/// The machine-word unsigned decimal number that `s` writes.
pub fn parse_usize(s: &[char]) -> (value: Option<usize>)
    ensures
        match value {
            Some(v) => unsigned_value(s@, 10, usize::MAX as nat) == Some(v as nat),
            None => unsigned_value(s@, 10, usize::MAX as nat) is None,
        },
{
    match parse_unsigned(s, 10, usize::MAX as u64) {
        Some(v) => Some(v as usize),
        None => None,
    }
}

/// The signed 32-bit decimal number that `s` writes.
pub fn parse_i32(s: &[char]) -> (value: Option<i32>)
    ensures
        match value {
            Some(v) => i32_value(s@) == Some(v as int),
            None => i32_value(s@) is None,
        },
{
    if s.len() > 0 && s[0] == '-' {
        match parse_digits(s, 1, 10, 0x8000_0000) {
            Some(v) => Some((0 - v as i64) as i32),
            None => None,
        }
    } else {
        match parse_unsigned(s, 10, 0x7fff_ffff) {
            Some(v) => Some(v as i32),
            None => None,
        }
    }
}

/// The decimal representation of `n`, without leading zeros.
pub fn decimal_of(n: u64) -> (digits: Vec<char>)
    ensures
        digits@ == decimal(n as nat),
    decreases n,
{
    let last: char = ('0' as u8 + (n % 10) as u8) as char;
    let mut digits: Vec<char> = if n < 10 {
        Vec::new()
    } else {
        decimal_of(n / 10)
    };
    digits.push(last);
    digits
}

/// Appends characters to the end of a character vector.
pub fn append(to: &mut Vec<char>, more: &[char])
    ensures
        final(to)@ == old(to)@ + more@,
{
    let mut i: usize = 0;
    proof {
        assert(to@ =~= old(to)@ + more@.take(0));
    }
    while i < more.len()
        invariant
            i <= more@.len(),
            to@ == old(to)@ + more@.take(i as int),
        decreases more@.len() - i,
    {
        to.push(more[i]);
        proof {
            assert(more@.take(i + 1) =~= more@.take(i as int).push(more@[i as int]));
            assert(to@ =~= old(to)@ + more@.take(i + 1));
        }
        i = i + 1;
    }
    proof {
        assert(more@.take(i as int) =~= more@);
    }
}

/// A sentence with a number in it.
pub fn numbered(before: &str, n: u64, after: &str) -> (s: String)
    ensures
        s@ == before@ + decimal(n as nat) + after@,
{
    let mut chars = chars_of(before);
    append(&mut chars, &decimal_of(n));
    append(&mut chars, &chars_of(after));
    string_of(&chars)
}

/// A sentence that ends in a number.
pub fn ending_in(before: &str, n: u64) -> (s: String)
    ensures
        s@ == before@ + decimal(n as nat),
{
    let mut chars = chars_of(before);
    append(&mut chars, &decimal_of(n));
    string_of(&chars)
}

/// A number in decimal.
pub fn number(n: u64) -> (s: String)
    ensures
        s@ == decimal(n as nat),
{
    string_of(&decimal_of(n))
}

/// A string of its own with the same text.
pub fn copied(s: &str) -> (copy: String)
    ensures
        copy@ == s@,
{
    string_of(&chars_of(s))
}

/// The parts, with `separator` between each and the next.
pub open spec fn joined(parts: Seq<Seq<char>>, separator: Seq<char>) -> Seq<char>
    decreases parts.len(),
{
    if parts.len() == 0 {
        Seq::empty()
    } else if parts.len() == 1 {
        parts[0]
    } else {
        joined(parts.drop_last(), separator) + separator + parts.last()
    }
}

/// The parts, with `separator` between each and the next.
pub fn join(parts: &Vec<String>, separator: &str) -> (all: String)
    ensures
        all@ == joined(string_views(parts@), separator@),
{
    let gap = chars_of(separator);
    let ghost texts = string_views(parts@);
    let mut all: Vec<char> = Vec::new();
    let mut i: usize = 0;
    while i < parts.len()
        invariant
            i <= parts@.len(),
            texts == string_views(parts@),
            gap@ == separator@,
            all@ == joined(texts.take(i as int), separator@),
        decreases parts@.len() - i,
    {
        proof {
            assert(texts.take(i + 1).drop_last() =~= texts.take(i as int));
            assert(texts.take(i + 1).last() == parts@[i as int]@);
        }
        let ghost before = all@;
        if i > 0 {
            append(&mut all, &gap);
        }
        append(&mut all, &chars_of(parts[i].as_str()));
        proof {
            if i == 0 {
                assert(all@ =~= parts@[0]@);
            }
        }
        i = i + 1;
    }
    proof {
        assert(texts.take(i as int) =~= texts);
    }
    string_of(&all)
}

/// `s` without `prefix`, if it begins with it.
pub open spec fn after_prefix(s: Seq<char>, prefix: Seq<char>) -> Option<Seq<char>> {
    if begins_with(s, prefix) {
        Some(s.skip(prefix.len() as int))
    } else {
        None
    }
}

/// `s` without `prefix`, if it begins with it.
pub fn strip_prefix(s: &[char], prefix: &str) -> (rest: Option<Vec<char>>)
    ensures
        match rest {
            Some(r) => after_prefix(s@, prefix@) == Some(r@),
            None => after_prefix(s@, prefix@) is None,
        },
{
    let head = chars_of(prefix);
    if !starts_with(s, &head) {
        return None;
    }
    let rest = slice_of(s, head.len(), s.len());
    proof {
        assert(rest@ =~= s@.skip(prefix@.len() as int));
    }
    Some(rest)
}

/// The decimal representation of a number reads back as that number.
pub proof fn law_decimal_reads_back(n: nat)
    ensures
        decimal(n).len() > 0,
        all_digits(decimal(n), 10),
        decimal(n)[0] != '+',
        digits_value(decimal(n), 10) == n,
        unsigned_value(decimal(n), 10, n) == Some(n),
    decreases n,
{
    if n < 10 {
        let d = decimal(n);
        assert(d.drop_last() =~= Seq::empty());
        assert(digits_value(d.drop_last(), 10) == 0);
        assert(digit_value(d.last()) == n);
    } else {
        law_decimal_reads_back(n / 10);
        assert(decimal(n).drop_last() =~= decimal(n / 10));
        assert(digit_value(decimal(n).last()) == n % 10);
        assert(digits_value(decimal(n), 10) == (n / 10) * 10 + n % 10);
        assert(decimal(n)[0] == decimal(n / 10)[0]);
    }
}

/// Two numbers with the same decimal representation are the same.
pub proof fn law_decimal_is_unambiguous(a: nat, b: nat)
    requires
        decimal(a) == decimal(b),
    ensures
        a == b,
{
    law_decimal_reads_back(a);
    law_decimal_reads_back(b);
}

/// Splitting always gives a piece.
pub proof fn lemma_there_is_a_piece(s: Seq<char>, separator: char)
    ensures
        split_at_char(s, separator).len() > 0,
{
    lemma_some_piece(s, is_char(separator));
}

proof fn lemma_some_piece(s: Seq<char>, is_separator: spec_fn(char) -> bool)
    ensures
        pieces(s, is_separator).len() > 0,
    decreases s.len(),
{
    if s.len() > 0 {
        lemma_some_piece(s.drop_last(), is_separator);
    }
}

/// Dictionary order: `a` comes before `b`.
pub open spec fn comes_before(a: Seq<char>, b: Seq<char>) -> bool
    decreases a.len(),
{
    if b.len() == 0 {
        false
    } else if a.len() == 0 {
        true
    } else if a[0] != b[0] {
        a[0] < b[0]
    } else {
        comes_before(a.skip(1), b.skip(1))
    }
}

/// Whether `a` comes before `b` in dictionary order.
pub fn is_before(a: &[char], b: &[char]) -> (before: bool)
    ensures
        before == comes_before(a@, b@),
{
    let mut i: usize = 0;
    proof {
        assert(a@.skip(0) =~= a@);
        assert(b@.skip(0) =~= b@);
    }
    while i < a.len() && i < b.len() && a[i] == b[i]
        invariant
            i <= a@.len(),
            i <= b@.len(),
            comes_before(a@, b@) == comes_before(a@.skip(i as int), b@.skip(i as int)),
        decreases a@.len() - i,
    {
        proof {
            assert(a@.skip(i as int).skip(1) =~= a@.skip(i + 1));
            assert(b@.skip(i as int).skip(1) =~= b@.skip(i + 1));
        }
        i = i + 1;
    }
    if i == b.len() {
        false
    } else if i == a.len() {
        true
    } else {
        a[i] < b[i]
    }
}

/// Dictionary order is a strict total order.
pub proof fn law_dictionary_order(a: Seq<char>, b: Seq<char>, c: Seq<char>)
    ensures
        !comes_before(a, a),
        a == b || comes_before(a, b) || comes_before(b, a),
        !(comes_before(a, b) && comes_before(b, a)),
        comes_before(a, b) && comes_before(b, c) ==> comes_before(a, c),
    decreases a.len() + b.len() + c.len(),
{
    if a.len() > 0 {
        if b.len() > 0 && a[0] == b[0] {
            if c.len() > 0 && b[0] == c[0] {
                law_dictionary_order(a.skip(1), b.skip(1), c.skip(1));
            } else {
                law_dictionary_order(a.skip(1), b.skip(1), c);
            }
            if a.skip(1) == b.skip(1) {
                assert(a =~= seq![a[0]] + a.skip(1));
                assert(b =~= seq![b[0]] + b.skip(1));
            }
        }
    } else if b.len() == 0 {
        assert(a =~= b);
    }
    lemma_not_before_itself(a);
}

proof fn lemma_not_before_itself(a: Seq<char>)
    ensures
        !comes_before(a, a),
    decreases a.len(),
{
    if a.len() > 0 {
        lemma_not_before_itself(a.skip(1));
    }
}

/// Every character is white space.
pub open spec fn all_white(s: Seq<char>) -> bool {
    forall|i: int| 0 <= i < s.len() ==> is_white_space(#[trigger] s[i])
}

/// Trimming takes off the white space around a text and nothing of the text itself.
pub proof fn law_trimming_takes_off_the_margins(before: Seq<char>, s: Seq<char>, after: Seq<char>)
    requires
        all_white(before),
        all_white(after),
        s.len() > 0 ==> !is_white_space(s[0]) && !is_white_space(s.last()),
    ensures
        trimmed(before + s + after) == s,
{
    assert(before + s + after =~= before + (s + after));
    lemma_trim_start(before, s + after);
    if s.len() > 0 {
        assert((s + after)[0] == s[0]);
        assert(trimmed_start(s + after) == s + after);
        lemma_trim_end(s, after);
        assert(trimmed_end(s) == s);
    } else {
        lemma_trim_start(after, Seq::empty());
        assert(s + after =~= after + Seq::empty());
        assert(trimmed_start(Seq::<char>::empty()) == Seq::<char>::empty());
        assert(trimmed_end(Seq::<char>::empty()) == Seq::<char>::empty());
        assert(s =~= Seq::empty());
    }
}

proof fn lemma_trim_start(before: Seq<char>, rest: Seq<char>)
    requires
        all_white(before),
    ensures
        trimmed_start(before + rest) == trimmed_start(rest),
    decreases before.len(),
{
    if before.len() > 0 {
        let tail = before.skip(1);
        assert forall|i: int| 0 <= i < tail.len() implies is_white_space(#[trigger] tail[i]) by {
            assert(tail[i] == before[i + 1]);
        }
        lemma_trim_start(tail, rest);
        assert((before + rest)[0] == before[0]);
        assert((before + rest).skip(1) =~= tail + rest);
    } else {
        assert(before + rest =~= rest);
    }
}

proof fn lemma_trim_end(rest: Seq<char>, after: Seq<char>)
    requires
        all_white(after),
    ensures
        trimmed_end(rest + after) == trimmed_end(rest),
    decreases after.len(),
{
    if after.len() > 0 {
        let head = after.drop_last();
        assert forall|i: int| 0 <= i < head.len() implies is_white_space(#[trigger] head[i]) by {
            assert(head[i] == after[i]);
        }
        lemma_trim_end(rest, head);
        assert((rest + after).last() == after[after.len() - 1]);
        assert((rest + after).drop_last() =~= rest + head);
    } else {
        assert(rest + after =~= rest);
    }
}

proof fn lemma_pieces_extend(a: Seq<char>, b: Seq<char>, is_separator: spec_fn(char) -> bool)
    requires
        forall|i: int| 0 <= i < b.len() ==> !is_separator(#[trigger] b[i]),
    ensures
        pieces(a, is_separator).len() > 0,
        pieces(a + b, is_separator) == pieces(a, is_separator).drop_last().push(
            pieces(a, is_separator).last() + b,
        ),
    decreases b.len(),
{
    lemma_some_piece(a, is_separator);
    let all = pieces(a, is_separator);
    if b.len() > 0 {
        let head = b.drop_last();
        assert forall|i: int| 0 <= i < head.len() implies !is_separator(#[trigger] head[i]) by {
            assert(head[i] == b[i]);
        }
        lemma_pieces_extend(a, head, is_separator);
        assert((a + b).drop_last() =~= a + head);
        assert((a + b).last() == b[b.len() - 1]);
        let before = pieces(a + head, is_separator);
        assert(before.drop_last() =~= all.drop_last());
        assert(before.last() == all.last() + head);
        assert((all.last() + head).push(b.last()) =~= all.last() + b);
    } else {
        assert(a + b =~= a);
        assert(all.last() + b =~= all.last());
        assert(all.drop_last().push(all.last()) =~= all);
    }
}

/// Splitting undoes joining: parts without the separator in them come back as they were, the empty
/// ones included.
pub proof fn law_splitting_undoes_joining(parts: Seq<Seq<char>>, separator: char)
    requires
        parts.len() > 0,
        forall|k: int| 0 <= k < parts.len() ==> !(#[trigger] parts[k]).contains(separator),
    ensures
        split_at_char(joined(parts, seq![separator]), separator) == parts,
{
    assert forall|k: int, i: int|
        0 <= k < parts.len() && 0 <= i < parts[k].len() implies !is_char(separator)(
        #[trigger] parts[k][i],
    ) by {
        assert(!parts[k].contains(separator));
    }
    lemma_pieces_of_joined(parts, separator, is_char(separator));
}

/// The words of a text are what stands between its spaces.
pub proof fn law_words_undo_spacing(parts: Seq<Seq<char>>)
    requires
        parts.len() > 0,
        forall|k: int| 0 <= k < parts.len() ==> (#[trigger] parts[k]).len() > 0,
        forall|k: int, i: int|
            0 <= k < parts.len() && 0 <= i < parts[k].len() ==> !is_white_space(
                #[trigger] parts[k][i],
            ),
    ensures
        words(joined(parts, seq![' '])) == parts,
{
    assert forall|k: int, i: int| 0 <= k < parts.len() && 0 <= i < parts[k].len() implies !is_gap()(
        #[trigger] parts[k][i],
    ) by {}
    lemma_pieces_of_joined(parts, ' ', is_gap());
    lemma_filter_keeps_all(parts, |piece: Seq<char>| piece.len() > 0);
}

proof fn lemma_filter_keeps_all(s: Seq<Seq<char>>, keep: spec_fn(Seq<char>) -> bool)
    requires
        forall|i: int| 0 <= i < s.len() ==> keep(#[trigger] s[i]),
    ensures
        s.filter(keep) == s,
    decreases s.len(),
{
    reveal(Seq::filter);
    if s.len() > 0 {
        let init = s.drop_last();
        assert forall|i: int| 0 <= i < init.len() implies keep(#[trigger] init[i]) by {
            assert(init[i] == s[i]);
        }
        lemma_filter_keeps_all(init, keep);
        assert(keep(s[s.len() - 1]));
        assert(init.push(s.last()) =~= s);
    } else {
        assert(s.filter(keep) =~= s);
    }
}

proof fn lemma_pieces_of_joined(
    parts: Seq<Seq<char>>,
    separator: char,
    is_separator: spec_fn(char) -> bool,
)
    requires
        parts.len() > 0,
        is_separator(separator),
        forall|k: int, i: int|
            0 <= k < parts.len() && 0 <= i < parts[k].len() ==> !is_separator(
                #[trigger] parts[k][i],
            ),
    ensures
        pieces(joined(parts, seq![separator]), is_separator) == parts,
    decreases parts.len(),
{
    let gap = seq![separator];
    let last = parts.last();
    assert(last == parts[parts.len() - 1]);
    assert forall|i: int| 0 <= i < last.len() implies !is_separator(#[trigger] last[i]) by {
        assert(!is_separator(parts[parts.len() - 1][i]));
    }
    if parts.len() == 1 {
        lemma_pieces_extend(Seq::empty(), last, is_separator);
        assert(Seq::<char>::empty() + last =~= last);
        assert(pieces(last, is_separator) =~= parts);
    } else {
        let init = parts.drop_last();
        assert forall|k: int, i: int|
            0 <= k < init.len() && 0 <= i < init[k].len() implies !is_separator(
            #[trigger] init[k][i],
        ) by {
            assert(init[k] == parts[k]);
            assert(!is_separator(parts[k][i]));
        }
        lemma_pieces_of_joined(init, separator, is_separator);
        let head = joined(init, gap);
        assert(head + gap =~= head.push(separator));
        assert(head.push(separator).drop_last() =~= head);
        assert(pieces(head + gap, is_separator) == init.push(Seq::empty()));
        lemma_pieces_extend(head + gap, last, is_separator);
        assert(init.push(Seq::<char>::empty()).drop_last() =~= init);
        assert(Seq::<char>::empty() + last =~= last);
        assert(init.push(last) =~= parts);
    }
}

/// The first piece of a text is what stands before the first separator, or all of it.
pub proof fn law_the_first_piece_ends_at_the_first_separator(
    a: Seq<char>,
    b: Seq<char>,
    separator: char,
)
    requires
        !a.contains(separator),
    ensures
        split_at_char(a, separator)[0] == a,
        split_at_char(a + seq![separator] + b, separator)[0] == a,
{
    let is_separator = is_char(separator);
    assert forall|i: int| 0 <= i < a.len() implies !is_separator(#[trigger] a[i]) by {
        assert(a.contains(a[i]));
    }
    lemma_pieces_extend(Seq::empty(), a, is_separator);
    assert(Seq::<char>::empty() + a =~= a);
    let head = a + seq![separator];
    assert(head.drop_last() =~= a);
    lemma_first_piece_stays(head, b, is_separator);
}

proof fn lemma_first_piece_stays(a: Seq<char>, b: Seq<char>, is_separator: spec_fn(char) -> bool)
    requires
        pieces(a, is_separator).len() >= 2,
    ensures
        pieces(a + b, is_separator).len() >= 2,
        pieces(a + b, is_separator)[0] == pieces(a, is_separator)[0],
    decreases b.len(),
{
    if b.len() > 0 {
        lemma_first_piece_stays(a, b.drop_last(), is_separator);
        assert((a + b).drop_last() =~= a + b.drop_last());
    } else {
        assert(a + b =~= a);
    }
}

/// Splitting at the first separator gives the text before it, which holds none, and the text after
/// it; together with the separator they are the whole. There are no halves exactly if there is no
/// separator.
pub proof fn law_halves_at_the_first_make_the_whole(s: Seq<char>, c: char)
    ensures
        split_first(s, c) is None <==> !s.contains(c),
        split_first(s, c) matches Some((a, b)) ==> s == a + seq![c] + b && !a.contains(c),
{
    lemma_index_of_first(s, c);
    let i = index_of_first(s, c) as int;
    if i < s.len() {
        assert(s[i] == c);
        assert(s =~= s.take(i) + seq![c] + s.skip(i + 1));
        assert forall|k: int| 0 <= k < i implies s.take(i)[k] != c by {}
    }
}

/// A text with no separator in its first half splits into its halves.
pub proof fn law_halves_come_back(a: Seq<char>, b: Seq<char>, c: char)
    ensures
        !a.contains(c) ==> split_first(a + seq![c] + b, c) == Some((a, b)),
        !b.contains(c) ==> split_last(a + seq![c] + b, c) == Some((a, b)),
{
    let s = a + seq![c] + b;
    let n = a.len() as int;
    assert(s[n] == c);
    if !a.contains(c) {
        lemma_index_of_first(s, c);
        let i = index_of_first(s, c) as int;
        if i < n {
            assert(a[i] == s[i]);
        } else if i > n {
            assert(s[n] != c);
        }
        assert(s.take(n) =~= a);
        assert(s.skip(n + 1) =~= b);
    }
    if !b.contains(c) {
        lemma_index_after_last(s, c);
        let i = index_after_last(s, c) as int;
        if i < n + 1 {
            assert(s[n] != c);
        } else if i > n + 1 {
            assert(s[i - 1] == b[i - 2 - n]);
        }
        assert(s.take(n) =~= a);
        assert(s.skip(n + 1) =~= b);
    }
}

/// Splitting at the last separator gives the text before it and the text after it, which holds
/// none.
pub proof fn law_halves_at_the_last_make_the_whole(s: Seq<char>, c: char)
    ensures
        split_last(s, c) is None <==> !s.contains(c),
        split_last(s, c) matches Some((a, b)) ==> s == a + seq![c] + b && !b.contains(c),
{
    lemma_index_after_last(s, c);
    let i = index_after_last(s, c) as int;
    if i > 0 {
        assert(s[i - 1] == c);
        assert(s =~= s.take(i - 1) + seq![c] + s.skip(i));
        assert forall|k: int| 0 <= k < s.len() - i implies s.skip(i)[k] != c by {}
    }
}

proof fn lemma_index_of_first(s: Seq<char>, c: char)
    ensures
        index_of_first(s, c) <= s.len(),
        index_of_first(s, c) < s.len() ==> s[index_of_first(s, c) as int] == c,
        forall|k: int| 0 <= k < index_of_first(s, c) ==> s[k] != c,
    decreases s.len(),
{
    if s.len() > 0 && s[0] != c {
        let tail = s.skip(1);
        lemma_index_of_first(tail, c);
        assert forall|k: int| 0 <= k < index_of_first(s, c) implies s[k] != c by {
            if k > 0 {
                assert(tail[k - 1] == s[k]);
            }
        }
    }
}

proof fn lemma_index_after_last(s: Seq<char>, c: char)
    ensures
        index_after_last(s, c) <= s.len(),
        index_after_last(s, c) > 0 ==> s[index_after_last(s, c) - 1] == c,
        forall|k: int| index_after_last(s, c) <= k < s.len() ==> s[k] != c,
    decreases s.len(),
{
    if s.len() > 0 && s.last() != c {
        let head = s.drop_last();
        lemma_index_after_last(head, c);
        assert forall|k: int| index_after_last(s, c) <= k < s.len() implies s[k] != c by {
            if k < head.len() {
                assert(head[k] == s[k]);
            }
        }
    }
}

/// The digit that stands for `d` in a base beyond ten, in lower case.
pub open spec fn wide_digit(d: nat) -> char {
    if d < 10 {
        digit_char(d)
    } else {
        (('a' as u32) + (d - 10)) as char
    }
}

/// The representation of `n` in base `radix`, without leading zeros.
pub open spec fn in_base(n: nat, radix: nat) -> Seq<char>
    decreases n,
{
    if n < radix || radix < 2 {
        seq![wide_digit(n)]
    } else {
        proof {
            lemma_quotient_is_less(n, radix);
        }
        in_base(n / radix, radix).push(wide_digit(n % radix))
    }
}

pub proof fn lemma_quotient_is_less(n: nat, radix: nat)
    requires
        n >= radix >= 2,
    ensures
        n / radix < n,
{
    vstd::arithmetic::div_mod::lemma_div_decreases(n as int, radix as int);
}

/// A number written in a base reads back as that number, exactly if it is not too large.
pub proof fn law_numbers_read_back_in_any_base(n: nat, radix: nat, max: nat)
    requires
        2 <= radix <= 36,
    ensures
        digits_value(in_base(n, radix), radix) == n,
        unsigned_value(in_base(n, radix), radix, max) == if n <= max {
            Some(n)
        } else {
            None
        },
{
    lemma_in_base(n, radix);
}

proof fn lemma_in_base(n: nat, radix: nat)
    requires
        2 <= radix <= 36,
    ensures
        in_base(n, radix).len() > 0,
        all_digits(in_base(n, radix), radix),
        in_base(n, radix)[0] != '+',
        digits_value(in_base(n, radix), radix) == n,
    decreases n,
{
    let d = in_base(n, radix);
    if n < radix {
        assert(d.drop_last() =~= Seq::empty());
        assert(digits_value(d.drop_last(), radix) == 0);
        assert(digit_value(d.last()) == n);
        assert(0 * radix == 0) by (nonlinear_arith);
    } else {
        lemma_quotient_is_less(n, radix);
        lemma_in_base(n / radix, radix);
        let m = n % radix;
        assert(m < radix) by {
            vstd::arithmetic::div_mod::lemma_mod_bound(n as int, radix as int);
        }
        assert(d.drop_last() =~= in_base(n / radix, radix));
        assert(digit_value(wide_digit(m)) == m);
        vstd::arithmetic::div_mod::lemma_fundamental_div_mod(n as int, radix as int);
        assert((n / radix) * radix == radix * (n / radix)) by (nonlinear_arith);
        assert(d[0] == in_base(n / radix, radix)[0]);
        assert forall|i: int| 0 <= i < d.len() implies digit_value(#[trigger] d[i]) < radix by {
            if i < d.len() - 1 {
                assert(d[i] == in_base(n / radix, radix)[i]);
            }
        }
    }
}

/// Zeros in front of a number do not change it, and neither does one plus sign.
pub proof fn law_leading_zeros_do_not_count(s: Seq<char>, radix: nat, max: nat)
    requires
        s.len() > 0,
        2 <= radix <= 36,
        all_digits(s, radix),
    ensures
        unsigned_value(seq!['0'] + s, radix, max) == unsigned_value(s, radix, max),
        unsigned_value(seq!['+'] + s, radix, max) == unsigned_value(s, radix, max),
{
    let zeroed = seq!['0'] + s;
    lemma_zero_in_front(s, radix);
    assert(digit_value(s[0]) < radix);
    assert(zeroed[0] == '0');
    assert forall|i: int| 0 <= i < zeroed.len() implies digit_value(#[trigger] zeroed[i])
        < radix by {
        if i > 0 {
            assert(zeroed[i] == s[i - 1]);
        }
    }
    assert((seq!['+'] + s).skip(1) =~= s);
}

proof fn lemma_zero_in_front(s: Seq<char>, radix: nat)
    ensures
        digits_value(seq!['0'] + s, radix) == digits_value(s, radix),
    decreases s.len(),
{
    let zeroed = seq!['0'] + s;
    if s.len() > 0 {
        lemma_zero_in_front(s.drop_last(), radix);
        assert(zeroed.drop_last() =~= seq!['0'] + s.drop_last());
    } else {
        assert(zeroed.drop_last() =~= Seq::empty());
        assert(digits_value(zeroed.drop_last(), radix) == 0);
        assert(0 * radix == 0) by (nonlinear_arith);
    }
}

/// What is read as a number holds nothing but digits, one plus sign in front aside.
pub proof fn law_only_digits_are_read(s: Seq<char>, radix: nat, max: nat, i: int)
    requires
        2 <= radix <= 36,
        0 <= i < s.len(),
        digit_value(s[i]) >= radix,
        i > 0 || s[0] != '+',
    ensures
        unsigned_value(s, radix, max) is None,
{
    if s[0] == '+' {
        assert(s.skip(1)[i - 1] == s[i]);
    }
}

/// A decimal number reads back in 64 bits, and in 32 bits with its sign.
pub proof fn law_signed_numbers_read_back(n: nat)
    ensures
        i32_value(decimal(n)) == if n <= 0x7fff_ffff {
            Some(n as int)
        } else {
            None
        },
        i32_value(seq!['-'] + decimal(n)) == if n <= 0x8000_0000 {
            Some(-(n as int))
        } else {
            None
        },
{
    law_decimal_reads_back(n);
    assert((seq!['-'] + decimal(n)).skip(1) =~= decimal(n));
    assert(digit_value(decimal(n)[0]) < 10);
}

/// Letters of either case stand for the same digit, and lower case is what upper case turns into:
/// the letter at the same place in the alphabet. Every other character is kept.
pub proof fn law_case_does_not_count(c: char, k: nat)
    requires
        k < 26,
    ensures
        digit_value(ascii_lower(c)) == digit_value(c),
        ascii_lower(ascii_lower(c)) == ascii_lower(c),
        ascii_lower((('A' as u32) + k) as char) == (('a' as u32) + k) as char,
        !('A' <= c <= 'Z') ==> ascii_lower(c) == c,
{
}

/// In dictionary order the first difference decides, and a text comes before what extends it.
pub proof fn law_the_first_difference_decides(
    head: Seq<char>,
    x: char,
    y: char,
    s: Seq<char>,
    t: Seq<char>,
)
    ensures
        x != y ==> (comes_before(head + seq![x] + s, head + seq![y] + t) <==> x < y),
        comes_before(head, head + seq![y] + t),
    decreases head.len(),
{
    let a = head + seq![x] + s;
    let b = head + seq![y] + t;
    if head.len() > 0 {
        let tail = head.skip(1);
        law_the_first_difference_decides(tail, x, y, s, t);
        assert(a[0] == head[0] && b[0] == head[0]);
        assert(a.skip(1) =~= tail + seq![x] + s);
        assert(b.skip(1) =~= tail + seq![y] + t);
    } else {
        assert(a[0] == x);
        assert(b[0] == y);
    }
}

/// The fields of a row are what stands between its commas, each without its margins.
pub proof fn law_fields_stand_between_commas(raw: Seq<Seq<char>>, k: int)
    requires
        forall|j: int| 0 <= j < raw.len() ==> !(#[trigger] raw[j]).contains(','),
        0 <= k < raw.len(),
    ensures
        trimmed_fields(joined(raw, seq![','])).len() == raw.len(),
        trimmed_fields(joined(raw, seq![',']))[k] == trimmed(raw[k]),
{
    law_splitting_undoes_joining(raw, ',');
}

/// The decimal representation of a number has no margins: nothing of it is trimmed.
pub proof fn law_numbers_have_no_margins(before: Seq<char>, n: nat, after: Seq<char>)
    requires
        all_white(before),
        all_white(after),
    ensures
        trimmed(before + decimal(n) + after) == decimal(n),
        trimmed(decimal(n)) == decimal(n),
        forall|i: int| 0 <= i < decimal(n).len() ==> '0' <= #[trigger] decimal(n)[i] <= '9',
{
    law_decimal_reads_back(n);
    lemma_decimal_digits(n);
    law_trimming_takes_off_the_margins(before, decimal(n), after);
    law_trimming_takes_off_the_margins(Seq::empty(), decimal(n), Seq::empty());
    assert(Seq::<char>::empty() + decimal(n) + Seq::<char>::empty() =~= decimal(n));
}

proof fn lemma_decimal_digits(n: nat)
    ensures
        decimal(n).len() > 0,
        forall|i: int| 0 <= i < decimal(n).len() ==> '0' <= #[trigger] decimal(n)[i] <= '9',
    decreases n,
{
    if n >= 10 {
        lemma_decimal_digits(n / 10);
        assert forall|i: int| 0 <= i < decimal(n).len() implies '0' <= #[trigger] decimal(n)[i]
            <= '9' by {
            if i < decimal(n / 10).len() {
                assert(decimal(n)[i] == decimal(n / 10)[i]);
            }
        }
    }
}

/// A number ends where its digits end: two texts that begin with a number and go on with something
/// other than a digit begin with the same number if they are the same.
pub proof fn law_a_number_ends_where_its_digits_end(a: nat, x: Seq<char>, b: nat, y: Seq<char>)
    requires
        decimal(a) + x == decimal(b) + y,
        x.len() > 0 && !('0' <= x[0] <= '9'),
        y.len() > 0 && !('0' <= y[0] <= '9'),
    ensures
        a == b,
        x == y,
{
    let m = decimal(a).len() as int;
    let n = decimal(b).len() as int;
    let s = decimal(a) + x;
    lemma_decimal_digits(a);
    lemma_decimal_digits(b);
    if m < n {
        assert(s[m] == x[0]);
        assert((decimal(b) + y)[m] == decimal(b)[m]);
    } else if n < m {
        assert((decimal(b) + y)[n] == y[0]);
        assert(s[n] == decimal(a)[n]);
    }
    assert(s.take(m) =~= decimal(a));
    assert((decimal(b) + y).take(n) =~= decimal(b));
    assert(s.skip(m) =~= x);
    assert((decimal(b) + y).skip(n) =~= y);
    law_decimal_is_unambiguous(a, b);
}

} // verus!
