//! Text as sequences of characters: searching, splitting, ordering and
//! formatting, each stated over `Seq<char>`.
use vstd::prelude::*;
use vstd::string::*;
use vstd::utf8::*;

verus! {

/// `String::push` appends the given character to the end of the string.
pub assume_specification[ String::push ](s: &mut String, c: char)
    ensures
        final(s)@ == old(s)@.push(c),
;

/// What `str::to_lowercase` returns: the Unicode lowercase mapping of a text.
pub uninterp spec fn unicode_lowercase(s: Seq<char>) -> Seq<char>;

/// The ASCII lowercase form of a character; other characters are unchanged.
pub open spec fn ascii_lower_char(c: char) -> char {
    if 'A' <= c && c <= 'Z' {
        (c as u32 + 32) as char
    } else {
        c
    }
}

/// The text with every ASCII letter lowercased.
pub open spec fn ascii_lower(s: Seq<char>) -> Seq<char> {
    Seq::new(s.len(), |i: int| ascii_lower_char(s[i]))
}

/// `str::to_lowercase`: the lowercase equivalent of the text. On a text of
/// ASCII characters only the letters `A` to `Z` change.
#[verifier::external_body]
pub(crate) fn to_lowercase(s: &str) -> (r: String)
    ensures
        r@ == unicode_lowercase(s@),
        is_ascii_chars(s@) ==> r@ == ascii_lower(s@),
{
    s.to_lowercase()
}

/// Whether `needle` stands in `s` at position `i`.
pub open spec fn occurs_at(s: Seq<char>, needle: Seq<char>, i: int) -> bool {
    0 <= i && i + needle.len() <= s.len() && s.subrange(i, i + needle.len()) == needle
}

/// The first position at or after `from` where `needle` stands in `s`.
pub open spec fn find_from(s: Seq<char>, needle: Seq<char>, from: int) -> Option<int>
    decreases s.len() - from + 1,
{
    if from < 0 || from + needle.len() > s.len() {
        None
    } else if occurs_at(s, needle, from) {
        Some(from)
    } else {
        find_from(s, needle, from + 1)
    }
}

/// Whether `needle` stands anywhere in `s`.
pub open spec fn has_text(s: Seq<char>, needle: Seq<char>) -> bool {
    exists|i: int| occurs_at(s, needle, i)
}

/// Whether `s` begins with `prefix`.
pub open spec fn begins_with(s: Seq<char>, prefix: Seq<char>) -> bool {
    occurs_at(s, prefix, 0)
}

/// The search from a position finds the least occurrence, if there is one.
pub proof fn lemma_find_from(s: Seq<char>, needle: Seq<char>, from: int)
    requires
        0 <= from,
    ensures
        match find_from(s, needle, from) {
            Some(i) => from <= i && occurs_at(s, needle, i) && forall|j: int|
                from <= j < i ==> !occurs_at(s, needle, j),
            None => forall|j: int| from <= j ==> !occurs_at(s, needle, j),
        },
    decreases s.len() - from + 1,
{
    if from + needle.len() > s.len() {
    } else if occurs_at(s, needle, from) {
    } else {
        lemma_find_from(s, needle, from + 1);
    }
}

/// The characters of a string.
pub fn chars_of(s: &str) -> (r: Vec<char>)
    ensures
        r@ == s@,
{
    let mut out: Vec<char> = Vec::new();
    for c in it: s.chars()
        invariant
            it.seq() == s@,
            out@ == s@.take(it.index()),
    {
        out.push(c);
    }
    out
}

/// The string made of the given characters.
pub fn string_of(chars: &Vec<char>) -> (r: String)
    ensures
        r@ == chars@,
{
    let mut out = String::new();
    for i in 0..chars.len()
        invariant
            out@ == chars@.take(i as int),
    {
        out.push(chars[i]);
    }
    assert(chars@.take(chars@.len() as int) == chars@);
    out
}

/// Appends the text `tail` to `s`.
pub fn push_text(s: &mut String, tail: &str)
    ensures
        final(s)@ == old(s)@ + tail@,
{
    s.append(tail);
}

/// Whether two texts are equal.
pub fn text_eq(a: &str, b: &str) -> (r: bool)
    ensures
        r == (a@ == b@),
{
    let x = a.as_bytes();
    let y = b.as_bytes();
    proof {
        encode_utf8_decode_utf8(a@);
        encode_utf8_decode_utf8(b@);
    }
    if x.len() != y.len() {
        return false;
    }
    let mut i: usize = 0;
    while i < x.len()
        invariant
            i <= x.len(),
            x.len() == y.len(),
            x@ == encode_utf8(a@),
            y@ == encode_utf8(b@),
            forall|j: int| 0 <= j < i ==> x@[j] == y@[j],
        decreases x.len() - i,
    {
        if x[i] != y[i] {
            return false;
        }
        i += 1;
    }
    assert(x@ =~= y@);
    true
}


/// Whether `needle` stands in `s` at position `i`.
fn stands_at(s: &Vec<char>, needle: &Vec<char>, i: usize) -> (r: bool)
    requires
        i + needle@.len() <= s@.len(),
    ensures
        r == occurs_at(s@, needle@, i as int),
{
    let size: usize = s.len();
    let mut k: usize = 0;
    while k < needle.len()
        invariant
            k <= needle@.len(),
            i + needle@.len() <= size == s@.len(),
            forall|j: int| 0 <= j < k ==> s@[i + j] == needle@[j],
        decreases needle@.len() - k,
    {
        if s[i + k] != needle[k] {
            assert(s@.subrange(i as int, i + needle@.len())[k as int] != needle@[k as int]);
            return false;
        }
        k += 1;
    }
    assert(s@.subrange(i as int, i + needle@.len()) =~= needle@);
    true
}

/// The first position at or after `from` where `needle` stands in `s`.
pub fn find_in(s: &Vec<char>, needle: &Vec<char>, from: usize) -> (r: Option<usize>)
    ensures
        match r {
            Some(i) => find_from(s@, needle@, from as int) == Some(i as int),
            None => find_from(s@, needle@, from as int) is None,
        },
{
    let mut i: usize = from;
    while needle.len() <= s.len() && i <= s.len() - needle.len()
        invariant
            from <= i,
            find_from(s@, needle@, from as int) == find_from(s@, needle@, i as int),
        decreases s@.len() - i + 1,
    {
        if stands_at(s, needle, i) {
            return Some(i);
        }
        if i == s.len() {
            assert(s@.subrange(i as int, i + needle@.len()) =~= needle@);
            return None;
        }
        i += 1;
    }
    None
}

/// Whether `needle` stands anywhere in `s`.
pub fn contains_text(s: &str, needle: &str) -> (r: bool)
    ensures
        r == has_text(s@, needle@),
{
    let hay = chars_of(s);
    let pin = chars_of(needle);
    proof {
        lemma_find_from(s@, needle@, 0);
    }
    match find_in(&hay, &pin, 0) {
        Some(_) => true,
        None => false,
    }
}

/// Whether `s` begins with `prefix`.
pub fn starts_with_text(s: &str, prefix: &str) -> (r: bool)
    ensures
        r == begins_with(s@, prefix@),
{
    let hay = chars_of(s);
    let pin = chars_of(prefix);
    if pin.len() > hay.len() {
        return false;
    }
    stands_at(&hay, &pin, 0)
}

/// The characters of `s` from `from` up to, but not with, `to`.
pub fn slice_chars(s: &Vec<char>, from: usize, to: usize) -> (r: Vec<char>)
    requires
        from <= to <= s@.len(),
    ensures
        r@ == s@.subrange(from as int, to as int),
{
    let mut out: Vec<char> = Vec::new();
    let mut i: usize = from;
    while i < to
        invariant
            from <= i <= to <= s@.len(),
            out@ == s@.subrange(from as int, i as int),
        decreases to - i,
    {
        out.push(s[i]);
        i += 1;
    }
    out
}

/// The pieces of `s` between the occurrences of a separator, found from left
/// to right without overlap.
pub open spec fn pieces(s: Seq<char>, separator: Seq<char>) -> Seq<Seq<char>>
    decreases s.len(),
    when separator.len() > 0
    via pieces_end
{
    match find_from(s, separator, 0) {
        Some(i) => seq![s.take(i)] + pieces(s.skip(i + separator.len()), separator),
        None => seq![s],
    }
}

#[via_fn]
proof fn pieces_end(s: Seq<char>, separator: Seq<char>) {
    lemma_find_from(s, separator, 0);
}

/// The characters of each string.
pub open spec fn char_views(s: Seq<Vec<char>>) -> Seq<Seq<char>> {
    Seq::new(s.len(), |i: int| s[i]@)
}

/// The views of a list of strings.
pub open spec fn views(s: Seq<String>) -> Seq<Seq<char>> {
    Seq::new(s.len(), |i: int| s[i]@)
}

/// Splits `s` at every occurrence of the separator.
pub fn split_pieces(s: &Vec<char>, separator: &Vec<char>) -> (r: Vec<Vec<char>>)
    requires
        separator@.len() > 0,
    ensures
        char_views(r@) == pieces(s@, separator@),
{
    let mut out: Vec<Vec<char>> = Vec::new();
    let mut start: usize = 0;
    assert(s@.skip(0) =~= s@);
    assert(char_views(out@) + pieces(s@.skip(0), separator@) =~= pieces(s@, separator@));
    loop
        invariant
            separator@.len() > 0,
            start <= s@.len(),
            char_views(out@) + pieces(s@.skip(start as int), separator@) == pieces(
                s@,
                separator@,
            ),
        decreases s@.len() - start,
    {
        let rest = slice_chars(s, start, s.len());
        assert(rest@ =~= s@.skip(start as int));
        proof {
            lemma_find_from(rest@, separator@, 0);
        }
        match find_in(&rest, separator, 0) {
            Some(i) => {
                let piece = slice_chars(&rest, 0, i);
                let ghost before = out@;
                out.push(piece);
                proof {
                    assert(piece@ =~= rest@.take(i as int));
                    assert(char_views(out@) =~= char_views(before).push(rest@.take(i as int)));
                    assert(rest@.skip(i + separator@.len()) =~= s@.skip(
                        start + i + separator@.len(),
                    ));
                    assert(char_views(before) + (seq![rest@.take(i as int)] + pieces(
                        rest@.skip(i + separator@.len()),
                        separator@,
                    )) =~= char_views(out@) + pieces(
                        rest@.skip(i + separator@.len()),
                        separator@,
                    ));
                }
                start = start + i + separator.len();
            },
            None => {
                let ghost before = out@;
                let ghost last = rest@;
                out.push(rest);
                proof {
                    assert(char_views(out@) =~= char_views(before).push(last));
                    assert(char_views(before) + seq![last] =~= char_views(out@));
                }
                return out;
            },
        }
    }
}

/// The items joined with a separator between neighbours.
pub open spec fn joined(items: Seq<Seq<char>>, separator: Seq<char>) -> Seq<char>
    decreases items.len(),
{
    if items.len() == 0 {
        Seq::empty()
    } else if items.len() == 1 {
        items[0]
    } else {
        joined(items.drop_last(), separator) + separator + items.last()
    }
}

/// Joins the items with a separator between neighbours.
pub fn join_text(items: &Vec<String>, separator: &str) -> (r: String)
    ensures
        r@ == joined(views(items@), separator@),
{
    let mut out = String::new();
    let mut i: usize = 0;
    assert(views(items@).take(0) =~= Seq::<Seq<char>>::empty());
    while i < items.len()
        invariant
            i <= items@.len(),
            out@ == joined(views(items@).take(i as int), separator@),
        decreases items@.len() - i,
    {
        if i > 0 {
            push_text(&mut out, separator);
        }
        push_text(&mut out, items[i].as_str());
        proof {
            let next = views(items@).take(i + 1);
            assert(next.drop_last() =~= views(items@).take(i as int));
            assert(next.last() == items@[i as int]@);
            if i == 0 {
                assert(out@ =~= items@[0]@);
                assert(next.len() == 1 && next[0] == items@[0]@);
            }
        }
        i += 1;
    }
    assert(views(items@).take(items@.len() as int) =~= views(items@));
    out
}

/// Whether a character has the Unicode `White_Space` property.
pub open spec fn white_space(c: char) -> bool {
    let v = c as u32;
    ||| 0x9 <= v <= 0xd
    ||| v == 0x20
    ||| v == 0x85
    ||| v == 0xa0
    ||| v == 0x1680
    ||| 0x2000 <= v <= 0x200a
    ||| v == 0x2028
    ||| v == 0x2029
    ||| v == 0x202f
    ||| v == 0x205f
    ||| v == 0x3000
}

/// Whether a character has the Unicode `White_Space` property.
pub fn is_white_space(c: char) -> (r: bool)
    ensures
        r == white_space(c),
{
    let v: u32 = c as u32;
    (0x9 <= v && v <= 0xd) || v == 0x20 || v == 0x85 || v == 0xa0 || v == 0x1680 || (0x2000 <= v
        && v <= 0x200a) || v == 0x2028 || v == 0x2029 || v == 0x202f || v == 0x205f || v == 0x3000
}

/// The text without the leading characters that are white space.
pub open spec fn trimmed_start(s: Seq<char>) -> Seq<char>
    decreases s.len(),
{
    if s.len() > 0 && white_space(s[0]) {
        trimmed_start(s.skip(1))
    } else {
        s
    }
}

/// The text without the trailing characters that satisfy a predicate.
pub open spec fn trimmed_end_by(s: Seq<char>, drop: spec_fn(char) -> bool) -> Seq<char>
    decreases s.len(),
{
    if s.len() > 0 && drop(s.last()) {
        trimmed_end_by(s.drop_last(), drop)
    } else {
        s
    }
}

/// The text without white space at either end.
pub open spec fn trimmed(s: Seq<char>) -> Seq<char> {
    trimmed_end_by(trimmed_start(s), |c: char| white_space(c))
}

/// Removes white space at both ends.
pub fn trim_chars(s: &Vec<char>) -> (r: Vec<char>)
    ensures
        r@ == trimmed(s@),
{
    let mut start: usize = 0;
    assert(s@.skip(0) =~= s@);
    while start < s.len() && is_white_space(s[start])
        invariant
            start <= s@.len(),
            trimmed_start(s@) == trimmed_start(s@.skip(start as int)),
        decreases s@.len() - start,
    {
        assert(s@.skip(start as int).skip(1) =~= s@.skip(start + 1));
        start += 1;
    }
    let ghost head = s@.skip(start as int);
    assert(trimmed_start(s@) == head);
    let mut end: usize = s.len();
    assert(s@.subrange(start as int, end as int) =~= head);
    while end > start && is_white_space(s[end - 1])
        invariant
            start <= end <= s@.len(),
            trimmed_end_by(head, |c: char| white_space(c)) == trimmed_end_by(
                s@.subrange(start as int, end as int),
                |c: char| white_space(c),
            ),
        decreases end,
    {
        assert(s@.subrange(start as int, end as int).drop_last() =~= s@.subrange(
            start as int,
            end - 1,
        ));
        end -= 1;
    }
    slice_chars(s, start, end)
}

/// Removes white space at both ends.
pub fn trim(s: &str) -> (r: String)
    ensures
        r@ == trimmed(s@),
{
    string_of(&trim_chars(&chars_of(s)))
}

/// Whether a character is one of `0` to `9`.
pub open spec fn ascii_digit(c: char) -> bool {
    '0' <= c && c <= '9'
}

/// Whether a character is a hexadecimal digit of either case.
pub open spec fn ascii_hex_digit(c: char) -> bool {
    ascii_digit(c) || ('a' <= c && c <= 'f') || ('A' <= c && c <= 'F')
}

/// Whether a character is an ASCII letter or digit.
pub open spec fn ascii_alphanumeric(c: char) -> bool {
    ascii_digit(c) || ('a' <= c && c <= 'z') || ('A' <= c && c <= 'Z')
}

/// Whether a character is one of `0` to `9`.
pub fn is_digit(c: char) -> (r: bool)
    ensures
        r == ascii_digit(c),
{
    '0' <= c && c <= '9'
}

/// Whether a character is a hexadecimal digit of either case.
pub fn is_hex_digit(c: char) -> (r: bool)
    ensures
        r == ascii_hex_digit(c),
{
    is_digit(c) || ('a' <= c && c <= 'f') || ('A' <= c && c <= 'F')
}

/// Lowercases the ASCII letters of a text.
pub fn to_ascii_lower(s: &str) -> (r: String)
    ensures
        r@ == ascii_lower(s@),
{
    let chars = chars_of(s);
    let mut out = String::new();
    let mut i: usize = 0;
    while i < chars.len()
        invariant
            i <= chars@.len(),
            chars@ == s@,
            out@ == ascii_lower(s@).take(i as int),
        decreases chars@.len() - i,
    {
        out.push(lower_char(chars[i]));
        assert(out@ =~= ascii_lower(s@).take(i + 1));
        i += 1;
    }
    assert(ascii_lower(s@).take(s@.len() as int) =~= ascii_lower(s@));
    out
}

/// The ASCII lowercase form of a character.
pub fn lower_char(c: char) -> (r: char)
    ensures
        r == ascii_lower_char(c),
{
    if 'A' <= c && c <= 'Z' {
        ((c as u8) + 32) as char
    } else {
        c
    }
}

/// The decimal digit, or hexadecimal digit in lower case, of a small number.
pub open spec fn digit_char(d: nat) -> char {
    if d < 10 {
        (48 + d) as char
    } else {
        (87 + d) as char
    }
}

/// The decimal digit, or hexadecimal digit in lower case, of a small number.
fn digit(d: u8) -> (r: char)
    requires
        d < 16,
    ensures
        r == digit_char(d as nat),
{
    if d < 10 {
        (48 + d) as char
    } else {
        (87 + d) as char
    }
}

/// The digits of a number in the given base, without leading zeros.
pub open spec fn numeral(n: nat, base: nat) -> Seq<char>
    decreases n,
    when base > 1
{
    if n < base {
        seq![digit_char(n)]
    } else {
        proof {
            assert(n / base < n) by (nonlinear_arith)
                requires
                    base > 1,
                    n >= base,
            ;
        }
        numeral(n / base, base).push(digit_char(n % base))
    }
}

/// The decimal digits of a number.
pub open spec fn decimal(n: int) -> Seq<char> {
    numeral(n as nat, 10)
}

/// The hexadecimal digits of a number, with a leading `0x`.
pub open spec fn hex_text(n: int) -> Seq<char> {
    seq!['0', 'x'] + numeral(n as nat, 16)
}

/// Exactly `width` hexadecimal digits of a number, the low ones.
pub open spec fn padded_hex(n: nat, width: nat) -> Seq<char>
    decreases width,
{
    if width == 0 {
        Seq::empty()
    } else {
        padded_hex(n / 16, (width - 1) as nat).push(digit_char(n % 16))
    }
}

/// Appends a number in decimal.
pub fn push_decimal(s: &mut String, n: u128)
    ensures
        final(s)@ == old(s)@ + decimal(n as int),
    decreases n,
{
    if n >= 10 {
        push_decimal(s, n / 10);
    }
    s.push(digit((n % 10) as u8));
    assert(s@ =~= old(s)@ + decimal(n as int));
}

/// Appends a number in hexadecimal.
fn push_hex(s: &mut String, n: u64)
    ensures
        final(s)@ == old(s)@ + numeral(n as nat, 16),
    decreases n,
{
    if n >= 16 {
        push_hex(s, n / 16);
    }
    s.push(digit((n % 16) as u8));
    assert(s@ =~= old(s)@ + numeral(n as nat, 16));
}

/// A number in decimal.
pub fn decimal_text(n: u128) -> (r: String)
    ensures
        r@ == decimal(n as int),
{
    let mut out = String::new();
    push_decimal(&mut out, n);
    assert(out@ =~= decimal(n as int));
    out
}

/// A number in hexadecimal with a leading `0x`.
pub fn hexadecimal_text(n: u64) -> (r: String)
    ensures
        r@ == hex_text(n as int),
{
    let mut out = String::new();
    out.push('0');
    out.push('x');
    push_hex(&mut out, n);
    assert(out@ =~= hex_text(n as int));
    out
}

/// Appends exactly `width` hexadecimal digits of a number.
pub fn push_padded_hex(s: &mut String, n: u64, width: u8)
    ensures
        final(s)@ == old(s)@ + padded_hex(n as nat, width as nat),
    decreases width,
{
    if width > 0 {
        push_padded_hex(s, n / 16, width - 1);
        s.push(digit((n % 16) as u8));
    }
    assert(s@ =~= old(s)@ + padded_hex(n as nat, width as nat));
}


/// Exactly `width` decimal digits of a number, the low ones.
pub open spec fn zero_padded(n: nat, width: nat) -> Seq<char>
    decreases width,
{
    if width == 0 {
        Seq::empty()
    } else {
        zero_padded(n / 10, (width - 1) as nat).push(digit_char(n % 10))
    }
}

/// Appends exactly `width` decimal digits of a number.
pub fn push_padded_digits(s: &mut String, n: u64, width: u8)
    ensures
        final(s)@ == old(s)@ + zero_padded(n as nat, width as nat),
    decreases width,
{
    if width > 0 {
        push_padded_digits(s, n / 10, width - 1);
        s.push(digit((n % 10) as u8));
    }
    assert(s@ =~= old(s)@ + zero_padded(n as nat, width as nat));
}


/// The text that an optional string holds.
pub open spec fn opt(s: Option<String>) -> Option<Seq<char>> {
    match s {
        Some(s) => Some(s@),
        None => None,
    }
}

/// The text that an optional string slice holds.
pub open spec fn opt_str(s: Option<&str>) -> Option<Seq<char>> {
    match s {
        Some(s) => Some(s@),
        None => None,
    }
}

/// Whether two optional texts are equal.
pub fn opt_eq(a: &Option<String>, b: &Option<String>) -> (r: bool)
    ensures
        r == (opt(*a) == opt(*b)),
{
    match (a, b) {
        (Some(x), Some(y)) => *x == *y,
        (None, None) => true,
        _ => false,
    }
}

/// Another copy of an optional string.
pub fn opt_clone(a: &Option<String>) -> (r: Option<String>)
    ensures
        r == *a,
{
    match a {
        Some(x) => Some(x.clone()),
        None => None,
    }
}

proof fn lemma_trimmed_start(s: Seq<char>) -> (i: int)
    ensures
        0 <= i <= s.len(),
        trimmed_start(s) == s.skip(i),
        forall|k: int| 0 <= k < i ==> white_space(#[trigger] s[k]),
        i < s.len() ==> !white_space(s[i]),
    decreases s.len(),
{
    if s.len() > 0 && white_space(s[0]) {
        let rest = s.skip(1);
        let i = lemma_trimmed_start(rest);
        assert(rest.skip(i) =~= s.skip(i + 1));
        assert forall|k: int| 0 <= k < i + 1 implies white_space(#[trigger] s[k]) by {
            if k > 0 {
                assert(rest[k - 1] == s[k]);
            }
        }
        if i < rest.len() {
            assert(rest[i] == s[i + 1]);
        }
        i + 1
    } else {
        assert(s.skip(0) =~= s);
        0
    }
}

/// A text without the characters at its end that satisfy a predicate is a start
/// of it, behind which all characters satisfy the predicate and whose last does
/// not.
pub proof fn lemma_trimmed_end(s: Seq<char>, drop: spec_fn(char) -> bool)
    ensures
        trimmed_end_by(s, drop).len() <= s.len(),
        trimmed_end_by(s, drop) == s.take(trimmed_end_by(s, drop).len() as int),
        forall|k: int| trimmed_end_by(s, drop).len() <= k < s.len() ==> drop(#[trigger] s[k]),
        trimmed_end_by(s, drop).len() > 0 ==> !drop(trimmed_end_by(s, drop).last()),
    decreases s.len(),
{
    if s.len() > 0 && drop(s.last()) {
        let rest = s.drop_last();
        lemma_trimmed_end(rest, drop);
        let n = trimmed_end_by(s, drop).len() as int;
        assert(rest.take(n) =~= s.take(n));
        assert forall|k: int| n <= k < s.len() implies drop(#[trigger] s[k]) by {
            if k < rest.len() {
                assert(rest[k] == s[k]);
            }
        }
    } else {
        assert(s.take(s.len() as int) =~= s);
    }
}

/// Trimming a text takes away all white space at both of its ends and nothing
/// else.
pub proof fn law_trimming(s: Seq<char>)
    ensures
        exists|i: int, j: int|
            #![trigger s.subrange(i, j)]
            {
                &&& 0 <= i <= j <= s.len()
                &&& trimmed(s) == s.subrange(i, j)
                &&& forall|k: int| 0 <= k < i || j <= k < s.len() ==> white_space(#[trigger] s[k])
            },
        trimmed(s).len() > 0 ==> !white_space(trimmed(s)[0]) && !white_space(trimmed(s).last()),
{
    let drop = |c: char| white_space(c);
    let i = lemma_trimmed_start(s);
    let rest = s.skip(i);
    lemma_trimmed_end(rest, drop);
    let n = trimmed(s).len() as int;
    assert(rest.take(n) =~= s.subrange(i, i + n));
    assert forall|k: int| 0 <= k < i || i + n <= k < s.len() implies white_space(
        #[trigger] s[k],
    ) by {
        if k >= i {
            assert(rest[k - i] == s[k]);
            assert(drop(rest[k - i]));
        }
    }
    if n > 0 {
        assert(trimmed(s)[0] == rest[0]);
        assert(rest[0] == s[i]);
        assert(!drop(trimmed(s).last()));
    }
}

proof fn lemma_joined_front(first: Seq<char>, rest: Seq<Seq<char>>, separator: Seq<char>)
    requires
        rest.len() > 0,
    ensures
        joined(seq![first] + rest, separator) == first + separator + joined(rest, separator),
    decreases rest.len(),
{
    let all = seq![first] + rest;
    if rest.len() == 1 {
        assert(all.drop_last() =~= seq![first]);
        assert(joined(seq![first], separator) == first);
        assert(joined(all, separator) =~= first + separator + joined(rest, separator));
    } else {
        lemma_joined_front(first, rest.drop_last(), separator);
        assert(all.drop_last() =~= seq![first] + rest.drop_last());
        assert(joined(all, separator) =~= first + separator + joined(rest, separator));
    }
}

/// Splitting a text at a separator loses nothing: the pieces joined by it are
/// the text again, and no piece has the separator in it.
pub proof fn law_pieces_join(s: Seq<char>, separator: Seq<char>)
    requires
        separator.len() > 0,
    ensures
        joined(pieces(s, separator), separator) == s,
        pieces(s, separator).len() > 0,
        forall|i: int|
            0 <= i < pieces(s, separator).len() ==> !has_text(
                #[trigger] pieces(s, separator)[i],
                separator,
            ),
    decreases s.len(),
{
    lemma_find_from(s, separator, 0);
    let n = separator.len() as int;
    match find_from(s, separator, 0) {
        Some(at) => {
            let tail = s.skip(at + n);
            law_pieces_join(tail, separator);
            let rest = pieces(tail, separator);
            lemma_joined_front(s.take(at), rest, separator);
            assert(s.subrange(at, at + n) == separator);
            assert(s =~= s.take(at) + s.subrange(at, at + n) + tail);
            assert forall|i: int| 0 <= i < pieces(s, separator).len() implies !has_text(
                #[trigger] pieces(s, separator)[i],
                separator,
            ) by {
                if i == 0 {
                    let first = s.take(at);
                    if has_text(first, separator) {
                        let j = choose|j: int| occurs_at(first, separator, j);
                        assert(first.subrange(j, j + n) =~= s.subrange(j, j + n));
                        assert(occurs_at(s, separator, j));
                    }
                } else {
                    assert(pieces(s, separator)[i] == rest[i - 1]);
                }
            }
        },
        None => {
            assert(joined(seq![s], separator) == s);
            if has_text(s, separator) {
                let j = choose|j: int| occurs_at(s, separator, j);
                assert(!occurs_at(s, separator, j));
            }
        },
    }
}

/// Lowercasing ASCII letters changes nothing but the letters `A` to `Z`, and
/// what is lowercased once stays.
pub proof fn law_ascii_lowercase(s: Seq<char>)
    ensures
        ascii_lower(s).len() == s.len(),
        ascii_lower(ascii_lower(s)) == ascii_lower(s),
        forall|i: int|
            0 <= i < s.len() ==> if 'A' <= #[trigger] s[i] && s[i] <= 'Z' {
                'a' <= ascii_lower(s)[i] && ascii_lower(s)[i] <= 'z' && ascii_lower(s)[i] as u32
                    - s[i] as u32 == 'a' as u32 - 'A' as u32
            } else {
                ascii_lower(s)[i] == s[i]
            },
{
    assert(ascii_lower(ascii_lower(s)) =~= ascii_lower(s));
}

/// Padded hexadecimal digits are as many as asked for, all of them digits in
/// lower case, and numbers with the same digits differ only in what the digits
/// have no room for.
pub proof fn law_padded_digits(a: nat, b: nat, width: nat)
    ensures
        padded_hex(a, width).len() == width,
        width > 0 && padded_hex(a, width) == padded_hex(b, width) ==> a % 16 == b % 16
            && padded_hex(a / 16, (width - 1) as nat) == padded_hex(b / 16, (width - 1) as nat),
        forall|i: int|
            0 <= i < width ==> ('0' <= #[trigger] padded_hex(a, width)[i] && padded_hex(a, width)[i]
                <= '9') || ('a' <= padded_hex(a, width)[i] && padded_hex(a, width)[i] <= 'f'),
    decreases width,
{
    if width > 0 {
        let w = (width - 1) as nat;
        law_padded_digits(a / 16, b / 16, w);
        let x = padded_hex(a, width);
        let y = padded_hex(b, width);
        let u = padded_hex(a / 16, w);
        law_padded_digits(b / 16, a / 16, w);
        assert(x.drop_last() =~= u);
        assert(y.drop_last() =~= padded_hex(b / 16, w));
        assert(x.last() == digit_char(a % 16));
        assert(y.last() == digit_char(b % 16));
        assert forall|i: int| 0 <= i < width implies ('0' <= #[trigger] x[i] && x[i] <= '9') || ('a'
            <= x[i] && x[i] <= 'f') by {
            if i < w {
                assert(x[i] == u[i]);
            }
        }
    }
}

}
