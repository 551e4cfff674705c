//! UTF-8 text helpers.
//!
//! Strings are modelled by their sequence of characters. Positions inside of a
//! text are byte offsets, so most contracts speak of the text's UTF-8 encoding.

use vstd::prelude::*;
use vstd::utf8::*;

verus! {

/// `String::push` appends the character to the end of the string.
pub assume_specification[ String::push ](s: &mut String, c: char)
    ensures
        final(s)@ == old(s)@.push(c),
;

/// Contents of an optional text.
pub open spec fn opt_view(s: Option<String>) -> Option<Seq<char>> {
    match s {
        Some(s) => Some(s@),
        None => None,
    }
}

/// Contents of a list of texts.
pub open spec fn views(list: Seq<String>) -> Seq<Seq<char>> {
    list.map_values(|s: String| s@)
}

/// Offset of every character boundary of a text, seen from its encoding.
pub open spec fn is_boundary(s: Seq<char>, index: int) -> bool {
    is_char_boundary(encode_utf8(s), index)
}

/// Encoded size of a text in bytes.
pub open spec fn byte_len(s: Seq<char>) -> nat {
    encode_utf8(s).len()
}

/// Text with the bytes `start..end` replaced by another text.
pub open spec fn spliced(bytes: Seq<u8>, start: int, end: int, with: Seq<u8>) -> Seq<u8> {
    bytes.subrange(0, start) + with + bytes.subrange(end, bytes.len() as int)
}

/// Text that results from replacing the bytes `start..end`.
pub open spec fn splice_text(s: Seq<char>, start: int, end: int, with: Seq<char>) -> Seq<char> {
    decode_utf8(spliced(encode_utf8(s), start, end, encode_utf8(with)))
}

/// Text made of the bytes `start..end`.
pub open spec fn slice_text(s: Seq<char>, start: int, end: int) -> Seq<char> {
    decode_utf8(encode_utf8(s).subrange(start, end))
}

/// Last character boundary at or before an offset.
pub open spec fn boundary_before(s: Seq<char>, index: int) -> int
    decreases index,
{
    if index <= 0 {
        0
    } else if is_boundary(s, index) {
        index
    } else {
        boundary_before(s, index - 1)
    }
}

/// First character boundary at or behind an offset.
pub open spec fn boundary_after(s: Seq<char>, index: int) -> int
    decreases byte_len(s) - index,
{
    if index >= byte_len(s) {
        byte_len(s) as int
    } else if is_boundary(s, index) {
        index
    } else {
        boundary_after(s, index + 1)
    }
}

/// The encoding of two joined texts is the two encodings joined.
pub proof fn lemma_encode_concat(a: Seq<char>, b: Seq<char>)
    ensures
        encode_utf8(a + b) == encode_utf8(a) + encode_utf8(b),
    decreases a.len(),
{
    if a.len() == 0 {
        assert(a + b =~= b);
        assert(encode_utf8(a) + encode_utf8(b) =~= encode_utf8(b));
    } else {
        assert((a + b).drop_first() =~= a.drop_first() + b);
        lemma_encode_concat(a.drop_first(), b);
        assert(encode_utf8(a + b) =~= encode_utf8(a) + encode_utf8(b));
    }
}

/// Two texts with the same encoding are the same text.
pub proof fn lemma_encode_injective(a: Seq<char>, b: Seq<char>)
    requires
        encode_utf8(a) == encode_utf8(b),
    ensures
        a == b,
{
    encode_utf8_decode_utf8(a);
    encode_utf8_decode_utf8(b);
}

/// Every character takes between one and four bytes.
pub proof fn lemma_scalar_len(c: char)
    ensures
        1 <= encode_scalar(c as u32).len() <= 4,
        encode_utf8(seq![c]) == encode_scalar(c as u32),
{
    char_is_scalar(c);
    let s = seq![c];
    assert(s.drop_first() =~= Seq::<char>::empty());
    assert(encode_utf8(s.drop_first()) =~= Seq::<u8>::empty());
    assert(encode_utf8(s) =~= encode_scalar(c as u32));
}

/// Position behind the first `n` characters of a text.
pub open spec fn char_offset(s: Seq<char>, n: int) -> int {
    encode_utf8(s.take(n)).len() as int
}

/// Character boundaries are exactly the positions between two characters.
pub proof fn lemma_char_offset_boundary(s: Seq<char>, n: int)
    requires
        0 <= n <= s.len(),
    ensures
        is_boundary(s, char_offset(s, n)),
        char_offset(s, n) <= byte_len(s),
        encode_utf8(s).subrange(0, char_offset(s, n)) == encode_utf8(s.take(n)),
        encode_utf8(s).subrange(char_offset(s, n), byte_len(s) as int) == encode_utf8(s.skip(n)),
{
    lemma_encode_concat(s.take(n), s.skip(n));
    assert(s.take(n) + s.skip(n) =~= s);
    encode_utf8_valid_utf8(s.take(n));
    encode_utf8_valid_utf8(s.skip(n));
    lemma_boundary_concat(encode_utf8(s.take(n)), encode_utf8(s.skip(n)));
    assert(encode_utf8(s).subrange(0, char_offset(s, n)) =~= encode_utf8(s.take(n)));
    assert(encode_utf8(s).subrange(char_offset(s, n), byte_len(s) as int) =~= encode_utf8(
        s.skip(n),
    ));
}

/// The seam between two valid encodings is a boundary of their concatenation.
pub proof fn lemma_boundary_concat(a: Seq<u8>, b: Seq<u8>)
    requires
        valid_utf8(a),
        valid_utf8(b),
    ensures
        valid_utf8(a + b),
        is_char_boundary(a + b, a.len() as int),
    decreases a.len(),
{
    valid_utf8_concat(a, b);
    if a.len() == 0 {
    } else {
        let rest = pop_first_scalar(a);
        assert(pop_first_scalar(a + b) =~= rest + b);
        lemma_boundary_concat(rest, b);
    }
}

/// Number of bytes in the encoding of a character.
pub fn char_width(c: char) -> (width: usize)
    ensures
        width == encode_scalar(c as u32).len(),
        1 <= width <= 4,
{
    proof {
        char_is_scalar(c);
    }
    let scalar: u32 = c as u32;
    if scalar <= 0x7f {
        1
    } else if scalar <= 0x7ff {
        2
    } else if scalar <= 0xffff {
        3
    } else {
        4
    }
}

/// Check whether two texts are the same.
pub fn str_eq(a: &str, b: &str) -> (same: bool)
    ensures
        same == (a@ == b@),
{
    let x = a.as_bytes();
    let y = b.as_bytes();
    if x.len() != y.len() {
        return false;
    }
    let mut i: usize = 0;
    while i < x.len()
        invariant
            x@ == encode_utf8(a@),
            y@ == encode_utf8(b@),
            x.len() == y.len(),
            0 <= i <= x.len(),
            forall|j: int| 0 <= j < i ==> x@[j] == y@[j],
        decreases x.len() - i,
    {
        if x[i] != y[i] {
            return false;
        }
        i += 1;
    }
    proof {
        assert(x@ =~= y@);
        lemma_encode_injective(a@, b@);
    }
    true
}

/// Collect the characters of a text.
pub fn chars_of(s: &str) -> (chars: Vec<char>)
    ensures
        chars@ == s@,
{
    let mut chars: Vec<char> = Vec::new();
    for c in it: s.chars()
        invariant
            chars@ == s@.take(it.index()),
            it.seq() == s@,
    {
        chars.push(c);
    }
    proof {
        assert(s@.take(s@.len() as int) =~= s@);
    }
    chars
}

/// Turn the characters `start..end` of a list into a text.
pub fn string_of(chars: &Vec<char>, start: usize, end: usize) -> (s: String)
    requires
        start <= end <= chars.len(),
    ensures
        s@ == chars@.subrange(start as int, end as int),
{
    let mut s = String::new();
    let mut i: usize = start;
    while i < end
        invariant
            start <= i <= end <= chars.len(),
            s@ == chars@.subrange(start as int, i as int),
        decreases end - i,
    {
        s.push(chars[i]);
        i += 1;
        proof {
            assert(chars@.subrange(start as int, i as int) =~= chars@.subrange(
                start as int,
                i - 1,
            ).push(chars@[i - 1]));
        }
    }
    s
}

/// Copy the bytes `start..end` out of a text.
pub fn slice(s: &str, start: usize, end: usize) -> (part: String)
    requires
        start <= end <= byte_len(s@),
        is_boundary(s@, start as int),
        is_boundary(s@, end as int),
    ensures
        encode_utf8(part@) == encode_utf8(s@).subrange(start as int, end as int),
        part@ == slice_text(s@, start as int, end as int),
{
    proof {
        encode_utf8_valid_utf8(s@);
        lemma_boundary_prefix(encode_utf8(s@), start as int, end as int);
    }
    let (head, _) = s.split_at(end);
    let (_, part) = head.split_at(start);
    proof {
        assert(encode_utf8(part@) =~= encode_utf8(s@).subrange(start as int, end as int));
        encode_utf8_decode_utf8(part@);
    }
    part.to_owned()
}

/// A boundary of a text stays one when the text is cut at a later boundary.
pub proof fn lemma_boundary_prefix(bytes: Seq<u8>, start: int, end: int)
    requires
        valid_utf8(bytes),
        0 <= start <= end <= bytes.len(),
        is_char_boundary(bytes, start),
        is_char_boundary(bytes, end),
    ensures
        is_char_boundary(bytes.subrange(0, end), start),
        valid_utf8(bytes.subrange(0, end)),
{
    valid_utf8_split(bytes, end);
    if start < end {
        let cut = bytes.subrange(0, end);
        is_char_boundary_iff_not_is_continuation_byte(bytes, start);
        is_char_boundary_iff_not_is_continuation_byte(cut, start);
        assert(cut[start] == bytes[start]);
    } else {
        is_char_boundary_start_end_of_seq(bytes.subrange(0, end));
    }
}

/// Replace the bytes `start..end` of a text.
pub fn splice(s: &str, start: usize, end: usize, with: &str) -> (result: String)
    requires
        start <= end <= byte_len(s@),
        is_boundary(s@, start as int),
        is_boundary(s@, end as int),
    ensures
        encode_utf8(result@) == spliced(
            encode_utf8(s@),
            start as int,
            end as int,
            encode_utf8(with@),
        ),
        result@ == splice_text(s@, start as int, end as int, with@),
{
    let (head, _) = s.split_at(start);
    let (_, tail) = s.split_at(end);
    let mut result = head.to_owned();
    result.append(with);
    result.append(tail);
    proof {
        lemma_encode_concat(head@ + with@, tail@);
        lemma_encode_concat(head@, with@);
        assert(encode_utf8(result@) =~= spliced(
            encode_utf8(s@),
            start as int,
            end as int,
            encode_utf8(with@),
        ));
        encode_utf8_decode_utf8(result@);
    }
    result
}

/// Get the size of a text in bytes.
pub fn byte_count(s: &str) -> (count: usize)
    ensures
        count == byte_len(s@),
{
    s.as_bytes().len()
}

/// Find the last character boundary at or before an offset.
pub fn find_boundary_before(s: &str, index: usize) -> (boundary: usize)
    requires
        index <= byte_len(s@),
    ensures
        boundary == boundary_before(s@, index as int),
        is_boundary(s@, boundary as int),
        boundary <= index,
{
    let mut i: usize = index;
    proof {
        encode_utf8_valid_utf8(s@);
        is_char_boundary_start_end_of_seq(encode_utf8(s@));
    }
    while i > 0 && !s.is_char_boundary(i)
        invariant
            0 <= i <= index <= byte_len(s@),
            boundary_before(s@, i as int) == boundary_before(s@, index as int),
        decreases i,
    {
        i -= 1;
    }
    i
}

/// Find the first character boundary at or behind an offset.
pub fn find_boundary_after(s: &str, index: usize) -> (boundary: usize)
    requires
        index <= byte_len(s@),
    ensures
        boundary == boundary_after(s@, index as int),
        is_boundary(s@, boundary as int),
        index <= boundary <= byte_len(s@),
{
    let count = byte_count(s);
    let mut i: usize = index;
    proof {
        encode_utf8_valid_utf8(s@);
        is_char_boundary_start_end_of_seq(encode_utf8(s@));
    }
    while i < count && !s.is_char_boundary(i)
        invariant
            index <= i <= count,
            count == byte_len(s@),
            boundary_after(s@, i as int) == boundary_after(s@, index as int),
        decreases count - i,
    {
        i += 1;
    }
    i
}

/// Boundaries found by searching backwards are the closest ones, and never
/// further away than the widest character.
pub proof fn lemma_boundary_before(s: Seq<char>, index: int)
    requires
        0 <= index <= byte_len(s),
    ensures
        0 <= boundary_before(s, index) <= index,
        index - boundary_before(s, index) < 4,
        is_boundary(s, boundary_before(s, index)),
        forall|j: int|
            boundary_before(s, index) < j <= index ==> !is_boundary(s, j),
    decreases index,
{
    encode_utf8_valid_utf8(s);
    lemma_boundary_nearby(encode_utf8(s), index);
    lemma_boundary_before_closest(s, index);
    let j = choose|j: int|
        0 <= j <= index && index - j < 4 && is_char_boundary(encode_utf8(s), j);
    assert(is_boundary(s, j));
}

proof fn lemma_boundary_before_closest(s: Seq<char>, index: int)
    requires
        0 <= index <= byte_len(s),
    ensures
        0 <= boundary_before(s, index) <= index,
        is_boundary(s, boundary_before(s, index)),
        forall|j: int|
            boundary_before(s, index) < j <= index ==> !is_boundary(s, j),
    decreases index,
{
    encode_utf8_valid_utf8(s);
    is_char_boundary_start_end_of_seq(encode_utf8(s));
    if index > 0 && !is_boundary(s, index) {
        lemma_boundary_before_closest(s, index - 1);
    }
}

/// Any four neighbouring offsets hold a character boundary.
pub proof fn lemma_boundary_nearby(bytes: Seq<u8>, index: int)
    requires
        valid_utf8(bytes),
        0 <= index <= bytes.len(),
    ensures
        exists|j: int| 0 <= j <= index && index - j < 4 && is_char_boundary(bytes, j),
    decreases bytes.len(),
{
    is_char_boundary_start_end_of_seq(bytes);
    if index >= 4 {
        let first = length_of_first_scalar(bytes);
        let rest = pop_first_scalar(bytes);
        lemma_boundary_nearby(rest, index - first);
        let j = choose|j: int|
            0 <= j <= index - first && index - first - j < 4 && is_char_boundary(rest, j);
        if j + first > 0 {
            assert(is_char_boundary(bytes, j + first));
        }
    } else {
        assert(is_char_boundary(bytes, 0));
    }
}

/// Boundaries found by searching forwards are the closest ones.
pub proof fn lemma_boundary_after(s: Seq<char>, index: int)
    requires
        0 <= index <= byte_len(s),
    ensures
        index <= boundary_after(s, index) <= byte_len(s),
        is_boundary(s, boundary_after(s, index)),
        forall|j: int|
            index <= j < boundary_after(s, index) ==> !is_boundary(s, j),
    decreases byte_len(s) - index,
{
    encode_utf8_valid_utf8(s);
    is_char_boundary_start_end_of_seq(encode_utf8(s));
    if index < byte_len(s) && !is_boundary(s, index) {
        lemma_boundary_after(s, index + 1);
    }
}

/// Two texts separated by a slash.
pub open spec fn slash(a: Seq<char>, b: Seq<char>) -> Seq<char> {
    a + "/"@ + b
}

/// Join two path segments.
pub fn join(a: &str, b: &str) -> (path: String)
    ensures
        path@ == slash(a@, b@),
{
    let mut path = a.to_owned();
    path.append("/");
    path.append(b);
    path
}

/// Position of the last occurrence of a character, or `-1`.
pub open spec fn last_position(s: Seq<char>, c: char) -> int
    decreases s.len(),
{
    if s.len() == 0 {
        -1
    } else if s.last() == c {
        s.len() - 1
    } else {
        last_position(s.drop_last(), c)
    }
}

/// Position of the first occurrence of a character at or behind a position, or
/// the length of the text.
pub open spec fn next_position(s: Seq<char>, c: char, from: int) -> int
    decreases s.len() - from,
{
    if from >= s.len() {
        s.len() as int
    } else if s[from] == c {
        from
    } else {
        next_position(s, c, from + 1)
    }
}

/// Find the last occurrence of a character.
pub fn find_last(chars: &Vec<char>, c: char) -> (position: Option<usize>)
    ensures
        match position {
            Some(i) => i == last_position(chars@, c) && i < chars.len(),
            None => last_position(chars@, c) == -1,
        },
{
    let mut n: usize = chars.len();
    proof {
        assert(chars@.take(n as int) =~= chars@);
    }
    while n > 0
        invariant
            n <= chars.len(),
            last_position(chars@.take(n as int), c) == last_position(chars@, c),
        decreases n,
    {
        proof {
            assert(chars@.take(n as int).drop_last() =~= chars@.take(n - 1));
        }
        if chars[n - 1] == c {
            return Some(n - 1);
        }
        n -= 1;
    }
    None
}

/// Find the first occurrence of a character at or behind a position.
pub fn find_next(chars: &Vec<char>, c: char, from: usize) -> (position: usize)
    requires
        from <= chars.len(),
    ensures
        position == next_position(chars@, c, from as int),
        from <= position <= chars.len(),
        position < chars.len() ==> chars@[position as int] == c,
        forall|i: int| from <= i < position ==> chars@[i] != c,
{
    let mut i: usize = from;
    while i < chars.len() && chars[i] != c
        invariant
            from <= i <= chars.len(),
            next_position(chars@, c, i as int) == next_position(chars@, c, from as int),
            forall|j: int| from <= j < i ==> chars@[j] != c,
        decreases chars.len() - i,
    {
        i += 1;
    }
    i
}

/// Parts of a text between the occurrences of a separator, starting at a
/// position.
pub open spec fn split_parts(s: Seq<char>, separator: char, from: int) -> Seq<Seq<char>>
    decreases s.len() - from,
{
    let end = next_position(s, separator, from);
    if from < 0 || end < from || end >= s.len() {
        seq![s.subrange(from, s.len() as int)]
    } else {
        seq![s.subrange(from, end)] + split_parts(s, separator, end + 1)
    }
}

/// Split a text at all occurrences of a separator.
pub fn split(s: &str, separator: char) -> (parts: Vec<String>)
    ensures
        views(parts@) == split_parts(s@, separator, 0),
        parts.len() > 0,
{
    let chars = chars_of(s);
    let mut parts: Vec<String> = Vec::new();
    let mut from: usize = 0;
    proof {
        assert(views(parts@) =~= Seq::<Seq<char>>::empty());
        assert(views(parts@) + split_parts(s@, separator, 0) =~= split_parts(s@, separator, 0));
    }
    loop
        invariant
            chars@ == s@,
            from <= chars.len(),
            views(parts@) + split_parts(s@, separator, from as int) == split_parts(
                s@,
                separator,
                0,
            ),
        decreases chars.len() - from,
    {
        let end = find_next(&chars, separator, from);
        let part = string_of(&chars, from, end);
        let ghost before = views(parts@);
        parts.push(part);
        proof {
            assert(views(parts@) =~= before.push(part@));
        }
        if end >= chars.len() {
            proof {
                assert(views(parts@) =~= split_parts(s@, separator, 0));
            }
            return parts;
        }
        proof {
            assert(before + split_parts(s@, separator, from as int) =~= views(parts@)
                + split_parts(s@, separator, end + 1));
        }
        from = end + 1;
    }
}

/// A text starts with another one.
pub open spec fn starts_with(s: Seq<char>, prefix: Seq<char>) -> bool {
    prefix.len() <= s.len() && s.take(prefix.len() as int) == prefix
}

/// A text occurs inside of another one at a position.
pub open spec fn occurs_at(s: Seq<char>, part: Seq<char>, position: int) -> bool {
    0 <= position <= s.len() && starts_with(s.skip(position), part)
}

/// First position of a text inside of another one, starting at a position.
pub open spec fn first_occurrence(s: Seq<char>, part: Seq<char>, from: int) -> Option<int>
    decreases s.len() + 1 - from,
{
    if from < 0 || from > s.len() {
        None
    } else if occurs_at(s, part, from) {
        Some(from)
    } else {
        first_occurrence(s, part, from + 1)
    }
}

/// Check whether a text occurs inside of another one at a position.
pub fn is_at(s: &Vec<char>, part: &Vec<char>, position: usize) -> (result: bool)
    requires
        position <= s.len(),
    ensures
        result == occurs_at(s@, part@, position as int),
{
    if part.len() > s.len() - position {
        return false;
    }
    let ghost rest = s@.skip(position as int);
    let mut i: usize = 0;
    while i < part.len()
        invariant
            i <= part.len(),
            position <= s.len(),
            part.len() <= s.len() - position,
            rest == s@.skip(position as int),
            forall|j: int| 0 <= j < i ==> #[trigger] rest[j] == part@[j],
        decreases part.len() - i,
    {
        assert(rest[i as int] == s@[position + i]);
        if s[position + i] != part[i] {
            proof {
                assert(rest.take(part.len() as int)[i as int] != part@[i as int]);
            }
            return false;
        }
        i += 1;
    }
    proof {
        assert(rest.take(part.len() as int) =~= part@);
    }
    true
}

/// Find the first position of a text inside of another one.
pub fn find_first(s: &Vec<char>, part: &Vec<char>) -> (position: Option<usize>)
    ensures
        match position {
            Some(position) => {
                &&& first_occurrence(s@, part@, 0) == Some(position as int)
                &&& position + part.len() <= s.len()
            },
            None => first_occurrence(s@, part@, 0) is None,
        },
{
    let mut from: usize = 0;
    loop
        invariant
            from <= s.len(),
            first_occurrence(s@, part@, from as int) == first_occurrence(s@, part@, 0),
        decreases s.len() + 1 - from,
    {
        if is_at(s, part, from) {
            return Some(from);
        }
        if from == s.len() {
            proof {
                assert(first_occurrence(s@, part@, from + 1) is None);
            }
            return None;
        }
        from += 1;
    }
}

/// A character is a decimal digit.
pub open spec fn is_digit(c: char) -> bool {
    '0' <= c <= '9'
}

/// Number made of decimal digits.
pub open spec fn digits_value(digits: Seq<char>) -> int
    decreases digits.len(),
{
    if digits.len() == 0 {
        0
    } else {
        10 * digits_value(digits.drop_last()) + (digits.last() as int - '0' as int)
    }
}

/// Digits of a number, without its optional plus sign.
pub open spec fn number_digits(s: Seq<char>) -> Seq<char> {
    if s.len() > 0 && s[0] == '+' {
        s.drop_first()
    } else {
        s
    }
}

/// Number written down as text.
pub open spec fn parsed_u64(s: Seq<char>) -> Option<u64> {
    let digits = number_digits(s);
    if digits.len() > 0 && (forall|i: int| 0 <= i < digits.len() ==> is_digit(#[trigger] digits[i]))
        && digits_value(digits) <= u64::MAX {
        Some(digits_value(digits) as u64)
    } else {
        None
    }
}

/// Parse a number.
pub fn parse_u64(s: &str) -> (number: Option<u64>)
    ensures
        number == parsed_u64(s@),
{
    let chars = chars_of(s);
    let first: usize = if chars.len() > 0 && chars[0] == '+' {
        1
    } else {
        0
    };
    let ghost digits = number_digits(s@);
    proof {
        assert(digits =~= chars@.skip(first as int));
        assert(digits.take(0) =~= Seq::<char>::empty());
    }
    if first == chars.len() {
        return None;
    }
    let mut number: u64 = 0;
    let mut i: usize = first;
    while i < chars.len()
        invariant
            first <= i <= chars.len(),
            digits == number_digits(s@),
            digits == chars@.skip(first as int),
            number == digits_value(digits.take(i - first)),
            forall|j: int| 0 <= j < i - first ==> is_digit(#[trigger] digits[j]),
        decreases chars.len() - i,
    {
        let c = chars[i];
        let ghost k = i - first;
        proof {
            assert(digits[k] == c);
            assert(digits.take(k + 1).drop_last() =~= digits.take(k));
        }
        if c < '0' || c > '9' {
            return None;
        }
        let digit: u64 = (c as u32 - '0' as u32) as u64;
        assert(digits_value(digits.take(k + 1)) == 10 * number + digit);
        let exceeds = number > u64::MAX / 10 || (number == u64::MAX / 10 && digit > 5);
        if exceeds {
            proof {
                if forall|j: int| 0 <= j < digits.len() ==> is_digit(#[trigger] digits[j]) {
                    lemma_digits_value_prefix(digits, k + 1);
                }
            }
            return None;
        }
        number = number * 10 + digit;
        i += 1;
    }
    proof {
        assert(digits.take(chars.len() - first) =~= digits);
    }
    Some(number)
}

/// Numbers only grow with more digits.
proof fn lemma_digits_value_prefix(digits: Seq<char>, n: int)
    requires
        0 <= n <= digits.len(),
        forall|j: int| 0 <= j < digits.len() ==> is_digit(#[trigger] digits[j]),
    ensures
        0 <= digits_value(digits.take(n)) <= digits_value(digits),
    decreases digits.len(),
{
    if n < digits.len() {
        lemma_digits_value_prefix(digits.drop_last(), n);
        assert(digits.drop_last().take(n) =~= digits.take(n));
        assert(is_digit(digits[digits.len() - 1]));
    } else {
        assert(digits.take(n) =~= digits);
        if digits.len() > 0 {
            lemma_digits_value_prefix(digits.drop_last(), digits.len() - 1);
            assert(digits.drop_last().take(digits.len() - 1) =~= digits.drop_last());
            assert(is_digit(digits[digits.len() - 1]));
        }
    }
}

/// Decimal digit of a value.
pub open spec fn digit_of(value: int) -> char {
    (0x30 + value) as u8 as char
}

/// Number as decimal text.
pub open spec fn decimal(number: int) -> Seq<char>
    decreases number,
{
    if number < 10 {
        seq![digit_of(number)]
    } else {
        decimal(number / 10).push(digit_of(number % 10))
    }
}

/// Write a number as decimal text.
pub fn to_decimal(number: u64) -> (s: String)
    ensures
        s@ == decimal(number as int),
    decreases number,
{
    let digit: char = (0x30 + (number % 10) as u8) as char;
    if number < 10 {
        let mut s = String::new();
        s.push(digit);
        proof {
            assert(s@ =~= decimal(number as int));
        }
        s
    } else {
        let mut s = to_decimal(number / 10);
        s.push(digit);
        s
    }
}

/// Numbers can be read back from their text.
pub proof fn law_decimal_round_trip(number: u64)
    ensures
        parsed_u64(decimal(number as int)) == Some(number),
{
    lemma_decimal(number as int);
    let s = decimal(number as int);
    assert(is_digit(s[0]));
    assert(number_digits(s) == s);
}

/// Decimal texts consist of digits with the value of their number.
pub proof fn lemma_decimal(number: int)
    requires
        0 <= number,
    ensures
        decimal(number).len() > 0,
        forall|i: int| 0 <= i < decimal(number).len() ==> is_digit(#[trigger] decimal(number)[i]),
        digits_value(decimal(number)) == number,
    decreases number,
{
    let s = decimal(number);
    if number < 10 {
        assert(s.drop_last() =~= Seq::<char>::empty());
        assert(digits_value(s.drop_last()) == 0);
    } else {
        lemma_decimal(number / 10);
        let head = decimal(number / 10);
        assert(s.drop_last() =~= head);
        assert forall|i: int| 0 <= i < s.len() implies is_digit(#[trigger] s[i]) by {
            if i < head.len() {
                assert(s[i] == head[i]);
            }
        }
    }
}

/// Text with all occurrences of a pattern replaced, starting at a position.
pub open spec fn replaced(s: Seq<char>, pattern: Seq<char>, with: Seq<char>, from: int) -> Seq<char>
    decreases s.len() - from,
{
    if from < 0 || from >= s.len() || pattern.len() == 0 {
        Seq::empty()
    } else if occurs_at(s, pattern, from) {
        with + replaced(s, pattern, with, from + pattern.len())
    } else {
        seq![s[from]] + replaced(s, pattern, with, from + 1)
    }
}

/// Replace all occurrences of a pattern.
pub fn replace(s: &str, pattern: &str, with: &str) -> (result: String)
    requires
        pattern@.len() > 0,
    ensures
        result@ == replaced(s@, pattern@, with@, 0),
{
    let chars = chars_of(s);
    let part = chars_of(pattern);
    let mut result = String::new();
    let mut from: usize = 0;
    proof {
        assert(result@ + replaced(s@, pattern@, with@, 0) =~= replaced(s@, pattern@, with@, 0));
    }
    while from < chars.len()
        invariant
            chars@ == s@,
            part@ == pattern@,
            part.len() > 0,
            from <= chars.len(),
            result@ + replaced(s@, pattern@, with@, from as int) == replaced(
                s@,
                pattern@,
                with@,
                0,
            ),
        decreases chars.len() - from,
    {
        let ghost before = result@;
        let ghost rest = replaced(s@, pattern@, with@, from as int);
        if is_at(&chars, &part, from) {
            result.append(with);
            assert(s@.skip(from as int).len() >= part.len());
            from += part.len();
            proof {
                assert(before + rest =~= result@ + replaced(s@, pattern@, with@, from as int));
            }
        } else {
            result.push(chars[from]);
            from += 1;
            proof {
                assert(before + rest =~= result@ + replaced(s@, pattern@, with@, from as int));
            }
        }
    }
    proof {
        assert(result@ =~= replaced(s@, pattern@, with@, 0));
    }
    result
}

/// Character with the Unicode property `White_Space`.
pub open spec fn is_space(c: char) -> bool {
    let c = c as u32;
    ||| 0x9 <= c <= 0xd
    ||| c == 0x20
    ||| c == 0x85
    ||| c == 0xa0
    ||| c == 0x1680
    ||| 0x2000 <= c <= 0x200a
    ||| 0x2028 <= c <= 0x2029
    ||| c == 0x202f
    ||| c == 0x205f
    ||| c == 0x3000
}

/// Check whether a character is whitespace.
pub fn is_whitespace(c: char) -> (space: bool)
    ensures
        space == is_space(c),
{
    let c: u32 = c as u32;
    0x9 <= c && c <= 0xd || c == 0x20 || c == 0x85 || c == 0xa0 || c == 0x1680 || 0x2000 <= c && c
        <= 0x200a || 0x2028 <= c && c <= 0x2029 || c == 0x202f || c == 0x205f || c == 0x3000
}

/// Text without leading whitespace.
pub open spec fn trimmed_start(s: Seq<char>) -> Seq<char>
    decreases s.len(),
{
    if s.len() > 0 && is_space(s.first()) {
        trimmed_start(s.drop_first())
    } else {
        s
    }
}

/// Text without trailing whitespace.
pub open spec fn trimmed_end(s: Seq<char>) -> Seq<char>
    decreases s.len(),
{
    if s.len() > 0 && is_space(s.last()) {
        trimmed_end(s.drop_last())
    } else {
        s
    }
}

/// Text without leading and trailing whitespace.
pub open spec fn trimmed(s: Seq<char>) -> Seq<char> {
    trimmed_end(trimmed_start(s))
}

/// Remove leading and trailing whitespace.
pub fn trim(s: &str) -> (result: String)
    ensures
        result@ == trimmed(s@),
{
    let chars = chars_of(s);
    let mut start: usize = 0;
    let mut end: usize = chars.len();
    proof {
        assert(chars@.skip(0) =~= chars@);
    }
    while start < end && is_whitespace(chars[start])
        invariant
            start <= end == chars.len(),
            trimmed_start(chars@.skip(start as int)) == trimmed_start(chars@),
        decreases end - start,
    {
        proof {
            assert(chars@.skip(start as int).drop_first() =~= chars@.skip(start + 1));
        }
        start += 1;
    }
    proof {
        assert(chars@.subrange(start as int, end as int) =~= chars@.skip(start as int));
    }
    while start < end && is_whitespace(chars[end - 1])
        invariant
            start <= end <= chars.len(),
            trimmed_end(chars@.subrange(start as int, end as int)) == trimmed(chars@),
        decreases end - start,
    {
        proof {
            assert(chars@.subrange(start as int, end as int).drop_last() =~= chars@.subrange(
                start as int,
                end - 1,
            ));
        }
        end -= 1;
    }
    string_of(&chars, start, end)
}

/// Trimmed text neither starts nor ends with whitespace.
pub proof fn law_trimmed_text_has_no_outer_whitespace(s: Seq<char>)
    ensures
        trimmed(s).len() > 0 ==> !is_space(trimmed(s).first()) && !is_space(trimmed(s).last()),
        trimmed(trimmed(s)) == trimmed(s),
{
    lemma_trimmed_start(s);
    lemma_trimmed_end(trimmed_start(s));
}

proof fn lemma_trimmed_start(s: Seq<char>)
    ensures
        trimmed_start(s).len() > 0 ==> !is_space(trimmed_start(s).first()),
    decreases s.len(),
{
    if s.len() > 0 && is_space(s.first()) {
        lemma_trimmed_start(s.drop_first());
    }
}

proof fn lemma_trimmed_end(s: Seq<char>)
    ensures
        trimmed_end(s).len() > 0 ==> !is_space(trimmed_end(s).last()),
        trimmed_end(s).len() > 0 ==> trimmed_end(s).first() == s.first(),
        s.len() > 0 ==> trimmed_end(s).len() <= s.len(),
        s.len() == 0 ==> trimmed_end(s).len() == 0,
    decreases s.len(),
{
    if s.len() > 0 && is_space(s.last()) {
        lemma_trimmed_end(s.drop_last());
    }
}

/// Trimming only removes whitespace from both ends.
pub proof fn law_trimming_only_removes_whitespace(s: Seq<char>)
    ensures
        exists|start: int, end: int|
            {
                &&& 0 <= start <= end <= s.len()
                &&& trimmed(s) == #[trigger] s.subrange(start, end)
                &&& forall|i: int| 0 <= i < start ==> is_space(#[trigger] s[i])
                &&& forall|i: int| end <= i < s.len() ==> is_space(#[trigger] s[i])
            },
{
    let start = lemma_trimmed_start_range(s);
    let rest = s.skip(start);
    let end = lemma_trimmed_end_range(rest);
    assert(rest.take(end) =~= s.subrange(start, start + end));
    assert forall|i: int| start + end <= i < s.len() implies is_space(#[trigger] s[i]) by {
        assert(rest[i - start] == s[i]);
    }
}

proof fn lemma_trimmed_start_range(s: Seq<char>) -> (start: int)
    ensures
        0 <= start <= s.len(),
        trimmed_start(s) == s.skip(start),
        forall|i: int| 0 <= i < start ==> is_space(#[trigger] s[i]),
    decreases s.len(),
{
    if s.len() > 0 && is_space(s.first()) {
        let rest = s.drop_first();
        let start = lemma_trimmed_start_range(rest);
        assert(rest.skip(start) =~= s.skip(start + 1));
        assert forall|i: int| 0 <= i < start + 1 implies is_space(#[trigger] s[i]) by {
            if i > 0 {
                assert(rest[i - 1] == s[i]);
            }
        }
        start + 1
    } else {
        assert(s.skip(0) =~= s);
        0
    }
}

proof fn lemma_trimmed_end_range(s: Seq<char>) -> (end: int)
    ensures
        0 <= end <= s.len(),
        trimmed_end(s) == s.take(end),
        forall|i: int| end <= i < s.len() ==> is_space(#[trigger] s[i]),
    decreases s.len(),
{
    if s.len() > 0 && is_space(s.last()) {
        let rest = s.drop_last();
        let end = lemma_trimmed_end_range(rest);
        assert(rest.take(end) =~= s.take(end));
        assert forall|i: int| end <= i < s.len() implies is_space(#[trigger] s[i]) by {
            if i < rest.len() {
                assert(rest[i] == s[i]);
            }
        }
        end
    } else {
        assert(s.take(s.len() as int) =~= s);
        s.len() as int
    }
}

/// Parts with a separator between each of them.
pub open spec fn joined_parts(parts: Seq<Seq<char>>, separator: char) -> Seq<char>
    decreases parts.len(),
{
    if parts.len() == 0 {
        Seq::empty()
    } else if parts.len() == 1 {
        parts[0]
    } else {
        parts[0].push(separator) + joined_parts(parts.drop_first(), separator)
    }
}

/// Joining the parts of a split text restores it, and none of the parts holds the
/// separator.
pub proof fn law_split_parts_can_be_joined(s: Seq<char>, separator: char)
    ensures
        joined_parts(split_parts(s, separator, 0), separator) == s,
        forall|i: int|
            0 <= i < split_parts(s, separator, 0).len() ==> !(#[trigger] split_parts(
                s,
                separator,
                0,
            )[i]).contains(separator),
{
    lemma_split_parts(s, separator, 0);
    assert(s.skip(0) =~= s);
}

proof fn lemma_split_parts(s: Seq<char>, separator: char, from: int)
    requires
        0 <= from <= s.len(),
    ensures
        split_parts(s, separator, from).len() > 0,
        joined_parts(split_parts(s, separator, from), separator) == s.skip(from),
        forall|i: int|
            0 <= i < split_parts(s, separator, from).len() ==> !(#[trigger] split_parts(
                s,
                separator,
                from,
            )[i]).contains(separator),
    decreases s.len() - from,
{
    let parts = split_parts(s, separator, from);
    let end = next_position(s, separator, from);
    law_next_position(s, separator, from);
    let first = s.subrange(from, end);
    assert forall|j: int| 0 <= j < first.len() implies first[j] != separator by {
        assert(first[j] == s[from + j]);
    }
    if end < s.len() {
        lemma_split_parts(s, separator, end + 1);
        let rest = split_parts(s, separator, end + 1);
        assert(parts.drop_first() =~= rest);
        assert(first.push(separator) + s.skip(end + 1) =~= s.skip(from));
        assert forall|i: int| 0 <= i < parts.len() implies !(#[trigger] parts[i]).contains(
            separator,
        ) by {
            if i > 0 {
                assert(parts[i] == rest[i - 1]);
            }
        }
    } else {
        assert(first =~= s.skip(from));
    }
}

/// Searching forwards finds the first occurrence, or the end of the text.
pub proof fn law_next_position(s: Seq<char>, c: char, from: int)
    requires
        0 <= from <= s.len(),
    ensures
        from <= next_position(s, c, from) <= s.len(),
        next_position(s, c, from) < s.len() ==> s[next_position(s, c, from)] == c,
        forall|i: int| from <= i < next_position(s, c, from) ==> #[trigger] s[i] != c,
    decreases s.len() - from,
{
    if from < s.len() && s[from] != c {
        law_next_position(s, c, from + 1);
    }
}

/// Searching backwards finds the last occurrence, or nothing if there is none.
pub proof fn law_last_position(s: Seq<char>, c: char)
    ensures
        -1 <= last_position(s, c) < s.len(),
        last_position(s, c) >= 0 ==> s[last_position(s, c)] == c,
        forall|i: int| last_position(s, c) < i < s.len() ==> #[trigger] s[i] != c,
    decreases s.len(),
{
    if s.len() > 0 && s.last() != c {
        let rest = s.drop_last();
        law_last_position(rest, c);
        assert forall|i: int| last_position(s, c) < i < s.len() implies #[trigger] s[i] != c by {
            if i < rest.len() {
                assert(rest[i] == s[i]);
            }
        }
    }
}

/// Searching a text finds its first occurrence, or nothing if there is none.
pub proof fn law_first_occurrence(s: Seq<char>, part: Seq<char>, from: int)
    requires
        0 <= from,
    ensures
        match first_occurrence(s, part, from) {
            Some(position) => {
                &&& from <= position <= s.len() - part.len()
                &&& s.subrange(position, position + part.len()) == part
                &&& forall|i: int| from <= i < position ==> !#[trigger] occurs_at(s, part, i)
            },
            None => forall|i: int| from <= i <= s.len() ==> !#[trigger] occurs_at(s, part, i),
        },
    decreases s.len() + 1 - from,
{
    if from <= s.len() {
        if occurs_at(s, part, from) {
            assert(s.subrange(from, from + part.len()) =~= s.skip(from).take(part.len() as int));
        } else {
            law_first_occurrence(s, part, from + 1);
        }
    }
}

/// Only texts made of decimal digits are numbers, apart from a leading plus sign.
pub proof fn law_numbers_are_made_of_digits(s: Seq<char>, i: int)
    requires
        parsed_u64(s) is Some,
        0 <= i < s.len(),
    ensures
        '0' <= s[i] <= '9' || i == 0 && s[i] == '+',
{
    let digits = number_digits(s);
    if digits.len() < s.len() {
        if i > 0 {
            assert(is_digit(digits[i - 1]));
        }
    } else {
        assert(is_digit(digits[i]));
    }
}

/// Texts without the pattern stay the same.
pub proof fn law_replacing_nothing(s: Seq<char>, pattern: Seq<char>, with: Seq<char>, from: int)
    requires
        pattern.len() > 0,
        0 <= from <= s.len(),
        forall|i: int| from <= i < s.len() ==> !#[trigger] occurs_at(s, pattern, i),
    ensures
        replaced(s, pattern, with, from) == s.skip(from),
{
    lemma_replaced_copy(s, pattern, with, from, s.len() as int);
    assert(s.subrange(from, s.len() as int) + replaced(s, pattern, with, s.len() as int) =~= s.skip(
        from,
    ));
}

proof fn lemma_replaced_copy(s: Seq<char>, pattern: Seq<char>, with: Seq<char>, from: int, to: int)
    requires
        pattern.len() > 0,
        0 <= from <= to <= s.len(),
        forall|i: int| from <= i < to ==> !#[trigger] occurs_at(s, pattern, i),
    ensures
        replaced(s, pattern, with, from) == s.subrange(from, to) + replaced(s, pattern, with, to),
    decreases to - from,
{
    if from < to {
        assert(!occurs_at(s, pattern, from));
        lemma_replaced_copy(s, pattern, with, from + 1, to);
        assert(seq![s[from]] + s.subrange(from + 1, to) =~= s.subrange(from, to));
        assert(replaced(s, pattern, with, from) =~= s.subrange(from, to) + replaced(
            s,
            pattern,
            with,
            to,
        ));
    } else {
        assert(s.subrange(from, to) + replaced(s, pattern, with, to) =~= replaced(
            s,
            pattern,
            with,
            to,
        ));
    }
}

/// The first occurrence of a pattern is replaced, with everything in front of it
/// being kept and everything behind it being searched for more.
pub proof fn law_first_pattern_is_replaced(
    s: Seq<char>,
    pattern: Seq<char>,
    with: Seq<char>,
    from: int,
    position: int,
)
    requires
        pattern.len() > 0,
        0 <= from <= position <= s.len() - pattern.len(),
        s.subrange(position, position + pattern.len()) == pattern,
        forall|i: int| from <= i < position ==> !#[trigger] occurs_at(s, pattern, i),
    ensures
        replaced(s, pattern, with, from) == s.subrange(from, position) + with + replaced(
            s,
            pattern,
            with,
            position + pattern.len(),
        ),
{
    lemma_replaced_copy(s, pattern, with, from, position);
    assert(s.skip(position).take(pattern.len() as int) =~= pattern);
    assert(occurs_at(s, pattern, position));
    assert(s.subrange(from, position) + (with + replaced(
        s,
        pattern,
        with,
        position + pattern.len(),
    )) =~= s.subrange(from, position) + with + replaced(
        s,
        pattern,
        with,
        position + pattern.len(),
    ));
}

} // verus!
