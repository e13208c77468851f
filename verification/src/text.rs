//! Text as a sequence of characters: the model that every contract of this
//! crate uses for strings, and the verified operations on it.

use vstd::prelude::*;

verus! {

// ---- what is taken from the standard library -----------------------------

/// `String::push` appends one character to the end of the string.
pub assume_specification[ String::push ](s: &mut String, c: char)
    ensures
        final(s)@ == old(s)@.push(c),
;

/// Whether a character has the Unicode `White_Space` property.
pub open spec fn whitespace(c: char) -> bool {
    let v = c as u32;
    ||| 0x9 <= v <= 0xD
    ||| v == 0x20
    ||| v == 0x85
    ||| v == 0xA0
    ||| v == 0x1680
    ||| 0x2000 <= v <= 0x200A
    ||| v == 0x2028
    ||| v == 0x2029
    ||| v == 0x202F
    ||| v == 0x205F
    ||| v == 0x3000
}

/// `char::is_whitespace` tells whether a character has the Unicode
/// `White_Space` property.
pub assume_specification[ char::is_whitespace ](c: char) -> (answer: bool)
    ensures
        answer == whitespace(c),
;

/// The lower-case form of a text.
pub uninterp spec fn lowercased(s: Seq<char>) -> Seq<char>;

/// `str::to_lowercase` depends on the characters alone; `lowercased` names
/// its result. Each character becomes one or more characters, and how many does
/// not depend on the others: a text that goes on is not shorter in lower case.
pub assume_specification[ str::to_lowercase ](s: &str) -> (lower: String)
    ensures
        lower@ == lowercased(s@),
        forall|more: Seq<char>| (#[trigger] lowercased(s@ + more)).len() >= lower@.len(),
;

/// The quoted and escaped rendering of a text.
pub uninterp spec fn quoted(s: Seq<char>) -> Seq<char>;

/// The `Debug` rendering of a string, in double quotes and with escapes. It
/// depends on the characters alone; `quoted` names it.
#[verifier::external_body]
pub(crate) fn quote(s: &str) -> (shown: String)
    ensures
        shown@ == quoted(s@),
{
    format!("{:?}", s)
}

// ---- models ---------------------------------------------------------------

/// The characters of an optional string.
pub open spec fn opt_view(o: Option<String>) -> Option<Seq<char>> {
    match o {
        Some(s) => Some(s@),
        None => None,
    }
}

/// The characters of an optional string slice.
pub open spec fn opt_str_view(o: Option<&str>) -> Option<Seq<char>> {
    match o {
        Some(s) => Some(s@),
        None => None,
    }
}

/// The characters of each string of a list.
pub open spec fn texts(list: Seq<String>) -> Seq<Seq<char>> {
    list.map_values(|s: String| s@)
}

/// The characters of each string slice of a list.
pub open spec fn strs(list: Seq<&str>) -> Seq<Seq<char>> {
    list.map_values(|s: &str| s@)
}

/// The parts in order, with the separator between neighbours.
pub open spec fn joined(parts: Seq<Seq<char>>, separator: Seq<char>) -> Seq<char>
    decreases parts.len(),
{
    if parts.len() == 0 {
        seq![]
    } else if parts.len() == 1 {
        parts[0]
    } else {
        joined(parts.drop_last(), separator) + separator + parts.last()
    }
}

/// Whether `needle` stands in `text` at position `at`.
pub open spec fn occurs_at(text: Seq<char>, needle: Seq<char>, at: int) -> bool {
    0 <= at && at + needle.len() <= text.len() && text.subrange(at, at + needle.len()) == needle
}

/// Whether `needle` stands anywhere in `text`.
pub open spec fn contains(text: Seq<char>, needle: Seq<char>) -> bool {
    exists|at: int| occurs_at(text, needle, at)
}

/// The first position at or after `from` where `needle` stands in `text`.
pub open spec fn first_from(text: Seq<char>, needle: Seq<char>, from: int) -> Option<int>
    decreases text.len() - from,
{
    if from < 0 || from + needle.len() > text.len() {
        None
    } else if occurs_at(text, needle, from) {
        Some(from)
    } else if from >= text.len() {
        None
    } else {
        first_from(text, needle, from + 1)
    }
}

/// An optional machine index as a mathematical one.
pub open spec fn opt_int(o: Option<usize>) -> Option<int> {
    match o {
        Some(i) => Some(i as int),
        None => None,
    }
}

/// Every occurrence of `from` replaced by `to`, from left to right.
pub open spec fn replaced(text: Seq<char>, from: Seq<char>, to: Seq<char>) -> Seq<char>
    decreases text.len(),
{
    if text.len() == 0 || from.len() == 0 {
        text
    } else if occurs_at(text, from, 0) {
        to + replaced(text.skip(from.len() as int), from, to)
    } else {
        seq![text[0]] + replaced(text.skip(1), from, to)
    }
}

/// The text without its trailing whitespace.
pub open spec fn trimmed_end(text: Seq<char>) -> Seq<char>
    decreases text.len(),
{
    if text.len() > 0 && whitespace(text.last()) {
        trimmed_end(text.drop_last())
    } else {
        text
    }
}

/// The text without its leading whitespace.
pub open spec fn trimmed_start(text: Seq<char>) -> Seq<char>
    decreases text.len(),
{
    if text.len() > 0 && whitespace(text[0]) {
        trimmed_start(text.skip(1))
    } else {
        text
    }
}

/// The text without leading and trailing whitespace.
pub open spec fn trimmed(text: Seq<char>) -> Seq<char> {
    trimmed_end(trimmed_start(text))
}

/// The character of one decimal digit.
pub open spec fn digit_char(d: nat) -> char {
    if d == 0 {
        '0'
    } else if d == 1 {
        '1'
    } else if d == 2 {
        '2'
    } else if d == 3 {
        '3'
    } else if d == 4 {
        '4'
    } else if d == 5 {
        '5'
    } else if d == 6 {
        '6'
    } else if d == 7 {
        '7'
    } else if d == 8 {
        '8'
    } else {
        '9'
    }
}

/// A number in decimal, without leading zeros.
pub open spec fn decimal(n: nat) -> Seq<char>
    decreases n,
{
    if n < 10 {
        seq![digit_char(n)]
    } else {
        decimal(n / 10).push(digit_char(n % 10))
    }
}

/// A signed number in decimal.
pub open spec fn signed_decimal(n: int) -> Seq<char> {
    if n < 0 {
        "-"@ + decimal((-n) as nat)
    } else {
        decimal(n as nat)
    }
}

/// The value of one decimal digit character.
pub open spec fn digit_value(c: char) -> Option<nat> {
    if '0' <= c && c <= '9' {
        Some((c as u32 - '0' as u32) as nat)
    } else {
        None
    }
}

/// The number that a run of decimal digits writes; `None` for anything else.
pub open spec fn number_of(digits: Seq<char>) -> Option<nat>
    decreases digits.len(),
{
    if digits.len() == 0 {
        None
    } else {
        match digit_value(digits.last()) {
            None => None,
            Some(d) => if digits.len() == 1 {
                Some(d)
            } else {
                match number_of(digits.drop_last()) {
                    None => None,
                    Some(head) => Some(head * 10 + d),
                }
            },
        }
    }
}

/// The 32-bit signed number that a text writes: an optional sign, then one
/// or more decimal digits, and nothing else.
pub open spec fn parsed_i32(s: Seq<char>) -> Option<int> {
    let signed = s.len() > 0 && (s[0] == '-' || s[0] == '+');
    let digits = if signed {
        s.skip(1)
    } else {
        s
    };
    match number_of(digits) {
        None => None,
        Some(n) => {
            let value = if signed && s[0] == '-' {
                -(n as int)
            } else {
                n as int
            };
            if i32::MIN <= value <= i32::MAX {
                Some(value)
            } else {
                None
            }
        },
    }
}

/// An optional 32-bit number as a mathematical one.
pub open spec fn opt_i32(o: Option<i32>) -> Option<int> {
    match o {
        Some(i) => Some(i as int),
        None => None,
    }
}

// ---- facts about the models -----------------------------------------------

/// What a search answers: the first position where the needle stands, or
/// that it stands nowhere from there on.
pub proof fn lemma_first_from(text: Seq<char>, needle: Seq<char>, from: int)
    requires
        0 <= from,
    ensures
        match first_from(text, needle, from) {
            Some(at) => from <= at && occurs_at(text, needle, at) && forall|j: int|
                from <= j < at ==> !occurs_at(text, needle, j),
            None => forall|j: int| from <= j ==> !occurs_at(text, needle, j),
        },
    decreases text.len() - from,
{
    if from + needle.len() > text.len() {
    } else if occurs_at(text, needle, from) {
    } else if from >= text.len() {
    } else {
        lemma_first_from(text, needle, from + 1);
    }
}

/// A text contains a needle exactly when a search from its start finds it.
pub proof fn lemma_contains_is_found(text: Seq<char>, needle: Seq<char>)
    ensures
        contains(text, needle) <==> first_from(text, needle, 0) is Some,
{
    lemma_first_from(text, needle, 0);
}

/// One more part at the end of a list of parts.
pub proof fn lemma_joined_push(parts: Seq<Seq<char>>, part: Seq<char>, separator: Seq<char>)
    ensures
        joined(parts.push(part), separator) == if parts.len() == 0 {
            part
        } else {
            joined(parts, separator) + separator + part
        },
{
    assert(parts.push(part).drop_last() == parts);
}

/// A list of strings with one more string, as texts.
pub proof fn lemma_texts_push(list: Seq<String>, s: String)
    ensures
        texts(list.push(s)) == texts(list).push(s@),
{
    assert(texts(list.push(s)) =~= texts(list).push(s@));
}

/// How many bytes a text takes in UTF-8.
pub open spec fn byte_len(text: Seq<char>) -> nat {
    vstd::utf8::encode_utf8(text).len()
}

/// How many bytes a character takes in UTF-8.
pub open spec fn utf8_width(c: char) -> nat {
    let v = c as u32;
    if v < 0x80 {
        1
    } else if v < 0x800 {
        2
    } else if v < 0x10000 {
        3
    } else {
        4
    }
}

/// How many units a character takes in UTF-16.
pub open spec fn utf16_width(c: char) -> nat {
    if (c as u32) < 0x10000 {
        1
    } else {
        2
    }
}

/// How many units a text takes in UTF-16.
pub open spec fn utf16_len(text: Seq<char>) -> nat
    decreases text.len(),
{
    if text.len() == 0 {
        0
    } else {
        utf16_len(text.drop_last()) + utf16_width(text.last())
    }
}

proof fn lemma_encode_push(text: Seq<char>, c: char)
    ensures
        vstd::utf8::encode_utf8(text.push(c)) == vstd::utf8::encode_utf8(text)
            + vstd::utf8::encode_scalar(c as u32),
    decreases text.len(),
{
    let all = text.push(c);
    let last = vstd::utf8::encode_scalar(c as u32);
    if text.len() == 0 {
        assert(all[0] == c);
        assert(all.drop_first() =~= seq![]);
        assert(vstd::utf8::encode_utf8(all.drop_first()) =~= seq![]);
        assert(vstd::utf8::encode_utf8(text) =~= seq![]);
        assert(vstd::utf8::encode_utf8(all) =~= last);
    } else {
        let first = vstd::utf8::encode_scalar(text[0] as u32);
        let rest = text.drop_first();
        lemma_encode_push(rest, c);
        assert(all[0] == text[0]);
        assert(all.drop_first() =~= rest.push(c));
        assert(vstd::utf8::encode_utf8(all) == first + (vstd::utf8::encode_utf8(rest) + last));
        assert(first + (vstd::utf8::encode_utf8(rest) + last) =~= first + vstd::utf8::encode_utf8(
            rest,
        ) + last);
    }
}

/// One more character at the end of a text, in bytes.
pub proof fn lemma_byte_len_push(text: Seq<char>, c: char)
    ensures
        byte_len(text.push(c)) == byte_len(text) + utf8_width(c),
{
    lemma_encode_push(text, c);
    vstd::utf8::char_is_scalar(c);
}

/// The start of a text takes no more bytes than the whole, and no fewer than
/// its UTF-16 units.
pub proof fn lemma_byte_len_take(text: Seq<char>, n: int)
    requires
        0 <= n <= text.len(),
    ensures
        byte_len(text.take(n)) <= byte_len(text),
        utf16_len(text.take(n)) <= byte_len(text.take(n)),
    decreases text.len(),
{
    if text.len() == 0 {
        assert(text.take(n) =~= text);
    } else {
        let rest = text.drop_last();
        assert(text =~= rest.push(text.last()));
        lemma_byte_len_push(rest, text.last());
        if n < text.len() {
            lemma_byte_len_take(rest, n);
            assert(text.take(n) =~= rest.take(n));
        } else {
            lemma_byte_len_take(rest, rest.len() as int);
            assert(rest.take(rest.len() as int) =~= rest);
            assert(text.take(n) =~= text);
        }
    }
}

// ---- operations -----------------------------------------------------------

/// Collects the characters of a string.
pub(crate) fn chars_of(s: &str) -> (out: Vec<char>)
    ensures
        out@ == s@,
{
    let mut out: Vec<char> = Vec::new();
    for c in rest: s.chars()
        invariant
            rest.seq() == s@,
            out@ == s@.take(rest.index() as int),
    {
        out.push(c);
    }
    assert(s@.take(s@.len() as int) == s@);
    out
}

/// The string of the characters from `from` up to `to`.
pub(crate) fn slice_of(chars: &Vec<char>, from: usize, to: usize) -> (out: String)
    requires
        from <= to <= chars@.len(),
    ensures
        out@ == chars@.subrange(from as int, to as int),
{
    let mut out = String::new();
    let mut i: usize = from;
    while i < to
        invariant
            from <= i <= to <= chars@.len(),
            out@ == chars@.subrange(from as int, i as int),
        decreases to - i,
    {
        out.push(chars[i]);
        i += 1;
        assert(chars@.subrange(from as int, i as int) =~= chars@.subrange(
            from as int,
            i - 1,
        ).push(chars@[i - 1]));
    }
    out
}

/// A copy of an optional string.
pub(crate) fn copy_opt(o: &Option<String>) -> (out: Option<String>)
    ensures
        opt_view(out) == opt_view(*o),
{
    match o {
        Some(s) => Some(s.clone()),
        None => None,
    }
}

/// A copy of a list of strings.
pub(crate) fn copy_all(list: &Vec<String>) -> (out: Vec<String>)
    ensures
        texts(out@) == texts(list@),
{
    let mut out: Vec<String> = Vec::new();
    let mut i: usize = 0;
    while i < list.len()
        invariant
            i <= list@.len(),
            out@ == list@.take(i as int),
        decreases list@.len() - i,
    {
        out.push(list[i].clone());
        i += 1;
    }
    assert(list@.take(list@.len() as int) =~= list@);
    out
}

/// Whether two strings hold the same characters.
pub(crate) fn same(a: &str, b: &str) -> (answer: bool)
    ensures
        answer == (a@ == b@),
{
    let left = chars_of(a);
    let right = chars_of(b);
    if left.len() != right.len() {
        return false;
    }
    let mut i: usize = 0;
    while i < left.len()
        invariant
            i <= left@.len(),
            left@ == a@,
            right@ == b@,
            left@.len() == right@.len(),
            forall|j: int| 0 <= j < i ==> left@[j] == right@[j],
        decreases left@.len() - i,
    {
        if left[i] != right[i] {
            return false;
        }
        i += 1;
    }
    assert(a@ =~= b@);
    true
}

/// Whether one of the strings in `list` holds the same characters as `s`.
pub(crate) fn any_same(list: &Vec<String>, s: &str) -> (answer: bool)
    ensures
        answer == texts(list@).contains(s@),
{
    let mut i: usize = 0;
    while i < list.len()
        invariant
            i <= list@.len(),
            forall|j: int| 0 <= j < i ==> list@[j]@ != s@,
        decreases list@.len() - i,
    {
        if same(&list[i], s) {
            assert(texts(list@)[i as int] == s@);
            return true;
        }
        i += 1;
    }
    assert forall|j: int| 0 <= j < texts(list@).len() implies texts(list@)[j] != s@ by {
        assert(texts(list@)[j] == list@[j]@);
    }
    false
}

/// Whether `needle` stands in `text` at position `at`.
pub(crate) fn stands_at(text: &Vec<char>, needle: &Vec<char>, at: usize) -> (answer: bool)
    ensures
        answer == occurs_at(text@, needle@, at as int),
{
    if needle.len() > text.len() || at > text.len() - needle.len() {
        return false;
    }
    let mut i: usize = 0;
    while i < needle.len()
        invariant
            i <= needle@.len(),
            at + needle.len() <= text.len(),
            forall|j: int| 0 <= j < i ==> text@[at + j] == needle@[j],
        decreases needle@.len() - i,
    {
        if text[at + i] != needle[i] {
            assert(text@.subrange(at as int, at + needle@.len())[i as int] != needle@[i as int]);
            return false;
        }
        i += 1;
    }
    assert(text@.subrange(at as int, at + needle@.len()) =~= needle@);
    true
}

/// The first position at or after `from` where `needle` stands in `text`.
pub(crate) fn find_from(text: &Vec<char>, needle: &Vec<char>, from: usize) -> (found: Option<usize>)
    ensures
        opt_int(found) == first_from(text@, needle@, from as int),
{
    let mut i: usize = from;
    loop
        invariant
            from <= i,
            first_from(text@, needle@, from as int) == first_from(text@, needle@, i as int),
        decreases text@.len() + 1 - i,
    {
        if needle.len() > text.len() || i > text.len() - needle.len() {
            return None;
        }
        if stands_at(text, needle, i) {
            return Some(i);
        }
        if i >= text.len() {
            return None;
        }
        i += 1;
    }
}

/// Whether `needle` stands anywhere in `text`.
pub(crate) fn holds(text: &str, needle: &str) -> (answer: bool)
    ensures
        answer == contains(text@, needle@),
{
    proof {
        lemma_contains_is_found(text@, needle@);
    }
    let chars = chars_of(text);
    let wanted = chars_of(needle);
    find_from(&chars, &wanted, 0).is_some()
}

/// Joins strings with a separator between neighbours.
pub(crate) fn join(parts: &Vec<String>, separator: &str) -> (out: String)
    ensures
        out@ == joined(texts(parts@), separator@),
{
    let mut out = String::new();
    let mut i: usize = 0;
    while i < parts.len()
        invariant
            i <= parts@.len(),
            out@ == joined(texts(parts@).take(i as int), separator@),
        decreases parts@.len() - i,
    {
        if i > 0 {
            out.append(separator);
        }
        out.append(&parts[i]);
        proof {
            let done = texts(parts@).take(i as int);
            assert(texts(parts@)[i as int] == parts@[i as int]@);
            assert(texts(parts@).take(i + 1) =~= done.push(parts@[i as int]@));
            lemma_joined_push(done, parts@[i as int]@, separator@);
        }
        i += 1;
    }
    assert(texts(parts@).take(parts@.len() as int) =~= texts(parts@));
    out
}

/// Every occurrence of `from` replaced by `to`, from left to right.
pub(crate) fn replace(text: &str, from: &str, to: &str) -> (out: String)
    requires
        from@.len() > 0,
    ensures
        out@ == replaced(text@, from@, to@),
{
    let chars = chars_of(text);
    let needle = chars_of(from);
    let mut out = String::new();
    let mut i: usize = 0;
    assert(text@.skip(0) =~= text@);
    assert(out@ + replaced(text@, from@, to@) =~= replaced(text@, from@, to@));
    while i < chars.len()
        invariant
            i <= chars@.len(),
            chars@ == text@,
            needle@ == from@,
            from@.len() > 0,
            out@ + replaced(text@.skip(i as int), from@, to@) == replaced(text@, from@, to@),
        decreases chars@.len() - i,
    {
        let ghost rest = text@.skip(i as int);
        if stands_at(&chars, &needle, i) {
            proof {
                assert(rest.subrange(0, from@.len() as int) =~= text@.subrange(
                    i as int,
                    i + from@.len(),
                ));
                assert(rest.skip(from@.len() as int) =~= text@.skip(i + from@.len()));
                assert(occurs_at(rest, from@, 0));
            }
            let ghost before = out@;
            out.append(to);
            i += needle.len();
            assert(out@ + replaced(text@.skip(i as int), from@, to@) =~= before + (to@ + replaced(
                text@.skip(i as int),
                from@,
                to@,
            )));
        } else {
            proof {
                if occurs_at(rest, from@, 0) {
                    assert(rest.subrange(0, from@.len() as int) =~= text@.subrange(
                        i as int,
                        i + from@.len(),
                    ));
                }
                assert(rest.skip(1) =~= text@.skip(i + 1));
            }
            let ghost before = out@;
            out.push(chars[i]);
            i += 1;
            assert(out@ + replaced(text@.skip(i as int), from@, to@) =~= before + (seq![rest[0]]
                + replaced(text@.skip(i as int), from@, to@)));
        }
    }
    assert(text@.skip(i as int) =~= seq![]);
    assert(out@ =~= replaced(text@, from@, to@));
    out
}

/// The length of the text without its trailing whitespace.
pub(crate) fn end_of_trimmed(chars: &Vec<char>, to: usize) -> (end: usize)
    requires
        to <= chars@.len(),
    ensures
        end <= to,
        chars@.take(end as int) == trimmed_end(chars@.take(to as int)),
{
    let mut end: usize = to;
    while end > 0 && chars[end - 1].is_whitespace()
        invariant
            end <= to <= chars@.len(),
            trimmed_end(chars@.take(end as int)) == trimmed_end(chars@.take(to as int)),
        decreases end,
    {
        assert(chars@.take(end as int).drop_last() =~= chars@.take(end - 1));
        end -= 1;
    }
    end
}

/// The text without its trailing whitespace.
pub(crate) fn trim_end(text: &str) -> (out: String)
    ensures
        out@ == trimmed_end(text@),
{
    let chars = chars_of(text);
    let end: usize = end_of_trimmed(&chars, chars.len());
    assert(chars@.take(chars@.len() as int) =~= chars@);
    assert(chars@.subrange(0, end as int) =~= chars@.take(end as int));
    slice_of(&chars, 0, end)
}

/// The text without leading and trailing whitespace.
pub(crate) fn trim(text: &str) -> (out: String)
    ensures
        out@ == trimmed(text@),
{
    let chars = chars_of(text);
    let mut start: usize = 0;
    assert(text@.skip(0) =~= text@);
    while start < chars.len() && chars[start].is_whitespace()
        invariant
            start <= chars@.len(),
            chars@ == text@,
            trimmed_start(text@.skip(start as int)) == trimmed_start(text@),
        decreases chars@.len() - start,
    {
        assert(text@.skip(start as int).skip(1) =~= text@.skip(start + 1));
        start += 1;
    }
    let rest = slice_of(&chars, start, chars.len());
    assert(rest@ =~= text@.skip(start as int));
    trim_end(&rest)
}

/// The character of one decimal digit.
fn digit_of(d: u64) -> (c: char)
    requires
        d < 10,
    ensures
        c == digit_char(d as nat),
{
    match d {
        0 => '0',
        1 => '1',
        2 => '2',
        3 => '3',
        4 => '4',
        5 => '5',
        6 => '6',
        7 => '7',
        8 => '8',
        _ => '9',
    }
}

/// Appends a number in decimal.
pub(crate) fn push_decimal(out: &mut String, n: u64)
    ensures
        final(out)@ == old(out)@ + decimal(n as nat),
    decreases n,
{
    if n < 10 {
        out.push(digit_of(n));
    } else {
        push_decimal(out, n / 10);
        out.push(digit_of(n % 10));
    }
}

/// A number in decimal.
pub(crate) fn decimal_text(n: u64) -> (out: String)
    ensures
        out@ == decimal(n as nat),
{
    let mut out = String::new();
    push_decimal(&mut out, n);
    assert(out@ =~= decimal(n as nat));
    out
}

/// A signed number in decimal.
pub(crate) fn signed_text(n: i32) -> (out: String)
    ensures
        out@ == signed_decimal(n as int),
{
    if n < 0 {
        let mut out = "-".to_owned();
        let magnitude: i64 = -(n as i64);
        push_decimal(&mut out, magnitude as u64);
        out
    } else {
        decimal_text(n as u64)
    }
}

/// The value of one decimal digit character.
fn digit_of_char(c: char) -> (d: Option<u64>)
    ensures
        match digit_value(c) {
            Some(v) => d == Some(v as u64) && v < 10,
            None => d is None,
        },
{
    match c {
        '0' => Some(0),
        '1' => Some(1),
        '2' => Some(2),
        '3' => Some(3),
        '4' => Some(4),
        '5' => Some(5),
        '6' => Some(6),
        '7' => Some(7),
        '8' => Some(8),
        '9' => Some(9),
        _ => None,
    }
}

/// The 32-bit signed number that a text writes.
pub(crate) fn parse_i32(text: &str) -> (r: Option<i32>)
    ensures
        opt_i32(r) == parsed_i32(text@),
{
    let chars = chars_of(text);
    let mut start: usize = 0;
    let mut minus = false;
    if chars.len() > 0 && (chars[0] == '-' || chars[0] == '+') {
        start = 1;
        minus = chars[0] == '-';
    }
    let ghost digits = text@.skip(start as int);
    assert(text@.skip(0) =~= text@);
    if start == chars.len() {
        return None;
    }
    let limit: u64 = 0x8000_0000;
    let mut value: u64 = 0;
    let mut over = false;
    let mut i: usize = start;
    while i < chars.len()
        invariant
            chars@ == text@,
            start <= i <= chars@.len(),
            start <= 1,
            digits == text@.skip(start as int),
            number_of(digits) is None ==> parsed_i32(text@) is None,
            limit == 0x8000_0000,
            value <= limit,
            i == start ==> value == 0 && !over,
            i > start ==> (number_of(digits.take(i - start)) matches Some(n) && (if over {
                n > limit
            } else {
                n == value
            })),
        decreases chars@.len() - i,
    {
        let ghost done = digits.take(i - start);
        let ghost next = digits.take(i - start + 1);
        assert(next.drop_last() =~= done);
        assert(next.last() == chars@[i as int]);
        match digit_of_char(chars[i]) {
            None => {
                proof {
                    lemma_number_of_prefix(digits, i - start + 1);
                }
                return None;
            },
            Some(d) => {
                if !over {
                    value = value * 10 + d;
                    if value > limit {
                        over = true;
                        value = 0;
                    }
                }
            },
        }
        i += 1;
    }
    assert(digits.take(i - start) =~= digits);
    if over {
        return None;
    }
    if minus {
        let signed: i64 = -(value as i64);
        Some(signed as i32)
    } else if value < limit {
        Some(value as i32)
    } else {
        None
    }
}

/// A run of characters whose start is no number is no number either.
proof fn lemma_number_of_prefix(digits: Seq<char>, n: int)
    requires
        0 < n <= digits.len(),
        number_of(digits.take(n)) is None,
    ensures
        number_of(digits) is None,
    decreases digits.len() - n,
{
    if n < digits.len() {
        assert(digits.take(n + 1).drop_last() =~= digits.take(n));
        lemma_number_of_prefix(digits, n + 1);
    } else {
        assert(digits.take(n) =~= digits);
    }
}

/// How many bytes a character takes in UTF-8.
pub(crate) fn width_in_utf8(c: char) -> (n: usize)
    ensures
        n == utf8_width(c),
{
    let v: u32 = c as u32;
    if v < 0x80 {
        1
    } else if v < 0x800 {
        2
    } else if v < 0x10000 {
        3
    } else {
        4
    }
}

/// How many units a character takes in UTF-16.
pub(crate) fn width_in_utf16(c: char) -> (n: usize)
    ensures
        n == utf16_width(c),
{
    let v: u32 = c as u32;
    if v < 0x10000 {
        1
    } else {
        2
    }
}

/// The byte offset of the character at `at`.
pub(crate) fn byte_offset(text: &str, chars: &Vec<char>, at: usize) -> (offset: usize)
    requires
        chars@ == text@,
        at <= chars@.len(),
    ensures
        offset == byte_len(text@.take(at as int)),
{
    let total: usize = text.as_bytes().len();
    assert(byte_len(text@) == total);
    let mut offset: usize = 0;
    let mut i: usize = 0;
    assert(text@.take(0) =~= seq![]);
    while i < at
        invariant
            i <= at <= chars@.len(),
            chars@ == text@,
            byte_len(text@) == total,
            offset == byte_len(text@.take(i as int)),
        decreases at - i,
    {
        proof {
            assert(text@.take(i + 1) =~= text@.take(i as int).push(text@[i as int]));
            lemma_byte_len_push(text@.take(i as int), text@[i as int]);
            lemma_byte_len_take(text@, i + 1);
        }
        offset += width_in_utf8(chars[i]);
        i += 1;
    }
    offset
}

// ---- laws ---------------------------------------------------------------------

/// Trimming takes whitespace from the ends, all of it, and nothing else: what is
/// kept is one stretch of the text, everything before and behind it is
/// whitespace, and it neither starts nor ends with any.
pub proof fn trimming_takes_only_the_ends(text: Seq<char>) -> (kept: (int, int))
    ensures
        0 <= kept.0 <= kept.1 <= text.len(),
        trimmed(text) == text.subrange(kept.0, kept.1),
        forall|i: int| 0 <= i < kept.0 ==> whitespace(#[trigger] text[i]),
        forall|i: int| kept.1 <= i < text.len() ==> whitespace(#[trigger] text[i]),
        kept.0 < kept.1 ==> !whitespace(text[kept.0]) && !whitespace(text[kept.1 - 1]),
        trimmed(text).len() == 0 <==> forall|i: int|
            0 <= i < text.len() ==> whitespace(#[trigger] text[i]),
{
    let at = trimming_the_start_takes_only_whitespace(text);
    let rest = text.skip(at);
    trimming_the_end_takes_only_whitespace(rest);
    let n = trimmed_end(rest).len() as int;
    assert(trimmed(text) =~= text.subrange(at, at + n));
    assert forall|i: int| at + n <= i < text.len() implies whitespace(#[trigger] text[i]) by {
        assert(rest[i - at] == text[i]);
    }
    if n > 0 {
        assert(rest[n - 1] == text[at + n - 1]);
        assert(rest[0] == text[at]);
    }
    (at, at + n)
}

/// Trimming the start takes the whitespace there, all of it, and nothing else.
pub proof fn trimming_the_start_takes_only_whitespace(text: Seq<char>) -> (at: int)
    ensures
        0 <= at <= text.len(),
        trimmed_start(text) == text.skip(at),
        forall|i: int| 0 <= i < at ==> whitespace(#[trigger] text[i]),
        at < text.len() ==> !whitespace(text[at]),
    decreases text.len(),
{
    if text.len() > 0 && whitespace(text[0]) {
        let rest = text.skip(1);
        let at = trimming_the_start_takes_only_whitespace(rest);
        assert(rest.skip(at) =~= text.skip(at + 1));
        assert forall|i: int| 0 <= i < at + 1 implies whitespace(#[trigger] text[i]) by {
            if i > 0 {
                assert(rest[i - 1] == text[i]);
            }
        }
        at + 1
    } else {
        assert(text.skip(0) =~= text);
        0
    }
}

/// Trimming the end takes the whitespace there, all of it, and nothing else.
pub proof fn trimming_the_end_takes_only_whitespace(text: Seq<char>)
    ensures
        trimmed_end(text).len() <= text.len(),
        trimmed_end(text) == text.take(trimmed_end(text).len() as int),
        forall|i: int| trimmed_end(text).len() <= i < text.len() ==> whitespace(#[trigger] text[i]),
        trimmed_end(text).len() > 0 ==> !whitespace(trimmed_end(text).last()),
    decreases text.len(),
{
    if text.len() > 0 && whitespace(text.last()) {
        let head = text.drop_last();
        trimming_the_end_takes_only_whitespace(head);
        let n = trimmed_end(text).len() as int;
        assert(head.take(n) =~= text.take(n));
        assert forall|i: int| n <= i < text.len() implies whitespace(#[trigger] text[i]) by {
            if i < head.len() {
                assert(head[i] == text[i]);
            }
        }
    } else {
        assert(text.take(text.len() as int) =~= text);
    }
}

/// Joining puts the separator between the parts, and nowhere else.
pub proof fn joining_separates_the_parts(
    part: Seq<char>,
    rest: Seq<Seq<char>>,
    separator: Seq<char>,
)
    ensures
        joined(seq![], separator).len() == 0,
        joined(seq![part], separator) == part,
        rest.len() > 0 ==> joined(seq![part] + rest, separator) == part + separator + joined(
            rest,
            separator,
        ),
    decreases rest.len(),
{
    if rest.len() == 1 {
        assert((seq![part] + rest).drop_last() =~= seq![part]);
        assert(joined(seq![part], separator) == part);
        assert((seq![part] + rest).last() == rest[0]);
    } else if rest.len() > 1 {
        joining_separates_the_parts(part, rest.drop_last(), separator);
        assert((seq![part] + rest).drop_last() =~= seq![part] + rest.drop_last());
        assert(part + separator + joined(rest.drop_last(), separator) + separator + rest.last()
            =~= part + separator + (joined(rest.drop_last(), separator) + separator
            + rest.last()));
    }
}

/// The digits of a number read back as the number, and the first of them is no
/// zero unless the number is.
pub proof fn decimals_read_back(n: nat)
    ensures
        number_of(decimal(n)) == Some(n),
        decimal(n).len() > 0,
        n > 0 ==> decimal(n)[0] != '0',
        forall|i: int| 0 <= i < decimal(n).len() ==> '0' <= #[trigger] decimal(n)[i] <= '9',
    decreases n,
{
    assert(digit_value(digit_char(n % 10)) == Some(n % 10));
    if n >= 10 {
        decimals_read_back(n / 10);
        let head = decimal(n / 10);
        assert(decimal(n).drop_last() =~= head);
        assert(decimal(n)[0] == head[0]);
        assert forall|i: int| 0 <= i < decimal(n).len() implies '0' <= #[trigger] decimal(n)[i]
            <= '9' by {
            if i < head.len() {
                assert(decimal(n)[i] == head[i]);
            }
        }
    }
}

/// A number of 32 bits, written out, reads back as itself.
pub proof fn signed_decimals_read_back(n: i32)
    ensures
        parsed_i32(signed_decimal(n as int)) == Some(n as int),
        forall|i: int|
            0 <= i < signed_decimal(n as int).len() ==> !whitespace(
                #[trigger] signed_decimal(n as int)[i],
            ) && signed_decimal(n as int)[i] != '(' && signed_decimal(n as int)[i] != '\n',
        signed_decimal(n as int).len() > 0,
{
    reveal_strlit("-");
    if n < 0 {
        decimals_read_back((-n) as nat);
        assert(signed_decimal(n as int).skip(1) =~= decimal((-n) as nat));
        assert forall|i: int| 0 <= i < signed_decimal(n as int).len() implies !whitespace(
            #[trigger] signed_decimal(n as int)[i],
        ) && signed_decimal(n as int)[i] != '(' && signed_decimal(n as int)[i] != '\n' by {
            if i > 0 {
                assert(signed_decimal(n as int)[i] == decimal((-n) as nat)[i - 1]);
            }
        }
    } else {
        decimals_read_back(n as nat);
        assert(decimal(n as nat)[0] != '-' && decimal(n as nat)[0] != '+');
    }
}

/// Replacing leaves a text alone that lacks the first character of what is
/// replaced, and goes on behind it.
pub proof fn replacing_skips_what_cannot_fit(
    front: Seq<char>,
    back: Seq<char>,
    from: Seq<char>,
    to: Seq<char>,
)
    requires
        from.len() > 0,
        !front.contains(from[0]),
    ensures
        replaced(front + back, from, to) == front + replaced(back, from, to),
    decreases front.len(),
{
    if front.len() == 0 {
        assert(front + back =~= back);
        assert(front + replaced(back, from, to) =~= replaced(back, from, to));
    } else {
        let all = front + back;
        let rest = front.skip(1);
        assert(all.skip(1) =~= rest + back);
        assert(!occurs_at(all, from, 0)) by {
            if occurs_at(all, from, 0) {
                assert(all.subrange(0, from.len() as int)[0] == all[0]);
                assert(front.contains(front[0]));
            }
        }
        assert forall|c: char| rest.contains(c) implies front.contains(c) by {
            let i = choose|i: int| 0 <= i < rest.len() && rest[i] == c;
            assert(front[i + 1] == c);
        }
        replacing_skips_what_cannot_fit(rest, back, from, to);
        assert(seq![front[0]] + (rest + replaced(back, from, to)) =~= front + replaced(
            back,
            from,
            to,
        ));
    }
}

/// What is to be replaced is replaced where it stands, and replacing goes on
/// behind it.
pub proof fn replacing_replaces(back: Seq<char>, from: Seq<char>, to: Seq<char>)
    requires
        from.len() > 0,
    ensures
        replaced(from + back, from, to) == to + replaced(back, from, to),
{
    let all = from + back;
    assert(all.subrange(0, from.len() as int) =~= from);
    assert(all.skip(from.len() as int) =~= back);
}

/// The bytes of a text are those of its parts, one behind the other.
pub proof fn encoding_keeps_the_parts(a: Seq<char>, b: Seq<char>)
    ensures
        vstd::utf8::encode_utf8(a + b) == vstd::utf8::encode_utf8(a) + vstd::utf8::encode_utf8(b),
    decreases a.len(),
{
    if a.len() == 0 {
        assert(a + b =~= b);
        assert(vstd::utf8::encode_utf8(a) =~= seq![]);
    } else {
        encoding_keeps_the_parts(a.drop_first(), b);
        assert((a + b).drop_first() =~= a.drop_first() + b);
        assert(vstd::utf8::encode_utf8(a + b) =~= vstd::utf8::encode_utf8(a)
            + vstd::utf8::encode_utf8(b));
    }
}

/// A stretch of characters, counted in bytes, cuts the very bytes of these
/// characters out of the text.
pub proof fn byte_ranges_cut_out_the_characters(text: Seq<char>, start: int, end: int)
    requires
        0 <= start <= end <= text.len(),
    ensures
        byte_len(text.take(start)) <= byte_len(text.take(end)) <= byte_len(text),
        vstd::utf8::encode_utf8(text).subrange(
            byte_len(text.take(start)) as int,
            byte_len(text.take(end)) as int,
        ) == vstd::utf8::encode_utf8(text.subrange(start, end)),
{
    let head = text.take(start);
    let middle = text.subrange(start, end);
    let tail = text.skip(end);
    encoding_keeps_the_parts(head, middle);
    encoding_keeps_the_parts(head + middle, tail);
    assert(head + middle =~= text.take(end));
    assert(head + middle + tail =~= text);
    assert(vstd::utf8::encode_utf8(text).subrange(
        byte_len(head) as int,
        byte_len(text.take(end)) as int,
    ) =~= vstd::utf8::encode_utf8(middle));
}

/// The units of a text are those of its parts: two for a character beyond the
/// first plane, one for any other.
pub proof fn units_add_up(a: Seq<char>, b: Seq<char>)
    ensures
        utf16_len(a + b) == utf16_len(a) + utf16_len(b),
        forall|c: char|
            utf16_len(#[trigger] seq![c]) == if c as u32 > 0xFFFF {
                2nat
            } else {
                1
            },
    decreases b.len(),
{
    assert forall|c: char| utf16_len(#[trigger] seq![c]) == if c as u32 > 0xFFFF {
        2nat
    } else {
        1
    } by {
        assert(seq![c].drop_last() =~= seq![]);
        assert(utf16_len(seq![c].drop_last()) == 0);
    }
    if b.len() == 0 {
        assert(a + b =~= a);
    } else {
        units_add_up(a, b.drop_last());
        assert((a + b).drop_last() =~= a + b.drop_last());
    }
}

/// A number has a sign exactly when it is below zero, and is its distance from
/// zero behind that.
pub proof fn only_numbers_below_zero_have_a_sign(n: int)
    ensures
        n >= 0 ==> signed_decimal(n) == decimal(n as nat) && signed_decimal(n)[0] != '-',
        n < 0 ==> signed_decimal(n)[0] == '-' && signed_decimal(n).skip(1) == decimal((-n) as nat),
{
    reveal_strlit("-");
    if n >= 0 {
        decimals_read_back(n as nat);
    } else {
        assert(signed_decimal(n).skip(1) =~= decimal((-n) as nat));
    }
}

proof fn lemma_only_digits(digits: Seq<char>, i: int)
    requires
        number_of(digits) is Some,
        0 <= i < digits.len(),
    ensures
        '0' <= digits[i] <= '9',
    decreases digits.len(),
{
    if i < digits.len() - 1 {
        lemma_only_digits(digits.drop_last(), i);
    }
}

/// Only a text of digits, with at most one sign before them, reads as a number.
pub proof fn numbers_hold_only_digits(text: Seq<char>, i: int)
    requires
        parsed_i32(text) is Some,
        0 <= i < text.len(),
    ensures
        '0' <= text[i] <= '9' || i == 0 && (text[0] == '-' || text[0] == '+'),
        text[text.len() - 1] != '-' && text[text.len() - 1] != '+',
        text[0] == '-' ==> parsed_i32(text)->0 <= 0,
        text[0] != '-' ==> parsed_i32(text)->0 >= 0,
{
    let signed = text[0] == '-' || text[0] == '+';
    let digits = if signed {
        text.skip(1)
    } else {
        text
    };
    assert(digits.len() > 0);
    lemma_only_digits(digits, digits.len() - 1);
    if signed {
        if i > 0 {
            lemma_only_digits(digits, i - 1);
        }
    } else {
        lemma_only_digits(digits, i);
    }
}

/// A character is whitespace exactly when it is one of the twenty-five that are:
/// the tabulator and the four line and page breaks that follow it, the blank, the
/// next-line character, the unbroken blank, the Ogham blank, the eleven blanks of
/// fixed width, the separators of lines and of paragraphs, the narrow unbroken
/// blank, the mathematical one and the ideographic one.
pub proof fn whitespace_is_what_it_is(c: char)
    ensures
        whitespace(c) <==> c == '\t' || c == '\n' || c == '\u{B}' || c == '\u{C}' || c == '\r' || c
            == ' ' || c == '\u{85}' || c == '\u{A0}' || c == '\u{1680}' || ('\u{2000}' <= c
            && c <= '\u{200A}') || c == '\u{2028}' || c == '\u{2029}' || c == '\u{202F}' || c
            == '\u{205F}' || c == '\u{3000}',
{
}

} // verus!
