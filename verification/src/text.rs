//! Strings: comparing, trimming, splitting, and reading numbers.

use std::num::ParseIntError;
use vstd::prelude::*;
use vstd::string::{StrSliceExecFns, StringSliceAdditionalSpecFns};
use vstd::utf8::{encode_utf8, encode_utf8_decode_utf8};

verus! {

/// Whether two strings hold the same characters.
pub fn str_eq(a: &str, b: &str) -> (same: bool)
    ensures
        same == (a@ == b@),
{
    let x = a.as_bytes();
    let y = b.as_bytes();
    proof {
        encode_utf8_decode_utf8(a@);
        encode_utf8_decode_utf8(b@);
    }
    if x.len() != y.len() {
        return false;
    }
    let mut i: usize = 0;
    while i < x.len()
        invariant
            i <= x@.len(),
            x@.len() == y@.len(),
            x@ == encode_utf8(a@),
            y@ == encode_utf8(b@),
            forall|k: int| 0 <= k < i ==> x@[k] == y@[k],
        decreases x@.len() - i,
    {
        if x[i] != y[i] {
            return false;
        }
        i += 1;
    }
    assert(x@ =~= y@);
    true
}

/// Whether `c` is white space: one of the code points with the Unicode
/// property `White_Space`.
pub open spec fn is_whitespace(c: char) -> bool {
    let u = c as u32;
    ||| 0x0009 <= u <= 0x000D
    ||| u == 0x0020
    ||| u == 0x0085
    ||| u == 0x00A0
    ||| u == 0x1680
    ||| 0x2000 <= u <= 0x200A
    ||| u == 0x2028
    ||| u == 0x2029
    ||| u == 0x202F
    ||| u == 0x205F
    ||| u == 0x3000
}

/// `s` without the white space at its start.
pub open spec fn trim_start_spec(s: Seq<char>) -> Seq<char>
    decreases s.len(),
{
    if s.len() > 0 && is_whitespace(s[0]) {
        trim_start_spec(s.skip(1))
    } else {
        s
    }
}

/// `s` without the white space at its end.
pub open spec fn trim_end_spec(s: Seq<char>) -> Seq<char>
    decreases s.len(),
{
    if s.len() > 0 && is_whitespace(s.last()) {
        trim_end_spec(s.drop_last())
    } else {
        s
    }
}

/// `s` without the white space at its start and at its end.
pub open spec fn trim_spec(s: Seq<char>) -> Seq<char> {
    trim_end_spec(trim_start_spec(s))
}

/// Where `c` stands first in `s`; the length of `s` where it does not stand
/// in it.
pub open spec fn first_index(s: Seq<char>, c: char) -> int
    decreases s.len(),
{
    if s.len() == 0 {
        0
    } else if s[0] == c {
        0
    } else {
        1 + first_index(s.skip(1), c)
    }
}

/// The first index is within the string or just behind it; nothing before
/// it is the character, and what stands at it is.
pub proof fn lemma_first_index(s: Seq<char>, c: char)
    ensures
        0 <= first_index(s, c) <= s.len(),
        forall|k: int| 0 <= k < first_index(s, c) ==> s[k] != c,
        first_index(s, c) < s.len() ==> s[first_index(s, c)] == c,
    decreases s.len(),
{
    if s.len() > 0 && s[0] != c {
        lemma_first_index(s.skip(1), c);
        assert forall|k: int| 0 <= k < first_index(s, c) implies s[k] != c by {
            if k > 0 {
                assert(s.skip(1)[k - 1] == s[k]);
            }
        }
    }
}

/// Whether `c` is white space.
pub fn is_whitespace_char(c: char) -> (r: bool)
    ensures
        r == is_whitespace(c),
{
    let u = c as u32;
    (0x0009 <= u && u <= 0x000D) || u == 0x0020 || u == 0x0085 || u == 0x00A0 || u == 0x1680 || (
    0x2000 <= u && u <= 0x200A) || u == 0x2028 || u == 0x2029 || u == 0x202F || u == 0x205F || u
        == 0x3000
}

/// What is left of `s` when its first `k` characters are white space and
/// the next one is not.
pub proof fn lemma_trim_start(s: Seq<char>, k: int)
    requires
        0 <= k <= s.len(),
        forall|j: int| 0 <= j < k ==> is_whitespace(s[j]),
        k == s.len() || !is_whitespace(s[k]),
    ensures
        trim_start_spec(s) == s.skip(k),
    decreases k,
{
    if k > 0 {
        let rest = s.skip(1);
        assert forall|j: int| 0 <= j < k - 1 implies is_whitespace(rest[j]) by {
            assert(rest[j] == s[j + 1]);
        }
        lemma_trim_start(rest, k - 1);
        assert(rest.skip(k - 1) =~= s.skip(k));
    } else {
        assert(s.skip(0) =~= s);
    }
}

/// What is left of `s` when everything from index `e` on is white space
/// and the character before is not.
pub proof fn lemma_trim_end(s: Seq<char>, e: int)
    requires
        0 <= e <= s.len(),
        forall|j: int| e <= j < s.len() ==> is_whitespace(s[j]),
        e == 0 || !is_whitespace(s[e - 1]),
    ensures
        trim_end_spec(s) == s.take(e),
    decreases s.len() - e,
{
    if e < s.len() {
        let rest = s.drop_last();
        lemma_trim_end(rest, e);
        assert(rest.take(e) =~= s.take(e));
    } else {
        assert(s.take(e) =~= s);
    }
}

/// The string without the white space at its start and at its end.
pub fn trim<'a>(s: &'a str) -> (trimmed: &'a str)
    ensures
        trimmed@ == trim_spec(s@),
{
    let n = s.unicode_len();
    let mut i: usize = 0;
    let mut start: usize = 0;
    let mut end: usize = 0;
    let mut seen = false;
    for c in it: s.chars()
        invariant
            it.seq() == s@,
            n == s@.len(),
            i == it.index(),
            i <= n,
            !seen ==> start == i && end == 0 && forall|k: int| 0 <= k < i ==> is_whitespace(s@[k]),
            seen ==> start < end <= i && !is_whitespace(s@[start as int]) && !is_whitespace(
                s@[end - 1],
            ) && (forall|k: int| 0 <= k < start ==> is_whitespace(s@[k])) && (forall|k: int|
                end <= k < i ==> is_whitespace(s@[k])),
    {
        if !is_whitespace_char(c) {
            if !seen {
                start = i;
                seen = true;
            }
            end = i + 1;
        } else if !seen {
            start = i + 1;
        }
        i += 1;
    }
    if !seen {
        proof {
            lemma_trim_start(s@, n as int);
            assert(trim_end_spec(s@.skip(n as int)) =~= Seq::<char>::empty());
        }
        let nothing = s.substring_char(0, 0);
        assert(nothing@ =~= Seq::<char>::empty());
        return nothing;
    }
    proof {
        lemma_trim_start(s@, start as int);
        let rest = s@.skip(start as int);
        assert forall|j: int| end - start <= j < rest.len() implies is_whitespace(rest[j]) by {
            assert(rest[j] == s@[j + start]);
        }
        assert(rest[end - start - 1] == s@[end - 1]);
        lemma_trim_end(rest, end - start);
        assert(rest.take(end - start) =~= s@.subrange(start as int, end as int));
    }
    s.substring_char(start, end)
}

/// What stands before and after the first occurrence of `delimiter` in
/// `s`, or nothing where it does not occur.
pub fn split_once<'a>(s: &'a str, delimiter: char) -> (parts: Option<(&'a str, &'a str)>)
    ensures
        match parts {
            Some((before, after)) => first_index(s@, delimiter) < s@.len() && before@
                == s@.subrange(0, first_index(s@, delimiter)) && after@ == s@.subrange(
                first_index(s@, delimiter) + 1,
                s@.len() as int,
            ),
            None => first_index(s@, delimiter) == s@.len(),
        },
{
    let n = s.unicode_len();
    let mut i: usize = 0;
    let mut found: Option<usize> = None;
    for c in it: s.chars()
        invariant
            it.seq() == s@,
            n == s@.len(),
            i == it.index(),
            i <= n,
            found is None ==> forall|k: int| 0 <= k < i ==> s@[k] != delimiter,
            found matches Some(at) ==> at < i && s@[at as int] == delimiter && forall|k: int|
                0 <= k < at ==> s@[k] != delimiter,
    {
        if found.is_none() && c == delimiter {
            found = Some(i);
        }
        i += 1;
    }
    proof {
        lemma_first_index(s@, delimiter);
    }
    match found {
        Some(at) => Some((s.substring_char(0, at), s.substring_char(at + 1, n))),
        None => None,
    }
}

/// The value of a decimal digit.
pub open spec fn digit_value(c: char) -> Option<int> {
    if 0x30 <= c as u32 <= 0x39 {
        Some(c as u32 - 0x30)
    } else {
        None
    }
}

/// The number that a run of decimal digits writes; nothing for an empty
/// run and for a run that holds anything but digits.
pub open spec fn digits_value(s: Seq<char>) -> Option<int>
    decreases s.len(),
{
    if s.len() == 0 {
        None
    } else if s.len() == 1 {
        digit_value(s[0])
    } else {
        match (digits_value(s.drop_last()), digit_value(s.last())) {
            (Some(high), Some(low)) => Some(10 * high + low),
            _ => None,
        }
    }
}

/// The number that `s` writes where a sign is allowed: digits, after a `+`
/// or a `-` or after nothing.
pub open spec fn signed_value(s: Seq<char>) -> Option<int> {
    if s.len() > 0 && s[0] == '-' {
        match digits_value(s.skip(1)) {
            Some(v) => Some(-v),
            None => None,
        }
    } else if s.len() > 0 && s[0] == '+' {
        digits_value(s.skip(1))
    } else {
        digits_value(s)
    }
}

/// The number that `s` writes where no minus sign is allowed: digits, after
/// a `+` or after nothing.
pub open spec fn unsigned_value(s: Seq<char>) -> Option<int> {
    if s.len() > 0 && s[0] == '+' {
        digits_value(s.skip(1))
    } else {
        digits_value(s)
    }
}

/// The error of a failed integer parse, which this library only hands on.
#[verifier::external_type_specification]
#[verifier::external_body]
pub struct ExParseIntError(ParseIntError);

/// `str::parse::<i32>`: the number that the string writes, where it writes
/// one that an `i32` can hold. White space and other characters are errors.
#[verifier::external_body]
pub(crate) fn parse_i32(s: &str) -> (r: Result<i32, ParseIntError>)
    ensures
        match r {
            Ok(v) => signed_value(s@) == Some(v as int),
            Err(e) => match signed_value(s@) {
                Some(v) => v < i32::MIN || v > i32::MAX,
                None => true,
            },
        },
{
    s.parse::<i32>()
}

/// `str::parse::<u32>`: the number that the string writes, where it writes
/// one that a `u32` can hold. White space and other characters are errors.
#[verifier::external_body]
pub(crate) fn parse_u32(s: &str) -> (r: Result<u32, ParseIntError>)
    ensures
        match r {
            Ok(v) => unsigned_value(s@) == Some(v as int),
            Err(e) => match unsigned_value(s@) {
                Some(v) => v > u32::MAX,
                None => true,
            },
        },
{
    s.parse::<u32>()
}

/// `str::parse::<u16>`: the number that the string writes, where it writes
/// one that a `u16` can hold. White space and other characters are errors.
#[verifier::external_body]
pub(crate) fn parse_u16(s: &str) -> (r: Result<u16, ParseIntError>)
    ensures
        match r {
            Ok(v) => unsigned_value(s@) == Some(v as int),
            Err(e) => match unsigned_value(s@) {
                Some(v) => v > u16::MAX,
                None => true,
            },
        },
{
    s.parse::<u16>()
}

/// `str::parse::<u8>`: the number that the string writes, where it writes
/// one that a `u8` can hold. White space and other characters are errors.
#[verifier::external_body]
pub(crate) fn parse_u8(s: &str) -> (r: Result<u8, ParseIntError>)
    ensures
        match r {
            Ok(v) => unsigned_value(s@) == Some(v as int),
            Err(e) => match unsigned_value(s@) {
                Some(v) => v > u8::MAX,
                None => true,
            },
        },
{
    s.parse::<u8>()
}

/// The pieces of `s` between the occurrences of `separator`: one more piece
/// than there are separators.
pub open spec fn split_spec(s: Seq<char>, separator: char) -> Seq<Seq<char>>
    decreases s.len(),
{
    if !(0 <= first_index(s, separator) < s.len()) {
        seq![s]
    } else {
        seq![s.subrange(0, first_index(s, separator))] + split_spec(
            s.subrange(first_index(s, separator) + 1, s.len() as int),
            separator,
        )
    }
}

/// The views of a run of strings.
pub open spec fn views(pieces: Seq<&str>) -> Seq<Seq<char>> {
    Seq::new(pieces.len(), |i: int| pieces[i]@)
}

/// Splits `s` at every occurrence of `separator`.
pub fn split_fields<'a>(s: &'a str, separator: char) -> (pieces: Vec<&'a str>)
    ensures
        views(pieces@) == split_spec(s@, separator),
        pieces@.len() >= 1,
{
    let mut pieces: Vec<&'a str> = Vec::new();
    let mut rest: &'a str = s;
    let mut more = true;
    while more
        invariant
            more ==> split_spec(s@, separator) == views(pieces@) + split_spec(rest@, separator),
            !more ==> split_spec(s@, separator) == views(pieces@) && pieces@.len() >= 1,
        decreases rest@.len() + if more { 1int } else { 0int },
    {
        let ghost before = views(pieces@);
        proof {
            lemma_first_index(rest@, separator);
        }
        match split_once(rest, separator) {
            Some((piece, after)) => {
                pieces.push(piece);
                assert(views(pieces@) =~= before + seq![piece@]);
                assert(before + (seq![piece@] + split_spec(after@, separator)) =~= (before + seq![
                    piece@,
                ]) + split_spec(after@, separator));
                rest = after;
            },
            None => {
                pieces.push(rest);
                assert(views(pieces@) =~= before + seq![rest@]);
                more = false;
            },
        }
    }
    pieces
}

/// Whether `s` begins with `prefix`.
pub open spec fn is_prefix(prefix: Seq<char>, s: Seq<char>) -> bool {
    prefix.len() <= s.len() && s.subrange(0, prefix.len() as int) == prefix
}

/// Whether `s` begins with `prefix`.
pub fn starts_with(s: &str, prefix: &str) -> (r: bool)
    ensures
        r == is_prefix(prefix@, s@),
{
    let n = prefix.unicode_len();
    if s.unicode_len() < n {
        return false;
    }
    let mut i: usize = 0;
    while i < n
        invariant
            i <= n,
            n == prefix@.len(),
            n <= s@.len(),
            forall|k: int| 0 <= k < i ==> s@[k] == prefix@[k],
        decreases n - i,
    {
        if s.get_char(i) != prefix.get_char(i) {
            assert(s@.subrange(0, n as int)[i as int] != prefix@[i as int]);
            return false;
        }
        i += 1;
    }
    assert(s@.subrange(0, n as int) =~= prefix@);
    true
}

/// `s` after `prefix` has been taken off its start as often as it stands
/// there.
pub open spec fn strip_prefixes(s: Seq<char>, prefix: Seq<char>) -> Seq<char>
    decreases s.len(),
{
    if prefix.len() > 0 && is_prefix(prefix, s) {
        strip_prefixes(s.skip(prefix.len() as int), prefix)
    } else {
        s
    }
}

/// Takes `prefix` off the start of `s` as often as it stands there.
pub fn trim_start_matches<'a>(s: &'a str, prefix: &str) -> (rest: &'a str)
    ensures
        rest@ == strip_prefixes(s@, prefix@),
{
    let n = prefix.unicode_len();
    let mut rest: &'a str = s;
    if n == 0 {
        return rest;
    }
    while starts_with(rest, prefix)
        invariant
            n == prefix@.len(),
            n > 0,
            strip_prefixes(s@, prefix@) == strip_prefixes(rest@, prefix@),
        decreases rest@.len(),
    {
        let len = rest.unicode_len();
        let shorter = rest.substring_char(n, len);
        assert(shorter@ =~= rest@.skip(n as int));
        rest = shorter;
    }
    rest
}

} // verus!
