//! The textual form in which the device writes its values: a tuple in round
//! brackets, a list in square brackets, items separated by a comma and a
//! space, names in double quotes, numbers in decimal digits.
//!
//! A separator counts only at the top level: a comma and a space inside a
//! quoted name, or inside a bracketed tuple, belong to that name or tuple.

use vstd::prelude::*;
use vstd::slice::slice_subrange;

verus! {

pub const QUOTE: u8 = 0x22;

pub const OPEN_PAREN: u8 = 0x28;

pub const CLOSE_PAREN: u8 = 0x29;

pub const PLUS: u8 = 0x2b;

pub const COMMA: u8 = 0x2c;

pub const SPACE: u8 = 0x20;

pub const DIGIT_ZERO: u8 = 0x30;

pub const DIGIT_NINE: u8 = 0x39;

pub const OPEN_BRACKET: u8 = 0x5b;

pub const CLOSE_BRACKET: u8 = 0x5d;

/// Why a piece of text is not the value that was expected.
#[derive(Clone, Copy, Debug, PartialEq, Eq, Structural)]
pub enum ParseError {
    /// The value has the wrong number of fields.
    FieldCount,
    /// A field that must be an unsigned integer is not one, or is too large.
    Integer,
}

/// `s` without its leading bytes equal to `a` or `b`.
pub open spec fn trim_start(s: Seq<u8>, a: u8, b: u8) -> Seq<u8>
    decreases s.len(),
{
    if s.len() > 0 && (s[0] == a || s[0] == b) {
        trim_start(s.drop_first(), a, b)
    } else {
        s
    }
}

/// `s` without its trailing bytes equal to `a` or `b`.
pub open spec fn trim_end(s: Seq<u8>, a: u8, b: u8) -> Seq<u8>
    decreases s.len(),
{
    if s.len() > 0 && (s.last() == a || s.last() == b) {
        trim_end(s.drop_last(), a, b)
    } else {
        s
    }
}

/// `s` without the bytes equal to `a` or `b` at either end.
pub open spec fn trim(s: Seq<u8>, a: u8, b: u8) -> Seq<u8> {
    trim_end(trim_start(s, a, b), a, b)
}

/// Where a reader stands in a text: inside a quoted name or not, and inside
/// how many round brackets.
pub struct Scan {
    pub quoted: bool,
    pub depth: nat,
}

/// The reader's place after one more byte. Inside quotes only the closing
/// quote counts; a closing bracket that closes nothing is ignored.
pub open spec fn scan_step(at: Scan, byte: u8) -> Scan {
    if at.quoted {
        Scan { quoted: byte != QUOTE, depth: at.depth }
    } else if byte == QUOTE {
        Scan { quoted: true, depth: at.depth }
    } else if byte == OPEN_PAREN {
        Scan { quoted: false, depth: at.depth + 1 }
    } else if byte == CLOSE_PAREN && at.depth > 0 {
        Scan { quoted: false, depth: (at.depth - 1) as nat }
    } else {
        at
    }
}

/// The reader's place after the first `n` bytes of `s`.
pub open spec fn scan(s: Seq<u8>, n: int) -> Scan
    decreases n,
{
    if n <= 0 {
        Scan { quoted: false, depth: 0 }
    } else {
        scan_step(scan(s, n - 1), s[n - 1])
    }
}

/// A separator begins at `i`: a comma and a space at the top level.
pub open spec fn separates(s: Seq<u8>, i: int) -> bool {
    &&& 0 <= i
    &&& i + 1 < s.len()
    &&& s[i] == COMMA
    &&& s[i + 1] == SPACE
    &&& scan(s, i) == Scan { quoted: false, depth: 0 }
}

/// Where the field begins that is being read after the first `n` bytes.
pub open spec fn field_start(s: Seq<u8>, n: int) -> int
    decreases n,
{
    if n < 2 {
        0
    } else if separates(s, n - 2) {
        n
    } else {
        field_start(s, n - 1)
    }
}

/// The fields that a separator has ended within the first `n` bytes.
pub open spec fn closed_fields(s: Seq<u8>, n: int) -> Seq<Seq<u8>>
    decreases n,
{
    if n < 2 {
        Seq::empty()
    } else if separates(s, n - 2) {
        closed_fields(s, n - 2).push(s.subrange(field_start(s, n - 2), n - 2))
    } else {
        closed_fields(s, n - 1)
    }
}

/// The fields of `s`: the pieces between its separators. An empty text has
/// no field; any other text has one field more than it has separators.
pub open spec fn fields(s: Seq<u8>) -> Seq<Seq<u8>> {
    if s.len() == 0 {
        Seq::empty()
    } else {
        closed_fields(s, s.len() as int).push(
            s.subrange(field_start(s, s.len() as int), s.len() as int),
        )
    }
}

pub open spec fn is_digit(byte: u8) -> bool {
    DIGIT_ZERO <= byte <= DIGIT_NINE
}

pub open spec fn all_digits(s: Seq<u8>) -> bool {
    forall|i: int| 0 <= i < s.len() ==> is_digit(#[trigger] s[i])
}

/// The number that a run of decimal digits writes.
pub open spec fn decimal_value(s: Seq<u8>) -> nat
    decreases s.len(),
{
    if s.len() == 0 {
        0
    } else {
        10 * decimal_value(s.drop_last()) + (s.last() - DIGIT_ZERO) as nat
    }
}

/// The number that `digits` writes, if it is at least one decimal digit and
/// nothing else, with a value that fits.
pub open spec fn digits_value(digits: Seq<u8>) -> Option<u64> {
    if digits.len() > 0 && all_digits(digits) && decimal_value(digits) <= u64::MAX {
        Some(decimal_value(digits) as u64)
    } else {
        None
    }
}

/// The unsigned integer that `s` writes: an optional plus sign, then the
/// digits.
pub open spec fn unsigned(s: Seq<u8>) -> Option<u64> {
    if s.len() > 0 && s[0] == PLUS {
        digits_value(s.drop_first())
    } else {
        digits_value(s)
    }
}

/// The part of `s` that is left when the bytes equal to `a` or `b` are taken
/// from both ends.
pub fn trim_matches<'a>(s: &'a [u8], a: u8, b: u8) -> (kept: &'a [u8])
    ensures
        kept@ == trim(s@, a, b),
{
    let mut start: usize = 0;
    proof {
        assert(s@.subrange(0, s@.len() as int) == s@);
    }
    while start < s.len() && (s[start] == a || s[start] == b)
        invariant
            start <= s.len(),
            trim_start(s@, a, b) == trim_start(s@.subrange(start as int, s@.len() as int), a, b),
        decreases s.len() - start,
    {
        proof {
            assert(s@.subrange(start as int, s@.len() as int).drop_first() == s@.subrange(
                start + 1,
                s@.len() as int,
            ));
        }
        start += 1;
    }
    let ghost front = s@.subrange(start as int, s@.len() as int);
    let mut end: usize = s.len();
    while end > start && (s[end - 1] == a || s[end - 1] == b)
        invariant
            start <= end <= s.len(),
            trim_end(front, a, b) == trim_end(s@.subrange(start as int, end as int), a, b),
        decreases end,
    {
        proof {
            assert(s@.subrange(start as int, end as int).drop_last() == s@.subrange(
                start as int,
                end - 1,
            ));
        }
        end -= 1;
    }
    slice_subrange(s, start, end)
}

/// Where the fields of `s` lie: for each field its first byte and the byte
/// after its last.
pub fn split_fields(s: &[u8]) -> (ranges: Vec<(usize, usize)>)
    ensures
        ranges@.len() == fields(s@).len(),
        forall|k: int|
            0 <= k < ranges@.len() ==> {
                &&& (#[trigger] ranges@[k]).0 <= ranges@[k].1 <= s@.len()
                &&& s@.subrange(ranges@[k].0 as int, ranges@[k].1 as int) == fields(s@)[k]
            },
{
    let mut ranges: Vec<(usize, usize)> = Vec::new();
    let mut start: usize = 0;
    let mut quoted = false;
    let mut depth: usize = 0;
    let mut i: usize = 0;
    while i < s.len()
        invariant
            start <= i <= s.len(),
            start == field_start(s@, i as int),
            scan(s@, i as int) == (Scan { quoted, depth: depth as nat }),
            depth <= i,
            i > 0 ==> !separates(s@, i - 1),
            ranges@.len() == closed_fields(s@, i as int).len(),
            forall|k: int|
                0 <= k < ranges@.len() ==> {
                    &&& (#[trigger] ranges@[k]).0 <= ranges@[k].1 <= s@.len()
                    &&& s@.subrange(ranges@[k].0 as int, ranges@[k].1 as int) == closed_fields(
                        s@,
                        i as int,
                    )[k]
                },
        decreases s.len() - i,
    {
        let byte = s[i];
        if byte == COMMA && !quoted && depth == 0 && i + 1 < s.len() && s[i + 1] == SPACE {
            proof {
                assert(separates(s@, i as int));
                assert(scan(s@, i + 1) == scan(s@, i as int));
                assert(scan(s@, i + 2) == scan(s@, i as int));
            }
            ranges.push((start, i));
            i += 2;
            start = i;
        } else {
            proof {
                assert(!separates(s@, i as int));
            }
            if quoted {
                quoted = byte != QUOTE;
            } else if byte == QUOTE {
                quoted = true;
            } else if byte == OPEN_PAREN {
                depth += 1;
            } else if byte == CLOSE_PAREN && depth > 0 {
                depth -= 1;
            }
            i += 1;
        }
    }
    if s.len() > 0 {
        ranges.push((start, s.len()));
    }
    ranges
}

/// A run of digits is worth at least as much as it is without its last one.
proof fn lemma_decimal_value_grows(s: Seq<u8>, n: int)
    requires
        all_digits(s),
        0 <= n <= s.len(),
    ensures
        decimal_value(s.subrange(0, n)) <= decimal_value(s),
    decreases s.len() - n,
{
    if n == s.len() {
        assert(s.subrange(0, n) == s);
    } else {
        assert(all_digits(s.drop_last())) by {
            assert forall|i: int| 0 <= i < s.drop_last().len() implies is_digit(
                #[trigger] s.drop_last()[i],
            ) by {
                assert(s.drop_last()[i] == s[i]);
            }
        }
        lemma_decimal_value_grows(s.drop_last(), n);
        assert(s.drop_last().subrange(0, n) == s.subrange(0, n));
        assert(is_digit(s[s.len() - 1]));
    }
}

/// The unsigned integer that `s` writes, if it writes one.
pub fn parse_unsigned(s: &[u8]) -> (value: Option<u64>)
    ensures
        value == unsigned(s@),
{
    let first: usize = if s.len() > 0 && s[0] == PLUS {
        1
    } else {
        0
    };
    let ghost digits = s@.subrange(first as int, s@.len() as int);
    proof {
        if first == 1 {
            assert(digits == s@.drop_first());
        } else {
            assert(digits == s@);
        }
    }
    if first == s.len() {
        return None;
    }
    let mut total: u64 = 0;
    let mut i: usize = first;
    while i < s.len()
        invariant
            first <= i <= s.len(),
            digits == s@.subrange(first as int, s@.len() as int),
            unsigned(s@) == digits_value(digits),
            all_digits(digits.subrange(0, i - first)),
            total == decimal_value(digits.subrange(0, i - first)),
        decreases s.len() - i,
    {
        let byte = s[i];
        let ghost read = digits.subrange(0, i - first);
        let ghost longer = digits.subrange(0, i + 1 - first);
        proof {
            assert(longer.drop_last() == read);
            assert(longer.last() == byte);
        }
        if byte < DIGIT_ZERO || byte > DIGIT_NINE {
            proof {
                assert(digits[i - first] == byte);
            }
            return None;
        }
        proof {
            assert forall|k: int| 0 <= k < longer.len() implies is_digit(#[trigger] longer[k]) by {
                if k < read.len() {
                    assert(longer[k] == read[k]);
                }
            }
        }
        let digit: u64 = (byte - DIGIT_ZERO) as u64;
        let next = match total.checked_mul(10) {
            Some(tens) => tens.checked_add(digit),
            None => None,
        };
        match next {
            Some(sum) => {
                total = sum;
            },
            None => {
                proof {
                    assert(decimal_value(longer) > u64::MAX);
                    if all_digits(digits) {
                        lemma_decimal_value_grows(digits, i + 1 - first);
                    }
                }
                return None;
            },
        }
        i += 1;
    }
    proof {
        assert(digits.subrange(0, s@.len() - first) == digits);
    }
    Some(total)
}

} // verus!

verus! {

/// The numbers that the fields write, if every field is an unsigned integer.
pub open spec fn all_unsigned(entries: Seq<Seq<u8>>) -> Option<Seq<u64>> {
    if forall|k: int| 0 <= k < entries.len() ==> unsigned(#[trigger] entries[k]) is Some {
        Some(Seq::new(entries.len(), |k: int| unsigned(entries[k])->0))
    } else {
        None
    }
}

/// The numbers that the fields of `s` write from field `from` on.
pub fn parse_all_unsigned(s: &[u8], ranges: &Vec<(usize, usize)>, from: usize) -> (numbers: Option<
    Vec<u64>,
>)
    requires
        from <= ranges@.len() == fields(s@).len(),
        forall|k: int|
            0 <= k < ranges@.len() ==> {
                &&& (#[trigger] ranges@[k]).0 <= ranges@[k].1 <= s@.len()
                &&& s@.subrange(ranges@[k].0 as int, ranges@[k].1 as int) == fields(s@)[k]
            },
    ensures
        match numbers {
            Some(values) => all_unsigned(fields(s@).skip(from as int)) == Some(values@),
            None => all_unsigned(fields(s@).skip(from as int)) is None,
        },
{
    let ghost entries = fields(s@).skip(from as int);
    let mut values: Vec<u64> = Vec::new();
    let mut k: usize = from;
    while k < ranges.len()
        invariant
            from <= k <= ranges@.len() == fields(s@).len(),
            entries == fields(s@).skip(from as int),
            forall|j: int|
                0 <= j < ranges@.len() ==> {
                    &&& (#[trigger] ranges@[j]).0 <= ranges@[j].1 <= s@.len()
                    &&& s@.subrange(ranges@[j].0 as int, ranges@[j].1 as int) == fields(s@)[j]
                },
            values@.len() == k - from,
            forall|j: int|
                0 <= j < k - from ==> unsigned(#[trigger] entries[j]) == Some(values@[j]),
        decreases ranges@.len() - k,
    {
        let (first, last) = ranges[k];
        proof {
            assert(entries[k - from] == fields(s@)[k as int]);
        }
        match parse_unsigned(slice_subrange(s, first, last)) {
            Some(value) => {
                values.push(value);
            },
            None => {
                return None;
            },
        }
        k += 1;
    }
    proof {
        assert(values@ =~= all_unsigned(entries)->0);
    }
    Some(values)
}

} // verus!

verus! {

/// The part of `s` that is left when the bytes equal to `a` or `b` are taken
/// from its end.
pub fn trim_end_matches<'a>(s: &'a [u8], a: u8, b: u8) -> (kept: &'a [u8])
    ensures
        kept@ == trim_end(s@, a, b),
{
    let mut end: usize = s.len();
    proof {
        assert(s@.subrange(0, s@.len() as int) == s@);
    }
    while end > 0 && (s[end - 1] == a || s[end - 1] == b)
        invariant
            end <= s.len(),
            trim_end(s@, a, b) == trim_end(s@.subrange(0, end as int), a, b),
        decreases end,
    {
        proof {
            assert(s@.subrange(0, end as int).drop_last() == s@.subrange(0, end - 1));
        }
        end -= 1;
    }
    slice_subrange(s, 0, end)
}

/// Whether two texts are the same, byte for byte.
pub fn same_bytes(a: &[u8], b: &[u8]) -> (same: bool)
    ensures
        same == (a@ == b@),
{
    if a.len() != b.len() {
        return false;
    }
    let mut i: usize = 0;
    while i < a.len()
        invariant
            i <= a.len() == b.len(),
            a@.subrange(0, i as int) == b@.subrange(0, i as int),
        decreases a.len() - i,
    {
        if a[i] != b[i] {
            return false;
        }
        proof {
            assert(a@.subrange(0, i + 1) == a@.subrange(0, i as int).push(a@[i as int]));
            assert(b@.subrange(0, i + 1) == b@.subrange(0, i as int).push(b@[i as int]));
        }
        i += 1;
    }
    proof {
        assert(a@.subrange(0, a@.len() as int) == a@);
        assert(b@.subrange(0, b@.len() as int) == b@);
    }
    true
}

} // verus!

verus! {

/// A comma and a space inside a quoted name do not separate: from the
/// opening quote up to the closing one the reader is inside the quotes, and
/// no separator begins there.
pub proof fn lemma_no_separator_inside_quotes(s: Seq<u8>, opening: int, closing: int, i: int)
    requires
        0 <= opening < i <= closing <= s.len(),
        !scan(s, opening).quoted,
        s[opening] == QUOTE,
        forall|j: int| opening < j < closing ==> s[j] != QUOTE,
    ensures
        scan(s, i).quoted,
        scan(s, i).depth == scan(s, opening).depth,
        !separates(s, i),
    decreases i - opening,
{
    if i > opening + 1 {
        lemma_no_separator_inside_quotes(s, opening, closing, i - 1);
    }
}

} // verus!

verus! {

/// The fields written one after the other, with a comma and a space
/// between each two.
pub open spec fn join_fields(entries: Seq<Seq<u8>>) -> Seq<u8>
    decreases entries.len(),
{
    if entries.len() == 0 {
        Seq::empty()
    } else if entries.len() == 1 {
        entries[0]
    } else {
        join_fields(entries.drop_last()) + seq![COMMA, SPACE] + entries.last()
    }
}

/// The fields that are closed after `n` bytes, each followed by its
/// separator, make up the text before the field that is being read.
proof fn lemma_closed_fields_join(s: Seq<u8>, n: int)
    requires
        0 <= n <= s.len(),
    ensures
        0 <= field_start(s, n) <= n,
        closed_fields(s, n).len() == 0 ==> field_start(s, n) == 0,
        closed_fields(s, n).len() > 0 ==> join_fields(closed_fields(s, n)) + seq![COMMA, SPACE]
            == s.subrange(0, field_start(s, n)),
    decreases n,
{
    if n >= 2 {
        if separates(s, n - 2) {
            lemma_closed_fields_join(s, n - 2);
            let earlier = closed_fields(s, n - 2);
            let field = s.subrange(field_start(s, n - 2), n - 2);
            let closed = earlier.push(field);
            assert(closed.drop_last() == earlier);
            assert(closed.last() == field);
            if earlier.len() == 0 {
                assert(join_fields(closed) == field);
                assert(field + seq![COMMA, SPACE] =~= s.subrange(0, n));
            } else {
                assert(join_fields(closed) == join_fields(earlier) + seq![COMMA, SPACE] + field);
                assert(s.subrange(0, field_start(s, n - 2)) + field + seq![COMMA, SPACE]
                    =~= s.subrange(0, n));
            }
        } else {
            lemma_closed_fields_join(s, n - 1);
        }
    }
}

/// Splitting loses nothing: the fields of a text, joined by a comma and a
/// space, are the text again.
pub proof fn lemma_fields_join_back(s: Seq<u8>)
    ensures
        join_fields(fields(s)) == s,
{
    if s.len() == 0 {
        assert(s =~= Seq::<u8>::empty());
    } else {
        let n = s.len() as int;
        lemma_closed_fields_join(s, n);
        let closed = closed_fields(s, n);
        let field = s.subrange(field_start(s, n), n);
        let all = closed.push(field);
        assert(all.drop_last() == closed);
        assert(all.last() == field);
        if closed.len() == 0 {
            assert(field =~= s);
        } else {
            assert(s.subrange(0, field_start(s, n)) + field =~= s);
        }
    }
}

/// Trimming takes bytes from the ends only, and takes all of them that can
/// go: what is left stands somewhere in the text as it is, with only the
/// two trimmed bytes before and after it, and neither begins nor ends with
/// one of them.
pub proof fn lemma_trim_is_the_bare_middle(s: Seq<u8>, a: u8, b: u8)
    ensures
        exists|first: int, last: int|
            {
                &&& 0 <= first <= last <= s.len()
                &&& #[trigger] s.subrange(first, last) == trim(s, a, b)
                &&& forall|i: int| 0 <= i < first ==> s[i] == a || s[i] == b
                &&& forall|i: int| last <= i < s.len() ==> s[i] == a || s[i] == b
            },
        trim(s, a, b).len() > 0 ==> {
            &&& trim(s, a, b).first() != a
            &&& trim(s, a, b).first() != b
            &&& trim(s, a, b).last() != a
            &&& trim(s, a, b).last() != b
        },
{
    let first = lemma_trim_start_is_a_tail(s, a, b);
    let front = trim_start(s, a, b);
    let cut = lemma_trim_end_is_a_head(front, a, b);
    let last = first + cut;
    assert(s.subrange(first, last) =~= front.subrange(0, cut));
    assert forall|i: int| last <= i < s.len() implies s[i] == a || s[i] == b by {
        assert(s[i] == front[i - first]);
    }
    if trim(s, a, b).len() > 0 {
        assert(trim(s, a, b).first() == front[0]);
    }
}

/// What is left without the leading trimmed bytes is the rest of the text
/// from some place on, before which only trimmed bytes stand.
proof fn lemma_trim_start_is_a_tail(s: Seq<u8>, a: u8, b: u8) -> (first: int)
    ensures
        0 <= first <= s.len(),
        s.subrange(first, s.len() as int) == trim_start(s, a, b),
        forall|i: int| 0 <= i < first ==> s[i] == a || s[i] == b,
        trim_start(s, a, b).len() > 0 ==> trim_start(s, a, b)[0] != a && trim_start(s, a, b)[0]
            != b,
    decreases s.len(),
{
    if s.len() > 0 && (s[0] == a || s[0] == b) {
        let rest = s.drop_first();
        let inner = lemma_trim_start_is_a_tail(rest, a, b);
        assert(s.subrange(inner + 1, s.len() as int) =~= rest.subrange(inner, rest.len() as int));
        assert forall|i: int| 0 <= i < inner + 1 implies s[i] == a || s[i] == b by {
            if i > 0 {
                assert(s[i] == rest[i - 1]);
            }
        }
        inner + 1
    } else {
        assert(s.subrange(0, s.len() as int) =~= s);
        0
    }
}

/// What is left without the trailing trimmed bytes is the text up to some
/// place, after which only trimmed bytes stand.
proof fn lemma_trim_end_is_a_head(s: Seq<u8>, a: u8, b: u8) -> (last: int)
    ensures
        0 <= last <= s.len(),
        s.subrange(0, last) == trim_end(s, a, b),
        forall|i: int| last <= i < s.len() ==> s[i] == a || s[i] == b,
        trim_end(s, a, b).len() > 0 ==> trim_end(s, a, b).last() != a && trim_end(s, a, b).last()
            != b,
    decreases s.len(),
{
    if s.len() > 0 && (s.last() == a || s.last() == b) {
        let rest = s.drop_last();
        let inner = lemma_trim_end_is_a_head(rest, a, b);
        assert(s.subrange(0, inner) =~= rest.subrange(0, inner));
        assert forall|i: int| inner <= i < s.len() implies s[i] == a || s[i] == b by {
            if i < rest.len() {
                assert(s[i] == rest[i]);
            }
        }
        inner
    } else {
        assert(s.subrange(0, s.len() as int) =~= s);
        s.len() as int
    }
}

} // verus!
