//! The line grammar of `/proc/meminfo` and the parser that follows it.
//!
//! A line is the text up to a newline byte; a last line without a newline is
//! read like the others. A line opens with a recognized key (`MemTotal:`, ...)
//! when one of the keys is a prefix of it, and then must hold blanks (spaces or
//! tabs), a decimal number that fits in `usize`, and optionally blanks, the
//! unit `kB` and blanks, up to its end. A recognized line stores its number in
//! its counter, later lines overwriting earlier ones; any other line is skipped.

use vstd::prelude::*;
use crate::mem_info::{field_at, key_bytes, Field, MemInfo, FIELD_COUNT};

verus! {

/// Why a buffer was refused.
#[derive(Debug, Clone, Copy, PartialEq, Eq, Structural)]
pub enum ParseError {
    /// A line opens with a recognized key but its value is missing, is not a
    /// decimal number, does not fit in `usize`, or is followed by other text.
    MalformedLine,
}

pub open spec fn is_newline(b: u8) -> bool {
    b == 10
}

/// A space or a tab.
pub open spec fn is_blank(b: u8) -> bool {
    b == 32 || b == 9
}

pub open spec fn is_digit(b: u8) -> bool {
    48 <= b <= 57
}

/// The length of the first line of `s`, without its newline.
pub open spec fn line_len(s: Seq<u8>) -> nat
    decreases s.len(),
{
    if s.len() == 0 || is_newline(s[0]) {
        0
    } else {
        1 + line_len(s.drop_first())
    }
}

/// How many blanks open `s`.
pub open spec fn blank_len(s: Seq<u8>) -> nat
    decreases s.len(),
{
    if s.len() > 0 && is_blank(s[0]) {
        1 + blank_len(s.drop_first())
    } else {
        0
    }
}

/// How many decimal digits open `s`.
pub open spec fn digit_len(s: Seq<u8>) -> nat
    decreases s.len(),
{
    if s.len() > 0 && is_digit(s[0]) {
        1 + digit_len(s.drop_first())
    } else {
        0
    }
}

/// The number that the decimal digits `d` write.
pub open spec fn decimal(d: Seq<u8>) -> nat
    decreases d.len(),
{
    if d.len() == 0 {
        0
    } else {
        decimal(d.drop_last()) * 10 + (d.last() - 48) as nat
    }
}

/// Whether `t` may follow a value: blanks, then optionally `kB` and blanks.
pub open spec fn is_unit_tail(t: Seq<u8>) -> bool {
    let u = t.skip(blank_len(t) as int);
    // 107 and 66 are the bytes of `k` and `B`.
    u.len() == 0 || (u.len() >= 2 && u[0] == 107 && u[1] == 66 && blank_len(u.skip(2))
        == u.len() - 2)
}

/// The value that follows a recognized key, if that text is well formed.
pub open spec fn value_of(rest: Seq<u8>) -> Option<usize> {
    let r = rest.skip(blank_len(rest) as int);
    let n = digit_len(r);
    let d = r.take(n as int);
    if n > 0 && is_unit_tail(r.skip(n as int)) && decimal(d) <= usize::MAX {
        Some(decimal(d) as usize)
    } else {
        None
    }
}

/// The first field, from position `k` of the key table on, whose key opens `line`.
pub open spec fn key_from(line: Seq<u8>, k: int) -> Option<Field>
    decreases FIELD_COUNT - k,
{
    if k < 0 || k >= FIELD_COUNT {
        None
    } else if key_bytes(field_at(k)).is_prefix_of(line) {
        Some(field_at(k))
    } else {
        key_from(line, k + 1)
    }
}

/// The field whose key opens `line`, if any.
pub open spec fn line_key(line: Seq<u8>) -> Option<Field> {
    key_from(line, 0)
}

/// What one line does to the record read so far.
pub open spec fn apply_line(acc: MemInfo, line: Seq<u8>) -> Result<MemInfo, ParseError> {
    match line_key(line) {
        None => Ok(acc),
        Some(f) => match value_of(line.skip(key_bytes(f).len() as int)) {
            Some(v) => Ok(acc.with(f, v)),
            None => Err(ParseError::MalformedLine),
        },
    }
}

/// Reads the lines of `s` in order, starting from the record `acc`.
pub open spec fn parse_from(s: Seq<u8>, acc: MemInfo) -> Result<MemInfo, ParseError>
    decreases s.len(),
{
    if s.len() == 0 {
        Ok(acc)
    } else {
        let n = line_len(s);
        match apply_line(acc, s.take(n as int)) {
            Err(e) => Err(e),
            Ok(next) => if n < s.len() {
                parse_from(s.skip(n + 1 as int), next)
            } else {
                Ok(next)
            },
        }
    }
}

/// The result of parsing the whole buffer `s`.
pub open spec fn spec_parse(s: Seq<u8>) -> Result<MemInfo, ParseError> {
    parse_from(s, MemInfo::spec_zero())
}

/// The end of the line that starts at `i`: the next newline, or the end of `buf`.
fn line_end(buf: &[u8], i: usize) -> (e: usize)
    requires
        i <= buf@.len(),
    ensures
        i <= e <= buf@.len(),
        e - i == line_len(buf@.skip(i as int)),
        e < buf@.len() ==> is_newline(buf@[e as int]),
{
    let mut j: usize = i;
    while j < buf.len() && buf[j] != 10
        invariant
            i <= j <= buf@.len(),
            line_len(buf@.skip(i as int)) == (j - i) + line_len(buf@.skip(j as int)),
        decreases buf@.len() - j,
    {
        assert(buf@.skip(j as int).drop_first() =~= buf@.skip(j + 1));
        j = j + 1;
    }
    j
}

/// The end of the blanks that open `buf[i..e]`.
fn skip_blanks(buf: &[u8], i: usize, e: usize) -> (j: usize)
    requires
        i <= e <= buf@.len(),
    ensures
        i <= j <= e,
        j - i == blank_len(buf@.subrange(i as int, e as int)),
{
    let mut j: usize = i;
    while j < e && (buf[j] == 32 || buf[j] == 9)
        invariant
            i <= j <= e <= buf@.len(),
            blank_len(buf@.subrange(i as int, e as int)) == (j - i) + blank_len(
                buf@.subrange(j as int, e as int),
            ),
        decreases e - j,
    {
        assert(buf@.subrange(j as int, e as int).drop_first() =~= buf@.subrange(j + 1, e as int));
        j = j + 1;
    }
    j
}

/// The end of the digits that open `buf[i..e]`.
fn skip_digits(buf: &[u8], i: usize, e: usize) -> (j: usize)
    requires
        i <= e <= buf@.len(),
    ensures
        i <= j <= e,
        j - i == digit_len(buf@.subrange(i as int, e as int)),
        forall|k: int| i <= k < j ==> is_digit(#[trigger] buf@[k]),
{
    let mut j: usize = i;
    while j < e && 48 <= buf[j] && buf[j] <= 57
        invariant
            i <= j <= e <= buf@.len(),
            digit_len(buf@.subrange(i as int, e as int)) == (j - i) + digit_len(
                buf@.subrange(j as int, e as int),
            ),
            forall|k: int| i <= k < j ==> is_digit(#[trigger] buf@[k]),
        decreases e - j,
    {
        assert(buf@.subrange(j as int, e as int).drop_first() =~= buf@.subrange(j + 1, e as int));
        j = j + 1;
    }
    j
}

/// A prefix of a digit string writes no more than the whole string.
proof fn lemma_decimal_prefix(d: Seq<u8>, m: int)
    requires
        0 <= m <= d.len(),
    ensures
        decimal(d.take(m)) <= decimal(d),
    decreases d.len(),
{
    if m < d.len() {
        lemma_decimal_prefix(d.drop_last(), m);
        assert(d.drop_last().take(m) =~= d.take(m));
    } else {
        assert(d.take(m) =~= d);
    }
}

/// The number written by the digits `buf[i..j]`, if it fits in `usize`.
fn read_decimal(buf: &[u8], i: usize, j: usize) -> (r: Option<usize>)
    requires
        i <= j <= buf@.len(),
        forall|k: int| i <= k < j ==> is_digit(#[trigger] buf@[k]),
    ensures
        r == (if decimal(buf@.subrange(i as int, j as int)) <= usize::MAX {
            Some(decimal(buf@.subrange(i as int, j as int)) as usize)
        } else {
            None::<usize>
        }),
{
    let mut v: usize = 0;
    let mut k: usize = i;
    assert(buf@.subrange(i as int, i as int) =~= Seq::<u8>::empty());
    while k < j
        invariant
            i <= k <= j <= buf@.len(),
            forall|t: int| i <= t < j ==> is_digit(#[trigger] buf@[t]),
            v == decimal(buf@.subrange(i as int, k as int)),
        decreases j - k,
    {
        let ghost next = buf@.subrange(i as int, k + 1);
        assert(next.drop_last() =~= buf@.subrange(i as int, k as int));
        assert(is_digit(buf@[k as int]));
        let digit: usize = (buf[k] - 48) as usize;
        assert(decimal(next) == v * 10 + digit);
        let step = match v.checked_mul(10) {
            Some(t) => t.checked_add(digit),
            None => None,
        };
        match step {
            Some(t) => {
                v = t;
                k = k + 1;
            },
            None => {
                proof {
                    lemma_decimal_prefix(buf@.subrange(i as int, j as int), k + 1 - i);
                    assert(buf@.subrange(i as int, j as int).take(k + 1 - i) =~= next);
                }
                return None;
            },
        }
    }
    Some(v)
}

/// Whether `buf[i..e]` is a unit tail: blanks, then optionally `kB` and blanks.
fn unit_tail_ok(buf: &[u8], i: usize, e: usize) -> (r: bool)
    requires
        i <= e <= buf@.len(),
    ensures
        r == is_unit_tail(buf@.subrange(i as int, e as int)),
{
    let t = Ghost(buf@.subrange(i as int, e as int));
    let a = skip_blanks(buf, i, e);
    assert(t@.skip(a - i) =~= buf@.subrange(a as int, e as int));
    if a == e {
        return true;
    }
    if e - a < 2 || buf[a] != 107 || buf[a + 1] != 66 {
        return false;
    }
    let b = skip_blanks(buf, a + 2, e);
    assert(buf@.subrange(a as int, e as int).skip(2) =~= buf@.subrange(a + 2, e as int));
    b == e
}

/// The value that follows a recognized key in `buf[i..e]`, if well formed.
fn read_value(buf: &[u8], i: usize, e: usize) -> (r: Option<usize>)
    requires
        i <= e <= buf@.len(),
    ensures
        r == value_of(buf@.subrange(i as int, e as int)),
{
    let rest = Ghost(buf@.subrange(i as int, e as int));
    let a = skip_blanks(buf, i, e);
    assert(rest@.skip(a - i) =~= buf@.subrange(a as int, e as int));
    let n = skip_digits(buf, a, e);
    let ghost r = buf@.subrange(a as int, e as int);
    assert(r.take(n - a) =~= buf@.subrange(a as int, n as int));
    assert(r.skip(n - a) =~= buf@.subrange(n as int, e as int));
    if n == a {
        return None;
    }
    if !unit_tail_ok(buf, n, e) {
        return None;
    }
    read_decimal(buf, a, n)
}

/// Whether `key` opens `buf[i..e]`.
fn has_prefix(buf: &[u8], i: usize, e: usize, key: &[u8]) -> (r: bool)
    requires
        i <= e <= buf@.len(),
    ensures
        r == key@.is_prefix_of(buf@.subrange(i as int, e as int)),
{
    let ghost line = buf@.subrange(i as int, e as int);
    if key.len() > e - i {
        return false;
    }
    let mut k: usize = 0;
    while k < key.len()
        invariant
            i <= e <= buf@.len(),
            key@.len() <= e - i,
            line == buf@.subrange(i as int, e as int),
            0 <= k <= key@.len(),
            forall|t: int| 0 <= t < k ==> key@[t] == #[trigger] line[t],
        decreases key@.len() - k,
    {
        if key[k] != buf[i + k] {
            assert(key@[k as int] != line.subrange(0, key@.len() as int)[k as int]);
            return false;
        }
        k = k + 1;
    }
    assert(key@ =~= line.subrange(0, key@.len() as int));
    true
}

/// The field whose key opens `buf[i..e]`, if any.
fn find_key(buf: &[u8], i: usize, e: usize) -> (r: Option<Field>)
    requires
        i <= e <= buf@.len(),
    ensures
        r == line_key(buf@.subrange(i as int, e as int)),
        r is Some ==> key_bytes(r->0).is_prefix_of(buf@.subrange(i as int, e as int)),
{
    let ghost line = buf@.subrange(i as int, e as int);
    let mut k: usize = 0;
    while k < FIELD_COUNT
        invariant
            i <= e <= buf@.len(),
            line == buf@.subrange(i as int, e as int),
            k <= FIELD_COUNT,
            key_from(line, 0) == key_from(line, k as int),
        decreases FIELD_COUNT - k,
    {
        let f = Field::from_index(k);
        if has_prefix(buf, i, e, f.key()) {
            return Some(f);
        }
        k = k + 1;
    }
    None
}

/// Applies the line `buf[i..e]` to the record `acc`.
fn apply(buf: &[u8], i: usize, e: usize, acc: MemInfo) -> (r: Result<MemInfo, ParseError>)
    requires
        i <= e <= buf@.len(),
    ensures
        r == apply_line(acc, buf@.subrange(i as int, e as int)),
{
    let ghost line = buf@.subrange(i as int, e as int);
    match find_key(buf, i, e) {
        None => Ok(acc),
        Some(f) => {
            let start = i + f.key().len();
            assert(line.skip(key_bytes(f).len() as int) =~= buf@.subrange(start as int, e as int));
            match read_value(buf, start, e) {
                Some(v) => {
                    let mut next = acc;
                    next.set(f, v);
                    Ok(next)
                },
                None => Err(ParseError::MalformedLine),
            }
        },
    }
}

/// Parses the text of `/proc/meminfo` into a record.
///
/// Lines are read in order; a line with a recognized key stores its value,
/// overwriting an earlier one, and any other line is skipped. Counters that no
/// line gives stay zero. A recognized key with a malformed value is an error.
pub fn parse_meminfo(input: &[u8]) -> (r: Result<MemInfo, ParseError>)
    ensures
        r == spec_parse(input@),
{
    let mut acc = MemInfo::zero();
    let mut i: usize = 0;
    assert(input@.skip(0) =~= input@);
    while i < input.len()
        invariant
            i <= input@.len(),
            parse_from(input@.skip(i as int), acc) == spec_parse(input@),
        decreases input@.len() - i,
    {
        let e = line_end(input, i);
        let ghost s = input@.skip(i as int);
        assert(s.take(e - i) =~= input@.subrange(i as int, e as int));
        match apply(input, i, e, acc) {
            Err(err) => {
                return Err(err);
            },
            Ok(next) => {
                acc = next;
            },
        }
        if e < input.len() {
            assert(s.skip(e - i + 1) =~= input@.skip(e + 1));
            i = e + 1;
        } else {
            assert(input@.skip(e as int) =~= Seq::<u8>::empty());
            i = e;
        }
    }
    assert(input@.skip(i as int) =~= Seq::<u8>::empty());
    Ok(acc)
}

} // verus!
