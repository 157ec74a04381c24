//! Reading total CPU ticks out of a process's accounting record.
//!
//! The record is one line: the process id, the command name in parentheses
//! (which may itself hold spaces and parentheses), then fields separated by
//! single spaces. The tail is what follows the last `)` and the space after
//! it. Counted from zero in the tail, field 11 holds the ticks spent in user
//! mode and field 12 those spent in kernel mode, both as unsigned decimal
//! numbers.

use vstd::prelude::*;

verus! {

pub const SPACE: u8 = 0x20;

pub const CLOSE_PAREN: u8 = 0x29;

pub const USER_TICKS_FIELD: usize = 11;

pub const KERNEL_TICKS_FIELD: usize = 12;

/// The index of the last `)` in `s`, if any.
pub open spec fn last_close_paren(s: Seq<u8>) -> Option<int>
    decreases s.len(),
{
    if s.len() == 0 {
        None
    } else if s.last() == CLOSE_PAREN {
        Some(s.len() - 1)
    } else {
        last_close_paren(s.drop_last())
    }
}

/// The fields after the command name: the bytes after the last `)` and the
/// space that follows it; `None` where there is no such `)` and space.
pub open spec fn record_tail(record: Seq<u8>) -> Option<Seq<u8>> {
    match last_close_paren(record) {
        Some(p) => if p + 1 < record.len() && record[p + 1] == SPACE {
            Some(record.subrange(p + 2, record.len() as int))
        } else {
            None
        },
        None => None,
    }
}

/// The fields of `s` between single spaces, empty fields included.
pub open spec fn fields(s: Seq<u8>) -> Seq<Seq<u8>>
    decreases s.len(),
{
    if s.len() == 0 {
        seq![Seq::empty()]
    } else {
        let prev = fields(s.drop_last());
        if s.last() == SPACE {
            prev.push(Seq::empty())
        } else {
            prev.update(prev.len() - 1, prev.last().push(s.last()))
        }
    }
}

pub open spec fn is_digit(c: u8) -> bool {
    0x30 <= c <= 0x39
}

pub open spec fn all_digits(s: Seq<u8>) -> bool {
    forall|i: int| 0 <= i < s.len() ==> is_digit(#[trigger] s[i])
}

/// The number that the decimal digits `s` write.
pub open spec fn digits_value(s: Seq<u8>) -> nat
    decreases s.len(),
{
    if s.len() == 0 {
        0
    } else {
        digits_value(s.drop_last()) * 10 + (s.last() - 0x30) as nat
    }
}

/// An unsigned decimal `u64`: an optional `+`, then one digit or more, with a
/// value that fits in 64 bits.
pub open spec fn decimal_u64(f: Seq<u8>) -> Option<nat> {
    let digits = if f.len() > 0 && f[0] == 0x2b { f.drop_first() } else { f };
    if digits.len() > 0 && all_digits(digits) && digits_value(digits) <= u64::MAX {
        Some(digits_value(digits))
    } else {
        None
    }
}

/// The total ticks (user plus kernel) that the tail of a record states;
/// `None` for a tail too short, a tick field that is no `u64`, or a sum
/// beyond `u64`.
pub open spec fn tail_ticks(tail: Seq<u8>) -> Option<nat> {
    let f = fields(tail);
    if f.len() > KERNEL_TICKS_FIELD {
        match (decimal_u64(f[USER_TICKS_FIELD as int]), decimal_u64(f[KERNEL_TICKS_FIELD as int])) {
            (Some(u), Some(k)) => if u + k <= u64::MAX { Some(u + k) } else { None },
            _ => None,
        }
    } else {
        None
    }
}

/// The ticks that one read contributes: those of the record, or zero where
/// the record could not be read or does not parse.
pub open spec fn sampled_ticks(record: Option<Seq<u8>>) -> nat {
    match record {
        Some(r) => match record_ticks(r) {
            Some(t) => t,
            None => 0,
        },
        None => 0,
    }
}

proof fn lemma_fields_nonempty(s: Seq<u8>)
    ensures
        fields(s).len() >= 1,
    decreases s.len(),
{
    if s.len() > 0 {
        lemma_fields_nonempty(s.drop_last());
    }
}

proof fn lemma_last_close_paren(s: Seq<u8>, p: int)
    requires
        -1 <= p < s.len(),
        p >= 0 ==> s[p] == CLOSE_PAREN,
        forall|q: int| p < q < s.len() ==> s[q] != CLOSE_PAREN,
    ensures
        last_close_paren(s) == (if p >= 0 { Some(p) } else { None::<int> }),
    decreases s.len(),
{
    if s.len() > 0 && p < s.len() - 1 {
        assert(s[s.len() - 1] != CLOSE_PAREN);
        lemma_last_close_paren(s.drop_last(), p);
    }
}

proof fn lemma_digits_value_grows(s: Seq<u8>, i: int)
    requires
        0 <= i <= s.len(),
        all_digits(s),
    ensures
        digits_value(s.take(i)) <= digits_value(s),
    decreases s.len() - i,
{
    if i < s.len() {
        lemma_digits_value_grows(s, i + 1);
        assert(s.take(i + 1).drop_last() =~= s.take(i));
    } else {
        assert(s.take(i) =~= s);
    }
}

/// The value of the unsigned decimal number in `f`, as `str::parse::<u64>`
/// reads it.
pub fn parse_decimal_u64(f: &[u8]) -> (r: Option<u64>)
    ensures
        r matches Some(v) ==> decimal_u64(f@) == Some(v as nat),
        r is None ==> decimal_u64(f@) is None,
{
    let start: usize = if f.len() > 0 && f[0] == 0x2b { 1 } else { 0 };
    let ghost digits = if f@.len() > 0 && f@[0] == 0x2b { f@.drop_first() } else { f@ };
    if start >= f.len() {
        return None;
    }
    assert(digits =~= f@.subrange(start as int, f@.len() as int));
    assert(digits.take(0) =~= Seq::<u8>::empty());
    let mut v: u64 = 0;
    let mut i: usize = start;
    while i < f.len()
        invariant
            start <= i <= f.len(),
            digits == f@.subrange(start as int, f@.len() as int),
            digits == (if f@.len() > 0 && f@[0] == 0x2b { f@.drop_first() } else { f@ }),
            all_digits(digits.take(i - start)),
            v == digits_value(digits.take(i - start)),
        decreases f.len() - i,
    {
        let c = f[i];
        assert(c == digits[i - start]);
        if c < 0x30 || c > 0x39 {
            assert(!all_digits(digits));
            return None;
        }
        let d = (c - 0x30) as u64;
        assert(digits.take(i + 1 - start).drop_last() =~= digits.take(i - start));
        if v > (u64::MAX - d) / 10 {
            proof {
                assert(v * 10 + d > u64::MAX) by (nonlinear_arith)
                    requires v > (u64::MAX - d) / 10, d <= 9;
                if all_digits(digits) {
                    lemma_digits_value_grows(digits, i + 1 - start);
                }
            }
            return None;
        }
        assert(v * 10 + d <= u64::MAX) by (nonlinear_arith)
            requires v <= (u64::MAX - d) / 10, d <= 9;
        v = v * 10 + d;
        i = i + 1;
    }
    assert(digits.take(i - start) =~= digits);
    Some(v)
}

/// The total ticks that the tail `record[start..]` states.
fn ticks_from_tail(record: &[u8], start: usize) -> (r: Option<u64>)
    requires
        start <= record@.len(),
    ensures
        r matches Some(t) ==> tail_ticks(record@.subrange(start as int, record@.len() as int))
            == Some(t as nat),
        r is None ==> tail_ticks(record@.subrange(start as int, record@.len() as int)) is None,
{
    let ghost tail = record@.subrange(start as int, record@.len() as int);
    let mut count: usize = 1;
    assert(tail.take(0) =~= Seq::<u8>::empty());
    let mut user: Vec<u8> = Vec::new();
    let mut kernel: Vec<u8> = Vec::new();
    let mut i: usize = start;
    while i < record.len()
        invariant
            start <= i <= record.len(),
            tail == record@.subrange(start as int, record@.len() as int),
            1 <= count <= KERNEL_TICKS_FIELD + 2,
            count as nat == if fields(tail.take(i - start)).len() > KERNEL_TICKS_FIELD + 1 {
                (KERNEL_TICKS_FIELD + 2) as nat
            } else {
                fields(tail.take(i - start)).len()
            },
            count > USER_TICKS_FIELD ==> user@ == fields(tail.take(i - start))[USER_TICKS_FIELD as int],
            count <= USER_TICKS_FIELD ==> user@ == Seq::<u8>::empty(),
            count > KERNEL_TICKS_FIELD ==> kernel@ == fields(tail.take(i - start))[KERNEL_TICKS_FIELD as int],
            count <= KERNEL_TICKS_FIELD ==> kernel@ == Seq::<u8>::empty(),
        decreases record@.len() - i,
    {
        let c = record[i];
        proof {
            assert(tail.take(i + 1 - start).drop_last() =~= tail.take(i - start));
            assert(tail[i - start] == c);
            lemma_fields_nonempty(tail.take(i - start));
        }
        if c == SPACE {
            if count <= KERNEL_TICKS_FIELD + 1 {
                count = count + 1;
            }
        } else if count == USER_TICKS_FIELD + 1 {
            user.push(c);
        } else if count == KERNEL_TICKS_FIELD + 1 {
            kernel.push(c);
        }
        i = i + 1;
    }
    assert(tail.take(i - start) =~= tail);
    if count <= KERNEL_TICKS_FIELD {
        return None;
    }
    let u = parse_decimal_u64(user.as_slice());
    let k = parse_decimal_u64(kernel.as_slice());
    match (u, k) {
        (Some(u), Some(k)) => {
            if u <= u64::MAX - k {
                Some(u + k)
            } else {
                None
            }
        },
        _ => None,
    }
}

/// The total ticks (user plus kernel) that a record states; `None` for a
/// record without a command name closed by `)` and a space, or whose tail
/// gives none.
pub open spec fn record_ticks(record: Seq<u8>) -> Option<nat> {
    match record_tail(record) {
        Some(t) => tail_ticks(t),
        None => None,
    }
}

/// The total ticks that an accounting record states.
pub fn ticks_from_record(record: &[u8]) -> (r: Option<u64>)
    ensures
        r matches Some(t) ==> record_ticks(record@) == Some(t as nat),
        r is None ==> record_ticks(record@) is None,
{
    let mut p: usize = record.len();
    while p > 0 && record[p - 1] != CLOSE_PAREN
        invariant
            p <= record@.len(),
            forall|q: int| p <= q < record@.len() ==> record@[q] != CLOSE_PAREN,
        decreases p,
    {
        p = p - 1;
    }
    if p == 0 {
        proof {
            lemma_last_close_paren(record@, -1);
        }
        return None;
    }
    proof {
        lemma_last_close_paren(record@, p - 1);
    }
    if p >= record.len() || record[p] != SPACE {
        return None;
    }
    ticks_from_tail(record, p + 1)
}

/// What a read of a record holds: its bytes, or nothing where it failed.
pub open spec fn record_view(record: &Option<Vec<u8>>) -> Option<Seq<u8>> {
    match record {
        Some(b) => Some(b@),
        None => None,
    }
}

/// The ticks that one read of a process's record contributes to a pass: the
/// record's total, or zero where it could not be read or does not parse.
pub fn process_ticks(record: &Option<Vec<u8>>) -> (r: u64)
    ensures
        r == sampled_ticks(record_view(record)),
{
    match record {
        Some(b) => match ticks_from_record(b.as_slice()) {
            Some(t) => t,
            None => 0,
        },
        None => 0,
    }
}

} // verus!
