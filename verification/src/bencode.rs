//! Bencoded values: integers, byte strings, lists and dictionaries, with a
//! verified encoder and a decoder whose every success re-encodes to exactly
//! the bytes it consumed.

use vstd::prelude::*;

use crate::bytesutil::{append_bytes, copy_range};
use crate::hashing::bytes_eq;

verus! {

broadcast use vstd::std_specs::vec::group_vec_axioms;

/// One bencoded value. Dictionary entries keep the order in which they
/// appear on the wire.
#[derive(Debug)]
pub enum Bencode {
    Int(i64),
    Bytes(Vec<u8>),
    List(Vec<Bencode>),
    Dict(Vec<(Vec<u8>, Bencode)>),
}

/// Why a buffer was refused: it does not start with a canonical bencoded
/// value at the given position.
#[derive(Clone, Copy, Debug, PartialEq, Eq, Structural)]
pub enum BencodeError {
    Malformed,
}

/// Whether a byte can open a bencoded value: a digit, `i`, `l` or `d`.
pub open spec fn spec_is_value_start(b: u8) -> bool {
    (48 <= b <= 57) || b == 105 || b == 108 || b == 100
}

/// The decimal digits of `n` (`n >= 0`), most significant first.
pub open spec fn spec_dec_digits(n: int) -> Seq<u8>
    recommends
        n >= 0,
    decreases n,
{
    if n < 10 {
        seq![(48 + n) as u8]
    } else {
        spec_dec_digits(n / 10).push((48 + n % 10) as u8)
    }
}

/// The digits of `i`, preceded by a minus sign when `i` is negative.
pub open spec fn spec_int_bytes(i: int) -> Seq<u8> {
    if i < 0 {
        seq![45u8] + spec_dec_digits(-i)
    } else {
        spec_dec_digits(i)
    }
}

/// Whether every byte of `s` is a decimal digit.
pub open spec fn spec_all_digits(s: Seq<u8>) -> bool {
    forall|i: int| 0 <= i < s.len() ==> 48 <= #[trigger] s[i] <= 57
}

/// The value a run of decimal digits spells.
pub open spec fn spec_digits_val(s: Seq<u8>) -> int
    decreases s.len(),
{
    if s.len() == 0 {
        0
    } else {
        10 * spec_digits_val(s.drop_last()) + (s.last() - 48)
    }
}

/// The decimal form of `n` is at least one digit, all of them digits, and
/// for a positive `n` it does not start with a zero.
pub proof fn lemma_dec_digits_shape(n: int)
    requires
        n >= 0,
    ensures
        spec_dec_digits(n).len() >= 1,
        spec_all_digits(spec_dec_digits(n)),
        n >= 1 ==> spec_dec_digits(n)[0] != 48,
    decreases n,
{
    if n >= 10 {
        lemma_dec_digits_shape(n / 10);
        assert(n / 10 >= 1);
        let s = spec_dec_digits(n / 10);
        assert(spec_dec_digits(n) == s.push((48 + n % 10) as u8));
        vstd::arithmetic::div_mod::lemma_mod_bound(n, 10);
        assert forall|i: int| 0 <= i < spec_dec_digits(n).len() implies 48 <= #[trigger] spec_dec_digits(
            n,
        )[i] <= 57 by {
            if i < s.len() {
                assert(spec_dec_digits(n)[i] == s[i]);
            }
        }
    } else {
        assert(spec_dec_digits(n) == seq![(48 + n) as u8]);
    }
}

/// Reading back the decimal form of `n` gives `n`.
pub proof fn lemma_digits_val_of_dec(n: int)
    requires
        n >= 0,
    ensures
        spec_digits_val(spec_dec_digits(n)) == n,
    decreases n,
{
    if n < 10 {
        assert(spec_dec_digits(n) == seq![(48 + n) as u8]);
        assert(spec_dec_digits(n).drop_last() =~= Seq::<u8>::empty());
        assert(spec_digits_val(Seq::<u8>::empty()) == 0);
        assert(spec_dec_digits(n).last() == (48 + n) as u8);
    } else {
        lemma_digits_val_of_dec(n / 10);
        let s = spec_dec_digits(n);
        assert(s == spec_dec_digits(n / 10).push((48 + n % 10) as u8));
        assert(s.drop_last() =~= spec_dec_digits(n / 10));
        vstd::arithmetic::div_mod::lemma_fundamental_div_mod(n, 10);
        vstd::arithmetic::div_mod::lemma_mod_bound(n, 10);
    }
}

/// A digit run never spells a negative value.
pub proof fn lemma_digits_val_nonneg(s: Seq<u8>)
    requires
        spec_all_digits(s),
    ensures
        spec_digits_val(s) >= 0,
    decreases s.len(),
{
    if s.len() > 0 {
        assert(spec_all_digits(s.drop_last()));
        lemma_digits_val_nonneg(s.drop_last());
        assert(48 <= s.last() <= 57);
    }
}

/// Extending a digit run never shrinks the value it spells.
pub proof fn lemma_digits_val_prefix(s: Seq<u8>, t: Seq<u8>)
    requires
        spec_all_digits(s),
        spec_all_digits(t),
        s.len() <= t.len(),
        t.subrange(0, s.len() as int) == s,
    ensures
        spec_digits_val(s) <= spec_digits_val(t),
    decreases t.len() - s.len(),
{
    if s.len() < t.len() {
        let t2 = t.drop_last();
        assert(spec_all_digits(t2)) by {
            assert(forall|i: int| 0 <= i < t2.len() ==> t2[i] == #[trigger] t[i]);
        }
        assert(t2.subrange(0, s.len() as int) =~= s);
        lemma_digits_val_prefix(s, t2);
        lemma_digits_val_nonneg(t2);
        assert(48 <= t.last() <= 57);
        assert(spec_digits_val(t) == 10 * spec_digits_val(t2) + (t.last() - 48));
    } else {
        assert(t.subrange(0, t.len() as int) =~= t);
    }
}

/// Every wire encoding is at least two bytes and opens with the byte its
/// kind dictates: a digit for a byte string, `i`, `l` or `d` otherwise.
pub proof fn lemma_encode_first_byte(v: Bencode)
    ensures
        spec_encode(v).len() >= 2,
        spec_is_value_start(spec_encode(v)[0]),
        v is Int ==> spec_encode(v)[0] == 105,
        v is Bytes ==> 48 <= spec_encode(v)[0] <= 57,
        v is List ==> spec_encode(v)[0] == 108,
        v is Dict ==> spec_encode(v)[0] == 100,
{
    match v {
        Bencode::Int(n) => {
            if n >= 0 {
                lemma_dec_digits_shape(n as int);
            } else {
                lemma_dec_digits_shape(-(n as int));
            }
        },
        Bencode::Bytes(b) => {
            lemma_dec_digits_shape(b@.len() as int);
            assert(spec_encode(v)[0] == spec_dec_digits(b@.len() as int)[0]);
        },
        Bencode::List(items) => {},
        Bencode::Dict(entries) => {},
    }
}

/// The wire bytes of one dictionary entry: the key as a byte string, then
/// the value.
pub open spec fn spec_entry_bytes(key: Seq<u8>, v: Bencode) -> Seq<u8> {
    spec_dec_digits(key.len() as int) + seq![58u8] + key + spec_encode(v)
}

/// The wire bytes of one dictionary entry, spelled out; the form
/// [`spec_entry_bytes`] abbreviates.
pub open spec fn spec_entry_bytes_of(e: (Vec<u8>, Bencode)) -> Seq<u8>
    decreases e,
{
    spec_dec_digits(e.0@.len() as int) + seq![58u8] + e.0@ + spec_encode(e.1)
}

/// The wire bytes of a bencoded value.
pub open spec fn spec_encode(v: Bencode) -> Seq<u8>
    decreases v,
{
    match v {
        Bencode::Int(n) => seq![105u8] + spec_int_bytes(n as int) + seq![101u8],
        Bencode::Bytes(b) => spec_dec_digits(b@.len() as int) + seq![58u8] + b@,
        Bencode::List(items) => seq![108u8] + spec_encode_items(items@) + seq![101u8],
        Bencode::Dict(entries) => seq![100u8] + spec_encode_entries(entries@) + seq![101u8],
    }
}

/// The concatenated wire bytes of a sequence of values.
pub open spec fn spec_encode_items(items: Seq<Bencode>) -> Seq<u8>
    decreases items,
{
    if items.len() == 0 {
        Seq::empty()
    } else {
        spec_encode(items[0]) + spec_encode_items(items.subrange(1, items.len() as int))
    }
}

/// The concatenated wire bytes of a sequence of dictionary entries.
pub open spec fn spec_encode_entries(entries: Seq<(Vec<u8>, Bencode)>) -> Seq<u8>
    decreases entries,
{
    if entries.len() == 0 {
        Seq::empty()
    } else {
        spec_entry_bytes_of(entries[0]) + spec_encode_entries(
            entries.subrange(1, entries.len() as int),
        )
    }
}

/// Appending a value to a sequence appends its encoding.
pub proof fn lemma_encode_items_push(items: Seq<Bencode>, v: Bencode)
    ensures
        spec_encode_items(items.push(v)) == spec_encode_items(items) + spec_encode(v),
    decreases items.len(),
{
    if items.len() == 0 {
        assert(items.push(v)[0] == v);
        assert(items.push(v).subrange(1, 1) =~= Seq::<Bencode>::empty());
        assert(spec_encode_items(Seq::<Bencode>::empty()) == Seq::<u8>::empty());
        assert(items =~= Seq::<Bencode>::empty());
        assert(spec_encode_items(items.push(v)) =~= spec_encode_items(items) + spec_encode(v));
    } else {
        let s2 = items.push(v);
        let tail = items.subrange(1, items.len() as int);
        assert(s2[0] == items[0]);
        assert(s2.subrange(1, s2.len() as int) =~= tail.push(v));
        lemma_encode_items_push(tail, v);
        assert(spec_encode_items(s2) == spec_encode(items[0]) + spec_encode_items(tail.push(v)));
        assert(spec_encode_items(items) == spec_encode(items[0]) + spec_encode_items(tail));
        assert(spec_encode_items(s2) =~= spec_encode_items(items) + spec_encode(v));
    }
}

/// Appending an entry to a dictionary appends its encoding.
pub proof fn lemma_encode_entries_push(entries: Seq<(Vec<u8>, Bencode)>, key: Vec<u8>, v: Bencode)
    ensures
        spec_encode_entries(entries.push((key, v))) == spec_encode_entries(entries)
            + spec_entry_bytes(key@, v),
    decreases entries.len(),
{
    if entries.len() == 0 {
        assert(entries.push((key, v))[0] == (key, v));
        assert(entries.push((key, v)).subrange(1, 1) =~= Seq::<(Vec<u8>, Bencode)>::empty());
        assert(spec_encode_entries(Seq::<(Vec<u8>, Bencode)>::empty()) == Seq::<u8>::empty());
        assert(entries =~= Seq::<(Vec<u8>, Bencode)>::empty());
        assert(spec_entry_bytes_of((key, v)) =~= spec_entry_bytes(key@, v));
        assert(spec_encode_entries(entries.push((key, v))) =~= spec_encode_entries(entries)
            + spec_entry_bytes(key@, v));
    } else {
        let s2 = entries.push((key, v));
        let tail = entries.subrange(1, entries.len() as int);
        assert(s2[0] == entries[0]);
        assert(s2.subrange(1, s2.len() as int) =~= tail.push((key, v)));
        lemma_encode_entries_push(tail, key, v);
        assert(spec_encode_entries(s2) == spec_entry_bytes_of(entries[0]) + spec_encode_entries(
            tail.push((key, v)),
        ));
        assert(spec_encode_entries(entries) == spec_entry_bytes_of(entries[0])
            + spec_encode_entries(tail));
        assert(spec_encode_entries(s2) =~= spec_entry_bytes_of(entries[0]) + (spec_encode_entries(
            tail,
        ) + spec_entry_bytes(key@, v)));
        assert(spec_entry_bytes_of(entries[0]) + (spec_encode_entries(tail) + spec_entry_bytes(
            key@,
            v,
        )) =~= (spec_entry_bytes_of(entries[0]) + spec_encode_entries(tail)) + spec_entry_bytes(
            key@,
            v,
        ));
        assert(spec_encode_entries(s2) =~= spec_encode_entries(entries) + spec_entry_bytes(
            key@,
            v,
        ));
    }
}

/// Reading one more digit extends the decimal form by that digit.
proof fn lemma_dec_digits_step(n: int, d: int)
    requires
        n >= 1,
        0 <= d < 10,
    ensures
        spec_dec_digits(10 * n + d) == spec_dec_digits(n).push((48 + d) as u8),
{
    vstd::arithmetic::div_mod::lemma_fundamental_div_mod_converse(10 * n + d, 10, n, d);
}

/// A value no larger than `k / 10` stays no larger than `k` when scaled by
/// ten.
proof fn lemma_mul10_bound(n: int, k: int)
    requires
        0 <= n,
        0 <= k,
        n <= k / 10,
    ensures
        10 * n <= k,
{
    vstd::arithmetic::div_mod::lemma_fundamental_div_mod(k, 10);
    vstd::arithmetic::mul::lemma_mul_inequality(n, k / 10, 10);
    vstd::arithmetic::div_mod::lemma_mod_bound(k, 10);
    assert(n * 10 == 10 * n) by (nonlinear_arith);
    assert((k / 10) * 10 == 10 * (k / 10)) by (nonlinear_arith);
}

/// Whether the bytes at `pos` are exactly the decimal form of `m`, ending
/// right before `dend`, with no digit following.
spec fn spec_digit_run_at(input: Seq<u8>, pos: int, m: u64, dend: int) -> bool {
    &&& 0 <= pos <= dend <= input.len()
    &&& spec_dec_digits(m as int) == input.subrange(pos, dend)
    &&& (dend == input.len() || !(48 <= input[dend] <= 57))
}

/// Read a run of decimal digits at `pos`: canonical (a leading zero stands
/// alone), within `u64`, and consuming exactly the decimal form of the
/// returned value. Conversely, whenever a canonical digit run for some
/// value stands at `pos`, exactly that run is read.
fn parse_digits(input: &Vec<u8>, pos: usize) -> (r: Result<(u64, usize), BencodeError>)
    ensures
        r matches Ok(t) ==> (pos < t.1 <= input@.len() && spec_dec_digits(t.0 as int)
            == input@.subrange(pos as int, t.1 as int)),
        forall|m: u64, dend: int|
            #[trigger] spec_digit_run_at(input@, pos as int, m, dend) ==> (r matches Ok(t) && t.0
                == m && t.1 == dend),
{
    let len = input.len();
    if pos >= len {
        proof {
            assert forall|m: u64, dend: int| spec_digit_run_at(input@, pos as int, m, dend)
                implies false by {
                lemma_dec_digits_shape(m as int);
            }
        }
        return Err(BencodeError::Malformed);
    }
    let d0 = input[pos];
    if d0 < 48 || d0 > 57 {
        proof {
            assert forall|m: u64, dend: int| spec_digit_run_at(input@, pos as int, m, dend)
                implies false by {
                lemma_dec_digits_shape(m as int);
                assert(spec_dec_digits(m as int)[0] == input@[pos as int]);
            }
        }
        return Err(BencodeError::Malformed);
    }
    let mut p: usize = pos + 1;
    if d0 == 48 {
        if p < len && input[p] >= 48 && input[p] <= 57 {
            proof {
                assert forall|m: u64, dend: int| spec_digit_run_at(input@, pos as int, m, dend)
                    implies false by {
                    lemma_dec_digits_shape(m as int);
                    assert(spec_dec_digits(m as int)[0] == 48);
                    assert(m == 0);
                    assert(spec_dec_digits(0) =~= seq![48u8]);
                    assert(dend == pos + 1);
                }
            }
            return Err(BencodeError::Malformed);
        }
        assert(spec_dec_digits(0) =~= input@.subrange(pos as int, p as int));
        proof {
            assert forall|m: u64, dend: int| spec_digit_run_at(input@, pos as int, m, dend)
                implies m == 0 && dend == p by {
                lemma_dec_digits_shape(m as int);
                assert(spec_dec_digits(m as int)[0] == 48);
                assert(m == 0);
                assert(spec_dec_digits(0) =~= seq![48u8]);
            }
        }
        return Ok((0, p));
    }
    let mut n: u64 = (d0 - 48) as u64;
    assert(spec_dec_digits(n as int) =~= input@.subrange(pos as int, p as int));
    while p < len && input[p] >= 48 && input[p] <= 57
        invariant
            pos < p <= len,
            len == input@.len(),
            1 <= n,
            spec_dec_digits(n as int) == input@.subrange(pos as int, p as int),
            spec_all_digits(input@.subrange(pos as int, p as int)),
        decreases len - p,
    {
        let d = input[p] - 48;
        if n > (u64::MAX - d as u64) / 10 {
            proof {
                assert forall|m: u64, dend: int| spec_digit_run_at(input@, pos as int, m, dend)
                    implies false by {
                    lemma_digit_run_extends(input@, pos as int, p as int, m, dend);
                    // The run reaches past p, so m spells at least the
                    // digits up to and including input[p].
                    lemma_dec_digits_shape(m as int);
                    lemma_digits_val_of_dec(m as int);
                    let full = input@.subrange(pos as int, dend);
                    let partial = input@.subrange(pos as int, p + 1);
                    assert(partial =~= full.subrange(0, p + 1 - pos));
                    assert(spec_all_digits(partial)) by {
                        assert(forall|i: int|
                            0 <= i < partial.len() ==> partial[i] == #[trigger] full[i]);
                    }
                    lemma_digits_val_prefix(partial, full);
                    assert(partial.drop_last() =~= input@.subrange(pos as int, p as int));
                    lemma_digits_val_of_dec(n as int);
                    assert(spec_digits_val(partial) == 10 * (n as int) + d);
                    assert(10 * (n as int) + d > u64::MAX) by {
                        vstd::arithmetic::div_mod::lemma_fundamental_div_mod(
                            u64::MAX - d as int,
                            10,
                        );
                        vstd::arithmetic::div_mod::lemma_mod_bound(u64::MAX - d as int, 10);
                        vstd::arithmetic::mul::lemma_mul_inequality(
                            (u64::MAX - d as int) / 10 + 1,
                            n as int,
                            10,
                        );
                    }
                }
            }
            return Err(BencodeError::Malformed);
        }
        proof {
            lemma_mul10_bound(n as int, u64::MAX - d);
            lemma_dec_digits_step(n as int, d as int);
        }
        n = n * 10 + d as u64;
        p = p + 1;
        assert(input@.subrange(pos as int, p as int) =~= input@.subrange(pos as int, p - 1).push(
            input@[p - 1],
        ));
    }
    proof {
        assert forall|m: u64, dend: int| spec_digit_run_at(input@, pos as int, m, dend)
            implies m == n && dend == p by {
            lemma_digit_run_stops(input@, pos as int, p as int, m, dend);
            assert(spec_dec_digits(m as int) == spec_dec_digits(n as int));
            lemma_digits_val_of_dec(m as int);
            lemma_digits_val_of_dec(n as int);
        }
    }
    Ok((n, p))
}

/// While the parser stands inside a digit run (every byte before `p` was a
/// digit and the byte at `p` is one too), the run reaches past `p`.
proof fn lemma_digit_run_extends(input: Seq<u8>, pos: int, p: int, m: u64, dend: int)
    requires
        spec_digit_run_at(input, pos, m, dend),
        pos < p < input.len(),
        spec_all_digits(input.subrange(pos, p)),
        48 <= input[p] <= 57,
    ensures
        dend >= p + 1,
{
    lemma_dec_digits_shape(m as int);
    assert(input.subrange(pos, dend).len() == dend - pos);
    assert(dend - pos >= 1);
    if dend <= p {
        if dend < p {
            assert(0 <= dend - pos < input.subrange(pos, p).len());
            assert(input.subrange(pos, p)[dend - pos] == input[dend]);
            assert(48 <= input.subrange(pos, p)[dend - pos] <= 57);
            assert(48 <= input[dend] <= 57);
        }
    }
}

/// When the parser stops (the byte at `p` is not a digit, or the input is
/// out), the digit run ends exactly at `p`.
proof fn lemma_digit_run_stops(input: Seq<u8>, pos: int, p: int, m: u64, dend: int)
    requires
        spec_digit_run_at(input, pos, m, dend),
        pos < p <= input.len(),
        spec_all_digits(input.subrange(pos, p)),
        p == input.len() || !(48 <= input[p] <= 57),
    ensures
        dend == p,
        spec_dec_digits(m as int) == input.subrange(pos, p),
{
    lemma_dec_digits_shape(m as int);
    assert(input.subrange(pos, dend).len() == dend - pos);
    assert(dend - pos >= 1);
    if dend < p {
        assert(0 <= dend - pos < input.subrange(pos, p).len());
        assert(input.subrange(pos, p)[dend - pos] == input[dend]);
        assert(48 <= input.subrange(pos, p)[dend - pos] <= 57);
        assert(48 <= input[dend] <= 57);
    }
    if dend > p {
        assert(p < input.len());
        assert(spec_dec_digits(m as int)[p - pos] == input[p]);
        assert(48 <= spec_dec_digits(m as int)[p - pos] <= 57);
    }
}

/// The magnitude of `i` as an unsigned value.
fn magnitude_u64(i: i64) -> (r: u64)
    ensures
        r as int == if i < 0 {
            -(i as int)
        } else {
            i as int
        },
{
    if i < 0 {
        if i == i64::MIN {
            9223372036854775808u64
        } else {
            (-i) as u64
        }
    } else {
        i as u64
    }
}

/// Append the decimal digits of `n`.
pub(crate) fn push_u64_decimal(n: u64, out: &mut Vec<u8>)
    ensures
        final(out)@ == old(out)@ + spec_dec_digits(n as int),
    decreases n,
{
    if n < 10 {
        out.push(48 + n as u8);
        assert(final(out)@ =~= old(out)@ + spec_dec_digits(n as int));
    } else {
        push_u64_decimal(n / 10, out);
        out.push(48 + (n % 10) as u8);
        assert(final(out)@ =~= old(out)@ + spec_dec_digits(n as int));
    }
}

/// Whether the bytes from `pos` to `end` are exactly the wire encoding of
/// `v`.
pub open spec fn spec_parses_to(input: Seq<u8>, pos: int, v: Bencode, end: int) -> bool {
    &&& 0 <= pos <= end <= input.len()
    &&& spec_encode(v) == input.subrange(pos, end)
}

/// A value whose encoding opens with `i` is an integer, its sign and digit
/// run stand where the decoder looks for them, and `e` closes it.
proof fn lemma_int_parse_shape(input: Seq<u8>, pos: int, v: Bencode, end: int)
    requires
        spec_parses_to(input, pos, v, end),
        input[pos] == 105,
    ensures
        v is Int,
        pos + 3 <= end,
        input[end - 1] == 101,
        (v->Int_0 as int) < 0 ==> (pos + 4 <= end && input[pos + 1] == 45 && spec_digit_run_at(
            input,
            pos + 2,
            (-(v->Int_0 as int)) as u64,
            end - 1,
        )),
        (v->Int_0 as int) >= 0 ==> (48 <= input[pos + 1] <= 57 && spec_digit_run_at(
            input,
            pos + 1,
            v->Int_0 as u64,
            end - 1,
        )),
{
    lemma_encode_first_byte(v);
    assert(spec_encode(v)[0] == input[pos]);
    let n = v->Int_0 as int;
    let enc = spec_encode(v);
    assert(enc == seq![105u8] + spec_int_bytes(n) + seq![101u8]);
    if n < 0 {
        lemma_dec_digits_shape(-n);
        let digits = spec_dec_digits(-n);
        assert(enc.len() == 3 + digits.len());
        assert(enc[1] == 45);
        assert(input[pos + 1] == enc[1]);
        assert(input[end - 1] == enc[end - 1 - pos]);
        assert(enc[end - 1 - pos] == 101);
        assert(((-n) as u64) as int == -n);
        assert(digits =~= input.subrange(pos + 2, end - 1)) by {
            assert(forall|i: int|
                0 <= i < digits.len() ==> input.subrange(pos, end)[i + 2] == #[trigger] digits[i]);
        }
        assert(!(48 <= input[end - 1] <= 57));
    } else {
        lemma_dec_digits_shape(n);
        let digits = spec_dec_digits(n);
        assert(enc.len() == 2 + digits.len());
        assert(enc[1] == digits[0]);
        assert(input[pos + 1] == enc[1]);
        assert(input[end - 1] == enc[end - 1 - pos]);
        assert(enc[end - 1 - pos] == 101);
        assert((n as u64) as int == n);
        assert(digits =~= input.subrange(pos + 1, end - 1)) by {
            assert(forall|i: int|
                0 <= i < digits.len() ==> input.subrange(pos, end)[i + 1] == #[trigger] digits[i]);
        }
        assert(!(48 <= input[end - 1] <= 57));
    }
}

/// A value whose encoding opens with a digit is a byte string: its length
/// run, the colon, and the payload stand where the decoder looks for them.
proof fn lemma_bytes_parse_shape(input: Seq<u8>, pos: int, v: Bencode, end: int)
    requires
        spec_parses_to(input, pos, v, end),
        input.len() <= usize::MAX,
        48 <= input[pos] <= 57,
    ensures
        v is Bytes,
        ({
            let bv = v->Bytes_0@;
            let kpos = end - 1 - bv.len();
            &&& pos < kpos < end
            &&& bv.len() <= end - pos
            &&& spec_digit_run_at(input, pos, bv.len() as u64, kpos)
            &&& input[kpos] == 58
            &&& bv == input.subrange(kpos + 1, end)
        }),
{
    lemma_encode_first_byte(v);
    assert(spec_encode(v)[0] == input[pos]);
    let bv = v->Bytes_0@;
    let enc = spec_encode(v);
    lemma_dec_digits_shape(bv.len() as int);
    let digits = spec_dec_digits(bv.len() as int);
    assert(enc == digits + seq![58u8] + bv);
    assert(enc.len() == digits.len() + 1 + bv.len());
    let kpos = pos + digits.len();
    assert(kpos == end - 1 - bv.len());
    assert((bv.len() as u64) as int == bv.len() as int) by {
        assert(bv.len() <= end - pos <= input.len() <= usize::MAX <= u64::MAX);
    }
    assert(digits =~= input.subrange(pos, kpos)) by {
        assert(forall|i: int|
            0 <= i < digits.len() ==> input.subrange(pos, end)[i] == #[trigger] digits[i]);
    }
    assert(input[kpos] == enc[kpos - pos]);
    assert(enc[kpos - pos] == 58);
    assert(bv =~= input.subrange(kpos + 1, end)) by {
        assert(forall|i: int|
            0 <= i < bv.len() ==> input.subrange(pos, end)[digits.len() + 1 + i] == #[trigger] bv[i]);
    }
}

/// Round trip: the encoder's output parses back as the very value it came
/// from, in full. Together with the decoder's contract this guarantees that
/// decoding an encoded value succeeds and consumes exactly its encoding.
pub proof fn lemma_bencode_round_trip(v: Bencode)
    ensures
        spec_parses_to(spec_encode(v), 0, v, spec_encode(v).len() as int),
{
    assert(spec_encode(v).subrange(0, spec_encode(v).len() as int) =~= spec_encode(v));
}

/// The magnitude of an integer value, as the decoder's digit parser sees
/// it.
spec fn spec_int_mag(v: Bencode) -> u64
    recommends
        v is Int,
{
    if (v->Int_0 as int) < 0 {
        (-(v->Int_0 as int)) as u64
    } else {
        v->Int_0 as u64
    }
}

/// Decode the canonical bencoded value starting at `pos`. The contract is
/// exact in both directions: on success the returned value re-encodes to
/// exactly the consumed bytes `input[pos..end]`, and whenever the bytes at
/// `pos` are the encoding of some value, decoding succeeds and consumes
/// exactly that encoding.
pub fn decode_bencoded_value(input: &Vec<u8>, pos: usize) -> (r: Result<
    (Bencode, usize),
    BencodeError,
>)
    ensures
        r matches Ok(t) ==> (pos < t.1 <= input@.len() && spec_encode(t.0) == input@.subrange(
            pos as int,
            t.1 as int,
        )),
        forall|v: Bencode, end: int|
            #[trigger] spec_parses_to(input@, pos as int, v, end) ==> (r matches Ok(t) && t.1
                == end),
        pos >= input@.len() ==> r is Err,
        pos < input@.len() && !spec_is_value_start(input@[pos as int]) ==> r is Err,
    decreases input@.len() - pos,
{
    let len = input.len();
    if pos >= len {
        proof {
            assert forall|v: Bencode, end: int| spec_parses_to(input@, pos as int, v, end)
                implies false by {
                lemma_encode_first_byte(v);
            }
        }
        return Err(BencodeError::Malformed);
    }
    let b = input[pos];
    if b == 105 {
        // 'i' <digits> 'e'
        let mut p: usize = pos + 1;
        let neg = p < len && input[p] == 45;
        if neg {
            p = p + 1;
        }
        proof {
            assert forall|v: Bencode, end: int| spec_parses_to(input@, pos as int, v, end)
                implies spec_digit_run_at(input@, p as int, spec_int_mag(v), end - 1) by {
                lemma_int_parse_shape(input@, pos as int, v, end);
            }
        }
        let (mag, p2) = match parse_digits(input, p) {
            Ok(t) => t,
            Err(e) => {
                proof {
                    assert forall|v: Bencode, end: int| spec_parses_to(input@, pos as int, v, end)
                        implies false by {
                        lemma_int_parse_shape(input@, pos as int, v, end);
                    }
                }
                return Err(e);
            },
        };
        if p2 >= len || input[p2] != 101 {
            proof {
                assert forall|v: Bencode, end: int| spec_parses_to(input@, pos as int, v, end)
                    implies false by {
                    lemma_int_parse_shape(input@, pos as int, v, end);
                }
            }
            return Err(BencodeError::Malformed);
        }
        let end = p2 + 1;
        if neg {
            if mag == 0 || mag > 9223372036854775808u64 {
                proof {
                    assert forall|v: Bencode, e2: int| spec_parses_to(input@, pos as int, v, e2)
                        implies false by {
                        lemma_int_parse_shape(input@, pos as int, v, e2);
                    }
                }
                return Err(BencodeError::Malformed);
            }
            let value: i64 = if mag == 9223372036854775808u64 {
                i64::MIN
            } else {
                -(mag as i64)
            };
            assert(value as int == -(mag as int));
            assert(spec_encode(Bencode::Int(value)) =~= input@.subrange(pos as int, end as int));
            proof {
                assert forall|v: Bencode, e2: int| spec_parses_to(input@, pos as int, v, e2)
                    implies e2 == end by {
                    lemma_int_parse_shape(input@, pos as int, v, e2);
                }
            }
            return Ok((Bencode::Int(value), end));
        } else {
            if mag > 9223372036854775807u64 {
                proof {
                    assert forall|v: Bencode, e2: int| spec_parses_to(input@, pos as int, v, e2)
                        implies false by {
                        lemma_int_parse_shape(input@, pos as int, v, e2);
                    }
                }
                return Err(BencodeError::Malformed);
            }
            let value: i64 = mag as i64;
            assert(spec_encode(Bencode::Int(value)) =~= input@.subrange(pos as int, end as int));
            proof {
                assert forall|v: Bencode, e2: int| spec_parses_to(input@, pos as int, v, e2)
                    implies e2 == end by {
                    lemma_int_parse_shape(input@, pos as int, v, e2);
                }
            }
            return Ok((Bencode::Int(value), end));
        }
    } else if b >= 48 && b <= 57 {
        // <digits> ':' <bytes>
        let (blen, p2) = match parse_digits(input, pos) {
            Ok(t) => t,
            Err(e) => {
                proof {
                    assert forall|v: Bencode, end: int| spec_parses_to(input@, pos as int, v, end)
                        implies false by {
                        lemma_bytes_parse_shape(input@, pos as int, v, end);
                    }
                }
                return Err(e);
            },
        };
        if p2 >= len || input[p2] != 58 {
            proof {
                assert forall|v: Bencode, end: int| spec_parses_to(input@, pos as int, v, end)
                    implies false by {
                    lemma_bytes_parse_shape(input@, pos as int, v, end);
                }
            }
            return Err(BencodeError::Malformed);
        }
        let start = p2 + 1;
        if blen > (len - start) as u64 {
            proof {
                assert forall|v: Bencode, end: int| spec_parses_to(input@, pos as int, v, end)
                    implies false by {
                    lemma_bytes_parse_shape(input@, pos as int, v, end);
                }
            }
            return Err(BencodeError::Malformed);
        }
        let nbytes = blen as usize;
        let end = start + nbytes;
        let bytes = copy_range(input, start, end);
        assert(spec_encode(Bencode::Bytes(bytes)) =~= input@.subrange(pos as int, end as int));
        proof {
            assert forall|v: Bencode, e2: int| spec_parses_to(input@, pos as int, v, e2)
                implies e2 == end by {
                lemma_bytes_parse_shape(input@, pos as int, v, e2);
            }
        }
        return Ok((Bencode::Bytes(bytes), end));
    } else if b == 108 {
        // 'l' <values> 'e'
        let mut items: Vec<Bencode> = Vec::new();
        let mut p: usize = pos + 1;
        assert(spec_encode_items(items@) =~= input@.subrange(pos + 1, p as int));
        proof {
            assert forall|v: Bencode, end: int| spec_parses_to(input@, pos as int, v, end)
                implies (v is List && p + 1 <= end <= len && input@[end - 1] == 101
                && items@.len() <= v->List_0@.len() && spec_encode_items(
                v->List_0@.skip(items@.len() as int),
            ) == input@.subrange(p as int, end - 1)) by {
                lemma_encode_first_byte(v);
                assert(spec_encode(v)[0] == input@[pos as int]);
                let enc = spec_encode(v);
                let body = spec_encode_items(v->List_0@);
                assert(enc == seq![108u8] + body + seq![101u8]);
                assert(input@[end - 1] == enc[end - 1 - pos]);
                assert(v->List_0@.skip(0) =~= v->List_0@);
                assert(body =~= input@.subrange(pos + 1, end - 1)) by {
                    assert(forall|i: int|
                        0 <= i < body.len() ==> input@.subrange(pos as int, end)[i + 1]
                            == #[trigger] body[i]);
                }
            }
        }
        loop
            invariant
                pos < p <= len,
                len == input@.len(),
                input@[pos as int] == 108,
                spec_encode_items(items@) == input@.subrange(pos + 1, p as int),
                forall|v: Bencode, end: int|
                    #[trigger] spec_parses_to(input@, pos as int, v, end) ==> (v is List && p + 1
                        <= end <= len && input@[end - 1] == 101 && items@.len()
                        <= v->List_0@.len() && spec_encode_items(
                        v->List_0@.skip(items@.len() as int),
                    ) == input@.subrange(p as int, end - 1)),
            decreases len - p,
        {
            if p >= len {
                proof {
                    assert forall|v: Bencode, end: int| spec_parses_to(input@, pos as int, v, end)
                        implies false by {}
                }
                return Err(BencodeError::Malformed);
            }
            if input[p] == 101 {
                assert(spec_encode(Bencode::List(items)) =~= input@.subrange(pos as int, p + 1));
                proof {
                    assert forall|v: Bencode, end: int| spec_parses_to(input@, pos as int, v, end)
                        implies end == p + 1 by {
                        let tail = v->List_0@.skip(items@.len() as int);
                        if tail.len() > 0 {
                            lemma_encode_first_byte(tail[0]);
                            assert(spec_encode_items(tail)[0] == spec_encode(tail[0])[0]);
                            assert(input@.subrange(p as int, end - 1)[0] == input@[p as int]);
                        }
                        assert(spec_encode_items(tail).len() == 0);
                    }
                }
                return Ok((Bencode::List(items), p + 1));
            }
            let (item, p2) = match decode_bencoded_value(input, p) {
                Ok(t) => t,
                Err(e) => {
                    proof {
                        assert forall|v: Bencode, end: int| spec_parses_to(
                            input@,
                            pos as int,
                            v,
                            end,
                        ) implies false by {
                            let tail = v->List_0@.skip(items@.len() as int);
                            lemma_list_tail_head(input@, p as int, end - 1, tail);
                        }
                    }
                    return Err(e);
                },
            };
            proof {
                lemma_encode_items_push(items@, item);
            }
            let ghost items_before = items@;
            items.push(item);
            assert(spec_encode_items(items@) =~= input@.subrange(pos + 1, p2 as int));
            proof {
                assert forall|v: Bencode, end: int| spec_parses_to(input@, pos as int, v, end)
                    implies (p2 + 1 <= end && items@.len() <= v->List_0@.len()
                    && spec_encode_items(v->List_0@.skip(items@.len() as int))
                        == input@.subrange(p2 as int, end - 1)) by {
                    let tail = v->List_0@.skip(items_before.len() as int);
                    lemma_list_tail_head(input@, p as int, end - 1, tail);
                    let v1 = tail[0];
                    let end1 = p + spec_encode(v1).len();
                    assert(spec_parses_to(input@, p as int, v1, end1));
                    assert(p2 == end1);
                    let tail2 = v->List_0@.skip(items@.len() as int);
                    assert(items@.len() == items_before.len() + 1);
                    assert(v->List_0@.len() >= items_before.len() + 1);
                    assert(tail2.len() == tail.len() - 1);
                    assert forall|i: int| 0 <= i < tail2.len() implies #[trigger] tail2[i]
                        == tail[i + 1] by {
                        assert(tail2[i] == v->List_0@[items_before.len() + 1 + i]);
                        assert(tail[i + 1] == v->List_0@[items_before.len() + 1 + i]);
                    }
                    assert(tail2 =~= tail.subrange(1, tail.len() as int));
                    assert(spec_encode_items(tail) == spec_encode(v1) + spec_encode_items(tail2));
                    assert(spec_encode_items(tail2) =~= input@.subrange(p2 as int, end - 1)) by {
                        assert(forall|i: int|
                            0 <= i < spec_encode_items(tail2).len() ==> input@.subrange(
                                p as int,
                                end - 1,
                            )[i + spec_encode(v1).len()] == #[trigger] spec_encode_items(
                                tail2,
                            )[i]);
                    }
                }
            }
            p = p2;
        }
    } else if b == 100 {
        // 'd' (<key> <value>)* 'e'
        let mut entries: Vec<(Vec<u8>, Bencode)> = Vec::new();
        let mut p: usize = pos + 1;
        assert(spec_encode_entries(entries@) =~= input@.subrange(pos + 1, p as int));
        proof {
            assert forall|v: Bencode, end: int| spec_parses_to(input@, pos as int, v, end)
                implies (v is Dict && p + 1 <= end <= len && input@[end - 1] == 101
                && entries@.len() <= v->Dict_0@.len() && spec_encode_entries(
                v->Dict_0@.skip(entries@.len() as int),
            ) == input@.subrange(p as int, end - 1)) by {
                lemma_encode_first_byte(v);
                assert(spec_encode(v)[0] == input@[pos as int]);
                let enc = spec_encode(v);
                let body = spec_encode_entries(v->Dict_0@);
                assert(enc == seq![100u8] + body + seq![101u8]);
                assert(input@[end - 1] == enc[end - 1 - pos]);
                assert(v->Dict_0@.skip(0) =~= v->Dict_0@);
                assert(body =~= input@.subrange(pos + 1, end - 1)) by {
                    assert(forall|i: int|
                        0 <= i < body.len() ==> input@.subrange(pos as int, end)[i + 1]
                            == #[trigger] body[i]);
                }
            }
        }
        loop
            invariant
                pos < p <= len,
                len == input@.len(),
                input@[pos as int] == 100,
                spec_encode_entries(entries@) == input@.subrange(pos + 1, p as int),
                forall|v: Bencode, end: int|
                    #[trigger] spec_parses_to(input@, pos as int, v, end) ==> (v is Dict && p + 1
                        <= end <= len && input@[end - 1] == 101 && entries@.len()
                        <= v->Dict_0@.len() && spec_encode_entries(
                        v->Dict_0@.skip(entries@.len() as int),
                    ) == input@.subrange(p as int, end - 1)),
            decreases len - p,
        {
            if p >= len {
                proof {
                    assert forall|v: Bencode, end: int| spec_parses_to(input@, pos as int, v, end)
                        implies false by {}
                }
                return Err(BencodeError::Malformed);
            }
            if input[p] == 101 {
                assert(spec_encode(Bencode::Dict(entries)) =~= input@.subrange(pos as int, p + 1));
                proof {
                    assert forall|v: Bencode, end: int| spec_parses_to(input@, pos as int, v, end)
                        implies end == p + 1 by {
                        let tail = v->Dict_0@.skip(entries@.len() as int);
                        if tail.len() > 0 {
                            lemma_dec_digits_shape(tail[0].0@.len() as int);
                            assert(spec_encode_entries(tail)[0] == spec_entry_bytes_of(tail[0])[0]);
                            assert(spec_entry_bytes_of(tail[0])[0] == spec_dec_digits(
                                tail[0].0@.len() as int,
                            )[0]);
                            assert(input@.subrange(p as int, end - 1)[0] == input@[p as int]);
                        }
                        assert(spec_encode_entries(tail).len() == 0);
                    }
                }
                return Ok((Bencode::Dict(entries), p + 1));
            }
            let (kv, p2) = match decode_bencoded_value(input, p) {
                Ok(t) => t,
                Err(e) => {
                    proof {
                        assert forall|v: Bencode, end: int| spec_parses_to(
                            input@,
                            pos as int,
                            v,
                            end,
                        ) implies false by {
                            let tail = v->Dict_0@.skip(entries@.len() as int);
                            lemma_dict_tail_head(input@, p as int, end - 1, tail);
                        }
                    }
                    return Err(e);
                },
            };
            let key = match kv {
                Bencode::Bytes(k) => k,
                kv2 => {
                    proof {
                        assert forall|v: Bencode, end: int| spec_parses_to(
                            input@,
                            pos as int,
                            v,
                            end,
                        ) implies false by {
                            let tail = v->Dict_0@.skip(entries@.len() as int);
                            lemma_dict_tail_head(input@, p as int, end - 1, tail);
                            let kb = Bencode::Bytes(tail[0].0);
                            let endk = p + spec_encode(kb).len();
                            assert(spec_parses_to(input@, p as int, kb, endk));
                            assert(p2 == endk);
                            lemma_encode_first_byte(kb);
                            lemma_encode_first_byte(kv2);
                            assert(spec_encode(kv2) == input@.subrange(p as int, p2 as int));
                            assert(spec_encode(kv2)[0] == spec_encode(kb)[0]);
                        }
                    }
                    return Err(BencodeError::Malformed);
                },
            };
            let (vv, p3) = match decode_bencoded_value(input, p2) {
                Ok(t) => t,
                Err(e) => {
                    proof {
                        assert forall|v: Bencode, end: int| spec_parses_to(
                            input@,
                            pos as int,
                            v,
                            end,
                        ) implies false by {
                            let tail = v->Dict_0@.skip(entries@.len() as int);
                            lemma_dict_tail_head(input@, p as int, end - 1, tail);
                            let kb = Bencode::Bytes(tail[0].0);
                            let endk = p + spec_encode(kb).len();
                            assert(spec_parses_to(input@, p as int, kb, endk));
                            assert(p2 == endk);
                            lemma_dict_value_parses(input@, p as int, p2 as int, end - 1, tail);
                        }
                    }
                    return Err(e);
                },
            };
            proof {
                lemma_encode_entries_push(entries@, key, vv);
                assert(spec_entry_bytes(key@, vv) =~= input@.subrange(p as int, p3 as int));
            }
            let ghost entries_before = entries@;
            entries.push((key, vv));
            assert(spec_encode_entries(entries@) =~= input@.subrange(pos + 1, p3 as int));
            proof {
                assert forall|v: Bencode, end: int| spec_parses_to(input@, pos as int, v, end)
                    implies (p3 + 1 <= end && entries@.len() <= v->Dict_0@.len()
                    && spec_encode_entries(v->Dict_0@.skip(entries@.len() as int))
                        == input@.subrange(p3 as int, end - 1)) by {
                    let tail = v->Dict_0@.skip(entries_before.len() as int);
                    lemma_dict_tail_head(input@, p as int, end - 1, tail);
                    let kb = Bencode::Bytes(tail[0].0);
                    let endk = p + spec_encode(kb).len();
                    assert(spec_parses_to(input@, p as int, kb, endk));
                    assert(p2 == endk);
                    lemma_dict_value_parses(input@, p as int, p2 as int, end - 1, tail);
                    let endv = p2 + spec_encode(tail[0].1).len();
                    assert(p3 == endv);
                    let tail2 = v->Dict_0@.skip(entries@.len() as int);
                    assert(entries@.len() == entries_before.len() + 1);
                    assert(v->Dict_0@.len() >= entries_before.len() + 1);
                    assert(tail2.len() == tail.len() - 1);
                    assert forall|i: int| 0 <= i < tail2.len() implies #[trigger] tail2[i]
                        == tail[i + 1] by {
                        assert(tail2[i] == v->Dict_0@[entries_before.len() + 1 + i]);
                        assert(tail[i + 1] == v->Dict_0@[entries_before.len() + 1 + i]);
                    }
                    assert(tail2 =~= tail.subrange(1, tail.len() as int));
                    assert(spec_encode_entries(tail) == spec_entry_bytes_of(tail[0])
                        + spec_encode_entries(tail2));
                    assert(spec_entry_bytes_of(tail[0]).len() == endv - p);
                    assert(spec_encode_entries(tail2) =~= input@.subrange(p3 as int, end - 1)) by {
                        assert(forall|i: int|
                            0 <= i < spec_encode_entries(tail2).len() ==> input@.subrange(
                                p as int,
                                end - 1,
                            )[i + spec_entry_bytes_of(tail[0]).len()] == #[trigger] spec_encode_entries(
                                tail2,
                            )[i]);
                    }
                }
            }
            p = p3;
        }
    } else {
        proof {
            assert forall|v: Bencode, end: int| spec_parses_to(input@, pos as int, v, end)
                implies false by {
                lemma_encode_first_byte(v);
                assert(spec_encode(v)[0] == input@[pos as int]);
            }
        }
        return Err(BencodeError::Malformed);
    }
}

/// Inside a list body that still has bytes before its closing `e`, the
/// remaining items are nonempty and the first of them occupies the bytes at
/// `p`.
proof fn lemma_list_tail_head(input: Seq<u8>, p: int, close: int, tail: Seq<Bencode>)
    requires
        0 <= p <= close < input.len(),
        input[p] != 101,
        input[close] == 101,
        spec_encode_items(tail) == input.subrange(p, close),
    ensures
        tail.len() > 0,
        spec_encode(tail[0]).len() <= close - p,
        spec_parses_to(input, p, tail[0], p + spec_encode(tail[0]).len()),
{
    if tail.len() == 0 {
        assert(spec_encode_items(tail).len() == 0);
        assert(close == p);
        assert(false);
    }
    let v1 = tail[0];
    let enc1 = spec_encode(v1);
    assert(spec_encode_items(tail) == enc1 + spec_encode_items(tail.subrange(1, tail.len() as int)));
    assert(enc1 =~= input.subrange(p, p + enc1.len())) by {
        assert(forall|i: int|
            0 <= i < enc1.len() ==> input.subrange(p, close)[i] == #[trigger] enc1[i]);
    }
}

/// Inside a dictionary body that still has bytes before its closing `e`,
/// the remaining entries are nonempty and the first key occupies the bytes
/// at `p`.
proof fn lemma_dict_tail_head(input: Seq<u8>, p: int, close: int, tail: Seq<(Vec<u8>, Bencode)>)
    requires
        0 <= p <= close < input.len(),
        input[p] != 101,
        input[close] == 101,
        spec_encode_entries(tail) == input.subrange(p, close),
    ensures
        tail.len() > 0,
        spec_encode(Bencode::Bytes(tail[0].0)).len() + spec_encode(tail[0].1).len() <= close - p,
        spec_parses_to(input, p, Bencode::Bytes(tail[0].0), p + spec_encode(
            Bencode::Bytes(tail[0].0),
        ).len()),
{
    if tail.len() == 0 {
        assert(spec_encode_entries(tail).len() == 0);
        assert(close == p);
        assert(false);
    }
    let e0 = tail[0];
    let encb = spec_encode(Bencode::Bytes(e0.0));
    let encv = spec_encode(e0.1);
    assert(spec_entry_bytes_of(e0) =~= encb + encv);
    assert(spec_encode_entries(tail) == spec_entry_bytes_of(e0) + spec_encode_entries(
        tail.subrange(1, tail.len() as int),
    ));
    assert(encb =~= input.subrange(p, p + encb.len())) by {
        assert(forall|i: int|
            0 <= i < encb.len() ==> input.subrange(p, close)[i] == #[trigger] encb[i]);
    }
}

/// After a dictionary key, the entry's value occupies the following bytes.
proof fn lemma_dict_value_parses(
    input: Seq<u8>,
    p: int,
    pv: int,
    close: int,
    tail: Seq<(Vec<u8>, Bencode)>,
)
    requires
        0 <= p <= close < input.len(),
        tail.len() > 0,
        spec_encode_entries(tail) == input.subrange(p, close),
        pv == p + spec_encode(Bencode::Bytes(tail[0].0)).len(),
    ensures
        spec_parses_to(input, pv, tail[0].1, pv + spec_encode(tail[0].1).len()),
{
    let e0 = tail[0];
    let encb = spec_encode(Bencode::Bytes(e0.0));
    let encv = spec_encode(e0.1);
    assert(spec_entry_bytes_of(e0) =~= encb + encv);
    assert(spec_encode_entries(tail) == spec_entry_bytes_of(e0) + spec_encode_entries(
        tail.subrange(1, tail.len() as int),
    ));
    assert(encv =~= input.subrange(pv, pv + encv.len())) by {
        assert(forall|i: int|
            0 <= i < encv.len() ==> input.subrange(p, close)[i + encb.len()] == #[trigger] encv[i]);
    }
}

/// Append the wire bytes of `v` to `out`.
pub fn encode_bencoded_value(v: &Bencode, out: &mut Vec<u8>)
    ensures
        final(out)@ == old(out)@ + spec_encode(*v),
    decreases *v,
{
    match v {
        Bencode::Int(n) => {
            out.push(105);
            if *n < 0 {
                out.push(45);
            }
            let mag = magnitude_u64(*n);
            push_u64_decimal(mag, out);
            out.push(101);
            assert(final(out)@ =~= old(out)@ + spec_encode(*v));
        },
        Bencode::Bytes(b) => {
            let bl = b.len();
            push_u64_decimal(bl as u64, out);
            out.push(58);
            append_bytes(out, b);
            assert(final(out)@ =~= old(out)@ + spec_encode(*v));
        },
        Bencode::List(items) => {
            out.push(108);
            let mut i: usize = 0;
            assert(out@ =~= old(out)@ + seq![108u8] + spec_encode_items(items@.subrange(0, 0)));
            #[verifier::loop_isolation(false)]
            while i < items.len()
                invariant
                    i <= items@.len(),
                    out@ == old(out)@ + seq![108u8] + spec_encode_items(
                        items@.subrange(0, i as int),
                    ),
                decreases items@.len() - i,
            {
                proof {
                    assert(decreases_to!(*items => items@[i as int]));
                }
                encode_bencoded_value(&items[i], out);
                proof {
                    lemma_encode_items_push(items@.subrange(0, i as int), items@[i as int]);
                    assert(items@.subrange(0, i as int).push(items@[i as int]) =~= items@.subrange(
                        0,
                        i + 1,
                    ));
                }
                i = i + 1;
            }
            out.push(101);
            assert(items@.subrange(0, items@.len() as int) =~= items@);
            assert(final(out)@ =~= old(out)@ + spec_encode(*v));
        },
        Bencode::Dict(entries) => {
            out.push(100);
            let mut i: usize = 0;
            assert(out@ =~= old(out)@ + seq![100u8] + spec_encode_entries(
                entries@.subrange(0, 0),
            ));
            #[verifier::loop_isolation(false)]
            while i < entries.len()
                invariant
                    i <= entries@.len(),
                    out@ == old(out)@ + seq![100u8] + spec_encode_entries(
                        entries@.subrange(0, i as int),
                    ),
                decreases entries@.len() - i,
            {
                let key_len = entries[i].0.len();
                push_u64_decimal(key_len as u64, out);
                out.push(58);
                append_bytes(out, &entries[i].0);
                proof {
                    assert(decreases_to!(*entries => entries@[i as int]));
                    assert(decreases_to!(entries@[i as int] => entries@[i as int].1));
                }
                encode_bencoded_value(&entries[i].1, out);
                proof {
                    lemma_encode_entries_push(
                        entries@.subrange(0, i as int),
                        entries@[i as int].0,
                        entries@[i as int].1,
                    );
                    assert(entries@.subrange(0, i as int).push(entries@[i as int])
                        =~= entries@.subrange(0, i + 1));
                }
                i = i + 1;
            }
            out.push(101);
            assert(entries@.subrange(0, entries@.len() as int) =~= entries@);
            assert(final(out)@ =~= old(out)@ + spec_encode(*v));
        },
    }
}

/// The first value a dictionary holds under `key`.
pub open spec fn spec_dict_lookup(entries: Seq<(Vec<u8>, Bencode)>, key: Seq<u8>) -> Option<
    Bencode,
>
    decreases entries.len(),
{
    if entries.len() == 0 {
        None
    } else if entries[0].0@ == key {
        Some(entries[0].1)
    } else {
        spec_dict_lookup(entries.subrange(1, entries.len() as int), key)
    }
}

/// Find the first entry under `key`.
pub fn dict_get<'a>(entries: &'a Vec<(Vec<u8>, Bencode)>, key: &Vec<u8>) -> (r: Option<&'a Bencode>)
    ensures
        match spec_dict_lookup(entries@, key@) {
            Option::None => r is None,
            Option::Some(v) => r matches Some(rv) && *rv == v,
        },
{
    let mut i: usize = 0;
    proof {
        assert(entries@.subrange(0, entries@.len() as int) =~= entries@);
    }
    while i < entries.len()
        invariant
            i <= entries@.len(),
            spec_dict_lookup(entries@, key@) == spec_dict_lookup(
                entries@.subrange(i as int, entries@.len() as int),
                key@,
            ),
        decreases entries@.len() - i,
    {
        proof {
            assert(entries@.subrange(i as int, entries@.len() as int)[0] == entries@[i as int]);
        }
        if bytes_eq(&entries[i].0, key) {
            return Some(&entries[i].1);
        }
        proof {
            assert(entries@.subrange(i as int, entries@.len() as int).subrange(
                1,
                entries@.len() - i,
            ) =~= entries@.subrange(i + 1, entries@.len() as int));
        }
        i = i + 1;
    }
    proof {
        assert(entries@.subrange(entries@.len() as int, entries@.len() as int)
            =~= Seq::<(Vec<u8>, Bencode)>::empty());
    }
    None
}

/// In the middle of a value stream with bytes left, the remaining values
/// are nonempty and the first of them occupies the bytes at `p`.
proof fn lemma_stream_tail_head(input: Seq<u8>, p: int, close: int, tail: Seq<Bencode>)
    requires
        0 <= p < close <= input.len(),
        spec_encode_items(tail) == input.subrange(p, close),
    ensures
        tail.len() > 0,
        spec_encode(tail[0]).len() <= close - p,
        spec_parses_to(input, p, tail[0], p + spec_encode(tail[0]).len()),
{
    if tail.len() == 0 {
        assert(spec_encode_items(tail).len() == 0);
        assert(false);
    }
    let v1 = tail[0];
    let enc1 = spec_encode(v1);
    assert(spec_encode_items(tail) == enc1 + spec_encode_items(tail.subrange(1, tail.len() as int)));
    assert(enc1 =~= input.subrange(p, p + enc1.len())) by {
        assert(forall|i: int|
            0 <= i < enc1.len() ==> input.subrange(p, close)[i] == #[trigger] enc1[i]);
    }
}

/// Decode a whole buffer as a run of consecutive bencoded values. The
/// contract is exact in both directions: on success the buffer is the
/// concatenation of the returned values' encodings with nothing left over,
/// and whenever the buffer is such a concatenation, decoding succeeds.
pub fn decode_torrent(input: &Vec<u8>) -> (r: Result<Vec<Bencode>, BencodeError>)
    ensures
        r matches Ok(vs) ==> spec_encode_items(vs@) == input@,
        forall|vs: Seq<Bencode>| #[trigger] spec_encode_items(vs) == input@ ==> r is Ok,
{
    let mut values: Vec<Bencode> = Vec::new();
    let mut p: usize = 0;
    assert(spec_encode_items(values@) =~= input@.subrange(0, 0));
    proof {
        assert forall|vs: Seq<Bencode>| #[trigger] spec_encode_items(vs) == input@ implies (
        values@.len() <= vs.len() && spec_encode_items(vs.skip(values@.len() as int))
            == input@.subrange(p as int, input@.len() as int)) by {
            assert(vs.skip(0) =~= vs);
            assert(input@.subrange(0, input@.len() as int) =~= input@);
        }
    }
    while p < input.len()
        invariant
            p <= input@.len(),
            spec_encode_items(values@) == input@.subrange(0, p as int),
            forall|vs: Seq<Bencode>|
                #[trigger] spec_encode_items(vs) == input@ ==> (values@.len() <= vs.len()
                    && spec_encode_items(vs.skip(values@.len() as int)) == input@.subrange(
                    p as int,
                    input@.len() as int,
                )),
        decreases input@.len() - p,
    {
        let (v, p2) = match decode_bencoded_value(input, p) {
            Ok(t) => t,
            Err(e) => {
                proof {
                    assert forall|vs: Seq<Bencode>| #[trigger] spec_encode_items(vs) == input@
                        implies false by {
                        let tail = vs.skip(values@.len() as int);
                        lemma_stream_tail_head(input@, p as int, input@.len() as int, tail);
                    }
                }
                return Err(e);
            },
        };
        proof {
            lemma_encode_items_push(values@, v);
        }
        let ghost values_before = values@;
        values.push(v);
        assert(spec_encode_items(values@) =~= input@.subrange(0, p2 as int));
        proof {
            assert forall|vs: Seq<Bencode>| #[trigger] spec_encode_items(vs) == input@ implies (
            values@.len() <= vs.len() && spec_encode_items(vs.skip(values@.len() as int))
                == input@.subrange(p2 as int, input@.len() as int)) by {
                let tail = vs.skip(values_before.len() as int);
                lemma_stream_tail_head(input@, p as int, input@.len() as int, tail);
                let v1 = tail[0];
                let end1 = p + spec_encode(v1).len();
                assert(spec_parses_to(input@, p as int, v1, end1));
                assert(p2 == end1);
                let tail2 = vs.skip(values@.len() as int);
                assert(values@.len() == values_before.len() + 1);
                assert(tail2.len() == tail.len() - 1);
                assert forall|i: int| 0 <= i < tail2.len() implies #[trigger] tail2[i]
                    == tail[i + 1] by {
                    assert(tail2[i] == vs[values_before.len() + 1 + i]);
                    assert(tail[i + 1] == vs[values_before.len() + 1 + i]);
                }
                assert(tail2 =~= tail.subrange(1, tail.len() as int));
                assert(spec_encode_items(tail) == spec_encode(v1) + spec_encode_items(tail2));
                assert(spec_encode_items(tail2) =~= input@.subrange(
                    p2 as int,
                    input@.len() as int,
                )) by {
                    assert(forall|i: int|
                        0 <= i < spec_encode_items(tail2).len() ==> input@.subrange(
                            p as int,
                            input@.len() as int,
                        )[i + spec_encode(v1).len()] == #[trigger] spec_encode_items(tail2)[i]);
                }
            }
        }
        p = p2;
    }
    assert(input@.subrange(0, input@.len() as int) =~= input@);
    Ok(values)
}

} // verus!
