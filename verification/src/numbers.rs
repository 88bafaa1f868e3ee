//! Decoding of a field's numeric symbol stream.
//!
//! The stream is a sequence of records.  A record starts with a tag byte:
//! `0x01` is followed by a big-endian signed 32-bit integer, `0x02` by a
//! big-endian signed 64-bit integer.  Any other tag, or a record with fewer
//! bytes than its tag requires, aborts the decode.

use vstd::prelude::*;
use crate::errors::QvdError;

verus! {

/// The big-endian unsigned value of four bytes.
pub open spec fn be_u32_of(s: Seq<u8>) -> int
    recommends
        s.len() == 4,
{
    0x1000000 * (s[0] as int) + 0x10000 * (s[1] as int) + 0x100 * (s[2] as int) + (s[3] as int)
}

/// The big-endian two's-complement signed value of four bytes.
pub open spec fn be_i32_of(s: Seq<u8>) -> int
    recommends
        s.len() == 4,
{
    if be_u32_of(s) >= 0x80000000 {
        be_u32_of(s) - 0x100000000
    } else {
        be_u32_of(s)
    }
}

/// The big-endian unsigned value of eight bytes.
pub open spec fn be_u64_of(s: Seq<u8>) -> int
    recommends
        s.len() == 8,
{
    0x100000000000000 * (s[0] as int) + 0x1000000000000 * (s[1] as int)
        + 0x10000000000 * (s[2] as int) + 0x100000000 * (s[3] as int)
        + 0x1000000 * (s[4] as int) + 0x10000 * (s[5] as int) + 0x100 * (s[6] as int)
        + (s[7] as int)
}

/// The big-endian two's-complement signed value of eight bytes.
pub open spec fn be_i64_of(s: Seq<u8>) -> int
    recommends
        s.len() == 8,
{
    if be_u64_of(s) >= 0x8000000000000000 {
        be_u64_of(s) - 0x10000000000000000
    } else {
        be_u64_of(s)
    }
}

/// The decode of the numeric stream `s` from position `i` on: one signed
/// 64-bit integer per record, in stream order, or the error that aborts the
/// decode at the first malformed record.
pub open spec fn number_symbols_spec(s: Seq<u8>, i: int) -> Result<Seq<i64>, QvdError>
    recommends
        0 <= i <= s.len(),
    decreases s.len() - i,
{
    if i < 0 || i >= s.len() {
        Ok(Seq::empty())
    } else if s[i] == 1u8 {
        if i + 5 > s.len() {
            Err(QvdError::FormatError { offset: i as usize })
        } else {
            match number_symbols_spec(s, i + 5) {
                Ok(rest) => Ok(seq![be_i32_of(s.subrange(i + 1, i + 5)) as i64] + rest),
                Err(e) => Err(e),
            }
        }
    } else if s[i] == 2u8 {
        if i + 9 > s.len() {
            Err(QvdError::FormatError { offset: i as usize })
        } else {
            match number_symbols_spec(s, i + 9) {
                Ok(rest) => Ok(seq![be_i64_of(s.subrange(i + 1, i + 9)) as i64] + rest),
                Err(e) => Err(e),
            }
        }
    } else {
        Err(QvdError::UnrecognizedTagError { offset: i as usize, tag: s[i] })
    }
}

/// The decode of a whole numeric symbol stream.
pub open spec fn decoded_numbers(s: Seq<u8>) -> Result<Seq<i64>, QvdError> {
    number_symbols_spec(s, 0)
}

/// The view of an executable number-decode result.
pub open spec fn numbers_result_view(r: Result<Vec<i64>, QvdError>) -> Result<Seq<i64>, QvdError> {
    match r {
        Ok(v) => Ok(v@),
        Err(e) => Err(e),
    }
}

/// Relies on byteorder's `BigEndian::read_i32`: the first four bytes of the
/// slice, read as a big-endian two's-complement 32-bit integer.
#[verifier::external_body]
fn read_i32_be(b: &[u8]) -> (r: i32)
    requires
        b@.len() >= 4,
    ensures
        r as int == be_i32_of(b@.subrange(0, 4)),
{
    <byteorder::BigEndian as byteorder::ByteOrder>::read_i32(b)
}

/// Relies on byteorder's `BigEndian::read_i64`: the first eight bytes of the
/// slice, read as a big-endian two's-complement 64-bit integer.
#[verifier::external_body]
fn read_i64_be(b: &[u8]) -> (r: i64)
    requires
        b@.len() >= 8,
    ensures
        r as int == be_i64_of(b@.subrange(0, 8)),
{
    <byteorder::BigEndian as byteorder::ByteOrder>::read_i64(b)
}

/// Decodes a field's numeric symbol stream: one integer per record, in
/// stream order.  Fails on the first record whose tag is not `0x01`/`0x02`
/// or whose payload is truncated, with the offset of that record's tag.
pub fn process_number_symbols(buf: &[u8]) -> (r: Result<Vec<i64>, QvdError>)
    ensures
        numbers_result_view(r) == decoded_numbers(buf@),
{
    let mut numbers: Vec<i64> = Vec::new();
    let mut i: usize = 0;
    while i < buf.len()
        invariant
            i <= buf@.len(),
            decoded_numbers(buf@) == (match number_symbols_spec(buf@, i as int) {
                Ok(rest) => Ok::<Seq<i64>, QvdError>(numbers@ + rest),
                Err(e) => Err::<Seq<i64>, QvdError>(e),
            }),
        decreases buf@.len() - i,
    {
        let byte = *vstd::slice::slice_index_get(buf, i);
        if byte == 1 {
            if buf.len() - i < 5 {
                proof {
                    assert(number_symbols_spec(buf@, i as int) == Err::<Seq<i64>, QvdError>(
                        QvdError::FormatError { offset: i },
                    ));
                }
                return Err(QvdError::FormatError { offset: i });
            }
            let four = vstd::slice::slice_subrange(buf, i + 1, i + 5);
            let value = read_i32_be(four);
            let ghost prev = numbers@;
            numbers.push(value as i64);
            proof {
                let s = buf@;
                let gi = i as int;
                let v: i64 = (value as i64);
                assert(four@.subrange(0, 4) =~= s.subrange(gi + 1, gi + 5));
                assert(-0x80000000 <= be_i32_of(s.subrange(gi + 1, gi + 5)) < 0x80000000);
                assert(v == (be_i32_of(s.subrange(gi + 1, gi + 5)) as i64));
                assert(numbers@ == prev.push(v));
                match number_symbols_spec(s, gi + 5) {
                    Ok(rest) => {
                        assert(number_symbols_spec(s, gi) == Ok::<Seq<i64>, QvdError>(
                            seq![be_i32_of(s.subrange(gi + 1, gi + 5)) as i64] + rest,
                        ));
                        assert(seq![be_i32_of(s.subrange(gi + 1, gi + 5)) as i64] =~= seq![v]);
                        assert(prev + (seq![v] + rest) =~= prev.push(v) + rest);
                    },
                    Err(e) => {
                        assert(number_symbols_spec(s, gi) == Err::<Seq<i64>, QvdError>(e));
                    },
                }
            }
            i = i + 5;
        } else if byte == 2 {
            if buf.len() - i < 9 {
                proof {
                    assert(number_symbols_spec(buf@, i as int) == Err::<Seq<i64>, QvdError>(
                        QvdError::FormatError { offset: i },
                    ));
                }
                return Err(QvdError::FormatError { offset: i });
            }
            let eight = vstd::slice::slice_subrange(buf, i + 1, i + 9);
            let value = read_i64_be(eight);
            let ghost prev = numbers@;
            numbers.push(value);
            proof {
                let s = buf@;
                let gi = i as int;
                assert(eight@.subrange(0, 8) =~= s.subrange(gi + 1, gi + 9));
                assert(-0x8000000000000000 <= be_i64_of(s.subrange(gi + 1, gi + 9))
                    < 0x8000000000000000);
                assert(value == (be_i64_of(s.subrange(gi + 1, gi + 9)) as i64));
                assert(numbers@ == prev.push(value));
                match number_symbols_spec(s, gi + 9) {
                    Ok(rest) => {
                        assert(number_symbols_spec(s, gi) == Ok::<Seq<i64>, QvdError>(
                            seq![be_i64_of(s.subrange(gi + 1, gi + 9)) as i64] + rest,
                        ));
                        assert(seq![be_i64_of(s.subrange(gi + 1, gi + 9)) as i64] =~= seq![value]);
                        assert(prev + (seq![value] + rest) =~= prev.push(value) + rest);
                    },
                    Err(e) => {
                        assert(number_symbols_spec(s, gi) == Err::<Seq<i64>, QvdError>(e));
                    },
                }
            }
            i = i + 9;
        } else {
            return Err(QvdError::UnrecognizedTagError { offset: i, tag: byte });
        }
    }
    proof {
        assert(numbers@ + Seq::<i64>::empty() =~= numbers@);
    }
    Ok(numbers)
}

/// A well-formed numeric record: a `0x01` tag followed by exactly four
/// payload bytes, or a `0x02` tag followed by exactly eight.
pub open spec fn wf_number_record(rec: Seq<u8>) -> bool {
    (rec.len() == 5 && rec[0] == 1u8) || (rec.len() == 9 && rec[0] == 2u8)
}

/// The integer encoded by one well-formed numeric record.
pub open spec fn number_record_value(rec: Seq<u8>) -> i64
    recommends
        wf_number_record(rec),
{
    if rec[0] == 1u8 {
        (be_i32_of(rec.subrange(1, 5)) as i64)
    } else {
        (be_i64_of(rec.subrange(1, 9)) as i64)
    }
}

proof fn lemma_number_append_at(s: Seq<u8>, rec: Seq<u8>, i: int)
    requires
        0 <= i <= s.len(),
        number_symbols_spec(s, i) is Ok,
        wf_number_record(rec),
    ensures
        number_symbols_spec(s + rec, i) == Ok::<Seq<i64>, QvdError>(
            number_symbols_spec(s, i)->Ok_0.push(number_record_value(rec)),
        ),
    decreases s.len() - i,
{
    let t = s + rec;
    let v = number_record_value(rec);
    if i == s.len() {
        assert(t[i] == rec[0]);
        assert(number_symbols_spec(s, i) == Ok::<Seq<i64>, QvdError>(Seq::empty()));
        if rec[0] == 1u8 {
            assert(t.subrange(i + 1, i + 5) =~= rec.subrange(1, 5));
            assert(number_symbols_spec(t, i + 5) == Ok::<Seq<i64>, QvdError>(Seq::empty()));
            assert(seq![v] + Seq::<i64>::empty() =~= Seq::<i64>::empty().push(v));
        } else {
            assert(t.subrange(i + 1, i + 9) =~= rec.subrange(1, 9));
            assert(number_symbols_spec(t, i + 9) == Ok::<Seq<i64>, QvdError>(Seq::empty()));
            assert(seq![v] + Seq::<i64>::empty() =~= Seq::<i64>::empty().push(v));
        }
    } else {
        assert(t[i] == s[i]);
        if s[i] == 1u8 {
            assert(i + 5 <= s.len());
            assert(number_symbols_spec(s, i + 5) is Ok);
            lemma_number_append_at(s, rec, i + 5);
            let rest = number_symbols_spec(s, i + 5)->Ok_0;
            assert(t.subrange(i + 1, i + 5) =~= s.subrange(i + 1, i + 5));
            let h = be_i32_of(s.subrange(i + 1, i + 5)) as i64;
            assert(seq![h] + rest.push(v) =~= (seq![h] + rest).push(v));
        } else {
            assert(s[i] == 2u8);
            assert(i + 9 <= s.len());
            assert(number_symbols_spec(s, i + 9) is Ok);
            lemma_number_append_at(s, rec, i + 9);
            let rest = number_symbols_spec(s, i + 9)->Ok_0;
            assert(t.subrange(i + 1, i + 9) =~= s.subrange(i + 1, i + 9));
            let h = be_i64_of(s.subrange(i + 1, i + 9)) as i64;
            assert(seq![h] + rest.push(v) =~= (seq![h] + rest).push(v));
        }
    }
}

/// Law: appending one well-formed record to a numeric stream whose decode
/// succeeds appends exactly that record's integer to the decode, after all
/// earlier values.  Repeated from the empty stream, this says the decoder
/// returns one integer per record, in stream order, with the signed
/// big-endian value of each record.
pub proof fn lemma_number_record_appended(s: Seq<u8>, rec: Seq<u8>)
    requires
        decoded_numbers(s) is Ok,
        wf_number_record(rec),
    ensures
        decoded_numbers(s + rec) == Ok::<Seq<i64>, QvdError>(
            decoded_numbers(s)->Ok_0.push(number_record_value(rec)),
        ),
{
    lemma_number_append_at(s, rec, 0);
}

/// Law: the empty numeric stream decodes to no values.
pub proof fn lemma_number_empty_stream()
    ensures
        decoded_numbers(Seq::empty()) == Ok::<Seq<i64>, QvdError>(Seq::empty()),
{
}

} // verus!
