//! Decoding of a field's text symbol stream.
//!
//! The stream is a flat run of bytes.  A `0x00` byte terminates the current
//! value and emits it; `0x04`, carriage return and line feed are consumed
//! without effect; `0x05` and `0x06` announce an embedded auxiliary field of
//! four or eight bytes that is skipped together with its tag; every other
//! byte is one character of the current value.  Content accumulated after
//! the last terminator is dropped, never emitted.

use vstd::prelude::*;

verus! {

/// A byte that contributes one character to the current value: anything but
/// a terminator, a marker, an escape tag, carriage return or line feed.
pub open spec fn literal_byte(b: u8) -> bool {
    b != 0u8 && b != 4u8 && b != 5u8 && b != 6u8 && b != 10u8 && b != 13u8
}

/// The decode of the text stream `s`, with `cur` the value accumulated so
/// far and `out` the values already emitted.  One value is emitted per
/// `0x00` byte reached; an unterminated trailing value is dropped.
pub open spec fn string_symbols_spec(s: Seq<u8>, cur: Seq<char>, out: Seq<Seq<char>>) -> Seq<
    Seq<char>,
>
    decreases s.len(),
{
    if s.len() == 0 {
        out
    } else if s[0] == 0u8 {
        string_symbols_spec(s.drop_first(), Seq::empty(), out.push(cur))
    } else if s[0] == 4u8 || s[0] == 13u8 || s[0] == 10u8 {
        string_symbols_spec(s.drop_first(), cur, out)
    } else if s[0] == 5u8 {
        if s.len() <= 5 {
            out
        } else {
            string_symbols_spec(s.skip(5), cur, out)
        }
    } else if s[0] == 6u8 {
        if s.len() <= 9 {
            out
        } else {
            string_symbols_spec(s.skip(9), cur, out)
        }
    } else {
        string_symbols_spec(s.drop_first(), cur.push(s[0] as char), out)
    }
}

/// The decode of a whole text symbol stream.
pub open spec fn decoded_strings(s: Seq<u8>) -> Seq<Seq<char>> {
    string_symbols_spec(s, Seq::empty(), Seq::empty())
}

/// Relies on `String::push`: appends the given character to the end of the
/// string.
#[verifier::external_body]
fn push_char(s: &mut String, c: char)
    ensures
        final(s)@ == old(s)@.push(c),
{
    s.push(c);
}

/// Decodes a field's text symbol stream: one string per `0x00` terminator,
/// in stream order.  Total over arbitrary input: unknown bytes are taken as
/// literal characters, and an unterminated trailing value is dropped.
pub fn process_string_symbols(buf: &[u8]) -> (strings: Vec<String>)
    ensures
        strings.deep_view() == decoded_strings(buf@),
{
    let mut current_string = String::new();
    let mut strings: Vec<String> = Vec::new();
    let mut i: usize = 0;
    proof {
        assert(buf@.skip(0) =~= buf@);
        assert(strings.deep_view() =~= Seq::<Seq<char>>::empty());
    }
    while i < buf.len()
        invariant
            i <= buf@.len(),
            decoded_strings(buf@) == string_symbols_spec(
                buf@.skip(i as int),
                current_string@,
                strings.deep_view(),
            ),
        decreases buf@.len() - i,
    {
        let ghost s_i = buf@.skip(i as int);
        let byte = *vstd::slice::slice_index_get(buf, i);
        proof {
            assert(s_i.len() == buf@.len() - i);
            assert(s_i[0] == buf@[i as int]);
        }
        if byte == 0 {
            let ghost prev_dv = strings.deep_view();
            let ghost cur = current_string@;
            strings.push(current_string);
            current_string = String::new();
            proof {
                assert(strings.deep_view() =~= prev_dv.push(cur));
                assert(s_i.drop_first() =~= buf@.skip(i as int + 1));
            }
            i = i + 1;
        } else if byte == 4 || byte == 13 || byte == 10 {
            proof {
                assert(s_i.drop_first() =~= buf@.skip(i as int + 1));
            }
            i = i + 1;
        } else if byte == 5 {
            if buf.len() - i <= 5 {
                i = buf.len();
                proof {
                    assert(buf@.skip(i as int).len() == 0);
                }
            } else {
                proof {
                    assert(s_i.skip(5) =~= buf@.skip(i as int + 5));
                }
                i = i + 5;
            }
        } else if byte == 6 {
            if buf.len() - i <= 9 {
                i = buf.len();
                proof {
                    assert(buf@.skip(i as int).len() == 0);
                }
            } else {
                proof {
                    assert(s_i.skip(9) =~= buf@.skip(i as int + 9));
                }
                i = i + 9;
            }
        } else {
            push_char(&mut current_string, byte as char);
            proof {
                assert(s_i.drop_first() =~= buf@.skip(i as int + 1));
            }
            i = i + 1;
        }
    }
    proof {
        assert(buf@.skip(i as int).len() == 0);
    }
    strings
}

/// The characters of a run of literal bytes, one character per byte.
pub open spec fn literal_chars(s: Seq<u8>) -> Seq<char>
    decreases s.len(),
{
    if s.len() == 0 {
        Seq::empty()
    } else {
        seq![s[0] as char] + literal_chars(s.drop_first())
    }
}

/// Law (one string per terminator): a run of literal bytes closed by a
/// `0x00` terminator emits exactly one string — the value accumulated so
/// far followed by one character per literal byte — and decoding continues
/// on the rest of the stream with an empty accumulator.
pub proof fn lemma_terminated_run_emits_one_string(
    content: Seq<u8>,
    rest: Seq<u8>,
    cur: Seq<char>,
    out: Seq<Seq<char>>,
)
    requires
        forall|j: int| 0 <= j < content.len() ==> literal_byte(content[j]),
    ensures
        string_symbols_spec(content + seq![0u8] + rest, cur, out) == string_symbols_spec(
            rest,
            Seq::empty(),
            out.push(cur + literal_chars(content)),
        ),
    decreases content.len(),
{
    let t = content + seq![0u8] + rest;
    if content.len() == 0 {
        assert(t[0] == 0u8);
        assert(t.drop_first() =~= rest);
        assert(cur + literal_chars(content) =~= cur);
    } else {
        assert(t[0] == content[0]);
        assert(literal_byte(content[0]));
        assert(t.drop_first() =~= content.drop_first() + seq![0u8] + rest);
        assert(forall|j: int|
            0 <= j < content.drop_first().len() ==> literal_byte(content.drop_first()[j]));
        lemma_terminated_run_emits_one_string(
            content.drop_first(),
            rest,
            cur.push(content[0] as char),
            out,
        );
        assert(cur.push(content[0] as char) + literal_chars(content.drop_first()) =~= cur
            + literal_chars(content));
    }
}

/// Law (markers and line breaks excluded): a `0x04` marker, a carriage
/// return or a line feed contributes nothing to any value and emits
/// nothing; decoding continues right after it with the accumulator intact.
pub proof fn lemma_marker_byte_ignored(b: u8, rest: Seq<u8>, cur: Seq<char>, out: Seq<Seq<char>>)
    requires
        b == 4u8 || b == 13u8 || b == 10u8,
    ensures
        string_symbols_spec(seq![b] + rest, cur, out) == string_symbols_spec(rest, cur, out),
{
    let t = seq![b] + rest;
    assert(t[0] == b);
    assert(t.drop_first() =~= rest);
}

/// Law (four-byte escape region skipped): a `0x05` tag and the four bytes
/// after it leave no trace in the output; decoding continues right after
/// them with the accumulator intact.
pub proof fn lemma_escape_region_skipped_4(
    aux: Seq<u8>,
    rest: Seq<u8>,
    cur: Seq<char>,
    out: Seq<Seq<char>>,
)
    requires
        aux.len() == 4,
    ensures
        string_symbols_spec(seq![5u8] + aux + rest, cur, out) == string_symbols_spec(
            rest,
            cur,
            out,
        ),
{
    let t = seq![5u8] + aux + rest;
    assert(t[0] == 5u8);
    assert(t.len() == 5 + rest.len());
    if rest.len() == 0 {
    } else {
        assert(t.skip(5) =~= rest);
    }
}

/// Law (eight-byte escape region skipped): a `0x06` tag and the eight bytes
/// after it leave no trace in the output; decoding continues right after
/// them with the accumulator intact.
pub proof fn lemma_escape_region_skipped_8(
    aux: Seq<u8>,
    rest: Seq<u8>,
    cur: Seq<char>,
    out: Seq<Seq<char>>,
)
    requires
        aux.len() == 8,
    ensures
        string_symbols_spec(seq![6u8] + aux + rest, cur, out) == string_symbols_spec(
            rest,
            cur,
            out,
        ),
{
    let t = seq![6u8] + aux + rest;
    assert(t[0] == 6u8);
    assert(t.len() == 9 + rest.len());
    if rest.len() == 0 {
    } else {
        assert(t.skip(9) =~= rest);
    }
}

/// Law (unterminated trailing content is dropped): a stream with no `0x00`
/// byte emits nothing, whatever was already accumulated.
pub proof fn lemma_unterminated_tail_dropped(s: Seq<u8>, cur: Seq<char>, out: Seq<Seq<char>>)
    requires
        forall|j: int| 0 <= j < s.len() ==> s[j] != 0u8,
    ensures
        string_symbols_spec(s, cur, out) == out,
    decreases s.len(),
{
    if s.len() == 0 {
    } else if s[0] == 4u8 || s[0] == 13u8 || s[0] == 10u8 {
        assert(forall|j: int| 0 <= j < s.drop_first().len() ==> s.drop_first()[j] != 0u8);
        lemma_unterminated_tail_dropped(s.drop_first(), cur, out);
    } else if s[0] == 5u8 {
        if s.len() > 5 {
            assert(forall|j: int| 0 <= j < s.skip(5).len() ==> s.skip(5)[j] != 0u8);
            lemma_unterminated_tail_dropped(s.skip(5), cur, out);
        }
    } else if s[0] == 6u8 {
        if s.len() > 9 {
            assert(forall|j: int| 0 <= j < s.skip(9).len() ==> s.skip(9)[j] != 0u8);
            lemma_unterminated_tail_dropped(s.skip(9), cur, out);
        }
    } else {
        assert(s[0] != 0u8);
        assert(forall|j: int| 0 <= j < s.drop_first().len() ==> s.drop_first()[j] != 0u8);
        lemma_unterminated_tail_dropped(s.drop_first(), cur.push(s[0] as char), out);
    }
}

} // verus!
