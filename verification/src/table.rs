//! Dispatch and assembly: decoding every field's slice and collecting the
//! columns into a table keyed by field name.

use vstd::prelude::*;
use crate::errors::FieldError;
use crate::errors::QvdError;
use crate::field::FieldHeaderView;
use crate::field::QvdFieldHeader;
use crate::numbers::decoded_numbers;
use crate::numbers::process_number_symbols;
use crate::strings::decoded_strings;
use crate::strings::process_string_symbols;

verus! {

/// One field's decoded symbol column: either text values or integers.
/// Exactly one variant is populated per field, chosen by the field's
/// leading tag byte alone.
#[derive(Clone, Debug, PartialEq, Eq)]
pub enum Symbol {
    /// Decoded text values, in stream order.
    Strings(Vec<String>),
    /// Decoded signed 64-bit integers, in stream order.
    Numbers(Vec<i64>),
}

/// The mathematical image of a symbol column.
pub enum SymbolView {
    /// Text values, in stream order.
    Strings(Seq<Seq<char>>),
    /// Signed 64-bit integers, in stream order.
    Numbers(Seq<i64>),
}

impl View for Symbol {
    type V = SymbolView;

    open spec fn view(&self) -> SymbolView {
        match self {
            Symbol::Strings(v) => SymbolView::Strings(v.deep_view()),
            Symbol::Numbers(v) => SymbolView::Numbers(v@),
        }
    }
}

/// The decode of the field slice `buf[offset .. offset + length]`: the
/// range must denote a non-empty range inside the payload, and the slice's
/// first byte picks the decoder — `0x04`/`0x05`/`0x06` text, `0x01`/`0x02`
/// numbers (empty without reading when the field is at most eight bytes,
/// a reserved placeholder-header case), anything else an error.
pub open spec fn symbol_spec(buf: Seq<u8>, offset: int, length: int) -> Result<
    SymbolView,
    QvdError,
> {
    if length <= 0 || offset < 0 || offset + length > buf.len() {
        Err(QvdError::BoundsError { offset: offset as usize, length: length as usize })
    } else {
        let slice = buf.subrange(offset, offset + length);
        let tag = slice[0];
        if tag == 4u8 || tag == 5u8 || tag == 6u8 {
            Ok(SymbolView::Strings(decoded_strings(slice)))
        } else if tag == 1u8 || tag == 2u8 {
            if length > 8 {
                match decoded_numbers(slice) {
                    Ok(ns) => Ok(SymbolView::Numbers(ns)),
                    Err(e) => Err(e),
                }
            } else {
                Ok(SymbolView::Numbers(Seq::empty()))
            }
        } else {
            Err(QvdError::UnrecognizedTagError { offset: offset as usize, tag })
        }
    }
}

/// The view of an executable field-decode result.
pub open spec fn symbol_result_view(r: Result<Symbol, QvdError>) -> Result<SymbolView, QvdError> {
    match r {
        Ok(sym) => Ok(sym@),
        Err(e) => Err(e),
    }
}

/// Decodes one field's slice of the payload: checks the declared range,
/// inspects the leading tag byte, and dispatches to the text or the numeric
/// decoder.
pub fn get_symbols(buf: &[u8], field: &QvdFieldHeader) -> (r: Result<Symbol, QvdError>)
    ensures
        symbol_result_view(r) == symbol_spec(buf@, field.offset as int, field.length as int),
{
    let start = field.offset;
    let length = field.length;
    if length == 0 || start > buf.len() || buf.len() - start < length {
        return Err(QvdError::BoundsError { offset: start, length });
    }
    let slice = vstd::slice::slice_subrange(buf, start, start + length);
    let tag = *vstd::slice::slice_index_get(slice, 0);
    if tag == 4 || tag == 5 || tag == 6 {
        Ok(Symbol::Strings(process_string_symbols(slice)))
    } else if tag == 1 || tag == 2 {
        if length > 8 {
            match process_number_symbols(slice) {
                Ok(numbers) => Ok(Symbol::Numbers(numbers)),
                Err(e) => Err(e),
            }
        } else {
            let empty_numbers: Vec<i64> = Vec::new();
            proof {
                assert(empty_numbers@ =~= Seq::<i64>::empty());
            }
            Ok(Symbol::Numbers(empty_numbers))
        }
    } else {
        Err(QvdError::UnrecognizedTagError { offset: start, tag })
    }
}

/// The map denoted by name/column pairs taken in order: a later pair with
/// the same name overwrites an earlier one.
pub open spec fn entries_map(s: Seq<(String, Symbol)>) -> Map<Seq<char>, SymbolView>
    decreases s.len(),
{
    if s.len() == 0 {
        Map::empty()
    } else {
        entries_map(s.drop_last()).insert(s.last().0@, s.last().1@)
    }
}

/// The decoded table: one symbol column per field name.  Assembled once by
/// `decode_symbol_table` and handed to the caller complete; never mutated
/// afterwards.
#[derive(Debug, PartialEq, Eq)]
pub struct SymbolTable {
    entries: Vec<(String, Symbol)>,
}

impl View for SymbolTable {
    type V = Map<Seq<char>, SymbolView>;

    closed spec fn view(&self) -> Map<Seq<char>, SymbolView> {
        entries_map(self.entries@)
    }
}

/// The decode of a whole payload against its field descriptors, in
/// declaration order: the map of every field's column, or the first
/// field's failure, and nothing in between.
pub open spec fn table_spec(buf: Seq<u8>, fields: Seq<FieldHeaderView>) -> Result<
    Map<Seq<char>, SymbolView>,
    (Seq<char>, QvdError),
>
    decreases fields.len(),
{
    if fields.len() == 0 {
        Ok(Map::empty())
    } else {
        match table_spec(buf, fields.drop_last()) {
            Err(e) => Err(e),
            Ok(m) => match symbol_spec(buf, fields.last().offset, fields.last().length) {
                Err(e) => Err((fields.last().field_name, e)),
                Ok(sym) => Ok(m.insert(fields.last().field_name, sym)),
            },
        }
    }
}

/// The view of an executable table-decode result.
pub open spec fn table_result_view(r: Result<SymbolTable, FieldError>) -> Result<
    Map<Seq<char>, SymbolView>,
    (Seq<char>, QvdError),
> {
    match r {
        Ok(t) => Ok(t@),
        Err(e) => Err((e.field_name@, e.error)),
    }
}

proof fn lemma_table_spec_first_error(
    buf: Seq<u8>,
    fields: Seq<FieldHeaderView>,
    i: int,
    e: QvdError,
)
    requires
        0 <= i < fields.len(),
        table_spec(buf, fields.subrange(0, i)) is Ok,
        symbol_spec(buf, fields[i].offset, fields[i].length) == Err::<SymbolView, QvdError>(e),
    ensures
        table_spec(buf, fields) == Err::<Map<Seq<char>, SymbolView>, (Seq<char>, QvdError)>(
            (fields[i].field_name, e),
        ),
    decreases fields.len(),
{
    if fields.len() == i + 1 {
        assert(fields.drop_last() =~= fields.subrange(0, i));
        assert(fields.last() == fields[i]);
    } else {
        assert(fields.drop_last().subrange(0, i) =~= fields.subrange(0, i));
        assert(fields.drop_last()[i] == fields[i]);
        lemma_table_spec_first_error(buf, fields.drop_last(), i, e);
    }
}

/// Decodes every field and assembles the table, in the order the header
/// collaborator supplied the descriptors.  Fail-fast: the first field that
/// fails aborts the whole decode, named in the error, and no partial table
/// is returned.  Descriptors sharing a name are permitted; the later one
/// wins.
pub fn decode_symbol_table(buf: &[u8], fields: &Vec<QvdFieldHeader>) -> (r: Result<
    SymbolTable,
    FieldError,
>)
    ensures
        table_result_view(r) == table_spec(buf@, fields.deep_view()),
{
    let mut entries: Vec<(String, Symbol)> = Vec::new();
    let mut k: usize = 0;
    proof {
        assert(fields.deep_view().subrange(0, 0) =~= Seq::<FieldHeaderView>::empty());
        assert(entries@ =~= Seq::<(String, Symbol)>::empty());
    }
    while k < fields.len()
        invariant
            k <= fields@.len(),
            fields.deep_view().len() == fields@.len(),
            table_spec(buf@, fields.deep_view().subrange(0, k as int)) == Ok::<
                Map<Seq<char>, SymbolView>,
                (Seq<char>, QvdError),
            >(entries_map(entries@)),
        decreases fields@.len() - k,
    {
        let field = &fields[k];
        match get_symbols(buf, field) {
            Ok(sym) => {
                let ghost prev = entries@;
                let ghost symv = sym@;
                let name = field.field_name.clone();
                entries.push((name, sym));
                proof {
                    let fv = fields.deep_view();
                    assert(entries@.drop_last() =~= prev);
                    assert(entries@.last().0@ == field.field_name@);
                    assert(entries@.last().1@ == symv);
                    assert(fv.subrange(0, k + 1).drop_last() =~= fv.subrange(0, k as int));
                    assert(fv.subrange(0, k + 1).last() == fv[k as int]);
                    assert(fv[k as int] == fields@[k as int].deep_view());
                }
                k = k + 1;
            },
            Err(e) => {
                let name = field.field_name.clone();
                proof {
                    let fv = fields.deep_view();
                    assert(fv[k as int] == fields@[k as int].deep_view());
                    lemma_table_spec_first_error(buf@, fv, k as int, e);
                }
                return Err(FieldError { field_name: name, error: e });
            },
        }
    }
    proof {
        assert(fields.deep_view().subrange(0, fields@.len() as int) =~= fields.deep_view());
    }
    Ok(SymbolTable { entries })
}

proof fn lemma_entries_map_prefix(s: Seq<(String, Symbol)>, j: int, name: Seq<char>)
    requires
        0 <= j <= s.len(),
        forall|t: int| j <= t < s.len() ==> s[t].0@ != name,
    ensures
        entries_map(s).contains_key(name) == entries_map(s.subrange(0, j)).contains_key(name),
        entries_map(s.subrange(0, j)).contains_key(name) ==> entries_map(s)[name] == entries_map(
            s.subrange(0, j),
        )[name],
    decreases s.len() - j,
{
    if j == s.len() {
        assert(s.subrange(0, j) =~= s);
    } else {
        let d = s.drop_last();
        assert(s[s.len() - 1].0@ != name);
        assert(forall|t: int| j <= t < d.len() ==> d[t].0@ != name);
        lemma_entries_map_prefix(d, j, name);
        assert(d.subrange(0, j) =~= s.subrange(0, j));
    }
}

impl SymbolTable {
    /// The column decoded for `name`: the last field of that name when
    /// several shared it, nothing when none had it.
    pub fn get(&self, name: &String) -> (r: Option<&Symbol>)
        ensures
            match r {
                Some(sym) => self@.contains_key(name@) && self@[name@] == sym@,
                None => !self@.contains_key(name@),
            },
    {
        let mut j: usize = self.entries.len();
        while j > 0
            invariant
                j <= self.entries@.len(),
                forall|t: int| j <= t < self.entries@.len() ==> self.entries@[t].0@ != name@,
            decreases j,
        {
            let entry = &self.entries[j - 1];
            if entry.0.eq(name) {
                proof {
                    let s = self.entries@;
                    lemma_entries_map_prefix(s, j as int, name@);
                    assert(s.subrange(0, j as int).drop_last() =~= s.subrange(0, j - 1));
                    assert(s.subrange(0, j as int).last() == s[j - 1]);
                }
                return Some(&entry.1);
            }
            j = j - 1;
        }
        proof {
            lemma_entries_map_prefix(self.entries@, 0, name@);
            assert(self.entries@.subrange(0, 0) =~= Seq::<(String, Symbol)>::empty());
        }
        None
    }
}

/// Law (reserved placeholder headers): a numeric field of at most eight
/// bytes decodes to no values, whatever its payload bytes hold.
pub proof fn lemma_short_number_field_empty(buf: Seq<u8>, offset: int, length: int)
    requires
        0 <= offset,
        1 <= length <= 8,
        offset + length <= buf.len(),
        buf[offset] == 1u8 || buf[offset] == 2u8,
    ensures
        symbol_spec(buf, offset, length) == Ok::<SymbolView, QvdError>(
            SymbolView::Numbers(Seq::empty()),
        ),
{
    assert(buf.subrange(offset, offset + length)[0] == buf[offset]);
}

proof fn lemma_field_error_aborts_table(buf: Seq<u8>, fields: Seq<FieldHeaderView>, i: int)
    requires
        0 <= i < fields.len(),
        symbol_spec(buf, fields[i].offset, fields[i].length) is Err,
    ensures
        table_spec(buf, fields) is Err,
    decreases fields.len(),
{
    if i == fields.len() - 1 {
        assert(fields.last() == fields[i]);
    } else {
        assert(fields.drop_last()[i] == fields[i]);
        lemma_field_error_aborts_table(buf, fields.drop_last(), i);
    }
}

/// Law (fail-fast on unrecognized tags): when any field's slice starts
/// with a byte outside the recognized tag values, that field's decode is an
/// unrecognized-tag error and the whole table decode fails — no partial
/// table exists to be returned.
pub proof fn lemma_bad_tag_aborts_table(buf: Seq<u8>, fields: Seq<FieldHeaderView>, i: int)
    requires
        0 <= i < fields.len(),
        0 <= fields[i].offset,
        1 <= fields[i].length,
        fields[i].offset + fields[i].length <= buf.len(),
        buf[fields[i].offset] != 1u8,
        buf[fields[i].offset] != 2u8,
        buf[fields[i].offset] != 4u8,
        buf[fields[i].offset] != 5u8,
        buf[fields[i].offset] != 6u8,
    ensures
        symbol_spec(buf, fields[i].offset, fields[i].length) == Err::<SymbolView, QvdError>(
            QvdError::UnrecognizedTagError {
                offset: fields[i].offset as usize,
                tag: buf[fields[i].offset],
            },
        ),
        table_spec(buf, fields) is Err,
{
    assert(buf.subrange(fields[i].offset, fields[i].offset + fields[i].length)[0]
        == buf[fields[i].offset]);
    lemma_field_error_aborts_table(buf, fields, i);
}

/// Law (round-trip idempotence): the table decode is a function of the
/// payload bytes and the field descriptors alone, so two decodes of the
/// same immutable buffer with the same descriptors — each pinned by
/// `decode_symbol_table`'s contract — have equal views: structurally equal
/// tables, or identical errors.
pub proof fn lemma_table_decode_deterministic(
    buf: Seq<u8>,
    fields: Seq<FieldHeaderView>,
    r1: Result<SymbolTable, FieldError>,
    r2: Result<SymbolTable, FieldError>,
)
    requires
        table_result_view(r1) == table_spec(buf, fields),
        table_result_view(r2) == table_spec(buf, fields),
    ensures
        table_result_view(r1) == table_result_view(r2),
{
}

} // verus!
