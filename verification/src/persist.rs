//! Persistence of feature tables as flat artifact files.
//!
//! A persisted artifact is one header line of escaped column names followed
//! by one line per row. Every field ends with a comma and every line with a
//! newline; cells are tagged (`i`/`n` integer, `x` real bits, `t` text,
//! empty for null) and numeric payloads are fixed-width hexadecimal, so a
//! round trip reproduces the table exactly, bit for bit. The canonical
//! artifact path of a dataset is derived deterministically from its name.

use vstd::prelude::*;
use vstd::string::StringSliceAdditionalSpecFns;

use crate::cells::{Cell, CellValue};
use crate::codec::{
    escape, escape_bytes, hex_digits, lemma_escape_sep_free, lemma_hex_digit_chars,
    lemma_pow16_bounds, lemma_split_append_free, lemma_split_len, lemma_split_push_sep,
    lemma_unescape_escape, lemma_unhex_hex, parse_hex, push_hex, sep_free, split_bytes,
    split_fold, unescape, unescape_bytes, unhex,
};
use crate::errors::PipelineError;
use crate::table::{NamedData, Table};

verus! {

/// An integer cell value that a 64-bit signed cell can hold.
pub open spec fn cell_wf(c: CellValue) -> bool {
    match c {
        CellValue::Int(i) => i64::MIN <= i <= i64::MAX,
        _ => true,
    }
}

/// The encoded form of one cell.
pub open spec fn encode_cell_spec(c: CellValue) -> Seq<u8> {
    match c {
        CellValue::Null => Seq::empty(),
        CellValue::Int(i) => if i >= 0 {
            seq![105u8] + hex_digits(i, 16)
        } else {
            seq![110u8] + hex_digits(-i - 1, 16)
        },
        CellValue::Real(b) => seq![120u8] + hex_digits(b as int, 16),
        CellValue::Text(t) => seq![116u8] + escape_bytes(t),
    }
}

/// The cell encoded in a field, when the field is well formed.
pub open spec fn decode_cell_spec(s: Seq<u8>) -> Option<CellValue> {
    if s.len() == 0 {
        Some(CellValue::Null)
    } else if s[0] == 105 {
        if s.len() == 17 {
            match unhex(s.skip(1)) {
                Some(v) => if v <= i64::MAX {
                    Some(CellValue::Int(v))
                } else {
                    None
                },
                None => None,
            }
        } else {
            None
        }
    } else if s[0] == 110 {
        if s.len() == 17 {
            match unhex(s.skip(1)) {
                Some(v) => if v <= i64::MAX {
                    Some(CellValue::Int(-v - 1))
                } else {
                    None
                },
                None => None,
            }
        } else {
            None
        }
    } else if s[0] == 120 {
        if s.len() == 17 {
            match unhex(s.skip(1)) {
                Some(v) => Some(CellValue::Real(v as u64)),
                None => None,
            }
        } else {
            None
        }
    } else if s[0] == 116 {
        match unescape_bytes(s.skip(1)) {
            Some(t) => Some(CellValue::Text(t)),
            None => None,
        }
    } else {
        None
    }
}

/// An encoded cell is separator-free.
pub proof fn lemma_encode_cell_sep_free(c: CellValue)
    ensures
        sep_free(encode_cell_spec(c)),
{
    match c {
        CellValue::Null => {},
        CellValue::Int(i) => {
            if i >= 0 {
                lemma_hex_digit_chars(i, 16);
            } else {
                lemma_hex_digit_chars(-i - 1, 16);
            }
        },
        CellValue::Real(b) => {
            lemma_hex_digit_chars(b as int, 16);
        },
        CellValue::Text(t) => {
            lemma_escape_sep_free(t);
        },
    }
}

/// Decoding inverts encoding on representable cells.
pub proof fn lemma_cell_round_trip(c: CellValue)
    requires
        cell_wf(c),
    ensures
        decode_cell_spec(encode_cell_spec(c)) == Some(c),
{
    lemma_pow16_bounds();
    match c {
        CellValue::Null => {},
        CellValue::Int(i) => {
            if i >= 0 {
                lemma_hex_digit_chars(i, 16);
                let enc = encode_cell_spec(c);
                assert(enc.skip(1) =~= hex_digits(i, 16));
                lemma_unhex_hex(i, 16);
            } else {
                lemma_hex_digit_chars(-i - 1, 16);
                let enc = encode_cell_spec(c);
                assert(enc.skip(1) =~= hex_digits(-i - 1, 16));
                lemma_unhex_hex(-i - 1, 16);
            }
        },
        CellValue::Real(b) => {
            lemma_hex_digit_chars(b as int, 16);
            let enc = encode_cell_spec(c);
            assert(enc.skip(1) =~= hex_digits(b as int, 16));
            lemma_unhex_hex(b as int, 16);
        },
        CellValue::Text(t) => {
            let enc = encode_cell_spec(c);
            assert(enc.skip(1) =~= escape_bytes(t));
            lemma_unescape_escape(t);
            if escape_bytes(t).len() == 0 {
                assert(enc.len() == 1 && enc[0] == 116);
            } else {
                lemma_escape_sep_free(t);
                assert(enc[0] == 116);
            }
        },
    }
}

/// Appends the encoded form of one cell.
pub fn encode_cell(out: &mut Vec<u8>, c: &Cell)
    ensures
        final(out)@ == old(out)@ + encode_cell_spec(c.deep_view()),
{
    match c {
        Cell::Null => {
            proof {
                assert(old(out)@ + encode_cell_spec(c.deep_view()) =~= old(out)@);
            }
        },
        Cell::Int(i) => {
            let i = *i;
            if i >= 0 {
                out.push(105);
                push_hex(out, i as u64, 16);
            } else {
                out.push(110);
                let m: i64 = -(i + 1);
                push_hex(out, m as u64, 16);
            }
            proof {
                assert(out@ =~= old(out)@ + encode_cell_spec(c.deep_view()));
            }
        },
        Cell::Real(b) => {
            out.push(120);
            push_hex(out, *b, 16);
            proof {
                assert(out@ =~= old(out)@ + encode_cell_spec(c.deep_view()));
            }
        },
        Cell::Text(t) => {
            out.push(116);
            let mut esc = escape(t);
            out.append(&mut esc);
            proof {
                assert(out@ =~= old(out)@ + encode_cell_spec(c.deep_view()));
            }
        },
    }
}

/// Decodes one field into a cell, failing exactly where the spec does.
pub fn decode_cell(f: &Vec<u8>) -> (r: Option<Cell>)
    ensures
        match r {
            Some(c) => decode_cell_spec(f@) == Some(c.deep_view()),
            None => decode_cell_spec(f@) is None,
        },
{
    let n = f.len();
    if n == 0 {
        return Some(Cell::Null);
    }
    let tag = f[0];
    if tag == 105 || tag == 110 || tag == 120 {
        if n != 17 {
            return None;
        }
        proof {
            assert(f@.subrange(1, 17) =~= f@.skip(1));
        }
        match parse_hex(f, 1, 16) {
            Some(v) => {
                if tag == 120 {
                    Some(Cell::Real(v))
                } else if v <= 0x7fff_ffff_ffff_ffff {
                    if tag == 105 {
                        Some(Cell::Int(v as i64))
                    } else {
                        Some(Cell::Int(-(v as i64) - 1))
                    }
                } else {
                    None
                }
            },
            None => None,
        }
    } else if tag == 116 {
        let sub = vstd::slice::slice_to_vec(
            vstd::slice::slice_subrange(f.as_slice(), 1, n),
        );
        proof {
            assert(sub@ =~= f@.skip(1));
        }
        match unescape(&sub) {
            Some(t) => Some(Cell::Text(t)),
            None => None,
        }
    } else {
        None
    }
}

// ---------------------------------------------------------------------------
// Table encoding
// ---------------------------------------------------------------------------
/// A table is encodable: every row has one cell per name and every cell is
/// representable.
pub open spec fn table_enc_wf(names: Seq<Seq<u8>>, rows: Seq<Seq<CellValue>>) -> bool {
    &&& forall|i: int| 0 <= i < rows.len() ==> (#[trigger] rows[i]).len() == names.len()
    &&& forall|i: int, j: int|
        0 <= i < rows.len() && 0 <= j < rows[i].len() ==> cell_wf(#[trigger] rows[i][j])
}

/// The header fields: each name escaped.
pub open spec fn name_fields(names: Seq<Seq<u8>>) -> Seq<Seq<u8>>
    decreases names.len(),
{
    if names.len() == 0 {
        Seq::empty()
    } else {
        name_fields(names.drop_last()).push(escape_bytes(names.last()))
    }
}

/// The fields of one row: each cell encoded.
pub open spec fn row_fields(row: Seq<CellValue>) -> Seq<Seq<u8>>
    decreases row.len(),
{
    if row.len() == 0 {
        Seq::empty()
    } else {
        row_fields(row.drop_last()).push(encode_cell_spec(row.last()))
    }
}

/// A line body: every field followed by a comma.
pub open spec fn enc_fields(fields: Seq<Seq<u8>>) -> Seq<u8>
    decreases fields.len(),
{
    if fields.len() == 0 {
        Seq::empty()
    } else {
        enc_fields(fields.drop_last()) + fields.last() + seq![44u8]
    }
}

/// The row lines: every row's line body followed by a newline.
pub open spec fn enc_rows(rows: Seq<Seq<CellValue>>) -> Seq<u8>
    decreases rows.len(),
{
    if rows.len() == 0 {
        Seq::empty()
    } else {
        enc_rows(rows.drop_last()) + enc_fields(row_fields(rows.last())) + seq![10u8]
    }
}

/// The encoded artifact: the header line, then one line per row.
pub open spec fn encode_table_spec(names: Seq<Seq<u8>>, rows: Seq<Seq<CellValue>>) -> Seq<u8> {
    enc_fields(name_fields(names)) + seq![10u8] + enc_rows(rows)
}

/// The line bodies of the rows, in order.
pub open spec fn row_lines(rows: Seq<Seq<CellValue>>) -> Seq<Seq<u8>>
    decreases rows.len(),
{
    if rows.len() == 0 {
        Seq::empty()
    } else {
        row_lines(rows.drop_last()).push(enc_fields(row_fields(rows.last())))
    }
}

// ---------------------------------------------------------------------------
// Table decoding
// ---------------------------------------------------------------------------
/// The fields of one line body, when it is well formed (possibly empty,
/// ending with a comma).
pub open spec fn decode_fields_line(line: Seq<u8>) -> Option<Seq<Seq<u8>>> {
    let fp = split_fold(line, 44);
    if fp.last().len() != 0 {
        None
    } else {
        Some(fp.drop_last())
    }
}

/// Unescapes every field.
pub open spec fn unescape_all(fs: Seq<Seq<u8>>) -> Option<Seq<Seq<u8>>>
    decreases fs.len(),
{
    if fs.len() == 0 {
        Some(Seq::empty())
    } else {
        match (unescape_all(fs.drop_last()), unescape_bytes(fs.last())) {
            (Some(rest), Some(x)) => Some(rest.push(x)),
            _ => None,
        }
    }
}

/// Decodes every field as a cell.
pub open spec fn decode_cells_all(fs: Seq<Seq<u8>>) -> Option<Seq<CellValue>>
    decreases fs.len(),
{
    if fs.len() == 0 {
        Some(Seq::empty())
    } else {
        match (decode_cells_all(fs.drop_last()), decode_cell_spec(fs.last())) {
            (Some(rest), Some(c)) => Some(rest.push(c)),
            _ => None,
        }
    }
}

/// Decodes one row line against the expected column count.
pub open spec fn decode_row_spec(line: Seq<u8>, arity: int) -> Option<Seq<CellValue>> {
    match decode_fields_line(line) {
        Some(fs) => match decode_cells_all(fs) {
            Some(cs) => if cs.len() == arity {
                Some(cs)
            } else {
                None
            },
            None => None,
        },
        None => None,
    }
}

/// Decodes every row line.
pub open spec fn decode_rows_spec(lines: Seq<Seq<u8>>, arity: int) -> Option<
    Seq<Seq<CellValue>>,
>
    decreases lines.len(),
{
    if lines.len() == 0 {
        Some(Seq::empty())
    } else {
        match (decode_rows_spec(lines.drop_last(), arity), decode_row_spec(lines.last(), arity)) {
            (Some(rest), Some(r)) => Some(rest.push(r)),
            _ => None,
        }
    }
}

/// The table held in an artifact, when the artifact is well formed.
pub open spec fn decode_table_spec(s: Seq<u8>) -> Option<(Seq<Seq<u8>>, Seq<Seq<CellValue>>)> {
    let parts = split_fold(s, 10);
    if parts.len() < 2 || parts.last().len() != 0 {
        None
    } else {
        let lines = parts.drop_last();
        match decode_fields_line(lines[0]) {
            Some(nf) => match unescape_all(nf) {
                Some(names) => match decode_rows_spec(lines.skip(1), names.len() as int) {
                    Some(rows) => Some((names, rows)),
                    None => None,
                },
                None => None,
            },
            None => None,
        }
    }
}

// ---------------------------------------------------------------------------
// Round trip
// ---------------------------------------------------------------------------
/// No newline occurs in a sequence.
pub open spec fn line_free(s: Seq<u8>) -> bool {
    forall|i: int| 0 <= i < s.len() ==> s[i] != 10
}

/// A line body of separator-free fields splits back into its fields, and
/// holds no newline.
pub proof fn lemma_enc_fields(fields: Seq<Seq<u8>>)
    requires
        forall|i: int| 0 <= i < fields.len() ==> sep_free(#[trigger] fields[i]),
    ensures
        split_fold(enc_fields(fields), 44) == fields + seq![Seq::<u8>::empty()],
        line_free(enc_fields(fields)),
    decreases fields.len(),
{
    if fields.len() == 0 {
        assert(enc_fields(fields) =~= Seq::<u8>::empty());
        assert(split_fold(Seq::<u8>::empty(), 44) =~= fields + seq![Seq::<u8>::empty()]);
    } else {
        lemma_enc_fields(fields.drop_last());
        let prefix = enc_fields(fields.drop_last());
        let f = fields.last();
        lemma_split_append_free(prefix, f, 44);
        lemma_split_len(prefix, 44);
        assert(split_fold(prefix, 44).drop_last() =~= fields.drop_last());
        assert(split_fold(prefix, 44).last() == Seq::<u8>::empty());
        assert(Seq::<u8>::empty() + f =~= f);
        assert(split_fold(prefix + f, 44) =~= fields.drop_last() + seq![f]);
        lemma_split_push_sep(prefix + f, 44);
        assert(enc_fields(fields) =~= (prefix + f) + seq![44u8]);
        assert(split_fold(enc_fields(fields), 44) =~= fields + seq![Seq::<u8>::empty()]);
        assert forall|i: int| 0 <= i < enc_fields(fields).len() implies enc_fields(fields)[i]
            != 10 by {
            if i < prefix.len() {
            } else if i < prefix.len() + f.len() {
                assert(enc_fields(fields)[i] == f[i - prefix.len()]);
            } else {
                assert(enc_fields(fields)[i] == 44);
            }
        }
    }
}

/// Escaped header fields are separator-free.
pub proof fn lemma_name_fields_sep_free(names: Seq<Seq<u8>>)
    ensures
        forall|i: int| 0 <= i < name_fields(names).len() ==> sep_free(
            #[trigger] name_fields(names)[i],
        ),
        name_fields(names).len() == names.len(),
    decreases names.len(),
{
    if names.len() > 0 {
        lemma_name_fields_sep_free(names.drop_last());
        lemma_escape_sep_free(names.last());
    }
}

/// Encoded row fields are separator-free.
pub proof fn lemma_row_fields_sep_free(row: Seq<CellValue>)
    ensures
        forall|i: int| 0 <= i < row_fields(row).len() ==> sep_free(#[trigger] row_fields(row)[i]),
        row_fields(row).len() == row.len(),
    decreases row.len(),
{
    if row.len() > 0 {
        lemma_row_fields_sep_free(row.drop_last());
        lemma_encode_cell_sep_free(row.last());
    }
}

/// Splitting an encoded artifact on newlines yields the header body, the
/// row bodies, and a final empty part.
pub proof fn lemma_split_lines(names: Seq<Seq<u8>>, rows: Seq<Seq<CellValue>>)
    ensures
        split_fold(encode_table_spec(names, rows), 10) == seq![enc_fields(name_fields(names))]
            + row_lines(rows) + seq![Seq::<u8>::empty()],
    decreases rows.len(),
{
    let hdr = enc_fields(name_fields(names));
    lemma_name_fields_sep_free(names);
    lemma_enc_fields(name_fields(names));
    if rows.len() == 0 {
        assert(encode_table_spec(names, rows) =~= hdr + seq![10u8]);
        assert(hdr =~= Seq::<u8>::empty() + hdr);
        lemma_split_append_free(Seq::<u8>::empty(), hdr, 10);
        assert(split_fold(Seq::<u8>::empty(), 10) =~= seq![Seq::<u8>::empty()]);
        assert(split_fold(Seq::<u8>::empty(), 10).drop_last() =~= Seq::<Seq<u8>>::empty());
        assert(Seq::<u8>::empty() + hdr =~= hdr);
        assert(split_fold(hdr, 10) =~= seq![hdr]);
        lemma_split_push_sep(hdr, 10);
        assert(split_fold(encode_table_spec(names, rows), 10) =~= seq![hdr] + row_lines(rows)
            + seq![Seq::<u8>::empty()]);
    } else {
        lemma_split_lines(names, rows.drop_last());
        let prefix = encode_table_spec(names, rows.drop_last());
        let rc = enc_fields(row_fields(rows.last()));
        lemma_row_fields_sep_free(rows.last());
        lemma_enc_fields(row_fields(rows.last()));
        lemma_split_append_free(prefix, rc, 10);
        let sp = split_fold(prefix, 10);
        assert(sp == seq![hdr] + row_lines(rows.drop_last()) + seq![Seq::<u8>::empty()]);
        assert(sp.drop_last() =~= seq![hdr] + row_lines(rows.drop_last()));
        assert(sp.last() == Seq::<u8>::empty());
        assert(Seq::<u8>::empty() + rc =~= rc);
        assert(split_fold(prefix + rc, 10) =~= seq![hdr] + row_lines(rows.drop_last()) + seq![
            rc,
        ]);
        lemma_split_push_sep(prefix + rc, 10);
        assert(encode_table_spec(names, rows) =~= (prefix + rc) + seq![10u8]);
        assert(row_lines(rows) =~= row_lines(rows.drop_last()).push(rc));
        assert(split_fold(encode_table_spec(names, rows), 10) =~= seq![hdr] + row_lines(rows)
            + seq![Seq::<u8>::empty()]);
    }
}

/// Unescaping the header fields recovers the names.
pub proof fn lemma_unescape_all_names(names: Seq<Seq<u8>>)
    ensures
        unescape_all(name_fields(names)) == Some(names),
    decreases names.len(),
{
    if names.len() == 0 {
        assert(name_fields(names).len() == 0);
        assert(unescape_all(name_fields(names)) == Some(Seq::<Seq<u8>>::empty()));
        assert(names =~= Seq::<Seq<u8>>::empty());
    } else {
        lemma_unescape_all_names(names.drop_last());
        lemma_unescape_escape(names.last());
        let nf = name_fields(names);
        assert(nf.drop_last() =~= name_fields(names.drop_last()));
        assert(nf.last() == escape_bytes(names.last()));
        assert(names.drop_last().push(names.last()) =~= names);
    }
}

/// Decoding the row fields recovers the cells.
pub proof fn lemma_decode_cells_row(row: Seq<CellValue>)
    requires
        forall|j: int| 0 <= j < row.len() ==> cell_wf(#[trigger] row[j]),
    ensures
        decode_cells_all(row_fields(row)) == Some(row),
    decreases row.len(),
{
    if row.len() == 0 {
        assert(row_fields(row).len() == 0);
        assert(row =~= Seq::<CellValue>::empty());
    } else {
        lemma_decode_cells_row(row.drop_last());
        lemma_cell_round_trip(row.last());
        let rf = row_fields(row);
        assert(rf.drop_last() =~= row_fields(row.drop_last()));
        assert(rf.last() == encode_cell_spec(row.last()));
        assert(row.drop_last().push(row.last()) =~= row);
    }
}

/// Decoding the row lines recovers the rows.
pub proof fn lemma_decode_rows(rows: Seq<Seq<CellValue>>, arity: int)
    requires
        forall|i: int| 0 <= i < rows.len() ==> (#[trigger] rows[i]).len() == arity,
        forall|i: int, j: int|
            0 <= i < rows.len() && 0 <= j < rows[i].len() ==> cell_wf(#[trigger] rows[i][j]),
    ensures
        decode_rows_spec(row_lines(rows), arity) == Some(rows),
    decreases rows.len(),
{
    if rows.len() == 0 {
        assert(row_lines(rows).len() == 0);
        assert(rows =~= Seq::<Seq<CellValue>>::empty());
    } else {
        lemma_decode_rows(rows.drop_last(), arity);
        let rl = row_lines(rows);
        assert(rl.drop_last() =~= row_lines(rows.drop_last()));
        assert(rl.last() == enc_fields(row_fields(rows.last())));
        lemma_row_fields_sep_free(rows.last());
        lemma_enc_fields(row_fields(rows.last()));
        let fp = split_fold(rl.last(), 44);
        assert(fp == row_fields(rows.last()) + seq![Seq::<u8>::empty()]);
        assert(fp.last() == Seq::<u8>::empty());
        assert(fp.drop_last() =~= row_fields(rows.last()));
        lemma_decode_cells_row(rows.last());
        assert(decode_row_spec(rl.last(), arity) == Some(rows.last()));
        assert(rows.drop_last().push(rows.last()) =~= rows);
    }
}

/// Reading back a persisted artifact reproduces the table exactly: the
/// same column names, the same row count, and bit-identical cell values.
pub proof fn lemma_table_round_trip(names: Seq<Seq<u8>>, rows: Seq<Seq<CellValue>>)
    requires
        table_enc_wf(names, rows),
    ensures
        decode_table_spec(encode_table_spec(names, rows)) == Some((names, rows)),
{
    lemma_split_lines(names, rows);
    let parts = split_fold(encode_table_spec(names, rows), 10);
    let hdr = enc_fields(name_fields(names));
    assert(parts.len() == 2 + row_lines(rows).len()) by {
        lemma_row_lines_len(rows);
    }
    assert(parts.last() == Seq::<u8>::empty());
    let lines = parts.drop_last();
    assert(lines =~= seq![hdr] + row_lines(rows));
    assert(lines[0] == hdr);
    lemma_name_fields_sep_free(names);
    lemma_enc_fields(name_fields(names));
    let fp = split_fold(hdr, 44);
    assert(fp == name_fields(names) + seq![Seq::<u8>::empty()]);
    assert(fp.last() == Seq::<u8>::empty());
    assert(fp.drop_last() =~= name_fields(names));
    lemma_unescape_all_names(names);
    assert(lines.skip(1) =~= row_lines(rows));
    lemma_decode_rows(rows, names.len() as int);
}

/// The number of row lines equals the number of rows.
pub proof fn lemma_row_lines_len(rows: Seq<Seq<CellValue>>)
    ensures
        row_lines(rows).len() == rows.len(),
    decreases rows.len(),
{
    if rows.len() > 0 {
        lemma_row_lines_len(rows.drop_last());
    }
}

// ---------------------------------------------------------------------------
// Executable encoding and decoding
// ---------------------------------------------------------------------------
/// Serializes a table into artifact bytes.
pub fn encode_table(t: &Table) -> (out: Vec<u8>)
    ensures
        out@ == encode_table_spec(t.names_view(), t.rows_view()),
{
    let mut out: Vec<u8> = Vec::new();
    let hn = t.names.len();
    for i in 0..hn
        invariant
            hn == t.names@.len(),
            out@ == enc_fields(name_fields(t.names_view().take(i as int))),
    {
        let mut e = escape(&t.names[i]);
        out.append(&mut e);
        out.push(44);
        proof {
            let nv = t.names_view();
            assert(nv.take(i + 1).drop_last() =~= nv.take(i as int));
            assert(nv.take(i + 1).last() == nv[i as int]);
            let nf1 = name_fields(nv.take(i + 1));
            assert(nf1.drop_last() =~= name_fields(nv.take(i as int)));
            assert(nf1.last() == escape_bytes(nv[i as int]));
            assert(t.names@[i as int]@ =~= nv[i as int]);
            assert(out@ =~= enc_fields(nf1));
        }
    }
    proof {
        assert(t.names_view().take(hn as int) =~= t.names_view());
    }
    out.push(10);
    let rn = t.rows.len();
    for r in 0..rn
        invariant
            rn == t.rows@.len(),
            out@ == enc_fields(name_fields(t.names_view())) + seq![10u8] + enc_rows(
                t.rows_view().take(r as int),
            ),
    {
        let row = &t.rows[r];
        let cn = row.len();
        let ghost base = out@;
        proof {
            assert(base + enc_fields(row_fields(row.deep_view().take(0))) =~= base);
        }
        for c in 0..cn
            invariant
                cn == row@.len(),
                out@ == base + enc_fields(row_fields(row.deep_view().take(c as int))),
        {
            let cell = row[c].clone();
            encode_cell(&mut out, &cell);
            out.push(44);
            proof {
                let rv = row.deep_view();
                assert(rv.take(c + 1).drop_last() =~= rv.take(c as int));
                assert(rv.take(c + 1).last() == rv[c as int]);
                let rf1 = row_fields(rv.take(c + 1));
                assert(rf1.drop_last() =~= row_fields(rv.take(c as int)));
                assert(rf1.last() == encode_cell_spec(rv[c as int]));
                assert(cell.deep_view() == rv[c as int]);
                assert(out@ =~= base + enc_fields(rf1));
            }
        }
        out.push(10);
        proof {
            let tv = t.rows_view();
            assert(row.deep_view().take(cn as int) =~= row.deep_view());
            assert(tv.take(r + 1).drop_last() =~= tv.take(r as int));
            assert(tv.take(r + 1).last() == tv[r as int]);
            assert(tv[r as int] == row.deep_view());
            assert(out@ =~= enc_fields(name_fields(t.names_view())) + seq![10u8] + enc_rows(
                tv.take(r + 1),
            ));
        }
    }
    proof {
        assert(t.rows_view().take(rn as int) =~= t.rows_view());
    }
    out
}

/// If one field does not unescape, the whole header fails.
pub proof fn lemma_unescape_all_none(fs: Seq<Seq<u8>>, i: int)
    requires
        0 <= i < fs.len(),
        unescape_bytes(fs[i]) is None,
    ensures
        unescape_all(fs) is None,
    decreases fs.len(),
{
    if i < fs.len() - 1 {
        lemma_unescape_all_none(fs.drop_last(), i);
    }
}

/// If one field does not decode as a cell, the whole row fails.
pub proof fn lemma_decode_cells_none(fs: Seq<Seq<u8>>, i: int)
    requires
        0 <= i < fs.len(),
        decode_cell_spec(fs[i]) is None,
    ensures
        decode_cells_all(fs) is None,
    decreases fs.len(),
{
    if i < fs.len() - 1 {
        lemma_decode_cells_none(fs.drop_last(), i);
    }
}

/// If one line does not decode as a row, the whole body fails.
pub proof fn lemma_decode_rows_none(lines: Seq<Seq<u8>>, i: int, arity: int)
    requires
        0 <= i < lines.len(),
        decode_row_spec(lines[i], arity) is None,
    ensures
        decode_rows_spec(lines, arity) is None,
    decreases lines.len(),
{
    if i < lines.len() - 1 {
        lemma_decode_rows_none(lines.drop_last(), i, arity);
    }
}

/// Splits one line body into its fields, failing exactly where the spec
/// does.
fn decode_fields(line: &Vec<u8>) -> (r: Option<Vec<Vec<u8>>>)
    ensures
        match r {
            Some(fs) => decode_fields_line(line@) == Some(fs.deep_view()),
            None => decode_fields_line(line@) is None,
        },
{
    let mut fp = split_bytes(line, 44);
    proof {
        lemma_split_len(line@, 44);
        assert(fp.deep_view().len() == fp@.len());
    }
    let k = fp.len();
    proof {
        assert(fp.deep_view()[k - 1] == split_fold(line@, 44).last());
        assert(fp@[k - 1]@ =~= fp.deep_view()[k - 1]);
    }
    if fp[k - 1].len() != 0 {
        return None;
    }
    let popped = fp.pop();
    proof {
        assert(fp.deep_view() =~= split_fold(line@, 44).drop_last());
    }
    Some(fp)
}

/// Deserializes artifact bytes into a table, failing exactly where the
/// spec does.
pub fn decode_table(bytes: &Vec<u8>) -> (r: Option<Table>)
    ensures
        match r {
            Some(t) => decode_table_spec(bytes@) == Some((t.names_view(), t.rows_view()))
                && t.wf(),
            None => decode_table_spec(bytes@) is None,
        },
{
    let parts = split_bytes(bytes, 10);
    proof {
        lemma_split_len(bytes@, 10);
        assert(parts.deep_view().len() == parts@.len());
    }
    let np = parts.len();
    if np < 2 {
        return None;
    }
    proof {
        assert(parts.deep_view()[np - 1] == split_fold(bytes@, 10).last());
        assert(parts@[np - 1]@ =~= parts.deep_view()[np - 1]);
    }
    if parts[np - 1].len() != 0 {
        return None;
    }
    let ghost sparts = split_fold(bytes@, 10);
    let ghost lines = sparts.drop_last();
    proof {
        assert(forall|k: int| 0 <= k < np - 1 ==> lines[k] == #[trigger] parts.deep_view()[k]);
        assert(parts@[0]@ =~= parts.deep_view()[0]);
    }
    let nf = match decode_fields(&parts[0]) {
        Some(v) => v,
        None => {
            proof {
                assert(decode_fields_line(lines[0]) is None);
            }
            return None;
        },
    };
    let mut names: Vec<Vec<u8>> = Vec::new();
    let nn = nf.len();
    proof {
        assert(nf.deep_view().len() == nf@.len());
    }
    for i in 0..nn
        invariant
            nn == nf@.len(),
            2 <= np == parts@.len(),
            parts.deep_view() == sparts,
            sparts == split_fold(bytes@, 10),
            lines == sparts.drop_last(),
            sparts.last().len() == 0,
            lines.len() == np - 1,
            decode_fields_line(lines[0]) == Some(nf.deep_view()),
            unescape_all(nf.deep_view().take(i as int)) == Some(names.deep_view()),
    {
        proof {
            assert(nf@[i as int]@ =~= nf.deep_view()[i as int]);
        }
        match unescape(&nf[i]) {
            Some(v) => {
                names.push(v);
                proof {
                    let nv = nf.deep_view();
                    assert(nv.take(i + 1).drop_last() =~= nv.take(i as int));
                    assert(nv.take(i + 1).last() == nv[i as int]);
                    assert(unescape_all(nv.take(i + 1)) =~~= Some(names.deep_view()));
                }
            },
            None => {
                proof {
                    lemma_unescape_all_none(nf.deep_view(), i as int);
                }
                return None;
            },
        }
    }
    proof {
        assert(nf.deep_view().take(nn as int) =~= nf.deep_view());
    }
    let arity = names.len();
    let ghost names_v = names.deep_view();
    proof {
        assert(names_v.len() == names@.len());
    }
    let mut rows: Vec<Vec<Cell>> = Vec::new();
    let mut li: usize = 1;
    while li < np - 1
        invariant
            2 <= np == parts@.len(),
            parts.deep_view() == sparts,
            sparts == split_fold(bytes@, 10),
            lines == sparts.drop_last(),
            sparts.last().len() == 0,
            lines.len() == np - 1,
            decode_fields_line(lines[0]) == Some(nf.deep_view()),
            unescape_all(nf.deep_view()) == Some(names_v),
            names_v == names.deep_view(),
            arity == names@.len(),
            names_v.len() == arity,
            1 <= li <= np - 1,
            rows@.len() == li - 1,
            decode_rows_spec(lines.skip(1).take(li - 1), arity as int) == Some(rows.deep_view()),
            forall|q: int| 0 <= q < rows@.len() ==> (#[trigger] rows@[q])@.len() == arity,
        decreases np - 1 - li,
    {
        proof {
            assert(parts@[li as int]@ =~= parts.deep_view()[li as int]);
            assert(lines[li as int] == parts.deep_view()[li as int]);
        }
        let ghost rline = lines[li as int];
        let ghost rtail = lines.skip(1);
        proof {
            assert(rtail.take(li - 1 + 1).drop_last() =~= rtail.take(li - 1));
            assert(rtail.take(li - 1 + 1).last() == rtail[li - 1]);
            assert(rtail[li - 1] == rline);
        }
        let fs = match decode_fields(&parts[li]) {
            Some(v) => v,
            None => {
                proof {
                    assert(decode_row_spec(rline, arity as int) is None);
                    lemma_decode_rows_none(rtail, li - 1, arity as int);
                }
                return None;
            },
        };
        let fcount = fs.len();
        proof {
            assert(fs.deep_view().len() == fs@.len());
        }
        let mut row: Vec<Cell> = Vec::new();
        for c in 0..fcount
            invariant
                fcount == fs@.len(),
                2 <= np == parts@.len(),
                parts.deep_view() == sparts,
                sparts == split_fold(bytes@, 10),
                lines == sparts.drop_last(),
                sparts.last().len() == 0,
                lines.len() == np - 1,
                decode_fields_line(lines[0]) == Some(nf.deep_view()),
                unescape_all(nf.deep_view()) == Some(names_v),
                names_v.len() == arity,
                1 <= li < np - 1,
                rtail == lines.skip(1),
                rtail[li - 1] == rline,
                decode_fields_line(rline) == Some(fs.deep_view()),
                decode_cells_all(fs.deep_view().take(c as int)) == Some(row.deep_view()),
        {
            proof {
                assert(fs@[c as int]@ =~= fs.deep_view()[c as int]);
            }
            match decode_cell(&fs[c]) {
                Some(cell) => {
                    row.push(cell);
                    proof {
                        let fv = fs.deep_view();
                        assert(fv.take(c + 1).drop_last() =~= fv.take(c as int));
                        assert(fv.take(c + 1).last() == fv[c as int]);
                        assert(decode_cells_all(fv.take(c + 1)) =~~= Some(row.deep_view()));
                    }
                },
                None => {
                    proof {
                        lemma_decode_cells_none(fs.deep_view(), c as int);
                        assert(decode_row_spec(rline, arity as int) is None);
                        assert(0 <= li - 1 < rtail.len());
                        lemma_decode_rows_none(rtail, li - 1, arity as int);
                    }
                    return None;
                },
            }
        }
        proof {
            assert(fs.deep_view().take(fcount as int) =~= fs.deep_view());
            assert(row.deep_view().len() == row@.len());
        }
        if row.len() != arity {
            proof {
                assert(decode_row_spec(rline, arity as int) is None);
                lemma_decode_rows_none(rtail, li - 1, arity as int);
            }
            return None;
        }
        proof {
            assert(decode_row_spec(rline, arity as int) == Some(row.deep_view()));
        }
        rows.push(row);
        proof {
            assert(decode_rows_spec(rtail.take(li as int), arity as int) =~~= Some(
                rows.deep_view(),
            ));
        }
        li = li + 1;
    }
    proof {
        assert(lines.skip(1).take(np - 2) =~= lines.skip(1));
    }
    let t = Table { names, rows };
    proof {
        assert(decode_table_spec(bytes@) == Some((t.names_view(), t.rows_view())));
        assert(t.wf()) by {
            assert(forall|q: int|
                0 <= q < t.rows@.len() ==> (#[trigger] t.rows@[q])@.len() == t.names@.len());
        }
    }
    Some(t)
}

// ---------------------------------------------------------------------------
// The canonical artifact location
// ---------------------------------------------------------------------------
/// The canonical artifact path of a dataset name: a fixed record directory,
/// the name, and a fixed extension.
pub open spec fn artifact_path_spec(name: Seq<u8>) -> Seq<u8> {
    "db/record/taxi_weather-".spec_bytes() + name + ".csv".spec_bytes()
}

/// Builds the canonical artifact path of a dataset name.
pub fn artifact_path(name: &Vec<u8>) -> (p: Vec<u8>)
    ensures
        p@ == artifact_path_spec(name@),
{
    let mut p = vstd::slice::slice_to_vec("db/record/taxi_weather-".as_bytes());
    let mut mid = vstd::slice::slice_to_vec(name.as_slice());
    p.append(&mut mid);
    let mut ext = vstd::slice::slice_to_vec(".csv".as_bytes());
    p.append(&mut ext);
    proof {
        assert(p@ =~= artifact_path_spec(name@));
    }
    p
}

/// Serializes a named artifact: its canonical path and its file bytes.
/// Writing those bytes at that path (replacing any previous file) is the
/// caller's one remaining step.
pub fn save_csv(d: &NamedData) -> (out: (Vec<u8>, Vec<u8>))
    ensures
        out.0@ == artifact_path_spec(d.spec_name()),
        out.1@ == encode_table_spec(d.spec_df().names_view(), d.spec_df().rows_view()),
{
    let path = artifact_path(d.name());
    let bytes = encode_table(d.df());
    (path, bytes)
}

/// Deserializes an artifact read back from storage into a named feature
/// table. An unreadable or mismatched artifact is reported as cache
/// corruption, which the resolver converts into a cold-path rebuild.
pub fn load_csv(bytes: &Vec<u8>, name: Vec<u8>) -> (r: Result<NamedData, PipelineError>)
    ensures
        match r {
            Ok(d) => {
                &&& decode_table_spec(bytes@) == Some(
                    (d.spec_df().names_view(), d.spec_df().rows_view()),
                )
                &&& d.spec_name() == name@
                &&& d.spec_df().wf()
            },
            Err(e) => e == PipelineError::CacheCorruption && decode_table_spec(bytes@) is None,
        },
{
    match decode_table(bytes) {
        Some(t) => Ok(NamedData::new(name, t)),
        None => Err(PipelineError::CacheCorruption),
    }
}

} // verus!
