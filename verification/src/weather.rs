//! The shared hourly weather observation table.
//!
//! Loaded once per run from a delimited text source, then shared read-only
//! by every per-dataset join. The `time` column of the source is normalized
//! into a nanosecond-resolution key (`time_ns`); the measurement columns are
//! carried through opaquely and interpreted only by the rendering stage.

use vstd::prelude::*;
use vstd::string::StringSliceAdditionalSpecFns;

use crate::cells::{Cell, CellValue};
use crate::codec::{lemma_split_len, split_bytes, split_fold};
use crate::errors::PipelineError;
use crate::time::{civil_ns, days_in_month, days_in_month_x, ns_of_civil};

verus! {

/// The weather observation table: one key and one row of measurement cells
/// per observation, one name per measurement column.
#[derive(Debug, Clone, PartialEq, Eq)]
pub struct WeatherTable {
    /// Names of the measurement columns (the `time` column is not among
    /// them; it lives on only as `time_ns`).
    pub names: Vec<Vec<u8>>,
    /// Nanosecond join key of each observation row.
    pub time_ns: Vec<i64>,
    /// Measurement cells of each observation row, one per name.
    pub rows: Vec<Vec<Cell>>,
}

impl WeatherTable {
    /// One key per row, and every row has one cell per measurement column.
    pub open spec fn wf(&self) -> bool {
        &&& self.time_ns@.len() == self.rows@.len()
        &&& forall|i: int|
            0 <= i < self.rows@.len() ==> (#[trigger] self.rows@[i])@.len() == self.names@.len()
    }

    /// Measurement column names, as sequences of bytes.
    pub open spec fn names_view(&self) -> Seq<Seq<u8>> {
        self.names.deep_view()
    }

    /// Measurement cells, as sequences of cell values.
    pub open spec fn rows_view(&self) -> Seq<Seq<CellValue>> {
        self.rows.deep_view()
    }
}

// ---------------------------------------------------------------------------
// Timestamp parsing
// ---------------------------------------------------------------------------
/// An ASCII decimal digit.
pub open spec fn is_digit(b: u8) -> bool {
    48 <= b <= 57
}

/// The value of an ASCII decimal digit.
pub open spec fn dval(b: u8) -> int {
    b - 48
}

/// The shape of a supported timestamp: `YYYY-MM-DD HH:MM` or
/// `YYYY-MM-DDTHH:MM`, with an optional `:SS`.
pub open spec fn ts_shape_ok(s: Seq<u8>) -> bool {
    &&& (s.len() == 16 || s.len() == 19)
    &&& is_digit(s[0]) && is_digit(s[1]) && is_digit(s[2]) && is_digit(s[3])
    &&& s[4] == 45 && s[7] == 45
    &&& is_digit(s[5]) && is_digit(s[6]) && is_digit(s[8]) && is_digit(s[9])
    &&& (s[10] == 84 || s[10] == 32)
    &&& is_digit(s[11]) && is_digit(s[12]) && s[13] == 58 && is_digit(s[14]) && is_digit(s[15])
    &&& (s.len() == 19 ==> s[16] == 58 && is_digit(s[17]) && is_digit(s[18]))
}

pub open spec fn ts_year(s: Seq<u8>) -> int {
    dval(s[0]) * 1000 + dval(s[1]) * 100 + dval(s[2]) * 10 + dval(s[3])
}

pub open spec fn ts_month(s: Seq<u8>) -> int {
    dval(s[5]) * 10 + dval(s[6])
}

pub open spec fn ts_day(s: Seq<u8>) -> int {
    dval(s[8]) * 10 + dval(s[9])
}

pub open spec fn ts_hour(s: Seq<u8>) -> int {
    dval(s[11]) * 10 + dval(s[12])
}

pub open spec fn ts_minute(s: Seq<u8>) -> int {
    dval(s[14]) * 10 + dval(s[15])
}

pub open spec fn ts_second(s: Seq<u8>) -> int {
    if s.len() == 19 {
        dval(s[17]) * 10 + dval(s[18])
    } else {
        0
    }
}

/// The nanosecond instant denoted by a timestamp field, if it is well
/// formed and lies in the supported civil range (1970 through 2200).
pub open spec fn parse_ts_spec(s: Seq<u8>) -> Option<i64> {
    if !ts_shape_ok(s) {
        None
    } else {
        let y = ts_year(s);
        let m = ts_month(s);
        let d = ts_day(s);
        let h = ts_hour(s);
        let mi = ts_minute(s);
        let sec = ts_second(s);
        if 1970 <= y <= 2200 && 1 <= m <= 12 && 1 <= d <= days_in_month(y, m) && h < 24 && mi
            < 60 && sec < 60 {
            Some(civil_ns(y, m, d, h, mi, sec) as i64)
        } else {
            None
        }
    }
}

/// Parses one timestamp field, failing exactly where the spec does.
pub fn parse_ts(f: &Vec<u8>) -> (r: Option<i64>)
    ensures
        r == parse_ts_spec(f@),
{
    let n = f.len();
    if n != 16 && n != 19 {
        return None;
    }
    let shape = (48 <= f[0] && f[0] <= 57) && (48 <= f[1] && f[1] <= 57) && (48 <= f[2] && f[2]
        <= 57) && (48 <= f[3] && f[3] <= 57) && f[4] == 45 && (48 <= f[5] && f[5] <= 57) && (48
        <= f[6] && f[6] <= 57) && f[7] == 45 && (48 <= f[8] && f[8] <= 57) && (48 <= f[9] && f[9]
        <= 57) && (f[10] == 84 || f[10] == 32) && (48 <= f[11] && f[11] <= 57) && (48 <= f[12]
        && f[12] <= 57) && f[13] == 58 && (48 <= f[14] && f[14] <= 57) && (48 <= f[15] && f[15]
        <= 57);
    let shape = if n == 19 {
        shape && f[16] == 58 && (48 <= f[17] && f[17] <= 57) && (48 <= f[18] && f[18] <= 57)
    } else {
        shape
    };
    if !shape {
        proof {
            assert(!ts_shape_ok(f@));
        }
        return None;
    }
    let y: u32 = (f[0] - 48) as u32 * 1000 + (f[1] - 48) as u32 * 100 + (f[2] - 48) as u32 * 10
        + (f[3] - 48) as u32;
    let m: u32 = (f[5] - 48) as u32 * 10 + (f[6] - 48) as u32;
    let d: u32 = (f[8] - 48) as u32 * 10 + (f[9] - 48) as u32;
    let h: u32 = (f[11] - 48) as u32 * 10 + (f[12] - 48) as u32;
    let mi: u32 = (f[14] - 48) as u32 * 10 + (f[15] - 48) as u32;
    let sec: u32 = if n == 19 {
        (f[17] - 48) as u32 * 10 + (f[18] - 48) as u32
    } else {
        0
    };
    if y < 1970 || y > 2200 || m < 1 || m > 12 || d < 1 || d > days_in_month_x(y, m) || h > 23
        || mi > 59 || sec > 59 {
        return None;
    }
    Some(ns_of_civil(y, m, d, h, mi, sec))
}

// ---------------------------------------------------------------------------
// Reading the delimited weather source
// ---------------------------------------------------------------------------
/// A line with any trailing carriage return removed.
pub open spec fn strip_cr(line: Seq<u8>) -> Seq<u8> {
    if line.len() > 0 && line.last() == 13 {
        line.drop_last()
    } else {
        line
    }
}

/// The cell a measurement field denotes: null when empty, otherwise its
/// raw text.
pub open spec fn cell_of(f: Seq<u8>) -> CellValue {
    if f.len() == 0 {
        CellValue::Null
    } else {
        CellValue::Text(f)
    }
}

/// The cells of a field list, in order.
pub open spec fn cells_of(fs: Seq<Seq<u8>>) -> Seq<CellValue>
    decreases fs.len(),
{
    if fs.len() == 0 {
        Seq::empty()
    } else {
        cells_of(fs.drop_last()).push(cell_of(fs.last()))
    }
}

/// The first position of the `time` column among the header fields.
pub open spec fn find_time_idx(fs: Seq<Seq<u8>>) -> Option<int>
    decreases fs.len(),
{
    if fs.len() == 0 {
        None
    } else if fs[0] == "time".spec_bytes() {
        Some(0)
    } else {
        match find_time_idx(fs.skip(1)) {
            Some(j) => Some(j + 1),
            None => None,
        }
    }
}

/// One data line is malformed: non-empty, yet with the wrong field count
/// or an unparseable timestamp.
pub open spec fn row_fails(line: Seq<u8>, hn: int, ti: int) -> bool {
    let l = strip_cr(line);
    l.len() != 0 && {
        let fs = split_fold(l, 44);
        fs.len() != hn || parse_ts_spec(fs[ti]) is None
    }
}

/// The keys and rows of the data lines: empty lines are skipped, and every
/// other line must carry exactly the header's field count and a parseable
/// timestamp in the `time` column.
pub open spec fn parse_rows_w(lines: Seq<Seq<u8>>, hn: int, ti: int) -> Option<
    (Seq<i64>, Seq<Seq<CellValue>>),
>
    decreases lines.len(),
{
    if lines.len() == 0 {
        Some((Seq::empty(), Seq::empty()))
    } else {
        match parse_rows_w(lines.drop_last(), hn, ti) {
            Some(tr) => {
                let l = strip_cr(lines.last());
                if l.len() == 0 {
                    Some(tr)
                } else {
                    let fs = split_fold(l, 44);
                    if fs.len() != hn {
                        None
                    } else {
                        match parse_ts_spec(fs[ti]) {
                            Some(t) => Some(
                                (
                                    tr.0.push(t),
                                    tr.1.push(cells_of(fs.take(ti) + fs.skip(ti + 1))),
                                ),
                            ),
                            None => None,
                        }
                    }
                }
            },
            None => None,
        }
    }
}

/// A malformed line fails the whole read.
pub proof fn lemma_parse_rows_none(lines: Seq<Seq<u8>>, i: int, hn: int, ti: int)
    requires
        0 <= i < lines.len(),
        row_fails(lines[i], hn, ti),
    ensures
        parse_rows_w(lines, hn, ti) is None,
    decreases lines.len(),
{
    if i < lines.len() - 1 {
        lemma_parse_rows_none(lines.drop_last(), i, hn, ti);
    }
}

/// The weather table denoted by a delimited source, when it is well
/// formed: the measurement names (the `time` column removed), the
/// nanosecond key of every observation, and the measurement cells.
pub open spec fn parse_weather_spec(s: Seq<u8>) -> Option<
    (Seq<Seq<u8>>, Seq<i64>, Seq<Seq<CellValue>>),
> {
    let lines = split_fold(s, 10);
    let hf = split_fold(strip_cr(lines[0]), 44);
    match find_time_idx(hf) {
        Some(ti) => match parse_rows_w(lines.skip(1), hf.len() as int, ti) {
            Some(tr) => Some((hf.take(ti) + hf.skip(ti + 1), tr.0, tr.1)),
            None => None,
        },
        None => None,
    }
}

/// Compares a byte vector against a byte slice.
fn bytes_eq(a: &Vec<u8>, b: &[u8]) -> (r: bool)
    ensures
        r == (a@ == b@),
{
    let n = a.len();
    if n != b.len() {
        return false;
    }
    for i in 0..n
        invariant
            n == a@.len(),
            n == b@.len(),
            forall|j: int| 0 <= j < i ==> a@[j] == b@[j],
    {
        if a[i] != *vstd::slice::slice_index_get(b, i) {
            return false;
        }
    }
    proof {
        assert(a@ =~= b@);
    }
    true
}

/// Removes a trailing carriage return.
fn strip_cr_x(line: &mut Vec<u8>)
    ensures
        final(line)@ == strip_cr(old(line)@),
{
    let n = line.len();
    if n > 0 && line[n - 1] == 13 {
        let popped = line.pop();
        proof {
            assert(line@ =~= strip_cr(old(line)@));
        }
    }
}

/// Loads the shared weather table from delimited source bytes: schema from
/// the header, the `time` column normalized into the nanosecond key, every
/// measurement column carried through. Fails with a parse error when the
/// `time` column is absent, a data line has the wrong field count, or a
/// timestamp cannot be read; fatal for the whole run.
pub fn scan_csv(bytes: &Vec<u8>) -> (r: Result<WeatherTable, PipelineError>)
    ensures
        match r {
            Ok(w) => {
                &&& parse_weather_spec(bytes@) == Some(
                    (w.names_view(), w.time_ns@, w.rows_view()),
                )
                &&& w.wf()
            },
            Err(e) => e == PipelineError::Parse && parse_weather_spec(bytes@) is None,
        },
{
    let parts = split_bytes(bytes, 10);
    proof {
        lemma_split_len(bytes@, 10);
        assert(parts.deep_view().len() == parts@.len());
        assert(parts@[0]@ =~= parts.deep_view()[0]);
    }
    let np = parts.len();
    let ghost lines_v = split_fold(bytes@, 10);
    let mut header = vstd::slice::slice_to_vec(parts[0].as_slice());
    strip_cr_x(&mut header);
    proof {
        assert(header@ == strip_cr(lines_v[0]));
    }
    let hf = split_bytes(&header, 44);
    let ghost hf_v = split_fold(strip_cr(lines_v[0]), 44);
    proof {
        lemma_split_len(header@, 44);
        assert(hf.deep_view() == hf_v);
        assert(hf.deep_view().len() == hf@.len());
    }
    let hn = hf.len();
    let mut i: usize = 0;
    let mut ti: usize = 0;
    let mut found: bool = false;
    proof {
        assert(hf_v.skip(0) =~= hf_v);
    }
    while i < hn
        invariant_except_break
            hn == hf@.len(),
            hf.deep_view() == hf_v,
            i <= hn,
            !found,
            match find_time_idx(hf_v.skip(i as int)) {
                Some(j) => find_time_idx(hf_v) == Some(i + j),
                None => find_time_idx(hf_v) is None,
            },
        ensures
            found ==> ti < hn && find_time_idx(hf_v) == Some(ti as int),
            !found ==> find_time_idx(hf_v) is None,
        decreases hn - i,
    {
        proof {
            assert(hf@[i as int]@ =~= hf_v[i as int]);
            assert(hf_v.skip(i as int)[0] == hf_v[i as int]);
            assert(hf_v.skip(i as int).skip(1) =~= hf_v.skip(i + 1));
        }
        if bytes_eq(&hf[i], "time".as_bytes()) {
            ti = i;
            found = true;
            proof {
                assert(hf_v[i as int] == "time".spec_bytes());
                assert(find_time_idx(hf_v.skip(i as int)) == Some(0int));
            }
            break;
        }
        i = i + 1;
    }
    if !found {
        proof {
            assert(parse_weather_spec(bytes@) is None);
        }
        return Err(PipelineError::Parse);
    }
    let mut names: Vec<Vec<u8>> = Vec::new();
    let ghost sel_names = hf_v.take(ti as int) + hf_v.skip(ti as int + 1);
    for k in 0..hn
        invariant
            hn == hf@.len(),
            hf.deep_view() == hf_v,
            ti < hn,
            sel_names == hf_v.take(ti as int) + hf_v.skip(ti as int + 1),
            names@.len() == if k <= ti {
                k as int
            } else {
                k - 1
            },
            names.deep_view() == sel_names.take(
                if k <= ti {
                    k as int
                } else {
                    k - 1
                },
            ),
    {
        if k != ti {
            proof {
                let pos: int = if k < ti {
                    k as int
                } else {
                    k - 1
                };
                assert(sel_names[pos] == hf_v[k as int]);
                assert(sel_names.take(pos + 1).drop_last() =~= sel_names.take(pos));
                assert(sel_names.take(pos + 1).last() == sel_names[pos]);
                assert(hf@[k as int]@ =~= hf_v[k as int]);
            }
            names.push(vstd::slice::slice_to_vec(hf[k].as_slice()));
            proof {
                let pos: int = if k < ti {
                    k as int
                } else {
                    k - 1
                };
                assert(names.deep_view() =~~= sel_names.take(pos + 1));
            }
        }
    }
    proof {
        assert(sel_names.take(sel_names.len() as int) =~= sel_names);
        assert(names.deep_view() == sel_names);
    }
    let mut time_ns: Vec<i64> = Vec::new();
    let mut rows: Vec<Vec<Cell>> = Vec::new();
    let ghost rtail = lines_v.skip(1);
    let mut li: usize = 1;
    while li < np
        invariant
            2 <= np || np == parts@.len(),
            np == parts@.len(),
            parts.deep_view() == lines_v,
            lines_v == split_fold(bytes@, 10),
            rtail == lines_v.skip(1),
            hf_v == split_fold(strip_cr(lines_v[0]), 44),
            hn == hf_v.len(),
            ti < hn,
            find_time_idx(hf_v) == Some(ti as int),
            sel_names == hf_v.take(ti as int) + hf_v.skip(ti as int + 1),
            names.deep_view() == sel_names,
            names@.len() == hn - 1,
            1 <= li <= np,
            time_ns@.len() == rows@.len(),
            forall|q: int| 0 <= q < rows@.len() ==> (#[trigger] rows@[q])@.len() == hn - 1,
            parse_rows_w(rtail.take(li - 1), hn as int, ti as int) == Some(
                (time_ns@, rows.deep_view()),
            ),
        decreases np - li,
    {
        proof {
            assert(parts@[li as int]@ =~= parts.deep_view()[li as int]);
            assert(rtail.take(li - 1 + 1).drop_last() =~= rtail.take(li - 1));
            assert(rtail.take(li - 1 + 1).last() == rtail[li - 1]);
            assert(rtail[li - 1] == lines_v[li as int]);
        }
        let ghost rline = lines_v[li as int];
        let mut line = vstd::slice::slice_to_vec(parts[li].as_slice());
        strip_cr_x(&mut line);
        proof {
            assert(line@ == strip_cr(rline));
        }
        if line.len() != 0 {
            let fs = split_bytes(&line, 44);
            let ghost fs_v = split_fold(strip_cr(rline), 44);
            proof {
                lemma_split_len(line@, 44);
                assert(fs.deep_view() == fs_v);
                assert(fs.deep_view().len() == fs@.len());
            }
            if fs.len() != hn {
                proof {
                    assert(row_fails(rline, hn as int, ti as int));
                    lemma_parse_rows_none(rtail, li - 1, hn as int, ti as int);
                    assert(rtail.len() == np - 1);
                    assert(parse_weather_spec(bytes@) is None);
                }
                return Err(PipelineError::Parse);
            }
            proof {
                assert(fs@[ti as int]@ =~= fs_v[ti as int]);
            }
            let ts = match parse_ts(&fs[ti]) {
                Some(t) => t,
                None => {
                    proof {
                        assert(row_fails(rline, hn as int, ti as int));
                        lemma_parse_rows_none(rtail, li - 1, hn as int, ti as int);
                        assert(parse_weather_spec(bytes@) is None);
                    }
                    return Err(PipelineError::Parse);
                },
            };
            let mut cells: Vec<Cell> = Vec::new();
            let ghost sel = fs_v.take(ti as int) + fs_v.skip(ti as int + 1);
            for k in 0..hn
                invariant
                    hn == fs@.len(),
                    fs.deep_view() == fs_v,
                    ti < hn,
                    hn == fs_v.len(),
                    sel == fs_v.take(ti as int) + fs_v.skip(ti as int + 1),
                    cells@.len() == if k <= ti {
                        k as int
                    } else {
                        k - 1
                    },
                    cells.deep_view() == cells_of(
                        sel.take(
                            if k <= ti {
                                k as int
                            } else {
                                k - 1
                            },
                        ),
                    ),
            {
                if k != ti {
                    proof {
                        let pos: int = if k < ti {
                            k as int
                        } else {
                            k - 1
                        };
                        assert(sel[pos] == fs_v[k as int]);
                        assert(sel.take(pos + 1).drop_last() =~= sel.take(pos));
                        assert(sel.take(pos + 1).last() == sel[pos]);
                        assert(fs@[k as int]@ =~= fs_v[k as int]);
                    }
                    let cell = if fs[k].len() == 0 {
                        Cell::Null
                    } else {
                        Cell::Text(vstd::slice::slice_to_vec(fs[k].as_slice()))
                    };
                    proof {
                        let pos: int = if k < ti {
                            k as int
                        } else {
                            k - 1
                        };
                        assert(cell.deep_view() == cell_of(sel[pos]));
                    }
                    cells.push(cell);
                    proof {
                        let pos: int = if k < ti {
                            k as int
                        } else {
                            k - 1
                        };
                        assert(cells.deep_view() =~= cells_of(sel.take(pos + 1)));
                    }
                }
            }
            proof {
                assert(sel.take(sel.len() as int) =~= sel);
                assert(cells.deep_view() == cells_of(sel));
                assert(cells@.len() == hn - 1);
            }
            time_ns.push(ts);
            rows.push(cells);
            proof {
                assert(parse_rows_w(rtail.take(li as int), hn as int, ti as int) matches Some(
                    tr,
                ) && tr.0 =~= time_ns@ && tr.1 =~~= rows.deep_view());
            }
        } else {
            proof {
                assert(parse_rows_w(rtail.take(li as int), hn as int, ti as int) == Some(
                    (time_ns@, rows.deep_view()),
                ));
            }
        }
        li = li + 1;
    }
    proof {
        assert(rtail.take(np - 1) =~= rtail);
    }
    let w = WeatherTable { names, time_ns, rows };
    proof {
        assert(w.wf());
        assert(parse_weather_spec(bytes@) == Some((w.names_view(), w.time_ns@, w.rows_view())));
    }
    Ok(w)
}

} // verus!
