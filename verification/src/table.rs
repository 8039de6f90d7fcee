//! Rectangular tables of cells, and the named artifacts built from them.

use vstd::prelude::*;

use crate::cells::{Cell, CellValue};

verus! {

/// A rectangular table: one name per column, one cell per name in each row.
#[derive(Debug, PartialEq, Eq)]
pub struct Table {
    pub names: Vec<Vec<u8>>,
    pub rows: Vec<Vec<Cell>>,
}

impl Table {
    /// Every row has exactly one cell per column name.
    pub open spec fn wf(&self) -> bool {
        forall|i: int|
            0 <= i < self.rows@.len() ==> (#[trigger] self.rows@[i])@.len() == self.names@.len()
    }

    /// Column names, as sequences of bytes.
    pub open spec fn names_view(&self) -> Seq<Seq<u8>> {
        self.names.deep_view()
    }

    /// Row contents, as sequences of cell values.
    pub open spec fn rows_view(&self) -> Seq<Seq<CellValue>> {
        self.rows.deep_view()
    }

    /// Two tables are equivalent when they carry the same names and values.
    pub open spec fn equiv(&self, other: &Table) -> bool {
        self.names_view() == other.names_view() && self.rows_view() == other.rows_view()
    }
}

impl Clone for Cell {
    /// Cloning a cell preserves its value.
    fn clone(&self) -> (c: Cell)
        ensures
            c.deep_view() == self.deep_view(),
    {
        match self {
            Cell::Null => Cell::Null,
            Cell::Int(i) => Cell::Int(*i),
            Cell::Real(b) => Cell::Real(*b),
            Cell::Text(t) => Cell::Text(vstd::slice::slice_to_vec(t.as_slice())),
        }
    }
}

/// Clones one row of cells, preserving every value.
pub fn clone_cells(r: &Vec<Cell>) -> (out: Vec<Cell>)
    ensures
        out.deep_view() == r.deep_view(),
{
    let mut out: Vec<Cell> = Vec::new();
    let n = r.len();
    for i in 0..n
        invariant
            n == r@.len(),
            out@.len() == i,
            forall|j: int| 0 <= j < i ==> (#[trigger] out@[j]).deep_view() == r@[j].deep_view(),
    {
        out.push(r[i].clone());
    }
    proof {
        assert(out.deep_view() =~= r.deep_view());
    }
    out
}

impl Clone for Table {
    /// Cloning a table preserves its names and values.
    fn clone(&self) -> (t: Table)
        ensures
            t.names_view() == self.names_view(),
            t.rows_view() == self.rows_view(),
    {
        let mut names: Vec<Vec<u8>> = Vec::new();
        let n = self.names.len();
        for i in 0..n
            invariant
                n == self.names@.len(),
                names@.len() == i,
                forall|j: int| 0 <= j < i ==> (#[trigger] names@[j])@ == self.names@[j]@,
        {
            names.push(vstd::slice::slice_to_vec(self.names[i].as_slice()));
        }
        let mut rows: Vec<Vec<Cell>> = Vec::new();
        let m = self.rows.len();
        for i in 0..m
            invariant
                m == self.rows@.len(),
                rows@.len() == i,
                forall|j: int| 0 <= j < i ==> (#[trigger] rows@[j]).deep_view()
                    == self.rows@[j].deep_view(),
        {
            rows.push(clone_cells(&self.rows[i]));
        }
        let t = Table { names, rows };
        proof {
            assert(t.names_view() =~~= self.names_view());
            assert(t.rows_view() =~= self.rows_view());
        }
        t
    }
}

/// A feature table labelled with the logical dataset name it was built for:
/// the unit passed between cache resolution, persistence, and rendering.
#[derive(Debug, Clone, PartialEq, Eq)]
pub struct NamedData {
    name: Vec<u8>,
    df: Table,
}

impl NamedData {
    pub closed spec fn spec_name(&self) -> Seq<u8> {
        self.name@
    }

    pub closed spec fn spec_df(&self) -> Table {
        self.df
    }

    pub fn new(name: Vec<u8>, df: Table) -> (d: NamedData)
        ensures
            d.spec_name() == name@,
            d.spec_df() == df,
    {
        NamedData { name, df }
    }

    /// The feature table itself.
    pub fn df(&self) -> (t: &Table)
        ensures
            *t == self.spec_df(),
    {
        &self.df
    }

    /// The dataset label.
    pub fn name(&self) -> (n: &Vec<u8>)
        ensures
            n@ == self.spec_name(),
    {
        &self.name
    }
}

} // verus!
