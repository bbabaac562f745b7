//! File schemas: ordered column-name/column-type pairs.
//!
//! Column order is kept, since it matters for display and two schemas are
//! grouped together only when their column sequences agree position by
//! position (structural, order-sensitive equality). Membership checks for a
//! single column are order-independent.

use vstd::prelude::*;

verus! {

/// Mathematical model of a column: its name and its type name.
#[verifier::ext_equal]
pub ghost struct ColumnModel {
    pub name: Seq<char>,
    pub dtype: Seq<char>,
}

/// One column of a file schema: a name and a type name.
pub struct Column {
    pub name: String,
    pub dtype: String,
}

impl View for Column {
    type V = ColumnModel;

    open spec fn view(&self) -> ColumnModel {
        ColumnModel { name: self.name@, dtype: self.dtype@ }
    }
}

impl DeepView for Column {
    type V = ColumnModel;

    open spec fn deep_view(&self) -> ColumnModel {
        self.view()
    }
}

impl Clone for Column {
    fn clone(&self) -> (res: Self)
        ensures
            res@ == self@,
    {
        Column { name: self.name.clone(), dtype: self.dtype.clone() }
    }
}

/// The schema of one file: its columns in declaration order.
pub struct FileSchema {
    pub columns: Vec<Column>,
}

impl View for FileSchema {
    type V = Seq<ColumnModel>;

    open spec fn view(&self) -> Seq<ColumnModel> {
        self.columns.deep_view()
    }
}

impl DeepView for FileSchema {
    type V = Seq<ColumnModel>;

    open spec fn deep_view(&self) -> Seq<ColumnModel> {
        self.view()
    }
}

impl Clone for FileSchema {
    fn clone(&self) -> (res: Self)
        ensures
            res@ == self@,
    {
        let mut columns: Vec<Column> = Vec::new();
        let mut i: usize = 0;
        while i < self.columns.len()
            invariant
                i <= self.columns.len(),
                columns.len() == i,
                forall|k: int| 0 <= k < i ==> columns@[k]@ == self.columns@[k]@,
            decreases self.columns.len() - i,
        {
            columns.push(self.columns[i].clone());
            i = i + 1;
        }
        let res = FileSchema { columns };
        proof {
            assert(res@ =~= self@);
        }
        res
    }
}

/// Whether two columns agree in name and type.
pub fn column_eq(a: &Column, b: &Column) -> (r: bool)
    ensures
        r == (a@ == b@),
{
    let r = a.name == b.name && a.dtype == b.dtype;
    proof {
        if r {
            assert(a@ =~= b@);
        }
    }
    r
}

/// Whether two schemas are structurally equal: same columns, same names and
/// types, in the same order.
pub fn schema_eq(a: &FileSchema, b: &FileSchema) -> (r: bool)
    ensures
        r == (a@ == b@),
{
    if a.columns.len() != b.columns.len() {
        proof {
            assert(a@.len() != b@.len());
        }
        return false;
    }
    let mut i: usize = 0;
    while i < a.columns.len()
        invariant
            i <= a.columns.len(),
            a.columns.len() == b.columns.len(),
            forall|k: int| 0 <= k < i ==> a.columns@[k]@ == b.columns@[k]@,
        decreases a.columns.len() - i,
    {
        if !column_eq(&a.columns[i], &b.columns[i]) {
            proof {
                assert(a@[i as int] != b@[i as int]);
            }
            return false;
        }
        i = i + 1;
    }
    proof {
        assert(a@ =~= b@);
    }
    true
}

/// Whether the schema holds a column of the given name, at any position and
/// of any type.
pub open spec fn schema_has_column(s: Seq<ColumnModel>, name: Seq<char>) -> bool {
    exists|j: int| 0 <= j < s.len() && s[j].name == name
}

/// Whether this schema contains a column of the given name.
pub fn contains_column(schema: &FileSchema, name: &String) -> (r: bool)
    ensures
        r == schema_has_column(schema@, name@),
{
    let mut j: usize = 0;
    while j < schema.columns.len()
        invariant
            j <= schema.columns.len(),
            forall|k: int| 0 <= k < j ==> schema@[k].name != name@,
        decreases schema.columns.len() - j,
    {
        if schema.columns[j].name == *name {
            proof {
                assert(schema@[j as int].name == name@);
            }
            return true;
        }
        j = j + 1;
    }
    false
}

} // verus!
