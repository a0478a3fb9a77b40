//! The store's data model: unit categories, unit rows, and the store state
//! itself, with its well-formedness invariant.

use crate::models::names_view;
use vstd::prelude::*;

verus! {

/// Why a unit belongs in the catalog: a major requirement, a course-wide
/// core requirement, or an elective.
#[derive(Clone, Copy, Debug, PartialEq, Eq, Structural)]
pub enum Category {
    Major,
    Core,
    Elective,
}

/// One stored unit row: the composite key (name, major_title, category)
/// identifies it. `major_title` is `None` exactly for major-independent
/// units (core and elective).
#[derive(Debug)]
pub struct UnitRow {
    pub name: String,
    pub major_title: Option<String>,
    pub category: Category,
}

/// Mathematical model of a unit row.
pub ghost struct RowV {
    pub name: Seq<char>,
    pub major_title: Option<Seq<char>>,
    pub category: Category,
}

impl View for UnitRow {
    type V = RowV;

    open spec fn view(&self) -> RowV {
        RowV {
            name: self.name@,
            major_title: match self.major_title {
                Some(t) => Some(t@),
                None => None,
            },
            category: self.category,
        }
    }
}

/// The model of a sequence of stored rows.
pub open spec fn rows_view(rows: Seq<UnitRow>) -> Seq<RowV> {
    rows.map_values(|r: UnitRow| r@)
}

pub broadcast proof fn lemma_rows_view_len(rows: Seq<UnitRow>)
    ensures
        (#[trigger] rows_view(rows)).len() == rows.len(),
{
}

pub broadcast proof fn lemma_rows_view_index(rows: Seq<UnitRow>, k: int)
    requires
        0 <= k < rows.len(),
    ensures
        #[trigger] rows_view(rows)[k] == rows[k]@,
{
}

pub broadcast proof fn lemma_rows_view_push(rows: Seq<UnitRow>, r: UnitRow)
    ensures
        #[trigger] rows_view(rows.push(r)) == rows_view(rows).push(r@),
{
    assert(rows_view(rows.push(r)) =~= rows_view(rows).push(r@));
}

impl RowV {
    /// A row's scope is the (major_title, category) pair that bounds which
    /// rows one reconciliation step may touch.
    pub open spec fn in_scope(self, major_title: Option<Seq<char>>, category: Category) -> bool {
        self.major_title == major_title && self.category == category
    }

    /// Major-specific rows carry their owning major; major-independent
    /// rows carry none.
    pub open spec fn scope_wf(self) -> bool {
        (self.category is Major) == (self.major_title is Some)
    }
}

impl UnitRow {
    /// An identical copy of the row.
    pub fn duplicate(&self) -> (r: UnitRow)
        ensures
            r@ == self@,
    {
        UnitRow {
            name: self.name.clone(),
            major_title: match &self.major_title {
                Some(t) => Some(t.clone()),
                None => None,
            },
            category: self.category,
        }
    }
}

/// What can go wrong inside the store's own logic: a malformed snapshot,
/// rejected before anything executes, or a failed serialization of a query
/// result.
#[derive(Debug)]
pub enum StoreError {
    InvalidSnapshot,
    Serialization(String),
}

impl StoreError {
    /// A short description of the error.
    pub fn message(&self) -> (r: &'static str)
        ensures
            self is InvalidSnapshot <==> r@ == "invalid snapshot"@,
            self is Serialization <==> r@ == "serialization error"@,
    {
        proof {
            reveal_strlit("invalid snapshot");
            reveal_strlit("serialization error");
            assert("invalid snapshot"@.len() == 16);
            assert("serialization error"@.len() == 19);
        }
        match self {
            StoreError::InvalidSnapshot => "invalid snapshot",
            StoreError::Serialization(_) => "serialization error",
        }
    }
}

/// The store: the majors relation and the units relation.
#[derive(Debug)]
pub struct Store {
    pub majors: Vec<String>,
    pub units: Vec<UnitRow>,
}

/// Mathematical model of the whole store.
pub ghost struct StoreV {
    pub majors: Seq<Seq<char>>,
    pub units: Seq<RowV>,
}

impl View for Store {
    type V = StoreV;

    open spec fn view(&self) -> StoreV {
        StoreV { majors: names_view(self.majors@), units: rows_view(self.units@) }
    }
}

/// Two rows collide when they agree on the whole composite key. A row
/// model carries nothing but its key, so this is plain equality.
pub open spec fn same_key(a: RowV, b: RowV) -> bool {
    a == b
}

/// The row model with the given composite key.
pub open spec fn row_key(
    name: Seq<char>,
    major_title: Option<Seq<char>>,
    category: Category,
) -> RowV {
    RowV { name, major_title, category }
}

/// The given key is present among the rows.
pub open spec fn has_row(
    units: Seq<RowV>,
    name: Seq<char>,
    major_title: Option<Seq<char>>,
    category: Category,
) -> bool {
    units.contains(row_key(name, major_title, category))
}

/// Well-formedness of the majors relation: titles are non-empty and
/// pairwise distinct.
pub open spec fn majors_wf(majors: Seq<Seq<char>>) -> bool {
    &&& forall|i: int| 0 <= i < majors.len() ==> (#[trigger] majors[i]).len() > 0
    &&& forall|i: int, j: int|
        0 <= i < j < majors.len() ==> (#[trigger] majors[i]) != (#[trigger] majors[j])
}

/// Well-formedness of the units relation against a majors relation: unit
/// names are non-empty, composite keys are pairwise distinct, each row's
/// major reference resolves to a stored major, and only major-category
/// rows carry one.
pub open spec fn units_wf(units: Seq<RowV>, majors: Seq<Seq<char>>) -> bool {
    &&& forall|i: int| 0 <= i < units.len() ==> (#[trigger] units[i]).name.len() > 0
    &&& forall|i: int, j: int|
        0 <= i < j < units.len() ==> !same_key(#[trigger] units[i], #[trigger] units[j])
    &&& forall|i: int| 0 <= i < units.len() ==> (#[trigger] units[i]).scope_wf()
    &&& forall|i: int|
        0 <= i < units.len() && (#[trigger] units[i]).major_title is Some ==> majors.contains(
            units[i].major_title->0,
        )
}

impl StoreV {
    /// Well-formedness of the whole store: both relations are well formed,
    /// the units against the majors.
    pub open spec fn wf(self) -> bool {
        majors_wf(self.majors) && units_wf(self.units, self.majors)
    }
}

impl Store {
    /// An empty store: what a fresh schema holds.
    pub fn new() -> (s: Store)
        ensures
            s@.majors == Seq::<Seq<char>>::empty(),
            s@.units == Seq::<RowV>::empty(),
            s@.wf(),
    {
        let s = Store { majors: Vec::new(), units: Vec::new() };
        proof {
            assert(s@.majors =~= Seq::<Seq<char>>::empty());
            assert(s@.units =~= Seq::<RowV>::empty());
        }
        s
    }
}

} // verus!
