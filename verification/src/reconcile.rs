//! The reconciliation engine: merges a catalog snapshot into the store with
//! insert-missing, prune-stale-by-category and never-prune-electives
//! semantics, all-or-nothing per invocation.

use crate::models::{
    lemma_names_view_index, lemma_names_view_len, lemma_names_view_push, lemma_majors_view_index,
    lemma_majors_view_len, Handbook, HandbookV, MajorV, Unit, validate_handbook,
};
use crate::store::{
    has_row, lemma_rows_view_index, lemma_rows_view_len, lemma_rows_view_push, row_key, rows_view,
    Category, RowV, Store, StoreError, StoreV, UnitRow,
};
use vstd::prelude::*;

verus! {

/// Insert the key once: a present key is left untouched, an absent one is
/// appended.
pub open spec fn upsert_unit(
    units: Seq<RowV>,
    name: Seq<char>,
    major_title: Option<Seq<char>>,
    category: Category,
) -> Seq<RowV> {
    if has_row(units, name, major_title, category) {
        units
    } else {
        units.push(row_key(name, major_title, category))
    }
}

/// Upsert every name of the list, in order, under one scope.
pub open spec fn upsert_units(
    units: Seq<RowV>,
    names: Seq<Seq<char>>,
    major_title: Option<Seq<char>>,
    category: Category,
) -> Seq<RowV>
    decreases names.len(),
{
    if names.len() == 0 {
        units
    } else {
        upsert_unit(
            upsert_units(units, names.drop_last(), major_title, category),
            names.last(),
            major_title,
            category,
        )
    }
}

/// A row survives the pruning of a scope when it lies outside the scope or
/// its name is in the incoming list.
pub open spec fn keep_in_sync(
    row: RowV,
    major_title: Option<Seq<char>>,
    category: Category,
    names: Seq<Seq<char>>,
) -> bool {
    row.in_scope(major_title, category) ==> names.contains(row.name)
}

/// Delete every row of the scope whose name is not in the incoming list.
pub open spec fn prune_units(
    units: Seq<RowV>,
    major_title: Option<Seq<char>>,
    category: Category,
    names: Seq<Seq<char>>,
) -> Seq<RowV> {
    units.filter(|row: RowV| keep_in_sync(row, major_title, category, names))
}

/// Synchronize one (major_title, category) scope with an incoming unit
/// list: upsert every listed name, then prune stale rows — but only when
/// the list is non-empty (an empty list means "no information", never
/// "delete everything") and the category is not elective (electives are
/// additive-only).
pub open spec fn sync_units(
    units: Seq<RowV>,
    major_title: Option<Seq<char>>,
    category: Category,
    names: Seq<Seq<char>>,
) -> Seq<RowV> {
    let upserted = upsert_units(units, names, major_title, category);
    if names.len() > 0 && !(category is Elective) {
        prune_units(upserted, major_title, category, names)
    } else {
        upserted
    }
}

/// Insert the title if it is absent; a present title is left untouched.
pub open spec fn upsert_major(majors: Seq<Seq<char>>, title: Seq<char>) -> Seq<Seq<char>> {
    if majors.contains(title) {
        majors
    } else {
        majors.push(title)
    }
}

/// Merge the snapshot majors, in order: upsert each title, then
/// synchronize that major's unit list under its own scope.
pub open spec fn reconcile_majors(s: StoreV, majors: Seq<MajorV>) -> StoreV
    decreases majors.len(),
{
    if majors.len() == 0 {
        s
    } else {
        let prev = reconcile_majors(s, majors.drop_last());
        let m = majors.last();
        StoreV {
            majors: upsert_major(prev.majors, m.title),
            units: sync_units(prev.units, Some(m.title), Category::Major, m.units),
        }
    }
}

/// One whole reconciliation run as a function on store models: merge the
/// majors and their unit lists, then the core list under the major-free
/// scope, then the elective list (never pruned).
pub open spec fn reconcile(s: StoreV, h: HandbookV) -> StoreV {
    let after_majors = reconcile_majors(s, h.majors);
    let after_cores = StoreV {
        majors: after_majors.majors,
        units: sync_units(after_majors.units, None, Category::Core, h.cores),
    };
    StoreV {
        majors: after_cores.majors,
        units: sync_units(after_cores.units, None, Category::Elective, h.electives),
    }
}

/// The model of an optional text handed around by reference.
pub open spec fn opt_str_view(o: Option<&String>) -> Option<Seq<char>> {
    match o {
        Some(t) => Some(t@),
        None => None,
    }
}

/// Whether a stored row's owning major equals the scope's.
pub(crate) fn title_matches(row_title: &Option<String>, major_title: Option<&String>) -> (r: bool)
    ensures
        r == (match row_title {
            Some(t) => Some(t@),
            None => None::<Seq<char>>,
        } == opt_str_view(major_title)),
{
    match (row_title, major_title) {
        (Some(a), Some(b)) => *a == *b,
        (None, None) => true,
        _ => false,
    }
}

/// Whether the key is already stored.
fn row_exists(
    units: &Vec<UnitRow>,
    name: &String,
    major_title: Option<&String>,
    category: Category,
) -> (r: bool)
    ensures
        r == has_row(rows_view(units@), name@, opt_str_view(major_title), category),
{
    broadcast use lemma_rows_view_len, lemma_rows_view_index;

    let ghost uv = rows_view(units@);
    let mut i: usize = 0;
    while i < units.len()
        invariant
            uv == rows_view(units@),
            i <= units.len(),
            forall|k: int| 0 <= k < i ==> (#[trigger] uv[k]) != row_key(
                name@,
                opt_str_view(major_title),
                category,
            ),
        decreases units.len() - i,
    {
        broadcast use lemma_rows_view_len, lemma_rows_view_index;

        let row = &units[i];
        if row.name == *name && row.category == category
            && title_matches(&row.major_title, major_title) {
            assert(uv[i as int] == row_key(name@, opt_str_view(major_title), category));
            return true;
        }
        i += 1;
    }
    false
}

/// Whether the list holds the name.
pub(crate) fn names_contains(names: &Vec<Unit>, name: &String) -> (r: bool)
    ensures
        r == crate::models::names_view(names@).contains(name@),
{
    broadcast use lemma_names_view_len, lemma_names_view_index;

    let ghost nv = crate::models::names_view(names@);
    let mut i: usize = 0;
    while i < names.len()
        invariant
            nv == crate::models::names_view(names@),
            i <= names.len(),
            forall|k: int| 0 <= k < i ==> (#[trigger] nv[k]) != name@,
        decreases names.len() - i,
    {
        broadcast use lemma_names_view_len, lemma_names_view_index;

        if names[i] == *name {
            assert(nv[i as int] == name@);
            return true;
        }
        i += 1;
    }
    false
}

/// The owning title of a new row in the scope.
fn clone_title(major_title: Option<&String>) -> (r: Option<String>)
    ensures
        (match r {
            Some(t) => Some(t@),
            None => None::<Seq<char>>,
        }) == opt_str_view(major_title),
{
    match major_title {
        Some(t) => Some(t.clone()),
        None => None,
    }
}

/// Rebuilds the row list with the scope's stale rows removed.
fn prune_scope(
    units: &Vec<UnitRow>,
    major_title: Option<&String>,
    category: Category,
    names: &Vec<Unit>,
) -> (r: Vec<UnitRow>)
    ensures
        rows_view(r@) == prune_units(
            rows_view(units@),
            opt_str_view(major_title),
            category,
            crate::models::names_view(names@),
        ),
{
    broadcast use lemma_rows_view_len, lemma_rows_view_index, lemma_rows_view_push;

    let ghost uv = rows_view(units@);
    let ghost nv = crate::models::names_view(names@);
    let ghost mt = opt_str_view(major_title);
    let mut kept: Vec<UnitRow> = Vec::new();
    let mut i: usize = 0;
    proof {
        assert(uv.subrange(0, 0) =~= Seq::<RowV>::empty());
        assert(rows_view(kept@) =~= Seq::<RowV>::empty());
        assert(prune_units(uv.subrange(0, 0), mt, category, nv) =~= Seq::<RowV>::empty()) by {
            reveal(Seq::filter);
        }
    }
    while i < units.len()
        invariant
            uv == rows_view(units@),
            nv == crate::models::names_view(names@),
            mt == opt_str_view(major_title),
            i <= units.len(),
            rows_view(kept@) == prune_units(uv.subrange(0, i as int), mt, category, nv),
        decreases units.len() - i,
    {
        broadcast use lemma_rows_view_len, lemma_rows_view_index, lemma_rows_view_push;

        let row = &units[i];
        let in_scope = row.category == category && title_matches(&row.major_title, major_title);
        let keep = !in_scope || names_contains(names, &row.name);
        proof {
            assert(uv[i as int] == row@);
            assert(keep == keep_in_sync(row@, mt, category, nv));
            assert(uv.subrange(0, i + 1).drop_last() =~= uv.subrange(0, i as int));
            assert(uv.subrange(0, i + 1) =~= uv.subrange(0, i as int).push(uv[i as int]));
            uv.subrange(0, i as int).lemma_filter_push(
                uv[i as int],
                |r: RowV| keep_in_sync(r, mt, category, nv),
            );
        }
        if keep {
            kept.push(row.duplicate());
        }
        i += 1;
    }
    proof {
        assert(uv.subrange(0, units@.len() as int) =~= uv);
    }
    kept
}

/// Synchronize one scope of the store's unit rows with an incoming list,
/// as `sync_units` states: upsert each listed name, then prune the scope's
/// stale rows unless the list is empty or the category is elective.
fn update_units(
    units: &mut Vec<UnitRow>,
    major_title: Option<&String>,
    category: Category,
    names: &Vec<Unit>,
)
    ensures
        rows_view(final(units)@) == sync_units(
            rows_view(old(units)@),
            opt_str_view(major_title),
            category,
            crate::models::names_view(names@),
        ),
{
    broadcast use lemma_rows_view_len, lemma_rows_view_index, lemma_rows_view_push;
    broadcast use lemma_names_view_len, lemma_names_view_index;

    let ghost orig = rows_view(old(units)@);
    let ghost nv = crate::models::names_view(names@);
    let ghost mt = opt_str_view(major_title);
    let mut i: usize = 0;
    proof {
        assert(nv.subrange(0, 0) =~= Seq::<Seq<char>>::empty());
    }
    while i < names.len()
        invariant
            orig == rows_view(old(units)@),
            nv == crate::models::names_view(names@),
            mt == opt_str_view(major_title),
            i <= names.len(),
            rows_view(units@) == upsert_units(orig, nv.subrange(0, i as int), mt, category),
        decreases names.len() - i,
    {
        broadcast use lemma_rows_view_len, lemma_rows_view_index, lemma_rows_view_push;
        broadcast use lemma_names_view_len, lemma_names_view_index;

        let name = &names[i];
        proof {
            assert(nv[i as int] == name@);
            assert(nv.subrange(0, i + 1).drop_last() =~= nv.subrange(0, i as int));
            assert(nv.subrange(0, i + 1).last() == nv[i as int]);
        }
        if !row_exists(units, name, major_title, category) {
            let row = UnitRow {
                name: name.clone(),
                major_title: clone_title(major_title),
                category,
            };
            proof {
                assert(row@ == row_key(name@, mt, category));
            }
            units.push(row);
        }
        i += 1;
    }
    proof {
        assert(nv.subrange(0, names@.len() as int) =~= nv);
    }
    let prune = names.len() > 0 && !(matches!(category, Category::Elective));
    if prune {
        let pruned = prune_scope(units, major_title, category, names);
        *units = pruned;
    }
}

impl Store {
    /// The reconciliation engine: merges the snapshot into the store in one
    /// atomic step. A malformed snapshot (an empty title or unit name, or
    /// two majors sharing a title) is rejected before anything is touched.
    /// On success the store's new model is exactly `reconcile` of its old
    /// model and the snapshot.
    pub fn update_handbook(&mut self, handbook: &Handbook) -> (r: Result<(), StoreError>)
        ensures
            match r {
                Ok(_) => handbook@.valid() && final(self)@ == reconcile(old(self)@, handbook@),
                Err(e) => {
                    &&& !handbook@.valid()
                    &&& e is InvalidSnapshot
                    &&& *final(self) == *old(self)
                },
            },
            old(self)@.wf() ==> final(self)@.wf(),
    {
        broadcast use lemma_majors_view_len, lemma_majors_view_index;
        broadcast use lemma_names_view_len, lemma_names_view_index, lemma_names_view_push;

        if !validate_handbook(handbook) {
            return Err(StoreError::InvalidSnapshot);
        }
        let ghost orig = self@;
        let ghost hv = handbook@;
        let mut i: usize = 0;
        proof {
            assert(hv.majors.subrange(0, 0) =~= Seq::<MajorV>::empty());
            assert(reconcile_majors(orig, hv.majors.subrange(0, 0)) == orig);
        }
        while i < handbook.majors.len()
            invariant
                orig == old(self)@,
                hv == handbook@,
                i <= handbook.majors.len(),
                self@ == reconcile_majors(orig, hv.majors.subrange(0, i as int)),
            decreases handbook.majors.len() - i,
        {
            broadcast use lemma_majors_view_len, lemma_majors_view_index;
            broadcast use lemma_names_view_len, lemma_names_view_index, lemma_names_view_push;

            let ghost prev = self@;
            let major = &handbook.majors[i];
            proof {
                assert(hv.majors[i as int] == major@);
            }
            if !names_contains(&self.majors, &major.title) {
                self.majors.push(major.title.clone());
            }
            proof {
                assert(crate::models::names_view(self.majors@) == upsert_major(
                    prev.majors,
                    major@.title,
                ));
            }
            update_units(&mut self.units, Some(&major.title), Category::Major, &major.units);
            proof {
                assert(hv.majors.subrange(0, i + 1).drop_last() =~= hv.majors.subrange(
                    0,
                    i as int,
                ));
                assert(hv.majors.subrange(0, i + 1).last() == hv.majors[i as int]);
                assert(self@ == reconcile_majors(orig, hv.majors.subrange(0, i + 1)));
            }
            i += 1;
        }
        proof {
            assert(hv.majors.subrange(0, handbook.majors@.len() as int) =~= hv.majors);
        }
        update_units(&mut self.units, None, Category::Core, &handbook.cores);
        update_units(&mut self.units, None, Category::Elective, &handbook.electives);
        proof {
            assert(self@ == reconcile(orig, hv));
            if orig.wf() {
                crate::laws::lemma_reconcile_wf(orig, hv);
            }
        }
        Ok(())
    }
}

} // verus!
