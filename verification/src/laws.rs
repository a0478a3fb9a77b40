//! The reconciliation engine's guarantees, stated and proved over the
//! store model: idempotence, exact pruning, elective monotonicity, the
//! empty-list fail-safe, preservation of well-formedness, and the
//! agreement of the SQL statement plan with the in-memory engine.

use crate::models::HandbookV;
use crate::reconcile::{
    keep_in_sync, prune_units, reconcile, reconcile_majors, sync_units, upsert_major, upsert_unit,
    upsert_units,
};
use crate::sql::{
    category_name, delete_stale_stmt, delete_stale_text, insert_major_stmt, insert_major_text,
    insert_unit_stmt, insert_unit_text, major_stmts, majors_stmts, plan_spec, sync_stmts, StmtV,
};
use crate::store::{has_row, majors_wf, row_key, same_key, units_wf, Category, RowV, StoreV};
use vstd::prelude::*;
use vstd::seq_lib::lemma_seq_contains_after_push;

verus! {

/// A sequence equals itself with the last element split off.
proof fn lemma_unsnoc<A>(s: Seq<A>)
    requires
        s.len() > 0,
    ensures
        s == s.drop_last().push(s.last()),
{
    assert(s =~= s.drop_last().push(s.last()));
}

/// Membership in a filtered sequence is membership plus the predicate.
proof fn lemma_filter_contains_iff<A>(s: Seq<A>, pred: spec_fn(A) -> bool, x: A)
    ensures
        s.filter(pred).contains(x) <==> (s.contains(x) && pred(x)),
    decreases s.len(),
{
    broadcast use lemma_seq_contains_after_push;
    broadcast use Seq::lemma_filter_push;

    if s.len() == 0 {
        reveal(Seq::filter);
        assert(!s.contains(x));
        assert(!s.filter(pred).contains(x));
    } else {
        lemma_filter_contains_iff(s.drop_last(), pred, x);
        lemma_unsnoc(s);
    }
}

/// A filter that keeps every element returns the sequence unchanged.
proof fn lemma_filter_all_true<A>(s: Seq<A>, pred: spec_fn(A) -> bool)
    requires
        forall|i: int| 0 <= i < s.len() ==> pred(#[trigger] s[i]),
    ensures
        s.filter(pred) == s,
    decreases s.len(),
{
    broadcast use Seq::lemma_filter_push;

    if s.len() == 0 {
        reveal(Seq::filter);
        assert(s.filter(pred) =~= s);
    } else {
        assert(forall|i: int| 0 <= i < s.drop_last().len() ==> pred(#[trigger] s.drop_last()[i]));
        lemma_filter_all_true(s.drop_last(), pred);
        lemma_unsnoc(s);
        assert(pred(s.last()));
    }
}

/// What the upsert of a whole list holds: the old rows and a row for each
/// listed name under the scope, nothing else.
proof fn lemma_upsert_units_contains(
    units: Seq<RowV>,
    names: Seq<Seq<char>>,
    major_title: Option<Seq<char>>,
    category: Category,
    r: RowV,
)
    ensures
        upsert_units(units, names, major_title, category).contains(r) <==> (units.contains(r) || (
        r.major_title == major_title && r.category == category && names.contains(r.name))),
    decreases names.len(),
{
    broadcast use lemma_seq_contains_after_push;

    if names.len() == 0 {
        assert(!names.contains(r.name));
    } else {
        let prev = upsert_units(units, names.drop_last(), major_title, category);
        lemma_upsert_units_contains(units, names.drop_last(), major_title, category, r);
        lemma_unsnoc(names);
        assert(names.contains(r.name) <==> (names.drop_last().contains(r.name) || r.name
            == names.last())) by {
            lemma_seq_contains_after_push(names.drop_last(), names.last(), r.name);
        }
        let key = row_key(names.last(), major_title, category);
        if has_row(prev, names.last(), major_title, category) {
            assert(upsert_unit(prev, names.last(), major_title, category) == prev);
            if r == key {
                assert(prev.contains(r));
            }
        } else {
            assert(upsert_unit(prev, names.last(), major_title, category) == prev.push(key));
        }
    }
}

/// What one scope synchronization holds, key by key: inside the scope the
/// incoming list wins (unless it is empty, or the category is elective, in
/// which cases nothing is lost); outside the scope nothing changes.
proof fn lemma_sync_units_contains(
    units: Seq<RowV>,
    major_title: Option<Seq<char>>,
    category: Category,
    names: Seq<Seq<char>>,
    r: RowV,
)
    ensures
        sync_units(units, major_title, category, names).contains(r) <==> (if r.in_scope(
            major_title,
            category,
        ) {
            if names.len() == 0 {
                units.contains(r)
            } else if category is Elective {
                units.contains(r) || names.contains(r.name)
            } else {
                names.contains(r.name)
            }
        } else {
            units.contains(r)
        }),
{
    let upserted = upsert_units(units, names, major_title, category);
    lemma_upsert_units_contains(units, names, major_title, category, r);
    if names.len() > 0 && !(category is Elective) {
        lemma_filter_contains_iff(
            upserted,
            |row: RowV| keep_in_sync(row, major_title, category, names),
            r,
        );
        if r.in_scope(major_title, category) && names.contains(r.name) {
            assert(upserted.contains(r));
        }
    }
}

/// The majors relation after a merge holds the old titles and the
/// snapshot's, nothing else.
proof fn lemma_reconcile_majors_titles(s: StoreV, majors: Seq<crate::models::MajorV>, t: Seq<char>)
    ensures
        reconcile_majors(s, majors).majors.contains(t) <==> (s.majors.contains(t) || exists|j: int|
            0 <= j < majors.len() && (#[trigger] majors[j]).title == t),
    decreases majors.len(),
{
    broadcast use lemma_seq_contains_after_push;

    if majors.len() == 0 {
    } else {
        lemma_reconcile_majors_titles(s, majors.drop_last(), t);
        let prev = reconcile_majors(s, majors.drop_last());
        if t == majors.last().title {
            assert(majors[majors.len() - 1].title == t);
        }
        if exists|j: int| 0 <= j < majors.len() && (#[trigger] majors[j]).title == t {
            let j = choose|j: int| 0 <= j < majors.len() && (#[trigger] majors[j]).title == t;
            if j < majors.len() - 1 {
                assert(majors.drop_last()[j].title == t);
            }
        }
    }
}

/// A row whose scope is owned by none of the merged majors is untouched by
/// the majors phase.
proof fn lemma_reconcile_majors_frame(s: StoreV, majors: Seq<crate::models::MajorV>, r: RowV)
    requires
        forall|j: int|
            0 <= j < majors.len() ==> !r.in_scope(
                Some((#[trigger] majors[j]).title),
                Category::Major,
            ),
    ensures
        reconcile_majors(s, majors).units.contains(r) <==> s.units.contains(r),
    decreases majors.len(),
{
    if majors.len() == 0 {
    } else {
        lemma_reconcile_majors_frame(s, majors.drop_last(), r);
        let prev = reconcile_majors(s, majors.drop_last());
        assert(majors[majors.len() - 1] == majors.last());
        lemma_sync_units_contains(
            prev.units,
            Some(majors.last().title),
            Category::Major,
            majors.last().units,
            r,
        );
    }
}

/// A row whose scope is owned by the merged major at `jx` ends up present
/// exactly when its name is in that major's list — unless the list is
/// empty, in which case it is exactly as present as before.
proof fn lemma_reconcile_majors_owned(
    s: StoreV,
    majors: Seq<crate::models::MajorV>,
    jx: int,
    r: RowV,
)
    requires
        forall|j: int, l: int|
            0 <= j < l < majors.len() ==> (#[trigger] majors[j]).title != (#[trigger] majors[l]).title,
        0 <= jx < majors.len(),
        r.in_scope(Some(majors[jx].title), Category::Major),
    ensures
        reconcile_majors(s, majors).units.contains(r) <==> (if majors[jx].units.len() == 0 {
            s.units.contains(r)
        } else {
            majors[jx].units.contains(r.name)
        }),
    decreases majors.len(),
{
    let prev = reconcile_majors(s, majors.drop_last());
    assert(majors[majors.len() - 1] == majors.last());
    lemma_sync_units_contains(
        prev.units,
        Some(majors.last().title),
        Category::Major,
        majors.last().units,
        r,
    );
    if jx == majors.len() - 1 {
        assert(forall|j: int|
            0 <= j < majors.drop_last().len() ==> !r.in_scope(
                Some((#[trigger] majors.drop_last()[j]).title),
                Category::Major,
            ));
        lemma_reconcile_majors_frame(s, majors.drop_last(), r);
    } else {
        assert(forall|j: int, l: int|
            0 <= j < l < majors.drop_last().len() ==> (#[trigger] majors.drop_last()[j]).title != (
            #[trigger] majors.drop_last()[l]).title);
        assert(majors.drop_last()[jx] == majors[jx]);
        lemma_reconcile_majors_owned(s, majors.drop_last(), jx, r);
        assert(!r.in_scope(Some(majors.last().title), Category::Major));
    }
}

/// Upserting one name keeps the units relation well formed, provided the
/// scope is coherent and its major, if any, is stored.
proof fn lemma_upsert_unit_wf(
    units: Seq<RowV>,
    majors: Seq<Seq<char>>,
    name: Seq<char>,
    major_title: Option<Seq<char>>,
    category: Category,
)
    requires
        units_wf(units, majors),
        name.len() > 0,
        (category is Major) == (major_title is Some),
        major_title is Some ==> majors.contains(major_title->0),
    ensures
        units_wf(upsert_unit(units, name, major_title, category), majors),
{
    let key = row_key(name, major_title, category);
    if !has_row(units, name, major_title, category) {
        assert forall|i: int| 0 <= i < units.len() implies units[i] != key by {
            if units[i] == key {
                assert(units.contains(key));
            }
        };
        let out = units.push(key);
        assert(forall|i: int| 0 <= i < units.len() ==> #[trigger] out[i] == units[i]);
        assert(out[units.len() as int] == key);
    }
}

/// Upserting a list of names keeps the units relation well formed.
proof fn lemma_upsert_units_wf(
    units: Seq<RowV>,
    majors: Seq<Seq<char>>,
    names: Seq<Seq<char>>,
    major_title: Option<Seq<char>>,
    category: Category,
)
    requires
        units_wf(units, majors),
        crate::models::names_valid(names),
        (category is Major) == (major_title is Some),
        major_title is Some ==> majors.contains(major_title->0),
    ensures
        units_wf(upsert_units(units, names, major_title, category), majors),
    decreases names.len(),
{
    if names.len() == 0 {
    } else {
        assert(forall|k: int|
            0 <= k < names.drop_last().len() ==> #[trigger] names.drop_last()[k] == names[k]);
        lemma_upsert_units_wf(units, majors, names.drop_last(), major_title, category);
        assert(names[names.len() - 1] == names.last());
        lemma_upsert_unit_wf(
            upsert_units(units, names.drop_last(), major_title, category),
            majors,
            names.last(),
            major_title,
            category,
        );
    }
}

/// A filtered sub-sequence of a well-formed units relation is well formed.
proof fn lemma_filter_units_wf(units: Seq<RowV>, majors: Seq<Seq<char>>, pred: spec_fn(RowV) -> bool)
    requires
        units_wf(units, majors),
    ensures
        units_wf(units.filter(pred), majors),
    decreases units.len(),
{
    broadcast use Seq::lemma_filter_push;

    reveal(Seq::filter);
    if units.len() == 0 {
    } else {
        let d = units.drop_last();
        let last = units.last();
        assert(forall|i: int| 0 <= i < d.len() ==> #[trigger] d[i] == units[i]);
        lemma_filter_units_wf(d, majors, pred);
        lemma_unsnoc(units);
        let f = d.filter(pred);
        if pred(last) {
            let out = f.push(last);
            assert(units.filter(pred) == out);
            assert(forall|i: int| 0 <= i < f.len() ==> #[trigger] out[i] == f[i]);
            assert(out[f.len() as int] == last);
            assert(last == units[units.len() - 1]);
            assert forall|i: int, j: int| 0 <= i < j < out.len() implies !same_key(
                #[trigger] out[i],
                #[trigger] out[j],
            ) by {
                if j == f.len() {
                    // the old rows are pairwise distinct from the appended last row
                    lemma_filter_contains_iff(d, pred, out[i]);
                    let w = choose|w: int| 0 <= w < d.len() && d[w] == out[i];
                    assert(units[w] == out[i]);
                    assert(!same_key(units[w], units[units.len() - 1]));
                }
            };
            assert forall|i: int| 0 <= i < out.len() implies (#[trigger] out[i]).name.len() > 0
                && out[i].scope_wf() && (out[i].major_title is Some ==> majors.contains(
                out[i].major_title->0,
            )) by {
                if i < f.len() {
                    assert(out[i] == f[i]);
                }
            };
        }
    }
}

/// One scope synchronization keeps the units relation well formed.
proof fn lemma_sync_units_wf(
    units: Seq<RowV>,
    majors: Seq<Seq<char>>,
    names: Seq<Seq<char>>,
    major_title: Option<Seq<char>>,
    category: Category,
)
    requires
        units_wf(units, majors),
        crate::models::names_valid(names),
        (category is Major) == (major_title is Some),
        major_title is Some ==> majors.contains(major_title->0),
    ensures
        units_wf(sync_units(units, major_title, category, names), majors),
{
    lemma_upsert_units_wf(units, majors, names, major_title, category);
    if names.len() > 0 && !(category is Elective) {
        lemma_filter_units_wf(
            upsert_units(units, names, major_title, category),
            majors,
            |row: RowV| keep_in_sync(row, major_title, category, names),
        );
    }
}

/// A well-formed units relation stays well formed against a grown majors
/// relation.
proof fn lemma_units_wf_majors_grow(units: Seq<RowV>, majors: Seq<Seq<char>>, t: Seq<char>)
    requires
        units_wf(units, majors),
    ensures
        units_wf(units, upsert_major(majors, t)),
{
    broadcast use lemma_seq_contains_after_push;

}

/// Upserting a non-empty title keeps the majors relation well formed, and
/// the title is stored afterwards.
proof fn lemma_upsert_major_wf(majors: Seq<Seq<char>>, t: Seq<char>)
    requires
        majors_wf(majors),
        t.len() > 0,
    ensures
        majors_wf(upsert_major(majors, t)),
        upsert_major(majors, t).contains(t),
{
    broadcast use lemma_seq_contains_after_push;

    if !majors.contains(t) {
        let out = majors.push(t);
        assert(forall|i: int| 0 <= i < majors.len() ==> #[trigger] out[i] == majors[i]);
        assert(out[majors.len() as int] == t);
        assert forall|i: int, j: int| 0 <= i < j < out.len() implies (#[trigger] out[i]) != (
        #[trigger] out[j]) by {
            if j == majors.len() {
                assert(majors.contains(out[i]) ==> out[i] != t);
                assert(majors.contains(majors[i]));
            }
        };
        assert(out.contains(t));
    }
}

/// The majors phase of a reconciliation preserves store well-formedness.
proof fn lemma_reconcile_majors_wf(s: StoreV, majors: Seq<crate::models::MajorV>)
    requires
        s.wf(),
        forall|j: int|
            0 <= j < majors.len() ==> (#[trigger] majors[j]).title.len() > 0
                && crate::models::names_valid(majors[j].units),
    ensures
        reconcile_majors(s, majors).wf(),
    decreases majors.len(),
{
    if majors.len() == 0 {
    } else {
        assert(forall|j: int|
            0 <= j < majors.drop_last().len() ==> #[trigger] majors.drop_last()[j] == majors[j]);
        lemma_reconcile_majors_wf(s, majors.drop_last());
        let prev = reconcile_majors(s, majors.drop_last());
        let m = majors.last();
        assert(m == majors[majors.len() - 1]);
        lemma_upsert_major_wf(prev.majors, m.title);
        lemma_units_wf_majors_grow(prev.units, prev.majors, m.title);
        lemma_sync_units_wf(
            prev.units,
            upsert_major(prev.majors, m.title),
            m.units,
            Some(m.title),
            Category::Major,
        );
    }
}

/// A reconciliation run keeps the store well formed: titles and names stay
/// non-empty and pairwise distinct, composite keys stay unique, and every
/// major reference still resolves.
pub proof fn lemma_reconcile_wf(s: StoreV, h: HandbookV)
    requires
        s.wf(),
        h.valid(),
    ensures
        reconcile(s, h).wf(),
{
    lemma_reconcile_majors_wf(s, h.majors);
    let after_majors = reconcile_majors(s, h.majors);
    lemma_sync_units_wf(after_majors.units, after_majors.majors, h.cores, None, Category::Core);
    let after_cores = sync_units(after_majors.units, None, Category::Core, h.cores);
    lemma_sync_units_wf(after_cores, after_majors.majors, h.electives, None, Category::Elective);
}

/// Upserting names that are all already present changes nothing.
proof fn lemma_upsert_units_identity(
    units: Seq<RowV>,
    names: Seq<Seq<char>>,
    major_title: Option<Seq<char>>,
    category: Category,
)
    requires
        forall|k: int|
            0 <= k < names.len() ==> units.contains(
                row_key(#[trigger] names[k], major_title, category),
            ),
    ensures
        upsert_units(units, names, major_title, category) == units,
    decreases names.len(),
{
    if names.len() == 0 {
    } else {
        assert(forall|k: int|
            0 <= k < names.drop_last().len() ==> #[trigger] names.drop_last()[k] == names[k]);
        lemma_upsert_units_identity(units, names.drop_last(), major_title, category);
        assert(names[names.len() - 1] == names.last());
        assert(has_row(units, names.last(), major_title, category));
    }
}

/// Synchronizing a scope that already agrees with the incoming list
/// changes nothing.
proof fn lemma_sync_units_identity(
    units: Seq<RowV>,
    major_title: Option<Seq<char>>,
    category: Category,
    names: Seq<Seq<char>>,
)
    requires
        forall|k: int|
            0 <= k < names.len() ==> units.contains(
                row_key(#[trigger] names[k], major_title, category),
            ),
        (names.len() > 0 && !(category is Elective)) ==> forall|i: int|
            0 <= i < units.len() && (#[trigger] units[i]).in_scope(major_title, category)
                ==> names.contains(units[i].name),
    ensures
        sync_units(units, major_title, category, names) == units,
{
    lemma_upsert_units_identity(units, names, major_title, category);
    if names.len() > 0 && !(category is Elective) {
        lemma_filter_all_true(units, |row: RowV| keep_in_sync(row, major_title, category, names));
    }
}

/// Merging majors whose titles and unit lists are already exactly present
/// changes nothing.
proof fn lemma_reconcile_majors_identity(s: StoreV, majors: Seq<crate::models::MajorV>)
    requires
        forall|j: int| 0 <= j < majors.len() ==> s.majors.contains((#[trigger] majors[j]).title),
        forall|j: int, k: int|
            0 <= j < majors.len() && 0 <= k < majors[j].units.len() ==> s.units.contains(
                row_key(#[trigger] majors[j].units[k], Some(majors[j].title), Category::Major),
            ),
        forall|j: int, i: int|
            #![trigger s.units[i], majors[j]]
            0 <= j < majors.len() && majors[j].units.len() > 0 && 0 <= i < s.units.len()
                && s.units[i].in_scope(Some(majors[j].title), Category::Major)
                ==> majors[j].units.contains(s.units[i].name),
    ensures
        reconcile_majors(s, majors) == s,
    decreases majors.len(),
{
    if majors.len() == 0 {
    } else {
        assert(forall|j: int|
            0 <= j < majors.drop_last().len() ==> #[trigger] majors.drop_last()[j] == majors[j]);
        lemma_reconcile_majors_identity(s, majors.drop_last());
        let m = majors.last();
        assert(m == majors[majors.len() - 1]);
        assert(s.majors.contains(m.title));
        assert(forall|k: int|
            0 <= k < m.units.len() ==> s.units.contains(
                row_key(#[trigger] m.units[k], Some(m.title), Category::Major),
            ));
        lemma_sync_units_identity(s.units, Some(m.title), Category::Major, m.units);
        assert(StoreV { majors: upsert_major(s.majors, m.title), units: sync_units(
            s.units,
            Some(m.title),
            Category::Major,
            m.units,
        ) } == s);
    }
}

/// Pruning invariant, major scope: after reconciling a snapshot that gives
/// major `jx` a non-empty unit list, the names stored under that major's
/// `major`-category scope are exactly the listed names.
pub proof fn lemma_pruning_exact_major(s: StoreV, h: HandbookV, jx: int, name: Seq<char>)
    requires
        h.valid(),
        0 <= jx < h.majors.len(),
        h.majors[jx].units.len() > 0,
    ensures
        has_row(reconcile(s, h).units, name, Some(h.majors[jx].title), Category::Major)
            <==> h.majors[jx].units.contains(name),
{
    let r = row_key(name, Some(h.majors[jx].title), Category::Major);
    assert(forall|j: int, l: int|
        0 <= j < l < h.majors.len() ==> (#[trigger] h.majors[j]).title != (
        #[trigger] h.majors[l]).title);
    lemma_reconcile_majors_owned(s, h.majors, jx, r);
    let after_majors = reconcile_majors(s, h.majors);
    lemma_sync_units_contains(after_majors.units, None, Category::Core, h.cores, r);
    let after_cores = sync_units(after_majors.units, None, Category::Core, h.cores);
    lemma_sync_units_contains(after_cores, None, Category::Elective, h.electives, r);
}

/// Pruning invariant, core scope: after reconciling a snapshot with a
/// non-empty core list, the names stored under the major-free core scope
/// are exactly the listed names.
pub proof fn lemma_pruning_exact_core(s: StoreV, h: HandbookV, name: Seq<char>)
    requires
        h.cores.len() > 0,
    ensures
        has_row(reconcile(s, h).units, name, None, Category::Core) <==> h.cores.contains(name),
{
    let r = row_key(name, None, Category::Core);
    lemma_reconcile_majors_frame(s, h.majors, r);
    let after_majors = reconcile_majors(s, h.majors);
    lemma_sync_units_contains(after_majors.units, None, Category::Core, h.cores, r);
    let after_cores = sync_units(after_majors.units, None, Category::Core, h.cores);
    lemma_sync_units_contains(after_cores, None, Category::Elective, h.electives, r);
}

/// Elective monotonicity: an elective stored under the major-free scope is
/// there after any reconciliation exactly when it was there before or the
/// snapshot lists it — in particular, reconciliation never removes one.
pub proof fn lemma_elective_monotonic(s: StoreV, h: HandbookV, name: Seq<char>)
    ensures
        has_row(reconcile(s, h).units, name, None, Category::Elective) <==> (has_row(
            s.units,
            name,
            None,
            Category::Elective,
        ) || h.electives.contains(name)),
{
    let r = row_key(name, None, Category::Elective);
    lemma_reconcile_majors_frame(s, h.majors, r);
    let after_majors = reconcile_majors(s, h.majors);
    lemma_sync_units_contains(after_majors.units, None, Category::Core, h.cores, r);
    let after_cores = sync_units(after_majors.units, None, Category::Core, h.cores);
    lemma_sync_units_contains(after_cores, None, Category::Elective, h.electives, r);
}

/// Empty-list fail-safe, major scope: a snapshot whose list for one major
/// is empty leaves that major's scope exactly as it was — an empty list is
/// "no information", never a scope-wide delete.
pub proof fn lemma_empty_major_list_failsafe(s: StoreV, h: HandbookV, jx: int, name: Seq<char>)
    requires
        h.valid(),
        0 <= jx < h.majors.len(),
        h.majors[jx].units.len() == 0,
    ensures
        has_row(reconcile(s, h).units, name, Some(h.majors[jx].title), Category::Major)
            <==> has_row(s.units, name, Some(h.majors[jx].title), Category::Major),
{
    let r = row_key(name, Some(h.majors[jx].title), Category::Major);
    assert(forall|j: int, l: int|
        0 <= j < l < h.majors.len() ==> (#[trigger] h.majors[j]).title != (
        #[trigger] h.majors[l]).title);
    lemma_reconcile_majors_owned(s, h.majors, jx, r);
    let after_majors = reconcile_majors(s, h.majors);
    lemma_sync_units_contains(after_majors.units, None, Category::Core, h.cores, r);
    let after_cores = sync_units(after_majors.units, None, Category::Core, h.cores);
    lemma_sync_units_contains(after_cores, None, Category::Elective, h.electives, r);
}

/// Empty-list fail-safe, core scope: a snapshot with an empty core list
/// leaves the major-free core scope exactly as it was.
pub proof fn lemma_empty_core_list_failsafe(s: StoreV, h: HandbookV, name: Seq<char>)
    requires
        h.cores.len() == 0,
    ensures
        has_row(reconcile(s, h).units, name, None, Category::Core) <==> has_row(
            s.units,
            name,
            None,
            Category::Core,
        ),
{
    let r = row_key(name, None, Category::Core);
    lemma_reconcile_majors_frame(s, h.majors, r);
    let after_majors = reconcile_majors(s, h.majors);
    lemma_sync_units_contains(after_majors.units, None, Category::Core, h.cores, r);
    let after_cores = sync_units(after_majors.units, None, Category::Core, h.cores);
    lemma_sync_units_contains(after_cores, None, Category::Elective, h.electives, r);
}

/// Idempotence: reconciling the same valid snapshot twice gives exactly
/// the state that one reconciliation gives — no duplicate rows, no changed
/// row count, no changed order.
pub proof fn lemma_reconcile_idempotent(s: StoreV, h: HandbookV)
    requires
        h.valid(),
    ensures
        reconcile(reconcile(s, h), h) == reconcile(s, h),
{
    let s1 = reconcile(s, h);

    // Every snapshot title is in the majors relation after the first run.
    assert forall|j: int| 0 <= j < h.majors.len() implies s1.majors.contains(
        (#[trigger] h.majors[j]).title,
    ) by {
        lemma_reconcile_majors_titles(s, h.majors, h.majors[j].title);
    };

    // Every listed unit of every snapshot major is stored under its scope.
    assert forall|j: int, k: int|
        0 <= j < h.majors.len() && 0 <= k < h.majors[j].units.len() implies s1.units.contains(
        row_key(#[trigger] h.majors[j].units[k], Some(h.majors[j].title), Category::Major),
    ) by {
        lemma_pruning_exact_major(s, h, j, h.majors[j].units[k]);
    };

    // Every stored row in a non-empty major scope bears a listed name.
    assert forall|j: int, i: int|
        #![trigger s1.units[i], h.majors[j]]
        0 <= j < h.majors.len() && h.majors[j].units.len() > 0 && 0 <= i < s1.units.len()
            && s1.units[i].in_scope(Some(h.majors[j].title), Category::Major) implies h.majors[j]
        .units.contains(s1.units[i].name) by {
        let r = s1.units[i];
        assert(s1.units.contains(r));
        assert(r == row_key(r.name, Some(h.majors[j].title), Category::Major));
        lemma_pruning_exact_major(s, h, j, r.name);
    };

    lemma_reconcile_majors_identity(s1, h.majors);

    // The core scope already agrees with the core list.
    if h.cores.len() > 0 {
        assert forall|k: int| 0 <= k < h.cores.len() implies s1.units.contains(
            row_key(#[trigger] h.cores[k], None, Category::Core),
        ) by {
            lemma_pruning_exact_core(s, h, h.cores[k]);
        };
        assert forall|i: int|
            0 <= i < s1.units.len() && (#[trigger] s1.units[i]).in_scope(None, Category::Core)
                implies h.cores.contains(s1.units[i].name) by {
            let r = s1.units[i];
            assert(s1.units.contains(r));
            assert(r == row_key(r.name, None, Category::Core));
            lemma_pruning_exact_core(s, h, r.name);
        };
    }
    lemma_sync_units_identity(s1.units, None, Category::Core, h.cores);

    // Every listed elective is already stored.
    assert forall|k: int| 0 <= k < h.electives.len() implies s1.units.contains(
        row_key(#[trigger] h.electives[k], None, Category::Elective),
    ) by {
        lemma_elective_monotonic(s, h, h.electives[k]);
    };
    lemma_sync_units_identity(s1.units, None, Category::Elective, h.electives);

    assert(reconcile(s1, h) == s1);
}

/// The category whose tag is the given text; electives catch any other
/// tag, which a well-formed plan never carries.
pub open spec fn tag_category(t: Seq<char>) -> Category {
    if t == category_name(Category::Major) {
        Category::Major
    } else if t == category_name(Category::Core) {
        Category::Core
    } else {
        Category::Elective
    }
}

/// What one plan statement means on the store model, reading each of the
/// three statement shapes by its documented effect: a major upsert binds
/// the title; a unit upsert binds name, category tag and owning major; a
/// scope prune binds owning major, category tag and the kept names. A
/// statement of any other shape changes nothing.
pub open spec fn apply_stmt(s: StoreV, stmt: StmtV) -> StoreV {
    if stmt.text == insert_major_text() && stmt.binds.len() == 1 && stmt.binds[0] is Some {
        StoreV { majors: upsert_major(s.majors, stmt.binds[0]->0), units: s.units }
    } else if stmt.text == insert_unit_text() && stmt.binds.len() == 3 && stmt.binds[0] is Some
        && stmt.binds[1] is Some {
        StoreV {
            majors: s.majors,
            units: upsert_unit(
                s.units,
                stmt.binds[0]->0,
                stmt.binds[2],
                tag_category(stmt.binds[1]->0),
            ),
        }
    } else if stmt.binds.len() >= 3 && stmt.text == delete_stale_text((stmt.binds.len() - 2) as nat)
        && stmt.binds[1] is Some && (forall|k: int|
        2 <= k < stmt.binds.len() ==> (#[trigger] stmt.binds[k]) is Some) {
        StoreV {
            majors: s.majors,
            units: prune_units(
                s.units,
                stmt.binds[0],
                tag_category(stmt.binds[1]->0),
                stmt.binds.subrange(2, stmt.binds.len() as int).map_values(
                    |o: Option<Seq<char>>| o->0,
                ),
            ),
        }
    } else {
        s
    }
}

/// What a statement list means on the store model: each statement in
/// order.
pub open spec fn apply_stmts(s: StoreV, stmts: Seq<StmtV>) -> StoreV
    decreases stmts.len(),
{
    if stmts.len() == 0 {
        s
    } else {
        apply_stmt(apply_stmts(s, stmts.drop_last()), stmts.last())
    }
}

/// The three statement texts are pairwise distinct, whatever the
/// placeholder count.
proof fn lemma_stmt_texts_distinct(n: nat)
    ensures
        insert_major_text() != insert_unit_text(),
        delete_stale_text(n) != insert_major_text(),
        delete_stale_text(n) != insert_unit_text(),
{
    reveal_strlit("INSERT INTO majors (title) VALUES (?) ON CONFLICT(title) DO NOTHING");
    reveal_strlit(
        "INSERT INTO units (name, type, major_title) SELECT ?1, ?2, ?3 WHERE NOT EXISTS (SELECT 1 FROM units WHERE name = ?1 AND type = ?2 AND major_title IS ?3)",
    );
    reveal_strlit("DELETE FROM units WHERE major_title IS ? AND type = ? AND name NOT IN (");
    assert(insert_major_text().len() != insert_unit_text().len());
    assert(delete_stale_text(n)[0] == 'D');
    assert(insert_major_text()[0] == 'I');
    assert(insert_unit_text()[0] == 'I');
}

/// The three category tags are pairwise distinct, so a tag names its
/// category back.
proof fn lemma_tag_category_round_trip(c: Category)
    ensures
        tag_category(category_name(c)) == c,
{
    reveal_strlit("major");
    reveal_strlit("core");
    reveal_strlit("elective");
    assert(category_name(Category::Major).len() == 5);
    assert(category_name(Category::Core).len() == 4);
    assert(category_name(Category::Elective).len() == 8);
}

proof fn lemma_apply_insert_major(s: StoreV, title: Seq<char>)
    ensures
        apply_stmt(s, insert_major_stmt(title)) == (StoreV {
            majors: upsert_major(s.majors, title),
            units: s.units,
        }),
{
}

proof fn lemma_apply_insert_unit(
    s: StoreV,
    name: Seq<char>,
    major_title: Option<Seq<char>>,
    category: Category,
)
    ensures
        apply_stmt(s, insert_unit_stmt(name, major_title, category)) == (StoreV {
            majors: s.majors,
            units: upsert_unit(s.units, name, major_title, category),
        }),
{
    lemma_stmt_texts_distinct(1);
    lemma_tag_category_round_trip(category);
}

proof fn lemma_apply_delete_stale(
    s: StoreV,
    major_title: Option<Seq<char>>,
    category: Category,
    names: Seq<Seq<char>>,
)
    requires
        names.len() >= 1,
    ensures
        apply_stmt(s, delete_stale_stmt(major_title, category, names)) == (StoreV {
            majors: s.majors,
            units: prune_units(s.units, major_title, category, names),
        }),
{
    let stmt = delete_stale_stmt(major_title, category, names);
    lemma_stmt_texts_distinct(names.len());
    lemma_stmt_texts_distinct((stmt.binds.len() - 2) as nat);
    lemma_tag_category_round_trip(category);
    assert(stmt.binds.len() == names.len() + 2);
    assert(stmt.binds.subrange(2, stmt.binds.len() as int).map_values(
        |o: Option<Seq<char>>| o->0,
    ) =~= names);
}

/// Applying a concatenation is applying the parts in turn.
proof fn lemma_apply_stmts_concat(s: StoreV, a: Seq<StmtV>, b: Seq<StmtV>)
    ensures
        apply_stmts(s, a + b) == apply_stmts(apply_stmts(s, a), b),
    decreases b.len(),
{
    if b.len() == 0 {
        assert(a + b =~= a);
    } else {
        lemma_apply_stmts_concat(s, a, b.drop_last());
        assert((a + b).drop_last() =~= a + b.drop_last());
        assert((a + b).last() == b.last());
    }
}

/// Applying the statements of one scope synchronization is exactly
/// `sync_units` on the model.
proof fn lemma_apply_sync_stmts(
    s: StoreV,
    major_title: Option<Seq<char>>,
    category: Category,
    names: Seq<Seq<char>>,
)
    ensures
        apply_stmts(s, sync_stmts(major_title, category, names)) == (StoreV {
            majors: s.majors,
            units: sync_units(s.units, major_title, category, names),
        }),
    decreases names.len(),
{
    let ins = |n: Seq<char>| insert_unit_stmt(n, major_title, category);
    let inserts = names.map_values(ins);

    assert forall|m: Seq<Seq<char>>| m.len() < names.len() || m == names implies apply_stmts(
        s,
        #[trigger] m.map_values(ins),
    ) == (StoreV { majors: s.majors, units: upsert_units(s.units, m, major_title, category) }) by {
        lemma_apply_inserts(s, major_title, category, m);
    };

    if names.len() > 0 && !(category is Elective) {
        assert(sync_stmts(major_title, category, names) == inserts.push(
            delete_stale_stmt(major_title, category, names),
        ));
        assert(inserts.push(delete_stale_stmt(major_title, category, names)).drop_last()
            =~= inserts);
        lemma_apply_delete_stale(
            StoreV { majors: s.majors, units: upsert_units(s.units, names, major_title, category) },
            major_title,
            category,
            names,
        );
    }
}

/// Applying one unit-upsert statement per name is exactly `upsert_units`.
proof fn lemma_apply_inserts(
    s: StoreV,
    major_title: Option<Seq<char>>,
    category: Category,
    names: Seq<Seq<char>>,
)
    ensures
        apply_stmts(
            s,
            names.map_values(|n: Seq<char>| insert_unit_stmt(n, major_title, category)),
        ) == (StoreV {
            majors: s.majors,
            units: upsert_units(s.units, names, major_title, category),
        }),
    decreases names.len(),
{
    let ins = |n: Seq<char>| insert_unit_stmt(n, major_title, category);
    if names.len() == 0 {
        assert(names.map_values(ins) =~= Seq::<StmtV>::empty());
    } else {
        lemma_apply_inserts(s, major_title, category, names.drop_last());
        assert(names.map_values(ins).drop_last() =~= names.drop_last().map_values(ins));
        assert(names.map_values(ins).last() == ins(names.last()));
        lemma_apply_insert_unit(
            StoreV {
                majors: s.majors,
                units: upsert_units(s.units, names.drop_last(), major_title, category),
            },
            names.last(),
            major_title,
            category,
        );
    }
}

/// Applying the statements of the majors phase is exactly the majors
/// phase on the model.
proof fn lemma_apply_majors_stmts(s: StoreV, majors: Seq<crate::models::MajorV>)
    ensures
        apply_stmts(s, majors_stmts(majors)) == reconcile_majors(s, majors),
    decreases majors.len(),
{
    if majors.len() == 0 {
    } else {
        lemma_apply_majors_stmts(s, majors.drop_last());
        let prev = reconcile_majors(s, majors.drop_last());
        let m = majors.last();
        lemma_apply_stmts_concat(s, majors_stmts(majors.drop_last()), major_stmts(m));
        lemma_apply_stmts_concat(
            prev,
            seq![insert_major_stmt(m.title)],
            sync_stmts(Some(m.title), Category::Major, m.units),
        );
        assert(apply_stmts(s, majors_stmts(majors)) == apply_stmts(prev, major_stmts(m)));
        let one = seq![insert_major_stmt(m.title)];
        assert(one.len() == 1);
        assert(one[0] == insert_major_stmt(m.title));
        assert(one.drop_last() =~= Seq::<StmtV>::empty());
        assert(apply_stmts(prev, one.drop_last()) == prev);
        assert(one.last() == insert_major_stmt(m.title));
        assert(apply_stmts(prev, one) == apply_stmt(prev, insert_major_stmt(m.title)));
        lemma_apply_insert_major(prev, m.title);
        let mid = StoreV { majors: upsert_major(prev.majors, m.title), units: prev.units };
        assert(apply_stmts(prev, one) == mid);
        lemma_apply_sync_stmts(mid, Some(m.title), Category::Major, m.units);
        assert(apply_stmts(prev, major_stmts(m)) == apply_stmts(mid, sync_stmts(
            Some(m.title),
            Category::Major,
            m.units,
        )));
        assert(apply_stmts(s, majors_stmts(majors)) == reconcile_majors(s, majors));
    }
}

/// The statement plan agrees with the in-memory engine: executing the
/// plan's statements in order, each read by its documented effect on the
/// model, yields exactly `reconcile` of the store and the snapshot.
pub proof fn lemma_plan_matches_reconcile(s: StoreV, h: HandbookV)
    ensures
        apply_stmts(s, plan_spec(h)) == reconcile(s, h),
{
    let after_majors = reconcile_majors(s, h.majors);
    let after_cores = StoreV {
        majors: after_majors.majors,
        units: sync_units(after_majors.units, None, Category::Core, h.cores),
    };
    lemma_apply_stmts_concat(
        s,
        majors_stmts(h.majors) + sync_stmts(None, Category::Core, h.cores),
        sync_stmts(None, Category::Elective, h.electives),
    );
    lemma_apply_stmts_concat(
        s,
        majors_stmts(h.majors),
        sync_stmts(None, Category::Core, h.cores),
    );
    lemma_apply_majors_stmts(s, h.majors);
    lemma_apply_sync_stmts(after_majors, None, Category::Core, h.cores);
    lemma_apply_sync_stmts(after_cores, None, Category::Elective, h.electives);
}

} // verus!
