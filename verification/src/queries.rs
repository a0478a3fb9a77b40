//! The filter query builder: ad-hoc lookups against the stored units by
//! owning major, category and name substring, in any combination.

use crate::models::{lemma_names_view_push, names_view, Unit};
use crate::reconcile::{opt_str_view, title_matches};
use crate::store::{
    lemma_rows_view_index, lemma_rows_view_len, lemma_rows_view_push, rows_view, Category, RowV,
    Store, UnitRow,
};
use vstd::prelude::*;

verus! {

/// ASCII-lowercase of one character; other characters are untouched, as in
/// the backing store's `LIKE` matching.
pub open spec fn lower_char(c: char) -> char {
    if 'A' <= c && c <= 'Z' {
        ((c as u8) + 32) as char
    } else {
        c
    }
}

/// ASCII-lowercase of a whole text.
pub open spec fn lower(s: Seq<char>) -> Seq<char> {
    s.map_values(|c: char| lower_char(c))
}

/// The needle occurs contiguously inside the hay.
pub open spec fn has_substring(hay: Seq<char>, needle: Seq<char>) -> bool {
    exists|k: int|
        0 <= k && k + needle.len() <= hay.len() && #[trigger] hay.subrange(
            k,
            k + needle.len() as int,
        ) == needle
}

/// The name matches a both-sides-wildcard pattern, ignoring ASCII case.
pub open spec fn name_like(name: Seq<char>, pattern: Seq<char>) -> bool {
    has_substring(lower(name), lower(pattern))
}

/// The conjunction of exactly the supplied filters: equality on the owning
/// major, equality on the category, case-insensitive substring match on
/// the name. An absent filter constrains nothing.
pub open spec fn row_matches(
    row: RowV,
    major: Option<Seq<char>>,
    category: Option<Category>,
    pattern: Option<Seq<char>>,
) -> bool {
    &&& match major {
        Some(t) => row.major_title == Some(t),
        None => true,
    }
    &&& match category {
        Some(c) => row.category == c,
        None => true,
    }
    &&& match pattern {
        Some(p) => name_like(row.name, p),
        None => true,
    }
}

/// The names of the rows that pass the filters, in storage order.
pub open spec fn matching_names(
    units: Seq<RowV>,
    major: Option<Seq<char>>,
    category: Option<Category>,
    pattern: Option<Seq<char>>,
) -> Seq<Seq<char>> {
    units.filter(|r: RowV| row_matches(r, major, category, pattern)).map_values(|r: RowV| r.name)
}

/// The rows owned by one major, any category, in storage order.
pub open spec fn major_rows(units: Seq<RowV>, title: Seq<char>) -> Seq<RowV> {
    units.filter(|r: RowV| r.major_title == Some(title))
}

/// The rows bearing one exact name, any scope, in storage order.
pub open spec fn name_rows(units: Seq<RowV>, name: Seq<char>) -> Seq<RowV> {
    units.filter(|r: RowV| r.name == name)
}

/// The names of a row sequence, in order.
pub open spec fn names_of(rows: Seq<RowV>) -> Seq<Seq<char>> {
    rows.map_values(|r: RowV| r.name)
}

broadcast proof fn lemma_matching_names_push(
    units: Seq<RowV>,
    r: RowV,
    major: Option<Seq<char>>,
    category: Option<Category>,
    pattern: Option<Seq<char>>,
)
    ensures
        #[trigger] matching_names(units.push(r), major, category, pattern)
            == if row_matches(r, major, category, pattern) {
            matching_names(units, major, category, pattern).push(r.name)
        } else {
            matching_names(units, major, category, pattern)
        },
{
    let pred = |x: RowV| row_matches(x, major, category, pattern);
    units.lemma_filter_push(r, pred);
    if pred(r) {
        assert(units.push(r).filter(pred).map_values(|x: RowV| x.name) =~= units.filter(
            pred,
        ).map_values(|x: RowV| x.name).push(r.name));
    }
}

broadcast proof fn lemma_major_rows_push(units: Seq<RowV>, r: RowV, title: Seq<char>)
    ensures
        #[trigger] major_rows(units.push(r), title) == if r.major_title == Some(title) {
            major_rows(units, title).push(r)
        } else {
            major_rows(units, title)
        },
{
    units.lemma_filter_push(r, |x: RowV| x.major_title == Some(title));
}

broadcast proof fn lemma_name_rows_push(units: Seq<RowV>, r: RowV, name: Seq<char>)
    ensures
        #[trigger] name_rows(units.push(r), name) == if r.name == name {
            name_rows(units, name).push(r)
        } else {
            name_rows(units, name)
        },
{
    units.lemma_filter_push(r, |x: RowV| x.name == name);
}

broadcast proof fn lemma_names_of_push(rows: Seq<RowV>, r: RowV)
    ensures
        #[trigger] names_of(rows.push(r)) == names_of(rows).push(r.name),
{
    assert(names_of(rows.push(r)) =~= names_of(rows).push(r.name));
}

/// The lowercase character, as `lower_char` states.
fn lower_char_x(c: char) -> (r: char)
    ensures
        r == lower_char(c),
{
    if 'A' <= c && c <= 'Z' {
        ((c as u8) + 32) as char
    } else {
        c
    }
}

/// The ASCII-lowercased characters of the text.
fn to_lower_chars(s: &str) -> (r: Vec<char>)
    ensures
        r@ == lower(s@),
{
    let n = s.unicode_len();
    let mut out: Vec<char> = Vec::new();
    let mut i: usize = 0;
    while i < n
        invariant
            n == s@.len(),
            i <= n,
            out@.len() == i,
            forall|k: int| 0 <= k < i ==> out@[k] == lower_char(s@[k]),
        decreases n - i,
    {
        let c = s.get_char(i);
        out.push(lower_char_x(c));
        i += 1;
    }
    proof {
        assert(out@ =~= lower(s@));
    }
    out
}

/// Whether the needle stands at offset `k` of the hay.
fn match_at(hay: &Vec<char>, needle: &Vec<char>, k: usize) -> (r: bool)
    requires
        k + needle@.len() <= hay@.len(),
    ensures
        r == (hay@.subrange(k as int, k + needle@.len()) == needle@),
{
    let mut j: usize = 0;
    while j < needle.len()
        invariant
            k + needle@.len() <= hay@.len(),
            j <= needle@.len(),
            forall|m: int| 0 <= m < j ==> hay@[k + m] == needle@[m],
        decreases needle.len() - j,
    {
        let hl = hay.len();
        assert(k + j < hl);
        if hay[k + j] != needle[j] {
            proof {
                assert(hay@.subrange(k as int, k + needle@.len())[j as int] == hay@[k + j]);
            }
            return false;
        }
        j += 1;
    }
    proof {
        assert(hay@.subrange(k as int, k + needle@.len()) =~= needle@);
    }
    true
}

/// Whether the needle occurs anywhere inside the hay, as `has_substring`
/// states.
fn contains_chars(hay: &Vec<char>, needle: &Vec<char>) -> (r: bool)
    ensures
        r == has_substring(hay@, needle@),
{
    if needle.len() > hay.len() {
        return false;
    }
    let bound = hay.len() - needle.len();
    let mut k: usize = 0;
    loop
        invariant
            needle@.len() <= hay@.len(),
            bound == hay@.len() - needle@.len(),
            k <= bound,
            forall|j: int|
                0 <= j < k ==> #[trigger] hay@.subrange(j, j + needle@.len() as int) != needle@,
        decreases bound - k,
    {
        if match_at(hay, needle, k) {
            return true;
        }
        if k == bound {
            assert(forall|j: int|
                0 <= j <= bound ==> #[trigger] hay@.subrange(j, j + needle@.len() as int)
                    != needle@);
            return false;
        }
        k += 1;
    }
}

/// Whether a stored row passes the three optional filters.
fn row_passes(
    row: &UnitRow,
    major: Option<&String>,
    category: Option<Category>,
    pattern: Option<&String>,
) -> (r: bool)
    ensures
        r == row_matches(row@, opt_str_view(major), category, opt_str_view(pattern)),
{
    let major_ok = match major {
        Some(_) => title_matches(&row.major_title, major),
        None => true,
    };
    let category_ok = match category {
        Some(c) => row.category == c,
        None => true,
    };
    let name_ok = match pattern {
        Some(p) => contains_chars(&to_lower_chars(row.name.as_str()), &to_lower_chars(p.as_str())),
        None => true,
    };
    major_ok && category_ok && name_ok
}

impl Store {
    /// The filter query builder: the names of the units that satisfy the
    /// conjunction of exactly the supplied filters — owning major,
    /// category, and case-insensitive name substring (wildcard both
    /// sides). With no filters, every unit's name is returned.
    pub fn get_units(
        &self,
        major: Option<&String>,
        category: Option<Category>,
        name: Option<&String>,
    ) -> (r: Vec<Unit>)
        ensures
            names_view(r@) == matching_names(
                self@.units,
                opt_str_view(major),
                category,
                opt_str_view(name),
            ),
    {
        broadcast use lemma_rows_view_len, lemma_rows_view_index;
        broadcast use lemma_names_view_push, lemma_matching_names_push;

        let ghost uv = self@.units;
        let ghost m = opt_str_view(major);
        let ghost p = opt_str_view(name);
        let mut out: Vec<Unit> = Vec::new();
        let mut i: usize = 0;
        proof {
            assert(uv.subrange(0, 0) =~= Seq::<RowV>::empty());
            assert(names_view(out@) =~= Seq::<Seq<char>>::empty());
            assert(matching_names(uv.subrange(0, 0), m, category, p) =~= Seq::<Seq<char>>::empty())
                by {
                reveal(Seq::filter);
            }
        }
        while i < self.units.len()
            invariant
                uv == self@.units,
                m == opt_str_view(major),
                p == opt_str_view(name),
                i <= self.units.len(),
                names_view(out@) == matching_names(uv.subrange(0, i as int), m, category, p),
            decreases self.units.len() - i,
        {
            broadcast use lemma_rows_view_len, lemma_rows_view_index;
            broadcast use lemma_names_view_push, lemma_matching_names_push;

            let row = &self.units[i];
            proof {
                assert(uv[i as int] == row@);
                assert(uv.subrange(0, i + 1) =~= uv.subrange(0, i as int).push(uv[i as int]));
            }
            if row_passes(row, major, category, name) {
                out.push(row.name.clone());
            }
            i += 1;
        }
        proof {
            assert(uv.subrange(0, self.units@.len() as int) =~= uv);
        }
        out
    }

    /// Every unit name stored under the given major, whatever the
    /// category, in storage order.
    pub fn get_units_by_major(&self, major_title: &String) -> (r: Vec<Unit>)
        ensures
            names_view(r@) == names_of(major_rows(self@.units, major_title@)),
    {
        broadcast use lemma_rows_view_len, lemma_rows_view_index;
        broadcast use lemma_names_view_push, lemma_major_rows_push, lemma_names_of_push;

        let ghost uv = self@.units;
        let mut out: Vec<Unit> = Vec::new();
        let mut i: usize = 0;
        proof {
            assert(uv.subrange(0, 0) =~= Seq::<RowV>::empty());
            assert(names_view(out@) =~= Seq::<Seq<char>>::empty());
            assert(major_rows(uv.subrange(0, 0), major_title@) =~= Seq::<RowV>::empty()) by {
                reveal(Seq::filter);
            }
            assert(names_of(Seq::<RowV>::empty()) =~= Seq::<Seq<char>>::empty());
        }
        while i < self.units.len()
            invariant
                uv == self@.units,
                i <= self.units.len(),
                names_view(out@) == names_of(major_rows(uv.subrange(0, i as int), major_title@)),
            decreases self.units.len() - i,
        {
            broadcast use lemma_rows_view_len, lemma_rows_view_index;
            broadcast use lemma_names_view_push, lemma_major_rows_push, lemma_names_of_push;

            let row = &self.units[i];
            proof {
                assert(uv[i as int] == row@);
                assert(uv.subrange(0, i + 1) =~= uv.subrange(0, i as int).push(uv[i as int]));
            }
            if title_matches(&row.major_title, Some(major_title)) {
                out.push(row.name.clone());
            }
            i += 1;
        }
        proof {
            assert(uv.subrange(0, self.units@.len() as int) =~= uv);
        }
        out
    }

    /// Every stored row bearing exactly the given unit name, whatever its
    /// scope, in storage order. A name shared across majors yields one row
    /// per owning scope; an unknown name yields the empty list.
    pub fn get_units_by_codename(&self, codename: &String) -> (r: Vec<UnitRow>)
        ensures
            rows_view(r@) == name_rows(self@.units, codename@),
    {
        broadcast use lemma_rows_view_len, lemma_rows_view_index, lemma_rows_view_push;
        broadcast use lemma_name_rows_push;

        let ghost uv = self@.units;
        let mut out: Vec<UnitRow> = Vec::new();
        let mut i: usize = 0;
        proof {
            assert(uv.subrange(0, 0) =~= Seq::<RowV>::empty());
            assert(rows_view(out@) =~= Seq::<RowV>::empty());
            assert(name_rows(uv.subrange(0, 0), codename@) =~= Seq::<RowV>::empty()) by {
                reveal(Seq::filter);
            }
        }
        while i < self.units.len()
            invariant
                uv == self@.units,
                i <= self.units.len(),
                rows_view(out@) == name_rows(uv.subrange(0, i as int), codename@),
            decreases self.units.len() - i,
        {
            broadcast use lemma_rows_view_len, lemma_rows_view_index, lemma_rows_view_push;
            broadcast use lemma_name_rows_push;

            let row = &self.units[i];
            proof {
                assert(uv[i as int] == row@);
                assert(uv.subrange(0, i + 1) =~= uv.subrange(0, i as int).push(uv[i as int]));
            }
            if row.name == *codename {
                out.push(row.duplicate());
            }
            i += 1;
        }
        proof {
            assert(uv.subrange(0, self.units@.len() as int) =~= uv);
        }
        out
    }
}

} // verus!
