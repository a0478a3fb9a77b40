//! Parameterized SQL for a relational backend: the schema statements and
//! the statement plans that replay a reconciliation or answer a filter
//! query against the two tables. Filter values are never embedded in the
//! command text; every value travels as a bound parameter.

use crate::models::{
    lemma_majors_view_index, lemma_majors_view_len, lemma_names_view_index, lemma_names_view_len,
    names_view, validate_handbook, Handbook, HandbookV, MajorV, Unit,
};
use crate::reconcile::opt_str_view;
use crate::store::{Category, StoreError};
use vstd::prelude::*;

verus! {

/// A value bound to one placeholder: text, or SQL NULL.
#[derive(Debug)]
pub enum BindValue {
    Text(String),
    Null,
}

/// Mathematical model of a bound value.
pub open spec fn bind_view(b: BindValue) -> Option<Seq<char>> {
    match b {
        BindValue::Text(t) => Some(t@),
        BindValue::Null => None,
    }
}

/// The model of a bind list.
pub open spec fn binds_view(bs: Seq<BindValue>) -> Seq<Option<Seq<char>>> {
    bs.map_values(|b: BindValue| bind_view(b))
}

pub broadcast proof fn lemma_binds_view_len(bs: Seq<BindValue>)
    ensures
        (#[trigger] binds_view(bs)).len() == bs.len(),
{
}

pub broadcast proof fn lemma_binds_view_index(bs: Seq<BindValue>, k: int)
    requires
        0 <= k < bs.len(),
    ensures
        #[trigger] binds_view(bs)[k] == bind_view(bs[k]),
{
}

pub broadcast proof fn lemma_binds_view_push(bs: Seq<BindValue>, b: BindValue)
    ensures
        #[trigger] binds_view(bs.push(b)) == binds_view(bs).push(bind_view(b)),
{
    assert(binds_view(bs.push(b)) =~= binds_view(bs).push(bind_view(b)));
}

/// One statement: command text with `?` placeholders and the values to
/// bind, in placeholder order.
#[derive(Debug)]
pub struct SqlStatement {
    pub text: String,
    pub binds: Vec<BindValue>,
}

/// Mathematical model of one statement.
pub ghost struct StmtV {
    pub text: Seq<char>,
    pub binds: Seq<Option<Seq<char>>>,
}

impl View for SqlStatement {
    type V = StmtV;

    open spec fn view(&self) -> StmtV {
        StmtV { text: self.text@, binds: binds_view(self.binds@) }
    }
}

/// The model of a statement list.
pub open spec fn stmts_view(stmts: Seq<SqlStatement>) -> Seq<StmtV> {
    stmts.map_values(|s: SqlStatement| s@)
}

pub broadcast proof fn lemma_stmts_view_len(stmts: Seq<SqlStatement>)
    ensures
        (#[trigger] stmts_view(stmts)).len() == stmts.len(),
{
}

pub broadcast proof fn lemma_stmts_view_index(stmts: Seq<SqlStatement>, k: int)
    requires
        0 <= k < stmts.len(),
    ensures
        #[trigger] stmts_view(stmts)[k] == stmts[k]@,
{
}

pub broadcast proof fn lemma_stmts_view_push(stmts: Seq<SqlStatement>, s: SqlStatement)
    ensures
        #[trigger] stmts_view(stmts.push(s)) == stmts_view(stmts).push(s@),
{
    assert(stmts_view(stmts.push(s)) =~= stmts_view(stmts).push(s@));
}

/// The DDL of the majors table.
pub open spec fn majors_table_text() -> Seq<char> {
    "CREATE TABLE IF NOT EXISTS majors (title TEXT PRIMARY KEY NOT NULL)"@
}

/// The DDL of the units table: a surrogate identity column and the
/// composite identity (name, major_title, type).
pub open spec fn units_table_text() -> Seq<char> {
    "CREATE TABLE IF NOT EXISTS units (id INTEGER PRIMARY KEY AUTOINCREMENT, name TEXT NOT NULL, type TEXT NOT NULL, major_title TEXT REFERENCES majors(title), UNIQUE(name, major_title, type))"@
}

/// The statement text of a major upsert.
pub open spec fn insert_major_text() -> Seq<char> {
    "INSERT INTO majors (title) VALUES (?) ON CONFLICT(title) DO NOTHING"@
}

/// The statement text of a unit upsert. `IS` rather than `=` compares the
/// owning major, so that a NULL scope matches NULL.
pub open spec fn insert_unit_text() -> Seq<char> {
    "INSERT INTO units (name, type, major_title) SELECT ?1, ?2, ?3 WHERE NOT EXISTS (SELECT 1 FROM units WHERE name = ?1 AND type = ?2 AND major_title IS ?3)"@
}

/// `n` comma-separated placeholders.
pub open spec fn placeholders(n: nat) -> Seq<char>
    decreases n,
{
    if n <= 1 {
        "?"@
    } else {
        placeholders((n - 1) as nat) + ",?"@
    }
}

/// The statement text of a scope prune with `n` kept names.
pub open spec fn delete_stale_text(n: nat) -> Seq<char> {
    "DELETE FROM units WHERE major_title IS ? AND type = ? AND name NOT IN ("@ + placeholders(n)
        + ")"@
}

/// The bound category tag, as stored in the `type` column.
pub open spec fn category_name(c: Category) -> Seq<char> {
    match c {
        Category::Major => "major"@,
        Category::Core => "core"@,
        Category::Elective => "elective"@,
    }
}

/// The category tag as stored in the `type` column.
pub fn category_text(c: Category) -> (r: &'static str)
    ensures
        r@ == category_name(c),
{
    match c {
        Category::Major => "major",
        Category::Core => "core",
        Category::Elective => "elective",
    }
}

/// The category whose tag is the given text: exactly "major", "core" or
/// "elective"; any other text is no category.
pub fn category_from_text(s: &String) -> (r: Option<Category>)
    ensures
        match r {
            Some(c) => s@ == category_name(c),
            None => s@ != category_name(Category::Major) && s@ != category_name(Category::Core)
                && s@ != category_name(Category::Elective),
        },
{
    if *s == String::from_str("major") {
        Some(Category::Major)
    } else if *s == String::from_str("core") {
        Some(Category::Core)
    } else if *s == String::from_str("elective") {
        Some(Category::Elective)
    } else {
        None
    }
}

/// The bound value of an optional scope title.
fn title_bind(major_title: Option<&String>) -> (r: BindValue)
    ensures
        bind_view(r) == opt_str_view(major_title),
{
    match major_title {
        Some(t) => BindValue::Text(t.clone()),
        None => BindValue::Null,
    }
}

/// The idempotent schema DDL, one statement per table, to be executed on
/// every start; both statements are no-ops once the tables exist.
pub fn create_tables_if_not_exists() -> (r: Vec<SqlStatement>)
    ensures
        stmts_view(r@) =~= seq![
            StmtV { text: majors_table_text(), binds: Seq::empty() },
            StmtV { text: units_table_text(), binds: Seq::empty() },
        ],
{
    broadcast use lemma_stmts_view_len, lemma_stmts_view_index, lemma_binds_view_len;

    let mut out: Vec<SqlStatement> = Vec::new();
    out.push(
        SqlStatement {
            text: String::from_str(
                "CREATE TABLE IF NOT EXISTS majors (title TEXT PRIMARY KEY NOT NULL)",
            ),
            binds: Vec::new(),
        },
    );
    out.push(
        SqlStatement {
            text: String::from_str(
                "CREATE TABLE IF NOT EXISTS units (id INTEGER PRIMARY KEY AUTOINCREMENT, name TEXT NOT NULL, type TEXT NOT NULL, major_title TEXT REFERENCES majors(title), UNIQUE(name, major_title, type))",
            ),
            binds: Vec::new(),
        },
    );
    proof {
        assert(binds_view(Seq::<BindValue>::empty()) =~= Seq::<Option<Seq<char>>>::empty());
    }
    out
}

/// The model of a major upsert statement.
pub open spec fn insert_major_stmt(title: Seq<char>) -> StmtV {
    StmtV { text: insert_major_text(), binds: seq![Some(title)] }
}

/// The major upsert: insert the title if absent, leave a present row
/// untouched. The title travels as a bound parameter.
pub fn insert_major(title: &String) -> (r: SqlStatement)
    ensures
        r@ == insert_major_stmt(title@),
{
    broadcast use lemma_binds_view_len, lemma_binds_view_index, lemma_binds_view_push;

    let mut binds: Vec<BindValue> = Vec::new();
    binds.push(BindValue::Text(title.clone()));
    let r = SqlStatement {
        text: String::from_str("INSERT INTO majors (title) VALUES (?) ON CONFLICT(title) DO NOTHING"),
        binds,
    };
    proof {
        assert(r@.binds =~= seq![Some(title@)]);
    }
    r
}

/// The model of a unit upsert statement.
pub open spec fn insert_unit_stmt(
    name: Seq<char>,
    major_title: Option<Seq<char>>,
    category: Category,
) -> StmtV {
    StmtV {
        text: insert_unit_text(),
        binds: seq![Some(name), Some(category_name(category)), major_title],
    }
}

/// The unit upsert for one scope: insert the composite key if absent,
/// leave a present row untouched. Name, category tag and owning major all
/// travel as bound parameters; a major-free scope binds NULL.
pub fn insert_unit(
    name: &String,
    major_title: Option<&String>,
    category: Category,
) -> (r: SqlStatement)
    ensures
        r@ == insert_unit_stmt(name@, opt_str_view(major_title), category),
{
    broadcast use lemma_binds_view_len, lemma_binds_view_index, lemma_binds_view_push;

    let mut binds: Vec<BindValue> = Vec::new();
    binds.push(BindValue::Text(name.clone()));
    binds.push(BindValue::Text(String::from_str(category_text(category))));
    binds.push(title_bind(major_title));
    let r = SqlStatement {
        text: String::from_str(
            "INSERT INTO units (name, type, major_title) SELECT ?1, ?2, ?3 WHERE NOT EXISTS (SELECT 1 FROM units WHERE name = ?1 AND type = ?2 AND major_title IS ?3)",
        ),
        binds,
    };
    proof {
        assert(r@.binds =~= seq![
            Some(name@),
            Some(category_name(category)),
            opt_str_view(major_title),
        ]);
    }
    r
}

/// The model of a scope prune statement.
pub open spec fn delete_stale_stmt(
    major_title: Option<Seq<char>>,
    category: Category,
    names: Seq<Seq<char>>,
) -> StmtV {
    StmtV {
        text: delete_stale_text(names.len()),
        binds: seq![major_title, Some(category_name(category))] + names.map_values(
            |n: Seq<char>| Some(n),
        ),
    }
}

/// The scope prune: delete every row of the (major_title, category) scope
/// whose name is not among the given ones. Every kept name travels as a
/// bound parameter of the `NOT IN` list — none is spliced into the text.
pub fn delete_stale_units(
    major_title: Option<&String>,
    category: Category,
    names: &Vec<Unit>,
) -> (r: SqlStatement)
    requires
        names@.len() >= 1,
    ensures
        r@ == delete_stale_stmt(opt_str_view(major_title), category, names_view(names@)),
{
    broadcast use lemma_binds_view_len, lemma_binds_view_index, lemma_binds_view_push;
    broadcast use lemma_names_view_len, lemma_names_view_index;

    let ghost nv = names_view(names@);
    let mut text = String::from_str("DELETE FROM units WHERE major_title IS ? AND type = ? AND name NOT IN (");
    let mut ph = String::from_str("?");
    let mut i: usize = 1;
    while i < names.len()
        invariant
            1 <= i <= names@.len() || (names@.len() <= 1 && i == 1),
            ph@ == placeholders(i as nat),
        decreases names.len() - i,
    {
        ph.append(",?");
        i += 1;
    }
    proof {
        assert(ph@ == placeholders(names@.len() as nat));
    }
    text.append(ph.as_str());
    text.append(")");
    let mut binds: Vec<BindValue> = Vec::new();
    binds.push(title_bind(major_title));
    binds.push(BindValue::Text(String::from_str(category_text(category))));
    let ghost head = seq![opt_str_view(major_title), Some(category_name(category))];
    proof {
        assert(binds_view(binds@) =~= head);
    }
    let mut j: usize = 0;
    while j < names.len()
        invariant
            nv == names_view(names@),
            head == seq![opt_str_view(major_title), Some(category_name(category))],
            j <= names@.len(),
            binds_view(binds@) == head + nv.subrange(0, j as int).map_values(
                |n: Seq<char>| Some(n),
            ),
        decreases names.len() - j,
    {
        broadcast use lemma_binds_view_len, lemma_binds_view_index, lemma_binds_view_push;
        broadcast use lemma_names_view_len, lemma_names_view_index;

        proof {
            assert(nv.subrange(0, j + 1) =~= nv.subrange(0, j as int).push(nv[j as int]));
            assert(nv.subrange(0, j + 1).map_values(|n: Seq<char>| Some(n)) =~= nv.subrange(
                0,
                j as int,
            ).map_values(|n: Seq<char>| Some(n)).push(Some(nv[j as int])));
        }
        binds.push(BindValue::Text(names[j].clone()));
        j += 1;
    }
    proof {
        assert(nv.subrange(0, names@.len() as int) =~= nv);
        assert(head + nv.map_values(|n: Seq<char>| Some(n)) == delete_stale_stmt(
            opt_str_view(major_title),
            category,
            nv,
        ).binds);
    }
    SqlStatement { text, binds }
}

/// The clause separator: the first clause opens the WHERE, later ones are
/// conjoined.
pub open spec fn sep(first: bool) -> Seq<char> {
    if first {
        " WHERE "@
    } else {
        " AND "@
    }
}

/// The query text for the given combination of present filters: the
/// skeleton depends only on which filters are present, never on their
/// values.
pub open spec fn get_units_text(has_major: bool, has_category: bool, has_name: bool) -> Seq<char> {
    let t0 = "SELECT name FROM units"@;
    let t1 = if has_major {
        t0 + sep(true) + "major_title = ?"@
    } else {
        t0
    };
    let t2 = if has_category {
        t1 + sep(!has_major) + "type = ?"@
    } else {
        t1
    };
    if has_name {
        t2 + sep(!has_major && !has_category) + "name LIKE ? ESCAPE '\\'"@
    } else {
        t2
    }
}

/// One character of a name filter as it stands inside a `LIKE` pattern:
/// the wildcards `%` and `_` and the escape character itself are escaped,
/// so that the pattern matches them literally, as the in-memory query
/// builder does.
pub open spec fn escape_char(c: char) -> Seq<char> {
    if c == '%' || c == '_' || c == '\\' {
        seq!['\\', c]
    } else {
        seq![c]
    }
}

/// The name filter's value with every `LIKE` metacharacter escaped.
pub open spec fn like_escaped(name: Seq<char>) -> Seq<char>
    decreases name.len(),
{
    if name.len() == 0 {
        Seq::empty()
    } else {
        like_escaped(name.drop_last()) + escape_char(name.last())
    }
}

/// The both-sides-wildcard pattern bound for a name filter: the escaped
/// value between two wildcards.
pub open spec fn like_pattern(name: Seq<char>) -> Seq<char> {
    "%"@ + like_escaped(name) + "%"@
}

/// The name filter's value with every `LIKE` metacharacter escaped, as
/// `like_escaped` states.
fn like_escape(name: &str) -> (r: String)
    ensures
        r@ == like_escaped(name@),
{
    proof {
        reveal_strlit("\\%");
        reveal_strlit("\\_");
        reveal_strlit("\\\\");
    }
    let n = name.unicode_len();
    let mut out = String::new();
    let mut i: usize = 0;
    proof {
        assert(name@.subrange(0, 0) =~= Seq::<char>::empty());
    }
    while i < n
        invariant
            n == name@.len(),
            i <= n,
            out@ == like_escaped(name@.subrange(0, i as int)),
        decreases n - i,
    {
        proof {
            reveal_strlit("\\%");
            reveal_strlit("\\_");
            reveal_strlit("\\\\");
        }
        let c = name.get_char(i);
        let ghost before = out@;
        if c == '%' {
            out.append("\\%");
            proof {
                assert(out@ =~= before + escape_char(c));
            }
        } else if c == '_' {
            out.append("\\_");
            proof {
                assert(out@ =~= before + escape_char(c));
            }
        } else if c == '\\' {
            out.append("\\\\");
            proof {
                assert(out@ =~= before + escape_char(c));
            }
        } else {
            let piece = name.substring_char(i, i + 1);
            out.append(piece);
            proof {
                assert(name@.subrange(i as int, i + 1) =~= seq![name@[i as int]]);
                assert(out@ =~= before + escape_char(c));
            }
        }
        proof {
            assert(name@.subrange(0, i + 1).drop_last() =~= name@.subrange(0, i as int));
            assert(name@.subrange(0, i + 1).last() == name@[i as int]);
        }
        i += 1;
    }
    proof {
        assert(name@.subrange(0, name@.len() as int) =~= name@);
    }
    out
}

/// The bind list for the given filters, in clause order.
pub open spec fn get_units_binds(
    major: Option<Seq<char>>,
    category: Option<Category>,
    name: Option<Seq<char>>,
) -> Seq<Option<Seq<char>>> {
    let b0 = Seq::<Option<Seq<char>>>::empty();
    let b1 = match major {
        Some(t) => b0.push(Some(t)),
        None => b0,
    };
    let b2 = match category {
        Some(c) => b1.push(Some(category_name(c))),
        None => b1,
    };
    match name {
        Some(n) => b2.push(Some(like_pattern(n))),
        None => b2,
    }
}

/// The filter query: a `SELECT` over the units with a predicate
/// conjunction over exactly the supplied filters. The values are bound,
/// never interpolated; only the clause skeleton varies.
pub fn get_units_query(
    major: Option<&String>,
    category: Option<Category>,
    name: Option<&String>,
) -> (r: SqlStatement)
    ensures
        r@.text == get_units_text(major is Some, category is Some, name is Some),
        r@.binds == get_units_binds(
            opt_str_view(major),
            category,
            match name {
                Some(n) => Some(n@),
                None => None::<Seq<char>>,
            },
        ),
{
    broadcast use lemma_binds_view_len, lemma_binds_view_index, lemma_binds_view_push;

    let mut text = String::from_str("SELECT name FROM units");
    let mut binds: Vec<BindValue> = Vec::new();
    let mut first = true;
    proof {
        assert(binds_view(binds@) =~= Seq::<Option<Seq<char>>>::empty());
    }
    if let Some(t) = major {
        text.append(" WHERE ");
        text.append("major_title = ?");
        binds.push(BindValue::Text(t.clone()));
        first = false;
    }
    if let Some(c) = category {
        if first {
            text.append(" WHERE ");
        } else {
            text.append(" AND ");
        }
        text.append("type = ?");
        binds.push(BindValue::Text(String::from_str(category_text(c))));
        first = false;
    }
    if let Some(n) = name {
        if first {
            text.append(" WHERE ");
        } else {
            text.append(" AND ");
        }
        text.append("name LIKE ? ESCAPE '\\'");
        let escaped = like_escape(n.as_str());
        let mut pattern = String::from_str("%");
        pattern.append(escaped.as_str());
        pattern.append("%");
        binds.push(BindValue::Text(pattern));
    }
    SqlStatement { text, binds }
}

/// The model of the statements that synchronize one scope: one unit
/// upsert per listed name, then — only for a non-empty list in a
/// non-elective category — one scope prune.
pub open spec fn sync_stmts(
    major_title: Option<Seq<char>>,
    category: Category,
    names: Seq<Seq<char>>,
) -> Seq<StmtV> {
    let inserts = names.map_values(|n: Seq<char>| insert_unit_stmt(n, major_title, category));
    if names.len() > 0 && !(category is Elective) {
        inserts.push(delete_stale_stmt(major_title, category, names))
    } else {
        inserts
    }
}

/// Appends the statements that synchronize one scope.
fn push_sync_statements(
    out: &mut Vec<SqlStatement>,
    major_title: Option<&String>,
    category: Category,
    names: &Vec<Unit>,
)
    ensures
        stmts_view(final(out)@) == stmts_view(old(out)@) + sync_stmts(
            opt_str_view(major_title),
            category,
            names_view(names@),
        ),
{
    broadcast use lemma_stmts_view_len, lemma_stmts_view_index, lemma_stmts_view_push;
    broadcast use lemma_names_view_len, lemma_names_view_index;

    let ghost base = stmts_view(old(out)@);
    let ghost nv = names_view(names@);
    let ghost mt = opt_str_view(major_title);
    let ghost ins = |n: Seq<char>| insert_unit_stmt(n, mt, category);
    let mut j: usize = 0;
    proof {
        assert(base + nv.subrange(0, 0).map_values(ins) =~= base);
    }
    while j < names.len()
        invariant
            base == stmts_view(old(out)@),
            nv == names_view(names@),
            mt == opt_str_view(major_title),
            ins == (|n: Seq<char>| insert_unit_stmt(n, mt, category)),
            j <= names@.len(),
            stmts_view(out@) == base + nv.subrange(0, j as int).map_values(ins),
        decreases names.len() - j,
    {
        broadcast use lemma_stmts_view_len, lemma_stmts_view_index, lemma_stmts_view_push;
        broadcast use lemma_names_view_len, lemma_names_view_index;

        let stmt = insert_unit(&names[j], major_title, category);
        proof {
            assert(nv.subrange(0, j + 1) =~= nv.subrange(0, j as int).push(nv[j as int]));
            assert(nv.subrange(0, j + 1).map_values(ins) =~= nv.subrange(0, j as int).map_values(
                ins,
            ).push(ins(nv[j as int])));
            assert(base + nv.subrange(0, j + 1).map_values(ins) =~= (base + nv.subrange(
                0,
                j as int,
            ).map_values(ins)).push(ins(nv[j as int])));
        }
        out.push(stmt);
        j += 1;
    }
    proof {
        assert(nv.subrange(0, names@.len() as int) =~= nv);
    }
    let prune = names.len() > 0 && !(matches!(category, Category::Elective));
    if prune {
        let stmt = delete_stale_units(major_title, category, names);
        proof {
            assert(base + nv.map_values(ins).push(delete_stale_stmt(mt, category, nv)) =~= (base
                + nv.map_values(ins)).push(delete_stale_stmt(mt, category, nv)));
        }
        out.push(stmt);
    }
}

/// The model of the statements that merge one major: its title upsert,
/// then its scope synchronization.
pub open spec fn major_stmts(m: MajorV) -> Seq<StmtV> {
    seq![insert_major_stmt(m.title)] + sync_stmts(Some(m.title), Category::Major, m.units)
}

/// The model of the statements that merge a list of majors, in order.
pub open spec fn majors_stmts(majors: Seq<MajorV>) -> Seq<StmtV>
    decreases majors.len(),
{
    if majors.len() == 0 {
        Seq::empty()
    } else {
        majors_stmts(majors.drop_last()) + major_stmts(majors.last())
    }
}

/// The model of one whole reconciliation run as a statement plan: the
/// majors in order, then the core scope, then the elective scope.
pub open spec fn plan_spec(h: HandbookV) -> Seq<StmtV> {
    majors_stmts(h.majors) + sync_stmts(None, Category::Core, h.cores) + sync_stmts(
        None,
        Category::Elective,
        h.electives,
    )
}

/// The statement plan of one reconciliation run, to be executed in order
/// inside a single transaction: all of it commits or none of it does. A
/// malformed snapshot is rejected before any statement is produced.
pub fn update_handbook_statements(handbook: &Handbook) -> (r: Result<
    Vec<SqlStatement>,
    StoreError,
>)
    ensures
        match r {
            Ok(stmts) => handbook@.valid() && stmts_view(stmts@) == plan_spec(handbook@),
            Err(e) => !handbook@.valid() && e is InvalidSnapshot,
        },
{
    broadcast use lemma_stmts_view_len, lemma_stmts_view_index, lemma_stmts_view_push;
    broadcast use lemma_majors_view_len, lemma_majors_view_index;

    if !validate_handbook(handbook) {
        return Err(StoreError::InvalidSnapshot);
    }
    let ghost hv = handbook@;
    let mut out: Vec<SqlStatement> = Vec::new();
    let mut i: usize = 0;
    proof {
        assert(stmts_view(out@) =~= Seq::<StmtV>::empty());
        assert(majors_stmts(hv.majors.subrange(0, 0)) =~= Seq::<StmtV>::empty());
        assert(stmts_view(out@) =~= majors_stmts(hv.majors.subrange(0, 0)));
    }
    while i < handbook.majors.len()
        invariant
            hv == handbook@,
            i <= handbook.majors.len(),
            stmts_view(out@) == majors_stmts(hv.majors.subrange(0, i as int)),
        decreases handbook.majors.len() - i,
    {
        broadcast use lemma_stmts_view_len, lemma_stmts_view_index, lemma_stmts_view_push;
        broadcast use lemma_majors_view_len, lemma_majors_view_index;

        let ghost before = stmts_view(out@);
        let major = &handbook.majors[i];
        proof {
            assert(hv.majors[i as int] == major@);
        }
        let stmt = insert_major(&major.title);
        out.push(stmt);
        push_sync_statements(&mut out, Some(&major.title), Category::Major, &major.units);
        proof {
            assert(hv.majors.subrange(0, i + 1).drop_last() =~= hv.majors.subrange(0, i as int));
            assert(hv.majors.subrange(0, i + 1).last() == hv.majors[i as int]);
            assert(before.push(insert_major_stmt(major@.title)) =~= before + seq![
                insert_major_stmt(major@.title),
            ]);
            assert(before + seq![insert_major_stmt(major@.title)] + sync_stmts(
                Some(major@.title),
                Category::Major,
                major@.units,
            ) =~= before + major_stmts(major@));
            assert(stmts_view(out@) == majors_stmts(hv.majors.subrange(0, i + 1)));
        }
        i += 1;
    }
    proof {
        assert(hv.majors.subrange(0, handbook.majors@.len() as int) =~= hv.majors);
    }
    push_sync_statements(&mut out, None, Category::Core, &handbook.cores);
    push_sync_statements(&mut out, None, Category::Elective, &handbook.electives);
    proof {
        assert(stmts_view(out@) =~= plan_spec(hv));
    }
    Ok(out)
}

} // verus!
