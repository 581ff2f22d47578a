//! The scope-query compiler: from a schema and a root query fragment, one
//! recursive SQL statement that walks the foreign-key graph from each root
//! row (cycle-guarded, at most ten levels deep) and yields, per root row, a
//! JSON object from dot-joined column paths to their text values.
use vstd::prelude::*;
use crate::dataset::{find_table, table_named};
use crate::schema::{ColumnConfig, ForeignKeyConfig, SchemaConfig, TableConfig};
use crate::text::{
    eq_ignore_ascii_case, first_index_some, lemma_first_index_prefix, split_words,
    str_eq_ignore_ascii_case, trim_end_semicolons, trim_semicolons, words,
};

verus! {

/// Why no statement could be compiled from a root fragment.
#[derive(Debug, Clone, PartialEq, Eq)]
pub enum CompileError {
    /// No `FROM <name>` word pair in the fragment.
    RootTableNotFound { fragment: String },
    /// The name after `FROM` is no table of the schema.
    RootTableUnknown { table: String },
}

pub open spec fn from_pick(ws: Seq<Seq<char>>) -> spec_fn(int) -> Option<Seq<char>> {
    |i: int| if eq_ignore_ascii_case(ws[i], "from"@) { Some(ws[i + 1]) } else { None }
}

/// The word after the first word `FROM` (in any ASCII case) of the fragment,
/// its trailing semicolons removed.
pub open spec fn root_table_name(fragment: Seq<char>) -> Option<Seq<char>> {
    let ws = words(trim_semicolons(fragment));
    first_index_some(ws.len() - 1, from_pick(ws))
}

/// The anchor of the recursion: one state per row of the root fragment.
pub open spec fn base_sql(root: Seq<char>, pk: Seq<char>, fragment: Seq<char>) -> Seq<char> {
    "WITH RECURSIVE scope_tree(\n  root_id, path_prefix, pk_value, table_name, depth, visited\n) AS (\n  SELECT "@
        + pk + " AS root_id, '' AS path_prefix, "@ + pk + " AS pk_value, '"@ + root
        + "' AS table_name, 1 AS depth, ',' || "@ + pk + " || ',' AS visited\n  FROM ("@
        + fragment + ")\n"@
}

/// The two conditions every recursive step carries: the referenced row's key
/// (held in column `rc`) is not yet in the path's visited list, and the
/// state is less than ten levels deep (the root row being level one). They
/// make the recursion finite on cyclic foreign keys and bound its depth.
pub open spec fn step_guard(rc: Seq<char>) -> Seq<char> {
    "'\n    AND instr(st.visited, ',' || f."@ + rc + " || ',') = 0\n    AND st.depth < 10\n"@
}

/// One recursive step: a state at table `t` follows the foreign key `fk` to
/// the referenced row, under `step_guard`.
pub open spec fn step_sql(t: TableConfig, fk: ForeignKeyConfig) -> Seq<char> {
    let c = fk.column@;
    let rt = fk.references.table@;
    let rc = fk.references.column@;
    "  UNION ALL\n  SELECT \n    st.root_id,\n    CASE WHEN st.path_prefix = '' THEN '"@ + c
        + "' ELSE st.path_prefix || '.' || '"@ + c + "' END AS path_prefix,\n    f."@ + rc
        + " AS pk_value,\n    '"@ + rt
        + "' AS table_name,\n    st.depth + 1 AS depth,\n    st.visited || f."@ + rc
        + " || ',' AS visited\n  FROM scope_tree st\n  JOIN "@ + t.name@ + " src ON src."@
        + t.primary_key@ + " = st.pk_value\n  JOIN "@ + rt + " f ON f."@ + rc + " = src."@ + c
        + "\n  WHERE st.table_name = '"@ + t.name@ + step_guard(rc)
}

pub open spec fn fk_steps_sql(t: TableConfig, fks: Seq<ForeignKeyConfig>) -> Seq<char>
    decreases fks.len(),
{
    if fks.len() == 0 {
        Seq::empty()
    } else {
        fk_steps_sql(t, fks.drop_last()) + step_sql(t, fks.last())
    }
}

/// The recursive steps of every foreign key of every table, in order.
pub open spec fn steps_sql(ts: Seq<TableConfig>) -> Seq<char>
    decreases ts.len(),
{
    if ts.len() == 0 {
        Seq::empty()
    } else {
        steps_sql(ts.drop_last()) + fk_steps_sql(ts.last(), ts.last().foreign_keys@)
    }
}

/// One projection: the column's path and text value for each state at `t`.
pub open spec fn select_sql(t: TableConfig, col: ColumnConfig) -> Seq<char> {
    let c = col.name@;
    "  SELECT \n    st.root_id,\n    CASE WHEN st.path_prefix = '' THEN '"@ + c
        + "' ELSE st.path_prefix || '.' || '"@ + c + "' END AS path,\n    CAST(t."@ + c
        + " AS TEXT) AS value\n  FROM scope_tree st\n  JOIN "@ + t.name@ + " t ON t."@
        + t.primary_key@ + " = st.pk_value\n  WHERE st.table_name = '"@ + t.name@ + "'\n"@
}

pub open spec fn union_sep(first: bool) -> Seq<char> {
    if first { Seq::empty() } else { "  UNION ALL\n"@ }
}

pub open spec fn selects_sql(t: TableConfig, cols: Seq<ColumnConfig>) -> Seq<char>
    decreases cols.len(),
{
    if cols.len() == 0 {
        Seq::empty()
    } else {
        selects_sql(t, cols.drop_last()) + union_sep(cols.len() == 1) + select_sql(t, cols.last())
    }
}

/// The projections of every column of every table, joined by `UNION ALL`.
pub open spec fn expand_sql(ts: Seq<TableConfig>) -> Seq<char>
    decreases ts.len(),
{
    if ts.len() == 0 {
        Seq::empty()
    } else {
        expand_sql(ts.drop_last()) + union_sep(ts.len() == 1) + selects_sql(ts.last(), ts.last().columns@)
    }
}

/// The whole statement for root table `root` (with primary key `pk`) and the
/// trimmed fragment.
pub open spec fn scope_sql(s: SchemaConfig, root: Seq<char>, pk: Seq<char>, fragment: Seq<char>) -> Seq<char> {
    base_sql(root, pk, fragment) + steps_sql(s.tables@) + "),\nexpanded AS (\n"@ + expand_sql(s.tables@)
        + ")\nSELECT root_id, json_group_object(path, value) AS scope_json\nFROM expanded\nGROUP BY root_id;"@
}

/// What compiling `fragment` against `s` gives: the statement, or `None` for
/// a missing `FROM` pair, or `Some(name)` for an unknown root table.
pub open spec fn compiled(s: SchemaConfig, fragment: Seq<char>) -> Result<Seq<char>, Option<Seq<char>>> {
    match root_table_name(fragment) {
        None => Err(None),
        Some(name) => match table_named(s, name) {
            None => Err(Some(name)),
            Some(t) => Ok(scope_sql(s, name, t.primary_key@, trim_semicolons(fragment))),
        },
    }
}

/// The name of the root table of a fragment, as `root_table_name` states.
pub fn find_root_table(fragment: &str) -> (r: Option<String>)
    ensures
        match r {
            Some(name) => root_table_name(fragment@) == Some(name@),
            None => root_table_name(fragment@) is None,
        },
{
    let q = trim_end_semicolons(fragment);
    let ws = split_words(q);
    let ghost wv = ws@.map_values(|w: String| w@);
    let ghost f = from_pick(wv);
    assert(wv == words(trim_semicolons(fragment@)));
    if ws.len() < 2 {
        return None;
    }
    let n = ws.len() - 1;
    let mut i: usize = 0;
    while i < n
        invariant
            n + 1 == ws@.len(),
            wv == ws@.map_values(|w: String| w@),
            wv == words(trim_semicolons(fragment@)),
            f == from_pick(wv),
            0 <= i <= n,
            first_index_some(i as int, f) is None,
        decreases n - i,
    {
        if str_eq_ignore_ascii_case(ws[i].as_str(), "from") {
            proof { lemma_first_index_prefix(i as int + 1, n as int, f); }
            assert(wv[i as int] == ws@[i as int]@ && wv[i + 1] == ws@[i + 1]@);
            return Some(ws[i + 1].clone());
        }
        i = i + 1;
    }
    None
}

fn push_step(out: &mut String, t: &TableConfig, fk: &ForeignKeyConfig)
    ensures
        final(out)@ == old(out)@ + step_sql(*t, *fk),
{
    let c = fk.column.as_str();
    let rt = fk.references.table.as_str();
    let rc = fk.references.column.as_str();
    out.append("  UNION ALL\n  SELECT \n    st.root_id,\n    CASE WHEN st.path_prefix = '' THEN '");
    out.append(c);
    out.append("' ELSE st.path_prefix || '.' || '");
    out.append(c);
    out.append("' END AS path_prefix,\n    f.");
    out.append(rc);
    out.append(" AS pk_value,\n    '");
    out.append(rt);
    out.append("' AS table_name,\n    st.depth + 1 AS depth,\n    st.visited || f.");
    out.append(rc);
    out.append(" || ',' AS visited\n  FROM scope_tree st\n  JOIN ");
    out.append(t.name.as_str());
    out.append(" src ON src.");
    out.append(t.primary_key.as_str());
    out.append(" = st.pk_value\n  JOIN ");
    out.append(rt);
    out.append(" f ON f.");
    out.append(rc);
    out.append(" = src.");
    out.append(c);
    out.append("\n  WHERE st.table_name = '");
    out.append(t.name.as_str());
    let ghost before_guard = out@;
    out.append("'\n    AND instr(st.visited, ',' || f.");
    out.append(rc);
    out.append(" || ',') = 0\n    AND st.depth < 10\n");
    assert(out@ =~= before_guard + step_guard(rc@));
    assert(out@ =~= old(out)@ + step_sql(*t, *fk));
}

fn push_steps(out: &mut String, s: &SchemaConfig)
    ensures
        final(out)@ == old(out)@ + steps_sql(s.tables@),
{
    let mut i: usize = 0;
    while i < s.tables.len()
        invariant
            0 <= i <= s.tables@.len(),
            out@ == old(out)@ + steps_sql(s.tables@.take(i as int)),
        decreases s.tables@.len() - i,
    {
        let t = &s.tables[i];
        let ghost mid = out@;
        let mut k: usize = 0;
        while k < t.foreign_keys.len()
            invariant
                0 <= k <= t.foreign_keys@.len(),
                out@ == mid + fk_steps_sql(*t, t.foreign_keys@.take(k as int)),
            decreases t.foreign_keys@.len() - k,
        {
            push_step(out, t, &t.foreign_keys[k]);
            assert(t.foreign_keys@.take(k as int + 1).drop_last() =~= t.foreign_keys@.take(k as int));
            assert(out@ =~= mid + fk_steps_sql(*t, t.foreign_keys@.take(k as int + 1)));
            k = k + 1;
        }
        assert(t.foreign_keys@.take(k as int) =~= t.foreign_keys@);
        assert(s.tables@.take(i as int + 1).drop_last() =~= s.tables@.take(i as int));
        assert(out@ =~= old(out)@ + steps_sql(s.tables@.take(i as int + 1)));
        i = i + 1;
    }
    assert(s.tables@.take(i as int) =~= s.tables@);
}

fn push_select(out: &mut String, t: &TableConfig, col: &ColumnConfig)
    ensures
        final(out)@ == old(out)@ + select_sql(*t, *col),
{
    let c = col.name.as_str();
    out.append("  SELECT \n    st.root_id,\n    CASE WHEN st.path_prefix = '' THEN '");
    out.append(c);
    out.append("' ELSE st.path_prefix || '.' || '");
    out.append(c);
    out.append("' END AS path,\n    CAST(t.");
    out.append(c);
    out.append(" AS TEXT) AS value\n  FROM scope_tree st\n  JOIN ");
    out.append(t.name.as_str());
    out.append(" t ON t.");
    out.append(t.primary_key.as_str());
    out.append(" = st.pk_value\n  WHERE st.table_name = '");
    out.append(t.name.as_str());
    out.append("'\n");
    assert(out@ =~= old(out)@ + select_sql(*t, *col));
}

fn push_sep(out: &mut String, first: bool)
    ensures
        final(out)@ == old(out)@ + union_sep(first),
{
    if !first {
        out.append("  UNION ALL\n");
    } else {
        assert(out@ =~= old(out)@ + union_sep(first));
    }
}

fn push_expand(out: &mut String, s: &SchemaConfig)
    ensures
        final(out)@ == old(out)@ + expand_sql(s.tables@),
{
    let mut i: usize = 0;
    while i < s.tables.len()
        invariant
            0 <= i <= s.tables@.len(),
            out@ == old(out)@ + expand_sql(s.tables@.take(i as int)),
        decreases s.tables@.len() - i,
    {
        let t = &s.tables[i];
        push_sep(out, i == 0);
        let ghost mid = out@;
        let mut j: usize = 0;
        while j < t.columns.len()
            invariant
                0 <= j <= t.columns@.len(),
                out@ == mid + selects_sql(*t, t.columns@.take(j as int)),
            decreases t.columns@.len() - j,
        {
            push_sep(out, j == 0);
            push_select(out, t, &t.columns[j]);
            assert(t.columns@.take(j as int + 1).drop_last() =~= t.columns@.take(j as int));
            assert(out@ =~= mid + selects_sql(*t, t.columns@.take(j as int + 1)));
            j = j + 1;
        }
        assert(t.columns@.take(j as int) =~= t.columns@);
        assert(s.tables@.take(i as int + 1).drop_last() =~= s.tables@.take(i as int));
        assert(out@ =~= old(out)@ + expand_sql(s.tables@.take(i as int + 1)));
        i = i + 1;
    }
    assert(s.tables@.take(i as int) =~= s.tables@);
}

/// Compiles a root fragment against a schema into the traversal statement.
pub fn compile_scope_query(schema: &SchemaConfig, user_query: &str) -> (r: Result<String, CompileError>)
    ensures
        match compiled(*schema, user_query@) {
            Ok(sql) => r matches Ok(out) && out@ == sql,
            Err(None) => r matches Err(CompileError::RootTableNotFound { fragment }) && fragment@ == user_query@,
            Err(Some(name)) => r matches Err(CompileError::RootTableUnknown { table }) && table@ == name,
        },
{
    let q = trim_end_semicolons(user_query);
    let root = match find_root_table(user_query) {
        Some(name) => name,
        None => return Err(CompileError::RootTableNotFound { fragment: user_query.to_string() }),
    };
    let ti = match find_table(schema, root.as_str()) {
        Some(ti) => ti,
        None => return Err(CompileError::RootTableUnknown { table: root }),
    };
    let pk = schema.tables[ti].primary_key.as_str();
    let mut out = String::new();
    out.append("WITH RECURSIVE scope_tree(\n  root_id, path_prefix, pk_value, table_name, depth, visited\n) AS (\n  SELECT ");
    out.append(pk);
    out.append(" AS root_id, '' AS path_prefix, ");
    out.append(pk);
    out.append(" AS pk_value, '");
    out.append(root.as_str());
    out.append("' AS table_name, 1 AS depth, ',' || ");
    out.append(pk);
    out.append(" || ',' AS visited\n  FROM (");
    out.append(q);
    out.append(")\n");
    assert(out@ =~= base_sql(root@, pk@, q@));
    push_steps(&mut out, schema);
    out.append("),\nexpanded AS (\n");
    push_expand(&mut out, schema);
    out.append(")\nSELECT root_id, json_group_object(path, value) AS scope_json\nFROM expanded\nGROUP BY root_id;");
    assert(out@ =~= scope_sql(*schema, root@, pk@, q@));
    Ok(out)
}

/// Compiling is deterministic: two compilations of the same fragment against
/// the same schema give the same outcome, and when they succeed the same
/// statement text.
pub proof fn lemma_compile_deterministic(
    s: SchemaConfig,
    fragment: Seq<char>,
    r1: Result<String, CompileError>,
    r2: Result<String, CompileError>,
)
    requires
        compiled(s, fragment) is Ok,
        r1 matches Ok(a) && a@ == compiled(s, fragment)->Ok_0,
        r2 matches Ok(b) && b@ == compiled(s, fragment)->Ok_0,
    ensures
        r1->Ok_0@ == r2->Ok_0@,
{
}

} // verus!
