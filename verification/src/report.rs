//! The usage report: for every file classified INSERT and every table it
//! writes, one row naming the SELECT files that read the same table.

use crate::maps::StatementsMap;
use crate::maps::TableMap;
use crate::parsing::contains_string;
use crate::statement::SqlStatement;
use vstd::prelude::*;
use vstd::string::StringExecFns;

verus! {

/// One row of the usage report.
pub struct ReportRow {
    /// The INSERT file, trimmed of its directory prefix.
    pub file: String,
    /// The statement kind of that file, as text.
    pub statement_type: String,
    /// One table the file writes.
    pub table: String,
    /// The SELECT files that read the table, joined with `, `.
    pub used_by: String,
}

impl View for ReportRow {
    type V = (Seq<char>, Seq<char>, Seq<char>, Seq<char>);

    open spec fn view(&self) -> (Seq<char>, Seq<char>, Seq<char>, Seq<char>) {
        (self.file@, self.statement_type@, self.table@, self.used_by@)
    }
}

impl DeepView for ReportRow {
    type V = (Seq<char>, Seq<char>, Seq<char>, Seq<char>);

    open spec fn deep_view(&self) -> (Seq<char>, Seq<char>, Seq<char>, Seq<char>) {
        self.view()
    }
}

/// The parts joined with the separator between each two of them.
pub open spec fn spec_join(parts: Seq<Seq<char>>, sep: Seq<char>) -> Seq<char>
    decreases parts.len(),
{
    if parts.len() == 0 {
        Seq::empty()
    } else if parts.len() == 1 {
        parts[0]
    } else {
        spec_join(parts.drop_last(), sep) + sep + parts.last()
    }
}

/// Joins the strings of `v` with `, ` between each two of them.
pub fn join_comma(v: &Vec<String>) -> (r: String)
    ensures
        r@ == spec_join(v.deep_view(), ", "@),
{
    let n = v.len();
    let mut acc = String::new();
    let mut i: usize = 0;
    proof {
        assert(v.deep_view().take(0) =~= Seq::<Seq<char>>::empty());
    }
    while i < n
        invariant
            n == v@.len(),
            i <= n,
            acc@ == spec_join(v.deep_view().take(i as int), ", "@),
        decreases n - i,
    {
        proof {
            assert(v.deep_view().take(i + 1).drop_last() =~= v.deep_view().take(i as int));
            assert(v.deep_view().take(i + 1).last() == v.deep_view()[i as int]);
        }
        if i > 0 {
            acc.append(", ");
        }
        acc.append(v[i].as_str());
        i = i + 1;
    }
    proof {
        assert(v.deep_view().take(n as int) =~= v.deep_view());
    }
    acc
}

/// The SELECT files, among `selects` in order, whose recorded tables
/// contain `table`.
pub open spec fn spec_used_by(
    selects: Seq<Seq<char>>,
    table_map: Map<Seq<char>, Seq<Seq<char>>>,
    table: Seq<char>,
) -> Seq<Seq<char>>
    decreases selects.len(),
{
    if selects.len() == 0 {
        Seq::empty()
    } else if table_map[selects.last()].contains(table) {
        spec_used_by(selects.drop_last(), table_map, table).push(selects.last())
    } else {
        spec_used_by(selects.drop_last(), table_map, table)
    }
}

/// The report rows of one INSERT file: one row per table it writes, in
/// order, each carrying the joined list of SELECT files that read it.
pub open spec fn spec_rows_for_file(
    file: Seq<char>,
    tables: Seq<Seq<char>>,
    selects: Seq<Seq<char>>,
    table_map: Map<Seq<char>, Seq<Seq<char>>>,
) -> Seq<(Seq<char>, Seq<char>, Seq<char>, Seq<char>)>
    decreases tables.len(),
{
    if tables.len() == 0 {
        Seq::empty()
    } else {
        spec_rows_for_file(file, tables.drop_last(), selects, table_map).push(
            (
                file,
                "Insert"@,
                tables.last(),
                spec_join(spec_used_by(selects, table_map, tables.last()), ", "@),
            ),
        )
    }
}

/// The whole report: the rows of every INSERT file, in order.
pub open spec fn spec_report(
    inserts: Seq<Seq<char>>,
    selects: Seq<Seq<char>>,
    table_map: Map<Seq<char>, Seq<Seq<char>>>,
) -> Seq<(Seq<char>, Seq<char>, Seq<char>, Seq<char>)>
    decreases inserts.len(),
{
    if inserts.len() == 0 {
        Seq::empty()
    } else {
        spec_report(inserts.drop_last(), selects, table_map) + spec_rows_for_file(
            inserts.last(),
            table_map[inserts.last()],
            selects,
            table_map,
        )
    }
}

/// Collects the SELECT files whose tables contain `table`.
fn used_by(select_files: &Vec<String>, table_map: &TableMap, table: &String) -> (used: Vec<String>)
    requires
        table_map.wf(),
        forall|f: Seq<char>|
            select_files.deep_view().contains(f) ==> table_map@.contains_key(f),
    ensures
        used.deep_view() == spec_used_by(select_files.deep_view(), table_map@, table@),
{
    let n = select_files.len();
    let mut used: Vec<String> = Vec::new();
    let mut i: usize = 0;
    proof {
        assert(select_files.deep_view().take(0) =~= Seq::<Seq<char>>::empty());
        assert(used.deep_view() =~= Seq::<Seq<char>>::empty());
    }
    while i < n
        invariant
            table_map.wf(),
            forall|f: Seq<char>|
                select_files.deep_view().contains(f) ==> table_map@.contains_key(f),
            n == select_files@.len(),
            i <= n,
            used.deep_view() == spec_used_by(
                select_files.deep_view().take(i as int),
                table_map@,
                table@,
            ),
        decreases n - i,
    {
        let ghost sdv = select_files.deep_view();
        proof {
            assert(sdv.take(i + 1).drop_last() =~= sdv.take(i as int));
            assert(sdv.take(i + 1).last() == sdv[i as int]);
            assert(sdv.contains(sdv[i as int]));
        }
        let select_file = &select_files[i];
        let select_tables = table_map.get(select_file.as_str()).unwrap();
        if contains_string(select_tables, table) {
            let ghost prev = used.deep_view();
            used.push(select_file.clone());
            proof {
                assert(used.deep_view() =~= prev.push(sdv[i as int]));
            }
        }
        i = i + 1;
    }
    proof {
        assert(select_files.deep_view().take(n as int) =~= select_files.deep_view());
    }
    used
}

/// Builds the rows of one INSERT file.
fn rows_for_file(
    file: &String,
    tables: &Vec<String>,
    select_files: &Vec<String>,
    table_map: &TableMap,
) -> (rows: Vec<ReportRow>)
    requires
        table_map.wf(),
        forall|f: Seq<char>|
            select_files.deep_view().contains(f) ==> table_map@.contains_key(f),
    ensures
        rows.deep_view() == spec_rows_for_file(
            file@,
            tables.deep_view(),
            select_files.deep_view(),
            table_map@,
        ),
{
    let n = tables.len();
    let mut rows: Vec<ReportRow> = Vec::new();
    let mut i: usize = 0;
    proof {
        assert(tables.deep_view().take(0) =~= Seq::<Seq<char>>::empty());
        assert(rows.deep_view() =~= Seq::<
            (Seq<char>, Seq<char>, Seq<char>, Seq<char>),
        >::empty());
    }
    while i < n
        invariant
            table_map.wf(),
            forall|f: Seq<char>|
                select_files.deep_view().contains(f) ==> table_map@.contains_key(f),
            n == tables@.len(),
            i <= n,
            rows.deep_view() == spec_rows_for_file(
                file@,
                tables.deep_view().take(i as int),
                select_files.deep_view(),
                table_map@,
            ),
        decreases n - i,
    {
        let ghost tdv = tables.deep_view();
        proof {
            assert(tdv.take(i + 1).drop_last() =~= tdv.take(i as int));
            assert(tdv.take(i + 1).last() == tdv[i as int]);
        }
        let table = &tables[i];
        let used = used_by(select_files, table_map, table);
        let row = ReportRow {
            file: file.clone(),
            statement_type: String::from_str("Insert"),
            table: table.clone(),
            used_by: join_comma(&used),
        };
        let ghost prev = rows.deep_view();
        let ghost rv = row@;
        rows.push(row);
        proof {
            assert(rows.deep_view() =~= prev.push(rv));
        }
        i = i + 1;
    }
    proof {
        assert(tables.deep_view().take(n as int) =~= tables.deep_view());
    }
    rows
}

/// Builds the usage report: for every file under the INSERT kind, in order,
/// and every table it writes, one row naming the SELECT files whose tables
/// contain it.
pub fn build_report(statements_map: &StatementsMap, table_map: &TableMap) -> (rows: Vec<ReportRow>)
    requires
        table_map.wf(),
        forall|f: Seq<char>|
            statements_map.files_of(SqlStatement::Insert).contains(f) ==> table_map@.contains_key(
                f,
            ),
        forall|f: Seq<char>|
            statements_map.files_of(SqlStatement::Select).contains(f) ==> table_map@.contains_key(
                f,
            ),
    ensures
        rows.deep_view() == spec_report(
            statements_map.files_of(SqlStatement::Insert),
            statements_map.files_of(SqlStatement::Select),
            table_map@,
        ),
{
    let insert_files = statements_map.get(&SqlStatement::Insert).unwrap();
    let select_files = statements_map.get(&SqlStatement::Select).unwrap();
    let ghost idv = insert_files.deep_view();
    let ghost sdv = select_files.deep_view();
    let n = insert_files.len();
    let mut rows: Vec<ReportRow> = Vec::new();
    let mut i: usize = 0;
    proof {
        assert(idv.take(0) =~= Seq::<Seq<char>>::empty());
        assert(rows.deep_view() =~= Seq::<
            (Seq<char>, Seq<char>, Seq<char>, Seq<char>),
        >::empty());
    }
    while i < n
        invariant
            table_map.wf(),
            idv == statements_map.files_of(SqlStatement::Insert),
            sdv == statements_map.files_of(SqlStatement::Select),
            idv == insert_files.deep_view(),
            sdv == select_files.deep_view(),
            forall|f: Seq<char>| idv.contains(f) ==> table_map@.contains_key(f),
            forall|f: Seq<char>| sdv.contains(f) ==> table_map@.contains_key(f),
            n == insert_files@.len(),
            i <= n,
            rows.deep_view() == spec_report(idv.take(i as int), sdv, table_map@),
        decreases n - i,
    {
        proof {
            assert(idv.take(i + 1).drop_last() =~= idv.take(i as int));
            assert(idv.take(i + 1).last() == idv[i as int]);
            assert(idv.contains(idv[i as int]));
        }
        let file = &insert_files[i];
        let insert_tables = table_map.get(file.as_str()).unwrap();
        let file_rows = rows_for_file(file, insert_tables, select_files, table_map);
        let ghost prev = rows.deep_view();
        let ghost frv = file_rows.deep_view();
        let mut file_rows = file_rows;
        rows.append(&mut file_rows);
        proof {
            assert(rows.deep_view() =~= prev + frv);
        }
        i = i + 1;
    }
    proof {
        assert(idv.take(n as int) =~= idv);
    }
    rows
}

} // verus!
