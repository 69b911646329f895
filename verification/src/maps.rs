//! The two aggregation maps.  `StatementsMap` lists, for every statement
//! kind, the files classified under it, in the order they were scanned.
//! `TableMap` maps a file name to the table names its statement refers to.

use crate::lexer::lex_text;
use crate::lexer::lower_of;
use crate::lexer::spec_tokens;
use crate::pathname::has_sql_extension;
use crate::pathname::is_sql_name;
use crate::pathname::spec_basename;
use crate::pathname::trim_prefix_from;
use crate::statement::get_statement_type;
use crate::statement::spec_statement_of;
use crate::statement::SqlStatement;
use crate::tables::parse_ok;
use crate::tables::spec_tables_from_tokens;
use crate::tables::try_parse_tables_from_tokens;
use vstd::prelude::*;

verus! {

/// For every statement kind, the files classified under it.  Every kind is
/// present from creation, as in a map with one entry per kind.
pub struct StatementsMap {
    select_files: Vec<String>,
    insert_files: Vec<String>,
    update_files: Vec<String>,
    delete_files: Vec<String>,
    create_files: Vec<String>,
    drop_files: Vec<String>,
    alter_files: Vec<String>,
    unknown_files: Vec<String>,
}

impl StatementsMap {
    /// The file names recorded under the kind `k`, oldest first.
    pub closed spec fn files_of(self, k: SqlStatement) -> Seq<Seq<char>> {
        match k {
            SqlStatement::Select => self.select_files.deep_view(),
            SqlStatement::Insert => self.insert_files.deep_view(),
            SqlStatement::Update => self.update_files.deep_view(),
            SqlStatement::Delete => self.delete_files.deep_view(),
            SqlStatement::Create => self.create_files.deep_view(),
            SqlStatement::Drop => self.drop_files.deep_view(),
            SqlStatement::Alter => self.alter_files.deep_view(),
            SqlStatement::Unknown => self.unknown_files.deep_view(),
        }
    }

    /// The number of statement kinds tracked; every kind is present, so
    /// this is the number of entries of the map.
    pub fn len(&self) -> (n: usize)
        ensures
            n == 8,
    {
        8
    }

    /// The file list of the kind `k`; every kind is present, so the result
    /// is never `None`.
    pub fn get(&self, statement_type: &SqlStatement) -> (r: Option<&Vec<String>>)
        ensures
            r is Some,
            r->0.deep_view() == self.files_of(*statement_type),
    {
        match statement_type {
            SqlStatement::Select => Some(&self.select_files),
            SqlStatement::Insert => Some(&self.insert_files),
            SqlStatement::Update => Some(&self.update_files),
            SqlStatement::Delete => Some(&self.delete_files),
            SqlStatement::Create => Some(&self.create_files),
            SqlStatement::Drop => Some(&self.drop_files),
            SqlStatement::Alter => Some(&self.alter_files),
            SqlStatement::Unknown => Some(&self.unknown_files),
        }
    }

    /// Appends `file_name` to the list of the kind `k`; the other kinds
    /// keep their lists.
    pub fn push_file(&mut self, statement_type: &SqlStatement, file_name: String)
        ensures
            final(self).files_of(*statement_type) == old(self).files_of(*statement_type).push(
                file_name@,
            ),
            forall|k: SqlStatement|
                k != *statement_type ==> final(self).files_of(k) == old(self).files_of(k),
    {
        let ghost name = file_name@;
        match statement_type {
            SqlStatement::Select => {
                let ghost prev = self.select_files.deep_view();
                self.select_files.push(file_name);
                proof {
                    assert(self.select_files.deep_view() =~= prev.push(name));
                }
            },
            SqlStatement::Insert => {
                let ghost prev = self.insert_files.deep_view();
                self.insert_files.push(file_name);
                proof {
                    assert(self.insert_files.deep_view() =~= prev.push(name));
                }
            },
            SqlStatement::Update => {
                let ghost prev = self.update_files.deep_view();
                self.update_files.push(file_name);
                proof {
                    assert(self.update_files.deep_view() =~= prev.push(name));
                }
            },
            SqlStatement::Delete => {
                let ghost prev = self.delete_files.deep_view();
                self.delete_files.push(file_name);
                proof {
                    assert(self.delete_files.deep_view() =~= prev.push(name));
                }
            },
            SqlStatement::Create => {
                let ghost prev = self.create_files.deep_view();
                self.create_files.push(file_name);
                proof {
                    assert(self.create_files.deep_view() =~= prev.push(name));
                }
            },
            SqlStatement::Drop => {
                let ghost prev = self.drop_files.deep_view();
                self.drop_files.push(file_name);
                proof {
                    assert(self.drop_files.deep_view() =~= prev.push(name));
                }
            },
            SqlStatement::Alter => {
                let ghost prev = self.alter_files.deep_view();
                self.alter_files.push(file_name);
                proof {
                    assert(self.alter_files.deep_view() =~= prev.push(name));
                }
            },
            SqlStatement::Unknown => {
                let ghost prev = self.unknown_files.deep_view();
                self.unknown_files.push(file_name);
                proof {
                    assert(self.unknown_files.deep_view() =~= prev.push(name));
                }
            },
        }
    }
}

/// A fresh map with an empty file list under every statement kind.
pub fn init_statements_map() -> (m: StatementsMap)
    ensures
        forall|k: SqlStatement| m.files_of(k) == Seq::<Seq<char>>::empty(),
{
    let m = StatementsMap {
        select_files: Vec::new(),
        insert_files: Vec::new(),
        update_files: Vec::new(),
        delete_files: Vec::new(),
        create_files: Vec::new(),
        drop_files: Vec::new(),
        alter_files: Vec::new(),
        unknown_files: Vec::new(),
    };
    proof {
        assert(m.select_files.deep_view() =~= Seq::<Seq<char>>::empty());
        assert(m.insert_files.deep_view() =~= Seq::<Seq<char>>::empty());
        assert(m.update_files.deep_view() =~= Seq::<Seq<char>>::empty());
        assert(m.delete_files.deep_view() =~= Seq::<Seq<char>>::empty());
        assert(m.create_files.deep_view() =~= Seq::<Seq<char>>::empty());
        assert(m.drop_files.deep_view() =~= Seq::<Seq<char>>::empty());
        assert(m.alter_files.deep_view() =~= Seq::<Seq<char>>::empty());
        assert(m.unknown_files.deep_view() =~= Seq::<Seq<char>>::empty());
    }
    m
}

/// A map from file name to the table names that file refers to, held as a
/// list of pairs with pairwise distinct keys.
pub struct TableMap {
    entries: Vec<(String, Vec<String>)>,
}

impl View for TableMap {
    type V = Map<Seq<char>, Seq<Seq<char>>>;

    closed spec fn view(&self) -> Map<Seq<char>, Seq<Seq<char>>> {
        TableMap::spec_map_of(self.entries@)
    }
}

impl TableMap {
    /// The map an entry list stands for; a later entry would win, though
    /// well-formed lists never repeat a key.
    closed spec fn spec_map_of(entries: Seq<(String, Vec<String>)>) -> Map<Seq<char>, Seq<Seq<char>>>
        decreases entries.len(),
    {
        if entries.len() == 0 {
            Map::empty()
        } else {
            TableMap::spec_map_of(entries.drop_last()).insert(
                entries.last().0@,
                entries.last().1.deep_view(),
            )
        }
    }

    /// The entry list never repeats a key.
    pub closed spec fn wf(self) -> bool {
        forall|i: int, j: int|
            0 <= i < j < self.entries@.len() ==> self.entries@[i].0@ != self.entries@[j].0@
    }

    proof fn lemma_contains(entries: Seq<(String, Vec<String>)>, k: Seq<char>)
        ensures
            TableMap::spec_map_of(entries).contains_key(k) <==> (exists|i: int|
                0 <= i < entries.len() && entries[i].0@ == k),
        decreases entries.len(),
    {
        if entries.len() > 0 {
            let q = entries.drop_last();
            TableMap::lemma_contains(q, k);
            assert(forall|i: int| 0 <= i < q.len() ==> q[i] == entries[i]);
            if TableMap::spec_map_of(entries).contains_key(k) {
                if k == entries.last().0@ {
                    assert(entries[entries.len() - 1].0@ == k);
                } else {
                    let i = choose|i: int| 0 <= i < q.len() && q[i].0@ == k;
                    assert(entries[i].0@ == k);
                }
            }
            if exists|i: int| 0 <= i < entries.len() && entries[i].0@ == k {
                let i = choose|i: int| 0 <= i < entries.len() && entries[i].0@ == k;
                if i < entries.len() - 1 {
                    assert(q[i].0@ == k);
                }
            }
        }
    }

    proof fn lemma_index(entries: Seq<(String, Vec<String>)>, i: int)
        requires
            forall|a: int, b: int| 0 <= a < b < entries.len() ==> entries[a].0@ != entries[b].0@,
            0 <= i < entries.len(),
        ensures
            TableMap::spec_map_of(entries).contains_key(entries[i].0@),
            TableMap::spec_map_of(entries)[entries[i].0@] == entries[i].1.deep_view(),
        decreases entries.len(),
    {
        let q = entries.drop_last();
        assert(forall|a: int| 0 <= a < q.len() ==> q[a] == entries[a]);
        if i == entries.len() - 1 {
        } else {
            TableMap::lemma_index(q, i);
            assert(entries[i].0@ != entries.last().0@);
        }
    }

    proof fn lemma_dom_len(entries: Seq<(String, Vec<String>)>)
        requires
            forall|a: int, b: int| 0 <= a < b < entries.len() ==> entries[a].0@ != entries[b].0@,
        ensures
            TableMap::spec_map_of(entries).dom().finite(),
            TableMap::spec_map_of(entries).dom().len() == entries.len(),
        decreases entries.len(),
    {
        if entries.len() == 0 {
            assert(TableMap::spec_map_of(entries).dom() =~= Set::<Seq<char>>::empty());
        } else {
            let q = entries.drop_last();
            assert(forall|a: int| 0 <= a < q.len() ==> q[a] == entries[a]);
            TableMap::lemma_dom_len(q);
            TableMap::lemma_contains(q, entries.last().0@);
            assert(!TableMap::spec_map_of(q).contains_key(entries.last().0@));
            assert(TableMap::spec_map_of(entries).dom() =~= TableMap::spec_map_of(q).dom().insert(
                entries.last().0@,
            ));
        }
    }

    /// A fresh, empty map.
    pub fn new() -> (m: TableMap)
        ensures
            m@ == Map::<Seq<char>, Seq<Seq<char>>>::empty(),
            m.wf(),
    {
        TableMap { entries: Vec::new() }
    }

    /// The number of files recorded.
    pub fn len(&self) -> (n: usize)
        requires
            self.wf(),
        ensures
            n == self@.dom().len(),
    {
        proof {
            TableMap::lemma_dom_len(self.entries@);
        }
        self.entries.len()
    }

    /// The table list recorded for `file`, or `None` where no statement of
    /// that file was recorded.
    pub fn get(&self, file: &str) -> (r: Option<&Vec<String>>)
        requires
            self.wf(),
        ensures
            r is Some <==> self@.contains_key(file@),
            r is Some ==> r->0.deep_view() == self@[file@],
    {
        proof {
            TableMap::lemma_contains(self.entries@, file@);
        }
        let key = String::from_str(file);
        let n = self.entries.len();
        let mut i: usize = 0;
        while i < n
            invariant
                key@ == file@,
                self.wf(),
                n == self.entries@.len(),
                i <= n,
                forall|j: int| 0 <= j < i ==> self.entries@[j].0@ != file@,
            decreases n - i,
        {
            if self.entries[i].0.eq(&key) {
                proof {
                    TableMap::lemma_index(self.entries@, i as int);
                }
                return Some(&self.entries[i].1);
            }
            i = i + 1;
        }
        proof {
            TableMap::lemma_contains(self.entries@, file@);
        }
        None
    }

    /// Records `tables` for `file`, replacing what an earlier statement of
    /// the same file name had recorded.
    pub fn insert(&mut self, file: String, tables: Vec<String>)
        requires
            old(self).wf(),
        ensures
            final(self).wf(),
            final(self)@ == old(self)@.insert(file@, tables.deep_view()),
    {
        let ghost old_e = self.entries@;
        let ghost fk = file@;
        let ghost tv = tables.deep_view();
        let n = self.entries.len();
        let mut i: usize = 0;
        while i < n
            invariant
                old(self).entries@ == old_e,
                old(self).wf(),
                self.entries@ == old_e,
                fk == file@,
                tv == tables.deep_view(),
                n == old_e.len(),
                i <= n,
                forall|j: int| 0 <= j < i ==> old_e[j].0@ != fk,
            decreases n - i,
        {
            if self.entries[i].0.eq(&file) {
                self.entries[i] = (file, tables);
                proof {
                    let new_e = self.entries@;
                    assert(new_e == old_e.update(i as int, new_e[i as int]));
                    assert(new_e[i as int].0@ == fk && new_e[i as int].1.deep_view() == tv);
                    assert(forall|j: int| 0 <= j < new_e.len() && j != i ==> new_e[j] == old_e[j]);
                    assert(self.wf());
                    TableMap::lemma_map_update(old_e, new_e, i as int, fk, tv);
                }
                return ;
            }
            i = i + 1;
        }
        self.entries.push((file, tables));
        proof {
            let new_e = self.entries@;
            assert(new_e.drop_last() =~= old_e);
            assert(new_e.last().0@ == fk && new_e.last().1.deep_view() == tv);
            assert(self.wf());
        }
    }

    proof fn lemma_map_update(
        old_e: Seq<(String, Vec<String>)>,
        new_e: Seq<(String, Vec<String>)>,
        i: int,
        fk: Seq<char>,
        tv: Seq<Seq<char>>,
    )
        requires
            forall|a: int, b: int| 0 <= a < b < old_e.len() ==> old_e[a].0@ != old_e[b].0@,
            forall|a: int, b: int| 0 <= a < b < new_e.len() ==> new_e[a].0@ != new_e[b].0@,
            0 <= i < old_e.len(),
            new_e.len() == old_e.len(),
            old_e[i].0@ == fk,
            new_e[i].0@ == fk,
            new_e[i].1.deep_view() == tv,
            forall|j: int| 0 <= j < new_e.len() && j != i ==> new_e[j] == old_e[j],
        ensures
            TableMap::spec_map_of(new_e) == TableMap::spec_map_of(old_e).insert(fk, tv),
    {
        let lhs = TableMap::spec_map_of(new_e);
        let rhs = TableMap::spec_map_of(old_e).insert(fk, tv);
        assert forall|k: Seq<char>| lhs.contains_key(k) == rhs.contains_key(k) by {
            TableMap::lemma_contains(new_e, k);
            TableMap::lemma_contains(old_e, k);
            if k == fk {
                assert(new_e[i].0@ == k);
            } else {
                if exists|j: int| 0 <= j < new_e.len() && new_e[j].0@ == k {
                    let j = choose|j: int| 0 <= j < new_e.len() && new_e[j].0@ == k;
                    assert(old_e[j].0@ == k);
                }
                if exists|j: int| 0 <= j < old_e.len() && old_e[j].0@ == k {
                    let j = choose|j: int| 0 <= j < old_e.len() && old_e[j].0@ == k;
                    assert(new_e[j].0@ == k);
                }
            }
        }
        assert forall|k: Seq<char>| lhs.contains_key(k) implies lhs[k] == rhs[k] by {
            if k == fk {
                TableMap::lemma_index(new_e, i);
            } else {
                TableMap::lemma_contains(new_e, k);
                let j = choose|j: int| 0 <= j < new_e.len() && new_e[j].0@ == k;
                TableMap::lemma_index(new_e, j);
                TableMap::lemma_index(old_e, j);
            }
        }
        assert(lhs =~= rhs);
    }
}

/// What one directory entry contributes to the maps.
#[derive(Debug, Clone, Copy, PartialEq, Eq, Structural)]
pub enum FileOutcome {
    /// The file was scanned and both maps were extended.
    Added,
    /// The file name has no `.sql` extension, so the file was not scanned.
    Skipped,
    /// The file has no token at all, or a statement keyword stands too
    /// close to the end for the table it announces; nothing was recorded.
    Malformed,
}

/// Scans one file, given its path and its text: a `.sql` file is lexed,
/// classified by its first token, and recorded under its trimmed name in
/// both maps, with the tables its statement refers to.
pub fn populate_maps_for_file(
    file_name: &str,
    content: &str,
    statements_map: &mut StatementsMap,
    table_map: &mut TableMap,
) -> (r: FileOutcome)
    requires
        old(table_map).wf(),
    ensures
        final(table_map).wf(),
        ({
            let toks = spec_tokens(lower_of(content@));
            let kind = spec_statement_of(toks[0]);
            let trimmed = spec_basename(file_name@);
            &&& (r == FileOutcome::Skipped <==> !is_sql_name(file_name@))
            &&& (r == FileOutcome::Malformed <==> is_sql_name(file_name@) && (toks.len() == 0
                || !parse_ok(kind, toks)))
            &&& (r != FileOutcome::Added ==> *final(statements_map) == *old(statements_map)
                && final(table_map)@ == old(table_map)@)
            &&& (r == FileOutcome::Added ==> {
                &&& final(statements_map).files_of(kind) == old(statements_map).files_of(
                    kind,
                ).push(trimmed)
                &&& (forall|k: SqlStatement|
                    k != kind ==> final(statements_map).files_of(k) == old(statements_map).files_of(
                        k,
                    ))
                &&& final(table_map)@ == old(table_map)@.insert(
                    trimmed,
                    spec_tables_from_tokens(kind, toks),
                )
            })
        }),
{
    if !has_sql_extension(file_name) {
        return FileOutcome::Skipped;
    }
    let tokens = lex_text(content);
    if tokens.len() == 0 {
        return FileOutcome::Malformed;
    }
    let statement_type = get_statement_type(&tokens);
    match try_parse_tables_from_tokens(&statement_type, &tokens) {
        Option::None => FileOutcome::Malformed,
        Option::Some(tables) => {
            let trimmed = trim_prefix_from(file_name);
            statements_map.push_file(&statement_type, trimmed.clone());
            table_map.insert(trimmed, tables);
            FileOutcome::Added
        },
    }
}

} // verus!
