//! The table extractor over token sequences.  For a SELECT statement the
//! table names are the tokens that immediately follow an occurrence of
//! `from`; for an INSERT statement they are the tokens two places after each
//! occurrence of `insert` (skipping the `into` keyword).  No other statement
//! kind yields tables.

use crate::statement::SqlStatement;
use vstd::prelude::*;
use vstd::string::StringExecFns;

verus! {

/// The tables of a SELECT token sequence, scanning from position `i`: the
/// token after each occurrence of `from`.
pub open spec fn spec_select_tables(toks: Seq<Seq<char>>, i: int) -> Seq<Seq<char>>
    decreases toks.len() - i,
{
    if i >= toks.len() {
        Seq::empty()
    } else if toks[i] == "from"@ {
        seq![toks[i + 1]] + spec_select_tables(toks, i + 1)
    } else {
        spec_select_tables(toks, i + 1)
    }
}

/// The tables of an INSERT token sequence, scanning from position `i`: the
/// token two places after each occurrence of `insert`.
pub open spec fn spec_insert_tables(toks: Seq<Seq<char>>, i: int) -> Seq<Seq<char>>
    decreases toks.len() - i,
{
    if i >= toks.len() {
        Seq::empty()
    } else if toks[i] == "insert"@ {
        seq![toks[i + 2]] + spec_insert_tables(toks, i + 1)
    } else {
        spec_insert_tables(toks, i + 1)
    }
}

/// The tables a token sequence of the given statement kind refers to.
pub open spec fn spec_tables_from_tokens(k: SqlStatement, toks: Seq<Seq<char>>) -> Seq<Seq<char>> {
    match k {
        SqlStatement::Select => spec_select_tables(toks, 0),
        SqlStatement::Insert => spec_insert_tables(toks, 0),
        _ => Seq::empty(),
    }
}

/// Every `from` in a SELECT token sequence is followed by one more token, so
/// that extraction reads no position past the end.
pub open spec fn select_indexes_ok(toks: Seq<Seq<char>>) -> bool {
    forall|i: int| 0 <= i < toks.len() && toks[i] == "from"@ ==> i + 1 < toks.len()
}

/// Every `insert` in an INSERT token sequence is followed by two more tokens.
pub open spec fn insert_indexes_ok(toks: Seq<Seq<char>>) -> bool {
    forall|i: int| 0 <= i < toks.len() && toks[i] == "insert"@ ==> i + 2 < toks.len()
}

/// Extraction stays in bounds for a token sequence of the given kind.
pub open spec fn parse_ok(k: SqlStatement, toks: Seq<Seq<char>>) -> bool {
    match k {
        SqlStatement::Select => select_indexes_ok(toks),
        SqlStatement::Insert => insert_indexes_ok(toks),
        _ => true,
    }
}

/// Extracts the tables of a token sequence, or `None` where a keyword stands
/// too close to the end for the token it announces to exist.
pub fn try_parse_tables_from_tokens(statement_type: &SqlStatement, tokens: &Vec<String>) -> (r:
    Option<Vec<String>>)
    ensures
        r is Some <==> parse_ok(*statement_type, tokens.deep_view()),
        r is Some ==> r->0.deep_view() == spec_tables_from_tokens(
            *statement_type,
            tokens.deep_view(),
        ),
{
    let ghost toks = tokens.deep_view();
    let mut tables: Vec<String> = Vec::new();
    match statement_type {
        SqlStatement::Select => {
            let kw = String::from_str("from");
            let n = tokens.len();
            let mut i: usize = 0;
            proof {
                assert(tables.deep_view() =~= Seq::<Seq<char>>::empty());
                assert(tables.deep_view() + spec_select_tables(toks, 0) =~= spec_select_tables(
                    toks,
                    0,
                ));
            }
            while i < n
                invariant
                    *statement_type == SqlStatement::Select,
                    kw@ == "from"@,
                    n == toks.len(),
                    toks == tokens.deep_view(),
                    i <= n,
                    forall|j: int| 0 <= j < i && toks[j] == "from"@ ==> j + 1 < toks.len(),
                    spec_select_tables(toks, 0) == tables.deep_view() + spec_select_tables(
                        toks,
                        i as int,
                    ),
                decreases n - i,
            {
                if tokens[i].eq(&kw) {
                    if i + 1 < n {
                        let ghost prev = tables.deep_view();
                        tables.push(tokens[i + 1].clone());
                        proof {
                            assert(tables.deep_view() =~= prev.push(toks[i + 1]));
                            assert(tables.deep_view() + spec_select_tables(toks, i + 1) =~= prev + (
                            seq![toks[i + 1]] + spec_select_tables(toks, i + 1)));
                        }
                    } else {
                        proof {
                            assert(toks[i as int] == "from"@ && !(i + 1 < toks.len()));
                            assert(!select_indexes_ok(toks));
                        }
                        return None;
                    }
                }
                i = i + 1;
            }
            proof {
                assert(spec_select_tables(toks, n as int) =~= Seq::<Seq<char>>::empty());
                assert(tables.deep_view() + spec_select_tables(toks, n as int)
                    =~= tables.deep_view());
            }
            Some(tables)
        },
        SqlStatement::Insert => {
            let kw = String::from_str("insert");
            let n = tokens.len();
            let mut i: usize = 0;
            proof {
                assert(tables.deep_view() =~= Seq::<Seq<char>>::empty());
                assert(tables.deep_view() + spec_insert_tables(toks, 0) =~= spec_insert_tables(
                    toks,
                    0,
                ));
            }
            while i < n
                invariant
                    *statement_type == SqlStatement::Insert,
                    kw@ == "insert"@,
                    n == toks.len(),
                    toks == tokens.deep_view(),
                    i <= n,
                    forall|j: int| 0 <= j < i && toks[j] == "insert"@ ==> j + 2 < toks.len(),
                    spec_insert_tables(toks, 0) == tables.deep_view() + spec_insert_tables(
                        toks,
                        i as int,
                    ),
                decreases n - i,
            {
                if tokens[i].eq(&kw) {
                    if n - i > 2 {
                        let ghost prev = tables.deep_view();
                        tables.push(tokens[i + 2].clone());
                        proof {
                            assert(tables.deep_view() =~= prev.push(toks[i + 2]));
                            assert(tables.deep_view() + spec_insert_tables(toks, i + 1) =~= prev + (
                            seq![toks[i + 2]] + spec_insert_tables(toks, i + 1)));
                        }
                    } else {
                        proof {
                            assert(toks[i as int] == "insert"@ && !(i + 2 < toks.len()));
                            assert(!insert_indexes_ok(toks));
                        }
                        return None;
                    }
                }
                i = i + 1;
            }
            proof {
                assert(spec_insert_tables(toks, n as int) =~= Seq::<Seq<char>>::empty());
                assert(tables.deep_view() + spec_insert_tables(toks, n as int)
                    =~= tables.deep_view());
            }
            Some(tables)
        },
        _ => {
            proof {
                assert(tables.deep_view() =~= Seq::<Seq<char>>::empty());
            }
            Some(tables)
        },
    }
}

/// Extracts the tables of a token sequence whose keywords are known to stand
/// clear of the end.
pub fn parse_tables_from_tokens(statement_type: &SqlStatement, tokens: &Vec<String>) -> (r: Vec<
    String,
>)
    requires
        parse_ok(*statement_type, tokens.deep_view()),
    ensures
        r.deep_view() == spec_tables_from_tokens(*statement_type, tokens.deep_view()),
{
    try_parse_tables_from_tokens(statement_type, tokens).unwrap()
}

} // verus!
