//! Statement-kind classification: the first token of a script decides which
//! of the eight statement kinds the whole file is taken to be.

use vstd::prelude::*;

verus! {

/// The eight classification labels a script can receive from its first token.
#[derive(Debug, Clone, Copy, PartialEq, Eq, Structural)]
pub enum SqlStatement {
    Select,
    Insert,
    Update,
    Delete,
    Create,
    Drop,
    Alter,
    Unknown,
}

/// The kind assigned to a statement whose first token is `t`.
pub open spec fn spec_statement_of(t: Seq<char>) -> SqlStatement {
    if t == "select"@ {
        SqlStatement::Select
    } else if t == "insert"@ {
        SqlStatement::Insert
    } else if t == "update"@ {
        SqlStatement::Update
    } else if t == "delete"@ {
        SqlStatement::Delete
    } else if t == "create"@ {
        SqlStatement::Create
    } else if t == "drop"@ {
        SqlStatement::Drop
    } else if t == "alter"@ {
        SqlStatement::Alter
    } else {
        SqlStatement::Unknown
    }
}

/// Classifies a token sequence by its first token.
pub fn get_statement_type(tokens: &Vec<String>) -> (r: SqlStatement)
    requires
        tokens@.len() > 0,
    ensures
        r == spec_statement_of(tokens@[0]@),
{
    let first: &String = &tokens[0];
    if first.eq(&String::from_str("select")) {
        SqlStatement::Select
    } else if first.eq(&String::from_str("insert")) {
        SqlStatement::Insert
    } else if first.eq(&String::from_str("update")) {
        SqlStatement::Update
    } else if first.eq(&String::from_str("delete")) {
        SqlStatement::Delete
    } else if first.eq(&String::from_str("create")) {
        SqlStatement::Create
    } else if first.eq(&String::from_str("drop")) {
        SqlStatement::Drop
    } else if first.eq(&String::from_str("alter")) {
        SqlStatement::Alter
    } else {
        SqlStatement::Unknown
    }
}

} // verus!
