//! Heuristic lexical scanner for directories of single-statement SQL script
//! files: a tokenizer, a statement-kind classifier, a table-name extractor,
//! and the aggregation maps that cross-reference which SELECT files read the
//! tables that INSERT files write.

mod lexer;
mod maps;
mod parsing;
mod pathname;
mod report;
mod statement;
mod tables;

pub use lexer::lex_text;
pub use lexer::tokenize;
pub use maps::init_statements_map;
pub use maps::populate_maps_for_file;
pub use maps::FileOutcome;
pub use maps::StatementsMap;
pub use maps::TableMap;
pub use parsing::contains_string;
pub use parsing::parse_tables;
pub use pathname::has_sql_extension;
pub use pathname::trim_prefix_from;
pub use report::build_report;
pub use report::join_comma;
pub use report::ReportRow;
pub use statement::get_statement_type;
pub use statement::SqlStatement;
pub use tables::parse_tables_from_tokens;
pub use tables::try_parse_tables_from_tokens;
