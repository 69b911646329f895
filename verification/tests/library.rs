use sql_scan::build_report;
use sql_scan::get_statement_type;
use sql_scan::init_statements_map;
use sql_scan::join_comma;
use sql_scan::lex_text;
use sql_scan::parse_tables;
use sql_scan::parse_tables_from_tokens;
use sql_scan::populate_maps_for_file;
use sql_scan::tokenize;
use sql_scan::trim_prefix_from;
use sql_scan::try_parse_tables_from_tokens;
use sql_scan::FileOutcome;
use sql_scan::SqlStatement;
use sql_scan::TableMap;

#[test]
fn test_trim_prefix_from() {
    let file_name = "src/test/data/insert.sql";
    let file_name_trimmed = trim_prefix_from(&file_name);
    assert_eq!(file_name_trimmed, "insert.sql");
}

#[test]
fn test_select_with_cols() {
    let tokens_with_cols = lex_text("SELECT *, title, platforms, released\nFROM video_games;");

    assert_eq!(
        tokens_with_cols,
        vec![
            "select",
            "*",
            "title",
            "platforms",
            "released",
            "from",
            "video_games"
        ]
    );
    assert_eq!(get_statement_type(&tokens_with_cols), SqlStatement::Select);
}

#[test]
fn test_insert_vg() {
    let tokens_insert_vg =
        lex_text("INSERT INTO video_games (title, platforms) VALUES ('Doom', 'PC');");
    assert_eq!(get_statement_type(&tokens_insert_vg), SqlStatement::Insert);
}

#[test]
fn test_populate_statements_and_tables_map() {
    let mut statements_map = init_statements_map();
    let mut table_map = TableMap::new();

    let files = [
        (
            "src/test/data/insert_vg.sql",
            "INSERT INTO video_games (title, platforms) VALUES ('Doom', 'PC');",
        ),
        (
            "src/test/data/select.sql",
            "SELECT * FROM video_games;",
        ),
        (
            "src/test/data/select_another.sql",
            "SELECT * FROM publishers;",
        ),
        (
            "src/test/data/select_with_cols.sql",
            "SELECT *, title, platforms, released\nFROM video_games;",
        ),
    ];
    for (path, content) in files {
        let outcome = populate_maps_for_file(path, content, &mut statements_map, &mut table_map);
        assert_eq!(outcome, FileOutcome::Added);
    }

    assert_eq!(statements_map.len(), 8);
    assert_eq!(statements_map.get(&SqlStatement::Select).unwrap().len(), 3);
    assert_eq!(statements_map.get(&SqlStatement::Insert).unwrap().len(), 1);

    assert_eq!(table_map.len(), 4);
    assert_eq!(
        *table_map.get("select_with_cols.sql").unwrap(),
        vec!["video_games".to_string()]
    );
    assert_eq!(
        *table_map.get("insert_vg.sql").unwrap(),
        vec!["video_games".to_string()]
    );
    assert_eq!(
        *table_map.get("select_another.sql").unwrap(),
        vec!["publishers".to_string()]
    );
}

#[test]
fn lexer_lowercases_and_splits() {
    // Would fail if the lowercasing step handed its input back unchanged.
    let tokens = lex_text("SELECT Title FROM Video_Games");
    assert_eq!(tokens, vec!["select", "title", "from", "video_games"]);
}

#[test]
fn lexer_drops_empty_and_punctuation_tokens() {
    assert_eq!(lex_text(""), Vec::<String>::new());
    assert_eq!(lex_text(" ,;\n\t"), Vec::<String>::new());
    assert_eq!(lex_text("a,,b;;c\n\nd\t\te  f"), vec!["a", "b", "c", "d", "e", "f"]);
}

#[test]
fn tokenize_keeps_case() {
    assert_eq!(tokenize("SELECT x"), vec!["SELECT", "x"]);
}

#[test]
fn classifies_every_statement_kind() {
    let cases = [
        ("select * from t", SqlStatement::Select),
        ("insert into t values (1)", SqlStatement::Insert),
        ("update t set a = 1", SqlStatement::Update),
        ("delete from t", SqlStatement::Delete),
        ("create table t (a int)", SqlStatement::Create),
        ("drop table t", SqlStatement::Drop),
        ("alter table t add b int", SqlStatement::Alter),
        ("explain select * from t", SqlStatement::Unknown),
    ];
    for (text, kind) in cases {
        let tokens = lex_text(text);
        assert_eq!(get_statement_type(&tokens), kind);
    }
}

#[test]
fn select_tables_follow_each_from() {
    let tokens = lex_text("select a from t1 union select b from t2");
    let tables = parse_tables_from_tokens(&SqlStatement::Select, &tokens);
    assert_eq!(tables, vec!["t1", "t2"]);
}

#[test]
fn insert_table_stands_two_after_the_keyword() {
    let tokens = lex_text("insert into games (title) values ('Myst')");
    let tables = parse_tables_from_tokens(&SqlStatement::Insert, &tokens);
    assert_eq!(tables, vec!["games"]);
}

#[test]
fn other_kinds_yield_no_tables() {
    let tokens = lex_text("update t set a = 1");
    let tables = parse_tables_from_tokens(&SqlStatement::Update, &tokens);
    assert_eq!(tables, Vec::<String>::new());
    let tokens = lex_text("drop table t");
    assert_eq!(
        parse_tables_from_tokens(&SqlStatement::Drop, &tokens),
        Vec::<String>::new()
    );
}

#[test]
fn trailing_keyword_is_rejected() {
    let tokens = lex_text("select x from");
    assert_eq!(try_parse_tables_from_tokens(&SqlStatement::Select, &tokens), None);
    let tokens = lex_text("insert into");
    assert_eq!(try_parse_tables_from_tokens(&SqlStatement::Insert, &tokens), None);
    let tokens = lex_text("select x from t");
    assert_eq!(
        try_parse_tables_from_tokens(&SqlStatement::Select, &tokens),
        Some(vec!["t".to_string()])
    );
}

#[test]
fn parse_tables_finds_distinct_names() {
    assert_eq!(parse_tables("select * from video_games"), vec!["video_games"]);
    assert_eq!(
        parse_tables("select a from alpha, x from beta where y in (select b from alpha)"),
        vec!["alpha", "beta"]
    );
    // A digit ends a name: the captured run holds letters and underscores
    // alone.
    assert_eq!(parse_tables("select a from t1"), vec!["t"]);
}

#[test]
fn parse_tables_lowercases_first() {
    // Would fail if the lowercasing step handed its input back unchanged.
    assert_eq!(parse_tables("SELECT * FROM Video_Games"), vec!["video_games"]);
}

#[test]
fn parse_tables_matches_inside_words() {
    // The four letters are found wherever they stand, as a lexical scan.
    assert_eq!(parse_tables("fromage"), vec!["age"]);
}

#[test]
fn parse_tables_skips_whitespace_and_may_capture_nothing() {
    assert_eq!(parse_tables("select * from \t\n  wide_gap"), vec!["wide_gap"]);
    assert_eq!(parse_tables("select * from"), vec![""]);
    assert_eq!(parse_tables("from 1x"), vec![""]);
}

#[test]
fn trim_keeps_a_bare_name_and_empties_on_trailing_slash() {
    assert_eq!(trim_prefix_from("insert.sql"), "insert.sql");
    assert_eq!(trim_prefix_from("a/b/"), "");
    assert_eq!(trim_prefix_from(""), "");
}

#[test]
fn statements_map_starts_empty() {
    let m = init_statements_map();
    assert_eq!(m.len(), 8);
    assert_eq!(m.get(&SqlStatement::Select).unwrap().len(), 0);
    assert_eq!(m.get(&SqlStatement::Unknown).unwrap().len(), 0);
}

#[test]
fn table_map_insert_replaces() {
    let mut m = TableMap::new();
    assert_eq!(m.len(), 0);
    assert!(m.get("a.sql").is_none());
    m.insert("a.sql".to_string(), vec!["t1".to_string()]);
    m.insert("b.sql".to_string(), vec!["t2".to_string()]);
    assert_eq!(m.len(), 2);
    m.insert("a.sql".to_string(), vec!["t3".to_string()]);
    assert_eq!(m.len(), 2);
    assert_eq!(*m.get("a.sql").unwrap(), vec!["t3".to_string()]);
    assert_eq!(*m.get("b.sql").unwrap(), vec!["t2".to_string()]);
}

#[test]
fn populate_outcomes() {
    let mut statements_map = init_statements_map();
    let mut table_map = TableMap::new();
    let outcome = populate_maps_for_file(
        "notes.txt",
        "select * from t",
        &mut statements_map,
        &mut table_map,
    );
    assert_eq!(outcome, FileOutcome::Skipped);
    let outcome =
        populate_maps_for_file("empty.sql", " ; ", &mut statements_map, &mut table_map);
    assert_eq!(outcome, FileOutcome::Malformed);
    let outcome = populate_maps_for_file(
        "bad.sql",
        "select x from",
        &mut statements_map,
        &mut table_map,
    );
    assert_eq!(outcome, FileOutcome::Malformed);
    assert_eq!(table_map.len(), 0);
    let outcome = populate_maps_for_file(
        "dir/good.sql",
        "SELECT * FROM t",
        &mut statements_map,
        &mut table_map,
    );
    assert_eq!(outcome, FileOutcome::Added);
    assert_eq!(statements_map.get(&SqlStatement::Select).unwrap().len(), 1);
    assert_eq!(
        statements_map.get(&SqlStatement::Select).unwrap()[0],
        "good.sql"
    );
    assert_eq!(*table_map.get("good.sql").unwrap(), vec!["t".to_string()]);
}

#[test]
fn join_comma_separates() {
    assert_eq!(join_comma(&Vec::new()), "");
    assert_eq!(join_comma(&vec!["a".to_string()]), "a");
    assert_eq!(
        join_comma(&vec!["a".to_string(), "b".to_string(), "c".to_string()]),
        "a, b, c"
    );
}

#[test]
fn report_cross_references_insert_and_select() {
    let mut statements_map = init_statements_map();
    let mut table_map = TableMap::new();
    let files = [
        ("insert_vg.sql", "INSERT INTO video_games (title) VALUES ('Doom');"),
        ("select_one.sql", "SELECT * FROM video_games;"),
        ("select_two.sql", "SELECT title FROM video_games;"),
        ("select_other.sql", "SELECT * FROM publishers;"),
    ];
    for (path, content) in files {
        let outcome = populate_maps_for_file(path, content, &mut statements_map, &mut table_map);
        assert_eq!(outcome, FileOutcome::Added);
    }
    let rows = build_report(&statements_map, &table_map);
    assert_eq!(rows.len(), 1);
    assert_eq!(rows[0].file, "insert_vg.sql");
    assert_eq!(rows[0].statement_type, "Insert");
    assert_eq!(rows[0].table, "video_games");
    assert_eq!(rows[0].used_by, "select_one.sql, select_two.sql");
}

#[test]
fn report_is_empty_without_insert_files() {
    let mut statements_map = init_statements_map();
    let mut table_map = TableMap::new();
    let outcome = populate_maps_for_file(
        "select_one.sql",
        "SELECT * FROM t;",
        &mut statements_map,
        &mut table_map,
    );
    assert_eq!(outcome, FileOutcome::Added);
    let rows = build_report(&statements_map, &table_map);
    assert_eq!(rows.len(), 0);
}
