use codegraph_ui::error::{AppError, Status};
use codegraph_ui::sql::{
    buckets, count, edges_statement, escape_like, json_array, json_filter_array, load_edges,
    load_files, load_nodes, load_nodes_by_ids, nodes_statement, optional_count, table_exists,
    SqlValue, Statement, EDGES, FILES, LANGUAGES, NODES, NODES_BY_IDS,
};

fn strings(values: &[&str]) -> Vec<String> {
    values.iter().map(|value| value.to_string()).collect()
}

fn text(value: &str) -> SqlValue {
    SqlValue::Text(value.to_string())
}

const ORDER: &str = " order by case kind when 'file' then 0 when 'class' then 1 when 'interface' then 2 when 'function' then 3 when 'method' then 4 else 5 end, file_path, start_line limit ?";

fn nodes(limit: usize, query: &str, languages: &[&str], kinds: &[&str]) -> Statement {
    load_nodes(limit, query, &strings(languages), &strings(kinds)).unwrap()
}

#[test]
fn pattern_characters_are_escaped() {
    assert_eq!(escape_like("a%b_c"), "a\\%b\\_c");
    assert_eq!(escape_like("%%__"), "\\%\\%\\_\\_");
    assert_eq!(escape_like("a\\b"), "a\\\\b");
    assert_eq!(escape_like("\\%\\_"), "\\\\\\%\\\\\\_");
    assert_eq!(escape_like("plain / 文"), "plain / 文");
    assert_eq!(escape_like(""), "");
}

#[test]
fn strings_become_json() {
    assert_eq!(json_array(&strings(&[])).unwrap(), "[]");
    assert_eq!(
        json_array(&strings(&["a", "q\"\\\n", "图"])).unwrap(),
        "[\"a\",\"q\\\"\\\\\\n\",\"图\"]"
    );
    assert_eq!(json_filter_array(&strings(&[])).unwrap(), None);
    assert_eq!(
        json_filter_array(&strings(&["a"])).unwrap(),
        Some("[\"a\"]".to_string())
    );
}

#[test]
fn nodes_without_conditions() {
    let statement = nodes(500, " \u{3000}\t\n", &[], &[]);
    assert_eq!(statement.sql, format!("{}{}", NODES, ORDER));
    assert_eq!(statement.params, vec![text("500")]);
}

#[test]
fn nodes_with_all_conditions() {
    let statement = nodes(50, " \u{a0}a_b\u{2003}", &["rust", "go"], &["class"]);
    assert_eq!(
        statement.sql,
        format!(
            "{} where (name like ? escape '\\' or qualified_name like ? escape '\\' or file_path like ? escape '\\') and language in (select value from json_each(?)) and kind in (select value from json_each(?)){}",
            NODES, ORDER
        )
    );
    assert_eq!(
        statement.params,
        vec![
            text("%a\\_b%"),
            text("%a\\_b%"),
            text("%a\\_b%"),
            text("[\"rust\",\"go\"]"),
            text("[\"class\"]"),
            text("50"),
        ]
    );
}

#[test]
fn nodes_with_one_condition() {
    let statement = nodes(3000, "", &[], &["class"]);
    assert_eq!(
        statement.sql,
        format!("{} where kind in (select value from json_each(?)){}", NODES, ORDER)
    );
    assert_eq!(statement.params, vec![text("[\"class\"]"), text("3000")]);
}

#[test]
fn only_white_space_is_trimmed() {
    let statement = nodes(50, "\u{200b}x\u{180e}\r\n\u{85}\u{205f}\u{202f}\u{1680}", &[], &[]);
    assert_eq!(statement.params[0], text("%\u{200b}x\u{180e}%"));
}

#[test]
fn nodes_from_given_arrays() {
    let statement = nodes_statement(60, "", Some("[1]".to_string()), None);
    assert_eq!(
        statement.sql,
        format!("{} where language in (select value from json_each(?)){}", NODES, ORDER)
    );
    assert_eq!(statement.params, vec![text("[1]"), text("60")]);
}

#[test]
fn statements_about_ids() {
    let ids = strings(&["n1", "n2"]);
    let array = || text("[\"n1\",\"n2\"]");
    assert_eq!(
        load_nodes_by_ids(&ids).unwrap(),
        Some(Statement {
            sql: NODES_BY_IDS.to_string(),
            params: vec![array()]
        })
    );
    assert_eq!(
        load_files(&ids).unwrap(),
        Some(Statement {
            sql: FILES.to_string(),
            params: vec![array()]
        })
    );
    assert_eq!(
        load_edges(&ids, 1500).unwrap(),
        Some(Statement {
            sql: EDGES.to_string(),
            params: vec![array(), SqlValue::Integer(1500)]
        })
    );
    assert_eq!(
        edges_statement("[]".to_string(), 3).params,
        vec![text("[]"), SqlValue::Integer(3)]
    );
}

#[test]
fn without_ids_nothing_is_asked() {
    assert_eq!(load_nodes_by_ids(&vec![]).unwrap(), None);
    assert_eq!(load_files(&vec![]).unwrap(), None);
    assert_eq!(load_edges(&vec![], 10).unwrap(), None);
}

#[test]
fn statements_about_tables() {
    assert_eq!(count("files").sql, "select count(*) from files");
    assert_eq!(count("files").params, vec![]);
    assert_eq!(
        table_exists("files").sql,
        "select count(*) from sqlite_master where type in ('table', 'view') and name = ?1"
    );
    assert_eq!(table_exists("files").params, vec![text("files")]);
    assert_eq!(buckets(LANGUAGES).sql, LANGUAGES);
}

#[test]
fn missing_table_is_not_counted() {
    assert_eq!(optional_count("any", 0), None);
    assert_eq!(optional_count("any", 1), Some(count("any")));
    assert_eq!(optional_count("any", 2), Some(count("any")));
}

#[test]
fn errors_carry_their_text() {
    let refused = AppError::bad_request("no".to_string());
    assert_eq!(refused.status, Status::BadRequest);
    assert_eq!(refused.status.code(), 400);
    assert_eq!(refused.message, "no");
    let failed = AppError::from(rusqlite::Error::QueryReturnedNoRows);
    assert_eq!(failed.status, Status::InternalServerError);
    assert_eq!(failed.status.code(), 500);
    assert_eq!(failed.message, "Query returned no rows");
    let error = serde_json::from_str::<u8>("x").unwrap_err();
    let expected = error.to_string();
    let failed = AppError::from(error);
    assert_eq!(failed.status.code(), 500);
    assert_eq!(failed.message, expected);
}

#[test]
fn each_placeholder_has_a_value() {
    for query in ["", "x"] {
        for languages in [vec![], vec!["rust"]] {
            for kinds in [vec![], vec!["class", "method"]] {
                let statement = nodes(70, query, &languages, &kinds);
                let placeholders = statement.sql.matches('?').count();
                assert_eq!(placeholders, statement.params.len());
            }
        }
    }
}

#[test]
fn blanks_around_a_query_make_no_difference() {
    assert_eq!(nodes(70, "  a b\t", &[], &[]), nodes(70, "a b", &[], &[]));
}

#[test]
fn escaped_texts_stay_apart() {
    let texts = ["%", "\\%", "\\\\%", "_", "\\_", "%_", "_%", "\\", "\\\\"];
    for (i, one) in texts.iter().enumerate() {
        for other in &texts[i + 1..] {
            assert_ne!(escape_like(one), escape_like(other));
        }
    }
}
