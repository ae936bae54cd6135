use codegraph_ui::endpoints::{edge_endpoint_ids, retain_connected};
use codegraph_ui::error::AppError;
use codegraph_ui::graph::{ensure_table, GraphAction, GraphJob, GraphReply};
use codegraph_ui::rows::{
    map_node, map_nodes, node_ids, Bucket, EdgeRow, FileRow, GraphRequest, GraphResponse,
    NodeRecord,
};
use codegraph_ui::sql::{SqlValue, Statement};
use rusqlite::types::Value;
use rusqlite::{params_from_iter, Connection, Row};

fn request() -> GraphRequest {
    GraphRequest {
        limit: None,
        query: None,
        languages: None,
        kinds: None,
    }
}

fn record(id: &str) -> NodeRecord {
    NodeRecord {
        id: id.to_string(),
        kind: "function".to_string(),
        name: id.to_string(),
        qualified_name: format!("m::{}", id),
        file_path: "a.rs".to_string(),
        language: "rust".to_string(),
        start_line: 1,
        end_line: 2,
        signature: None,
        docstring: Some("doc".to_string()),
        visibility: None,
        is_exported: 1,
        is_async: 0,
        is_static: -3,
        is_abstract: 0,
    }
}

fn edge(id: i64, source: &str, target: &str) -> EdgeRow {
    EdgeRow {
        id,
        source: source.to_string(),
        target: target.to_string(),
        kind: "calls".to_string(),
        metadata: None,
        line: Some(3),
        col: None,
        provenance: None,
    }
}

fn strings(values: &[&str]) -> Vec<String> {
    values.iter().map(|value| value.to_string()).collect()
}

fn values(statement: &Statement) -> Vec<Value> {
    statement
        .params
        .iter()
        .map(|value| match value {
            SqlValue::Text(text) => Value::Text(text.clone()),
            SqlValue::Integer(number) => Value::Integer(*number),
        })
        .collect()
}

fn rows<T>(
    conn: &Connection,
    statement: &Statement,
    map: fn(&Row<'_>) -> rusqlite::Result<T>,
) -> Vec<T> {
    let mut stmt = conn.prepare(&statement.sql).unwrap();
    let found = stmt
        .query_map(params_from_iter(values(statement)), map)
        .unwrap();
    found.map(|row| row.unwrap()).collect()
}

fn bucket(row: &Row<'_>) -> rusqlite::Result<Bucket> {
    Ok(Bucket {
        name: row.get(0)?,
        count: row.get(1)?,
    })
}

fn node(row: &Row<'_>) -> rusqlite::Result<NodeRecord> {
    Ok(NodeRecord {
        id: row.get(0)?,
        kind: row.get(1)?,
        name: row.get(2)?,
        qualified_name: row.get(3)?,
        file_path: row.get(4)?,
        language: row.get(5)?,
        start_line: row.get(6)?,
        end_line: row.get(7)?,
        signature: row.get(8)?,
        docstring: row.get(9)?,
        visibility: row.get(10)?,
        is_exported: row.get(11)?,
        is_async: row.get(12)?,
        is_static: row.get(13)?,
        is_abstract: row.get(14)?,
    })
}

fn edge_row(row: &Row<'_>) -> rusqlite::Result<EdgeRow> {
    Ok(EdgeRow {
        id: row.get(0)?,
        source: row.get(1)?,
        target: row.get(2)?,
        kind: row.get(3)?,
        metadata: row.get(4)?,
        line: row.get(5)?,
        col: row.get(6)?,
        provenance: row.get(7)?,
    })
}

fn file_row(row: &Row<'_>) -> rusqlite::Result<FileRow> {
    Ok(FileRow {
        path: row.get(0)?,
        language: row.get(1)?,
        size: row.get(2)?,
        node_count: row.get(3)?,
        errors: row.get(4)?,
    })
}

fn load(conn: &Connection, request: GraphRequest) -> (Result<GraphResponse, AppError>, usize) {
    let mut job = GraphJob::new("/g.db".to_string(), request);
    let mut asked = 0;
    loop {
        let reply = match job.action().unwrap() {
            GraphAction::Count(statement) => GraphReply::Count(
                conn.query_row(&statement.sql, params_from_iter(values(&statement)), |row| {
                    row.get(0)
                })
                .unwrap(),
            ),
            GraphAction::Buckets(statement) => GraphReply::Buckets(rows(conn, &statement, bucket)),
            GraphAction::Nodes(statement) => GraphReply::Nodes(rows(conn, &statement, node)),
            GraphAction::Edges(statement) => GraphReply::Edges(rows(conn, &statement, edge_row)),
            GraphAction::Files(statement) => GraphReply::Files(rows(conn, &statement, file_row)),
            GraphAction::Respond => return (Ok(job.respond()), asked),
        };
        asked += 1;
        match job.advance(reply) {
            Ok(next) => job = next,
            Err(error) => return (Err(error), asked),
        }
    }
}

const SCHEMA: &str = "
    create table files (path text, language text, size integer, node_count integer, errors text);
    create table nodes (id text, kind text, name text, qualified_name text, file_path text,
        language text, start_line integer, end_line integer, signature text, docstring text,
        visibility text, is_exported integer, is_async integer, is_static integer,
        is_abstract integer);
    create table edges (id integer, source text, target text, kind text, metadata text,
        line integer, col integer, provenance text);
";

const ROWS: &str = "
    insert into files values ('a.rs', 'rust', 10, 2, null), ('b.go', 'go', 20, 1, 'bad'),
        ('c.rs', 'rust', 5, 0, null);
    insert into nodes values
        ('n1', 'function', 'alpha', 'm::alpha', 'a.rs', 'rust', 1, 2, 'fn alpha()', null, 'pub',
            1, 0, 0, 0),
        ('n2', 'class', 'beta', 'm::beta', 'a.rs', 'rust', 5, 9, null, null, null, 0, 0, 0, 1),
        ('n3', 'function', 'gamma', 'gamma', 'b.go', 'go', 3, 4, null, 'doc', null, 0, 1, 0, 0);
    insert into edges values
        (1, 'n1', 'n3', 'calls', null, 2, 7, null),
        (2, 'n2', 'n1', 'contains', '{}', null, null, 'scan'),
        (3, 'n1', 'gone', 'imports', null, null, null, null);
";

fn database() -> Connection {
    let conn = Connection::open_in_memory().unwrap();
    conn.execute_batch(SCHEMA).unwrap();
    conn.execute_batch(ROWS).unwrap();
    conn
}

fn ids(response: &GraphResponse) -> Vec<&str> {
    response.nodes.iter().map(|node| node.id.as_str()).collect()
}

fn edge_ids(response: &GraphResponse) -> Vec<i64> {
    response.edges.iter().map(|edge| edge.id).collect()
}

fn files(response: &GraphResponse) -> Vec<&str> {
    response.files.iter().map(|file| file.path.as_str()).collect()
}

fn closed(response: &GraphResponse) -> bool {
    let ids = ids(response);
    response
        .edges
        .iter()
        .all(|edge| ids.contains(&edge.source.as_str()) && ids.contains(&edge.target.as_str()))
}

#[test]
fn whole_graph_of_a_database() {
    let (result, asked) = load(&database(), request());
    let response = result.unwrap();
    assert_eq!(response.db_path, "/g.db");
    assert_eq!(ids(&response), vec!["n2", "n1", "n3"]);
    assert_eq!(edge_ids(&response), vec![2, 1]);
    assert_eq!(files(&response), vec!["a.rs", "b.go"]);
    assert_eq!(response.files[1].errors, Some("bad".to_string()));
    assert!(closed(&response));
    assert_eq!(response.summary.file_count, 3);
    assert_eq!(response.summary.node_count, 3);
    assert_eq!(response.summary.edge_count, 3);
    assert_eq!(response.summary.unresolved_count, 0);
    assert_eq!(response.summary.languages[0].name, "rust");
    assert_eq!(response.summary.languages[0].count, 2);
    assert_eq!(response.filters.languages, response.summary.languages);
    assert_eq!(response.filters.node_kinds, response.summary.node_kinds);
    assert_eq!(response.filters.edge_kinds, response.summary.edge_kinds);
    assert_eq!(response.summary.edge_kinds.len(), 3);
    assert_eq!(asked, 14);
}

#[test]
fn nodes_at_the_other_ends_are_shown_too() {
    let wanted = GraphRequest {
        query: Some(" alpha ".to_string()),
        ..request()
    };
    let (result, _) = load(&database(), wanted);
    let response = result.unwrap();
    assert_eq!(ids(&response)[0], "n1");
    let mut all = ids(&response);
    all.sort();
    assert_eq!(all, vec!["n1", "n2", "n3"]);
    assert_eq!(edge_ids(&response), vec![2, 1]);
    assert!(closed(&response));
}

#[test]
fn filters_choose_the_nodes() {
    let wanted = GraphRequest {
        languages: Some(strings(&["go"])),
        kinds: Some(strings(&["function", "method"])),
        ..request()
    };
    let (result, _) = load(&database(), wanted);
    let response = result.unwrap();
    assert_eq!(ids(&response), vec!["n3", "n1"]);
    assert_eq!(edge_ids(&response), vec![1]);
    assert!(response.nodes[0].is_async);
    assert!(response.nodes[1].is_exported);
}

#[test]
fn without_nodes_no_edges_and_files_are_asked() {
    let wanted = GraphRequest {
        query: Some("nothing like it".to_string()),
        ..request()
    };
    let (result, asked) = load(&database(), wanted);
    let response = result.unwrap();
    assert!(response.nodes.is_empty());
    assert!(response.edges.is_empty());
    assert!(response.files.is_empty());
    assert_eq!(response.summary.node_count, 3);
    assert_eq!(asked, 11);
}

const NAMES: &str = "
    insert into nodes values
        ('f1', 'file', 'my_file', 'my_file', 'src/my_file.rs', 'rust', 1, 9, null, null, null,
            0, 0, 0, 0),
        ('f2', 'file', 'myXfile', 'myXfile', 'src/myXfile.rs', 'rust', 1, 9, null, null, null,
            0, 0, 0, 0),
        ('f3', 'file', '100%', 'rate', 'lib/rate.rs', 'rust', 1, 9, null, null, null, 0, 0, 0, 0),
        ('f4', 'file', '1000', 'size', 'lib/size.rs', 'rust', 1, 9, null, null, null, 0, 0, 0, 0),
        ('f5', 'file', 'back', 'win\\lib_x', 'lib/back.rs', 'rust', 1, 9, null, null, null,
            0, 0, 0, 0);
";

fn found(query: &str) -> Vec<String> {
    let conn = database();
    conn.execute_batch(NAMES).unwrap();
    let wanted = GraphRequest {
        query: Some(query.to_string()),
        kinds: Some(strings(&["file"])),
        ..request()
    };
    let (result, _) = load(&conn, wanted);
    let mut found = strings(&ids(&result.unwrap()));
    found.sort();
    found
}

#[test]
fn search_takes_every_character_for_itself() {
    assert_eq!(found("my_file"), strings(&["f1"]));
    assert_eq!(found("src/my_file.rs"), strings(&["f1"]));
    assert_eq!(found("_"), strings(&["f1", "f5"]));
    assert_eq!(found("%"), strings(&["f3"]));
    assert_eq!(found("100%"), strings(&["f3"]));
    assert_eq!(found("100"), strings(&["f3", "f4"]));
    assert_eq!(found("\\"), strings(&["f5"]));
    assert_eq!(found("win\\lib_x"), strings(&["f5"]));
    assert_eq!(found("\\_"), strings(&[]));
}

#[test]
fn search_looks_at_names_and_paths() {
    assert_eq!(found("lib/"), strings(&["f3", "f4", "f5"]));
    assert_eq!(found("rate"), strings(&["f3"]));
    assert_eq!(found(" MYXFILE\t"), strings(&["f2"]));
    assert_eq!(found(""), strings(&["f1", "f2", "f3", "f4", "f5"]));
}

#[test]
fn search_without_filters_finds_a_file_by_its_path() {
    let conn = database();
    conn.execute_batch(NAMES).unwrap();
    let wanted = GraphRequest {
        query: Some("my_file".to_string()),
        ..request()
    };
    assert_eq!(ids(&load(&conn, wanted).0.unwrap()), vec!["f1"]);
}

#[test]
fn added_nodes_are_joined_to_wanted_ones() {
    let conn = Connection::open_in_memory().unwrap();
    conn.execute_batch(SCHEMA).unwrap();
    for i in 0..200 {
        conn.execute(
            "insert into nodes values (?1, 'function', ?2, ?2, 'a.rs', 'rust', ?3, 0, null, null, null, 0, 0, 0, 0)",
            (format!("n{}", i), if i < 100 { "in" } else { "out" }, i),
        )
        .unwrap();
        conn.execute(
            "insert into edges values (?1, ?2, ?3, 'calls', null, null, null, null)",
            (i, format!("n{}", i), format!("n{}", (i * 7 + 1) % 200)),
        )
        .unwrap();
    }
    let wanted = GraphRequest {
        limit: Some(60),
        query: Some("in".to_string()),
        ..request()
    };
    let response = load(&conn, wanted).0.unwrap();
    let all = ids(&response);
    let (about, added) = all.split_at(60);
    assert!(response.nodes[..60].iter().all(|node| node.name == "in"));
    assert_eq!(added.len(), 30);
    assert!(response.edges.len() <= 180);
    let mut distinct = all.clone();
    distinct.sort();
    distinct.dedup();
    assert_eq!(distinct.len(), all.len());
    assert!(closed(&response));
    for id in added {
        assert!(response.edges.iter().any(|edge| {
            (edge.source == *id && about.contains(&edge.target.as_str()))
                || (edge.target == *id && about.contains(&edge.source.as_str()))
        }));
    }
    for edge in &response.edges {
        assert!(about.contains(&edge.source.as_str()) || about.contains(&edge.target.as_str()));
    }
}

#[test]
fn unresolved_references_are_counted() {
    let conn = database();
    conn.execute_batch("create table unresolved_refs (x text); insert into unresolved_refs values ('a'), ('b');")
        .unwrap();
    let (result, asked) = load(&conn, request());
    assert_eq!(result.unwrap().summary.unresolved_count, 2);
    assert_eq!(asked, 15);
}

#[test]
fn missing_tables_are_named_in_order() {
    for (drop, table) in [
        ("drop table edges; drop table nodes; drop table files;", "files"),
        ("drop table edges; drop table nodes;", "nodes"),
        ("drop table edges;", "edges"),
    ] {
        let conn = database();
        conn.execute_batch(drop).unwrap();
        let error = load(&conn, request()).0.unwrap_err();
        assert_eq!(error.status.code(), 400);
        assert_eq!(error.message, format!("db 缺少必要表: {}", table));
    }
}

#[test]
fn search_for_a_table() {
    assert_eq!(ensure_table("files", 1), Ok(()));
    let error = ensure_table("files", 0).unwrap_err();
    assert_eq!(error.message, "db 缺少必要表: files");
}

fn job_at_edges(limit: Option<usize>) -> GraphJob {
    let mut job = GraphJob::new("/g.db".to_string(), GraphRequest { limit, ..request() });
    for _ in 0..6 {
        job = job.advance(GraphReply::Count(1)).unwrap();
    }
    job = job.advance(GraphReply::Count(0)).unwrap();
    for _ in 0..3 {
        job = job.advance(GraphReply::Buckets(vec![])).unwrap();
    }
    match job.action().unwrap() {
        GraphAction::Nodes(statement) => {
            let expected = limit.unwrap_or(500).clamp(50, 3000).to_string();
            assert_eq!(statement.params, vec![SqlValue::Text(expected)]);
        }
        _ => panic!("nodes expected"),
    }
    job.advance(GraphReply::Nodes(vec![record("a"), record("b")])).unwrap()
}

#[test]
fn limits_are_bounded() {
    for (limit, edges) in [
        (None, 1500),
        (Some(0), 150),
        (Some(50), 150),
        (Some(51), 153),
        (Some(3000), 9000),
        (Some(usize::MAX), 9000),
    ] {
        match job_at_edges(limit).action().unwrap() {
            GraphAction::Edges(statement) => {
                assert_eq!(statement.params[0], SqlValue::Text("[\"a\",\"b\"]".to_string()));
                assert_eq!(statement.params[1], SqlValue::Integer(edges));
            }
            _ => panic!("edges expected"),
        }
    }
}

#[test]
fn other_ends_are_bounded() {
    let edges: Vec<EdgeRow> = (0..60).map(|i| edge(i, "a", &format!("x{}", i))).collect();
    let job = job_at_edges(Some(51)).advance(GraphReply::Edges(edges)).unwrap();
    let expected: Vec<String> = (0..25).map(|i| format!("\"x{}\"", i)).collect();
    match job.action().unwrap() {
        GraphAction::Nodes(statement) => {
            let array = format!("[{}]", expected.join(","));
            assert_eq!(statement.params, vec![SqlValue::Text(array)]);
        }
        _ => panic!("nodes expected"),
    }
    let job = job.advance(GraphReply::Nodes(vec![record("x3")])).unwrap();
    match job.action().unwrap() {
        GraphAction::Files(statement) => {
            let array = "[\"a\",\"b\",\"x3\"]".to_string();
            assert_eq!(statement.params, vec![SqlValue::Text(array)]);
        }
        _ => panic!("files expected"),
    }
    let response = job.advance(GraphReply::Files(vec![])).unwrap().respond();
    assert_eq!(edge_ids(&response), vec![3]);
    assert_eq!(ids(&response), vec!["a", "b", "x3"]);
}

#[test]
fn missing_endpoints_in_the_order_of_the_edges() {
    let edges = vec![
        edge(1, "a", "x"),
        edge(2, "y", "x"),
        edge(3, "z", "a"),
        edge(4, "w", "v"),
    ];
    let visible = strings(&["a", "b"]);
    assert_eq!(edge_endpoint_ids(&edges, &visible, 10), strings(&["x", "y", "z", "w", "v"]));
    assert_eq!(edge_endpoint_ids(&edges, &visible, 4), strings(&["x", "y", "z", "w"]));
    assert_eq!(edge_endpoint_ids(&edges, &visible, 1), strings(&["x"]));
    assert!(edge_endpoint_ids(&edges, &visible, 0).is_empty());
    assert!(edge_endpoint_ids(&[], &visible, 5).is_empty());
    assert_eq!(
        edge_endpoint_ids(&edges, &[], 3),
        strings(&["a", "x", "y"])
    );
}

#[test]
fn only_connected_edges_are_kept() {
    let edges = vec![
        edge(1, "a", "x"),
        edge(2, "a", "b"),
        edge(3, "b", "b"),
        edge(4, "x", "a"),
        edge(5, "b", "a"),
    ];
    let kept = retain_connected(edges, &strings(&["b", "a", "a"]));
    let numbers: Vec<i64> = kept.iter().map(|edge| edge.id).collect();
    assert_eq!(numbers, vec![2, 3, 5]);
}

#[test]
fn flags_of_nodes() {
    let node = map_node(record("a"));
    assert!(node.is_exported);
    assert!(!node.is_async);
    assert!(node.is_static);
    assert!(!node.is_abstract);
    assert_eq!(node.docstring, Some("doc".to_string()));
    assert_eq!(node.qualified_name, "m::a");
    let nodes = map_nodes(vec![record("a"), record("b")]);
    assert_eq!(node_ids(&nodes), strings(&["a", "b"]));
    assert_eq!(nodes[0], node);
}

#[test]
fn no_edge_is_lost_if_all_ends_are_found() {
    let edges = vec![edge(1, "a", "x"), edge(2, "y", "b"), edge(3, "a", "b")];
    let job = job_at_edges(None).advance(GraphReply::Edges(edges)).unwrap();
    let job = job
        .advance(GraphReply::Nodes(vec![record("y"), record("x")]))
        .unwrap();
    let file = FileRow {
        path: "a.rs".to_string(),
        language: "rust".to_string(),
        size: 1,
        node_count: 4,
        errors: None,
    };
    let response = job.advance(GraphReply::Files(vec![file])).unwrap().respond();
    assert_eq!(edge_ids(&response), vec![1, 2, 3]);
    assert_eq!(ids(&response), vec!["a", "b", "y", "x"]);
    assert_eq!(files(&response), vec!["a.rs"]);
    assert!(closed(&response));
}

#[test]
fn edges_without_missing_ends_lead_to_the_files() {
    let job = job_at_edges(None)
        .advance(GraphReply::Edges(vec![edge(1, "a", "b")]))
        .unwrap();
    assert!(matches!(job.action(), Ok(GraphAction::Files(_))));
}
