use codegraph_ui::rows::{SnippetRequest, SnippetResponse};
use codegraph_ui::snippet::{snippet, snippet_path, snippet_window, SourceFile, Window};

fn request(start_line: i64, end_line: i64, context: Option<i64>) -> SnippetRequest {
    SnippetRequest {
        file_path: "a.rs".to_string(),
        start_line,
        end_line,
        context,
    }
}

fn file(count: usize) -> String {
    (1..=count).map(|number| format!("line {}\r\n", number)).collect()
}

fn shown(content: String, request: &SnippetRequest) -> SnippetResponse {
    snippet("/p/a.rs".to_string(), request, SourceFile::Text(content)).unwrap()
}

fn window(node_start: i64, node_end: i64, start_line: i64, end_line: i64) -> Window {
    Window {
        node_start,
        node_end,
        start_line,
        end_line,
    }
}

#[test]
fn lines_around_a_node() {
    let response = shown(file(20), &request(8, 9, Some(2)));
    assert_eq!(response.path, "/p/a.rs");
    assert_eq!((response.start_line, response.end_line), (6, 11));
    let lines: Vec<(i64, &str, bool)> = response
        .lines
        .iter()
        .map(|line| (line.number, line.text.as_str(), line.highlighted))
        .collect();
    assert_eq!(
        lines,
        vec![
            (6, "line 6", false),
            (7, "line 7", false),
            (8, "line 8", true),
            (9, "line 9", true),
            (10, "line 10", false),
            (11, "line 11", false),
        ]
    );
}

#[test]
fn windows_are_cut_to_the_file() {
    assert_eq!(snippet_window(8, 9, None, 20), window(8, 9, 4, 13));
    assert_eq!(snippet_window(8, 9, Some(-5), 20), window(8, 9, 8, 9));
    assert_eq!(snippet_window(50, 60, Some(1000), 100), window(50, 60, 20, 90));
    assert_eq!(snippet_window(0, 0, None, 20), window(1, 1, 1, 5));
    assert_eq!(snippet_window(30, 40, Some(2), 20), window(20, 20, 18, 20));
    assert_eq!(snippet_window(5, 3, Some(1), 20), window(5, 5, 4, 6));
    assert_eq!(snippet_window(3, 9, Some(1), 5), window(3, 5, 2, 5));
    assert_eq!(
        snippet_window(i64::MIN, i64::MAX, Some(i64::MAX), i64::MAX),
        window(1, i64::MAX, 1, i64::MAX)
    );
    assert_eq!(snippet_window(1, 1, None, 0), window(1, 1, 1, 1));
}

#[test]
fn empty_file_shows_nothing() {
    let response = shown(String::new(), &request(3, 4, None));
    assert_eq!((response.start_line, response.end_line), (1, 1));
    assert!(response.lines.is_empty());
}

#[test]
fn some_line_is_highlighted() {
    let response = shown("only".to_string(), &request(7, 3, Some(0)));
    assert_eq!(response.lines.len(), 1);
    assert!(response.lines[0].highlighted);
    assert_eq!(response.lines[0].text, "only");
}

#[test]
fn missing_and_unreadable_files_are_refused() {
    let wanted = request(1, 1, None);
    let missing = snippet("/p/a.rs".to_string(), &wanted, SourceFile::Missing).unwrap_err();
    assert_eq!(missing.status.code(), 400);
    assert_eq!(missing.message, "找不到源码文件: /p/a.rs");
    let source = SourceFile::Unreadable("denied".to_string());
    let unreadable = snippet("/p/a.rs".to_string(), &wanted, source).unwrap_err();
    assert_eq!(unreadable.status.code(), 400);
    assert_eq!(unreadable.message, "无法读取源码文件 /p/a.rs: denied");
}

#[test]
fn request_without_a_file_is_refused() {
    let mut wanted = request(1, 1, None);
    assert_eq!(snippet_path("/p", &wanted).unwrap(), "/p/a.rs");
    wanted.file_path = "/q/b.rs".to_string();
    assert_eq!(snippet_path("/p", &wanted).unwrap(), "/q/b.rs");
    wanted.file_path = " b".to_string();
    assert_eq!(snippet_path("/p", &wanted).unwrap(), "/p/ b");
    wanted.file_path = " \t\u{3000}".to_string();
    let error = snippet_path("/p", &wanted).unwrap_err();
    assert_eq!(error.status.code(), 400);
    assert_eq!(error.message, "节点缺少文件路径");
}

#[test]
fn context_is_bounded() {
    let content = file(100);
    let with = |context| shown(content.clone(), &request(50, 52, context));
    assert_eq!(with(None), with(Some(4)));
    assert_eq!(with(Some(-1)), with(Some(0)));
    assert_eq!(with(Some(i64::MIN)), with(Some(0)));
    assert_eq!(with(Some(31)), with(Some(30)));
    assert_eq!(with(Some(i64::MAX)), with(Some(30)));
    assert_ne!(with(Some(29)), with(Some(30)));
    assert_eq!(with(Some(0)).lines.len(), 3);
}

#[test]
fn more_context_adds_lines_around() {
    let content = file(40);
    for (start, end) in [(20, 22), (1, 3), (38, 60), (50, 2)] {
        for less in 0..31 {
            for more in less..31 {
                let narrow = shown(content.clone(), &request(start, end, Some(less)));
                let wide = shown(content.clone(), &request(start, end, Some(more)));
                let offset = (narrow.start_line - wide.start_line) as usize;
                assert_eq!(narrow.lines, wide.lines[offset..offset + narrow.lines.len()]);
                let highlighted = wide.lines.iter().filter(|line| line.highlighted).count();
                assert_eq!(
                    narrow.lines.iter().filter(|line| line.highlighted).count(),
                    highlighted
                );
            }
        }
    }
}
