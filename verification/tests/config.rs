use codegraph_ui::config::{next_arg, usage, AppState, Config};

fn args(values: &[&str]) -> Vec<String> {
    values.iter().map(|value| value.to_string()).collect()
}

fn parsed(values: &[&str]) -> (String, String) {
    match Config::parse(&args(values)) {
        Ok(Some(config)) => (config.db_path, config.root_path),
        other => panic!("{:?}", other),
    }
}

fn refused(values: &[&str]) -> String {
    match Config::parse(&args(values)) {
        Err(message) => message,
        other => panic!("{:?}", other),
    }
}

fn pair(db: &str, root: &str) -> (String, String) {
    (db.to_string(), root.to_string())
}

#[test]
fn usage_names_both_forms() {
    assert_eq!(
        usage(),
        "用法: codegraph-ui --db <sqlite-db-path> --root <project-root-path>\n也支持: codegraph-ui <sqlite-db-path> <project-root-path>"
    );
}

#[test]
fn flags_and_positions_mean_the_same() {
    assert_eq!(parsed(&["a.db", "src"]), pair("a.db", "src"));
    assert_eq!(parsed(&["--db", "a.db", "--root", "src"]), pair("a.db", "src"));
    assert_eq!(parsed(&["--root", "src", "--db", "a.db"]), pair("a.db", "src"));
    assert_eq!(
        parsed(&["--db-path", "a.db", "--root-path", "src"]),
        pair("a.db", "src")
    );
    assert_eq!(parsed(&["--db", "a.db", "src"]), pair("a.db", "src"));
    assert_eq!(parsed(&["--root", "src", "a.db"]), pair("a.db", "src"));
    assert_eq!(parsed(&["src", "--db", "a.db"]), pair("a.db", "src"));
    assert_eq!(parsed(&["a.db", "--root", "src"]), pair("a.db", "src"));
}

#[test]
fn later_flag_counts() {
    assert_eq!(
        parsed(&["--db", "old.db", "--db", "new.db", "src"]),
        pair("new.db", "src")
    );
}

#[test]
fn help_wins_over_everything() {
    assert_eq!(Config::parse(&args(&["-h"])), Ok(None));
    assert_eq!(Config::parse(&args(&["a", "--help", "--nonsense"])), Ok(None));
    assert_eq!(Config::parse(&args(&["--db", "-h"])), Ok(None));
}

#[test]
fn unknown_flag_is_named() {
    assert_eq!(
        refused(&["--color", "a", "b"]),
        format!("未知参数: --color\n{}", usage())
    );
    assert_eq!(refused(&["a", "b", "-"]), format!("未知参数: -\n{}", usage()));
}

#[test]
fn flag_without_path_is_named() {
    assert_eq!(refused(&["--db"]), format!("--db 缺少路径参数\n{}", usage()));
    assert_eq!(
        refused(&["--db-path", "--root", "src"]),
        format!("--db 缺少路径参数\n{}", usage())
    );
    assert_eq!(
        refused(&["a.db", "--root-path"]),
        format!("--root 缺少路径参数\n{}", usage())
    );
}

#[test]
fn too_many_arguments_are_named() {
    assert_eq!(
        refused(&["a", "b", "c", "d"]),
        format!("参数过多: c\n{}", usage())
    );
    assert_eq!(
        refused(&["--db", "a", "--root", "b", "c"]),
        format!("参数过多: c\n{}", usage())
    );
    assert_eq!(
        refused(&["--db", "a", "b", "c"]),
        format!("参数过多: c\n{}", usage())
    );
}

#[test]
fn too_few_arguments_bring_the_usage() {
    assert_eq!(refused(&[]), usage());
    assert_eq!(refused(&["a"]), usage());
    assert_eq!(refused(&["--root", "b"]), usage());
}

#[test]
fn argument_behind_a_flag() {
    let list = args(&["--db", "a.db", "-x", ""]);
    assert_eq!(next_arg(&list, 1, "--db"), Ok("a.db".to_string()));
    assert_eq!(next_arg(&list, 3, "--db"), Ok(String::new()));
    assert_eq!(
        next_arg(&list, 2, "--root"),
        Err(format!("--root 缺少路径参数\n{}", usage()))
    );
    assert_eq!(
        next_arg(&list, 4, "--db"),
        Err(format!("--db 缺少路径参数\n{}", usage()))
    );
}

#[test]
fn start_needs_both_paths() {
    let start = |db_is_file, root_is_dir| {
        AppState::start("/a.db".to_string(), db_is_file, "/src".to_string(), root_is_dir)
    };
    assert_eq!(
        start(true, true),
        Ok(AppState {
            db_path: "/a.db".to_string(),
            root_path: "/src".to_string()
        })
    );
    assert_eq!(start(false, false), Err("db 文件不存在: /a.db".to_string()));
    assert_eq!(start(true, false), Err("项目根路径不存在: /src".to_string()));
}
