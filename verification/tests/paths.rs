use codegraph_ui::paths::{choose_known_path, choose_path, normalize_path, resolve_source_path};

#[test]
fn relative_source_is_taken_from_the_root() {
    assert_eq!(resolve_source_path("/project", "src/a.rs"), "/project/src/a.rs");
    assert_eq!(resolve_source_path("/project/", "a.rs"), "/project/a.rs");
}

#[test]
fn absolute_source_stands() {
    assert_eq!(resolve_source_path("/project", "/other/a.rs"), "/other/a.rs");
    assert_eq!(resolve_source_path("", "/other/a.rs"), "/other/a.rs");
}

#[test]
fn relative_path_is_taken_from_the_current_directory() {
    let here: Result<String, u8> = Ok("/home/me".to_string());
    assert_eq!(normalize_path("a.db", here), Ok("/home/me/a.db".to_string()));
    assert_eq!(normalize_path("a.db", Err(7u8)), Err(7u8));
}

#[test]
fn absolute_path_needs_no_current_directory() {
    assert_eq!(normalize_path("/a.db", Err(7u8)), Ok("/a.db".to_string()));
}

#[test]
fn choice_of_paths() {
    assert_eq!(choose_path(true, "a".to_string(), "b".to_string()), "a");
    assert_eq!(choose_path(false, "a".to_string(), "b".to_string()), "b");
    assert_eq!(
        choose_known_path(true, "a".to_string(), Err::<String, u8>(1)),
        Ok("a".to_string())
    );
    assert_eq!(
        choose_known_path(false, "a".to_string(), Err::<String, u8>(1)),
        Err(1)
    );
}

#[test]
fn normalized_path_is_absolute_and_stands() {
    for path in ["a.db", "", ".", "../b/c.db", "/x/a.db"] {
        let here: Result<String, u8> = Ok("/home/me".to_string());
        let once = normalize_path(path, here).unwrap();
        assert!(std::path::Path::new(&once).is_absolute());
        assert_eq!(normalize_path(&once, Err(7u8)), Ok(once.clone()));
        assert_eq!(normalize_path(&once, Ok::<String, u8>("/other".to_string())), Ok(once));
    }
}
