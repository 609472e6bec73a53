use repl_core::locate::{path_to_roc_binary, Route};

fn rooted(parts: &[&str]) -> Route {
    let mut all = vec!["/".to_string()];
    all.extend(parts.iter().map(|p| p.to_string()));
    Route { anchored: 1, parts: all }
}

fn relative(parts: &[&str]) -> Route {
    Route { anchored: 0, parts: parts.iter().map(|p| p.to_string()).collect() }
}

#[test]
fn configured_directory_wins() {
    let r = path_to_roc_binary(Some(rooted(&["opt", "bin"])), Some(rooted(&["x", "y"])));
    assert_eq!(r, Some(rooted(&["opt", "bin", "roc"])));
}

#[test]
fn binary_lies_beside_the_executable() {
    let r = path_to_roc_binary(None, Some(rooted(&["target", "debug", "harness"])));
    assert_eq!(r, Some(rooted(&["target", "debug", "roc"])));
}

#[test]
fn deps_directory_is_left() {
    let r = path_to_roc_binary(None, Some(rooted(&["target", "debug", "deps", "harness-1a2b"])));
    assert_eq!(r, Some(rooted(&["target", "debug", "roc"])));
}

#[test]
fn short_paths_do_not_underflow() {
    assert_eq!(path_to_roc_binary(None, Some(relative(&[]))), Some(relative(&["roc"])));
    assert_eq!(path_to_roc_binary(None, Some(relative(&["deps", "x"]))), Some(relative(&["roc"])));
    assert_eq!(path_to_roc_binary(None, Some(relative(&["x"]))), Some(relative(&["roc"])));
}

#[test]
fn the_root_stays() {
    assert_eq!(path_to_roc_binary(None, Some(rooted(&[]))), Some(rooted(&["roc"])));
    assert_eq!(path_to_roc_binary(None, Some(rooted(&["harness"]))), Some(rooted(&["roc"])));
    assert_eq!(path_to_roc_binary(None, Some(rooted(&["deps", "harness"]))), Some(rooted(&["roc"])));
    assert_eq!(path_to_roc_binary(Some(rooted(&[])), None), Some(rooted(&["roc"])));
}

#[test]
fn a_root_named_like_the_build_directory_is_no_such_directory() {
    let odd = Route { anchored: 1, parts: vec!["deps".to_string(), "x".to_string()] };
    let r = path_to_roc_binary(None, Some(odd));
    assert_eq!(r, Some(Route { anchored: 1, parts: vec!["deps".to_string(), "roc".to_string()] }));
}

#[test]
fn a_prefix_before_the_root_stays_with_it() {
    let exe = Route {
        anchored: 2,
        parts: vec!["C:".to_string(), "\\".to_string(), "harness.exe".to_string()],
    };
    let r = path_to_roc_binary(None, Some(exe));
    assert_eq!(
        r,
        Some(Route { anchored: 2, parts: vec!["C:".to_string(), "\\".to_string(), "roc".to_string()] })
    );
}

#[test]
fn nothing_known_gives_nothing() {
    assert_eq!(path_to_roc_binary(None, None), None);
}
