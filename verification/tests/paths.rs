use qz::path::{plain_name, split_path, starts_at_root};

fn parts(path: &str) -> Vec<String> {
    split_path(path)
}

#[test]
fn the_root_has_no_component() {
    assert_eq!(parts("/"), Vec::<String>::new());
    assert_eq!(parts(""), Vec::<String>::new());
    assert_eq!(parts("///"), Vec::<String>::new());
}

#[test]
fn components_come_in_order() {
    assert_eq!(parts("/a.txt"), vec!["a.txt"]);
    assert_eq!(parts("/sub/b.txt"), vec!["sub", "b.txt"]);
    assert_eq!(parts("sub/b.txt"), vec!["sub", "b.txt"]);
}

#[test]
fn empty_components_are_left_out() {
    assert_eq!(parts("//sub"), vec!["sub"]);
    assert_eq!(parts("/sub/"), vec!["sub"]);
    assert_eq!(parts("/a//b///c/"), vec!["a", "b", "c"]);
}

#[test]
fn dots_stay_components() {
    assert_eq!(parts("/a/./b/../c"), vec!["a", ".", "b", "..", "c"]);
}

#[test]
fn components_may_hold_any_other_character() {
    assert_eq!(parts("/día/файл .txt/\\x"), vec!["día", "файл .txt", "\\x"]);
}

#[test]
fn plain_names() {
    assert!(plain_name("a"));
    assert!(plain_name("a.txt"));
    assert!(plain_name("..."));
    assert!(plain_name(".a"));
    assert!(plain_name("a."));
    assert!(plain_name(""));
    assert!(!plain_name("."));
    assert!(!plain_name(".."));
}

#[test]
fn rooted_paths() {
    assert!(starts_at_root("/"));
    assert!(starts_at_root("/a"));
    assert!(starts_at_root("//a"));
    assert!(!starts_at_root(""));
    assert!(!starts_at_root("a/"));
    assert!(!starts_at_root("./a"));
}
