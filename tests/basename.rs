use v7dump::basename::basename;

#[test]
fn basename_takes_last_component() {
    assert_eq!(basename("/usr/bin/ls"), Some("ls"));
    assert_eq!(basename("dir/file.txt"), Some("file.txt"));
    assert_eq!(basename("/usr/lib/"), Some("lib"));
    assert_eq!(basename("plain"), Some("plain"));
}

#[test]
fn basename_without_final_component() {
    assert_eq!(basename("/"), Some("/"));
    assert_eq!(basename("a/.."), Some("a/.."));
}
