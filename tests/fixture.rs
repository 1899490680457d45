// Tests of the library against a fixed directory tree, whose file-system answers
// are given here as tables:
//
//   test_dirs/a        directory holding the file keepme.txt
//   test_dirs/b        directory holding the files keepme.txt and x, and the directory bb
//   test_dirs/b/bb     directory
//   test_dirs/c        directory holding the files keepme.txt and x
//   test_dirs/la       symbolic link to a
//   test_dirs/laa      symbolic link to la
//   test_dirs/broken   symbolic link to nothing
//   test_dirs/broken2  symbolic link to broken
//   test_dirs/x, test_dirs/z   do not exist
//
// The tree resolves to the canonical root CANONICAL_ROOT.

use pathedit::analyze::{exec_analyze, get_duplicate_dirs, get_invalid_dirs, get_shadowed, Shadow};
use pathedit::command::{exec_command, render, Commands};
use pathedit::list::{add_unique, remove};
use pathedit::parse::{parse_path, parse_raw_path, to_string};
use pathedit::post::{apply_filters, filter, normalize};

const TEST_ROOT: &str = "test_dirs";
const CANONICAL_ROOT: &str = "/home/tester/project/test_dirs";

fn dir(s: &str) -> String {
    format!("{}/{}", TEST_ROOT, s)
}

fn normal_dir(s: &str) -> String {
    format!("{}/{}", CANONICAL_ROOT, s)
}

fn rm_prefix(path: String) -> String {
    let prefix = normal_dir("");
    assert!(path.starts_with(prefix.as_str()), "path did not start with {}: {}", prefix, path);
    path[prefix.len()..].to_string()
}

fn strings(strs: &[&str]) -> Vec<String> {
    strs.iter().map(|s| String::from(*s)).collect()
}

// The canonical form of a fixture path, or None where it is not a directory.
fn canonical_of(path: &str) -> Option<String> {
    let name = path.strip_prefix(TEST_ROOT)?.strip_prefix('/')?;
    let target = match name {
        "a" | "la" | "laa" => "a",
        "b" => "b",
        "b/bb" => "b/bb",
        "c" => "c",
        _ => return None,
    };
    Some(normal_dir(target))
}

fn is_dir(path: &str) -> bool {
    canonical_of(path).is_some()
}

fn files_of(path: &str) -> Option<Vec<String>> {
    if !is_dir(path) {
        return None;
    }
    let name = path.strip_prefix(TEST_ROOT).unwrap().strip_prefix('/').unwrap();
    let files = match name {
        "a" | "la" | "laa" => vec!["keepme.txt"],
        "b" | "c" => vec!["keepme.txt", "x"],
        _ => vec![],
    };
    Some(strings(&files))
}

fn validity(path: &[String]) -> Vec<bool> {
    path.iter().map(|p| is_dir(p)).collect()
}

fn canonical_forms(path: &[String]) -> Vec<Option<String>> {
    path.iter().map(|p| canonical_of(p)).collect()
}

fn run_filter(path: Vec<String>) -> Vec<String> {
    let valid = validity(&path);
    filter(path, &valid)
}

fn run_normalize(path: Vec<String>) -> Vec<String> {
    let canonical = canonical_forms(&path);
    normalize(path, canonical)
}

// What a run prints for `command` on the current list `path_str`, with the
// post-processing flags given.
fn run(command: Commands, path_str: &str, filter: bool, normalize: bool, pretty: bool) -> String {
    let pretty = command.prints_lines(pretty);
    let current = parse_path(path_str);
    let path = exec_command(command, current);
    let valid = validity(&path);
    let canonical = canonical_forms(&path);
    render(apply_filters(path, filter, normalize, &valid, canonical), pretty)
}

#[test]
fn test_remove() {
    let mut v = strings(&["a", "b", "b"]);
    let unchanged = strings(&["a", "b", "b"]);

    remove(&mut v, "x");
    assert_eq!(v, unchanged);

    remove(&mut v, "a");
    assert_eq!(v, strings(&["b", "b"]));

    let mut v = unchanged.clone();
    remove(&mut v, "b");
    assert_eq!(v, strings(&["a"]));
}

#[test]
fn test_filter() {
    assert_eq!(
        run_filter(vec![
            dir("laa"),
            dir("b/bb"),
            dir("c"),
            dir("broken2"),
            dir("b/bb"),
            dir("z"),
            dir("b")
        ]),
        vec![dir("laa"), dir("b/bb"), dir("c"), dir("b")]
    );
}

#[test]
fn test_normalize() {
    assert_eq!(
        run_normalize(vec![dir("a")]).into_iter().map(rm_prefix).collect::<Vec<String>>(),
        vec!["a".to_string()]
    );

    // should be unique in the normalized path
    assert_eq!(
        run_normalize(vec![dir("a"), dir("la")])
            .into_iter()
            .map(rm_prefix)
            .collect::<Vec<String>>(),
        vec!["a".to_string()]
    );
    assert_eq!(
        run_normalize(vec![dir("laa"), dir("a")])
            .into_iter()
            .map(rm_prefix)
            .collect::<Vec<String>>(),
        vec!["a".to_string()]
    );

    assert_eq!(
        run_normalize(vec![
            dir("laa"),
            dir("b/bb"),
            dir("c"),
            dir("broken2"),
            dir("b/bb"),
            dir("z"),
            dir("b")
        ])
        .into_iter()
        .map(rm_prefix)
        .collect::<Vec<String>>(),
        vec!["a".to_string(), "b/bb".to_string(), "c".to_string(), "b".to_string()]
    );
}

#[test]
fn test_add_unique() {
    let mut path: Vec<String> = Vec::new();

    add_unique(&mut path, "");
    assert_eq!(path, Vec::<String>::new());

    add_unique(&mut path, "a");
    add_unique(&mut path, "b");
    add_unique(&mut path, "c");
    assert_eq!(path, vec!["a", "b", "c"]);

    add_unique(&mut path, "c");
    add_unique(&mut path, "b");
    add_unique(&mut path, "a");
    assert_eq!(path, vec!["a", "b", "c"]);
}

#[test]
fn test_parse_path() {
    assert_eq!(parse_path(""), Vec::<String>::new());
    assert_eq!(parse_path("::"), Vec::<String>::new());
    assert_eq!(parse_path(":/foo::/bar:"), vec!["/foo", "/bar"]);
    assert_eq!(parse_path("/foo:/bar:/baz"), vec!["/foo", "/bar", "/baz"]);
    assert_eq!(parse_path("/foo:/bar:/foo:/baz:/bar"), vec!["/foo", "/bar", "/baz"]);
    assert_eq!(
        parse_raw_path("/foo:/bar:/foo:/baz:/bar"),
        vec!["/foo", "/bar", "/foo", "/baz", "/bar"]
    );
}

#[test]
fn test_print() {
    let path = vec![dir("b"), dir("c"), dir("z")].join(":");
    assert_eq!(
        run(Commands::Print, &path, false, false, false),
        format!("{}\n{}\n{}\n", dir("b"), dir("c"), dir("z"))
    );
    assert_eq!(
        run(Commands::Print, &path, true, false, false),
        format!("{}\n{}\n", dir("b"), dir("c"))
    );
    assert_eq!(
        run(Commands::Print, &path, false, true, false),
        format!("{}\n{}\n", normal_dir("b"), normal_dir("c"))
    );
}

fn new_command() -> Commands {
    Commands::New {
        directories: vec![
            dir("la"),
            dir("b"),
            dir("a"),
            dir("c"),
            dir("z"),
            dir("x"),
            dir("b/bb"),
        ],
    }
}

#[test]
fn test_new() {
    assert_eq!(
        run(new_command(), "", false, false, false),
        vec![dir("la"), dir("b"), dir("a"), dir("c"), dir("z"), dir("x"), dir("b/bb")].join(":")
            + "\n"
    );
    assert_eq!(
        run(new_command(), "", true, false, false),
        vec![dir("la"), dir("b"), dir("a"), dir("c"), dir("b/bb")].join(":") + "\n"
    );
    assert_eq!(
        run(new_command(), "", false, true, false),
        vec![normal_dir("a"), normal_dir("b"), normal_dir("c"), normal_dir("b/bb")].join(":")
            + "\n"
    );
}

#[test]
fn test_add() {
    let path = vec![dir("b"), dir("a"), dir("c"), dir("z")].join(":");
    let add = || Commands::Add { directories: vec![dir("la"), dir("x")] };
    assert_eq!(
        run(add(), &path, false, false, false),
        vec![dir("la"), dir("x"), dir("b"), dir("a"), dir("c"), dir("z")].join(":") + "\n"
    );
    assert_eq!(
        run(add(), &path, true, false, false),
        vec![dir("la"), dir("b"), dir("a"), dir("c")].join(":") + "\n"
    );
    assert_eq!(
        run(add(), &path, false, true, false),
        vec![normal_dir("a"), normal_dir("b"), normal_dir("c")].join(":") + "\n"
    );
}

#[test]
fn test_append() {
    let path = vec![dir("b"), dir("a"), dir("c"), dir("z")].join(":");
    let append = || Commands::Append { directories: vec![dir("la"), dir("x")] };
    assert_eq!(
        run(append(), &path, false, false, false),
        vec![dir("b"), dir("a"), dir("c"), dir("z"), dir("la"), dir("x")].join(":") + "\n"
    );
    assert_eq!(
        run(append(), &path, true, false, false),
        vec![dir("b"), dir("a"), dir("c"), dir("la")].join(":") + "\n"
    );
    assert_eq!(
        run(append(), &path, false, true, false),
        vec![normal_dir("b"), normal_dir("a"), normal_dir("c")].join(":") + "\n"
    );
}

#[test]
fn test_get_invalid_dirs() {
    let path = vec![dir("laa"), dir("broken"), dir("a"), dir("c"), dir("z")].join(":");
    let valid = validity(&parse_raw_path(&path));
    assert_eq!(get_invalid_dirs(path.as_str(), &valid), vec!(dir("broken"), dir("z")));
}

#[test]
fn test_get_duplicate_dirs() {
    let path = vec![dir("laa"), dir("broken"), dir("a"), dir("c"), dir("laa"), dir("a")].join(":");
    assert_eq!(get_duplicate_dirs(path.as_str()), vec!(dir("laa"), dir("a")));
}

#[test]
fn test_get_shadowed() {
    let path = vec![dir("a"), dir("b"), dir("c")].join(":");
    let listings: Vec<Option<Vec<String>>> =
        parse_raw_path(&path).iter().map(|d| files_of(d)).collect();
    assert_eq!(
        get_shadowed(path.as_str(), &listings),
        vec![
            (dir("b"), vec![Shadow::new(dir("a"), "keepme.txt".to_string()),]),
            (
                dir("c"),
                vec![
                    Shadow::new(dir("a"), "keepme.txt".to_string()),
                    Shadow::new(dir("b"), "x".to_string()),
                ]
            ),
        ]
    );
}

#[test]
fn analysis_report_lists_invalid_and_repeated_entries() {
    let path = vec![dir("laa"), dir("broken"), dir("a"), dir("laa")].join(":");
    let valid = validity(&parse_raw_path(&path));
    assert_eq!(
        exec_analyze(&path, &valid),
        vec![
            "Invalid Directories:".to_string(),
            format!("    {}", dir("broken")),
            String::new(),
            "Duplicate Directories:".to_string(),
            format!("    {}", dir("laa")),
        ]
    );
}

#[test]
fn analysis_report_of_clean_list_says_none() {
    let path = vec![dir("a"), dir("b")].join(":");
    let valid = validity(&parse_raw_path(&path));
    assert_eq!(
        exec_analyze(&path, &valid),
        strings(&["Invalid Directories:", "    None", "", "Duplicate Directories:", "    None"])
    );
}

#[test]
fn to_string_joins_with_colons() {
    assert_eq!(to_string(&strings(&["a", "b", "c"])), "a:b:c");
    assert_eq!(to_string(&[]), "");
}
