use shsh::autocompletion::{lookup_dir, search_dirs, Completion, DirEntry};
use shsh::text::sort_strings;

fn strings(items: &[&str]) -> Vec<String> {
    items.iter().map(|s| s.to_string()).collect()
}

fn file(name: &str, mode: u32) -> DirEntry {
    DirEntry { name: name.to_string(), is_file: true, is_dir: false, mode }
}

fn dir(name: &str) -> DirEntry {
    DirEntry { name: name.to_string(), is_file: false, is_dir: true, mode: 0o755 }
}

fn index_of(names: &[&str]) -> Completion {
    let mut index = Completion::init();
    index.get_cmds(&vec![names.iter().map(|n| file(n, 0o755)).collect()]);
    index
}

#[test]
fn init_holds_no_names() {
    let index = Completion::init();
    assert!(index.cmds.is_empty());
    assert!(index.find_cmds_completion(&String::new()).is_empty());
}

#[test]
fn completion_by_prefix_keeps_the_order_of_the_index() {
    let index = index_of(&["ls", "less", "cat"]);
    let found = index.find_cmds_completion(&"l".to_string());
    assert_eq!(found, strings(&["ls", "less"]));
    assert_eq!(sort_strings(found), strings(&["less", "ls"]));
}

#[test]
fn completion_by_the_empty_prefix_finds_all() {
    let index = index_of(&["ls", "less", "cat"]);
    assert_eq!(index.find_cmds_completion(&String::new()), strings(&["ls", "less", "cat"]));
}

#[test]
fn completion_by_a_whole_name_or_more() {
    let index = index_of(&["ls", "less", "cat"]);
    assert_eq!(index.find_cmds_completion(&"ls".to_string()), strings(&["ls"]));
    assert!(index.find_cmds_completion(&"lss".to_string()).is_empty());
    assert!(index.find_cmds_completion(&"x".to_string()).is_empty());
}

#[test]
fn binaries_are_files_that_someone_may_run() {
    let entries = vec![
        file("run", 0o755),
        file("data", 0o644),
        dir("sub"),
        file("mine", 0o700),
        file("theirs", 0o001),
        file("group", 0o010),
        DirEntry { name: "odd".to_string(), is_file: false, is_dir: false, mode: 0o777 },
    ];
    assert_eq!(Completion::get_binaries(&entries), strings(&["run", "mine", "theirs", "group"]));
    assert!(Completion::get_binaries(&Vec::new()).is_empty());
}

#[test]
fn get_cmds_adds_directory_after_directory() {
    let mut index = Completion::init();
    index.get_cmds(&vec![vec![file("b", 0o755), file("x", 0o600)], vec![], vec![file("a", 0o755), file("b", 0o111)]]);
    assert_eq!(index.cmds, strings(&["b", "a", "b"]));
    index.get_cmds(&vec![vec![file("c", 0o755)]]);
    assert_eq!(index.cmds, strings(&["b", "a", "b", "c"]));
}

#[test]
fn search_path_is_cut_at_colons() {
    assert_eq!(search_dirs("/bin:/usr/bin"), strings(&["/bin", "/usr/bin"]));
    assert_eq!(search_dirs("/bin"), strings(&["/bin"]));
    assert_eq!(search_dirs(""), strings(&[""]));
    assert_eq!(search_dirs(":/bin::"), strings(&["", "/bin", "", ""]));
}

#[test]
fn get_dir_marks_directories() {
    let index = Completion::init();
    let entries = vec![file("a.txt", 0o644), dir("src"), file("run", 0o755)];
    assert_eq!(index.get_dir(&entries), strings(&["a.txt", "src/", "run"]));
}

#[test]
fn find_path_completion_filters_by_prefix() {
    let index = Completion::init();
    let names = strings(&["src/", "spam.txt", "target/", "s"]);
    assert_eq!(index.find_path_completion(names.clone(), &"s".to_string()), strings(&["src/", "spam.txt", "s"]));
    assert_eq!(index.find_path_completion(names.clone(), &"sr".to_string()), strings(&["src/"]));
    assert_eq!(index.find_path_completion(names, &String::new()).len(), 4);
}

#[test]
fn get_paths_of_a_directory_lists_it() {
    let index = Completion::init();
    let entries = vec![file("a.txt", 0o644), dir("sub")];
    let (names, prefix, is_dir) = index.get_paths(&"src".to_string(), true, &entries);
    assert_eq!(names, strings(&["a.txt", "sub/"]));
    assert_eq!(prefix, 0);
    assert!(is_dir);
}

#[test]
fn get_paths_of_a_partial_name_filters() {
    let index = Completion::init();
    let entries = vec![file("main.rs", 0o644), dir("macros"), file("lib.rs", 0o644)];
    let (names, prefix, is_dir) = index.get_paths(&"src/ma".to_string(), false, &entries);
    assert_eq!(names, strings(&["main.rs", "macros/"]));
    assert_eq!(prefix, 2);
    assert!(!is_dir);
    let (names, prefix, is_dir) = index.get_paths(&"li".to_string(), false, &entries);
    assert_eq!(names, strings(&["lib.rs"]));
    assert_eq!(prefix, 2);
    assert!(!is_dir);
    let (names, prefix, _) = index.get_paths(&"src/".to_string(), false, &entries);
    assert_eq!(names.len(), 3);
    assert_eq!(prefix, 0);
}

#[test]
fn lookup_dir_is_the_part_before_the_last_slash() {
    assert_eq!(lookup_dir("src/ma", false), "src/");
    assert_eq!(lookup_dir("a/b/c", false), "a/b/");
    assert_eq!(lookup_dir("/etc", false), "/");
    assert_eq!(lookup_dir("ma", false), ".");
    assert_eq!(lookup_dir("", false), ".");
    assert_eq!(lookup_dir("src", true), "src");
    assert_eq!(lookup_dir("a/b", true), "a/b");
}
