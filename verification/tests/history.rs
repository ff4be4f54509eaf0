use shsh::history::{get_lines_num, init, History, Recall};

fn strings(items: &[&str]) -> Vec<String> {
    items.iter().map(|s| s.to_string()).collect()
}

fn log_of(items: &[&str]) -> History {
    let mut log = init();
    for item in items {
        log.add_to_string(item.to_string());
    }
    log
}

#[test]
fn init_is_an_empty_log() {
    let log = init();
    assert_eq!(get_lines_num(&log), 0);
    assert_eq!(log.loaded, 0);
    assert_eq!(log.get_history(0), None);
    assert_eq!(log.write_history(), "");
}

#[test]
fn records_come_back_newest_first() {
    let log = log_of(&["one", "two", "three"]);
    assert_eq!(get_lines_num(&log), 3);
    assert_eq!(log.get_history(0), Some("three".to_string()));
    assert_eq!(log.get_history(1), Some("two".to_string()));
    assert_eq!(log.get_history(2), Some("one".to_string()));
}

#[test]
fn round_trip_behind_older_records() {
    let mut log = History::restore(strings(&["b", "a"]));
    let added = ["x", "y", "x", ""];
    for item in added {
        log.add_to_string(item.to_string());
    }
    for i in 0..added.len() {
        assert_eq!(log.get_history(i as i32), Some(added[added.len() - 1 - i].to_string()));
    }
    assert_eq!(log.get_history(4), Some("b".to_string()));
    assert_eq!(log.get_history(5), Some("a".to_string()));
}

#[test]
fn get_history_fails_beyond_the_log() {
    let log = log_of(&["one", "two"]);
    assert_eq!(log.get_history(2), None);
    assert_eq!(log.get_history(-1), None);
    assert_eq!(log.get_history(i32::MAX), None);
    assert_eq!(log.get_history(i32::MIN), None);
}

#[test]
fn write_history_ends_each_record_with_a_line_feed() {
    let log = log_of(&["ls -l", "", "cd /"]);
    assert_eq!(log.write_history(), "ls -l\n\ncd /\n");
}

#[test]
fn write_history_leaves_out_what_is_stored() {
    let mut log = History::restore(strings(&["new", "old"]));
    assert_eq!(log.records, strings(&["old", "new"]));
    assert_eq!(log.loaded, 2);
    assert_eq!(log.write_history(), "");
    log.add_to_string("fresh".to_string());
    assert_eq!(log.write_history(), "fresh\n");
    assert_eq!(get_lines_num(&log), 3);
}

#[test]
fn up_on_an_empty_session_shows_the_newest_record() {
    let log = log_of(&["one", "two"]);
    assert_eq!(log.older(Recall::Fresh, &String::new()), (Recall::At(0), "two".to_string()));
}

#[test]
fn up_passes_over_what_the_line_shows() {
    let log = log_of(&["a", "b", "b", "b", "c"]);
    let (at, line) = log.older(Recall::Fresh, &String::new());
    assert_eq!((at, line.as_str()), (Recall::At(0), "c"));
    let (at, line) = log.older(at, &line);
    assert_eq!((at, line.as_str()), (Recall::At(1), "b"));
    let (at, line) = log.older(at, &line);
    assert_eq!((at, line.as_str()), (Recall::At(4), "a"));
    let (at, line) = log.older(at, &line);
    assert_eq!((at, line.as_str()), (Recall::Past, ""));
    let (at, line) = log.older(at, &line);
    assert_eq!((at, line.as_str()), (Recall::Past, ""));
}

#[test]
fn up_passes_over_a_record_equal_to_what_was_typed() {
    let log = log_of(&["ls", "pwd"]);
    assert_eq!(log.older(Recall::Fresh, &"pwd".to_string()), (Recall::At(1), "ls".to_string()));
    let only = log_of(&["ls", "ls"]);
    assert_eq!(only.older(Recall::Fresh, &"ls".to_string()), (Recall::Past, String::new()));
}

#[test]
fn up_passes_over_an_empty_newest_record() {
    let log = log_of(&["ls", ""]);
    assert_eq!(log.older(Recall::Fresh, &String::new()), (Recall::At(1), "ls".to_string()));
}

#[test]
fn up_on_an_empty_log_stays_empty() {
    let log = init();
    assert_eq!(log.older(Recall::Fresh, &String::new()), (Recall::Past, String::new()));
    assert_eq!(log.newer(Recall::Past, &String::new()), (Recall::Fresh, String::new()));
}

#[test]
fn down_from_the_only_record_shows_the_empty_line() {
    let log = log_of(&["ls"]);
    assert_eq!(log.newer(Recall::At(0), &"ls".to_string()), (Recall::Fresh, String::new()));
}

#[test]
fn down_from_the_oldest_record_goes_to_the_next_that_differs() {
    let log = log_of(&["a", "a", "b"]);
    assert_eq!(log.newer(Recall::At(2), &"a".to_string()), (Recall::At(0), "b".to_string()));
    let same = log_of(&["a", "a", "a"]);
    assert_eq!(same.newer(Recall::At(2), &"a".to_string()), (Recall::Fresh, String::new()));
}

#[test]
fn down_walks_back_to_the_empty_line() {
    let log = log_of(&["a", "b", "c"]);
    let (at, line) = log.newer(Recall::Past, &String::new());
    assert_eq!((at, line.as_str()), (Recall::At(2), "a"));
    let (at, line) = log.newer(at, &line);
    assert_eq!((at, line.as_str()), (Recall::At(1), "b"));
    let (at, line) = log.newer(at, &line);
    assert_eq!((at, line.as_str()), (Recall::At(0), "c"));
    let (at, line) = log.newer(at, &line);
    assert_eq!((at, line.as_str()), (Recall::Fresh, ""));
    let (at, line) = log.newer(at, &line);
    assert_eq!((at, line.as_str()), (Recall::Fresh, ""));
}

#[test]
fn a_place_beyond_the_log_counts_as_its_end() {
    let log = log_of(&["a", "b"]);
    assert_eq!(log.older(Recall::At(7), &String::new()), (Recall::Past, String::new()));
    assert_eq!(log.newer(Recall::At(7), &String::new()), (Recall::At(1), "a".to_string()));
}
