use tailor::dirwatch::{DirEntry, DirWatch};
use tailor::events::WatchEvent;

fn file(dir: &str, name: &str, modified: i128) -> DirEntry {
    DirEntry {
        path: format!("{}/{}", dir, name),
        name: String::from(name),
        is_file: true,
        modified: Some(modified),
    }
}

fn file_name(path: &str) -> &str {
    path.rsplit('/').next().unwrap_or("NO_FILENAME")
}

#[test]
fn empty_dir() {
    let mut watch = DirWatch::new("./test/dirwatch/empty_dir");
    assert_eq!(watch.rescan(&Vec::new()), None);
}

#[test]
fn pick_latest_file() {
    let dir = "./test/dirwatch/pick_latest_file";
    let entries = vec![file(dir, "file1.txt", 1_000), file(dir, "file2.txt", 2_000)];
    let mut watch = DirWatch::new(dir);

    let latest_file = watch.rescan(&entries);
    assert_eq!(latest_file.is_some(), true);
    let latest_file_path = latest_file.unwrap();
    assert_eq!(file_name(&latest_file_path), "file2.txt");

    watch.on_stop_signal(true);
    assert_eq!(watch.should_exit(), true);
}

#[test]
fn report_created() {
    let dir = "./test/dirwatch/report_created";
    let mut watch = DirWatch::new(dir);
    assert_eq!(watch.rescan(&Vec::new()), None);

    let mut entries = vec![file(dir, "file1.txt", 1_000)];
    assert_eq!(watch.process_event(WatchEvent::CreatedFile), true);
    let created_file = watch.rescan(&entries);
    assert_eq!(created_file.is_some(), true);
    assert_eq!(file_name(&created_file.unwrap()), "file1.txt");

    entries.push(file(dir, "file2.txt", 2_000_000_000));
    let created_file = watch.rescan(&entries);
    assert_eq!(created_file.is_some(), true);
    assert_eq!(file_name(&created_file.unwrap()), "file2.txt");
}

#[test]
fn report_changed() {
    let dir = "./test/dirwatch/report_changed";
    let mut watch = DirWatch::new(dir);

    let mut entries = vec![file(dir, "file1.txt", 1_000)];
    let created_file1 = watch.rescan(&entries);
    entries.push(file(dir, "file2.txt", 2_000));
    let _created_file2 = watch.rescan(&entries);

    // "Test line" written to file1.txt makes it the newest.
    entries[0].modified = Some(3_000);
    assert_eq!(watch.process_event(WatchEvent::ContentModified), true);
    let changed_file = watch.rescan(&entries);
    assert_eq!(changed_file.is_some(), true);
    assert_eq!(
        file_name(&changed_file.unwrap()),
        file_name(created_file1.as_deref().unwrap_or("INVALID2"))
    );
}

#[test]
fn dirwatch_request_exit() {
    let mut watch = DirWatch::new("./test/dirwatch/request_exit");
    assert_eq!(watch.should_exit(), false);
    watch.on_stop_signal(true);
    assert_eq!(watch.should_exit(), true);
}

#[test]
fn newer_file_takes_over() {
    let dir = "/logs";
    let mut entries = vec![file(dir, "file1.txt", 10), file(dir, "file2.txt", 20)];
    let mut watch = DirWatch::new(dir);
    assert_eq!(watch.rescan(&entries), Some(String::from("/logs/file2.txt")));
    entries.push(file(dir, "file3.txt", 30));
    assert_eq!(watch.rescan(&entries), Some(String::from("/logs/file3.txt")));
    // The same selection again is not reported twice.
    assert_eq!(watch.rescan(&entries), None);
}

#[test]
fn hidden_file_never_selected() {
    let dir = "/logs";
    let mut entries = vec![file(dir, "file1.txt", 10)];
    let mut watch = DirWatch::new(dir);
    assert_eq!(watch.rescan(&entries), Some(String::from("/logs/file1.txt")));
    entries.push(file(dir, ".hidden.txt", 99));
    assert_eq!(DirWatch::pick_latest_file(&entries), Some(0));
    assert_eq!(watch.rescan(&entries), None);

    let only_hidden = vec![file(dir, ".hidden.txt", 99)];
    assert_eq!(DirWatch::pick_latest_file(&only_hidden), None);
}

#[test]
fn ineligible_entries_skipped() {
    let dir = "/logs";
    let mut sub = file(dir, "subdir", 50);
    sub.is_file = false;
    let mut unknown = file(dir, "unknown.txt", 0);
    unknown.modified = None;
    let entries = vec![sub, unknown, file(dir, "a.txt", -5)];
    assert_eq!(DirWatch::pick_latest_file(&entries), Some(2));
}

#[test]
fn equal_times_first_wins() {
    let dir = "/logs";
    let entries = vec![file(dir, "a.txt", 7), file(dir, "b.txt", 7)];
    assert_eq!(DirWatch::pick_latest_file(&entries), Some(0));
}

#[test]
fn filename_rules() {
    assert_eq!(DirWatch::filename_allowed("app.log"), true);
    assert_eq!(DirWatch::filename_allowed(".hidden.txt"), false);
    assert_eq!(DirWatch::filename_allowed(""), false);
}

#[test]
fn filename_rules_on_paths() {
    assert_eq!(DirWatch::filename_allowed("dir/.x"), false);
    assert_eq!(DirWatch::filename_allowed("./x"), true);
    assert_eq!(DirWatch::filename_allowed("/var/log/app.log"), true);
    assert_eq!(DirWatch::filename_allowed("/var/.cache/app.log"), true);
    assert_eq!(DirWatch::filename_allowed("a/."), true);
    assert_eq!(DirWatch::filename_allowed("a/"), true);
    assert_eq!(DirWatch::filename_allowed("a//"), true);
    assert_eq!(DirWatch::filename_allowed(".hidden/"), false);
    assert_eq!(DirWatch::filename_allowed("."), false);
    assert_eq!(DirWatch::filename_allowed(".."), false);
    assert_eq!(DirWatch::filename_allowed("a/.."), false);
    assert_eq!(DirWatch::filename_allowed("/"), false);
    assert_eq!(DirWatch::filename_allowed("./."), false);
}

#[test]
fn hidden_path_entry_skipped() {
    let mut hidden = file("/logs", "x", 50);
    hidden.name = String::from("sub/.x");
    let entries = vec![file("/logs", "a.txt", 1), hidden];
    assert_eq!(DirWatch::pick_latest_file(&entries), Some(0));
}

#[test]
fn dir_scan_triggers() {
    let watch = DirWatch::new("/logs");
    assert_eq!(watch.process_event(WatchEvent::CreatedFile), true);
    assert_eq!(watch.process_event(WatchEvent::ContentModified), true);
    assert_eq!(watch.process_event(WatchEvent::TimedOut), true);
    assert_eq!(watch.process_event(WatchEvent::CreatedOther), false);
    assert_eq!(watch.process_event(WatchEvent::DataModified), true);
    assert_eq!(watch.process_event(WatchEvent::Removed), false);
    assert_eq!(watch.get_path(), "/logs");
}
