use rgrep::grep_single_file;
use rgrep::matcher::MatchError;
use rgrep::utils::{Found, Walk};

fn entries_of(path: &str) -> Option<Vec<String>> {
    match path {
        "root" => Some(vec![
            "root/with.txt".to_string(),
            "root/locked.txt".to_string(),
            "root/without.txt".to_string(),
        ]),
        _ => None,
    }
}

fn lines_at(path: &str) -> Result<Vec<String>, MatchError> {
    match path {
        "root/with.txt" => Ok(vec!["Hello World".to_string(), "File Line Matcher".to_string()]),
        "root/without.txt" => Ok(vec!["Text End".to_string()]),
        _ => Err(MatchError::Io("permission denied".to_string())),
    }
}

#[test]
fn directory_scan_shows_the_matching_file_only() {
    colored::control::set_override(false);
    let mut walk = Walk::new("root".to_string());
    let mut shown = Vec::new();
    let mut failed = Vec::new();
    while let Some(path) = walk.next_path() {
        let found = match entries_of(&path) {
            Some(entries) => Found::Directory(entries),
            None => Found::File,
        };
        if let Some(file) = walk.advance(path, found) {
            let scanned = lines_at(&file)
                .and_then(|lines| grep_single_file(file.clone(), lines, "Matcher".to_string()));
            match scanned {
                Ok(Some(text)) => shown.push(text),
                Ok(None) => {}
                Err(e) => failed.push((file, e)),
            }
        }
    }
    assert_eq!(shown, vec!["root/with.txt:\n    2:10   File Line Matcher\n".to_string()]);
    assert_eq!(failed.len(), 1);
    assert_eq!(failed[0].0, "root/locked.txt");
    assert!(matches!(failed[0].1, MatchError::Io(_)));
}

#[test]
fn walk_starts_at_its_root() {
    let mut walk = Walk::new("root".to_string());
    assert_eq!(walk.remaining(), 1);
    assert_eq!(walk.next_path(), Some("root".to_string()));
    assert_eq!(walk.remaining(), 0);
    assert_eq!(walk.next_path(), None);
}

#[test]
fn walk_hands_a_file_back() {
    let mut walk = Walk::new("root".to_string());
    let path = walk.next_path().unwrap();
    assert_eq!(walk.advance(path, Found::File), Some("root".to_string()));
    assert_eq!(walk.next_path(), None);
}

#[test]
fn walk_visits_the_last_entry_first() {
    let mut walk = Walk::new("root".to_string());
    let root = walk.next_path().unwrap();
    let entries = vec!["root/a".to_string(), "root/b".to_string(), "root/c".to_string()];
    assert_eq!(walk.advance(root, Found::Directory(entries)), None);
    assert_eq!(walk.remaining(), 3);

    let c = walk.next_path().unwrap();
    assert_eq!(c, "root/c");
    assert_eq!(walk.advance(c, Found::Directory(vec!["root/c/d".to_string()])), None);
    let mut files = Vec::new();
    while let Some(path) = walk.next_path() {
        if let Some(file) = walk.advance(path, Found::File) {
            files.push(file);
        }
    }
    assert_eq!(files, vec!["root/c/d", "root/b", "root/a"]);
}

#[test]
fn walk_passes_over_an_empty_directory() {
    let mut walk = Walk::new("root".to_string());
    let root = walk.next_path().unwrap();
    assert_eq!(walk.advance(root, Found::Directory(Vec::new())), None);
    assert_eq!(walk.remaining(), 0);
    assert_eq!(walk.next_path(), None);
}
