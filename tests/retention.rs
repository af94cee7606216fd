use speak_easy::retention::{
    files_to_delete, filter_by_prefix, has_prefix, select_for_deletion, sort_newest_first,
    LogFileEntry,
};

fn entry(name: &str, modified: u128) -> LogFileEntry {
    LogFileEntry::new(name.to_string(), modified)
}

fn names(v: &[LogFileEntry]) -> Vec<String> {
    let mut r: Vec<String> = v.iter().map(|e| e.name.clone()).collect();
    r.sort();
    r
}

#[test]
fn keeps_two_newest_of_three() {
    let listing = vec![entry("app.log.1", 100), entry("app.log.2", 200), entry("app.log.3", 300)];
    let deleted = files_to_delete(listing, "app.log", 2);
    assert_eq!(names(&deleted), vec!["app.log.1".to_string()]);
}

#[test]
fn other_prefix_untouched_with_keep_zero() {
    let listing = vec![entry("app.log.1", 100), entry("other.log.1", 50)];
    let deleted = files_to_delete(listing, "app.log", 0);
    assert_eq!(names(&deleted), vec!["app.log.1".to_string()]);
}

#[test]
fn empty_directory_deletes_nothing() {
    for keep in [0usize, 1, 5, usize::MAX] {
        assert!(files_to_delete(Vec::new(), "app.log", keep).is_empty());
    }
}

#[test]
fn keep_zero_deletes_all_candidates() {
    let listing = vec![entry("log.a", 3), entry("log.b", 1), entry("log.c", 2)];
    let deleted = files_to_delete(listing, "log", 0);
    assert_eq!(names(&deleted), vec!["log.a", "log.b", "log.c"]);
}

#[test]
fn keep_at_least_population_deletes_none() {
    let listing = vec![entry("log.a", 3), entry("log.b", 1), entry("log.c", 2)];
    assert!(files_to_delete(listing.clone(), "log", 3).is_empty());
    assert!(files_to_delete(listing, "log", 10).is_empty());
}

#[test]
fn deletes_all_but_the_newest_in_order() {
    let listing = vec![
        entry("log.5", 50),
        entry("log.1", 10),
        entry("log.4", 40),
        entry("log.2", 20),
        entry("log.3", 30),
    ];
    let deleted = select_for_deletion(listing, 2);
    let got: Vec<&str> = deleted.iter().map(|e| e.name.as_str()).collect();
    assert_eq!(got, vec!["log.3", "log.2", "log.1"]);
}

#[test]
fn count_and_recency_for_each_keep() {
    let listing: Vec<LogFileEntry> =
        (0..7u128).map(|i| entry(&format!("app.{}", (i * 5) % 7), (i * 5) % 7)).collect();
    for keep in 0..10usize {
        let deleted = select_for_deletion(listing.clone(), keep);
        let expected = if keep >= 7 { 0 } else { 7 - keep };
        assert_eq!(deleted.len(), expected);
        let kept: Vec<&LogFileEntry> = listing.iter().filter(|e| !deleted.contains(e)).collect();
        assert_eq!(kept.len(), 7 - expected);
        for k in &kept {
            for d in &deleted {
                assert!(k.modified > d.modified);
            }
        }
    }
}

#[test]
fn second_pass_deletes_nothing() {
    let listing = vec![
        entry("app.log.1", 1),
        entry("app.log.2", 2),
        entry("app.log.3", 3),
        entry("other", 0),
    ];
    let deleted = files_to_delete(listing.clone(), "app.log", 1);
    assert_eq!(deleted.len(), 2);
    let after: Vec<LogFileEntry> = listing.into_iter().filter(|e| !deleted.contains(e)).collect();
    assert_eq!(after.len(), 2);
    assert!(files_to_delete(after, "app.log", 1).is_empty());
}

#[test]
fn non_matching_never_selected() {
    let listing = vec![
        entry("old.log", 0),
        entry("app.lo", 1),
        entry("xapp.log", 2),
        entry("app.log.9", 9),
    ];
    let deleted = files_to_delete(listing, "app.log", 0);
    assert_eq!(names(&deleted), vec!["app.log.9".to_string()]);
}

#[test]
fn prefix_matching() {
    assert!(has_prefix("app.log.2024", "app.log"));
    assert!(has_prefix("anything", ""));
    assert!(has_prefix("app.log", "app.log"));
    assert!(!has_prefix("app.lo", "app.log"));
    assert!(!has_prefix("xapp.log", "app.log"));
    assert!(has_prefix("журнал.1", "журнал"));
    assert!(!has_prefix("журнал.1", "журнaл"));
}

#[test]
fn filter_keeps_listing_order() {
    let listing = vec![entry("b.log", 1), entry("a.log", 2), entry("b.log.1", 3)];
    let got: Vec<String> =
        filter_by_prefix(listing, "b").into_iter().map(|e| e.name).collect();
    assert_eq!(got, vec!["b.log".to_string(), "b.log.1".to_string()]);
}

#[test]
fn sort_puts_newest_first() {
    let listing = vec![entry("x", 2), entry("y", 9), entry("z", 2), entry("w", 0)];
    let sorted = sort_newest_first(listing);
    let times: Vec<u128> = sorted.iter().map(|e| e.modified).collect();
    assert_eq!(times, vec![9, 2, 2, 0]);
    assert_eq!(sorted[0].name, "y");
    assert_eq!(sorted[3].name, "w");
}
