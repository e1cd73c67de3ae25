use ytdlp_ui::history::{HistoryRecord, HistoryStore};

fn rec(id: &str, title: &str, url: &str) -> HistoryRecord {
    HistoryRecord {
        id: id.to_string(),
        url: url.to_string(),
        title: title.to_string(),
        format_id: "18".to_string(),
        ext: "mp4".to_string(),
        resolution: "640x360".to_string(),
        filesize: "1MiB".to_string(),
        filepath: format!("/out/{}.mp4", id),
        downloaded_at: "2024-01-01T00:00:00+00:00".to_string(),
    }
}

fn store() -> HistoryStore {
    HistoryStore::new(
        "/data/history.json".to_string(),
        vec![
            rec("1", "Rust Tutorial", "https://www.YouTube.com/watch?v=1"),
            rec("2", "Cooking", "https://vimeo.com/2"),
            rec("3", "More RUST", "https://vimeo.com/3"),
        ],
    )
}

fn ids(v: &[HistoryRecord]) -> Vec<String> {
    v.iter().map(|r| r.id.clone()).collect()
}

#[test]
fn history_lists_newest_first() {
    let s = store();
    assert_eq!(ids(&s.get_all()), vec!["3", "2", "1"]);
    assert_eq!(ids(s.records()), vec!["1", "2", "3"]);
    assert_eq!(s.path(), "/data/history.json");
}

#[test]
fn history_search_ignores_case_and_matches_title_or_url() {
    let s = store();
    assert_eq!(ids(&s.search("rust")), vec!["3", "1"]);
    assert_eq!(ids(&s.search("YOUTUBE")), vec!["1"]);
    assert_eq!(ids(&s.search("Vimeo")), vec!["3", "2"]);
    assert!(s.search("nothing").is_empty());
}

#[test]
fn history_query_uses_search_only_for_nonempty_query() {
    let s = store();
    assert_eq!(ids(&s.query(None)), vec!["3", "2", "1"]);
    assert_eq!(ids(&s.query(Some(String::new()))), vec!["3", "2", "1"]);
    assert_eq!(ids(&s.query(Some("cook".to_string()))), vec!["2"]);
}

#[test]
fn history_delete_removes_by_id() {
    let mut s = store();
    s.delete("2");
    assert_eq!(ids(&s.get_all()), vec!["3", "1"]);
    s.delete("2");
    assert_eq!(ids(&s.get_all()), vec!["3", "1"]);
    s.delete("missing");
    assert_eq!(ids(&s.get_all()), vec!["3", "1"]);
}

#[test]
fn history_has_url_is_exact() {
    let s = store();
    assert!(s.has_url("https://vimeo.com/2"));
    assert!(!s.has_url("https://vimeo.com/"));
    assert!(!s.has_url("HTTPS://VIMEO.COM/2"));
}

#[test]
fn history_add_appends_record_with_new_id_and_utc_time() {
    let mut s = store();
    let r = s.add("https://x/9", "Title", "137", "mp4", "1920x1080", "9MiB", "/out/x.mp4");
    assert_eq!(r.id.len(), 36);
    assert_eq!(r.id.chars().nth(14), Some('4'));
    assert!(r.downloaded_at.ends_with("+00:00"));
    assert_eq!(r.url, "https://x/9");
    assert_eq!(r.resolution, "1920x1080");
    assert_eq!(s.get_all()[0].id, r.id);
    assert!(s.has_url("https://x/9"));
    s.delete(&r.id);
    assert_eq!(ids(&s.get_all()), vec!["3", "2", "1"]);
}

#[test]
fn history_add_record_uses_given_id_and_time() {
    let mut s = HistoryStore::new(String::new(), vec![]);
    let r = s.add_record(
        "id-1".to_string(),
        "2020-02-02T02:02:02+00:00".to_string(),
        "u",
        "t",
        "f",
        "e",
        "r",
        "s",
        "p",
    );
    assert_eq!(r.id, "id-1");
    assert_eq!(r.downloaded_at, "2020-02-02T02:02:02+00:00");
    assert_eq!(s.records().len(), 1);
}

#[test]
fn history_search_laws_on_examples() {
    let s = store();
    assert_eq!(ids(&s.search("")), ids(&s.get_all()));
    assert_eq!(ids(&s.search("rust")), ids(&s.search("RUST")));
    assert_eq!(ids(&s.search("vImEo")), ids(&s.search("VIMEO")));
    let all = ids(&s.get_all());
    let found = ids(&s.search("vimeo"));
    let mut k = 0;
    for id in &found {
        while all[k] != *id {
            k += 1;
        }
        k += 1;
    }
}
