use ytdlp_ui::queue::{default_output_dir, resolve_ytdlp_path, DownloadQueue, DownloadTask, TaskStatus};

fn task(id: &str) -> DownloadTask {
    DownloadTask {
        id: id.to_string(),
        url: format!("https://example.com/{}", id),
        title: format!("title {}", id),
        format_id: "18".to_string(),
        output_dir: "/out".to_string(),
        cookies_from: String::new(),
        status: TaskStatus::Queued,
        progress: 0,
        speed: String::new(),
        eta: String::new(),
        filesize: String::new(),
        error: None,
        filepath: None,
    }
}

fn status_of(q: &DownloadQueue, id: &str) -> TaskStatus {
    q.get_all().into_iter().find(|t| t.id == id).unwrap().status
}

#[test]
fn new_queue_is_empty_and_keeps_settings() {
    let q = DownloadQueue::new(3, "yt-dlp.exe".to_string(), "/downloads".to_string());
    assert!(q.get_all().is_empty());
    assert_eq!(q.max_concurrent(), 3);
    assert_eq!(q.ytdlp_path(), "yt-dlp.exe");
    assert_eq!(q.output_dir(), "/downloads");
    assert!(q.next_queued().is_none());
}

#[test]
fn tasks_are_listed_in_order_added() {
    let mut q = DownloadQueue::new(3, String::new(), String::new());
    q.enqueue(task("a"));
    q.enqueue(task("b"));
    q.enqueue(task("c"));
    let ids: Vec<String> = q.get_all().into_iter().map(|t| t.id).collect();
    assert_eq!(ids, vec!["a", "b", "c"]);
}

#[test]
fn enqueue_same_id_replaces_task_and_lists_it_twice() {
    let mut q = DownloadQueue::new(3, String::new(), String::new());
    q.enqueue(task("a"));
    let mut t = task("a");
    t.title = "new title".to_string();
    q.enqueue(t);
    let all = q.get_all();
    assert_eq!(all.len(), 2);
    assert_eq!(all[0].title, "new title");
    assert_eq!(all[1].title, "new title");
}

#[test]
fn add_task_creates_queued_task_with_uuid() {
    let mut q = DownloadQueue::new(3, String::new(), String::new());
    let id = q.add_task(
        "https://v".to_string(),
        "T".to_string(),
        "22".to_string(),
        "/o".to_string(),
        None,
    );
    assert_eq!(id.len(), 36);
    assert_eq!(id.chars().nth(14), Some('4'));
    assert_eq!(id.chars().nth(8), Some('-'));
    let all = q.get_all();
    assert_eq!(all.len(), 1);
    let t = &all[0];
    assert_eq!(t.id, id);
    assert_eq!(t.url, "https://v");
    assert_eq!(t.cookies_from, "");
    assert_eq!(t.status, TaskStatus::Queued);
    assert_eq!(t.progress, 0);
    assert!(t.error.is_none() && t.filepath.is_none());
    let id2 = q.add_task(
        "u".to_string(),
        "t".to_string(),
        "f".to_string(),
        "o".to_string(),
        Some("chrome".to_string()),
    );
    assert_ne!(id, id2);
    assert_eq!(q.get_all()[1].cookies_from, "chrome");
}

#[test]
fn next_queued_picks_first_queued_in_order() {
    let mut q = DownloadQueue::new(3, String::new(), String::new());
    q.enqueue(task("a"));
    q.enqueue(task("b"));
    assert_eq!(q.next_queued(), Some("a".to_string()));
    let launch = q.begin_download("a").unwrap();
    assert_eq!(launch.url, "https://example.com/a");
    assert_eq!(launch.format_id, "18");
    assert_eq!(launch.output_dir, "/out");
    assert_eq!(status_of(&q, "a"), TaskStatus::Downloading);
    assert_eq!(q.next_queued(), Some("b".to_string()));
    assert!(q.begin_download("a").is_none());
    assert!(q.begin_download("zzz").is_none());
}

#[test]
fn pause_only_downloading_tasks() {
    let mut q = DownloadQueue::new(3, String::new(), String::new());
    q.enqueue(task("a"));
    assert_eq!(q.pause("a"), Err("任务未找到或状态不正确".to_string()));
    assert_eq!(q.pause("missing"), Err("任务未找到或状态不正确".to_string()));
    q.begin_download("a").unwrap();
    assert_eq!(q.pause("a"), Ok(()));
    assert_eq!(status_of(&q, "a"), TaskStatus::Paused);
    assert_eq!(q.requeue("a"), Ok(()));
    assert_eq!(status_of(&q, "a"), TaskStatus::Queued);
    assert_eq!(q.requeue("a"), Err("无法重新排队".to_string()));
}

#[test]
fn cancel_rules() {
    let mut q = DownloadQueue::new(3, String::new(), String::new());
    q.enqueue(task("a"));
    assert_eq!(q.cancel("missing"), Err("任务未找到".to_string()));
    assert_eq!(q.cancel("a"), Ok(()));
    assert_eq!(status_of(&q, "a"), TaskStatus::Cancelled);
    assert_eq!(q.cancel("a"), Err("任务已完成或已取消".to_string()));
    assert_eq!(q.requeue("a"), Err("无法重新排队".to_string()));
    assert_eq!(q.pause("a"), Err("任务未找到或状态不正确".to_string()));
    q.finish_download("a", Err("下载失败: x".to_string()));
    assert_eq!(status_of(&q, "a"), TaskStatus::Cancelled);
}

#[test]
fn finish_download_outcomes() {
    let mut q = DownloadQueue::new(4, String::new(), String::new());
    for id in ["ok", "cancelled", "failed", "paused"] {
        q.enqueue(task(id));
        q.begin_download(id).unwrap();
    }
    q.finish_download("ok", Ok("/out/video.mp4".to_string()));
    q.finish_download("cancelled", Err("已取消".to_string()));
    q.finish_download("failed", Err("下载失败: 退出码: Some(1)".to_string()));
    q.pause("paused").unwrap();
    q.finish_download("paused", Err("已取消".to_string()));
    let all = q.get_all();
    assert_eq!(all[0].status, TaskStatus::Completed);
    assert_eq!(all[0].progress, 100);
    assert_eq!(all[0].filepath, Some("/out/video.mp4".to_string()));
    assert_eq!(all[1].status, TaskStatus::Cancelled);
    assert!(all[1].error.is_none());
    assert_eq!(all[2].status, TaskStatus::Failed);
    assert_eq!(all[2].error, Some("下载失败: 退出码: Some(1)".to_string()));
    assert_eq!(all[3].status, TaskStatus::Paused);
    assert_eq!(q.requeue("failed"), Ok(()));
    assert_eq!(q.cancel("ok"), Err("任务已完成或已取消".to_string()));
}

#[test]
fn ytdlp_path_falls_back_to_plain_name() {
    assert_eq!(resolve_ytdlp_path(Some("/x/yt-dlp.exe".to_string()), true), "/x/yt-dlp.exe");
    assert_eq!(resolve_ytdlp_path(Some("/x/yt-dlp.exe".to_string()), false), "yt-dlp.exe");
    assert_eq!(resolve_ytdlp_path(None, true), "yt-dlp.exe");
}

#[test]
fn begin_download_respects_concurrency_limit() {
    let mut q = DownloadQueue::new(2, String::new(), String::new());
    for id in ["a", "b", "c"] {
        q.enqueue(task(id));
    }
    assert!(q.begin_download("a").is_some());
    assert!(q.begin_download("b").is_some());
    assert!(q.begin_download("c").is_none());
    assert_eq!(status_of(&q, "c"), TaskStatus::Queued);
    q.finish_download("a", Ok("/out/a.mp4".to_string()));
    assert!(q.begin_download("c").is_some());
    assert_eq!(status_of(&q, "c"), TaskStatus::Downloading);
    let mut none = DownloadQueue::new(0, String::new(), String::new());
    none.enqueue(task("x"));
    assert!(none.begin_download("x").is_none());
}

#[test]
fn running_downloads_are_counted_until_they_finish() {
    let mut q = DownloadQueue::new(1, String::new(), String::new());
    let mut shown = task("shown");
    shown.status = TaskStatus::Downloading;
    q.enqueue(shown);
    q.enqueue(task("a"));
    q.enqueue(task("b"));
    assert!(q.begin_download("a").is_some());
    q.pause("a").unwrap();
    assert!(q.begin_download("b").is_none());
    q.finish_download("a", Err("已取消".to_string()));
    assert_eq!(status_of(&q, "a"), TaskStatus::Paused);
    assert!(q.begin_download("b").is_some());
}

#[test]
fn default_output_dir_fallbacks() {
    assert_eq!(default_output_dir(Some("/home/u/Downloads".to_string()), Some("/w/downloads".to_string())), "/home/u/Downloads");
    assert_eq!(default_output_dir(None, Some("/w/downloads".to_string())), "/w/downloads");
    assert_eq!(default_output_dir(None, None), "./downloads");
}

#[test]
fn finished_tasks_stay_finished_after_more_requests() {
    let mut q = DownloadQueue::new(3, String::new(), String::new());
    for id in ["done", "gone", "other"] {
        q.enqueue(task(id));
    }
    q.begin_download("done").unwrap();
    q.finish_download("done", Ok("/out/d.mp4".to_string()));
    q.cancel("gone").unwrap();
    q.begin_download("other").unwrap();
    q.pause("other").unwrap();
    q.requeue("other").unwrap();
    q.enqueue(task("new"));
    for id in ["done", "gone"] {
        assert!(q.pause(id).is_err());
        assert!(q.requeue(id).is_err());
        assert!(q.begin_download(id).is_none());
        assert_eq!(q.cancel(id), Err("任务已完成或已取消".to_string()));
    }
    assert_eq!(status_of(&q, "done"), TaskStatus::Completed);
    assert_eq!(status_of(&q, "gone"), TaskStatus::Cancelled);
}
