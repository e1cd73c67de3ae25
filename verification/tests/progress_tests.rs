use ytdlp_ui::progress::{destination_path, download_args, parse_download_progress, DownloadWatch};

#[test]
fn test_parse_progress_zero() {
    let line = "[download]   0.0% of  341.09MiB at  138.49KiB/s ETA 42:01";
    let result = parse_download_progress(line, "test-id");
    assert!(result.is_some(), "Should parse 0.0% progress");
    let p = result.unwrap();
    assert_eq!(p.percent.parse::<f64>().unwrap(), 0.0);
    assert_eq!(p.speed, "138.49KiB/s");
    assert_eq!(p.eta, "42:01");
    assert_eq!(p.total_bytes, "341.09MiB");
}

#[test]
fn test_parse_progress_mid() {
    let line = "[download]  50.5% of  341.09MiB at    2.50MiB/s ETA 01:10";
    let result = parse_download_progress(line, "test-id");
    assert!(result.is_some(), "Should parse 50.5% progress");
    let p = result.unwrap();
    assert_eq!(p.percent.parse::<f64>().unwrap(), 50.5);
    assert_eq!(p.speed, "2.50MiB/s");
    assert_eq!(p.eta, "01:10");
    assert_eq!(p.total_bytes, "341.09MiB");
}

#[test]
fn test_parse_progress_done() {
    let line = "[download] 100.0% of  341.09MiB at    5.00MiB/s ETA 00:00";
    let result = parse_download_progress(line, "test-id");
    assert!(result.is_some(), "Should parse 100% progress");
    let p = result.unwrap();
    assert_eq!(p.percent.parse::<f64>().unwrap(), 100.0);
}

#[test]
fn test_skip_destination() {
    let line = "[download] Destination: C:\\test.mp4";
    let result = parse_download_progress(line, "test-id");
    assert!(result.is_none(), "Should skip Destination line");
}

#[test]
fn test_skip_non_download() {
    let line = "[youtube] Extracting URL: https://...";
    let result = parse_download_progress(line, "test-id");
    assert!(result.is_none(), "Should skip non-download line");
}

#[test]
fn test_parse_no_tilde() {
    let line = "[download]  10.0% of 100.00MiB at    1.00MiB/s ETA 01:30";
    let result = parse_download_progress(line, "test-id");
    assert!(result.is_some(), "Should parse without tilde");
    let p = result.unwrap();
    assert_eq!(p.total_bytes, "100.00MiB");
}

#[test]
fn progress_keeps_task_id_and_text_of_percent() {
    let p = parse_download_progress("[download]  12.3% of ~ 50.00MiB at  1.00MiB/s ETA 00:40", "abc")
        .unwrap();
    assert_eq!(p.task_id, "abc");
    assert_eq!(p.percent, "12.3");
    assert_eq!(p.downloaded_bytes, "");
}

#[test]
fn progress_strips_tilde_from_total() {
    let p = parse_download_progress("[download]   5.0% of ~341.09MiB at  1.00MiB/s ETA 05:00", "t")
        .unwrap();
    assert_eq!(p.total_bytes, "341.09MiB");
}

#[test]
fn progress_without_speed_or_eta_has_empty_fields() {
    let p = parse_download_progress("[download] 100% of 10.00MiB in 00:00:02", "t").unwrap();
    assert_eq!(p.percent, "100");
    assert_eq!(p.speed, "");
    assert_eq!(p.eta, "");
    assert_eq!(p.total_bytes, "10.00MiB in 00:00:02");
}

#[test]
fn progress_rejects_non_number_percent() {
    assert!(parse_download_progress("[download] Resuming download at byte 100", "t").is_none());
    assert!(parse_download_progress("[download] abc% of 1MiB", "t").is_none());
    assert!(parse_download_progress("[download] 1.2.3% of 1MiB", "t").is_none());
}

#[test]
fn progress_skips_already_downloaded() {
    let line = "[download] C:\\a.mp4 has already been downloaded";
    assert!(parse_download_progress(line, "t").is_none());
}

#[test]
fn progress_accepts_all_number_forms() {
    for text in ["1e2", ".5", "5.", "+3", "-0.25", "inf", "INFINITY", "NaN", "2E-3"] {
        let line = format!("[download] {}% of 1MiB at 1KiB/s ETA 00:01", text);
        let p = parse_download_progress(&line, "t").expect("number form");
        assert_eq!(p.percent, text);
        assert!(p.percent.parse::<f64>().is_ok());
    }
    for text in [".", "e5", "1e", "1e+", "--1", "in f", ""] {
        let line = format!("[download] {}% of 1MiB", text);
        assert!(parse_download_progress(&line, "t").is_none(), "{}", text);
    }
}

#[test]
fn destination_line_names_path() {
    let d = destination_path("[download] Destination: C:\\videos\\clip.mp4  ").unwrap();
    assert_eq!(d, "C:\\videos\\clip.mp4");
    assert!(destination_path("[download]  10.0% of 1MiB").is_none());
}

#[test]
fn watch_remembers_destination_and_reports_progress() {
    let mut w = DownloadWatch::new("job-1");
    assert!(w.on_line("[download] Destination: /tmp/a.mp4").is_none());
    assert_eq!(w.last_filepath, "/tmp/a.mp4");
    let p = w.on_line("[download]  50.0% of 2.00MiB at 1.00MiB/s ETA 00:01").unwrap();
    assert_eq!(p.task_id, "job-1");
    assert_eq!(w.last_filepath, "/tmp/a.mp4");
    assert_eq!(w.on_exit(true, Some(0), &vec![]), Ok("/tmp/a.mp4".to_string()));
}

#[test]
fn watch_outcomes_on_failure_and_cancel() {
    let w = DownloadWatch::new("job-2");
    assert_eq!(
        w.on_exit(true, Some(0), &vec![]),
        Ok("下载完成（未能获取文件路径）".to_string())
    );
    assert_eq!(
        w.on_exit(false, Some(-1), &vec![]),
        Err("下载失败: 退出码: Some(-1)".to_string())
    );
    assert_eq!(w.on_exit(false, None, &vec![]), Err("下载失败: 退出码: None".to_string()));
    assert_eq!(
        w.on_exit(false, Some(1), &vec!["ERROR: a".to_string(), "ERROR: b".to_string()]),
        Err("下载失败: ERROR: a\nERROR: b".to_string())
    );
    assert_eq!(w.on_cancel(), Err("已取消".to_string()));
}

#[test]
fn progress_percent_accepted_exactly_when_std_parses_it() {
    let alphabet = ["1", "0", ".", " ", "e", "E", "+", "-", "i", "n", "f", "a", "N"];
    let mut texts: Vec<String> = vec![String::new()];
    for _ in 0..3 {
        let mut next = Vec::new();
        for t in &texts {
            for a in alphabet {
                next.push(format!("{}{}", t, a));
            }
        }
        texts.extend(next);
    }
    texts.extend(
        ["inf", "-inf", "+Infinity", "nan", "NAN", "infinit", "nana", "1e10", "00.00e-00"]
            .iter()
            .map(|s| s.to_string()),
    );
    for t in texts {
        let line = format!("[download] {}% of 1MiB", t);
        let expected = t.trim().parse::<f64>().is_ok();
        assert_eq!(parse_download_progress(&line, "x").is_some(), expected, "{:?}", t);
    }
}

#[test]
fn downloader_arguments() {
    assert_eq!(
        download_args("https://v.example/1", "18", "/out"),
        vec![
            "https://v.example/1",
            "-f",
            "18",
            "-o",
            "/out/%(title)s.%(ext)s",
            "--no-playlist",
            "--newline",
            "--extractor-args",
            "youtube:player_client=android,ios",
        ]
    );
}
