//! Reading the downloader's console output: progress lines such as
//! `[download]  50.5% of  341.09MiB at    2.50MiB/s ETA 01:10`, the line that
//! names the destination file, and the outcome of a finished download.
use vstd::prelude::*;
use vstd::string::StringExecFns;
use crate::decimal::{int_decimal, push_int_decimal};
use crate::number_literal::{is_number_literal, is_number_literal_exec};
use crate::text::{
    lemma_contains_concat, lemma_contains_self, first_or_end, find_from, lemma_find_from, lemma_find_some, lemma_split_pieces, matches_at,
    replace_from, trim_end, trim_start, chars_of, contains, contains_exec, first_piece_exec, push_slice, replace_all, replace_all_exec, nth_piece, nth_piece_exec, string_of,
    is_trimmed, law_trim_clean, lemma_contains_suffix, trim, trim_exec, trim_start_char,
    trim_start_char_exec,
};

verus! {

/// The progress of a running download, as read from one output line.
///
/// `percent` holds the percentage exactly as the line writes it; it is a
/// number literal in the sense of `is_number_literal`, which the standard
/// library's real-number parser accepts.
pub struct DownloadProgress {
    pub task_id: String,
    pub percent: String,
    pub speed: String,
    pub eta: String,
    pub total_bytes: String,
    pub downloaded_bytes: String,
}

/// The text before the first '%', trimmed.
pub open spec fn percent_field(t: Seq<char>) -> Seq<char> {
    match nth_piece(t, "%"@, 0) {
        Some(q) => trim(q),
        None => Seq::empty(),
    }
}

/// The text between the first and the second "at", up to the first "ETA",
/// trimmed; empty when there is no "at".
pub open spec fn speed_field(t: Seq<char>) -> Seq<char> {
    match nth_piece(t, "at"@, 1) {
        Some(p) => match nth_piece(p, "ETA"@, 0) {
            Some(q) => trim(q),
            None => Seq::empty(),
        },
        None => Seq::empty(),
    }
}

/// The text between the first and the second "ETA", trimmed; empty when
/// there is no "ETA".
pub open spec fn eta_field(t: Seq<char>) -> Seq<char> {
    match nth_piece(t, "ETA"@, 1) {
        Some(p) => trim(p),
        None => Seq::empty(),
    }
}

/// The text between the first and the second "of", up to the first "at",
/// trimmed and without leading '~'; empty when there is no "of".
pub open spec fn total_field(t: Seq<char>) -> Seq<char> {
    match nth_piece(t, "of"@, 1) {
        Some(p) => match nth_piece(p, "at"@, 0) {
            Some(q) => trim_start_char(trim(q), '~'),
            None => Seq::empty(),
        },
        None => Seq::empty(),
    }
}

/// What a progress line holds: percent, speed, ETA and total size, or `None`
/// for a line that is not a progress line.
pub open spec fn progress_fields(line: Seq<char>) -> Option<
    (Seq<char>, Seq<char>, Seq<char>, Seq<char>),
> {
    if !contains(line, "[download]"@) {
        None
    } else if contains(line, "Destination:"@) || contains(line, "has already been downloaded"@) {
        None
    } else {
        match nth_piece(line, "[download]"@, 1) {
            None => None,
            Some(after) => {
                let t = trim(after);
                if is_number_literal(percent_field(t)) {
                    Some((percent_field(t), speed_field(t), eta_field(t), total_field(t)))
                } else {
                    None
                }
            },
        }
    }
}

/// Parses a progress line of the downloader for task `task_id`.
pub fn parse_download_progress(line: &str, task_id: &str) -> (r: Option<DownloadProgress>)
    ensures
        match progress_fields(line@) {
            None => r is None,
            Some((percent, speed, eta, total)) => r matches Some(p) && p.task_id@ == task_id@
                && p.percent@ == percent && p.speed@ == speed && p.eta@ == eta && p.total_bytes@
                == total && p.downloaded_bytes@ == Seq::<char>::empty(),
        },
{
    let l = chars_of(line);
    let download_tag = chars_of("[download]");
    let destination = chars_of("Destination:");
    let already = chars_of("has already been downloaded");
    let pct = chars_of("%");
    let at = chars_of("at");
    let eta_word = chars_of("ETA");
    let of = chars_of("of");
    proof {
        reveal_strlit("[download]");
        reveal_strlit("%");
        reveal_strlit("at");
        reveal_strlit("ETA");
        reveal_strlit("of");
    }
    if !contains_exec(&l, &download_tag) {
        return None;
    }
    if contains_exec(&l, &destination) || contains_exec(&l, &already) {
        return None;
    }
    let after = match nth_piece_exec(&l, &download_tag, 1) {
        Some(a) => a,
        None => {
            return None;
        },
    };
    let t = trim_exec(&after);
    let percent = trim_exec(&first_piece_exec(&t, &pct));
    if !is_number_literal_exec(&percent) {
        return None;
    }
    let speed = match nth_piece_exec(&t, &at, 1) {
        Some(p) => trim_exec(&first_piece_exec(&p, &eta_word)),
        None => Vec::new(),
    };
    let eta = match nth_piece_exec(&t, &eta_word, 1) {
        Some(p) => trim_exec(&p),
        None => Vec::new(),
    };
    let total = match nth_piece_exec(&t, &of, 1) {
        Some(p) => trim_start_char_exec(&trim_exec(&first_piece_exec(&p, &at)), '~'),
        None => Vec::new(),
    };
    Some(
        DownloadProgress {
            task_id: String::from_str(task_id),
            percent: string_of(&percent),
            speed: string_of(&speed),
            eta: string_of(&eta),
            total_bytes: string_of(&total),
            downloaded_bytes: String::new(),
        },
    )
}

/// Law: a progress report's percentage is a number literal, and its
/// percentage, speed and ETA carry no surrounding white space.
pub proof fn law_progress_fields_clean(line: Seq<char>)
    ensures
        progress_fields(line) matches Some((p, s, e, t)) ==> (is_number_literal(p) && is_trimmed(p)
            && is_trimmed(s) && is_trimmed(e)),
{
    if let Some(after) = nth_piece(line, "[download]"@, 1) {
        let t = trim(after);
        if let Some(q) = nth_piece(t, "%"@, 0) {
            law_trim_clean(q);
        }
        if let Some(p) = nth_piece(t, "at"@, 1) {
            if let Some(q) = nth_piece(p, "ETA"@, 0) {
                law_trim_clean(q);
            }
        }
        if let Some(p) = nth_piece(t, "ETA"@, 1) {
            law_trim_clean(p);
        }
    }
}

/// Law: the percentage is the text before the first '%' (all of it when
/// there is none), trimmed.
pub proof fn law_percent_field(t: Seq<char>)
    ensures
        percent_field(t) == trim(t.subrange(0, first_or_end(t, "%"@, 0))),
{
    reveal_strlit("%");
    lemma_split_pieces(t, "%"@);
}

/// Law: the speed is the text after the first "at", up to the next "ETA",
/// the next "at" or the end, whichever comes first, trimmed; empty when
/// there is no "at".
pub proof fn law_speed_field(t: Seq<char>)
    ensures
        match find_from(t, "at"@, 0) {
            Some(i) => {
                let p = t.subrange(i + 2, first_or_end(t, "at"@, i + 2));
                speed_field(t) == trim(p.subrange(0, first_or_end(p, "ETA"@, 0)))
            },
            None => speed_field(t) == Seq::<char>::empty(),
        },
{
    reveal_strlit("at");
    reveal_strlit("ETA");
    lemma_split_pieces(t, "at"@);
    if let Some(p) = nth_piece(t, "at"@, 1) {
        lemma_split_pieces(p, "ETA"@);
    }
}

/// Law: the ETA is the text after the first "ETA", up to the next "ETA" or
/// the end, trimmed; empty when there is no "ETA".
pub proof fn law_eta_field(t: Seq<char>)
    ensures
        match find_from(t, "ETA"@, 0) {
            Some(i) => eta_field(t) == trim(t.subrange(i + 3, first_or_end(t, "ETA"@, i + 3))),
            None => eta_field(t) == Seq::<char>::empty(),
        },
{
    reveal_strlit("ETA");
    lemma_split_pieces(t, "ETA"@);
}

/// Law: the total size is the text after the first "of", up to the next
/// "at", the next "of" or the end, whichever comes first, trimmed and
/// without leading '~'; empty when there is no "of".
pub proof fn law_total_field(t: Seq<char>)
    ensures
        match find_from(t, "of"@, 0) {
            Some(i) => {
                let p = t.subrange(i + 2, first_or_end(t, "of"@, i + 2));
                total_field(t) == trim_start_char(trim(p.subrange(0, first_or_end(p, "at"@, 0))), '~')
            },
            None => total_field(t) == Seq::<char>::empty(),
        },
{
    reveal_strlit("at");
    reveal_strlit("of");
    lemma_split_pieces(t, "of"@);
    if let Some(p) = nth_piece(t, "of"@, 1) {
        lemma_split_pieces(p, "at"@);
    }
}

/// The path that a "Destination:" line names: the line without the marker
/// `[download] Destination:`, trimmed; `None` for other lines.
pub open spec fn destination_of(line: Seq<char>) -> Option<Seq<char>> {
    if contains(line, "[download] Destination:"@) {
        Some(trim(replace_all(line, "[download] Destination:"@, Seq::empty())))
    } else {
        None
    }
}

/// The lines joined with `sep` between them (`join`).
pub open spec fn join_lines(lines: Seq<Seq<char>>, sep: Seq<char>) -> Seq<char>
    decreases lines.len(),
{
    if lines.len() == 0 {
        Seq::empty()
    } else if lines.len() == 1 {
        lines[0]
    } else {
        join_lines(lines.drop_last(), sep) + sep + lines.last()
    }
}

/// The debug text of an optional exit code: `Some(<code>)` or `None`.
pub open spec fn exit_code_text(code: Option<i32>) -> Seq<char> {
    match code {
        Some(c) => "Some("@ + int_decimal(c as int) + ")"@,
        None => "None"@,
    }
}

/// The views of a list of strings.
pub open spec fn string_views(v: Seq<String>) -> Seq<Seq<char>> {
    v.map_values(|s: String| s@)
}

/// The message of a download whose process exited with failure: the error
/// output joined by newlines, or the exit code when there was none.
pub open spec fn failure_message(code: Option<i32>, stderr: Seq<Seq<char>>) -> Seq<char> {
    "下载失败: "@ + if stderr.len() > 0 {
        join_lines(stderr, "\n"@)
    } else {
        "退出码: "@ + exit_code_text(code)
    }
}

/// The outcome of a finished download process: the downloaded file's path,
/// a fixed note when no destination line was seen, or the failure message.
pub open spec fn download_outcome(
    success: bool,
    code: Option<i32>,
    stderr: Seq<Seq<char>>,
    last_filepath: Seq<char>,
) -> Result<Seq<char>, Seq<char>> {
    if !success {
        Err(failure_message(code, stderr))
    } else if last_filepath.len() == 0 {
        Ok("下载完成（未能获取文件路径）"@)
    } else {
        Ok(last_filepath)
    }
}

/// A `Result` of strings, by its views.
pub open spec fn result_view(r: Result<String, String>) -> Result<Seq<char>, Seq<char>> {
    match r {
        Ok(s) => Ok(s@),
        Err(e) => Err(e@),
    }
}

/// The joined lines contain each of the lines.
proof fn lemma_join_contains(lines: Seq<Seq<char>>, sep: Seq<char>, k: int)
    requires
        0 <= k < lines.len(),
    ensures
        contains(join_lines(lines, sep), lines[k]),
    decreases lines.len(),
{
    if lines.len() == 1 {
        lemma_contains_self(lines[0]);
    } else {
        let init = lines.drop_last();
        if k < lines.len() - 1 {
            assert(init[k] == lines[k]);
            lemma_join_contains(init, sep, k);
            lemma_contains_concat(join_lines(init, sep), sep + lines.last(), lines[k]);
            assert(join_lines(init, sep) + (sep + lines.last()) =~= join_lines(lines, sep));
        } else {
            lemma_contains_self(lines.last());
            lemma_contains_concat(lines.last(), join_lines(init, sep) + sep, lines[k]);
            assert((join_lines(init, sep) + sep) + lines.last() =~= join_lines(lines, sep));
        }
    }
}

/// Law: a failed download's message starts with "下载失败: " and holds every
/// line of the error output; with no error output it names the exit code.
pub proof fn law_failure_message(code: Option<i32>, stderr: Seq<Seq<char>>, k: int)
    ensures
        failure_message(code, stderr).subrange(0, "下载失败: "@.len() as int) == "下载失败: "@,
        0 <= k < stderr.len() ==> contains(failure_message(code, stderr), stderr[k]),
        stderr.len() == 0 ==> failure_message(code, stderr) == "下载失败: 退出码: "@ + exit_code_text(
            code,
        ),
{
    let m = failure_message(code, stderr);
    assert(m.subrange(0, "下载失败: "@.len() as int) =~= "下载失败: "@);
    if 0 <= k < stderr.len() {
        lemma_join_contains(stderr, "\n"@, k);
        lemma_contains_concat(join_lines(stderr, "\n"@), "下载失败: "@, stderr[k]);
    }
    if stderr.len() == 0 {
        reveal_strlit("下载失败: ");
        reveal_strlit("退出码: ");
        reveal_strlit("下载失败: 退出码: ");
        assert("下载失败: "@ + ("退出码: "@ + exit_code_text(code)) =~= "下载失败: 退出码: "@
            + exit_code_text(code));
    }
}

/// Law: only a line that has "[download]", names no destination, is not
/// the note of a file already downloaded, and starts its text with a number
/// before '%' is read as progress.
pub proof fn law_progress_line_gate(line: Seq<char>)
    ensures
        progress_fields(line) matches Some((p, s, e, t)) ==> contains(line, "[download]"@)
            && !contains(line, "Destination:"@) && !contains(line, "has already been downloaded"@)
            && is_number_literal(p),
        !contains(line, "[download]"@) ==> progress_fields(line) is None,
        contains(line, "has already been downloaded"@) ==> progress_fields(line) is None,
{
}

/// Law: a line that names the destination file is never read as progress.
pub proof fn law_destination_line_is_not_progress(line: Seq<char>)
    requires
        destination_of(line) is Some,
    ensures
        progress_fields(line) is None,
{
    reveal_strlit("[download] Destination:");
    reveal_strlit("Destination:");
    let marker = "[download] Destination:"@;
    lemma_contains_suffix(line, marker, 11);
    assert(marker.subrange(11, marker.len() as int) =~= "Destination:"@);
}

/// Law: once a download process exits with success, the outcome is the path
/// named by the last destination line, or a fixed note when there was none;
/// on failure it is an error that starts with "下载失败: ".
pub proof fn law_outcome_shape(
    success: bool,
    code: Option<i32>,
    stderr: Seq<Seq<char>>,
    last_filepath: Seq<char>,
)
    ensures
        success && last_filepath.len() > 0 ==> download_outcome(success, code, stderr, last_filepath)
            == Ok::<Seq<char>, Seq<char>>(last_filepath),
        !success ==> (download_outcome(success, code, stderr, last_filepath) matches Err(m)
            && m.subrange(0, "下载失败: "@.len() as int) == "下载失败: "@),
{
    if !success {
        let m = failure_message(code, stderr);
        assert(m.subrange(0, "下载失败: "@.len() as int) =~= "下载失败: "@);
    }
}

/// Law: the path on a "Destination:" line is kept whole: for every path `p`
/// without surrounding white space (spaces inside it included) and without
/// the marker, the line `[download] Destination: p` names exactly `p`.
pub proof fn law_destination_keeps_path(p: Seq<char>)
    requires
        is_trimmed(p),
        !contains(p, "[download] Destination:"@),
    ensures
        destination_of("[download] Destination: "@ + p) == Some(p),
{
    reveal_strlit("[download] Destination:");
    reveal_strlit("[download] Destination: ");
    reveal_strlit(" ");
    let marker = "[download] Destination:"@;
    let m = marker.len() as int;
    let line = "[download] Destination: "@ + p;
    assert(line.subrange(0, m) =~= marker);
    assert(matches_at(line, marker, 0));
    lemma_find_some(line, marker, 0, 0);
    assert(find_from(line, marker, 0) == Some(0int));
    lemma_find_from(line, marker, m);
    if let Some(k) = find_from(line, marker, m) {
        assert(matches_at(line, marker, k));
        if k == m {
            assert(line.subrange(k, k + m)[0] == line[m]);
        } else {
            let j = k - m - 1;
            assert(p.subrange(j, j + m) =~= line.subrange(k, k + m));
            lemma_find_some(p, marker, 0, j);
        }
    }
    let rest = line.subrange(m, line.len() as int);
    assert(replace_from(line, marker, Seq::empty(), m) == rest);
    assert(replace_all(line, marker, Seq::empty()) =~= rest);
    assert(rest =~= seq![' '] + p);
    assert(rest.drop_first() =~= p);
    assert(trim_start(rest) == trim_start(p));
    assert(trim_start(p) == p);
    assert(trim_end(p) == p);
}

/// The path named by a "Destination:" line.
pub fn destination_path(line: &str) -> (r: Option<String>)
    ensures
        match destination_of(line@) {
            Some(d) => r matches Some(s) && s@ == d,
            None => r is None,
        },
{
    let l = chars_of(line);
    let marker = chars_of("[download] Destination:");
    proof {
        reveal_strlit("[download] Destination:");
    }
    if !contains_exec(&l, &marker) {
        return None;
    }
    let empty: Vec<char> = Vec::new();
    assert(empty@ =~= Seq::<char>::empty());
    let rest = replace_all_exec(&l, &marker, &empty);
    Some(string_of(&trim_exec(&rest)))
}

/// `lines` joined by `sep`.
pub fn join_strings(lines: &Vec<String>, sep: &str) -> (r: Vec<char>)
    ensures
        r@ == join_lines(string_views(lines@), sep@),
{
    let ghost views = string_views(lines@);
    let sep_chars = chars_of(sep);
    let mut out: Vec<char> = Vec::new();
    let mut i: usize = 0;
    while i < lines.len()
        invariant
            i <= lines.len(),
            views == string_views(lines@),
            views.len() == lines@.len(),
            sep_chars@ == sep@,
            out@ == join_lines(views.take(i as int), sep@),
        decreases lines.len() - i,
    {
        let line = chars_of(lines[i].as_str());
        assert(line@ == views[i as int]);
        if i > 0 {
            push_slice(&mut out, &sep_chars, 0, sep_chars.len());
        }
        push_slice(&mut out, &line, 0, line.len());
        proof {
            let t = views.take(i + 1);
            assert(t.drop_last() =~= views.take(i as int));
            assert(sep_chars@.subrange(0, sep_chars@.len() as int) =~= sep_chars@);
            assert(line@.subrange(0, line@.len() as int) =~= line@);
            if i == 0 {
                assert(out@ =~= t[0]);
            } else {
                assert(out@ =~= join_lines(t.drop_last(), sep@) + sep@ + t.last());
            }
        }
        i = i + 1;
    }
    assert(views.take(lines@.len() as int) =~= views);
    out
}

/// The text `Some(<code>)` or `None`.
pub fn exit_code_string(code: Option<i32>) -> (r: Vec<char>)
    ensures
        r@ == exit_code_text(code),
{
    proof {
        reveal_strlit("Some(");
        reveal_strlit(")");
        reveal_strlit("None");
    }
    match code {
        Some(c) => {
            let mut out = chars_of("Some(");
            push_int_decimal(&mut out, c as i64);
            out.push(')');
            assert(out@ =~= "Some("@ + int_decimal(c as int) + ")"@);
            out
        },
        None => chars_of("None"),
    }
}

/// The downloader's arguments for one download: the url, the format, the
/// output template in `output_dir`, one video only, one progress report per
/// line, and the player clients to ask.
pub open spec fn download_arg_list(url: Seq<char>, format_id: Seq<char>, output_dir: Seq<char>) -> Seq<
    Seq<char>,
> {
    seq![
        url,
        "-f"@,
        format_id,
        "-o"@,
        output_dir + "/%(title)s.%(ext)s"@,
        "--no-playlist"@,
        "--newline"@,
        "--extractor-args"@,
        "youtube:player_client=android,ios"@,
    ]
}

/// The downloader's arguments for one download.
pub fn download_args(url: &str, format_id: &str, output_dir: &str) -> (r: Vec<String>)
    ensures
        string_views(r@) == download_arg_list(url@, format_id@, output_dir@),
{
    let mut template = chars_of(output_dir);
    let suffix = chars_of("/%(title)s.%(ext)s");
    push_slice(&mut template, &suffix, 0, suffix.len());
    assert(suffix@.subrange(0, suffix@.len() as int) =~= suffix@);
    let mut r: Vec<String> = Vec::new();
    r.push(String::from_str(url));
    r.push(String::from_str("-f"));
    r.push(String::from_str(format_id));
    r.push(String::from_str("-o"));
    r.push(string_of(&template));
    r.push(String::from_str("--no-playlist"));
    r.push(String::from_str("--newline"));
    r.push(String::from_str("--extractor-args"));
    r.push(String::from_str("youtube:player_client=android,ios"));
    assert(string_views(r@) =~= download_arg_list(url@, format_id@, output_dir@));
    r
}

/// Follows one download: remembers the destination path that the output
/// names and turns output lines into progress reports.
pub struct DownloadWatch {
    pub task_id: String,
    pub last_filepath: String,
}

impl DownloadWatch {
    /// A watch for task `task_id` that has seen no output yet.
    pub fn new(task_id: &str) -> (w: DownloadWatch)
        ensures
            w.task_id@ == task_id@,
            w.last_filepath@ == Seq::<char>::empty(),
    {
        DownloadWatch { task_id: String::from_str(task_id), last_filepath: String::new() }
    }

    /// Takes one line of output: a "Destination:" line updates the remembered
    /// path; a progress line gives a progress report to publish.
    pub fn on_line(&mut self, line: &str) -> (r: Option<DownloadProgress>)
        ensures
            final(self).task_id == old(self).task_id,
            final(self).last_filepath@ == match destination_of(line@) {
                Some(d) => d,
                None => old(self).last_filepath@,
            },
            match progress_fields(line@) {
                None => r is None,
                Some((percent, speed, eta, total)) => r matches Some(p) && p.task_id@
                    == old(self).task_id@ && p.percent@ == percent && p.speed@ == speed && p.eta@
                    == eta && p.total_bytes@ == total && p.downloaded_bytes@ == Seq::<char>::empty(),
            },
    {
        match destination_path(line) {
            Some(d) => {
                self.last_filepath = d;
            },
            None => {},
        }
        parse_download_progress(line, self.task_id.as_str())
    }

    /// The outcome when the user stopped the download.
    pub fn on_cancel(&self) -> (r: Result<String, String>)
        ensures
            r matches Err(e) && e@ == "已取消"@,
    {
        Err(String::from_str("已取消"))
    }

    /// The outcome when the download process exited, given whether it
    /// succeeded, its exit code and the lines of its error output.
    pub fn on_exit(&self, success: bool, code: Option<i32>, stderr_lines: &Vec<String>) -> (r:
        Result<String, String>)
        ensures
            result_view(r) == download_outcome(
                success,
                code,
                string_views(stderr_lines@),
                self.last_filepath@,
            ),
    {
        if !success {
            let mut msg = chars_of("下载失败: ");
            let detail = if stderr_lines.len() > 0 {
                join_strings(stderr_lines, "\n")
            } else {
                let mut d = chars_of("退出码: ");
                let c = exit_code_string(code);
                push_slice(&mut d, &c, 0, c.len());
                assert(c@.subrange(0, c@.len() as int) =~= c@);
                d
            };
            push_slice(&mut msg, &detail, 0, detail.len());
            assert(detail@.subrange(0, detail@.len() as int) =~= detail@);
            return Err(string_of(&msg));
        }
        if self.last_filepath.as_str().is_empty() {
            Ok(String::from_str("下载完成（未能获取文件路径）"))
        } else {
            Ok(self.last_filepath.clone())
        }
    }
}

} // verus!
