//! The download queue: tasks in the order they were added, each with a
//! status, and the rules by which the status of a task changes.
use vstd::prelude::*;
use vstd::string::StringExecFns;
use crate::ids::{is_uuid_v4_text, new_uuid_v4};
use crate::text::{chars_of, contains, contains_exec};

verus! {

/// Where a task stands.
#[derive(Clone, Copy, Debug, PartialEq, Eq, Structural)]
pub enum TaskStatus {
    Queued,
    Downloading,
    Paused,
    Completed,
    Failed,
    Cancelled,
}

/// A download task. `progress` is the whole percentage done.
#[derive(Clone, Debug)]
pub struct DownloadTask {
    pub id: String,
    pub url: String,
    pub title: String,
    pub format_id: String,
    pub output_dir: String,
    pub cookies_from: String,
    pub status: TaskStatus,
    pub progress: u32,
    pub speed: String,
    pub eta: String,
    pub filesize: String,
    pub error: Option<String>,
    pub filepath: Option<String>,
}

fn copy_opt_string(o: &Option<String>) -> (r: Option<String>)
    ensures
        r == *o,
{
    match o {
        Some(s) => Some(s.clone()),
        None => None,
    }
}

impl DownloadTask {
    /// A copy of the task, equal to it in every field.
    pub fn duplicate(&self) -> (r: DownloadTask)
        ensures
            r == *self,
    {
        DownloadTask {
            id: self.id.clone(),
            url: self.url.clone(),
            title: self.title.clone(),
            format_id: self.format_id.clone(),
            output_dir: self.output_dir.clone(),
            cookies_from: self.cookies_from.clone(),
            status: self.status,
            progress: self.progress,
            speed: self.speed.clone(),
            eta: self.eta.clone(),
            filesize: self.filesize.clone(),
            error: copy_opt_string(&self.error),
            filepath: copy_opt_string(&self.filepath),
        }
    }
}

/// What a download needs from its task: the url, the format, the output
/// directory and the browser to take cookies from.
pub struct DownloadLaunch {
    pub url: String,
    pub format_id: String,
    pub output_dir: String,
    pub cookies_from: String,
}

/// The first index at or after `i` of a task with id `id`.
pub open spec fn find_task_from(tasks: Seq<DownloadTask>, id: Seq<char>, i: int) -> Option<int>
    decreases tasks.len() - i,
{
    if i < 0 || i >= tasks.len() {
        None
    } else if tasks[i].id@ == id {
        Some(i)
    } else {
        find_task_from(tasks, id, i + 1)
    }
}

/// The index of the task with id `id`.
pub open spec fn find_task(tasks: Seq<DownloadTask>, id: Seq<char>) -> Option<int> {
    find_task_from(tasks, id, 0)
}

/// No two tasks share an id.
pub open spec fn ids_distinct(tasks: Seq<DownloadTask>) -> bool {
    forall|i: int, j: int|
        0 <= i < tasks.len() && 0 <= j < tasks.len() && i != j ==> #[trigger] tasks[i].id@
            != #[trigger] tasks[j].id@
}

/// Every id in `order` names a task.
pub open spec fn all_listed(order: Seq<Seq<char>>, tasks: Seq<DownloadTask>) -> bool {
    forall|k: int| 0 <= k < order.len() ==> #[trigger] find_task(tasks, order[k]) is Some
}

/// The tasks that the ids of `order` name, in that order (ids that name no
/// task are skipped).
pub open spec fn listed_tasks(order: Seq<Seq<char>>, tasks: Seq<DownloadTask>) -> Seq<DownloadTask>
    decreases order.len(),
{
    if order.len() == 0 {
        Seq::empty()
    } else {
        let rest = listed_tasks(order.drop_last(), tasks);
        match find_task(tasks, order.last()) {
            Some(i) => rest.push(tasks[i]),
            None => rest,
        }
    }
}

/// `t` with status `s`.
pub open spec fn with_status(t: DownloadTask, s: TaskStatus) -> DownloadTask {
    DownloadTask { status: s, ..t }
}

/// `tasks` after adding `t`: it replaces the task with its id, or comes last.
pub open spec fn enqueued(tasks: Seq<DownloadTask>, t: DownloadTask) -> Seq<DownloadTask> {
    match find_task(tasks, t.id@) {
        Some(i) => tasks.update(i, t),
        None => tasks.push(t),
    }
}

/// Pausing: a downloading task becomes paused; any other request is refused.
pub open spec fn pause_result(tasks: Seq<DownloadTask>, id: Seq<char>) -> Option<Seq<DownloadTask>> {
    match find_task(tasks, id) {
        Some(i) => if tasks[i].status == TaskStatus::Downloading {
            Some(tasks.update(i, with_status(tasks[i], TaskStatus::Paused)))
        } else {
            None
        },
        None => None,
    }
}

/// Cancelling: any task that is neither completed nor cancelled becomes
/// cancelled; otherwise the request is refused with a message.
pub open spec fn cancel_result(tasks: Seq<DownloadTask>, id: Seq<char>) -> Result<
    Seq<DownloadTask>,
    Seq<char>,
> {
    match find_task(tasks, id) {
        Some(i) => if tasks[i].status == TaskStatus::Completed || tasks[i].status
            == TaskStatus::Cancelled {
            Err("任务已完成或已取消"@)
        } else {
            Ok(tasks.update(i, with_status(tasks[i], TaskStatus::Cancelled)))
        },
        None => Err("任务未找到"@),
    }
}

/// Re-queueing: a paused or failed task is queued again; any other request
/// is refused.
pub open spec fn requeue_result(tasks: Seq<DownloadTask>, id: Seq<char>) -> Option<Seq<DownloadTask>> {
    match find_task(tasks, id) {
        Some(i) => if tasks[i].status == TaskStatus::Paused || tasks[i].status
            == TaskStatus::Failed {
            Some(tasks.update(i, with_status(tasks[i], TaskStatus::Queued)))
        } else {
            None
        },
        None => None,
    }
}

/// Starting: a queued task becomes downloading with no progress yet.
pub open spec fn begin_result(tasks: Seq<DownloadTask>, id: Seq<char>) -> Option<Seq<DownloadTask>> {
    match find_task(tasks, id) {
        Some(i) => if tasks[i].status == TaskStatus::Queued {
            Some(
                tasks.update(
                    i,
                    DownloadTask { status: TaskStatus::Downloading, progress: 0, ..tasks[i] },
                ),
            )
        } else {
            None
        },
        None => None,
    }
}

/// `t` after its download ended with `result`: a path completes it; an error
/// leaves a paused or cancelled task as it is, cancels it when the error says
/// it was cancelled ("已取消"), and otherwise fails it with the error.
pub open spec fn finished_task(t: DownloadTask, result: Result<String, String>) -> DownloadTask {
    match result {
        Ok(path) => DownloadTask {
            status: TaskStatus::Completed,
            progress: 100,
            filepath: Some(path),
            ..t
        },
        Err(e) => if t.status == TaskStatus::Paused || t.status == TaskStatus::Cancelled {
            t
        } else if contains(e@, "已取消"@) {
            DownloadTask { status: TaskStatus::Cancelled, ..t }
        } else {
            DownloadTask { status: TaskStatus::Failed, error: Some(e), ..t }
        },
    }
}

/// `tasks` after the download of task `id` ended with `result`.
pub open spec fn finish_result(
    tasks: Seq<DownloadTask>,
    id: Seq<char>,
    result: Result<String, String>,
) -> Seq<DownloadTask> {
    match find_task(tasks, id) {
        Some(i) => tasks.update(i, finished_task(tasks[i], result)),
        None => tasks,
    }
}

/// `id` names a queued task.
pub open spec fn names_queued(tasks: Seq<DownloadTask>, id: Seq<char>) -> bool {
    find_task(tasks, id) matches Some(i) && tasks[i].status == TaskStatus::Queued
}

/// The first id of `order[k..]` that names a queued task.
pub open spec fn first_queued_from(order: Seq<Seq<char>>, tasks: Seq<DownloadTask>, k: int) -> Option<
    Seq<char>,
>
    decreases order.len() - k,
{
    if k < 0 || k >= order.len() {
        None
    } else if names_queued(tasks, order[k]) {
        Some(order[k])
    } else {
        first_queued_from(order, tasks, k + 1)
    }
}

/// The first id of `order` that names a queued task.
pub open spec fn first_queued(order: Seq<Seq<char>>, tasks: Seq<DownloadTask>) -> Option<Seq<char>> {
    first_queued_from(order, tasks, 0)
}

/// The text of an optional string, empty when absent (`unwrap_or_default`).
pub open spec fn opt_text(o: Option<String>) -> Seq<char> {
    match o {
        Some(s) => s@,
        None => Seq::empty(),
    }
}

/// `t` is the task that adding a download creates: queued, with no progress,
/// speed, ETA, size, error or path yet.
pub open spec fn is_new_task(
    t: DownloadTask,
    id: Seq<char>,
    url: Seq<char>,
    title: Seq<char>,
    format_id: Seq<char>,
    output_dir: Seq<char>,
    cookies_from: Seq<char>,
) -> bool {
    &&& t.id@ == id
    &&& t.url@ == url
    &&& t.title@ == title
    &&& t.format_id@ == format_id
    &&& t.output_dir@ == output_dir
    &&& t.cookies_from@ == cookies_from
    &&& t.status == TaskStatus::Queued
    &&& t.progress == 0
    &&& t.speed@ == Seq::<char>::empty()
    &&& t.eta@ == Seq::<char>::empty()
    &&& t.filesize@ == Seq::<char>::empty()
    &&& t.error is None
    &&& t.filepath is None
}

/// What `find_task_from` finds.
pub proof fn lemma_find_task_from(tasks: Seq<DownloadTask>, id: Seq<char>, i: int)
    requires
        0 <= i,
    ensures
        match find_task_from(tasks, id, i) {
            Some(k) => i <= k < tasks.len() && tasks[k].id@ == id && forall|j: int|
                i <= j < k ==> #[trigger] tasks[j].id@ != id,
            None => forall|j: int| i <= j < tasks.len() ==> #[trigger] tasks[j].id@ != id,
        },
    decreases tasks.len() - i,
{
    if i < tasks.len() && tasks[i].id@ != id {
        lemma_find_task_from(tasks, id, i + 1);
    }
}

/// What `find_task` finds.
pub proof fn lemma_find_task(tasks: Seq<DownloadTask>, id: Seq<char>)
    ensures
        match find_task(tasks, id) {
            Some(k) => 0 <= k < tasks.len() && tasks[k].id@ == id && forall|j: int|
                0 <= j < k ==> #[trigger] tasks[j].id@ != id,
            None => forall|j: int| 0 <= j < tasks.len() ==> #[trigger] tasks[j].id@ != id,
        },
{
    lemma_find_task_from(tasks, id, 0);
}

/// Replacing a task by one with the same id does not change what any id finds.
pub proof fn lemma_find_task_update(tasks: Seq<DownloadTask>, i: int, t: DownloadTask, id: Seq<char>)
    requires
        0 <= i < tasks.len(),
        t.id@ == tasks[i].id@,
    ensures
        find_task(tasks.update(i, t), id) == find_task(tasks, id),
{
    let u = tasks.update(i, t);
    lemma_find_task(tasks, id);
    lemma_find_task(u, id);
    match find_task(tasks, id) {
        Some(k) => {
            match find_task(u, id) {
                Some(k2) => {
                    if k2 < k {
                        assert(u[k2].id@ == tasks[k2].id@);
                    } else if k < k2 {
                        assert(u[k].id@ == tasks[k].id@);
                    }
                },
                None => {
                    assert(u[k].id@ == tasks[k].id@);
                },
            }
        },
        None => {
            if let Some(k2) = find_task(u, id) {
                assert(u[k2].id@ == tasks[k2].id@);
            }
        },
    }
}

/// Adding a task with a new id leaves what other ids find unchanged.
pub proof fn lemma_find_task_push(tasks: Seq<DownloadTask>, t: DownloadTask, id: Seq<char>)
    requires
        find_task(tasks, t.id@) is None,
    ensures
        find_task(tasks.push(t), id) == if id == t.id@ {
            Some(tasks.len() as int)
        } else {
            find_task(tasks, id)
        },
{
    let u = tasks.push(t);
    lemma_find_task(tasks, id);
    lemma_find_task(u, id);
    lemma_find_task(tasks, t.id@);
    match find_task(u, id) {
        Some(k2) => {
            if k2 < tasks.len() {
                assert(u[k2] == tasks[k2]);
                match find_task(tasks, id) {
                    Some(k) => {
                        if k < k2 {
                            assert(u[k] == tasks[k]);
                        }
                    },
                    None => {},
                }
            } else {
                assert(u[k2] == t);
                if let Some(k) = find_task(tasks, id) {
                    assert(u[k] == tasks[k]);
                }
            }
        },
        None => {
            if let Some(k) = find_task(tasks, id) {
                assert(u[k] == tasks[k]);
            }
            assert(u[tasks.len() as int] == t);
        },
    }
}

/// Adding a task keeps the ids distinct and every listed id found.
pub proof fn lemma_enqueued_wf(order: Seq<Seq<char>>, tasks: Seq<DownloadTask>, t: DownloadTask)
    requires
        ids_distinct(tasks),
        all_listed(order, tasks),
    ensures
        ids_distinct(enqueued(tasks, t)),
        all_listed(order.push(t.id@), enqueued(tasks, t)),
        all_listed(order, enqueued(tasks, t)),
{
    let u = enqueued(tasks, t);
    lemma_find_task(tasks, t.id@);
    match find_task(tasks, t.id@) {
        Some(i) => {
            assert forall|a: int, b: int|
                0 <= a < u.len() && 0 <= b < u.len() && a != b implies #[trigger] u[a].id@
                != #[trigger] u[b].id@ by {
                assert(u[a].id@ == tasks[a].id@);
                assert(u[b].id@ == tasks[b].id@);
            }
            assert forall|k: int| 0 <= k < order.push(t.id@).len() implies #[trigger] find_task(
                u,
                order.push(t.id@)[k],
            ) is Some by {
                lemma_find_task_update(tasks, i, t, order.push(t.id@)[k]);
                if k < order.len() {
                    assert(order.push(t.id@)[k] == order[k]);
                }
            }
            assert forall|k: int| 0 <= k < order.len() implies #[trigger] find_task(u, order[k]) is Some by {
                lemma_find_task_update(tasks, i, t, order[k]);
            }
        },
        None => {
            assert forall|a: int, b: int|
                0 <= a < u.len() && 0 <= b < u.len() && a != b implies #[trigger] u[a].id@
                != #[trigger] u[b].id@ by {
                if a < tasks.len() && b < tasks.len() {
                    assert(u[a] == tasks[a]);
                    assert(u[b] == tasks[b]);
                } else if a < tasks.len() {
                    assert(u[a] == tasks[a]);
                    assert(u[b] == t);
                } else {
                    assert(u[a] == t);
                    assert(u[b] == tasks[b]);
                }
            }
            assert forall|k: int| 0 <= k < order.push(t.id@).len() implies #[trigger] find_task(
                u,
                order.push(t.id@)[k],
            ) is Some by {
                lemma_find_task_push(tasks, t, order.push(t.id@)[k]);
                if k < order.len() {
                    assert(order.push(t.id@)[k] == order[k]);
                }
            }
            assert forall|k: int| 0 <= k < order.len() implies #[trigger] find_task(u, order[k]) is Some by {
                lemma_find_task_push(tasks, t, order[k]);
            }
        },
    }
}

/// Changing the status of one task keeps ids distinct and every listed id found.
pub proof fn lemma_update_wf(order: Seq<Seq<char>>, tasks: Seq<DownloadTask>, i: int, t: DownloadTask)
    requires
        ids_distinct(tasks),
        all_listed(order, tasks),
        0 <= i < tasks.len(),
        t.id@ == tasks[i].id@,
    ensures
        ids_distinct(tasks.update(i, t)),
        all_listed(order, tasks.update(i, t)),
{
    let u = tasks.update(i, t);
    assert forall|a: int, b: int|
        0 <= a < u.len() && 0 <= b < u.len() && a != b implies #[trigger] u[a].id@
        != #[trigger] u[b].id@ by {
        assert(u[a].id@ == tasks[a].id@);
        assert(u[b].id@ == tasks[b].id@);
    }
    assert forall|k: int| 0 <= k < order.len() implies #[trigger] find_task(u, order[k]) is Some by {
        lemma_find_task_update(tasks, i, t, order[k]);
    }
}

/// Adding a task with a new id does not change which tasks the ids of
/// `order` name.
pub proof fn lemma_listed_push(order: Seq<Seq<char>>, tasks: Seq<DownloadTask>, t: DownloadTask)
    requires
        all_listed(order, tasks),
        find_task(tasks, t.id@) is None,
    ensures
        listed_tasks(order, tasks.push(t)) == listed_tasks(order, tasks),
    decreases order.len(),
{
    if order.len() > 0 {
        let init = order.drop_last();
        assert forall|k: int| 0 <= k < init.len() implies #[trigger] find_task(tasks, init[k]) is Some by {
            assert(init[k] == order[k]);
        }
        lemma_listed_push(init, tasks, t);
        assert(find_task(tasks, order[order.len() - 1]) is Some);
        lemma_find_task_push(tasks, t, order.last());
        lemma_find_task(tasks, order.last());
        if let Some(i) = find_task(tasks, order.last()) {
            assert(tasks.push(t)[i] == tasks[i]);
        }
    }
}

/// Law: every id in the order names a task, so listing all tasks gives one
/// task per entry of the order.
pub proof fn law_listed_len(order: Seq<Seq<char>>, tasks: Seq<DownloadTask>)
    requires
        all_listed(order, tasks),
    ensures
        listed_tasks(order, tasks).len() == order.len(),
    decreases order.len(),
{
    if order.len() > 0 {
        let init = order.drop_last();
        assert forall|k: int| 0 <= k < init.len() implies #[trigger] find_task(tasks, init[k]) is Some by {
            assert(init[k] == order[k]);
        }
        law_listed_len(init, tasks);
        assert(find_task(tasks, order[order.len() - 1]) is Some);
    }
}

/// Law: adding a task with a new id lists it after all the tasks listed
/// before, which stay as they were.
pub proof fn law_enqueue_new_id_lists_last(
    order: Seq<Seq<char>>,
    tasks: Seq<DownloadTask>,
    t: DownloadTask,
)
    requires
        all_listed(order, tasks),
        find_task(tasks, t.id@) is None,
    ensures
        listed_tasks(order.push(t.id@), enqueued(tasks, t)) == listed_tasks(order, tasks).push(t),
{
    let o2 = order.push(t.id@);
    assert(o2.drop_last() =~= order);
    lemma_listed_push(order, tasks, t);
    lemma_find_task_push(tasks, t, t.id@);
    assert(tasks.push(t)[tasks.len() as int] == t);
}

/// Law: cancelling is final. After a task has been cancelled, pausing,
/// re-queueing, starting and cancelling it again are all refused, and a
/// download that ends with an error leaves it cancelled.
pub proof fn law_cancel_is_final(tasks: Seq<DownloadTask>, id: Seq<char>, e: String)
    requires
        cancel_result(tasks, id) is Ok,
    ensures
        ({
            let after = cancel_result(tasks, id)->Ok_0;
            &&& pause_result(after, id) is None
            &&& requeue_result(after, id) is None
            &&& begin_result(after, id) is None
            &&& cancel_result(after, id) == Err::<Seq<DownloadTask>, Seq<char>>(
                "任务已完成或已取消"@,
            )
            &&& finish_result(after, id, Err(e)) == after
        }),
{
    let i = find_task(tasks, id)->0;
    lemma_find_task(tasks, id);
    let t = with_status(tasks[i], TaskStatus::Cancelled);
    lemma_find_task_update(tasks, i, t, id);
    let after = tasks.update(i, t);
    assert(after[i] == t);
    assert(after.update(i, finished_task(after[i], Err(e))) =~= after);
}

/// Law: a completed task stays completed: pausing, re-queueing, starting and
/// cancelling it are refused.
pub proof fn law_completed_is_final(tasks: Seq<DownloadTask>, id: Seq<char>)
    requires
        find_task(tasks, id) matches Some(i) && tasks[i].status == TaskStatus::Completed,
    ensures
        pause_result(tasks, id) is None,
        requeue_result(tasks, id) is None,
        begin_result(tasks, id) is None,
        cancel_result(tasks, id) == Err::<Seq<DownloadTask>, Seq<char>>("任务已完成或已取消"@),
{
}

/// Law: a task that exists and is neither completed nor cancelled (queued,
/// downloading, paused or failed) can always be cancelled: it becomes
/// cancelled and every other task stays as it was. Completed and cancelled
/// tasks are refused with "任务已完成或已取消", unknown ids with "任务未找到".
pub proof fn law_cancel_active_task(tasks: Seq<DownloadTask>, id: Seq<char>)
    ensures
        match find_task(tasks, id) {
            Some(i) => if tasks[i].status != TaskStatus::Completed && tasks[i].status
                != TaskStatus::Cancelled {
                cancel_result(tasks, id) matches Ok(after) && after.len() == tasks.len()
                    && after[i].status == TaskStatus::Cancelled && after[i] == DownloadTask {
                    status: TaskStatus::Cancelled,
                    ..tasks[i]
                } && forall|j: int| 0 <= j < tasks.len() && j != i ==> after[j] == tasks[j]
            } else {
                cancel_result(tasks, id) == Err::<Seq<DownloadTask>, Seq<char>>(
                    "任务已完成或已取消"@,
                )
            },
            None => cancel_result(tasks, id) == Err::<Seq<DownloadTask>, Seq<char>>("任务未找到"@),
        },
{
    lemma_find_task(tasks, id);
}

/// Law: a downloading task can always be paused (it becomes paused, all else
/// unchanged); pausing any other task, or an unknown id, is refused.
pub proof fn law_pause_downloading_task(tasks: Seq<DownloadTask>, id: Seq<char>)
    ensures
        match find_task(tasks, id) {
            Some(i) => if tasks[i].status == TaskStatus::Downloading {
                pause_result(tasks, id) matches Some(after) && after.len() == tasks.len()
                    && after[i] == DownloadTask { status: TaskStatus::Paused, ..tasks[i] }
                    && forall|j: int| 0 <= j < tasks.len() && j != i ==> after[j] == tasks[j]
            } else {
                pause_result(tasks, id) is None
            },
            None => pause_result(tasks, id) is None,
        },
{
    lemma_find_task(tasks, id);
}

/// Law: a paused or failed task can always be queued again (it becomes
/// queued, all else unchanged); re-queueing any other task, or an unknown
/// id, is refused.
pub proof fn law_requeue_stopped_task(tasks: Seq<DownloadTask>, id: Seq<char>)
    ensures
        match find_task(tasks, id) {
            Some(i) => if tasks[i].status == TaskStatus::Paused || tasks[i].status
                == TaskStatus::Failed {
                requeue_result(tasks, id) matches Some(after) && after.len() == tasks.len()
                    && after[i] == DownloadTask { status: TaskStatus::Queued, ..tasks[i] }
                    && forall|j: int| 0 <= j < tasks.len() && j != i ==> after[j] == tasks[j]
            } else {
                requeue_result(tasks, id) is None
            },
            None => requeue_result(tasks, id) is None,
        },
{
    lemma_find_task(tasks, id);
}

/// Law: a queued task can always be started (it becomes downloading at no
/// progress, all else unchanged); starting any other task, or an unknown
/// id, is refused.
pub proof fn law_begin_queued_task(tasks: Seq<DownloadTask>, id: Seq<char>)
    ensures
        match find_task(tasks, id) {
            Some(i) => if tasks[i].status == TaskStatus::Queued {
                begin_result(tasks, id) matches Some(after) && after.len() == tasks.len()
                    && after[i] == DownloadTask {
                    status: TaskStatus::Downloading,
                    progress: 0,
                    ..tasks[i]
                } && forall|j: int| 0 <= j < tasks.len() && j != i ==> after[j] == tasks[j]
            } else {
                begin_result(tasks, id) is None
            },
            None => begin_result(tasks, id) is None,
        },
{
    lemma_find_task(tasks, id);
}

/// Law: how a download's end changes its task. Ending with a path
/// completes the task at full progress with that path; ending with an
/// error leaves a paused or cancelled task as it was, cancels any other
/// task when the error says the download was cancelled ("已取消"), and
/// otherwise fails it with that error. No other task changes, and an
/// unknown id changes nothing.
pub proof fn law_finish_outcome(tasks: Seq<DownloadTask>, id: Seq<char>, result: Result<String, String>)
    ensures
        ({
            let after = finish_result(tasks, id, result);
            &&& after.len() == tasks.len()
            &&& match find_task(tasks, id) {
                Some(i) => {
                    &&& forall|j: int| 0 <= j < tasks.len() && j != i ==> after[j] == tasks[j]
                    &&& match result {
                        Ok(path) => after[i] == DownloadTask {
                            status: TaskStatus::Completed,
                            progress: 100,
                            filepath: Some(path),
                            ..tasks[i]
                        },
                        Err(e) => if tasks[i].status == TaskStatus::Paused || tasks[i].status
                            == TaskStatus::Cancelled {
                            after[i] == tasks[i]
                        } else if contains(e@, "已取消"@) {
                            after[i] == DownloadTask { status: TaskStatus::Cancelled, ..tasks[i] }
                        } else {
                            after[i] == DownloadTask {
                                status: TaskStatus::Failed,
                                error: Some(e),
                                ..tasks[i]
                            }
                        },
                    }
                },
                None => after == tasks,
            }
        }),
{
    lemma_find_task(tasks, id);
}

/// Law: adding a task whose id is already there replaces that task in
/// place and keeps every other task; a new id comes last.
pub proof fn law_enqueue_replaces_or_appends(tasks: Seq<DownloadTask>, t: DownloadTask)
    ensures
        match find_task(tasks, t.id@) {
            Some(i) => enqueued(tasks, t).len() == tasks.len() && enqueued(tasks, t)[i] == t
                && forall|j: int| 0 <= j < tasks.len() && j != i ==> enqueued(tasks, t)[j]
                == tasks[j],
            None => enqueued(tasks, t).len() == tasks.len() + 1 && enqueued(tasks, t).last() == t
                && forall|j: int| 0 <= j < tasks.len() ==> enqueued(tasks, t)[j] == tasks[j],
        },
{
    lemma_find_task(tasks, t.id@);
}

/// Law: a paused task can be queued again; it then differs from the task
/// before the pause only in being queued instead of downloading.
pub proof fn law_pause_then_requeue(tasks: Seq<DownloadTask>, id: Seq<char>)
    requires
        pause_result(tasks, id) is Some,
    ensures
        ({
            let i = find_task(tasks, id)->0;
            requeue_result(pause_result(tasks, id)->0, id) == Some(
                tasks.update(i, with_status(tasks[i], TaskStatus::Queued)),
            )
        }),
{
    let i = find_task(tasks, id)->0;
    lemma_find_task(tasks, id);
    let t = with_status(tasks[i], TaskStatus::Paused);
    lemma_find_task_update(tasks, i, t, id);
    let after = tasks.update(i, t);
    assert(after[i] == t);
    assert(after.update(i, with_status(after[i], TaskStatus::Queued)) =~= tasks.update(
        i,
        with_status(tasks[i], TaskStatus::Queued),
    ));
}

/// Law: the task chosen to run next is queued, and no task earlier in the
/// order is; when none is chosen, no task in the order is queued.
pub proof fn law_first_queued(order: Seq<Seq<char>>, tasks: Seq<DownloadTask>, k0: int)
    requires
        0 <= k0 <= order.len(),
    ensures
        match first_queued_from(order, tasks, k0) {
            Some(id) => names_queued(tasks, id) && exists|k: int|
                k0 <= k < order.len() && #[trigger] order[k] == id && forall|j: int|
                    k0 <= j < k ==> !names_queued(tasks, #[trigger] order[j]),
            None => forall|j: int| k0 <= j < order.len() ==> !names_queued(tasks, #[trigger] order[j]),
        },
    decreases order.len() - k0,
{
    if k0 < order.len() {
        law_first_queued(order, tasks, k0 + 1);
    }
}

/// Law: a download that was started and ends with the path of its file
/// leaves its task completed, at full progress, with that path.
pub proof fn law_begin_then_finish_ok(tasks: Seq<DownloadTask>, id: Seq<char>, path: String)
    requires
        begin_result(tasks, id) is Some,
    ensures
        ({
            let i = find_task(tasks, id)->0;
            let after = finish_result(begin_result(tasks, id)->0, id, Ok(path));
            &&& after[i].status == TaskStatus::Completed
            &&& after[i].progress == 100
            &&& after[i].filepath == Some(path)
            &&& after[i].id == tasks[i].id
            &&& after.len() == tasks.len()
            &&& forall|j: int| 0 <= j < tasks.len() && j != i ==> after[j] == tasks[j]
        }),
{
    let i = find_task(tasks, id)->0;
    lemma_find_task(tasks, id);
    let t = DownloadTask { status: TaskStatus::Downloading, progress: 0, ..tasks[i] };
    lemma_find_task_update(tasks, i, t, id);
}

/// The first index at or after `i` of `id` in `ids`.
pub open spec fn first_index_from(ids: Seq<Seq<char>>, id: Seq<char>, i: int) -> Option<int>
    decreases ids.len() - i,
{
    if i < 0 || i >= ids.len() {
        None
    } else if ids[i] == id {
        Some(i)
    } else {
        first_index_from(ids, id, i + 1)
    }
}

/// `ids` without the first occurrence of `id` (unchanged when it has none).
pub open spec fn without_first(ids: Seq<Seq<char>>, id: Seq<char>) -> Seq<Seq<char>> {
    match first_index_from(ids, id, 0) {
        Some(j) => ids.remove(j),
        None => ids,
    }
}

/// Starting task `id` while the downloads `running` run, with at most
/// `limit` at once: the new task list and running downloads, or `None` when
/// the limit is reached or the task is gone or not queued.
pub open spec fn start_result(
    tasks: Seq<DownloadTask>,
    running: Seq<Seq<char>>,
    limit: nat,
    id: Seq<char>,
) -> Option<(Seq<DownloadTask>, Seq<Seq<char>>)> {
    if running.len() >= limit {
        None
    } else {
        match begin_result(tasks, id) {
            Some(t) => Some((t, running.push(id))),
            None => None,
        }
    }
}

/// What `first_index_from` finds.
pub proof fn lemma_first_index_from(ids: Seq<Seq<char>>, id: Seq<char>, i: int)
    requires
        0 <= i,
    ensures
        match first_index_from(ids, id, i) {
            Some(k) => i <= k < ids.len() && ids[k] == id && forall|j: int|
                i <= j < k ==> #[trigger] ids[j] != id,
            None => forall|j: int| i <= j < ids.len() ==> #[trigger] ids[j] != id,
        },
    decreases ids.len() - i,
{
    if i < ids.len() && ids[i] != id {
        lemma_first_index_from(ids, id, i + 1);
    }
}

/// Law: below the limit, a queued task can always be started, and the
/// downloads then running stay within the limit; a second download starts
/// while the first still runs.
pub proof fn law_start_below_limit(
    tasks: Seq<DownloadTask>,
    running: Seq<Seq<char>>,
    limit: nat,
    id: Seq<char>,
)
    requires
        running.len() < limit,
        names_queued(tasks, id),
    ensures
        start_result(tasks, running, limit, id) matches Some((t, r)) && r == running.push(id)
            && r.len() <= limit && t == begin_result(tasks, id)->0,
{
}

/// Law: at the limit, no task starts and nothing changes.
pub proof fn law_no_start_at_limit(
    tasks: Seq<DownloadTask>,
    running: Seq<Seq<char>>,
    limit: nat,
    id: Seq<char>,
)
    requires
        running.len() >= limit,
    ensures
        start_result(tasks, running, limit, id) is None,
{
}

/// Law: finishing a download that was started, and ran on its own, frees
/// its place: the running downloads are those from before its start.
pub proof fn law_finish_undoes_start(running: Seq<Seq<char>>, id: Seq<char>)
    requires
        !running.contains(id),
    ensures
        without_first(running.push(id), id) == running,
{
    let r = running.push(id);
    lemma_first_index_from(r, id, 0);
    match first_index_from(r, id, 0) {
        Some(k) => {
            if k < running.len() {
                assert(running[k] == r[k]);
            }
            assert(r.remove(k) =~= running);
        },
        None => {
            assert(r[running.len() as int] == id);
        },
    }
}

/// Replacing a task whose id is not `id` by another whose id is not `id`
/// does not change what `id` finds.
pub proof fn lemma_find_task_update_other(
    tasks: Seq<DownloadTask>,
    j: int,
    t: DownloadTask,
    id: Seq<char>,
)
    requires
        0 <= j < tasks.len(),
        tasks[j].id@ != id,
        t.id@ != id,
    ensures
        find_task(tasks.update(j, t), id) == find_task(tasks, id),
{
    let u = tasks.update(j, t);
    lemma_find_task(tasks, id);
    lemma_find_task(u, id);
    match find_task(tasks, id) {
        Some(k) => {
            assert(u[k] == tasks[k]);
            if let Some(k2) = find_task(u, id) {
                assert(u[k2] == tasks[k2]);
            }
        },
        None => {
            if let Some(k2) = find_task(u, id) {
                assert(u[k2] == tasks[k2]);
            }
        },
    }
}

/// A request on the task list, each named by the method that makes it.
pub enum QueueOp {
    Pause(Seq<char>),
    Cancel(Seq<char>),
    Requeue(Seq<char>),
    Begin(Seq<char>),
    Enqueue(DownloadTask),
}

/// The task list after one request; a refused request changes nothing.
pub open spec fn apply_op(tasks: Seq<DownloadTask>, op: QueueOp) -> Seq<DownloadTask> {
    match op {
        QueueOp::Pause(id) => match pause_result(tasks, id) {
            Some(t) => t,
            None => tasks,
        },
        QueueOp::Cancel(id) => match cancel_result(tasks, id) {
            Ok(t) => t,
            Err(_) => tasks,
        },
        QueueOp::Requeue(id) => match requeue_result(tasks, id) {
            Some(t) => t,
            None => tasks,
        },
        QueueOp::Begin(id) => match begin_result(tasks, id) {
            Some(t) => t,
            None => tasks,
        },
        QueueOp::Enqueue(t) => enqueued(tasks, t),
    }
}

/// The task list after a sequence of requests, made in order.
pub open spec fn apply_ops(tasks: Seq<DownloadTask>, ops: Seq<QueueOp>) -> Seq<DownloadTask>
    decreases ops.len(),
{
    if ops.len() == 0 {
        tasks
    } else {
        apply_op(apply_ops(tasks, ops.drop_last()), ops.last())
    }
}

/// A completed or cancelled task.
pub open spec fn is_final_status(s: TaskStatus) -> bool {
    s == TaskStatus::Completed || s == TaskStatus::Cancelled
}

/// One request other than re-adding its id leaves a completed or cancelled
/// task where and as it was.
proof fn lemma_op_keeps_final(tasks: Seq<DownloadTask>, op: QueueOp, id: Seq<char>, i: int)
    requires
        find_task(tasks, id) == Some(i),
        is_final_status(tasks[i].status),
        !(op matches QueueOp::Enqueue(t) && t.id@ == id),
    ensures
        find_task(apply_op(tasks, op), id) == Some(i),
        apply_op(tasks, op)[i] == tasks[i],
{
    lemma_find_task(tasks, id);
    match op {
        QueueOp::Pause(x) => {
            if let Some(j) = find_task(tasks, x) {
                lemma_find_task(tasks, x);
                if tasks[j].status == TaskStatus::Downloading {
                    lemma_find_task_update(tasks, j, with_status(tasks[j], TaskStatus::Paused), id);
                }
            }
        },
        QueueOp::Cancel(x) => {
            if let Some(j) = find_task(tasks, x) {
                lemma_find_task(tasks, x);
                if !is_final_status(tasks[j].status) {
                    lemma_find_task_update(
                        tasks,
                        j,
                        with_status(tasks[j], TaskStatus::Cancelled),
                        id,
                    );
                }
            }
        },
        QueueOp::Requeue(x) => {
            if let Some(j) = find_task(tasks, x) {
                lemma_find_task(tasks, x);
                if tasks[j].status == TaskStatus::Paused || tasks[j].status == TaskStatus::Failed {
                    lemma_find_task_update(tasks, j, with_status(tasks[j], TaskStatus::Queued), id);
                }
            }
        },
        QueueOp::Begin(x) => {
            if let Some(j) = find_task(tasks, x) {
                lemma_find_task(tasks, x);
                if tasks[j].status == TaskStatus::Queued {
                    lemma_find_task_update(
                        tasks,
                        j,
                        DownloadTask { status: TaskStatus::Downloading, progress: 0, ..tasks[j] },
                        id,
                    );
                }
            }
        },
        QueueOp::Enqueue(t) => {
            lemma_find_task(tasks, t.id@);
            match find_task(tasks, t.id@) {
                Some(j) => {
                    lemma_find_task_update_other(tasks, j, t, id);
                },
                None => {
                    lemma_find_task_push(tasks, t, id);
                    assert(tasks.push(t)[i] == tasks[i]);
                },
            }
        },
    }
}

/// Law: completed and cancelled tasks are final. Whatever requests follow
/// (pausing, cancelling, re-queueing, starting, adding tasks), short of
/// adding a task under the same id, such a task stays where and as it was,
/// and pausing, re-queueing, starting and cancelling it are refused.
pub proof fn law_final_tasks_stay(tasks: Seq<DownloadTask>, id: Seq<char>, ops: Seq<QueueOp>)
    requires
        find_task(tasks, id) matches Some(i) && is_final_status(tasks[i].status),
        forall|k: int| 0 <= k < ops.len() ==> !(#[trigger] ops[k] matches QueueOp::Enqueue(t)
            && t.id@ == id),
    ensures
        ({
            let i = find_task(tasks, id)->0;
            let after = apply_ops(tasks, ops);
            &&& find_task(after, id) == Some(i)
            &&& after[i] == tasks[i]
            &&& pause_result(after, id) is None
            &&& requeue_result(after, id) is None
            &&& begin_result(after, id) is None
            &&& cancel_result(after, id) == Err::<Seq<DownloadTask>, Seq<char>>(
                "任务已完成或已取消"@,
            )
        }),
    decreases ops.len(),
{
    let i = find_task(tasks, id)->0;
    if ops.len() > 0 {
        let init = ops.drop_last();
        assert forall|k: int| 0 <= k < init.len() implies !(#[trigger] init[k] matches QueueOp::Enqueue(
            t,
        ) && t.id@ == id) by {
            assert(init[k] == ops[k]);
        }
        law_final_tasks_stay(tasks, id, init);
        assert(ops[ops.len() - 1] == ops.last());
        lemma_op_keeps_final(apply_ops(tasks, init), ops.last(), id, i);
    }
}

/// The downloader to run: the candidate path when there is one and it
/// exists, otherwise `yt-dlp.exe` looked up on the search path.
pub fn resolve_ytdlp_path(candidate: Option<String>, candidate_exists: bool) -> (r: String)
    ensures
        r@ == match candidate {
            Some(c) => if candidate_exists {
                c@
            } else {
                "yt-dlp.exe"@
            },
            None => "yt-dlp.exe"@,
        },
{
    match candidate {
        Some(c) => if candidate_exists {
            c
        } else {
            String::from_str("yt-dlp.exe")
        },
        None => String::from_str("yt-dlp.exe"),
    }
}

/// The default output directory: the user's download directory when there
/// is one, else `downloads` in the working directory when that can be read,
/// else "./downloads".
pub fn default_output_dir(download_dir: Option<String>, working_downloads: Option<String>) -> (r:
    String)
    ensures
        r@ == match download_dir {
            Some(d) => d@,
            None => match working_downloads {
                Some(w) => w@,
                None => "./downloads"@,
            },
        },
{
    match download_dir {
        Some(d) => d,
        None => match working_downloads {
            Some(w) => w,
            None => String::from_str("./downloads"),
        },
    }
}

/// The ids, by their text.
pub open spec fn ids_of(v: Seq<String>) -> Seq<Seq<char>> {
    v.map_values(|s: String| s@)
}

/// `v` with the task at `i` replaced by `t`.
fn replaced(v: &Vec<DownloadTask>, i: usize, t: DownloadTask) -> (r: Vec<DownloadTask>)
    requires
        i < v.len(),
    ensures
        r@ == v@.update(i as int, t),
{
    let mut r: Vec<DownloadTask> = Vec::new();
    let mut t = Some(t);
    let ghost tt = t->0;
    let mut k: usize = 0;
    while k < v.len()
        invariant
            k <= v.len(),
            i < v.len(),
            k <= i ==> t == Some(tt),
            r@ == v@.update(i as int, tt).take(k as int),
        decreases v.len() - k,
    {
        if k == i {
            match t.take() {
                Some(x) => r.push(x),
                None => {},
            }
        } else {
            r.push(v[k].duplicate());
        }
        proof {
            assert(v@.update(i as int, tt).take(k + 1) =~= v@.update(i as int, tt).take(k as int).push(
                v@.update(i as int, tt)[k as int],
            ));
        }
        k = k + 1;
    }
    assert(v@.update(i as int, tt).take(v@.len() as int) =~= v@.update(i as int, tt));
    r
}

/// `v` with `t` added at the end.
fn appended(v: &Vec<DownloadTask>, t: DownloadTask) -> (r: Vec<DownloadTask>)
    ensures
        r@ == v@.push(t),
{
    let mut r: Vec<DownloadTask> = Vec::new();
    let mut k: usize = 0;
    while k < v.len()
        invariant
            k <= v.len(),
            r@ == v@.take(k as int),
        decreases v.len() - k,
    {
        r.push(v[k].duplicate());
        proof {
            assert(v@.take(k + 1) =~= v@.take(k as int).push(v@[k as int]));
        }
        k = k + 1;
    }
    assert(v@.take(v@.len() as int) =~= v@);
    r.push(t);
    r
}

/// `v` with `id` added at the end.
fn with_id(v: &Vec<String>, id: String) -> (r: Vec<String>)
    ensures
        r@ == v@.push(id),
{
    let mut r: Vec<String> = Vec::new();
    let mut k: usize = 0;
    while k < v.len()
        invariant
            k <= v.len(),
            r@ == v@.take(k as int),
        decreases v.len() - k,
    {
        r.push(v[k].clone());
        proof {
            assert(v@.take(k + 1) =~= v@.take(k as int).push(v@[k as int]));
        }
        k = k + 1;
    }
    assert(v@.take(v@.len() as int) =~= v@);
    r.push(id);
    r
}

/// `v` without its item at `j`.
fn without_index(v: &Vec<String>, j: usize) -> (r: Vec<String>)
    requires
        j < v.len(),
    ensures
        r@ == v@.remove(j as int),
{
    let mut r: Vec<String> = Vec::new();
    let mut k: usize = 0;
    while k < v.len()
        invariant
            j < v.len(),
            k <= v.len(),
            k <= j ==> r@ == v@.take(k as int),
            k > j ==> r@ == v@.take(k as int).remove(j as int),
        decreases v.len() - k,
    {
        if k != j {
            r.push(v[k].clone());
        }
        proof {
            assert(v@.take(k + 1) =~= v@.take(k as int).push(v@[k as int]));
            if k > j {
                assert(v@.take(k + 1).remove(j as int) =~= v@.take(k as int).remove(j as int).push(
                    v@[k as int],
                ));
            } else if k == j {
                assert(v@.take(k + 1).remove(j as int) =~= v@.take(k as int));
            }
        }
        k = k + 1;
    }
    assert(v@.take(v@.len() as int) =~= v@);
    r
}

/// The download queue: the ids in the order the tasks were added, the tasks
/// themselves, the ids of the downloads started and not yet finished, the
/// concurrency limit, the downloader's path and the default output
/// directory.
pub struct DownloadQueue {
    order: Vec<String>,
    tasks: Vec<DownloadTask>,
    running: Vec<String>,
    max_concurrent: usize,
    ytdlp_path: String,
    output_dir: String,
}

impl DownloadQueue {
    /// The ids in the order the tasks were added.
    pub closed spec fn order_ids(&self) -> Seq<Seq<char>> {
        ids_of(self.order@)
    }

    /// The tasks (at most one per id).
    pub closed spec fn task_list(&self) -> Seq<DownloadTask> {
        self.tasks@
    }

    /// The ids of the downloads started and not yet finished, in the order
    /// they were started.
    pub closed spec fn running_ids(&self) -> Seq<Seq<char>> {
        ids_of(self.running@)
    }

    pub closed spec fn max_concurrent_view(&self) -> usize {
        self.max_concurrent
    }

    pub closed spec fn ytdlp_path_view(&self) -> Seq<char> {
        self.ytdlp_path@
    }

    pub closed spec fn output_dir_view(&self) -> Seq<char> {
        self.output_dir@
    }

    /// The queue's invariant: task ids are distinct, every id in the order
    /// names a task, and no more downloads run than the limit allows.
    pub open spec fn wf(&self) -> bool {
        &&& ids_distinct(self.task_list())
        &&& all_listed(self.order_ids(), self.task_list())
        &&& self.running_ids().len() <= self.max_concurrent_view()
    }

    #[verifier::type_invariant]
    closed spec fn inv(&self) -> bool {
        &&& ids_distinct(self.tasks@)
        &&& all_listed(ids_of(self.order@), self.tasks@)
        &&& self.running@.len() <= self.max_concurrent
    }

    /// An empty queue.
    pub fn new(max_concurrent: usize, ytdlp_path: String, output_dir: String) -> (q: DownloadQueue)
        ensures
            q.wf(),
            q.order_ids() == Seq::<Seq<char>>::empty(),
            q.task_list() == Seq::<DownloadTask>::empty(),
            q.running_ids() == Seq::<Seq<char>>::empty(),
            q.max_concurrent_view() == max_concurrent,
            q.ytdlp_path_view() == ytdlp_path@,
            q.output_dir_view() == output_dir@,
    {
        let q = DownloadQueue {
            order: Vec::new(),
            tasks: Vec::new(),
            running: Vec::new(),
            max_concurrent,
            ytdlp_path,
            output_dir,
        };
        assert(q.order_ids() =~= Seq::<Seq<char>>::empty());
        assert(q.running_ids() =~= Seq::<Seq<char>>::empty());
        q
    }

    /// The number of downloads that may run at once.
    pub fn max_concurrent(&self) -> (n: usize)
        ensures
            n == self.max_concurrent_view(),
    {
        self.max_concurrent
    }

    /// The downloader's path.
    pub fn ytdlp_path(&self) -> (p: &String)
        ensures
            p@ == self.ytdlp_path_view(),
    {
        &self.ytdlp_path
    }

    /// The default output directory.
    pub fn output_dir(&self) -> (p: &String)
        ensures
            p@ == self.output_dir_view(),
    {
        &self.output_dir
    }

    /// The index of the task with id `id`.
    fn index_of(&self, id: &String) -> (r: Option<usize>)
        ensures
            match r {
                Some(i) => i < self.task_list().len() && find_task(self.task_list(), id@) == Some(
                    i as int,
                ),
                None => find_task(self.task_list(), id@) is None,
            },
    {
        proof {
            lemma_find_task(self.tasks@, id@);
        }
        let mut i: usize = 0;
        while i < self.tasks.len()
            invariant
                i <= self.tasks.len(),
                find_task(self.tasks@, id@) == find_task_from(self.tasks@, id@, i as int),
            decreases self.tasks.len() - i,
        {
            if self.tasks[i].id == *id {
                return Some(i);
            }
            i = i + 1;
        }
        None
    }

    /// All tasks, in the order they were added (`get_all`).
    pub fn get_all(&self) -> (r: Vec<DownloadTask>)
        ensures
            r@ == listed_tasks(self.order_ids(), self.task_list()),
    {
        let ghost ids = self.order_ids();
        let mut out: Vec<DownloadTask> = Vec::new();
        let mut k: usize = 0;
        while k < self.order.len()
            invariant
                k <= self.order.len(),
                ids == self.order_ids(),
                ids.len() == self.order@.len(),
                out@ == listed_tasks(ids.take(k as int), self.task_list()),
            decreases self.order.len() - k,
        {
            assert(ids[k as int] == self.order@[k as int]@);
            proof {
                assert(ids.take(k + 1).drop_last() =~= ids.take(k as int));
            }
            match self.index_of(&self.order[k]) {
                Some(i) => {
                    out.push(self.tasks[i].duplicate());
                },
                None => {},
            }
            k = k + 1;
        }
        assert(ids.take(ids.len() as int) =~= ids);
        out
    }

    /// Adds `task` at the end of the order; a task with the same id is
    /// replaced (`enqueue`).
    pub fn enqueue(&mut self, task: DownloadTask)
        ensures
            final(self).wf(),
            final(self).order_ids() == old(self).order_ids().push(task.id@),
            final(self).task_list() == enqueued(old(self).task_list(), task),
            final(self).max_concurrent_view() == old(self).max_concurrent_view(),
            final(self).running_ids() == old(self).running_ids(),
            final(self).ytdlp_path_view() == old(self).ytdlp_path_view(),
            final(self).output_dir_view() == old(self).output_dir_view(),
    {
        proof {
            use_type_invariant(&*self);
        }
        proof {
            lemma_enqueued_wf(self.order_ids(), self.task_list(), task);
        }
        let id = task.id.clone();
        match self.index_of(&id) {
            Some(i) => {
                self.tasks = replaced(&self.tasks, i, task);
            },
            None => {
                self.tasks = appended(&self.tasks, task);
            },
        }
        let ghost old_ids = self.order_ids();
        let new_order = with_id(&self.order, id);
        assert(ids_of(new_order@) =~= old_ids.push(id@));
        self.order = new_order;
    }

    /// Creates a queued task for a download and adds it; returns its new,
    /// random id (`add_task`).
    pub fn add_task(
        &mut self,
        url: String,
        title: String,
        format_id: String,
        output_dir: String,
        cookies_from: Option<String>,
    ) -> (id: String)
        ensures
            final(self).wf(),
            is_uuid_v4_text(id@),
            final(self).order_ids() == old(self).order_ids().push(id@),
            exists|t: DownloadTask|
                #[trigger] is_new_task(
                    t,
                    id@,
                    url@,
                    title@,
                    format_id@,
                    output_dir@,
                    opt_text(cookies_from),
                ) && final(self).task_list() == enqueued(old(self).task_list(), t),
            final(self).max_concurrent_view() == old(self).max_concurrent_view(),
            final(self).running_ids() == old(self).running_ids(),
            final(self).ytdlp_path_view() == old(self).ytdlp_path_view(),
            final(self).output_dir_view() == old(self).output_dir_view(),
    {
        let id = new_uuid_v4();
        let cookies = match cookies_from {
            Some(c) => c,
            None => String::new(),
        };
        let task = DownloadTask {
            id: id.clone(),
            url,
            title,
            format_id,
            output_dir,
            cookies_from: cookies,
            status: TaskStatus::Queued,
            progress: 0,
            speed: String::new(),
            eta: String::new(),
            filesize: String::new(),
            error: None,
            filepath: None,
        };
        let ghost t = task;
        self.enqueue(task);
        assert(is_new_task(
            t,
            id@,
            url@,
            title@,
            format_id@,
            output_dir@,
            opt_text(cookies_from),
        ));
        id
    }

    /// Pauses a downloading task; the caller then stops its process (`pause`).
    pub fn pause(&mut self, task_id: &str) -> (r: Result<(), String>)
        ensures
            final(self).wf(),
            final(self).order_ids() == old(self).order_ids(),
            final(self).max_concurrent_view() == old(self).max_concurrent_view(),
            final(self).running_ids() == old(self).running_ids(),
            final(self).ytdlp_path_view() == old(self).ytdlp_path_view(),
            final(self).output_dir_view() == old(self).output_dir_view(),
            match pause_result(old(self).task_list(), task_id@) {
                Some(t) => r is Ok && final(self).task_list() == t,
                None => r matches Err(e) && e@ == "任务未找到或状态不正确"@ && final(self).task_list()
                    == old(self).task_list(),
            },
    {
        proof {
            use_type_invariant(&*self);
        }
        let key = String::from_str(task_id);
        if let Some(i) = self.index_of(&key) {
            if self.tasks[i].status == TaskStatus::Downloading {
                let mut t = self.tasks[i].duplicate();
                t.status = TaskStatus::Paused;
                proof {
                    lemma_update_wf(self.order_ids(), self.task_list(), i as int, t);
                }
                let ghost ids = self.order_ids();
                self.tasks = replaced(&self.tasks, i, t);
                assert(self.order_ids() =~= ids);
                return Ok(());
            }
        }
        Err(String::from_str("任务未找到或状态不正确"))
    }

    /// Cancels a task that is neither completed nor cancelled; the caller
    /// then stops its process if it runs (`cancel`).
    pub fn cancel(&mut self, task_id: &str) -> (r: Result<(), String>)
        ensures
            final(self).wf(),
            final(self).order_ids() == old(self).order_ids(),
            final(self).max_concurrent_view() == old(self).max_concurrent_view(),
            final(self).running_ids() == old(self).running_ids(),
            final(self).ytdlp_path_view() == old(self).ytdlp_path_view(),
            final(self).output_dir_view() == old(self).output_dir_view(),
            match cancel_result(old(self).task_list(), task_id@) {
                Ok(t) => r is Ok && final(self).task_list() == t,
                Err(msg) => r matches Err(e) && e@ == msg && final(self).task_list() == old(
                    self,
                ).task_list(),
            },
    {
        proof {
            use_type_invariant(&*self);
        }
        let key = String::from_str(task_id);
        match self.index_of(&key) {
            Some(i) => {
                let st = self.tasks[i].status;
                if st == TaskStatus::Completed || st == TaskStatus::Cancelled {
                    return Err(String::from_str("任务已完成或已取消"));
                }
                let mut t = self.tasks[i].duplicate();
                t.status = TaskStatus::Cancelled;
                proof {
                    lemma_update_wf(self.order_ids(), self.task_list(), i as int, t);
                }
                let ghost ids = self.order_ids();
                self.tasks = replaced(&self.tasks, i, t);
                assert(self.order_ids() =~= ids);
                Ok(())
            },
            None => Err(String::from_str("任务未找到")),
        }
    }

    /// Queues a paused or failed task again (`requeue`).
    pub fn requeue(&mut self, task_id: &str) -> (r: Result<(), String>)
        ensures
            final(self).wf(),
            final(self).order_ids() == old(self).order_ids(),
            final(self).max_concurrent_view() == old(self).max_concurrent_view(),
            final(self).running_ids() == old(self).running_ids(),
            final(self).ytdlp_path_view() == old(self).ytdlp_path_view(),
            final(self).output_dir_view() == old(self).output_dir_view(),
            match requeue_result(old(self).task_list(), task_id@) {
                Some(t) => r is Ok && final(self).task_list() == t,
                None => r matches Err(e) && e@ == "无法重新排队"@ && final(self).task_list() == old(
                    self,
                ).task_list(),
            },
    {
        proof {
            use_type_invariant(&*self);
        }
        let key = String::from_str(task_id);
        if let Some(i) = self.index_of(&key) {
            let st = self.tasks[i].status;
            if st == TaskStatus::Paused || st == TaskStatus::Failed {
                let mut t = self.tasks[i].duplicate();
                t.status = TaskStatus::Queued;
                proof {
                    lemma_update_wf(self.order_ids(), self.task_list(), i as int, t);
                }
                let ghost ids = self.order_ids();
                self.tasks = replaced(&self.tasks, i, t);
                assert(self.order_ids() =~= ids);
                return Ok(());
            }
        }
        Err(String::from_str("无法重新排队"))
    }

    /// The id of the first task in the order that is queued.
    pub fn next_queued(&self) -> (r: Option<String>)
        ensures
            match first_queued(self.order_ids(), self.task_list()) {
                Some(id) => r matches Some(s) && s@ == id,
                None => r is None,
            },
    {
        let ghost ids = self.order_ids();
        let mut k: usize = 0;
        while k < self.order.len()
            invariant
                k <= self.order.len(),
                ids == self.order_ids(),
                ids.len() == self.order@.len(),
                first_queued(ids, self.task_list()) == first_queued_from(
                    ids,
                    self.task_list(),
                    k as int,
                ),
            decreases self.order.len() - k,
        {
            assert(ids[k as int] == self.order@[k as int]@);
            if let Some(i) = self.index_of(&self.order[k]) {
                if self.tasks[i].status == TaskStatus::Queued {
                    return Some(self.order[k].clone());
                }
            }
            k = k + 1;
        }
        None
    }

    /// Where `id` first stands among the running downloads.
    fn running_index(&self, id: &String) -> (r: Option<usize>)
        ensures
            match r {
                Some(j) => j < self.running@.len() && first_index_from(self.running_ids(), id@, 0)
                    == Some(j as int),
                None => first_index_from(self.running_ids(), id@, 0) is None,
            },
    {
        let ghost ids = self.running_ids();
        let mut j: usize = 0;
        while j < self.running.len()
            invariant
                j <= self.running.len(),
                ids == self.running_ids(),
                ids.len() == self.running@.len(),
                first_index_from(ids, id@, 0) == first_index_from(ids, id@, j as int),
            decreases self.running.len() - j,
        {
            assert(ids[j as int] == self.running@[j as int]@);
            if self.running[j] == *id {
                return Some(j);
            }
            j = j + 1;
        }
        None
    }

    /// Starts the download of a task that is still queued, while fewer
    /// downloads than the limit run: marks it downloading with no progress,
    /// counts it as running and returns what the download needs; `None`,
    /// with nothing changed, when the limit is reached or the task is gone
    /// or no longer queued.
    pub fn begin_download(&mut self, task_id: &str) -> (r: Option<DownloadLaunch>)
        ensures
            final(self).wf(),
            final(self).order_ids() == old(self).order_ids(),
            final(self).max_concurrent_view() == old(self).max_concurrent_view(),
            final(self).ytdlp_path_view() == old(self).ytdlp_path_view(),
            final(self).output_dir_view() == old(self).output_dir_view(),
            match start_result(
                old(self).task_list(),
                old(self).running_ids(),
                old(self).max_concurrent_view() as nat,
                task_id@,
            ) {
                Some((t, run)) => final(self).task_list() == t && final(self).running_ids() == run
                    && (r matches Some(l) && {
                    let old_t = old(self).task_list()[find_task(
                        old(self).task_list(),
                        task_id@,
                    )->0];
                    &&& l.url@ == old_t.url@
                    &&& l.format_id@ == old_t.format_id@
                    &&& l.output_dir@ == old_t.output_dir@
                    &&& l.cookies_from@ == old_t.cookies_from@
                }),
                None => r is None && final(self).task_list() == old(self).task_list()
                    && final(self).running_ids() == old(self).running_ids(),
            },
    {
        proof {
            use_type_invariant(&*self);
        }
        if self.running.len() >= self.max_concurrent {
            return None;
        }
        let key = String::from_str(task_id);
        if let Some(i) = self.index_of(&key) {
            if self.tasks[i].status == TaskStatus::Queued {
                let mut t = self.tasks[i].duplicate();
                t.status = TaskStatus::Downloading;
                t.progress = 0;
                let launch = DownloadLaunch {
                    url: t.url.clone(),
                    format_id: t.format_id.clone(),
                    output_dir: t.output_dir.clone(),
                    cookies_from: t.cookies_from.clone(),
                };
                proof {
                    lemma_update_wf(self.order_ids(), self.task_list(), i as int, t);
                }
                let ghost ids = self.order_ids();
                let ghost run = self.running_ids();
                self.tasks = replaced(&self.tasks, i, t);
                let new_running = with_id(&self.running, key);
                assert(ids_of(new_running@) =~= run.push(task_id@));
                self.running = new_running;
                assert(self.order_ids() =~= ids);
                return Some(launch);
            }
        }
        None
    }

    /// Records how the download of a task ended.
    pub fn finish_download(&mut self, task_id: &str, result: Result<String, String>)
        ensures
            final(self).wf(),
            final(self).order_ids() == old(self).order_ids(),
            final(self).max_concurrent_view() == old(self).max_concurrent_view(),
            final(self).ytdlp_path_view() == old(self).ytdlp_path_view(),
            final(self).output_dir_view() == old(self).output_dir_view(),
            final(self).task_list() == finish_result(old(self).task_list(), task_id@, result),
            final(self).running_ids() == without_first(old(self).running_ids(), task_id@),
    {
        proof {
            use_type_invariant(&*self);
        }
        let key = String::from_str(task_id);
        if let Some(j) = self.running_index(&key) {
            let ghost run = self.running_ids();
            let rest = without_index(&self.running, j);
            assert(ids_of(rest@) =~= run.remove(j as int));
            self.running = rest;
        }
        if let Some(i) = self.index_of(&key) {
            let mut t = self.tasks[i].duplicate();
            let ghost old_t = t;
            match result {
                Ok(path) => {
                    t.status = TaskStatus::Completed;
                    t.progress = 100;
                    t.filepath = Some(path);
                },
                Err(e) => {
                    if t.status == TaskStatus::Paused || t.status == TaskStatus::Cancelled {
                    } else {
                        let cancelled = chars_of("已取消");
                        if contains_exec(&chars_of(e.as_str()), &cancelled) {
                            t.status = TaskStatus::Cancelled;
                        } else {
                            t.status = TaskStatus::Failed;
                            t.error = Some(e);
                        }
                    }
                },
            }
            assert(t == finished_task(old_t, result));
            proof {
                lemma_update_wf(self.order_ids(), self.task_list(), i as int, t);
            }
            let ghost ids = self.order_ids();
            self.tasks = replaced(&self.tasks, i, t);
            assert(self.order_ids() =~= ids);
        }
    }
}

} // verus!
