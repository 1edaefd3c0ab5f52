//! The four task operations: add, delete, edit, and the listing lines.
//!
//! Each operation works on the in-memory collection; loading and saving the
//! store around it is the caller's part.

use vstd::prelude::*;
use rand::Rng;
use crate::entities::{Status, Task, TaskView, tasks_view, status_name, status_of,
    invalid_status_msg};
use crate::numbers::dec_of_i32;

verus! {

/// Relies on rand's `Rng::gen_range` on `thread_rng`: returns a value drawn
/// from the given range, here 1..1000.
#[verifier::external_body]
fn random_task_id() -> (r: i32)
    ensures
        1 <= r <= 999,
{
    let mut rng = rand::thread_rng();
    rng.gen_range(1..1000)
}

/// Appends a new task with a fresh random identifier and status `HOLD`.
/// Returns the identifier the task was given.
pub fn add_task(tasks: &mut Vec<Task>, description: String) -> (id: i32)
    ensures
        1 <= id <= 999,
        tasks_view(final(tasks)@) == tasks_view(old(tasks)@).push(
            TaskView { id: id, description: description@, status: Status::HOLD },
        ),
{
    let id = random_task_id();
    tasks.push(Task { id, description, status: Status::HOLD });
    proof {
        assert(tasks_view(final(tasks)@) =~= tasks_view(old(tasks)@).push(
            TaskView { id: id, description: description@, status: Status::HOLD },
        ));
    }
    id
}

fn clone_task(t: &Task) -> (r: Task)
    ensures
        r@ == t@,
{
    Task { id: t.id, description: t.description.clone(), status: t.status }
}

/// Removes every task with the given identifier; the others keep their order.
pub fn delete_tasks(tasks: &mut Vec<Task>, id: i32)
    ensures
        tasks_view(final(tasks)@) == tasks_view(old(tasks)@).filter(
            |tv: TaskView| tv.id != id,
        ),
{
    let ghost ov = tasks_view(old(tasks)@);
    let n: usize = tasks.len();
    let mut kept: Vec<Task> = Vec::new();
    let mut i: usize = 0;
    proof {
        reveal(Seq::filter);
        assert(tasks_view(kept@) =~= Seq::<TaskView>::empty());
        assert(ov.subrange(0, 0) =~= Seq::<TaskView>::empty());
        assert(Seq::<TaskView>::empty().filter(|tv: TaskView| tv.id != id)
            =~= Seq::<TaskView>::empty());
    }
    while i < n
        invariant
            i <= n,
            n == tasks@.len(),
            ov == tasks_view(tasks@),
            ov.len() == n,
            tasks_view(kept@) == ov.subrange(0, i as int).filter(|tv: TaskView| tv.id != id),
        decreases n - i,
    {
        let ghost pre = ov.subrange(0, i as int);
        let keep = tasks[i].id != id;
        if keep {
            let ghost kv = tasks_view(kept@);
            let c = clone_task(&tasks[i]);
            kept.push(c);
            proof {
                assert(tasks_view(kept@) =~= kv.push(ov[i as int]));
            }
        }
        proof {
            reveal(Seq::filter);
            let pred = |tv: TaskView| tv.id != id;
            assert(ov.subrange(0, i + 1 as int) =~= pre.push(ov[i as int]));
            assert(pre.push(ov[i as int]).drop_last() =~= pre);
            assert(pre.push(ov[i as int]).filter(pred) == if pred(ov[i as int]) {
                pre.filter(pred).push(ov[i as int])
            } else {
                pre.filter(pred)
            });
            assert(ov[i as int] == tasks@[i as int]@);
        }
        i = i + 1;
    }
    proof {
        assert(ov.subrange(0, n as int) =~= ov);
    }
    *tasks = kept;
}

/// The position of the first task with the given identifier, or -1.
pub open spec fn first_idx(s: Seq<TaskView>, id: i32) -> int
    decreases s.len(),
{
    if s.len() == 0 {
        -1
    } else if s[0].id == id {
        0
    } else {
        let r = first_idx(s.skip(1), id);
        if r < 0 {
            -1
        } else {
            1 + r
        }
    }
}

proof fn lemma_first_idx_at(s: Seq<TaskView>, id: i32, i: int)
    requires
        0 <= i < s.len(),
        s[i].id == id,
        forall|k: int| 0 <= k < i ==> s[k].id != id,
    ensures
        first_idx(s, id) == i,
    decreases i,
{
    if i == 0 {
    } else {
        assert(s[0].id != id);
        assert(s.skip(1)[i - 1] == s[i]);
        assert(forall|k: int| 0 <= k < i - 1 ==> s.skip(1)[k] == s[k + 1]);
        lemma_first_idx_at(s.skip(1), id, i - 1);
    }
}

proof fn lemma_first_idx_none(s: Seq<TaskView>, id: i32)
    requires
        forall|k: int| 0 <= k < s.len() ==> s[k].id != id,
    ensures
        first_idx(s, id) == -1,
    decreases s.len(),
{
    if s.len() > 0 {
        assert(forall|k: int| 0 <= k < s.skip(1).len() ==> s.skip(1)[k] == s[k + 1]);
        lemma_first_idx_none(s.skip(1), id);
    }
}

/// What one edit does to the matched task: a non-empty new description
/// replaces the old one, a parsable new status replaces the old one, and
/// everything else stays.
pub open spec fn edited_view(tv: TaskView, nd: Option<Seq<char>>, ns: Option<Seq<char>>)
    -> TaskView {
    TaskView {
        id: tv.id,
        description: match nd {
            Some(d) => if d.len() > 0 {
                d
            } else {
                tv.description
            },
            None => tv.description,
        },
        status: match ns {
            Some(nm) => match status_of(nm) {
                Some(st) => st,
                None => tv.status,
            },
            None => tv.status,
        },
    }
}

pub open spec fn opt_str_view(o: Option<&str>) -> Option<Seq<char>> {
    match o {
        Some(s) => Some(s@),
        None => None,
    }
}

/// What one edit call reports back.
#[derive(Debug)]
pub struct EditOutcome {
    pub found: bool,
    pub description_updated: bool,
    pub description_warning: bool,
    pub status_updated: bool,
    pub status_error: Option<String>,
}

/// Edits the first task whose identifier matches: the description changes
/// only when a non-empty one was given, the status only when the given name
/// parses; a failed status parse is reported but does not abort.  Without a
/// match, nothing changes.
pub fn edit_task(
    tasks: &mut Vec<Task>,
    id: i32,
    new_description: Option<&str>,
    new_status: Option<&str>,
) -> (r: EditOutcome)
    ensures
        ({
            let ov = tasks_view(old(tasks)@);
            let nv = tasks_view(final(tasks)@);
            let fi = first_idx(ov, id);
            &&& (r.found <==> fi >= 0)
            &&& (!r.found ==> nv == ov)
            &&& (r.found ==> nv == ov.update(
                fi,
                edited_view(ov[fi], opt_str_view(new_description), opt_str_view(new_status)),
            ))
            &&& r.description_updated == (r.found && (match new_description {
                Some(d) => d@.len() > 0,
                None => false,
            }))
            &&& r.description_warning == (r.found && (match new_description {
                Some(d) => d@.len() == 0,
                None => false,
            }))
            &&& r.status_updated == (r.found && (match new_status {
                Some(nm) => status_of(nm@) is Some,
                None => false,
            }))
            &&& ((r.status_error is Some) <==> (r.found && (match new_status {
                Some(nm) => status_of(nm@) is None,
                None => false,
            })))
            &&& (r.status_error matches Some(m) ==> (match new_status {
                Some(nm) => m@ == invalid_status_msg(nm@),
                None => false,
            }))
        }),
{
    let ghost ov = tasks_view(old(tasks)@);
    let n: usize = tasks.len();
    let mut i: usize = 0;
    while i < n
        invariant
            i <= n,
            n == tasks@.len(),
            tasks@ == old(tasks)@,
            ov == tasks_view(tasks@),
            ov.len() == n,
            forall|k: int| 0 <= k < i ==> ov[k].id != id,
        decreases n - i,
    {
        if tasks[i].id == id {
            proof {
                assert(ov[i as int] == tasks@[i as int]@);
                lemma_first_idx_at(ov, id, i as int);
            }
            let old_task = clone_task(&tasks[i]);
            let mut description = old_task.description;
            let mut status = old_task.status;
            let mut description_updated = false;
            let mut description_warning = false;
            let mut status_updated = false;
            let mut status_error: Option<String> = None;
            match new_description {
                Some(d) => {
                    if d.unicode_len() > 0 {
                        description = d.to_owned();
                        description_updated = true;
                    } else {
                        description_warning = true;
                    }
                },
                None => {},
            }
            match new_status {
                Some(nm) => {
                    match Status::from_str(nm) {
                        Ok(st) => {
                            status = st;
                            status_updated = true;
                        },
                        Err(m) => {
                            status_error = Some(m);
                        },
                    }
                },
                None => {},
            }
            let updated = Task { id: old_task.id, description, status };
            let ghost uv = updated@;
            tasks[i] = updated;
            proof {
                assert(tasks_view(tasks@) =~= ov.update(i as int, uv));
                assert(uv == edited_view(
                    ov[i as int],
                    opt_str_view(new_description),
                    opt_str_view(new_status),
                ));
            }
            return EditOutcome {
                found: true,
                description_updated,
                description_warning,
                status_updated,
                status_error,
            };
        }
        i = i + 1;
    }
    proof {
        lemma_first_idx_none(ov, id);
        assert(tasks_view(final(tasks)@) == ov);
    }
    EditOutcome {
        found: false,
        description_updated: false,
        description_warning: false,
        status_updated: false,
        status_error: None,
    }
}

/// An edit that brings only a new, non-empty description changes the
/// description and nothing else.
pub proof fn lemma_edit_description_only(tv: TaskView, d: Seq<char>)
    requires
        d.len() > 0,
    ensures
        edited_view(tv, Some(d), None) == (TaskView {
            id: tv.id,
            description: d,
            status: tv.status,
        }),
{
    assert(edited_view(tv, Some(d), None) =~= (TaskView {
        id: tv.id,
        description: d,
        status: tv.status,
    }));
}

/// An edit with an empty description and a status name that parses keeps
/// the description and changes only the status.
pub proof fn lemma_edit_status_only(tv: TaskView, d: Seq<char>, nm: Seq<char>, st: Status)
    requires
        d.len() == 0,
        status_of(nm) == Some(st),
    ensures
        edited_view(tv, Some(d), Some(nm)) == (TaskView {
            id: tv.id,
            description: tv.description,
            status: st,
        }),
{
    assert(edited_view(tv, Some(d), Some(nm)) =~= (TaskView {
        id: tv.id,
        description: tv.description,
        status: st,
    }));
}

/// An edit with an empty description and a status name that does not parse
/// leaves the task exactly as it was.
pub proof fn lemma_edit_noop(tv: TaskView, d: Seq<char>, nm: Seq<char>)
    requires
        d.len() == 0,
        status_of(nm) is None,
    ensures
        edited_view(tv, Some(d), Some(nm)) == tv,
{
    assert(edited_view(tv, Some(d), Some(nm)) =~= tv);
}

/// One listing line for a task.
pub open spec fn line_of(tv: TaskView) -> Seq<char> {
    "ID: "@ + dec_of_i32(tv.id as int) + ", Desc: \""@ + tv.description + "\", Status: "@
        + status_name(tv.status)
}

/// Renders a task the way `list` prints it.
pub fn render_task_line(t: &Task) -> (r: String)
    ensures
        r@ == line_of(t@),
{
    let mut out = String::new();
    out.append("ID: ");
    crate::numbers::push_i32_dec(&mut out, t.id);
    out.append(", Desc: \"");
    out.append(t.description.as_str());
    out.append("\", Status: ");
    let nm = t.status.name();
    out.append(nm.as_str());
    proof {
        assert(out@ =~= line_of(t@));
    }
    out
}

/// True when an edit request carries neither a new description nor a new
/// status; such a request is refused before the store is touched.
pub fn edit_fields_missing(
    new_description: &Option<String>,
    new_status: &Option<String>,
) -> (r: bool)
    ensures
        r == (new_description is None && new_status is None),
{
    new_description.is_none() && new_status.is_none()
}

} // verus!
