//! Changing todos and subtasks: status and priority cycling, deletion with
//! undo, and the timer bookkeeping that keeps the timer on the same todo.
use vstd::prelude::*;

use crate::app::{App, AppView};
use crate::model::{
    next_priority, next_status, subtask_views, DeletedView, GroupView, LastDeleted, RowRef,
    SubTask, SubTaskView, TimerTarget, TimerView, TodoStatus, TodoView,
};
use crate::rows::lemma_current_row_valid;

verus! {

// ---------------------------------------------------------------------------
// Spec helpers.
// ---------------------------------------------------------------------------

/// A todo with its status, and the status of every subtask, set to `st`.
pub open spec fn cascade_status(t: TodoView, st: TodoStatus) -> TodoView {
    TodoView {
        status: st,
        subtasks: t.subtasks.map_values(|s: SubTaskView| SubTaskView { status: st, ..s }),
        ..t
    }
}

/// The timer after the todo at `removed` of group `g` is deleted: a timer on
/// that todo stops, a timer on a later todo of the group follows it down.
pub open spec fn timer_after_todo_removed(timer: Option<TimerView>, g: usize, removed: usize) -> Option<TimerView> {
    match timer {
        None => None,
        Some(t) => if t.target.group != g {
            Some(t)
        } else if t.target.todo == removed {
            None
        } else if t.target.todo > removed {
            Some(TimerView { target: TimerTarget { todo: (t.target.todo - 1) as usize, ..t.target }, ..t })
        } else {
            Some(t)
        },
    }
}

/// The timer after a todo is inserted at `inserted` of group `g`: a timer on
/// that position or a later one follows its todo up.
pub open spec fn timer_after_todo_inserted(timer: Option<TimerView>, g: usize, inserted: usize) -> Option<TimerView> {
    match timer {
        Some(t) => if t.target.group == g && t.target.todo >= inserted && t.target.todo < usize::MAX {
            Some(TimerView { target: TimerTarget { todo: (t.target.todo + 1) as usize, ..t.target }, ..t })
        } else {
            Some(t)
        },
        None => None,
    }
}

/// The timer after group `removed` is deleted: a timer in that group stops,
/// a timer in a later group follows it down.
pub open spec fn timer_after_group_removed(timer: Option<TimerView>, removed: usize) -> Option<TimerView> {
    match timer {
        None => None,
        Some(t) => if t.target.group == removed {
            None
        } else if t.target.group > removed {
            Some(TimerView { target: TimerTarget { group: (t.target.group - 1) as usize, ..t.target }, ..t })
        } else {
            Some(t)
        },
    }
}

impl AppView {
    /// The state with the todos of group `g` replaced.
    pub open spec fn with_todos(self, g: int, todos: Seq<TodoView>) -> AppView {
        AppView { groups: self.groups.update(g, GroupView { todos, ..self.groups[g] }), ..self }
    }

    /// The state with todo `i` of group `g` replaced.
    pub open spec fn with_todo(self, g: int, i: int, t: TodoView) -> AppView {
        self.with_todos(g, self.groups[g].todos.update(i, t))
    }

    /// The state with the subtasks of todo `i` of group `g` replaced.
    pub open spec fn with_subtasks(self, g: int, i: int, subs: Seq<SubTaskView>) -> AppView {
        self.with_todo(g, i, TodoView { subtasks: subs, ..self.groups[g].todos[i] })
    }

    /// Space on the selected row: a todo moves to its next status and takes
    /// its subtasks along (completing the todo the timer runs on stops the
    /// timer); a subtask moves to its next status. The row stays selected.
    pub open spec fn cycle_status(self) -> AppView {
        let sg = self.selected_group as int;
        match self.current_row() {
            None => self,
            Some(RowRef::Todo(i)) => {
                let t = self.groups[sg].todos[i as int];
                let next = next_status(t.status);
                let a1 = self.with_todo(sg, i as int, cascade_status(t, next));
                let stop = next == TodoStatus::Done && match self.timer {
                    Some(tm) => tm.target == (TimerTarget { group: self.selected_group, todo: i }),
                    None => false,
                };
                let a2 = if stop {
                    AppView { timer: None, ..a1 }
                } else {
                    a1
                };
                AppView { dirty: true, ..a2 }.select_row(RowRef::Todo(i))
            },
            Some(RowRef::Sub(i, j)) => {
                let s = self.groups[sg].todos[i as int].subtasks[j as int];
                let subs = self.groups[sg].todos[i as int].subtasks.update(
                    j as int,
                    SubTaskView { status: next_status(s.status), ..s },
                );
                AppView { dirty: true, ..self.with_subtasks(sg, i as int, subs) }.select_row(
                    RowRef::Sub(i, j),
                )
            },
        }
    }

    /// `d` on the selected row: the todo or subtask is removed and kept for
    /// undo; the timer follows its todo; the selection is clamped.
    pub open spec fn delete_selected(self) -> AppView {
        let sg = self.selected_group as int;
        match self.current_row() {
            None => self,
            Some(RowRef::Todo(i)) => {
                let todos = self.groups[sg].todos;
                let a1 = self.with_todos(sg, todos.remove(i as int));
                AppView {
                    last_deleted: Some(
                        DeletedView::Todo { group: self.selected_group, index: i, item: todos[i as int] },
                    ),
                    timer: timer_after_todo_removed(self.timer, self.selected_group, i),
                    dirty: true,
                    ..a1
                }.clamp_selection()
            },
            Some(RowRef::Sub(i, j)) => {
                let subs = self.groups[sg].todos[i as int].subtasks;
                let a1 = self.with_subtasks(sg, i as int, subs.remove(j as int));
                AppView {
                    last_deleted: Some(
                        DeletedView::Sub {
                            group: self.selected_group,
                            todo: i,
                            index: j,
                            item: subs[j as int],
                        },
                    ),
                    dirty: true,
                    ..a1
                }.clamp_selection()
            },
        }
    }

    /// `u`: the last deleted item goes back where it was (or to the end when
    /// its list got shorter), in its group, which becomes selected; the item
    /// is selected. The kept item is gone afterwards either way.
    pub open spec fn undo(self) -> AppView {
        let a0 = AppView { last_deleted: None, ..self };
        match self.last_deleted {
            None => self,
            Some(DeletedView::Todo { group, index, item }) => {
                if group >= self.groups.len() {
                    a0
                } else {
                    let todos = self.groups[group as int].todos;
                    let at: usize = if index < todos.len() {
                        index
                    } else {
                        todos.len() as usize
                    };
                    let a1 = a0.with_todos(group as int, todos.insert(at as int, item));
                    AppView {
                        timer: timer_after_todo_inserted(self.timer, group, at),
                        selected_group: group,
                        dirty: true,
                        ..a1
                    }.select_row(RowRef::Todo(at))
                }
            },
            Some(DeletedView::Sub { group, todo, index, item }) => {
                if group >= self.groups.len() || todo >= self.groups[group as int].todos.len() {
                    a0
                } else {
                    let t = self.groups[group as int].todos[todo as int];
                    let at: usize = if index < t.subtasks.len() {
                        index
                    } else {
                        t.subtasks.len() as usize
                    };
                    let a1 = a0.with_todo(
                        group as int,
                        todo as int,
                        TodoView { subtasks: t.subtasks.insert(at as int, item), collapsed: false, ..t },
                    );
                    AppView { selected_group: group, dirty: true, ..a1 }.select_row(
                        RowRef::Sub(todo, at),
                    )
                }
            },
        }
    }

    /// `p` on a selected todo: its priority moves to the next one; the todo
    /// stays selected. Nothing happens on a subtask row.
    pub open spec fn cycle_priority(self) -> AppView {
        let sg = self.selected_group as int;
        match self.current_row() {
            Some(RowRef::Todo(i)) => {
                let t = self.groups[sg].todos[i as int];
                AppView {
                    dirty: true,
                    ..self.with_todo(sg, i as int, TodoView { priority: next_priority(t.priority), ..t })
                }.select_row(RowRef::Todo(i))
            },
            _ => self,
        }
    }
}

// ---------------------------------------------------------------------------
// Executable helpers.
// ---------------------------------------------------------------------------

fn set_subtask_statuses(subs: &mut Vec<SubTask>, st: TodoStatus)
    ensures
        subtask_views(final(subs)@) == subtask_views(old(subs)@).map_values(
            |s: SubTaskView| SubTaskView { status: st, ..s },
        ),
{
    let ghost orig = subs@;
    let n = subs.len();
    let mut j: usize = 0;
    while j < n
        invariant
            n == subs@.len(),
            n == orig.len(),
            j <= n,
            forall|k: int| 0 <= k < j ==> (#[trigger] subs@[k])@ == (SubTaskView { status: st, ..orig[k]@ }),
            forall|k: int| j <= k < n ==> #[trigger] subs@[k] == orig[k],
        decreases n - j,
    {
        subs[j].status = st;
        j = j + 1;
    }
    assert(subtask_views(subs@) =~= subtask_views(orig).map_values(
        |s: SubTaskView| SubTaskView { status: st, ..s },
    ));
}

impl App {
    fn adjust_timer_after_todo_removed(&mut self, group: usize, removed: usize)
        ensures
            final(self)@ == (AppView {
                timer: timer_after_todo_removed(old(self)@.timer, group, removed),
                ..old(self)@
            }),
    {
        match &mut self.timer {
            None => {},
            Some(timer) => {
                if timer.target.group != group {
                } else if timer.target.todo == removed {
                    self.timer = None;
                } else if timer.target.todo > removed {
                    timer.target.todo = timer.target.todo - 1;
                }
            },
        }
        assert(self@ =~= (AppView {
            timer: timer_after_todo_removed(old(self)@.timer, group, removed),
            ..old(self)@
        }));
    }

    fn adjust_timer_after_todo_inserted(&mut self, group: usize, inserted: usize)
        ensures
            final(self)@ == (AppView {
                timer: timer_after_todo_inserted(old(self)@.timer, group, inserted),
                ..old(self)@
            }),
    {
        match &mut self.timer {
            None => {},
            Some(timer) => {
                if timer.target.group == group && timer.target.todo >= inserted && timer.target.todo
                    < usize::MAX {
                    timer.target.todo = timer.target.todo + 1;
                }
            },
        }
        assert(self@ =~= (AppView {
            timer: timer_after_todo_inserted(old(self)@.timer, group, inserted),
            ..old(self)@
        }));
    }

    pub(crate) fn adjust_timer_after_group_removed(&mut self, removed: usize)
        ensures
            final(self)@ == (AppView {
                timer: timer_after_group_removed(old(self)@.timer, removed),
                ..old(self)@
            }),
    {
        match &mut self.timer {
            None => {},
            Some(timer) => {
                if timer.target.group == removed {
                    self.timer = None;
                } else if timer.target.group > removed {
                    timer.target.group = timer.target.group - 1;
                }
            },
        }
        assert(self@ =~= (AppView {
            timer: timer_after_group_removed(old(self)@.timer, removed),
            ..old(self)@
        }));
    }

    pub fn cycle_status(&mut self)
        ensures
            final(self)@ == old(self)@.cycle_status(),
    {
        let row = match self.current_row() {
            Some(r) => r,
            None => return,
        };
        proof {
            lemma_current_row_valid(self@);
        }
        let sg = self.selected_group;
        let ghost a = self@;
        match row {
            RowRef::Todo(i) => {
                let next = self.groups[sg].todos[i].status.cycle();
                self.groups[sg].todos[i].status = next;
                set_subtask_statuses(&mut self.groups[sg].todos[i].subtasks, next);
                proof {
                    let t = a.groups[sg as int].todos[i as int];
                    assert(self@.groups[sg as int].todos[i as int] =~= cascade_status(t, next));
                    assert(self@.groups[sg as int].todos =~= a.groups[sg as int].todos.update(
                        i as int,
                        cascade_status(t, next),
                    ));
                    assert(self@.groups =~= a.with_todo(
                        sg as int,
                        i as int,
                        cascade_status(t, next),
                    ).groups);
                }
                let stop = next.is_done() && match &self.timer {
                    Some(tm) => tm.target == (TimerTarget { group: sg, todo: i }),
                    None => false,
                };
                if stop {
                    self.timer = None;
                }
            },
            RowRef::Sub(i, j) => {
                let next = self.groups[sg].todos[i].subtasks[j].status.cycle();
                self.groups[sg].todos[i].subtasks[j].status = next;
                proof {
                    let t = a.groups[sg as int].todos[i as int];
                    let s = t.subtasks[j as int];
                    let subs = t.subtasks.update(j as int, SubTaskView { status: next, ..s });
                    assert(self@.groups[sg as int].todos[i as int].subtasks =~= subs);
                    assert(self@.groups[sg as int].todos[i as int] =~= TodoView {
                        subtasks: subs,
                        ..t
                    });
                    assert(self@.groups[sg as int].todos =~= a.groups[sg as int].todos.update(
                        i as int,
                        TodoView { subtasks: subs, ..t },
                    ));
                    assert(self@.groups =~= a.with_subtasks(sg as int, i as int, subs).groups);
                }
            },
        }
        self.dirty = true;
        self.select_row(row);
    }

    pub fn delete_selected(&mut self)
        ensures
            final(self)@ == old(self)@.delete_selected(),
    {
        let row = match self.current_row() {
            Some(r) => r,
            None => return,
        };
        proof {
            lemma_current_row_valid(self@);
        }
        let group_idx = self.selected_group;
        let ghost a = self@;
        match row {
            RowRef::Todo(i) => {
                let item = self.groups[group_idx].todos.remove(i);
                proof {
                    let todos = a.groups[group_idx as int].todos;
                    assert(self@.groups[group_idx as int].todos =~= todos.remove(i as int));
                    assert(self@.groups =~= a.with_todos(group_idx as int, todos.remove(i as int)).groups);
                }
                self.last_deleted = Some(LastDeleted::Todo { group: group_idx, index: i, item });
                self.adjust_timer_after_todo_removed(group_idx, i);
            },
            RowRef::Sub(i, j) => {
                let item = self.groups[group_idx].todos[i].subtasks.remove(j);
                proof {
                    let subs = a.groups[group_idx as int].todos[i as int].subtasks;
                    assert(self@.groups[group_idx as int].todos[i as int].subtasks =~= subs.remove(j as int));
                    assert(self@.groups[group_idx as int].todos[i as int] =~= TodoView {
                        subtasks: subs.remove(j as int),
                        ..a.groups[group_idx as int].todos[i as int]
                    });
                    assert(self@.groups[group_idx as int].todos =~= a.groups[group_idx as int].todos.update(
                        i as int,
                        TodoView {
                            subtasks: subs.remove(j as int),
                            ..a.groups[group_idx as int].todos[i as int]
                        },
                    ));
                    assert(self@.groups =~= a.with_subtasks(group_idx as int, i as int, subs.remove(j as int)).groups);
                }
                self.last_deleted = Some(
                    LastDeleted::Sub { group: group_idx, todo: i, index: j, item },
                );
            },
        }
        self.dirty = true;
        self.clamp_selection();
    }

    pub fn undo(&mut self)
        ensures
            final(self)@ == old(self)@.undo(),
    {
        let ghost a = self@;
        let deleted = match self.last_deleted.take() {
            Some(d) => d,
            None => return,
        };
        match deleted {
            LastDeleted::Todo { group, index, item } => {
                if group >= self.groups.len() {
                    return;
                }
                let len = self.groups[group].todos.len();
                let at = if index < len {
                    index
                } else {
                    len
                };
                self.groups[group].todos.insert(at, item);
                proof {
                    let todos = a.groups[group as int].todos;
                    assert(self@.groups[group as int].todos =~= todos.insert(at as int, item@));
                    assert(self@.groups =~= a.with_todos(group as int, todos.insert(at as int, item@)).groups);
                }
                self.adjust_timer_after_todo_inserted(group, at);
                self.selected_group = group;
                self.dirty = true;
                self.select_row(RowRef::Todo(at));
            },
            LastDeleted::Sub { group, todo, index, item } => {
                if group >= self.groups.len() {
                    return;
                }
                if todo >= self.groups[group].todos.len() {
                    return;
                }
                let len = self.groups[group].todos[todo].subtasks.len();
                let at = if index < len {
                    index
                } else {
                    len
                };
                self.groups[group].todos[todo].subtasks.insert(at, item);
                self.groups[group].todos[todo].collapsed = false;
                proof {
                    let t = a.groups[group as int].todos[todo as int];
                    let nt = TodoView { subtasks: t.subtasks.insert(at as int, item@), collapsed: false, ..t };
                    assert(self@.groups[group as int].todos[todo as int].subtasks =~= t.subtasks.insert(at as int, item@));
                    assert(self@.groups[group as int].todos[todo as int] =~= nt);
                    assert(self@.groups[group as int].todos =~= a.groups[group as int].todos.update(todo as int, nt));
                    assert(self@.groups =~= a.with_todo(group as int, todo as int, nt).groups);
                }
                self.selected_group = group;
                self.dirty = true;
                self.select_row(RowRef::Sub(todo, at));
            },
        }
    }

    pub fn cycle_priority(&mut self)
        ensures
            final(self)@ == old(self)@.cycle_priority(),
    {
        let i = match self.current_row() {
            Some(RowRef::Todo(i)) => i,
            _ => return,
        };
        proof {
            lemma_current_row_valid(self@);
        }
        let sg = self.selected_group;
        let ghost a = self@;
        let next = self.groups[sg].todos[i].priority.cycle();
        self.groups[sg].todos[i].priority = next;
        proof {
            let t = a.groups[sg as int].todos[i as int];
            assert(self@.groups[sg as int].todos[i as int] =~= TodoView { priority: next, ..t });
            assert(self@.groups[sg as int].todos =~= a.groups[sg as int].todos.update(
                i as int,
                TodoView { priority: next, ..t },
            ));
            assert(self@.groups =~= a.with_todo(sg as int, i as int, TodoView { priority: next, ..t }).groups);
        }
        self.dirty = true;
        self.select_row(RowRef::Todo(i));
    }
}

} // verus!
