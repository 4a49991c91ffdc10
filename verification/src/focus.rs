//! The pomodoro timer and Zen mode: starting, pausing, cancelling and
//! completing a focus session on a todo.
use vstd::prelude::*;

use crate::app::{App, AppView};
use crate::edit::cascade_status;
use crate::model::{
    pomodoro_nanos, AppMode, Group, GroupView, PomodoroTimer, SubTaskView, RowRef, TimeSpan, TimerTarget, TimerView,
    TodoItem, TodoStatus, TodoView,
};

verus! {

/// `n + 1`, staying at 255 when it is already there.
pub open spec fn saturating_inc(n: u8) -> u8 {
    if n < 255 {
        (n + 1) as u8
    } else {
        255
    }
}

/// The mode after a focus session ends: Zen mode falls back to Normal.
pub open spec fn leave_zen(m: AppMode) -> AppMode {
    if m == AppMode::Zen {
        AppMode::Normal
    } else {
        m
    }
}

impl AppView {
    /// Whether `t` names an existing todo.
    pub open spec fn target_valid(self, t: TimerTarget) -> bool {
        t.group < self.groups.len() && t.todo < self.groups[t.group as int].todos.len()
    }

    /// The todo the timer runs on, when there is a timer and its todo exists.
    pub open spec fn active_timer_todo(self) -> Option<(GroupView, TodoView)> {
        match self.timer {
            Some(tm) => if self.target_valid(tm.target) {
                Some(
                    (
                        self.groups[tm.target.group as int],
                        self.groups[tm.target.group as int].todos[tm.target.todo as int],
                    ),
                )
            } else {
                None
            },
            None => None,
        }
    }

    /// `t` on a selected todo: with no timer, a timer of one pomodoro starts
    /// on it (unless it is done) and it becomes in progress, subtasks
    /// included; with a timer on this todo, the timer pauses or resumes; a
    /// timer on another todo is left alone.
    pub open spec fn toggle_timer(self) -> AppView {
        let sg = self.selected_group;
        match self.current_row() {
            Some(RowRef::Todo(i)) => {
                let target = TimerTarget { group: sg, todo: i };
                match self.timer {
                    Some(tm) => if tm.target == target {
                        AppView { timer: Some(TimerView { running: !tm.running, ..tm }), ..self }
                    } else {
                        self
                    },
                    None => if !self.target_valid(target) {
                        self
                    } else {
                        let t = self.groups[sg as int].todos[i as int];
                        if t.status == TodoStatus::Done {
                            self
                        } else {
                            let a1 = if t.status != TodoStatus::InProgress {
                                AppView {
                                    dirty: true,
                                    ..self.with_todo(
                                        sg as int,
                                        i as int,
                                        cascade_status(t, TodoStatus::InProgress),
                                    )
                                }
                            } else {
                                self
                            };
                            AppView {
                                timer: Some(
                                    TimerView { target, remaining: pomodoro_nanos(), running: true },
                                ),
                                ..a1
                            }.select_row(RowRef::Todo(i))
                        }
                    },
                }
            },
            _ => self,
        }
    }

    /// `T`: the timer is dropped, Zen mode ends, the selected row stays
    /// selected.
    pub open spec fn cancel_timer(self) -> AppView {
        let a1 = AppView { timer: None, mode: leave_zen(self.mode), ..self };
        match self.current_row() {
            Some(r) => a1.select_row(r),
            None => a1,
        }
    }

    /// Time passes on a running timer. Before the end it only counts down;
    /// at the end the timer is dropped, its todo earns a pomodoro, Zen mode
    /// ends and the selected row stays selected. A paused timer ignores time.
    pub open spec fn tick_timer(self, elapsed: nat) -> AppView {
        match self.timer {
            None => self,
            Some(tm) => if !tm.running {
                self
            } else if elapsed < tm.remaining {
                AppView {
                    timer: Some(TimerView { remaining: (tm.remaining - elapsed) as nat, ..tm }),
                    ..self
                }
            } else {
                let a1 = AppView { timer: None, ..self };
                let a2 = if self.target_valid(tm.target) {
                    let t = self.groups[tm.target.group as int].todos[tm.target.todo as int];
                    AppView {
                        dirty: true,
                        ..a1.with_todo(
                            tm.target.group as int,
                            tm.target.todo as int,
                            TodoView { pomodoros: saturating_inc(t.pomodoros), ..t },
                        )
                    }
                } else {
                    a1
                };
                let a3 = AppView { mode: leave_zen(a2.mode), ..a2 };
                match self.current_row() {
                    Some(r) => a3.select_row(r),
                    None => a3,
                }
            },
        }
    }

    /// `Enter`: starts the timer on the selected todo when there is none,
    /// then shows Zen mode when the timer's todo exists.
    pub open spec fn enter_zen_mode(self) -> AppView {
        let a1 = if self.timer is None {
            self.toggle_timer()
        } else {
            self
        };
        if a1.active_timer_todo() is Some {
            AppView { mode: AppMode::Zen, ..a1 }
        } else {
            a1
        }
    }

    /// Pauses or resumes the timer, whatever is selected.
    pub open spec fn toggle_active_timer(self) -> AppView {
        match self.timer {
            Some(tm) => AppView { timer: Some(TimerView { running: !tm.running, ..tm }), ..self },
            None => self,
        }
    }

    /// `c` in Zen mode: the timer's todo and its subtasks are done, the timer
    /// is dropped (no pomodoro is earned) and the normal view returns.
    pub open spec fn complete_active_timer_todo(self) -> AppView {
        match self.timer {
            None => AppView { mode: AppMode::Normal, ..self },
            Some(tm) => {
                let a1 = if self.target_valid(tm.target) {
                    let t = self.groups[tm.target.group as int].todos[tm.target.todo as int];
                    AppView {
                        dirty: true,
                        ..self.with_todo(
                            tm.target.group as int,
                            tm.target.todo as int,
                            cascade_status(t, TodoStatus::Done),
                        )
                    }
                } else {
                    self
                };
                let a2 = AppView { timer: None, mode: AppMode::Normal, ..a1 };
                match self.current_row() {
                    Some(r) => a2.select_row(r),
                    None => a2,
                }
            },
        }
    }
}

fn cascade_todo(t: &mut TodoItem, st: TodoStatus)
    ensures
        final(t)@ == cascade_status(old(t)@, st),
{
    t.status = st;
    let ghost orig = t.subtasks@;
    let n = t.subtasks.len();
    let mut j: usize = 0;
    while j < n
        invariant
            n == t.subtasks@.len(),
            n == orig.len(),
            t.status == st,
            t.title == old(t).title,
            t.notes == old(t).notes,
            t.priority == old(t).priority,
            t.collapsed == old(t).collapsed,
            t.pomodoros == old(t).pomodoros,
            orig == old(t).subtasks@,
            j <= n,
            forall|k: int| 0 <= k < j ==> (#[trigger] t.subtasks@[k])@ == (SubTaskView { status: st, ..orig[k]@ }),
            forall|k: int| j <= k < n ==> #[trigger] t.subtasks@[k] == orig[k],
        decreases n - j,
    {
        t.subtasks[j].status = st;
        j = j + 1;
    }
    assert(t@.subtasks =~= cascade_status(old(t)@, st).subtasks);
    assert(t@ =~= cascade_status(old(t)@, st));
}

impl App {
    pub fn toggle_timer(&mut self)
        ensures
            final(self)@ == old(self)@.toggle_timer(),
    {
        let todo_index = match self.current_row() {
            Some(RowRef::Todo(i)) => i,
            _ => return,
        };
        let target = TimerTarget { group: self.selected_group, todo: todo_index };
        let ghost a = self@;
        match &mut self.timer {
            Some(timer) => {
                if timer.target == target {
                    timer.running = !timer.running;
                }
                assert(self@ =~= a.toggle_timer());
                return;
            },
            None => {},
        }
        if target.group >= self.groups.len() || target.todo >= self.groups[target.group].todos.len() {
            return;
        }
        if self.groups[target.group].todos[target.todo].status.is_done() {
            return;
        }
        if self.groups[target.group].todos[target.todo].status != TodoStatus::InProgress {
            cascade_todo(&mut self.groups[target.group].todos[target.todo], TodoStatus::InProgress);
            proof {
                let t = a.groups[target.group as int].todos[target.todo as int];
                let nt = cascade_status(t, TodoStatus::InProgress);
                assert(self@.groups[target.group as int].todos =~= a.groups[target.group as int].todos.update(
                    target.todo as int,
                    nt,
                ));
                assert(self@.groups =~= a.with_todo(target.group as int, target.todo as int, nt).groups);
            }
            self.dirty = true;
        }
        self.timer = Some(PomodoroTimer::new(target));
        self.select_row(RowRef::Todo(todo_index));
    }

    pub fn cancel_timer(&mut self)
        ensures
            final(self)@ == old(self)@.cancel_timer(),
    {
        let selected_row = self.current_row();
        self.timer = None;
        if self.mode == AppMode::Zen {
            self.mode = AppMode::Normal;
        }
        match selected_row {
            Some(row) => self.select_row(row),
            None => {},
        }
    }

    pub fn tick_timer(&mut self, elapsed: TimeSpan)
        ensures
            final(self)@ == old(self)@.tick_timer(elapsed.nanos as nat),
    {
        let ghost a = self@;
        let target = match &mut self.timer {
            None => return,
            Some(timer) => {
                if !timer.running {
                    return;
                }
                if elapsed.nanos < timer.remaining.nanos {
                    timer.remaining = TimeSpan { nanos: timer.remaining.nanos - elapsed.nanos };
                    assert(self@ =~= a.tick_timer(elapsed.nanos as nat));
                    return;
                }
                timer.target
            },
        };
        let selected_row = self.current_row();
        self.timer = None;
        if target.group < self.groups.len() && target.todo < self.groups[target.group].todos.len() {
            let p = self.groups[target.group].todos[target.todo].pomodoros;
            self.groups[target.group].todos[target.todo].pomodoros = if p < 255 {
                p + 1
            } else {
                255
            };
            proof {
                let t = a.groups[target.group as int].todos[target.todo as int];
                let nt = TodoView { pomodoros: saturating_inc(t.pomodoros), ..t };
                assert(self@.groups[target.group as int].todos[target.todo as int] =~= nt);
                assert(self@.groups[target.group as int].todos =~= a.groups[target.group as int].todos.update(
                    target.todo as int,
                    nt,
                ));
                assert(self@.groups =~= a.with_todo(target.group as int, target.todo as int, nt).groups);
            }
            self.dirty = true;
        }
        if self.mode == AppMode::Zen {
            self.mode = AppMode::Normal;
        }
        match selected_row {
            Some(row) => self.select_row(row),
            None => {},
        }
    }

    pub fn active_timer_todo(&self) -> (r: Option<(&Group, &TodoItem)>)
        ensures
            match self@.active_timer_todo() {
                Some((g, t)) => r matches Some((rg, rt)) && rg@ == g && rt@ == t,
                None => r is None,
            },
    {
        let target = match &self.timer {
            Some(tm) => tm.target,
            None => return None,
        };
        if target.group >= self.groups.len() {
            return None;
        }
        let group = &self.groups[target.group];
        if target.todo >= group.todos.len() {
            return None;
        }
        Some((group, &group.todos[target.todo]))
    }

    pub fn enter_zen_mode(&mut self)
        ensures
            final(self)@ == old(self)@.enter_zen_mode(),
    {
        if self.timer.is_none() {
            self.toggle_timer();
        }
        if self.active_timer_todo().is_some() {
            self.mode = AppMode::Zen;
        }
    }

    pub fn exit_zen_mode(&mut self)
        ensures
            final(self)@ == (AppView { mode: AppMode::Normal, ..old(self)@ }),
    {
        self.mode = AppMode::Normal;
    }

    pub fn toggle_active_timer(&mut self)
        ensures
            final(self)@ == old(self)@.toggle_active_timer(),
    {
        let ghost a = self@;
        match &mut self.timer {
            Some(timer) => {
                timer.running = !timer.running;
            },
            None => {},
        }
        assert(self@ =~= a.toggle_active_timer());
    }

    pub fn complete_active_timer_todo(&mut self)
        ensures
            final(self)@ == old(self)@.complete_active_timer_todo(),
    {
        let selected_row = self.current_row();
        let target = match &self.timer {
            Some(timer) => timer.target,
            None => {
                self.mode = AppMode::Normal;
                return;
            },
        };
        let ghost a = self@;
        if target.group < self.groups.len() && target.todo < self.groups[target.group].todos.len() {
            cascade_todo(&mut self.groups[target.group].todos[target.todo], TodoStatus::Done);
            proof {
                let t = a.groups[target.group as int].todos[target.todo as int];
                let nt = cascade_status(t, TodoStatus::Done);
                assert(self@.groups[target.group as int].todos =~= a.groups[target.group as int].todos.update(
                    target.todo as int,
                    nt,
                ));
                assert(self@.groups =~= a.with_todo(target.group as int, target.todo as int, nt).groups);
            }
            self.dirty = true;
        }
        self.timer = None;
        self.mode = AppMode::Normal;
        match selected_row {
            Some(row) => self.select_row(row),
            None => {},
        }
    }
}

} // verus!
