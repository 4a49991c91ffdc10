//! Text input: adding and editing todos and subtasks, and editing notes.
use vstd::prelude::*;

use crate::app::{App, AppView};
use crate::model::{
    new_todo_view, AppMode, InputTarget, RowRef, SubTask, SubTaskView, TodoItem, TodoView,
};
use crate::rows::lemma_current_row_valid;
use crate::text::{trim, trimmed};

verus! {

impl AppView {
    /// `e` on the selected row: the input opens with the row's title.
    pub open spec fn enter_edit_mode(self) -> AppView {
        let sg = self.selected_group as int;
        match self.current_row() {
            None => self,
            Some(RowRef::Todo(i)) => AppView {
                input_buffer: self.groups[sg].todos[i as int].title,
                input_target: InputTarget::EditTodo(i),
                mode: AppMode::Input,
                ..self
            },
            Some(RowRef::Sub(i, j)) => AppView {
                input_buffer: self.groups[sg].todos[i as int].subtasks[j as int].title,
                input_target: InputTarget::EditSubtask(i, j),
                mode: AppMode::Input,
                ..self
            },
        }
    }

    /// `a`: an empty input for a new todo.
    pub open spec fn enter_input_mode(self) -> AppView {
        AppView {
            mode: AppMode::Input,
            input_buffer: Seq::empty(),
            input_target: InputTarget::NewTodo,
            ..self
        }
    }

    /// `Esc` in the input: back to normal, input emptied.
    pub open spec fn cancel_input(self) -> AppView {
        AppView {
            mode: AppMode::Normal,
            input_buffer: Seq::empty(),
            input_target: InputTarget::NewTodo,
            ..self
        }
    }

    /// The state after the trimmed input is applied to its target, and the
    /// row to select afterwards. A blank input, a target that no longer
    /// exists, or an unchanged title change nothing.
    pub open spec fn apply_input(self, title: Seq<char>) -> (AppView, Option<RowRef>) {
        let sg = self.selected_group as int;
        if title.len() == 0 || self.selected_group >= self.groups.len() {
            (self, None)
        } else {
            let todos = self.groups[sg].todos;
            match self.input_target {
                InputTarget::NewTodo => (
                    AppView { dirty: true, ..self.with_todos(sg, todos.push(new_todo_view(title))) },
                    Some(RowRef::Todo(todos.len() as usize)),
                ),
                InputTarget::NewSubtask(parent) => if parent < todos.len() {
                    let t = todos[parent as int];
                    let s = SubTaskView { title, status: crate::model::TodoStatus::Todo, notes: Seq::empty() };
                    (
                        AppView {
                            dirty: true,
                            ..self.with_todo(
                                sg,
                                parent as int,
                                TodoView { subtasks: t.subtasks.push(s), collapsed: false, ..t },
                            )
                        },
                        Some(RowRef::Sub(parent, t.subtasks.len() as usize)),
                    )
                } else {
                    (self, None)
                },
                InputTarget::EditTodo(i) => if i < todos.len() && todos[i as int].title != title {
                    (
                        AppView {
                            dirty: true,
                            ..self.with_todo(sg, i as int, TodoView { title, ..todos[i as int] })
                        },
                        None,
                    )
                } else {
                    (self, None)
                },
                InputTarget::EditSubtask(i, j) => if i < todos.len() && j
                    < todos[i as int].subtasks.len() && todos[i as int].subtasks[j as int].title
                    != title {
                    let t = todos[i as int];
                    (
                        AppView {
                            dirty: true,
                            ..self.with_subtasks(
                                sg,
                                i as int,
                                t.subtasks.update(
                                    j as int,
                                    SubTaskView { title, ..t.subtasks[j as int] },
                                ),
                            )
                        },
                        None,
                    )
                } else {
                    (self, None)
                },
            }
        }
    }

    /// `Enter` in the input: the trimmed text becomes a new todo, a new
    /// subtask, or the new title of the edited item; the input closes, a
    /// newly added item is selected, and the selection is clamped.
    pub open spec fn commit_input(self) -> AppView {
        let (a1, sel) = self.apply_input(trimmed(self.input_buffer));
        let a2 = AppView {
            input_buffer: Seq::empty(),
            input_target: InputTarget::NewTodo,
            mode: AppMode::Normal,
            ..a1
        };
        let a3 = match sel {
            Some(r) => a2.select_row(r),
            None => a2,
        };
        a3.clamp_selection()
    }

    /// `s` on the selected row: an empty input for a subtask of its todo.
    pub open spec fn enter_subtask_input(self) -> AppView {
        match self.current_row() {
            None => self,
            Some(r) => {
                let parent = match r {
                    RowRef::Todo(i) => i,
                    RowRef::Sub(i, _) => i,
                };
                AppView {
                    input_buffer: Seq::empty(),
                    input_target: InputTarget::NewSubtask(parent),
                    mode: AppMode::Input,
                    ..self
                }
            },
        }
    }

    /// The notes of the selected row.
    pub open spec fn current_notes(self) -> Option<Seq<char>> {
        let sg = self.selected_group as int;
        match self.current_row() {
            None => None,
            Some(RowRef::Todo(i)) => Some(self.groups[sg].todos[i as int].notes),
            Some(RowRef::Sub(i, j)) => Some(self.groups[sg].todos[i as int].subtasks[j as int].notes),
        }
    }

    /// `m` on the selected row: the notes editor opens with its notes.
    pub open spec fn enter_notes_mode(self) -> AppView {
        match self.current_notes() {
            None => self,
            Some(n) => AppView { notes_buffer: n, mode: AppMode::EditingNotes, ..self },
        }
    }

    /// `Ctrl+S` in the notes editor: the buffer replaces the notes of the
    /// selected row when it differs; the editor closes either way.
    pub open spec fn commit_notes(self) -> AppView {
        let sg = self.selected_group as int;
        let a0 = AppView { mode: AppMode::Normal, notes_buffer: Seq::empty(), ..self };
        match self.current_row() {
            None => a0,
            Some(RowRef::Todo(i)) => {
                let t = self.groups[sg].todos[i as int];
                if t.notes == self.notes_buffer {
                    a0
                } else {
                    AppView {
                        dirty: true,
                        ..a0.with_todo(sg, i as int, TodoView { notes: self.notes_buffer, ..t })
                    }
                }
            },
            Some(RowRef::Sub(i, j)) => {
                let subs = self.groups[sg].todos[i as int].subtasks;
                if subs[j as int].notes == self.notes_buffer {
                    a0
                } else {
                    AppView {
                        dirty: true,
                        ..a0.with_subtasks(
                            sg,
                            i as int,
                            subs.update(
                                j as int,
                                SubTaskView { notes: self.notes_buffer, ..subs[j as int] },
                            ),
                        )
                    }
                }
            },
        }
    }

    /// `Esc` in the notes editor: the buffer is dropped.
    pub open spec fn cancel_notes(self) -> AppView {
        AppView { notes_buffer: Seq::empty(), mode: AppMode::Normal, ..self }
    }
}

impl App {
    pub fn enter_edit_mode(&mut self)
        ensures
            final(self)@ == old(self)@.enter_edit_mode(),
    {
        let row = match self.current_row() {
            Some(r) => r,
            None => return,
        };
        proof {
            lemma_current_row_valid(self@);
        }
        let sg = self.selected_group;
        match row {
            RowRef::Todo(i) => {
                self.input_buffer = self.groups[sg].todos[i].title.clone();
                self.input_target = InputTarget::EditTodo(i);
            },
            RowRef::Sub(i, j) => {
                self.input_buffer = self.groups[sg].todos[i].subtasks[j].title.clone();
                self.input_target = InputTarget::EditSubtask(i, j);
            },
        }
        self.mode = AppMode::Input;
    }

    pub fn enter_input_mode(&mut self)
        ensures
            final(self)@ == old(self)@.enter_input_mode(),
    {
        self.mode = AppMode::Input;
        self.input_buffer = String::new();
        self.input_target = InputTarget::NewTodo;
    }

    pub fn cancel_input(&mut self)
        ensures
            final(self)@ == old(self)@.cancel_input(),
    {
        self.mode = AppMode::Normal;
        self.input_buffer = String::new();
        self.input_target = InputTarget::NewTodo;
    }

    fn apply_input(&mut self, title: String) -> (sel: Option<RowRef>)
        ensures
            (final(self)@, sel) == old(self)@.apply_input(title@),
    {
        let ghost a = self@;
        if title.as_str().is_empty() || self.selected_group >= self.groups.len() {
            return None;
        }
        let sg = self.selected_group;
        match self.input_target {
            InputTarget::NewTodo => {
                let n = self.groups[sg].todos.len();
                self.groups[sg].todos.push(TodoItem::new(title.as_str()));
                proof {
                    let todos = a.groups[sg as int].todos;
                    assert(self@.groups[sg as int].todos =~= todos.push(new_todo_view(title@)));
                    assert(self@.groups =~= a.with_todos(sg as int, todos.push(new_todo_view(title@))).groups);
                }
                self.dirty = true;
                Some(RowRef::Todo(n))
            },
            InputTarget::NewSubtask(parent) => {
                if parent >= self.groups[sg].todos.len() {
                    return None;
                }
                let m = self.groups[sg].todos[parent].subtasks.len();
                self.groups[sg].todos[parent].subtasks.push(SubTask::new(title.as_str()));
                self.groups[sg].todos[parent].collapsed = false;
                proof {
                    let t = a.groups[sg as int].todos[parent as int];
                    let s = SubTaskView { title: title@, status: crate::model::TodoStatus::Todo, notes: Seq::empty() };
                    let nt = TodoView { subtasks: t.subtasks.push(s), collapsed: false, ..t };
                    assert(self@.groups[sg as int].todos[parent as int].subtasks =~= t.subtasks.push(s));
                    assert(self@.groups[sg as int].todos[parent as int] =~= nt);
                    assert(self@.groups[sg as int].todos =~= a.groups[sg as int].todos.update(parent as int, nt));
                    assert(self@.groups =~= a.with_todo(sg as int, parent as int, nt).groups);
                }
                self.dirty = true;
                Some(RowRef::Sub(parent, m))
            },
            InputTarget::EditTodo(i) => {
                if i >= self.groups[sg].todos.len() || self.groups[sg].todos[i].title == title {
                    return None;
                }
                self.groups[sg].todos[i].title = title;
                proof {
                    let t = a.groups[sg as int].todos[i as int];
                    let nt = TodoView { title: title@, ..t };
                    assert(self@.groups[sg as int].todos[i as int] =~= nt);
                    assert(self@.groups[sg as int].todos =~= a.groups[sg as int].todos.update(i as int, nt));
                    assert(self@.groups =~= a.with_todo(sg as int, i as int, nt).groups);
                }
                self.dirty = true;
                None
            },
            InputTarget::EditSubtask(i, j) => {
                if i >= self.groups[sg].todos.len() || j >= self.groups[sg].todos[i].subtasks.len()
                    || self.groups[sg].todos[i].subtasks[j].title == title {
                    return None;
                }
                self.groups[sg].todos[i].subtasks[j].title = title;
                proof {
                    let t = a.groups[sg as int].todos[i as int];
                    let subs = t.subtasks.update(j as int, SubTaskView { title: title@, ..t.subtasks[j as int] });
                    assert(self@.groups[sg as int].todos[i as int].subtasks =~= subs);
                    assert(self@.groups[sg as int].todos[i as int] =~= TodoView { subtasks: subs, ..t });
                    assert(self@.groups[sg as int].todos =~= a.groups[sg as int].todos.update(
                        i as int,
                        TodoView { subtasks: subs, ..t },
                    ));
                    assert(self@.groups =~= a.with_subtasks(sg as int, i as int, subs).groups);
                }
                self.dirty = true;
                None
            },
        }
    }

    pub fn commit_input(&mut self)
        ensures
            final(self)@ == old(self)@.commit_input(),
    {
        let title = trim(self.input_buffer.as_str());
        let to_select = self.apply_input(title);
        self.input_buffer = String::new();
        self.input_target = InputTarget::NewTodo;
        self.mode = AppMode::Normal;
        match to_select {
            Some(row) => self.select_row(row),
            None => {},
        }
        self.clamp_selection();
    }

    pub fn enter_subtask_input(&mut self)
        ensures
            final(self)@ == old(self)@.enter_subtask_input(),
    {
        let row = match self.current_row() {
            Some(r) => r,
            None => return,
        };
        let parent = match row {
            RowRef::Todo(i) => i,
            RowRef::Sub(i, _) => i,
        };
        self.input_buffer = String::new();
        self.input_target = InputTarget::NewSubtask(parent);
        self.mode = AppMode::Input;
    }

    pub fn current_notes(&self) -> (r: Option<&str>)
        ensures
            match self@.current_notes() {
                Some(n) => r matches Some(s) && s@ == n,
                None => r is None,
            },
    {
        let row = match self.current_row() {
            Some(r) => r,
            None => return None,
        };
        proof {
            lemma_current_row_valid(self@);
        }
        let g = &self.groups[self.selected_group];
        match row {
            RowRef::Todo(i) => Some(g.todos[i].notes.as_str()),
            RowRef::Sub(i, j) => Some(g.todos[i].subtasks[j].notes.as_str()),
        }
    }

    pub fn enter_notes_mode(&mut self)
        ensures
            final(self)@ == old(self)@.enter_notes_mode(),
    {
        let notes = match self.current_notes() {
            Some(n) => n.to_owned(),
            None => return,
        };
        self.notes_buffer = notes;
        self.mode = AppMode::EditingNotes;
    }

    pub fn commit_notes(&mut self)
        ensures
            final(self)@ == old(self)@.commit_notes(),
    {
        let ghost a = self@;
        let row = match self.current_row() {
            Some(r) => r,
            None => {
                self.mode = AppMode::Normal;
                self.notes_buffer = String::new();
                return;
            },
        };
        proof {
            lemma_current_row_valid(self@);
        }
        let sg = self.selected_group;
        match row {
            RowRef::Todo(i) => {
                if !(self.groups[sg].todos[i].notes == self.notes_buffer) {
                    self.groups[sg].todos[i].notes = self.notes_buffer.clone();
                    proof {
                        let t = a.groups[sg as int].todos[i as int];
                        let nt = TodoView { notes: a.notes_buffer, ..t };
                        assert(self@.groups[sg as int].todos[i as int] =~= nt);
                        assert(self@.groups[sg as int].todos =~= a.groups[sg as int].todos.update(i as int, nt));
                        assert(self@.groups =~= a.with_todo(sg as int, i as int, nt).groups);
                    }
                    self.dirty = true;
                }
            },
            RowRef::Sub(i, j) => {
                if !(self.groups[sg].todos[i].subtasks[j].notes == self.notes_buffer) {
                    self.groups[sg].todos[i].subtasks[j].notes = self.notes_buffer.clone();
                    proof {
                        let t = a.groups[sg as int].todos[i as int];
                        let subs = t.subtasks.update(
                            j as int,
                            SubTaskView { notes: a.notes_buffer, ..t.subtasks[j as int] },
                        );
                        assert(self@.groups[sg as int].todos[i as int].subtasks =~= subs);
                        assert(self@.groups[sg as int].todos[i as int] =~= TodoView { subtasks: subs, ..t });
                        assert(self@.groups[sg as int].todos =~= a.groups[sg as int].todos.update(
                            i as int,
                            TodoView { subtasks: subs, ..t },
                        ));
                        assert(self@.groups =~= a.with_subtasks(sg as int, i as int, subs).groups);
                    }
                    self.dirty = true;
                }
            },
        }
        self.notes_buffer = String::new();
        self.mode = AppMode::Normal;
    }

    pub fn cancel_notes(&mut self)
        ensures
            final(self)@ == old(self)@.cancel_notes(),
    {
        self.notes_buffer = String::new();
        self.mode = AppMode::Normal;
    }
}

} // verus!
