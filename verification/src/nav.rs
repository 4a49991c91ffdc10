//! Moving around: the help overlay, the row cursor, folding, switching
//! groups, the category popup with its group add/rename/delete, and
//! repairing a loaded state.
use vstd::prelude::*;

use crate::app::{default_group_name, App, AppView};
use crate::edit::timer_after_group_removed;
use crate::model::{AppMode, Group, GroupView, RowRef, TodoItem, TodoView, todo_views};
use crate::rows::lemma_current_row_valid;
use crate::text::{trim, trimmed};

verus! {

/// `n - 1`, staying at 0.
pub open spec fn saturating_dec(n: usize) -> usize {
    if n > 0 {
        (n - 1) as usize
    } else {
        0
    }
}

impl AppView {
    /// `?`: the help overlay opens, or closes when it is open.
    pub open spec fn toggle_help(self) -> AppView {
        AppView {
            mode: if self.mode == AppMode::Help {
                AppMode::Normal
            } else {
                AppMode::Help
            },
            ..self
        }
    }

    /// `j`: the cursor moves one row down, stopping at the last row.
    pub open spec fn move_down(self) -> AppView {
        let c = self.visible_rows().len();
        if c > 0 {
            AppView {
                selected: if self.selected + 1 < c {
                    (self.selected + 1) as usize
                } else {
                    (c - 1) as usize
                },
                ..self
            }
        } else {
            self
        }
    }

    /// `k`: the cursor moves one row up, stopping at the first row.
    pub open spec fn move_up(self) -> AppView {
        AppView { selected: saturating_dec(self.selected), ..self }
    }

    /// Shows group `index`: a new group selection starts at the top with no
    /// filter and is remembered (dirty). The current group or a group that
    /// does not exist change nothing.
    pub open spec fn switch_group(self, index: usize) -> AppView {
        if index >= self.groups.len() || index == self.selected_group {
            self
        } else {
            AppView {
                selected_group: index,
                selected: 0,
                search_query: Seq::empty(),
                dirty: true,
                ..self
            }
        }
    }

    /// `Tab`: the next group, wrapping around.
    pub open spec fn next_group(self) -> AppView {
        let n = self.groups.len();
        if n <= 1 {
            self
        } else {
            self.switch_group(((self.selected_group + 1) % (n as int)) as usize)
        }
    }

    /// `Shift-Tab`: the previous group, wrapping around.
    pub open spec fn prev_group(self) -> AppView {
        let n = self.groups.len();
        if n <= 1 {
            self
        } else {
            self.switch_group(((self.selected_group + n - 1) % (n as int)) as usize)
        }
    }

    /// `z` on a row of a todo with subtasks: its subtasks fold or unfold and
    /// the todo is selected.
    pub open spec fn toggle_collapse(self) -> AppView {
        let sg = self.selected_group as int;
        match self.current_row() {
            None => self,
            Some(r) => {
                let parent = match r {
                    RowRef::Todo(i) => i,
                    RowRef::Sub(i, _) => i,
                };
                let t = self.groups[sg].todos[parent as int];
                if t.subtasks.len() == 0 {
                    self
                } else {
                    self.with_todo(
                        sg,
                        parent as int,
                        TodoView { collapsed: !t.collapsed, ..t },
                    ).select_row(RowRef::Todo(parent)).clamp_selection()
                }
            },
        }
    }

    /// `c`: the category popup opens on the selected group.
    pub open spec fn enter_category_popup(self) -> AppView {
        AppView { category_cursor: self.selected_group, mode: AppMode::CategoryPopup, ..self }
    }

    pub open spec fn category_cursor_up(self) -> AppView {
        AppView { category_cursor: saturating_dec(self.category_cursor), ..self }
    }

    pub open spec fn category_cursor_down(self) -> AppView {
        if self.category_cursor + 1 < self.groups.len() {
            AppView { category_cursor: (self.category_cursor + 1) as usize, ..self }
        } else {
            self
        }
    }

    /// `Enter` in the popup: the group under the cursor is shown.
    pub open spec fn confirm_category_popup(self) -> AppView {
        AppView { mode: AppMode::Normal, ..self.switch_group(self.category_cursor) }
    }

    /// `n` in the popup: an empty input for a new group.
    pub open spec fn enter_group_add(self) -> AppView {
        AppView {
            group_editing: None,
            input_buffer: Seq::empty(),
            mode: AppMode::GroupInput,
            ..self
        }
    }

    /// `r` in the popup: the input opens with the name of the group under
    /// the cursor.
    pub open spec fn enter_group_rename(self) -> AppView {
        if self.category_cursor < self.groups.len() {
            AppView {
                input_buffer: self.groups[self.category_cursor as int].name,
                group_editing: Some(self.category_cursor),
                mode: AppMode::GroupInput,
                ..self
            }
        } else {
            self
        }
    }

    /// `Enter` in the group input: the trimmed name renames the group being
    /// edited, or becomes a new group under the cursor; a blank name changes
    /// nothing. Back to the popup.
    pub open spec fn commit_group_input(self) -> AppView {
        let name = trimmed(self.input_buffer);
        let a1 = if name.len() == 0 {
            self
        } else {
            match self.group_editing {
                Some(i) => if i < self.groups.len() && self.groups[i as int].name != name {
                    AppView {
                        groups: self.groups.update(
                            i as int,
                            GroupView { name, ..self.groups[i as int] },
                        ),
                        dirty: true,
                        ..self
                    }
                } else {
                    self
                },
                None => AppView {
                    groups: self.groups.push(GroupView { name, todos: Seq::empty() }),
                    category_cursor: self.groups.len() as usize,
                    dirty: true,
                    ..self
                },
            }
        };
        AppView {
            input_buffer: Seq::empty(),
            group_editing: None,
            mode: AppMode::CategoryPopup,
            ..a1
        }
    }

    /// `Esc` in the group input: back to the popup.
    pub open spec fn cancel_group_input(self) -> AppView {
        AppView {
            input_buffer: Seq::empty(),
            group_editing: None,
            mode: AppMode::CategoryPopup,
            ..self
        }
    }

    /// `d` in the popup: asks for confirmation, unless only one group is left.
    pub open spec fn enter_group_delete_confirm(self) -> AppView {
        if self.groups.len() <= 1 {
            self
        } else {
            AppView { mode: AppMode::GroupDeleteConfirm, ..self }
        }
    }

    /// `y` on the confirmation: the group under the cursor goes with its
    /// todos; the shown group, the cursor and the timer follow; undo forgets
    /// the last deleted item. The last group is never deleted.
    pub open spec fn confirm_group_delete(self) -> AppView {
        let n = self.groups.len();
        if n <= 1 {
            AppView { mode: AppMode::CategoryPopup, ..self }
        } else {
            let target: usize = if self.category_cursor < n {
                self.category_cursor
            } else {
                (n - 1) as usize
            };
            let sg = self.selected_group;
            let last: usize = (n - 2) as usize;
            let (new_sg, reset) = if sg == target {
                (if sg < last {
                    sg
                } else {
                    last
                }, true)
            } else if sg > target {
                ((sg - 1) as usize, false)
            } else {
                (sg, false)
            };
            AppView {
                groups: self.groups.remove(target as int),
                timer: timer_after_group_removed(self.timer, target),
                selected_group: new_sg,
                selected: if reset {
                    0
                } else {
                    self.selected
                },
                search_query: if reset {
                    Seq::empty()
                } else {
                    self.search_query
                },
                category_cursor: if self.category_cursor < last {
                    self.category_cursor
                } else {
                    last
                },
                last_deleted: None,
                dirty: true,
                mode: AppMode::CategoryPopup,
                ..self
            }
        }
    }

    /// A loaded state made usable: a missing group list gets the default
    /// group, the group and row selections are clamped, and the state is
    /// dirty exactly when something had to be repaired.
    pub open spec fn normalize_loaded_state(self) -> AppView {
        let repaired = self.groups.len() == 0;
        let groups = if repaired {
            seq![GroupView { name: default_group_name(), todos: Seq::empty() }]
        } else {
            self.groups
        };
        let last = (groups.len() - 1) as usize;
        let a1 = AppView {
            groups,
            selected_group: if self.selected_group < last {
                self.selected_group
            } else {
                last
            },
            ..self
        };
        let a2 = a1.clamp_selection();
        AppView {
            dirty: repaired || a2.selected_group != self.selected_group || a2.selected
                != self.selected,
            ..a2
        }
    }
}

pub(crate) proof fn lemma_next_index(a: int, n: int)
    requires
        n > 1,
        a >= 0,
    ensures
        (a + 1) % n == if a % n + 1 < n {
            a % n + 1
        } else {
            0
        },
{
    vstd::arithmetic::div_mod::lemma_mod_pos_bound(a, n);
    vstd::arithmetic::div_mod::lemma_add_mod_noop(a, 1, n);
    vstd::arithmetic::div_mod::lemma_small_mod(1, n as nat);
    let r = a % n;
    if r + 1 < n {
        vstd::arithmetic::div_mod::lemma_small_mod((r + 1) as nat, n as nat);
    } else {
        vstd::arithmetic::div_mod::lemma_mod_add_multiples_vanish(0, n);
        vstd::arithmetic::div_mod::lemma_small_mod(0, n as nat);
    }
}

pub(crate) proof fn lemma_prev_index(a: int, n: int)
    requires
        n > 1,
        a >= 0,
    ensures
        (a + n - 1) % n == if a % n == 0 {
            n - 1
        } else {
            a % n - 1
        },
{
    vstd::arithmetic::div_mod::lemma_mod_pos_bound(a, n);
    vstd::arithmetic::div_mod::lemma_add_mod_noop(a, n - 1, n);
    vstd::arithmetic::div_mod::lemma_small_mod((n - 1) as nat, n as nat);
    let r = a % n;
    if r == 0 {
        vstd::arithmetic::div_mod::lemma_small_mod((n - 1) as nat, n as nat);
    } else {
        vstd::arithmetic::div_mod::lemma_mod_add_multiples_vanish(r - 1, n);
        vstd::arithmetic::div_mod::lemma_small_mod((r - 1) as nat, n as nat);
    }
}

impl App {
    pub fn toggle_help(&mut self)
        ensures
            final(self)@ == old(self)@.toggle_help(),
    {
        self.mode = match self.mode {
            AppMode::Help => AppMode::Normal,
            _ => AppMode::Help,
        };
    }

    pub fn move_down(&mut self)
        ensures
            final(self)@ == old(self)@.move_down(),
    {
        let count = self.visible_rows().len();
        if count > 0 {
            self.selected = if self.selected < count - 1 {
                self.selected + 1
            } else {
                count - 1
            };
        }
    }

    pub fn move_up(&mut self)
        ensures
            final(self)@ == old(self)@.move_up(),
    {
        self.selected = if self.selected > 0 {
            self.selected - 1
        } else {
            0
        };
    }

    pub fn switch_group(&mut self, index: usize)
        ensures
            final(self)@ == old(self)@.switch_group(index),
    {
        if index >= self.groups.len() || index == self.selected_group {
            return;
        }
        self.selected_group = index;
        self.reset_group_view();
        self.dirty = true;
    }

    fn reset_group_view(&mut self)
        ensures
            final(self)@ == (AppView { selected: 0, search_query: Seq::empty(), ..old(self)@ }),
    {
        self.selected = 0;
        self.search_query = String::new();
    }

    pub fn next_group(&mut self)
        ensures
            final(self)@ == old(self)@.next_group(),
    {
        let n = self.groups.len();
        if n <= 1 {
            return;
        }
        let r = self.selected_group % n;
        let next = if r + 1 < n {
            r + 1
        } else {
            0
        };
        proof {
            lemma_next_index(self.selected_group as int, n as int);
        }
        self.switch_group(next);
    }

    pub fn prev_group(&mut self)
        ensures
            final(self)@ == old(self)@.prev_group(),
    {
        let n = self.groups.len();
        if n <= 1 {
            return;
        }
        let r = self.selected_group % n;
        let previous = if r == 0 {
            n - 1
        } else {
            r - 1
        };
        proof {
            lemma_prev_index(self.selected_group as int, n as int);
        }
        self.switch_group(previous);
    }

    pub fn toggle_collapse(&mut self)
        ensures
            final(self)@ == old(self)@.toggle_collapse(),
    {
        let row = match self.current_row() {
            Some(r) => r,
            None => return,
        };
        proof {
            lemma_current_row_valid(self@);
        }
        let parent = match row {
            RowRef::Todo(i) => i,
            RowRef::Sub(i, _) => i,
        };
        let sg = self.selected_group;
        let ghost a = self@;
        if self.groups[sg].todos[parent].subtasks.len() == 0 {
            return;
        }
        let c = self.groups[sg].todos[parent].collapsed;
        self.groups[sg].todos[parent].collapsed = !c;
        proof {
            let t = a.groups[sg as int].todos[parent as int];
            let nt = TodoView { collapsed: !t.collapsed, ..t };
            assert(self@.groups[sg as int].todos[parent as int] =~= nt);
            assert(self@.groups[sg as int].todos =~= a.groups[sg as int].todos.update(parent as int, nt));
            assert(self@.groups =~= a.with_todo(sg as int, parent as int, nt).groups);
        }
        self.select_row(RowRef::Todo(parent));
        self.clamp_selection();
    }

    pub fn enter_category_popup(&mut self)
        ensures
            final(self)@ == old(self)@.enter_category_popup(),
    {
        self.category_cursor = self.selected_group;
        self.mode = AppMode::CategoryPopup;
    }

    pub fn category_cursor_up(&mut self)
        ensures
            final(self)@ == old(self)@.category_cursor_up(),
    {
        self.category_cursor = if self.category_cursor > 0 {
            self.category_cursor - 1
        } else {
            0
        };
    }

    pub fn category_cursor_down(&mut self)
        ensures
            final(self)@ == old(self)@.category_cursor_down(),
    {
        if self.category_cursor < self.groups.len() && self.category_cursor + 1 < self.groups.len() {
            self.category_cursor = self.category_cursor + 1;
        }
    }

    pub fn confirm_category_popup(&mut self)
        ensures
            final(self)@ == old(self)@.confirm_category_popup(),
    {
        self.switch_group(self.category_cursor);
        self.mode = AppMode::Normal;
    }

    pub fn cancel_category_popup(&mut self)
        ensures
            final(self)@ == (AppView { mode: AppMode::Normal, ..old(self)@ }),
    {
        self.mode = AppMode::Normal;
    }

    pub fn enter_group_add(&mut self)
        ensures
            final(self)@ == old(self)@.enter_group_add(),
    {
        self.group_editing = None;
        self.input_buffer = String::new();
        self.mode = AppMode::GroupInput;
    }

    pub fn enter_group_rename(&mut self)
        ensures
            final(self)@ == old(self)@.enter_group_rename(),
    {
        if self.category_cursor < self.groups.len() {
            self.input_buffer = self.groups[self.category_cursor].name.clone();
            self.group_editing = Some(self.category_cursor);
            self.mode = AppMode::GroupInput;
        }
    }

    pub fn commit_group_input(&mut self)
        ensures
            final(self)@ == old(self)@.commit_group_input(),
    {
        let ghost a = self@;
        let name = trim(self.input_buffer.as_str());
        if !name.as_str().is_empty() {
            match self.group_editing {
                Some(i) => {
                    if i < self.groups.len() && !(self.groups[i].name == name) {
                        self.groups[i].name = name;
                        proof {
                            let ng = GroupView { name: trimmed(a.input_buffer), ..a.groups[i as int] };
                            assert(self@.groups[i as int] =~= ng);
                            assert(self@.groups =~= a.groups.update(i as int, ng));
                        }
                        self.dirty = true;
                    }
                },
                None => {
                    let n = self.groups.len();
                    self.groups.push(Group::new(name.as_str()));
                    assert(self@.groups =~= a.groups.push(
                        GroupView { name: trimmed(a.input_buffer), todos: Seq::empty() },
                    ));
                    self.category_cursor = n;
                    self.dirty = true;
                },
            }
        }
        self.input_buffer = String::new();
        self.group_editing = None;
        self.mode = AppMode::CategoryPopup;
    }

    pub fn cancel_group_input(&mut self)
        ensures
            final(self)@ == old(self)@.cancel_group_input(),
    {
        self.input_buffer = String::new();
        self.group_editing = None;
        self.mode = AppMode::CategoryPopup;
    }

    pub fn enter_group_delete_confirm(&mut self)
        ensures
            final(self)@ == old(self)@.enter_group_delete_confirm(),
    {
        if self.groups.len() <= 1 {
            return;
        }
        self.mode = AppMode::GroupDeleteConfirm;
    }

    pub fn confirm_group_delete(&mut self)
        ensures
            final(self)@ == old(self)@.confirm_group_delete(),
    {
        let ghost a = self@;
        let n = self.groups.len();
        if n <= 1 {
            self.mode = AppMode::CategoryPopup;
            return;
        }
        let target = if self.category_cursor < n {
            self.category_cursor
        } else {
            n - 1
        };
        let _removed = self.groups.remove(target);
        assert(self@.groups =~= a.groups.remove(target as int));
        self.adjust_timer_after_group_removed(target);
        let last = n - 2;
        if self.selected_group == target {
            self.selected_group = if self.selected_group < last {
                self.selected_group
            } else {
                last
            };
            self.reset_group_view();
        } else if self.selected_group > target {
            self.selected_group = self.selected_group - 1;
        }
        self.category_cursor = if self.category_cursor < last {
            self.category_cursor
        } else {
            last
        };
        self.last_deleted = None;
        self.dirty = true;
        self.mode = AppMode::CategoryPopup;
    }

    pub fn cancel_group_delete(&mut self)
        ensures
            final(self)@ == (AppView { mode: AppMode::CategoryPopup, ..old(self)@ }),
    {
        self.mode = AppMode::CategoryPopup;
    }

    pub fn normalize_loaded_state(self) -> (r: App)
        ensures
            r@ == self@.normalize_loaded_state(),
    {
        let mut s = self;
        let group_before = s.selected_group;
        let selected_before = s.selected;
        let mut repaired = false;
        let ghost a = s@;
        if s.groups.len() == 0 {
            s.groups.push(Group::new("기본"));
            assert(s@.groups =~= seq![GroupView { name: default_group_name(), todos: Seq::empty() }]);
            repaired = true;
        }
        let last = s.groups.len() - 1;
        s.selected_group = if s.selected_group < last {
            s.selected_group
        } else {
            last
        };
        s.clamp_selection();
        s.dirty = repaired || s.selected_group != group_before || s.selected != selected_before;
        s
    }
}

/// What an old data file holds: the todos of a list without groups, and the
/// selected row.
pub struct LegacyApp {
    pub todos: Vec<TodoItem>,
    pub selected: usize,
}

/// What the data file gave: a current state, an old state, or nothing usable.
pub enum StoredData {
    Current(App),
    Legacy(LegacyApp),
}

impl App {
    /// A state from an old data file: its todos form the default group.
    pub fn from_legacy(legacy: LegacyApp) -> (r: App)
        ensures
            r@ == (AppView {
                groups: seq![GroupView { name: default_group_name(), todos: todo_views(legacy.todos@) }],
                selected: legacy.selected,
                ..crate::app::default_app_view()
            }),
    {
        let mut r = App::default();
        let group = Group { name: "기본".to_owned(), todos: legacy.todos };
        r.groups = Vec::new();
        r.groups.push(group);
        r.selected = legacy.selected;
        assert(r@.groups =~= seq![GroupView { name: default_group_name(), todos: todo_views(legacy.todos@) }]);
        r
    }

    /// The state a program starts from, given what its data file held:
    /// the stored state (an old one converted) when there was one, a fresh
    /// state otherwise, repaired by `normalize_loaded_state`.
    pub fn from_stored(data: Option<StoredData>) -> (r: App)
        ensures
            r@ == match data {
                Some(StoredData::Current(app)) => app@.normalize_loaded_state(),
                Some(StoredData::Legacy(l)) => (AppView {
                    groups: seq![GroupView { name: default_group_name(), todos: todo_views(l.todos@) }],
                    selected: l.selected,
                    ..crate::app::default_app_view()
                }).normalize_loaded_state(),
                None => crate::app::default_app_view().normalize_loaded_state(),
            },
    {
        let app = match data {
            Some(StoredData::Current(app)) => app,
            Some(StoredData::Legacy(l)) => App::from_legacy(l),
            None => App::default(),
        };
        app.normalize_loaded_state()
    }
}

} // verus!
