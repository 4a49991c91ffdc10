//! The application state and its abstract view.
use vstd::prelude::*;

use crate::model::{
    AppMode, DeletedView, Group, GroupView, InputTarget, LastDeleted, PomodoroTimer, TimerView,
    TodoItem,
};

verus! {

pub struct App {
    pub groups: Vec<Group>,
    pub selected_group: usize,
    pub selected: usize,
    pub mode: AppMode,
    pub input_buffer: String,
    pub should_quit: bool,
    pub dirty: bool,
    pub input_target: InputTarget,
    pub last_deleted: Option<LastDeleted>,
    pub notes_buffer: String,
    pub search_query: String,
    pub search_selected: usize,
    pub category_cursor: usize,
    pub group_editing: Option<usize>,
    pub timer: Option<PomodoroTimer>,
}

#[verifier::ext_equal]
pub struct AppView {
    pub groups: Seq<GroupView>,
    pub selected_group: usize,
    pub selected: usize,
    pub mode: AppMode,
    pub input_buffer: Seq<char>,
    pub should_quit: bool,
    pub dirty: bool,
    pub input_target: InputTarget,
    pub last_deleted: Option<DeletedView>,
    pub notes_buffer: Seq<char>,
    pub search_query: Seq<char>,
    pub search_selected: usize,
    pub category_cursor: usize,
    pub group_editing: Option<usize>,
    pub timer: Option<TimerView>,
}

/// The views of a sequence of groups.
pub open spec fn group_views(s: Seq<Group>) -> Seq<GroupView> {
    s.map_values(|g: Group| g@)
}

pub open spec fn deleted_view(d: Option<LastDeleted>) -> Option<DeletedView> {
    match d {
        Some(x) => Some(x@),
        None => None,
    }
}

pub open spec fn timer_view(t: Option<PomodoroTimer>) -> Option<TimerView> {
    match t {
        Some(x) => Some(x@),
        None => None,
    }
}

impl View for App {
    type V = AppView;

    open spec fn view(&self) -> AppView {
        AppView {
            groups: group_views(self.groups@),
            selected_group: self.selected_group,
            selected: self.selected,
            mode: self.mode,
            input_buffer: self.input_buffer@,
            should_quit: self.should_quit,
            dirty: self.dirty,
            input_target: self.input_target,
            last_deleted: deleted_view(self.last_deleted),
            notes_buffer: self.notes_buffer@,
            search_query: self.search_query@,
            search_selected: self.search_selected,
            category_cursor: self.category_cursor,
            group_editing: self.group_editing,
            timer: timer_view(self.timer),
        }
    }
}

/// The name of the group every fresh list starts with.
pub open spec fn default_group_name() -> Seq<char> {
    "기본"@
}

/// The state of a fresh application: one empty default group, nothing
/// selected, normal mode, empty buffers and no timer.
pub open spec fn default_app_view() -> AppView {
    AppView {
        groups: seq![GroupView { name: default_group_name(), todos: Seq::empty() }],
        selected_group: 0,
        selected: 0,
        mode: AppMode::Normal,
        input_buffer: Seq::empty(),
        should_quit: false,
        dirty: false,
        input_target: InputTarget::NewTodo,
        last_deleted: None,
        notes_buffer: Seq::empty(),
        search_query: Seq::empty(),
        search_selected: 0,
        category_cursor: 0,
        group_editing: None,
        timer: None,
    }
}

impl Default for App {
    fn default() -> (r: Self)
        ensures
            r@ == default_app_view(),
    {
        let mut groups: Vec<Group> = Vec::new();
        groups.push(Group::new("기본"));
        let r = Self {
            groups,
            selected_group: 0,
            selected: 0,
            mode: AppMode::Normal,
            input_buffer: String::new(),
            should_quit: false,
            dirty: false,
            input_target: InputTarget::NewTodo,
            last_deleted: None,
            notes_buffer: String::new(),
            search_query: String::new(),
            search_selected: 0,
            category_cursor: 0,
            group_editing: None,
            timer: None,
        };
        assert(r@.groups =~= default_app_view().groups);
        r
    }
}

impl App {
    /// The todos of the selected group, none when it does not exist.
    pub fn current_todos(&self) -> (r: &[TodoItem])
        ensures
            r@ == (if self.selected_group < self.groups@.len() {
                self.groups@[self.selected_group as int].todos@
            } else {
                Seq::empty()
            }),
    {
        if self.selected_group < self.groups.len() {
            self.groups[self.selected_group].todos.as_slice()
        } else {
            &[]
        }
    }
}

} // verus!
