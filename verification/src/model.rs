//! The data a todo list is made of: priorities, statuses, todos with their
//! subtasks, groups, the pomodoro timer, and the references the views use.
use vstd::prelude::*;

use crate::text::{decimal_pad2, push_decimal_pad2, string_from};

verus! {

#[derive(Debug, Clone, PartialEq, Eq, Default, Structural)]
pub enum Priority {
    #[default]
    Low,
    Medium,
    High,
}

/// The priority that follows `p`: Low → Medium → High → Low.
pub open spec fn next_priority(p: Priority) -> Priority {
    match p {
        Priority::Low => Priority::Medium,
        Priority::Medium => Priority::High,
        Priority::High => Priority::Low,
    }
}

/// Where a priority sorts in the list: High first, Low last.
pub open spec fn priority_rank(p: Priority) -> nat {
    match p {
        Priority::High => 0,
        Priority::Medium => 1,
        Priority::Low => 2,
    }
}

impl Priority {
    pub fn cycle(&self) -> (r: Self)
        ensures
            r == next_priority(*self),
    {
        match self {
            Self::Low => Self::Medium,
            Self::Medium => Self::High,
            Self::High => Self::Low,
        }
    }

    pub fn display_sort_rank(&self) -> (r: u8)
        ensures
            r as nat == priority_rank(*self),
    {
        match self {
            Self::High => 0,
            Self::Medium => 1,
            Self::Low => 2,
        }
    }
}

#[derive(Debug, Clone, Copy, PartialEq, Eq, Default, Structural)]
pub enum TodoStatus {
    #[default]
    Todo,
    InProgress,
    Done,
}

/// The status that follows `s`: Todo → InProgress → Done → Todo.
pub open spec fn next_status(s: TodoStatus) -> TodoStatus {
    match s {
        TodoStatus::Todo => TodoStatus::InProgress,
        TodoStatus::InProgress => TodoStatus::Done,
        TodoStatus::Done => TodoStatus::Todo,
    }
}

/// Where a status sorts in the list: in progress first, done last.
pub open spec fn status_rank(s: TodoStatus) -> nat {
    match s {
        TodoStatus::InProgress => 0,
        TodoStatus::Todo => 1,
        TodoStatus::Done => 2,
    }
}

impl TodoStatus {
    /// Todo → InProgress → Done → Todo.
    pub fn cycle(self) -> (r: Self)
        ensures
            r == next_status(self),
    {
        match self {
            Self::Todo => Self::InProgress,
            Self::InProgress => Self::Done,
            Self::Done => Self::Todo,
        }
    }

    /// The status stored by older versions as a completion flag: done when
    /// set, to do otherwise.
    pub fn from_completed(completed: bool) -> (r: Self)
        ensures
            r == (if completed {
                TodoStatus::Done
            } else {
                TodoStatus::Todo
            }),
    {
        if completed {
            TodoStatus::Done
        } else {
            TodoStatus::Todo
        }
    }

    pub fn is_done(self) -> (r: bool)
        ensures
            r == (self == TodoStatus::Done),
    {
        match self {
            Self::Done => true,
            _ => false,
        }
    }

    pub fn display_sort_rank(self) -> (r: u8)
        ensures
            r as nat == status_rank(self),
    {
        match self {
            Self::InProgress => 0,
            Self::Todo => 1,
            Self::Done => 2,
        }
    }
}

/// Three cycles of a priority bring it back to where it started.
pub proof fn law_priority_cycle_period(p: Priority)
    ensures
        next_priority(next_priority(next_priority(p))) == p,
{
}

/// Three cycles of a status bring it back to where it started.
pub proof fn law_status_cycle_period(s: TodoStatus)
    ensures
        next_status(next_status(next_status(s))) == s,
{
}

#[derive(Debug, Clone)]
pub struct SubTask {
    pub title: String,
    pub status: TodoStatus,
    pub notes: String,
}

#[verifier::ext_equal]
pub struct SubTaskView {
    pub title: Seq<char>,
    pub status: TodoStatus,
    pub notes: Seq<char>,
}

impl View for SubTask {
    type V = SubTaskView;

    open spec fn view(&self) -> SubTaskView {
        SubTaskView { title: self.title@, status: self.status, notes: self.notes@ }
    }
}

impl SubTask {
    pub fn new(title: &str) -> (r: Self)
        ensures
            r@ == (SubTaskView { title: title@, status: TodoStatus::Todo, notes: Seq::empty() }),
    {
        Self { title: title.to_owned(), status: TodoStatus::Todo, notes: String::new() }
    }
}

#[derive(Debug, Clone)]
pub struct TodoItem {
    pub title: String,
    pub status: TodoStatus,
    pub notes: String,
    pub priority: Priority,
    pub subtasks: Vec<SubTask>,
    pub collapsed: bool,
    pub pomodoros: u8,
}

#[verifier::ext_equal]
pub struct TodoView {
    pub title: Seq<char>,
    pub status: TodoStatus,
    pub notes: Seq<char>,
    pub priority: Priority,
    pub subtasks: Seq<SubTaskView>,
    pub collapsed: bool,
    pub pomodoros: u8,
}

/// The views of a sequence of subtasks.
pub open spec fn subtask_views(s: Seq<SubTask>) -> Seq<SubTaskView> {
    s.map_values(|t: SubTask| t@)
}

impl View for TodoItem {
    type V = TodoView;

    open spec fn view(&self) -> TodoView {
        TodoView {
            title: self.title@,
            status: self.status,
            notes: self.notes@,
            priority: self.priority,
            subtasks: subtask_views(self.subtasks@),
            collapsed: self.collapsed,
            pomodoros: self.pomodoros,
        }
    }
}

/// A fresh todo with the given title.
pub open spec fn new_todo_view(title: Seq<char>) -> TodoView {
    TodoView {
        title,
        status: TodoStatus::Todo,
        notes: Seq::empty(),
        priority: Priority::Low,
        subtasks: Seq::empty(),
        collapsed: false,
        pomodoros: 0,
    }
}

/// The number of the first `n` subtasks that are done.
pub open spec fn done_subtasks(subs: Seq<SubTaskView>, n: int) -> int
    decreases n,
{
    if n <= 0 {
        0
    } else {
        done_subtasks(subs, n - 1) + if subs[n - 1].status == TodoStatus::Done {
            1int
        } else {
            0
        }
    }
}

proof fn lemma_done_subtasks_bound(subs: Seq<SubTaskView>, n: int)
    requires
        0 <= n,
    ensures
        0 <= done_subtasks(subs, n) <= n,
    decreases n,
{
    if n > 0 {
        lemma_done_subtasks_bound(subs, n - 1);
    }
}

impl TodoItem {
    /// How many of the subtasks are done.
    pub fn done_subtask_count(&self) -> (r: usize)
        ensures
            r == done_subtasks(self@.subtasks, self@.subtasks.len() as int),
    {
        let n = self.subtasks.len();
        let mut count: usize = 0;
        let mut i: usize = 0;
        while i < n
            invariant
                n == self.subtasks@.len(),
                self@.subtasks == subtask_views(self.subtasks@),
                i <= n,
                count == done_subtasks(self@.subtasks, i as int),
            decreases n - i,
        {
            proof {
                lemma_done_subtasks_bound(self@.subtasks, i as int);
            }
            assert(self@.subtasks[i as int] == self.subtasks@[i as int]@);
            if self.subtasks[i].status.is_done() {
                count = count + 1;
            }
            i = i + 1;
        }
        count
    }

    pub fn new(title: &str) -> (r: Self)
        ensures
            r@ == new_todo_view(title@),
    {
        let r = Self {
            title: title.to_owned(),
            status: TodoStatus::Todo,
            notes: String::new(),
            priority: Priority::Low,
            subtasks: Vec::new(),
            collapsed: false,
            pomodoros: 0,
        };
        assert(r@.subtasks =~= Seq::<SubTaskView>::empty());
        r
    }
}

#[derive(Debug, Clone)]
pub struct Group {
    pub name: String,
    pub todos: Vec<TodoItem>,
}

#[verifier::ext_equal]
pub struct GroupView {
    pub name: Seq<char>,
    pub todos: Seq<TodoView>,
}

/// The views of a sequence of todos.
pub open spec fn todo_views(s: Seq<TodoItem>) -> Seq<TodoView> {
    s.map_values(|t: TodoItem| t@)
}

impl View for Group {
    type V = GroupView;

    open spec fn view(&self) -> GroupView {
        GroupView { name: self.name@, todos: todo_views(self.todos@) }
    }
}

/// The sum of the pomodoro counts of the first `n` todos.
pub open spec fn pomodoro_sum(todos: Seq<TodoView>, n: int) -> int
    decreases n,
{
    if n <= 0 {
        0
    } else {
        pomodoro_sum(todos, n - 1) + todos[n - 1].pomodoros
    }
}

/// The number of the first `n` todos that are done.
pub open spec fn done_count(todos: Seq<TodoView>, n: int) -> int
    decreases n,
{
    if n <= 0 {
        0
    } else {
        done_count(todos, n - 1) + if todos[n - 1].status == TodoStatus::Done {
            1int
        } else {
            0
        }
    }
}

proof fn lemma_pomodoro_sum_bound(todos: Seq<TodoView>, n: int)
    requires
        0 <= n,
    ensures
        0 <= pomodoro_sum(todos, n) <= 255 * n,
    decreases n,
{
    if n > 0 {
        lemma_pomodoro_sum_bound(todos, n - 1);
    }
}

proof fn lemma_done_count_bound(todos: Seq<TodoView>, n: int)
    requires
        0 <= n,
    ensures
        0 <= done_count(todos, n) <= n,
    decreases n,
{
    if n > 0 {
        lemma_done_count_bound(todos, n - 1);
    }
}

impl Group {
    pub fn new(name: &str) -> (r: Self)
        ensures
            r@ == (GroupView { name: name@, todos: Seq::empty() }),
    {
        let r = Self { name: name.to_owned(), todos: Vec::new() };
        assert(r@.todos =~= Seq::<TodoView>::empty());
        r
    }

    /// The number of top-level todos that are done.
    pub fn done_count(&self) -> (r: usize)
        ensures
            r == done_count(self@.todos, self@.todos.len() as int),
    {
        let n = self.todos.len();
        let mut count: usize = 0;
        let mut i: usize = 0;
        while i < n
            invariant
                n == self.todos@.len(),
                i <= n,
                count == done_count(self@.todos, i as int),
            decreases n - i,
        {
            proof {
                lemma_done_count_bound(self@.todos, i as int);
            }
            if self.todos[i].status.is_done() {
                count = count + 1;
            }
            i = i + 1;
        }
        count
    }

    /// The sum of the pomodoros of all top-level todos of the group.
    pub fn total_pomodoros(&self) -> (r: u32)
        requires
            pomodoro_sum(self@.todos, self@.todos.len() as int) <= u32::MAX,
        ensures
            r == pomodoro_sum(self@.todos, self@.todos.len() as int),
    {
        let n = self.todos.len();
        let mut total: u32 = 0;
        let mut i: usize = 0;
        while i < n
            invariant
                n == self.todos@.len(),
                i <= n,
                total == pomodoro_sum(self@.todos, i as int),
                pomodoro_sum(self@.todos, n as int) <= u32::MAX,
            decreases n - i,
        {
            proof {
                lemma_pomodoro_sum_monotone(self@.todos, i as int + 1, n as int);
            }
            total = total + self.todos[i].pomodoros as u32;
            i = i + 1;
        }
        total
    }
}

proof fn lemma_pomodoro_sum_monotone(todos: Seq<TodoView>, a: int, b: int)
    requires
        0 <= a <= b,
    ensures
        pomodoro_sum(todos, a) <= pomodoro_sum(todos, b),
    decreases b - a,
{
    if a < b {
        lemma_pomodoro_sum_monotone(todos, a, b - 1);
    }
}

/// A length of time, counted in nanoseconds.
#[derive(Debug, Clone, Copy, PartialEq, Eq, Structural)]
pub struct TimeSpan {
    pub nanos: u128,
}

/// Nanoseconds in a second.
pub const NANOS_PER_SEC: u128 = 1_000_000_000;

/// Length of one pomodoro, in seconds (25 minutes).
pub const POMODORO_SECS: u64 = 1500;

impl TimeSpan {
    pub fn from_secs(secs: u64) -> (r: Self)
        ensures
            r.nanos == secs * NANOS_PER_SEC,
    {
        TimeSpan { nanos: secs as u128 * NANOS_PER_SEC }
    }

    pub fn from_nanos(nanos: u128) -> (r: Self)
        ensures
            r.nanos == nanos,
    {
        TimeSpan { nanos }
    }

    pub fn as_nanos(&self) -> (r: u128)
        ensures
            r == self.nanos,
    {
        self.nanos
    }
}

/// The length of one pomodoro.
pub open spec fn pomodoro_nanos() -> nat {
    POMODORO_SECS as nat * NANOS_PER_SEC as nat
}

/// The length of one pomodoro.
pub fn pomodoro_duration() -> (r: TimeSpan)
    ensures
        r.nanos == pomodoro_nanos(),
{
    TimeSpan::from_secs(POMODORO_SECS)
}

#[derive(Debug, Clone, Copy, PartialEq, Eq, Structural)]
pub struct TimerTarget {
    pub group: usize,
    pub todo: usize,
}

#[derive(Debug, Clone)]
pub struct PomodoroTimer {
    pub target: TimerTarget,
    pub remaining: TimeSpan,
    pub running: bool,
}

#[verifier::ext_equal]
pub struct TimerView {
    pub target: TimerTarget,
    pub remaining: nat,
    pub running: bool,
}

impl View for PomodoroTimer {
    type V = TimerView;

    open spec fn view(&self) -> TimerView {
        TimerView {
            target: self.target,
            remaining: self.remaining.nanos as nat,
            running: self.running,
        }
    }
}

/// Whole seconds shown for a remaining time, a started second counting as a
/// whole one.
pub open spec fn shown_seconds(nanos: nat) -> nat {
    nanos / (NANOS_PER_SEC as nat) + if nanos % (NANOS_PER_SEC as nat) > 0 {
        1nat
    } else {
        0
    }
}

/// `MM:SS` for a remaining time (minutes are not capped at 59 hours).
pub open spec fn clock_text(nanos: nat) -> Seq<char> {
    let s = shown_seconds(nanos);
    decimal_pad2(s / 60) + seq![':'] + decimal_pad2(s % 60)
}

impl PomodoroTimer {
    pub fn new(target: TimerTarget) -> (r: Self)
        ensures
            r@ == (TimerView { target, remaining: pomodoro_nanos(), running: true }),
    {
        Self { target, remaining: pomodoro_duration(), running: true }
    }

    pub fn display_remaining(&self) -> (r: String)
        ensures
            r@ == clock_text(self.remaining.nanos as nat),
    {
        clock_string(self.remaining.nanos)
    }
}

/// `MM:SS` for a remaining time of `n` nanoseconds (see `clock_text`).
pub fn clock_string(n: u128) -> (r: String)
    ensures
        r@ == clock_text(n as nat),
{
    let seconds: u128 = n / NANOS_PER_SEC + if n % NANOS_PER_SEC > 0 {
        1u128
    } else {
        0u128
    };
    let mut out: Vec<char> = Vec::new();
    push_decimal_pad2(&mut out, seconds / 60);
    out.push(':');
    push_decimal_pad2(&mut out, seconds % 60);
    assert(out@ =~= clock_text(n as nat));
    string_from(&out)
}

#[derive(Debug, Clone, Copy, PartialEq, Eq, Structural)]
pub enum RowRef {
    Todo(usize),
    Sub(usize, usize),
}

#[derive(Debug, Clone, Copy, PartialEq, Eq, Structural)]
pub struct SearchHit {
    pub group: usize,
    pub row: RowRef,
}

#[derive(Debug, Clone, Copy, PartialEq, Eq, Default, Structural)]
pub enum InputTarget {
    #[default]
    NewTodo,
    NewSubtask(usize),
    EditTodo(usize),
    EditSubtask(usize, usize),
}

#[derive(Debug, Clone)]
pub enum LastDeleted {
    Todo { group: usize, index: usize, item: TodoItem },
    Sub { group: usize, todo: usize, index: usize, item: SubTask },
}

pub enum DeletedView {
    Todo { group: usize, index: usize, item: TodoView },
    Sub { group: usize, todo: usize, index: usize, item: SubTaskView },
}

impl View for LastDeleted {
    type V = DeletedView;

    open spec fn view(&self) -> DeletedView {
        match self {
            LastDeleted::Todo { group, index, item } => DeletedView::Todo {
                group: *group,
                index: *index,
                item: item@,
            },
            LastDeleted::Sub { group, todo, index, item } => DeletedView::Sub {
                group: *group,
                todo: *todo,
                index: *index,
                item: item@,
            },
        }
    }
}

#[derive(Debug, Clone, PartialEq, Eq, Default, Structural)]
pub enum AppMode {
    #[default]
    Normal,
    Input,
    Help,
    EditingNotes,
    Search,
    CategoryPopup,
    GroupInput,
    GroupDeleteConfirm,
    Zen,
}

} // verus!
