//! The rows the list shows for the selected group: which todos pass the
//! search filter, in which order todos and subtasks are listed, and which row
//! is selected.
use vstd::prelude::*;

use crate::app::{timer_view, App, AppView};
use crate::model::{
    priority_rank, status_rank, GroupView, PomodoroTimer, RowRef, TimerTarget, TimerView,
    TodoItem, TodoStatus, TodoView,
};
use crate::text::{chars_of, contains_chars, has_substring, lowercase, to_lowercase};

verus! {

// ---------------------------------------------------------------------------
// Ordering by small integer keys (a stable sort).
// ---------------------------------------------------------------------------

/// The positions `i < n` whose key is `k`, in increasing order.
pub open spec fn bucket(keys: Seq<u8>, k: int, n: int) -> Seq<usize>
    decreases n,
{
    if n <= 0 {
        Seq::empty()
    } else {
        bucket(keys, k, n - 1) + if keys[n - 1] == k {
            seq![(n - 1) as usize]
        } else {
            Seq::empty()
        }
    }
}

/// The positions of `keys` whose key is below `nk`, ordered by key and,
/// among equal keys, by position: a stable sort of the positions by key.
/// Positions whose key is `nk` or more are left out.
pub open spec fn bucket_order(keys: Seq<u8>, nk: int) -> Seq<usize>
    decreases nk,
{
    if nk <= 0 {
        Seq::empty()
    } else {
        bucket_order(keys, nk - 1) + bucket(keys, nk - 1, keys.len() as int)
    }
}

pub proof fn lemma_bucket_bound(keys: Seq<u8>, k: int, n: int)
    ensures
        forall|x: int| 0 <= x < bucket(keys, k, n).len() ==> (#[trigger] bucket(keys, k, n)[x]) < n,
    decreases n,
{
    if n > 0 {
        lemma_bucket_bound(keys, k, n - 1);
        let prev = bucket(keys, k, n - 1);
        let cur = bucket(keys, k, n);
        assert forall|x: int| 0 <= x < cur.len() implies (#[trigger] cur[x]) < n by {
            if x < prev.len() {
                assert(cur[x] == prev[x]);
            }
        }
    }
}

pub proof fn lemma_bucket_order_bound(keys: Seq<u8>, nk: int)
    ensures
        forall|x: int|
            0 <= x < bucket_order(keys, nk).len() ==> (#[trigger] bucket_order(keys, nk)[x])
                < keys.len(),
    decreases nk,
{
    if nk > 0 {
        lemma_bucket_order_bound(keys, nk - 1);
        lemma_bucket_bound(keys, nk - 1, keys.len() as int);
        let a = bucket_order(keys, nk - 1);
        let b = bucket(keys, nk - 1, keys.len() as int);
        assert forall|x: int| 0 <= x < bucket_order(keys, nk).len() implies (#[trigger] bucket_order(
            keys,
            nk,
        )[x]) < keys.len() by {
            if x < a.len() {
                assert(bucket_order(keys, nk)[x] == a[x]);
            } else {
                assert(bucket_order(keys, nk)[x] == b[x - a.len()]);
            }
        }
    }
}

pub proof fn lemma_bucket_elems(keys: Seq<u8>, k: int, n: int)
    requires
        0 <= n <= keys.len(),
        keys.len() <= usize::MAX,
    ensures
        forall|x: int|
            0 <= x < bucket(keys, k, n).len() ==> (#[trigger] bucket(keys, k, n)[x]) < n && keys[bucket(keys, k, n)[x] as int] == k,
        forall|x: int, y: int|
            0 <= x < y < bucket(keys, k, n).len() ==> #[trigger] bucket(keys, k, n)[x] < #[trigger] bucket(keys, k, n)[y],
        forall|i: int| 0 <= i < n && keys[i] == k ==> #[trigger] bucket(keys, k, n).contains(i as usize),
    decreases n,
{
    if n > 0 {
        lemma_bucket_elems(keys, k, n - 1);
        let prev = bucket(keys, k, n - 1);
        let cur = bucket(keys, k, n);
        assert forall|x: int| 0 <= x < prev.len() implies cur[x] == prev[x] by {}
        if keys[n - 1] == k {
            assert(cur.len() == prev.len() + 1);
            assert(cur[prev.len() as int] == (n - 1) as usize);
        } else {
            assert(cur =~= prev);
        }
        assert forall|x: int| 0 <= x < cur.len() implies (#[trigger] cur[x]) < n && keys[cur[x] as int] == k by {
            if x < prev.len() {
                assert(cur[x] == prev[x]);
            }
        }
        assert forall|x: int, y: int| 0 <= x < y < cur.len() implies #[trigger] cur[x] < #[trigger] cur[y] by {
            if y < prev.len() {
                assert(cur[x] == prev[x] && cur[y] == prev[y]);
            } else {
                assert(cur[x] == prev[x]);
                assert(prev[x] < n - 1);
            }
        }
        assert forall|i: int| 0 <= i < n && keys[i] == k implies #[trigger] cur.contains(i as usize) by {
            if i < n - 1 {
                assert(prev.contains(i as usize));
                let x = choose|x: int| 0 <= x < prev.len() && prev[x] == i as usize;
                assert(cur[x] == i as usize);
            } else {
                assert(cur[prev.len() as int] == i as usize);
            }
        }
    }
}

pub proof fn lemma_bucket_order_elems(keys: Seq<u8>, nk: int)
    requires
        keys.len() <= usize::MAX,
    ensures
        forall|x: int|
            0 <= x < bucket_order(keys, nk).len() ==> (#[trigger] bucket_order(keys, nk)[x])
                < keys.len() && keys[bucket_order(keys, nk)[x] as int] < nk,
    decreases nk,
{
    if nk > 0 {
        lemma_bucket_order_elems(keys, nk - 1);
        lemma_bucket_elems(keys, nk - 1, keys.len() as int);
        let a = bucket_order(keys, nk - 1);
        let b = bucket(keys, nk - 1, keys.len() as int);
        assert forall|x: int| 0 <= x < bucket_order(keys, nk).len() implies (#[trigger] bucket_order(
            keys,
            nk,
        )[x]) < keys.len() && keys[bucket_order(keys, nk)[x] as int] < nk by {
            if x < a.len() {
                assert(bucket_order(keys, nk)[x] == a[x]);
            } else {
                assert(bucket_order(keys, nk)[x] == b[x - a.len()]);
            }
        }
    }
}

/// The positions of `keys` ordered stably by key, leaving out keys `>= nk`.
pub fn bucket_order_exec(keys: &Vec<u8>, nk: u8) -> (r: Vec<usize>)
    ensures
        r@ == bucket_order(keys@, nk as int),
{
    let n = keys.len();
    let mut out: Vec<usize> = Vec::new();
    let mut k: u8 = 0;
    while k < nk
        invariant
            n == keys@.len(),
            k <= nk,
            out@ == bucket_order(keys@, k as int),
        decreases nk - k,
    {
        let ghost before = out@;
        let mut i: usize = 0;
        while i < n
            invariant
                n == keys@.len(),
                i <= n,
                out@ == before + bucket(keys@, k as int, i as int),
            decreases n - i,
        {
            if keys[i] == k {
                out.push(i);
            }
            i = i + 1;
            assert(out@ =~= before + bucket(keys@, k as int, i as int));
        }
        k = k + 1;
        assert(out@ =~= bucket_order(keys@, k as int));
    }
    out
}

// ---------------------------------------------------------------------------
// The rows of the selected group.
// ---------------------------------------------------------------------------

/// Whether a title passes the search filter `q`: every title passes an
/// empty filter, otherwise the lowercased title must contain the lowercased
/// filter.
pub open spec fn title_visible(q: Seq<char>, title: Seq<char>) -> bool {
    q.len() == 0 || has_substring(lowercase(title), lowercase(q))
}

/// The sort key of the todo at index `i` of group `group`: its status first
/// (in progress, to do, done), then whether the timer runs on it (it comes
/// first), then its priority (high first; done todos ignore priority).
pub open spec fn todo_sort_key(timer: Option<TimerView>, group: usize, i: int, t: TodoView) -> nat {
    let timer_rank: nat = match timer {
        Some(tm) => if tm.target == (TimerTarget { group, todo: i as usize }) {
            0
        } else {
            1
        },
        None => 1,
    };
    let prio: nat = if t.status == TodoStatus::Done {
        0
    } else {
        priority_rank(t.priority)
    };
    status_rank(t.status) * 6 + timer_rank * 3 + prio
}

pub proof fn lemma_todo_sort_key_bound(timer: Option<TimerView>, group: usize, i: int, t: TodoView)
    ensures
        todo_sort_key(timer, group, i, t) < 18,
{
}

/// The number of distinct todo sort keys.
pub open spec fn todo_key_count() -> int {
    18
}

/// Keys of the todos of group `g`: their sort key when they pass the search
/// filter of `app`, and a key past every bucket when they do not.
pub open spec fn todo_keys(app: AppView, g: int) -> Seq<u8> {
    let todos = app.groups[g].todos;
    let q = app.search_query;
    Seq::new(
        todos.len(),
        |i: int|
            if title_visible(q, todos[i].title) {
                todo_sort_key(app.timer, g as usize, i, todos[i]) as u8
            } else {
                255u8
            },
    )
}

/// Keys of the subtasks of a todo: the rank of their status.
pub open spec fn subtask_keys(t: TodoView) -> Seq<u8> {
    Seq::new(t.subtasks.len(), |j: int| status_rank(t.subtasks[j].status) as u8)
}

/// The rows a todo contributes: the todo itself, then, unless it is
/// collapsed, its subtasks ordered by status.
pub open spec fn todo_block(t: TodoView, i: usize) -> Seq<RowRef> {
    seq![RowRef::Todo(i)] + if t.collapsed {
        Seq::empty()
    } else {
        bucket_order(subtask_keys(t), 3).map_values(|j: usize| RowRef::Sub(i, j))
    }
}

/// The rows of the todos listed in `order`.
pub open spec fn rows_for(order: Seq<usize>, todos: Seq<TodoView>) -> Seq<RowRef>
    decreases order.len(),
{
    if order.len() == 0 {
        Seq::empty()
    } else {
        rows_for(order.drop_last(), todos) + todo_block(todos[order.last() as int], order.last())
    }
}

/// The first position of `r` in `rows`.
pub open spec fn first_position(rows: Seq<RowRef>, r: RowRef) -> Option<int>
    decreases rows.len(),
{
    if rows.len() == 0 {
        None
    } else {
        match first_position(rows.drop_last(), r) {
            Some(k) => Some(k),
            None => if rows.last() == r {
                Some(rows.len() - 1)
            } else {
                None
            },
        }
    }
}

/// A row refers to an existing todo, or to an existing subtask of one.
pub open spec fn row_valid(g: GroupView, r: RowRef) -> bool {
    match r {
        RowRef::Todo(i) => i < g.todos.len(),
        RowRef::Sub(i, j) => i < g.todos.len() && j < g.todos[i as int].subtasks.len(),
    }
}

impl AppView {
    /// The order in which the todos of the selected group are listed.
    pub open spec fn todo_order(self) -> Seq<usize> {
        bucket_order(todo_keys(self, self.selected_group as int), todo_key_count())
    }

    /// The rows the list shows for the selected group.
    pub open spec fn visible_rows(self) -> Seq<RowRef> {
        if self.selected_group < self.groups.len() {
            rows_for(self.todo_order(), self.groups[self.selected_group as int].todos)
        } else {
            Seq::empty()
        }
    }

    /// The selected row, if the selection is within the rows.
    pub open spec fn current_row(self) -> Option<RowRef> {
        let rows = self.visible_rows();
        if self.selected < rows.len() {
            Some(rows[self.selected as int])
        } else {
            None
        }
    }

    /// The state with row `r` selected when it is shown, unchanged otherwise.
    pub open spec fn select_row(self, r: RowRef) -> AppView {
        match first_position(self.visible_rows(), r) {
            Some(k) => AppView { selected: k as usize, ..self },
            None => self,
        }
    }

    /// The state with the selection moved into the shown rows (to the last
    /// row when it is past them, to 0 when there are none).
    pub open spec fn clamp_selection(self) -> AppView {
        let c = self.visible_rows().len();
        AppView {
            selected: if c == 0 {
                0
            } else if self.selected < c {
                self.selected
            } else {
                (c - 1) as usize
            },
            ..self
        }
    }
}

// ---------------------------------------------------------------------------
// Lemmas.
// ---------------------------------------------------------------------------

pub proof fn lemma_first_position(rows: Seq<RowRef>, r: RowRef)
    ensures
        match first_position(rows, r) {
            Some(k) => 0 <= k < rows.len() && rows[k] == r && forall|j: int|
                0 <= j < k ==> rows[j] != r,
            None => forall|j: int| 0 <= j < rows.len() ==> rows[j] != r,
        },
    decreases rows.len(),
{
    if rows.len() > 0 {
        let p = rows.drop_last();
        lemma_first_position(p, r);
        assert forall|j: int| 0 <= j < p.len() implies rows[j] == p[j] by {}
        match first_position(p, r) {
            Some(k) => {
                assert(first_position(rows, r) == Some(k));
            },
            None => {
                if rows.last() == r {
                    assert(first_position(rows, r) == Some(rows.len() - 1));
                } else {
                    assert(first_position(rows, r) is None);
                    assert forall|j: int| 0 <= j < rows.len() implies rows[j] != r by {
                        if j < p.len() {
                            assert(rows[j] == p[j]);
                        }
                    }
                }
            },
        }
    }
}

proof fn lemma_rows_for_valid(order: Seq<usize>, g: GroupView)
    requires
        forall|x: int| 0 <= x < order.len() ==> order[x] < g.todos.len(),
    ensures
        forall|x: int|
            0 <= x < rows_for(order, g.todos).len() ==> row_valid(
                g,
                #[trigger] rows_for(order, g.todos)[x],
            ),
    decreases order.len(),
{
    if order.len() > 0 {
        lemma_rows_for_valid(order.drop_last(), g);
        let i = order.last();
        let t = g.todos[i as int];
        let prev = rows_for(order.drop_last(), g.todos);
        let blk = todo_block(t, i);
        lemma_bucket_order_bound(subtask_keys(t), 3);
        assert forall|x: int| 0 <= x < rows_for(order, g.todos).len() implies row_valid(
            g,
            #[trigger] rows_for(order, g.todos)[x],
        ) by {
            if x < prev.len() {
                assert(rows_for(order, g.todos)[x] == prev[x]);
            } else {
                assert(rows_for(order, g.todos)[x] == blk[x - prev.len()]);
            }
        }
    }
}

/// Every shown row refers to an existing todo or subtask of the selected group.
pub proof fn lemma_visible_rows_valid(a: AppView)
    requires
        a.selected_group < a.groups.len(),
    ensures
        forall|x: int|
            0 <= x < a.visible_rows().len() ==> row_valid(
                a.groups[a.selected_group as int],
                #[trigger] a.visible_rows()[x],
            ),
{
    let keys = todo_keys(a, a.selected_group as int);
    lemma_bucket_order_bound(keys, todo_key_count());
    lemma_rows_for_valid(a.todo_order(), a.groups[a.selected_group as int]);
}

/// The current row, when there is one, refers to an existing item.
pub proof fn lemma_current_row_valid(a: AppView)
    ensures
        a.current_row() is Some ==> a.selected_group < a.groups.len() && row_valid(
            a.groups[a.selected_group as int],
            a.current_row()->0,
        ),
{
    if a.current_row() is Some {
        lemma_visible_rows_valid(a);
        assert(row_valid(
            a.groups[a.selected_group as int],
            a.visible_rows()[a.selected as int],
        ));
    }
}

// ---------------------------------------------------------------------------
// Executable rows, selection and clamping.
// ---------------------------------------------------------------------------

fn todo_sort_key_exec(timer: &Option<PomodoroTimer>, group: usize, i: usize, t: &TodoItem) -> (r: u8)
    ensures
        r as nat == todo_sort_key(timer_view(*timer), group, i as int, t@),
{
    let timer_rank: u8 = match timer {
        Some(tm) => if tm.target == (TimerTarget { group, todo: i }) {
            0
        } else {
            1
        },
        None => 1,
    };
    let prio: u8 = if t.status.is_done() {
        0
    } else {
        t.priority.display_sort_rank()
    };
    t.status.display_sort_rank() * 6 + timer_rank * 3 + prio
}

impl App {
    fn todo_keys_exec(&self) -> (r: Vec<u8>)
        requires
            self.selected_group < self.groups@.len(),
        ensures
            r@ == todo_keys(self@, self.selected_group as int),
    {
        let g = &self.groups[self.selected_group];
        let query = to_lowercase(self.search_query.as_str());
        let qchars = chars_of(query.as_str());
        let n = g.todos.len();
        let mut keys: Vec<u8> = Vec::new();
        let mut i: usize = 0;
        while i < n
            invariant
                n == g.todos@.len(),
                g == self.groups@[self.selected_group as int],
                self.selected_group < self.groups@.len(),
                qchars@ == lowercase(self.search_query@),
                (qchars@.len() == 0) == (self.search_query@.len() == 0),
                i <= n,
                keys@.len() == i,
                forall|x: int| 0 <= x < i ==> keys@[x] == todo_keys(self@, self.selected_group as int)[x],
            decreases n - i,
        {
            let t = &g.todos[i];
            let visible = if qchars.len() == 0 {
                true
            } else {
                let lt = to_lowercase(t.title.as_str());
                contains_chars(&chars_of(lt.as_str()), &qchars)
            };
            assert(self@.groups[self.selected_group as int].todos[i as int] == t@);
            if visible {
                keys.push(todo_sort_key_exec(&self.timer, self.selected_group, i, t));
            } else {
                keys.push(255);
            }
            i = i + 1;
        }
        assert(keys@ =~= todo_keys(self@, self.selected_group as int));
        keys
    }

    pub fn visible_rows(&self) -> (r: Vec<RowRef>)
        ensures
            r@ == self@.visible_rows(),
    {
        if self.selected_group >= self.groups.len() {
            return Vec::new();
        }
        let keys = self.todo_keys_exec();
        let order = bucket_order_exec(&keys, 18);
        proof {
            lemma_bucket_order_bound(keys@, 18);
        }
        let g = &self.groups[self.selected_group];
        let ghost todos = self@.groups[self.selected_group as int].todos;
        let mut rows: Vec<RowRef> = Vec::new();
        let mut k: usize = 0;
        while k < order.len()
            invariant
                g == self.groups@[self.selected_group as int],
                todos == g@.todos,
                order@ == bucket_order(keys@, 18),
                keys@.len() == todos.len(),
                forall|x: int| 0 <= x < order@.len() ==> order@[x] < keys@.len(),
                k <= order@.len(),
                rows@ == rows_for(order@.take(k as int), todos),
            decreases order@.len() - k,
        {
            let i = order[k];
            let t = &g.todos[i];
            assert(todos[i as int] == t@);
            let ghost before = rows@;
            rows.push(RowRef::Todo(i));
            if !t.collapsed {
                let m = t.subtasks.len();
                let mut skeys: Vec<u8> = Vec::new();
                let mut j: usize = 0;
                while j < m
                    invariant
                        m == t.subtasks@.len(),
                        j <= m,
                        skeys@.len() == j,
                        forall|y: int| 0 <= y < j ==> skeys@[y] == subtask_keys(t@)[y],
                    decreases m - j,
                {
                    assert(t@.subtasks[j as int] == t.subtasks@[j as int]@);
                    skeys.push(t.subtasks[j].status.display_sort_rank());
                    j = j + 1;
                }
                assert(skeys@ =~= subtask_keys(t@));
                let sorder = bucket_order_exec(&skeys, 3);
                let ghost mid = rows@;
                let mut y: usize = 0;
                while y < sorder.len()
                    invariant
                        y <= sorder@.len(),
                        rows@ == mid + sorder@.take(y as int).map_values(|jj: usize| RowRef::Sub(i, jj)),
                    decreases sorder@.len() - y,
                {
                    rows.push(RowRef::Sub(i, sorder[y]));
                    y = y + 1;
                    assert(rows@ =~= mid + sorder@.take(y as int).map_values(
                        |jj: usize| RowRef::Sub(i, jj),
                    ));
                }
                assert(sorder@.take(sorder@.len() as int) =~= sorder@);
                assert(rows@ =~= before + todo_block(t@, i));
            } else {
                assert(rows@ =~= before + todo_block(t@, i));
            }
            k = k + 1;
            assert(order@.take(k as int).drop_last() =~= order@.take(k - 1));
            assert(rows@ =~= rows_for(order@.take(k as int), todos));
        }
        assert(order@.take(order@.len() as int) =~= order@);
        rows
    }

    pub fn current_row(&self) -> (r: Option<RowRef>)
        ensures
            r == self@.current_row(),
    {
        let rows = self.visible_rows();
        if self.selected < rows.len() {
            Some(rows[self.selected])
        } else {
            None
        }
    }

    pub fn clamp_selection(&mut self)
        ensures
            final(self)@ == old(self)@.clamp_selection(),
    {
        let count = self.visible_rows().len();
        self.selected = if count == 0 {
            0
        } else if self.selected < count {
            self.selected
        } else {
            count - 1
        };
    }

    pub fn select_row(&mut self, target: RowRef)
        ensures
            final(self)@ == old(self)@.select_row(target),
    {
        let rows = self.visible_rows();
        match position_of(&rows, target) {
            Some(p) => {
                self.selected = p;
            },
            None => {},
        }
    }
}

/// The first position of `target` in `rows`.
pub fn position_of(rows: &Vec<RowRef>, target: RowRef) -> (r: Option<usize>)
    ensures
        match first_position(rows@, target) {
            Some(k) => r == Some(k as usize),
            None => r is None,
        },
{
    let mut i: usize = 0;
    while i < rows.len()
        invariant
            i <= rows@.len(),
            first_position(rows@.take(i as int), target) is None,
        decreases rows@.len() - i,
    {
        assert(rows@.take(i + 1).drop_last() =~= rows@.take(i as int));
        if rows[i] == target {
            assert(first_position(rows@.take(i + 1), target) == Some(i as int));
            proof {
                lemma_first_position_prefix(rows@, target, i + 1);
            }
            return Some(i);
        }
        i = i + 1;
    }
    assert(rows@.take(rows@.len() as int) =~= rows@);
    None
}

/// The first position found in a prefix is the first position in the whole.
pub proof fn lemma_first_position_prefix(rows: Seq<RowRef>, r: RowRef, n: int)
    requires
        0 <= n <= rows.len(),
        first_position(rows.take(n), r) is Some,
    ensures
        first_position(rows, r) == first_position(rows.take(n), r),
    decreases rows.len() - n,
{
    if n < rows.len() {
        assert(rows.drop_last().take(n) =~= rows.take(n));
        lemma_first_position_prefix(rows.drop_last(), r, n);
    } else {
        assert(rows.take(n) =~= rows);
    }
}

} // verus!
