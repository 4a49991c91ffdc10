//! Properties of the application as a whole, proved over the abstract view.
use vstd::prelude::*;

use crate::app::AppView;
use crate::model::{
    next_status, AppMode, DeletedView, GroupView, RowRef, SearchHit, SubTaskView, TimerTarget,
    TimerView, TodoStatus, TodoView,
};
use crate::rows::{
    bucket, bucket_order, first_position, lemma_bucket_elems, lemma_bucket_order_bound,
    lemma_first_position, rows_for, row_valid, subtask_keys, title_visible, todo_block, todo_keys,
    todo_key_count,
};
use crate::search::{
    first_index_from, fuzzy, greedy_positions, group_hits, insert_all, insert_pos, rank, scored,
    subtask_hits, todo_hits, best,
};
use crate::text::{lowercase, trimmed};
use crate::ui::{char_widths, wrap_state, wrap_width, wrapped_lines};

verus! {

// ---------------------------------------------------------------------------
// Which rows are shown.
// ---------------------------------------------------------------------------

impl AppView {
    /// Every list of the state, and the list of rows a group shows, is
    /// short enough to be indexed by `usize`: the machine limit of a state
    /// held in vectors, whose row positions are `usize`.
    pub open spec fn fits(self) -> bool {
        &&& self.groups.len() <= usize::MAX
        &&& forall|g: int|
            0 <= g < self.groups.len() ==> item_count(#[trigger] self.groups[g].todos) <= usize::MAX
        &&& forall|g: int|
            0 <= g < self.groups.len() ==> (#[trigger] self.groups[g]).todos.len() <= usize::MAX
        &&& forall|g: int, i: int|
            0 <= g < self.groups.len() && 0 <= i < self.groups[g].todos.len() ==> (
            #[trigger] self.groups[g].todos[i]).subtasks.len() <= usize::MAX
    }

    /// Whether row `r` belongs to the list of the selected group: it exists,
    /// its todo passes the search filter, and a subtask's todo is unfolded.
    pub open spec fn shows(self, r: RowRef) -> bool {
        let sg = self.selected_group as int;
        &&& self.selected_group < self.groups.len()
        &&& row_valid(self.groups[sg], r)
        &&& match r {
            RowRef::Todo(i) => title_visible(
                self.search_query,
                self.groups[sg].todos[i as int].title,
            ),
            RowRef::Sub(i, j) => title_visible(
                self.search_query,
                self.groups[sg].todos[i as int].title,
            ) && !self.groups[sg].todos[i as int].collapsed,
        }
    }
}


// ---------------------------------------------------------------------------
// Counting rows.
// ---------------------------------------------------------------------------

/// The sum of `w(i)` over the positions `i < n` whose key is `k`.
pub open spec fn wsum_key(keys: Seq<u8>, w: spec_fn(int) -> int, k: int, n: int) -> int
    decreases n,
{
    if n <= 0 {
        0
    } else {
        wsum_key(keys, w, k, n - 1) + if keys[n - 1] == k {
            w(n - 1)
        } else {
            0
        }
    }
}

/// The sum of `w(i)` over the positions `i < n` whose key is below `nk`.
pub open spec fn wsum_below(keys: Seq<u8>, w: spec_fn(int) -> int, nk: int, n: int) -> int
    decreases n,
{
    if n <= 0 {
        0
    } else {
        wsum_below(keys, w, nk, n - 1) + if keys[n - 1] < nk {
            w(n - 1)
        } else {
            0
        }
    }
}

/// The sum of `w(i)` over `i < n`.
pub open spec fn wsum(w: spec_fn(int) -> int, n: int) -> int
    decreases n,
{
    if n <= 0 {
        0
    } else {
        wsum(w, n - 1) + w(n - 1)
    }
}

/// The number of items (todos and subtasks) of a list of todos.
pub open spec fn item_count(todos: Seq<TodoView>) -> int {
    wsum(|i: int| 1int + todos[i].subtasks.len() as int, todos.len() as int)
}

proof fn lemma_wsum_congruent(w: spec_fn(int) -> int, v: spec_fn(int) -> int, n: int)
    requires
        forall|i: int| 0 <= i < n ==> #[trigger] w(i) == v(i),
    ensures
        wsum(w, n) == wsum(v, n),
    decreases n,
{
    if n > 0 {
        lemma_wsum_congruent(w, v, n - 1);
    }
}

/// Lists of todos with the same number of todos and of subtasks in each
/// have the same number of items.
pub proof fn lemma_item_count_same(a: Seq<TodoView>, b: Seq<TodoView>)
    requires
        a.len() == b.len(),
        forall|i: int| 0 <= i < a.len() ==> (#[trigger] a[i]).subtasks.len() == b[i].subtasks.len(),
    ensures
        item_count(a) == item_count(b),
{
    lemma_wsum_congruent(
        |i: int| 1int + a[i].subtasks.len() as int,
        |i: int| 1int + b[i].subtasks.len() as int,
        a.len() as int,
    );
}

/// The rows a todo can take: itself, and its subtasks unless folded.
pub open spec fn block_len(t: TodoView) -> int {
    1 + if t.collapsed {
        0
    } else {
        t.subtasks.len() as int
    }
}

proof fn lemma_wsum_split(keys: Seq<u8>, w: spec_fn(int) -> int, nk: int, n: int)
    ensures
        wsum_below(keys, w, nk + 1, n) == wsum_below(keys, w, nk, n) + wsum_key(keys, w, nk, n),
    decreases n,
{
    if n > 0 {
        lemma_wsum_split(keys, w, nk, n - 1);
    }
}

proof fn lemma_wsum_below_le(keys: Seq<u8>, w: spec_fn(int) -> int, v: spec_fn(int) -> int, nk: int, n: int)
    requires
        forall|i: int| 0 <= i < n ==> 0 <= #[trigger] w(i) <= v(i),
    ensures
        0 <= wsum_below(keys, w, nk, n) <= wsum(v, n),
    decreases n,
{
    if n > 0 {
        lemma_wsum_below_le(keys, w, v, nk, n - 1);
    }
}

proof fn lemma_bucket_len(keys: Seq<u8>, k: int, n: int)
    ensures
        bucket(keys, k, n).len() == wsum_key(keys, |i: int| 1int, k, n),
    decreases n,
{
    if n > 0 {
        lemma_bucket_len(keys, k, n - 1);
    }
}

proof fn lemma_bucket_order_len(keys: Seq<u8>, nk: int)
    requires
        nk >= 0,
    ensures
        bucket_order(keys, nk).len() == wsum_below(keys, |i: int| 1int, nk, keys.len() as int),
    decreases nk,
{
    if nk > 0 {
        lemma_bucket_order_len(keys, nk - 1);
        lemma_bucket_len(keys, nk - 1, keys.len() as int);
        lemma_wsum_split(keys, |i: int| 1int, nk - 1, keys.len() as int);
    } else {
        lemma_wsum_zero(keys, |i: int| 1int, keys.len() as int);
    }
}

proof fn lemma_wsum_zero(keys: Seq<u8>, w: spec_fn(int) -> int, n: int)
    ensures
        wsum_below(keys, w, 0, n) == 0,
    decreases n,
{
    if n > 0 {
        lemma_wsum_zero(keys, w, n - 1);
    }
}

proof fn lemma_rows_for_append(a: Seq<usize>, b: Seq<usize>, todos: Seq<TodoView>)
    ensures
        rows_for(a + b, todos) == rows_for(a, todos) + rows_for(b, todos),
    decreases b.len(),
{
    if b.len() == 0 {
        assert(a + b =~= a);
        assert(rows_for(a, todos) + rows_for(b, todos) =~= rows_for(a, todos));
    } else {
        assert((a + b).drop_last() =~= a + b.drop_last());
        lemma_rows_for_append(a, b.drop_last(), todos);
        assert(rows_for(a + b, todos) =~= rows_for(a, todos) + rows_for(b, todos));
    }
}

proof fn lemma_block_len(t: TodoView, i: usize)
    ensures
        todo_block(t, i).len() <= block_len(t),
{
    let sk = subtask_keys(t);
    lemma_bucket_order_len(sk, 3);
    lemma_wsum_below_le(sk, |j: int| 1int, |j: int| 1int, 3, sk.len() as int);
    lemma_wsum_ones(sk.len() as int);
}

proof fn lemma_wsum_ones(n: int)
    requires
        n >= 0,
    ensures
        wsum(|j: int| 1int, n) == n,
    decreases n,
{
    if n > 0 {
        lemma_wsum_ones(n - 1);
    }
}

proof fn lemma_rows_bucket_len(keys: Seq<u8>, todos: Seq<TodoView>, k: int, n: int)
    requires
        0 <= n <= keys.len(),
        keys.len() <= usize::MAX,
    ensures
        rows_for(bucket(keys, k, n), todos).len() <= wsum_key(keys, |i: int| block_len(todos[i]), k, n),
    decreases n,
{
    if n > 0 {
        lemma_rows_bucket_len(keys, todos, k, n - 1);
        let prev = bucket(keys, k, n - 1);
        if keys[n - 1] == k {
            let one = seq![(n - 1) as usize];
            lemma_rows_for_append(prev, one, todos);
            assert(one.drop_last() =~= Seq::<usize>::empty());
            assert(one.last() == (n - 1) as usize);
            assert(((n - 1) as usize) as int == n - 1);
            assert(rows_for(one.drop_last(), todos).len() == 0);
            assert(rows_for(one, todos) =~= rows_for(one.drop_last(), todos) + todo_block(
                todos[n - 1],
                (n - 1) as usize,
            ));
            assert(rows_for(one, todos) =~= todo_block(todos[n - 1], (n - 1) as usize));
            assert(bucket(keys, k, n) == prev + one);
            lemma_block_len(todos[n - 1], (n - 1) as usize);
        } else {
            assert(bucket(keys, k, n) =~= prev);
        }
    }
}

proof fn lemma_rows_order_len(keys: Seq<u8>, todos: Seq<TodoView>, nk: int)
    requires
        nk >= 0,
        keys.len() <= usize::MAX,
    ensures
        rows_for(bucket_order(keys, nk), todos).len() <= wsum_below(
            keys,
            |i: int| block_len(todos[i]),
            nk,
            keys.len() as int,
        ),
    decreases nk,
{
    if nk > 0 {
        lemma_rows_order_len(keys, todos, nk - 1);
        lemma_rows_for_append(
            bucket_order(keys, nk - 1),
            bucket(keys, nk - 1, keys.len() as int),
            todos,
        );
        lemma_rows_bucket_len(keys, todos, nk - 1, keys.len() as int);
        lemma_wsum_split(keys, |i: int| block_len(todos[i]), nk - 1, keys.len() as int);
    } else {
        lemma_wsum_zero(keys, |i: int| block_len(todos[i]), keys.len() as int);
    }
}

/// The shown rows of a state whose lists fit in `usize` can be indexed by
/// `usize` too.
pub proof fn lemma_rows_fit(a: AppView)
    requires
        a.fits(),
    ensures
        a.visible_rows().len() <= usize::MAX,
{
    if a.selected_group < a.groups.len() {
        let sg = a.selected_group as int;
        let todos = a.groups[sg].todos;
        let keys = todo_keys(a, sg);
        assert(item_count(todos) <= usize::MAX);
        lemma_rows_order_len(keys, todos, todo_key_count());
        lemma_wsum_below_le(
            keys,
            |i: int| block_len(todos[i]),
            |i: int| 1int + todos[i].subtasks.len() as int,
            todo_key_count(),
            keys.len() as int,
        );
    }
}

proof fn lemma_bucket_order_contains(keys: Seq<u8>, nk: int, i: int)
    requires
        keys.len() <= usize::MAX,
        0 <= i < keys.len(),
        0 <= keys[i] < nk,
        nk <= 256,
    ensures
        bucket_order(keys, nk).contains(i as usize),
    decreases nk,
{
    if nk > 0 {
        let a = bucket_order(keys, nk - 1);
        let b = bucket(keys, nk - 1, keys.len() as int);
        if keys[i] < nk - 1 {
            lemma_bucket_order_contains(keys, nk - 1, i);
            let x = choose|x: int| 0 <= x < a.len() && a[x] == i as usize;
            assert(bucket_order(keys, nk)[x] == i as usize);
        } else {
            lemma_bucket_elems(keys, nk - 1, keys.len() as int);
            assert(b.contains(i as usize));
            let x = choose|x: int| 0 <= x < b.len() && b[x] == i as usize;
            assert(bucket_order(keys, nk)[a.len() + x] == i as usize);
        }
    }
}

proof fn lemma_bucket_order_keys(keys: Seq<u8>, nk: int)
    requires
        keys.len() <= usize::MAX,
    ensures
        forall|x: int|
            0 <= x < bucket_order(keys, nk).len() ==> keys[#[trigger] bucket_order(keys, nk)[x] as int] < nk,
    decreases nk,
{
    if nk > 0 {
        lemma_bucket_order_keys(keys, nk - 1);
        lemma_bucket_elems(keys, nk - 1, keys.len() as int);
        let a = bucket_order(keys, nk - 1);
        let b = bucket(keys, nk - 1, keys.len() as int);
        assert forall|x: int| 0 <= x < bucket_order(keys, nk).len() implies keys[#[trigger] bucket_order(
            keys,
            nk,
        )[x] as int] < nk by {
            if x < a.len() {
                assert(bucket_order(keys, nk)[x] == a[x]);
            } else {
                assert(bucket_order(keys, nk)[x] == b[x - a.len()]);
            }
        }
    }
}

/// Rows of the blocks of the todos in `order`: which rows occur.
proof fn lemma_rows_for_members(order: Seq<usize>, todos: Seq<TodoView>, r: RowRef)
    requires
        forall|x: int| 0 <= x < order.len() ==> order[x] < todos.len(),
        todos.len() <= usize::MAX,
        forall|i: int| 0 <= i < todos.len() ==> (#[trigger] todos[i]).subtasks.len() <= usize::MAX,
    ensures
        rows_for(order, todos).contains(r) <==> match r {
            RowRef::Todo(i) => order.contains(i),
            RowRef::Sub(i, j) => order.contains(i) && i < todos.len() && !todos[i as int].collapsed
                && j < todos[i as int].subtasks.len(),
        },
    decreases order.len(),
{
    if order.len() > 0 {
        let prev = order.drop_last();
        let i0 = order.last();
        let t = todos[i0 as int];
        let blk = todo_block(t, i0);
        let rows = rows_for(order, todos);
        let prows = rows_for(prev, todos);
        lemma_rows_for_members(prev, todos, r);
        assert(rows =~= prows + blk);
        let so = bucket_order(subtask_keys(t), 3);
        lemma_bucket_order_bound(subtask_keys(t), 3);
        assert(forall|x: int| 0 <= x < prev.len() ==> prev[x] == order[x]);
        // membership in the last block
        let in_blk = match r {
            RowRef::Todo(i) => i == i0,
            RowRef::Sub(i, j) => i == i0 && !t.collapsed && j < t.subtasks.len(),
        };
        assert(blk.contains(r) <==> in_blk) by {
            if in_blk {
                match r {
                    RowRef::Todo(i) => {
                        assert(blk[0] == r);
                    },
                    RowRef::Sub(i, j) => {
                        assert(subtask_keys(t)[j as int] < 3);
                        lemma_bucket_order_contains(subtask_keys(t), 3, j as int);
                        let x = choose|x: int| 0 <= x < so.len() && so[x] == j;
                        assert(blk[1 + x] == r);
                    },
                }
            }
            if blk.contains(r) {
                let x = choose|x: int| 0 <= x < blk.len() && blk[x] == r;
                if x > 0 {
                    assert(blk[x] == RowRef::Sub(i0, so[x - 1]));
                }
            }
        }
        assert(rows.contains(r) <==> (prows.contains(r) || blk.contains(r))) by {
            if rows.contains(r) {
                let x = choose|x: int| 0 <= x < rows.len() && rows[x] == r;
                if x < prows.len() {
                    assert(prows[x] == r);
                } else {
                    assert(blk[x - prows.len()] == r);
                }
            }
            if prows.contains(r) {
                let x = choose|x: int| 0 <= x < prows.len() && prows[x] == r;
                assert(rows[x] == r);
            }
            if blk.contains(r) {
                let x = choose|x: int| 0 <= x < blk.len() && blk[x] == r;
                assert(rows[prows.len() + x] == r);
            }
        }
        match r {
            RowRef::Todo(i) => {
                assert(order.contains(i) <==> (prev.contains(i) || i == i0)) by {
                    if order.contains(i) {
                        let x = choose|x: int| 0 <= x < order.len() && order[x] == i;
                        if x < prev.len() {
                            assert(prev[x] == i);
                        }
                    }
                    if prev.contains(i) {
                        let x = choose|x: int| 0 <= x < prev.len() && prev[x] == i;
                        assert(order[x] == i);
                    }
                    if i == i0 {
                        assert(order[order.len() - 1] == i);
                    }
                }
            },
            RowRef::Sub(i, j) => {
                assert(order.contains(i) <==> (prev.contains(i) || i == i0)) by {
                    if order.contains(i) {
                        let x = choose|x: int| 0 <= x < order.len() && order[x] == i;
                        if x < prev.len() {
                            assert(prev[x] == i);
                        }
                    }
                    if prev.contains(i) {
                        let x = choose|x: int| 0 <= x < prev.len() && prev[x] == i;
                        assert(order[x] == i);
                    }
                    if i == i0 {
                        assert(order[order.len() - 1] == i);
                    }
                }
            },
        }
    } else {
        assert(rows_for(order, todos).len() == 0);
    }
}

/// A row is shown exactly when it exists, its todo passes the search filter
/// and, for a subtask, its todo is unfolded.
pub proof fn lemma_visible_iff_shows(a: AppView, r: RowRef)
    requires
        a.fits(),
    ensures
        a.visible_rows().contains(r) <==> a.shows(r),
{
    if a.selected_group < a.groups.len() {
        let sg = a.selected_group as int;
        let g = a.groups[sg];
        let keys = todo_keys(a, sg);
        let order = a.todo_order();
        lemma_bucket_order_bound(keys, todo_key_count());
        lemma_bucket_order_keys(keys, todo_key_count());
        assert(g.todos.len() <= usize::MAX);
        assert forall|i: int| 0 <= i < g.todos.len() implies (#[trigger] g.todos[i]).subtasks.len()
            <= usize::MAX by {
            assert(a.groups[sg].todos[i].subtasks.len() <= usize::MAX);
        }
        lemma_rows_for_members(order, g.todos, r);
        let i = match r {
            RowRef::Todo(i) => i,
            RowRef::Sub(i, _) => i,
        };
        if i < g.todos.len() {
            let vis = title_visible(a.search_query, g.todos[i as int].title);
            if vis {
                assert(keys[i as int] < 18) by {
                    crate::rows::lemma_todo_sort_key_bound(a.timer, a.selected_group, i as int, g.todos[i as int]);
                }
                lemma_bucket_order_contains(keys, todo_key_count(), i as int);
            } else {
                assert(keys[i as int] == 255);
                if order.contains(i) {
                    let x = choose|x: int| 0 <= x < order.len() && order[x] == i;
                    assert(keys[order[x] as int] < 18);
                }
            }
        } else {
            if order.contains(i) {
                let x = choose|x: int| 0 <= x < order.len() && order[x] == i;
                assert(order[x] < keys.len());
            }
        }
    }
}

/// Selecting a shown row makes it the current row.
pub proof fn lemma_select_shown_row(a: AppView, r: RowRef)
    requires
        a.fits(),
        a.visible_rows().contains(r),
    ensures
        a.select_row(r).current_row() == Some(r),
{
    lemma_rows_fit(a);
    lemma_first_position(a.visible_rows(), r);
    let b = a.select_row(r);
    assert(todo_keys(b, b.selected_group as int) =~= todo_keys(a, a.selected_group as int));
    assert(b.visible_rows() == a.visible_rows());
    match first_position(a.visible_rows(), r) {
        Some(k) => {},
        None => {
            let x = choose|x: int| 0 <= x < a.visible_rows().len() && a.visible_rows()[x] == r;
        },
    }
}

/// The current row is one of the shown rows.
proof fn lemma_current_row_shown(a: AppView)
    requires
        a.current_row() is Some,
    ensures
        a.visible_rows().contains(a.current_row()->0),
{
    assert(a.visible_rows()[a.selected as int] == a.current_row()->0);
}

// ---------------------------------------------------------------------------
// Laws.
// ---------------------------------------------------------------------------

/// Cycling the status of the selected row keeps that row selected, although
/// the list may be reordered by the new status.
pub proof fn law_cycle_status_keeps_selection(a: AppView)
    requires
        a.fits(),
        a.current_row() is Some,
    ensures
        a.cycle_status().current_row() == a.current_row(),
{
    let r = a.current_row()->0;
    lemma_current_row_shown(a);
    lemma_visible_iff_shows(a, r);
    crate::rows::lemma_current_row_valid(a);
    let sg = a.selected_group as int;
    let b = match r {
        RowRef::Todo(i) => {
            let t = a.groups[sg].todos[i as int];
            let next = next_status(t.status);
            let a1 = a.with_todo(sg, i as int, crate::edit::cascade_status(t, next));
            let stop = next == TodoStatus::Done && match a.timer {
                Some(tm) => tm.target == (TimerTarget { group: a.selected_group, todo: i }),
                None => false,
            };
            let a2 = if stop {
                AppView { timer: None, ..a1 }
            } else {
                a1
            };
            AppView { dirty: true, ..a2 }
        },
        RowRef::Sub(i, j) => {
            let s = a.groups[sg].todos[i as int].subtasks[j as int];
            let subs = a.groups[sg].todos[i as int].subtasks.update(
                j as int,
                crate::model::SubTaskView { status: next_status(s.status), ..s },
            );
            AppView { dirty: true, ..a.with_subtasks(sg, i as int, subs) }
        },
    };
    assert(b.shows(r));
    lemma_item_count_same(a.groups[sg].todos, b.groups[sg].todos);
    assert(b.fits());
    lemma_visible_iff_shows(b, r);
    lemma_select_shown_row(b, r);
}

/// Two states list the same rows, possibly in another order: same group
/// selection and filter, same todos with the same titles, folding and
/// number of subtasks.
pub open spec fn same_layout(a: AppView, b: AppView) -> bool {
    &&& a.selected_group == b.selected_group
    &&& a.search_query == b.search_query
    &&& a.groups.len() == b.groups.len()
    &&& forall|g: int|
        0 <= g < a.groups.len() ==> (#[trigger] a.groups[g]).todos.len() == b.groups[g].todos.len()
    &&& forall|g: int, i: int|
        0 <= g < a.groups.len() && 0 <= i < a.groups[g].todos.len() ==> {
            let x = #[trigger] a.groups[g].todos[i];
            let y = b.groups[g].todos[i];
            x.title == y.title && x.collapsed == y.collapsed && x.subtasks.len() == y.subtasks.len()
        }
}

proof fn lemma_same_layout(a: AppView, b: AppView, r: RowRef)
    requires
        a.fits(),
        same_layout(a, b),
    ensures
        b.fits(),
        a.shows(r) == b.shows(r),
{
    assert forall|g: int| 0 <= g < b.groups.len() implies item_count(#[trigger] b.groups[g].todos)
        <= usize::MAX by {
        assert forall|i: int| 0 <= i < a.groups[g].todos.len() implies (#[trigger] a.groups[g].todos[i]).subtasks.len()
            == b.groups[g].todos[i].subtasks.len() by {}
        lemma_item_count_same(a.groups[g].todos, b.groups[g].todos);
    }
    assert forall|g: int, i: int|
        0 <= g < b.groups.len() && 0 <= i < b.groups[g].todos.len() implies (
        #[trigger] b.groups[g].todos[i]).subtasks.len() <= usize::MAX by {
        assert(a.groups[g].todos[i].subtasks.len() <= usize::MAX);
    }
    assert forall|g: int| 0 <= g < b.groups.len() implies (#[trigger] b.groups[g]).todos.len()
        <= usize::MAX by {
        assert(a.groups[g].todos.len() <= usize::MAX);
    }
}

/// Selecting `r` in `b` after a change that keeps the layout of `a`, where
/// `r` was shown, makes `r` the current row.
proof fn lemma_reselect(a: AppView, b: AppView, r: RowRef)
    requires
        a.fits(),
        same_layout(a, b),
        a.visible_rows().contains(r),
    ensures
        b.select_row(r).current_row() == Some(r),
{
    lemma_visible_iff_shows(a, r);
    lemma_same_layout(a, b, r);
    lemma_visible_iff_shows(b, r);
    lemma_select_shown_row(b, r);
}

/// Cycling the priority of the selected todo keeps it selected, although
/// the list may be reordered by the new priority.
pub proof fn law_cycle_priority_keeps_selection(a: AppView)
    requires
        a.fits(),
        a.current_row() is Some,
    ensures
        a.cycle_priority().current_row() == a.current_row(),
{
    let r = a.current_row()->0;
    lemma_current_row_shown(a);
    crate::rows::lemma_current_row_valid(a);
    match r {
        RowRef::Todo(i) => {
            let sg = a.selected_group as int;
            let t = a.groups[sg].todos[i as int];
            let b = AppView {
                dirty: true,
                ..a.with_todo(sg, i as int, TodoView { priority: crate::model::next_priority(t.priority), ..t })
            };
            assert(same_layout(a, b));
            lemma_reselect(a, b, r);
        },
        RowRef::Sub(_, _) => {},
    }
}

/// Starting, pausing or resuming the timer on the selected todo keeps it
/// selected, although the list may be reordered around the timer's todo.
pub proof fn law_toggle_timer_keeps_selection(a: AppView)
    requires
        a.fits(),
        a.current_row() is Some,
    ensures
        a.toggle_timer().current_row() == a.current_row(),
{
    let r = a.current_row()->0;
    lemma_current_row_shown(a);
    crate::rows::lemma_current_row_valid(a);
    let sg = a.selected_group as int;
    match r {
        RowRef::Todo(i) => {
            let target = TimerTarget { group: a.selected_group, todo: i };
            match a.timer {
                Some(tm) => {
                    if tm.target == target {
                        let b = a.toggle_timer();
                        assert(todo_keys(b, sg) =~= todo_keys(a, sg));
                        assert(b.visible_rows() == a.visible_rows());
                    }
                },
                None => {
                    let t = a.groups[sg].todos[i as int];
                    if t.status != TodoStatus::Done {
                        let a1 = if t.status != TodoStatus::InProgress {
                            AppView {
                                dirty: true,
                                ..a.with_todo(
                                    sg,
                                    i as int,
                                    crate::edit::cascade_status(t, TodoStatus::InProgress),
                                )
                            }
                        } else {
                            a
                        };
                        let b = AppView {
                            timer: Some(
                                crate::model::TimerView {
                                    target,
                                    remaining: crate::model::pomodoro_nanos(),
                                    running: true,
                                },
                            ),
                            ..a1
                        };
                        assert(same_layout(a, b));
                        lemma_reselect(a, b, r);
                    }
                },
            }
        },
        RowRef::Sub(_, _) => {},
    }
}

/// Cancelling the timer keeps the selected row selected.
pub proof fn law_cancel_timer_keeps_selection(a: AppView)
    requires
        a.fits(),
        a.current_row() is Some,
    ensures
        a.cancel_timer().current_row() == a.current_row(),
{
    let r = a.current_row()->0;
    lemma_current_row_shown(a);
    let b = AppView { timer: None, mode: crate::focus::leave_zen(a.mode), ..a };
    assert(same_layout(a, b));
    lemma_reselect(a, b, r);
}

/// Undo after a deletion puts the deleted todo or subtask back where it
/// was, in the same group, and selects it again; the timer is on the same
/// todo as before unless that todo was the one deleted; the state is marked
/// for saving, and a second undo changes nothing.
pub proof fn law_undo_restores_deleted(a: AppView)
    requires
        a.fits(),
        a.current_row() is Some,
    ensures
        a.delete_selected().undo().groups == a.groups,
        a.delete_selected().undo().selected_group == a.selected_group,
        a.delete_selected().undo().current_row() == a.current_row(),
        a.delete_selected().undo().last_deleted is None,
        a.delete_selected().undo().dirty,
        a.delete_selected().undo().undo() == a.delete_selected().undo(),
        (!(a.current_row() matches Some(RowRef::Todo(i)) && a.timer matches Some(tm) && tm.target
            == (TimerTarget { group: a.selected_group, todo: i })) ==> a.delete_selected().undo().timer
            == a.timer),
{
    let r = a.current_row()->0;
    lemma_current_row_shown(a);
    lemma_visible_iff_shows(a, r);
    crate::rows::lemma_current_row_valid(a);
    let sg = a.selected_group as int;
    let d = a.delete_selected();
    let todos = a.groups[sg].todos;
    match r {
        RowRef::Todo(i) => {
            let rest = todos.remove(i as int);
            assert(d.groups[sg].todos == rest);
            assert(d.last_deleted == Some(DeletedView::Todo { group: a.selected_group, index: i, item: todos[i as int] }));
            assert(rest.insert(i as int, todos[i as int]) =~= todos);
            let u = d.undo();
            let pre = AppView {
                timer: crate::edit::timer_after_todo_inserted(d.timer, a.selected_group, i),
                selected_group: a.selected_group,
                dirty: true,
                ..AppView { last_deleted: None, ..d }.with_todos(sg, todos)
            };
            assert(pre.groups =~= a.groups);
            assert(u == pre.select_row(r));
            assert(same_layout(a, pre));
            lemma_reselect(a, pre, r);
            assert(todo_keys(u, sg) =~= todo_keys(pre, sg));
        },
        RowRef::Sub(i, j) => {
            let t = todos[i as int];
            let rest = t.subtasks.remove(j as int);
            assert(d.groups[sg].todos[i as int].subtasks == rest);
            assert(rest.insert(j as int, t.subtasks[j as int]) =~= t.subtasks);
            let u = d.undo();
            let dt = d.groups[sg].todos[i as int];
            let pre = AppView {
                selected_group: a.selected_group,
                dirty: true,
                ..AppView { last_deleted: None, ..d }.with_todo(
                    sg,
                    i as int,
                    TodoView { subtasks: dt.subtasks.insert(j as int, t.subtasks[j as int]), collapsed: false, ..dt },
                )
            };
            assert(pre.groups[sg].todos[i as int] =~= t);
            assert(pre.groups[sg].todos =~= todos);
            assert(pre.groups =~= a.groups);
            assert(u == pre.select_row(r));
            assert(same_layout(a, pre));
            lemma_reselect(a, pre, r);
        },
    }
}


// ---------------------------------------------------------------------------
// Rows that do not depend on what changed.
// ---------------------------------------------------------------------------

proof fn lemma_rows_for_congruent(order: Seq<usize>, a: Seq<TodoView>, b: Seq<TodoView>)
    requires
        forall|x: int| 0 <= x < order.len() ==> (#[trigger] order[x]) < a.len(),
        forall|i: int| 0 <= i < a.len() ==> todo_block(#[trigger] a[i], i as usize) == todo_block(b[i], i as usize),
    ensures
        rows_for(order, a) == rows_for(order, b),
    decreases order.len(),
{
    if order.len() > 0 {
        lemma_rows_for_congruent(order.drop_last(), a, b);
        let i = order.last();
        assert(order[order.len() - 1] == i);
        assert(todo_block(a[i as int], (i as int) as usize) == todo_block(b[i as int], (i as int) as usize));
    }
}

/// Two states whose selected group lists the same todos with the same
/// titles, statuses, priorities, folding and subtask statuses, under the
/// same filter and timer, show the same rows.
proof fn lemma_same_rows(a: AppView, b: AppView)
    requires
        a.selected_group == b.selected_group,
        a.selected_group < a.groups.len(),
        a.groups.len() == b.groups.len(),
        a.search_query == b.search_query,
        a.timer == b.timer,
        a.groups[a.selected_group as int].todos.len() == b.groups[a.selected_group as int].todos.len(),
        forall|i: int|
            0 <= i < a.groups[a.selected_group as int].todos.len() ==> {
                let x = #[trigger] a.groups[a.selected_group as int].todos[i];
                let y = b.groups[a.selected_group as int].todos[i];
                &&& x.title == y.title
                &&& x.status == y.status
                &&& x.priority == y.priority
                &&& x.collapsed == y.collapsed
                &&& subtask_keys(x) == subtask_keys(y)
            },
    ensures
        b.visible_rows() == a.visible_rows(),
{
    let sg = a.selected_group as int;
    let ta = a.groups[sg].todos;
    let tb = b.groups[sg].todos;
    assert(todo_keys(b, sg) =~= todo_keys(a, sg));
    lemma_bucket_order_bound(todo_keys(a, sg), todo_key_count());
    assert forall|i: int| 0 <= i < ta.len() implies todo_block(#[trigger] ta[i], i as usize) == todo_block(tb[i], i as usize) by {
        assert(subtask_keys(ta[i]) == subtask_keys(tb[i]));
    }
    lemma_rows_for_congruent(a.todo_order(), ta, tb);
}

/// Committing notes keeps the selected row selected and stores the edited
/// text as that row's notes.
pub proof fn law_commit_notes_stores_buffer(a: AppView)
    requires
        a.current_row() is Some,
    ensures
        a.commit_notes().current_row() == a.current_row(),
        a.commit_notes().current_notes() == Some(a.notes_buffer),
{
    crate::rows::lemma_current_row_valid(a);
    let b = a.commit_notes();
    let sg = a.selected_group as int;
    match a.current_row()->0 {
        RowRef::Todo(i) => {
            assert forall|k: int| 0 <= k < a.groups[sg].todos.len() implies {
                let x = #[trigger] a.groups[sg].todos[k];
                let y = b.groups[sg].todos[k];
                &&& x.title == y.title
                &&& x.status == y.status
                &&& x.priority == y.priority
                &&& x.collapsed == y.collapsed
                &&& subtask_keys(x) == subtask_keys(y)
            } by {
                assert(subtask_keys(a.groups[sg].todos[k]) =~= subtask_keys(b.groups[sg].todos[k]));
            }
        },
        RowRef::Sub(i, j) => {
            assert forall|k: int| 0 <= k < a.groups[sg].todos.len() implies {
                let x = #[trigger] a.groups[sg].todos[k];
                let y = b.groups[sg].todos[k];
                &&& x.title == y.title
                &&& x.status == y.status
                &&& x.priority == y.priority
                &&& x.collapsed == y.collapsed
                &&& subtask_keys(x) == subtask_keys(y)
            } by {
                assert(subtask_keys(a.groups[sg].todos[k]) =~= subtask_keys(b.groups[sg].todos[k]));
            }
        },
    }
    lemma_same_rows(a, b);
}

// ---------------------------------------------------------------------------
// Modes, groups and the timer.
// ---------------------------------------------------------------------------

/// Pressing help twice from the normal view or the help overlay gives the
/// same state back.
pub proof fn law_toggle_help_twice(a: AppView)
    requires
        a.mode == AppMode::Normal || a.mode == AppMode::Help,
    ensures
        a.toggle_help().toggle_help() == a,
{
}

/// Pausing and resuming the timer (or resuming and pausing it) gives the
/// same state back.
pub proof fn law_toggle_active_timer_twice(a: AppView)
    ensures
        a.toggle_active_timer().toggle_active_timer() == a,
{
    match a.timer {
        Some(tm) => {
            assert(TimerView { running: !!tm.running, ..tm } == tm);
        },
        None => {},
    }
}

/// A paused timer ignores time.
pub proof fn law_paused_timer_ignores_time(a: AppView, elapsed: nat)
    requires
        (a.timer matches Some(tm) && !tm.running),
    ensures
        a.tick_timer(elapsed) == a,
{
}

/// Before the end of a session, two ticks count down as much as one tick of
/// their sum.
pub proof fn law_ticks_add_up(a: AppView, e1: nat, e2: nat)
    requires
        (a.timer matches Some(tm) && e1 + e2 < tm.remaining),
    ensures
        a.tick_timer(e1).tick_timer(e2) == a.tick_timer(e1 + e2),
{
    let tm = a.timer->0;
    if tm.running {
        let t1 = TimerView { remaining: (tm.remaining - e1) as nat, ..tm };
        assert(a.tick_timer(e1).timer == Some(t1));
        assert(TimerView { remaining: (t1.remaining - e2) as nat, ..t1 } == TimerView {
            remaining: (tm.remaining - (e1 + e2)) as nat,
            ..tm
        });
    }
}

/// Switching to the shown group or to a group that does not exist changes
/// nothing.
pub proof fn law_switch_group_noop(a: AppView, index: usize)
    requires
        index >= a.groups.len() || index == a.selected_group,
    ensures
        a.switch_group(index) == a,
{
}

/// The previous group after the next one is the group shown before, and
/// the groups themselves do not change.
pub proof fn law_prev_group_undoes_next_group(a: AppView)
    requires
        1 < a.groups.len() <= usize::MAX,
        a.selected_group < a.groups.len(),
    ensures
        a.next_group().prev_group().selected_group == a.selected_group,
        a.next_group().prev_group().groups == a.groups,
        a.prev_group().next_group().selected_group == a.selected_group,
        a.prev_group().next_group().groups == a.groups,
{
    let n = a.groups.len() as int;
    let sg = a.selected_group as int;
    vstd::arithmetic::div_mod::lemma_small_mod(sg as nat, n as nat);
    crate::nav::lemma_next_index(sg, n);
    crate::nav::lemma_prev_index(sg, n);
    let up = if sg + 1 < n {
        sg + 1
    } else {
        0
    };
    let down = if sg == 0 {
        n - 1
    } else {
        sg - 1
    };
    assert((sg + 1) % n == up);
    assert((sg + n - 1) % n == down);
    let b = a.next_group();
    assert(b.selected_group == up);
    assert(b.groups == a.groups);
    vstd::arithmetic::div_mod::lemma_small_mod(up as nat, n as nat);
    crate::nav::lemma_prev_index(up, n);
    assert((up + n - 1) % n == sg);
    assert(b.prev_group().selected_group == sg);
    let c = a.prev_group();
    assert(c.selected_group == down);
    vstd::arithmetic::div_mod::lemma_small_mod(down as nat, n as nat);
    crate::nav::lemma_next_index(down, n);
    assert((down + 1) % n == sg);
    assert(c.next_group().selected_group == sg);
}

/// Deleting a group never deletes the last one, and the shown group is
/// always one that exists afterwards.
pub proof fn law_group_delete_keeps_a_group(a: AppView)
    requires
        a.groups.len() >= 1,
        a.selected_group < a.groups.len(),
    ensures
        a.confirm_group_delete().groups.len() >= 1,
        a.confirm_group_delete().selected_group < a.confirm_group_delete().groups.len(),
        a.groups.len() > 1 ==> a.confirm_group_delete().groups.len() == a.groups.len() - 1,
        a.groups.len() == 1 ==> a.confirm_group_delete().groups == a.groups,
{
}

/// A repaired state has a group, shows an existing group, has its cursor
/// on a shown row (or at 0 when none is shown), and needs no further repair.
pub proof fn law_normalize_loaded_state(a: AppView)
    ensures
        a.normalize_loaded_state().groups.len() >= 1,
        a.normalize_loaded_state().selected_group < a.normalize_loaded_state().groups.len(),
        a.normalize_loaded_state().selected < a.normalize_loaded_state().visible_rows().len()
            || (a.normalize_loaded_state().visible_rows().len() == 0
            && a.normalize_loaded_state().selected == 0),
        a.normalize_loaded_state().normalize_loaded_state() == (AppView {
            dirty: false,
            ..a.normalize_loaded_state()
        }),
{
    let b = a.normalize_loaded_state();
    let repaired = a.groups.len() == 0;
    let groups = if repaired {
        seq![GroupView { name: crate::app::default_group_name(), todos: Seq::empty() }]
    } else {
        a.groups
    };
    let last = (groups.len() - 1) as usize;
    let a1 = AppView {
        groups,
        selected_group: if a.selected_group < last {
            a.selected_group
        } else {
            last
        },
        ..a
    };
    let a2 = a1.clamp_selection();
    assert(todo_keys(a2, a2.selected_group as int) =~= todo_keys(a1, a1.selected_group as int));
    assert(a2.visible_rows() == a1.visible_rows());
    assert(todo_keys(b, b.selected_group as int) =~= todo_keys(a1, a1.selected_group as int));
    assert(b.visible_rows() == a1.visible_rows());
    let c1 = AppView { selected_group: b.selected_group, groups: b.groups, ..b };
    assert(c1 == b);
    assert(todo_keys(b.clamp_selection(), b.selected_group as int) =~= todo_keys(b, b.selected_group as int));
}


// ---------------------------------------------------------------------------
// Search.
// ---------------------------------------------------------------------------

/// `p` lists increasing positions of `c` at which the characters of `q`
/// occur, in order.
pub open spec fn embeds(p: Seq<int>, q: Seq<char>, c: Seq<char>) -> bool {
    &&& p.len() == q.len()
    &&& forall|i: int| 0 <= i < p.len() ==> 0 <= #[trigger] p[i] < c.len() && c[p[i]] == q[i]
    &&& forall|i: int, j: int| 0 <= i < j < p.len() ==> #[trigger] p[i] < #[trigger] p[j]
}

/// The characters of `q` occur in `c` in order, not necessarily together.
pub open spec fn is_subsequence(q: Seq<char>, c: Seq<char>) -> bool {
    exists|p: Seq<int>| embeds(p, q, c)
}

proof fn lemma_first_index_found(c: Seq<char>, x: char, from: int, j: int)
    requires
        0 <= from <= j < c.len(),
        c[j] == x,
    ensures
        first_index_from(c, x, from) matches Some(k) && k <= j,
    decreases j - from,
{
    if c[from] != x {
        lemma_first_index_found(c, x, from + 1, j);
    }
}

proof fn lemma_greedy_sound(c: Seq<char>, q: Seq<char>)
    ensures
        greedy_positions(c, q) matches Some(p) ==> embeds(p, q, c),
    decreases q.len(),
{
    if q.len() > 0 {
        lemma_greedy_sound(c, q.drop_last());
        match greedy_positions(c, q.drop_last()) {
            None => {},
            Some(p) => {
                let from = if p.len() == 0 {
                    0
                } else {
                    p.last() + 1
                };
                crate::search::lemma_first_index_from(c, q.last(), from);
                match first_index_from(c, q.last(), from) {
                    Some(k) => {
                        let p2 = p.push(k);
                        assert forall|i: int| 0 <= i < p2.len() implies 0 <= #[trigger] p2[i] < c.len()
                            && c[p2[i]] == q[i] by {
                            if i < p.len() {
                                assert(q.drop_last()[i] == q[i]);
                            }
                        }
                        assert forall|i: int, j: int| 0 <= i < j < p2.len() implies #[trigger] p2[i]
                            < #[trigger] p2[j] by {
                            if j == p.len() && i < p.len() - 1 {
                                assert(p[i] < p[p.len() - 1]);
                            }
                        }
                    },
                    None => {},
                }
            },
        }
    }
}

proof fn lemma_greedy_complete(c: Seq<char>, q: Seq<char>, e: Seq<int>)
    requires
        embeds(e, q, c),
    ensures
        greedy_positions(c, q) matches Some(p) && p.len() == q.len() && forall|i: int|
            0 <= i < p.len() ==> #[trigger] p[i] <= e[i],
    decreases q.len(),
{
    if q.len() > 0 {
        let q1 = q.drop_last();
        let e1 = e.drop_last();
        assert forall|i: int| 0 <= i < e1.len() implies 0 <= #[trigger] e1[i] < c.len() && c[e1[i]]
            == q1[i] by {
            assert(e1[i] == e[i]);
        }
        assert forall|i: int, j: int| 0 <= i < j < e1.len() implies #[trigger] e1[i]
            < #[trigger] e1[j] by {
            assert(e[i] < e[j]);
        }
        lemma_greedy_complete(c, q1, e1);
        lemma_greedy_sound(c, q1);
        let p = greedy_positions(c, q1)->0;
        if p.len() > 0 {
            assert(0 <= p[p.len() - 1]);
        }
        let from = if p.len() == 0 {
            0
        } else {
            p.last() + 1
        };
        let last = e[e.len() - 1];
        assert(0 <= e[e.len() - 1] < c.len() && c[e[e.len() - 1]] == q[q.len() - 1]);
        if p.len() > 0 {
            assert(p[p.len() - 1] <= e1[p.len() - 1]);
            assert(e1[p.len() - 1] == e[e.len() - 2]);
            assert(e[e.len() - 2] < e[e.len() - 1]);
        }
        assert(c[last] == q[q.len() - 1]);
        lemma_first_index_found(c, q.last(), from, last);
        let k = first_index_from(c, q.last(), from)->0;
        let p2 = p.push(k);
        assert(greedy_positions(c, q) == Some(p2));
        assert forall|i: int| 0 <= i < p2.len() implies #[trigger] p2[i] <= e[i] by {
            if i < p.len() {
                assert(p2[i] == p[i]);
                assert(e1[i] == e[i]);
            }
        }
    }
}

/// A non-empty query matches a candidate exactly when its lowercased
/// characters occur in order in the lowercased candidate; the empty query
/// matches everything.
pub proof fn law_fuzzy_matches_subsequences(candidate: Seq<char>, query: Seq<char>)
    ensures
        fuzzy(candidate, query) is Some <==> (query.len() == 0 || is_subsequence(
            lowercase(query),
            lowercase(candidate),
        )),
{
    if query.len() > 0 {
        let c = lowercase(candidate);
        let q = lowercase(query);
        lemma_greedy_sound(c, q);
        if is_subsequence(q, c) {
            let e = choose|e: Seq<int>| embeds(e, q, c);
            lemma_greedy_complete(c, q, e);
        }
        if greedy_positions(c, q) is Some {
            let p = greedy_positions(c, q)->0;
            assert(embeds(p, q, c));
        }
    }
}

/// Scores are in non-increasing order.
pub open spec fn ranked_best_first(s: Seq<(int, SearchHit)>) -> bool {
    forall|i: int, j: int| 0 <= i < j < s.len() ==> (#[trigger] s[i]).0 >= (#[trigger] s[j]).0
}

proof fn lemma_insert_pos(sorted: Seq<(int, SearchHit)>, s: int)
    requires
        ranked_best_first(sorted),
    ensures
        0 <= insert_pos(sorted, s) <= sorted.len(),
        forall|j: int| 0 <= j < insert_pos(sorted, s) ==> (#[trigger] sorted[j]).0 >= s,
        forall|j: int| insert_pos(sorted, s) <= j < sorted.len() ==> (#[trigger] sorted[j]).0 < s,
    decreases sorted.len(),
{
    if sorted.len() > 0 && sorted[0].0 >= s {
        let rest = sorted.drop_first();
        assert forall|i: int, j: int| 0 <= i < j < rest.len() implies (#[trigger] rest[i]).0
            >= (#[trigger] rest[j]).0 by {
            assert(sorted[i + 1].0 >= sorted[j + 1].0);
        }
        lemma_insert_pos(rest, s);
        assert forall|j: int| 0 <= j < insert_pos(sorted, s) implies (#[trigger] sorted[j]).0 >= s by {
            if j > 0 {
                assert(sorted[j] == rest[j - 1]);
            }
        }
        assert forall|j: int| insert_pos(sorted, s) <= j < sorted.len() implies (
        #[trigger] sorted[j]).0 < s by {
            assert(sorted[j] == rest[j - 1]);
        }
    } else if sorted.len() > 0 {
        assert forall|j: int| 0 <= j < sorted.len() implies (#[trigger] sorted[j]).0 < s by {
            if j > 0 {
                assert(sorted[0].0 >= sorted[j].0);
            }
        }
    }
}

proof fn lemma_insert_all(sorted: Seq<(int, SearchHit)>, items: Seq<(int, SearchHit)>)
    requires
        ranked_best_first(sorted),
    ensures
        ranked_best_first(insert_all(sorted, items)),
        insert_all(sorted, items).to_multiset() == sorted.to_multiset().add(items.to_multiset()),
    decreases items.len(),
{
    broadcast use vstd::multiset::group_multiset_axioms;
    if items.len() == 0 {
        vstd::seq_lib::to_multiset_len(items);
        vstd::multiset::lemma_multiset_empty_len(items.to_multiset());
        assert(sorted.to_multiset().add(items.to_multiset()) =~= sorted.to_multiset());
    } else {
        let s1 = insert_all(sorted, items.drop_last());
        lemma_insert_all(sorted, items.drop_last());
        let x = items.last();
        let k = insert_pos(s1, x.0);
        lemma_insert_pos(s1, x.0);
        let s2 = s1.insert(k, x);
        assert forall|i: int, j: int| 0 <= i < j < s2.len() implies (#[trigger] s2[i]).0 >= (
        #[trigger] s2[j]).0 by {
            if i < k {
                assert(s2[i] == s1[i]);
                if j < k {
                    assert(s2[j] == s1[j]);
                } else if j > k {
                    assert(s2[j] == s1[j - 1]);
                }
            } else if i == k {
                assert(s2[j] == s1[j - 1]);
            } else {
                assert(s2[i] == s1[i - 1]);
                assert(s2[j] == s1[j - 1]);
            }
        }
        vstd::seq_lib::to_multiset_insert(s1, k, x);
        assert(items =~= items.drop_last().push(x));
        vstd::seq_lib::to_multiset_build(items.drop_last(), x);
        assert(s2.to_multiset() =~= sorted.to_multiset().add(items.to_multiset()));
    }
}

/// Ranking orders the hits best first and keeps every hit: it is a
/// permutation of its input.
pub proof fn law_rank_best_first(items: Seq<(int, SearchHit)>)
    ensures
        ranked_best_first(rank(items)),
        rank(items).to_multiset() == items.to_multiset(),
{
    broadcast use vstd::multiset::group_multiset_axioms;
    let e = Seq::<(int, SearchHit)>::empty();
    lemma_insert_all(e, items);
    vstd::seq_lib::to_multiset_len(e);
    vstd::multiset::lemma_multiset_empty_len(e.to_multiset());
    assert(e.to_multiset().add(items.to_multiset()) =~= items.to_multiset());
}


// ---------------------------------------------------------------------------
// Wrapping notes.
// ---------------------------------------------------------------------------

/// The columns a line of wrapped notes takes.
pub open spec fn line_width(l: Seq<char>) -> int
    decreases l.len(),
{
    if l.len() == 0 {
        0
    } else {
        line_width(l.drop_last()) + wrap_width(l.last())
    }
}

/// A wrapped line holds no newline and fits in `w` columns, unless it is a
/// single character wider than the panel.
pub open spec fn line_fits(l: Seq<char>, w: int) -> bool {
    !l.contains('\n') && (line_width(l) <= w || l.len() == 1)
}

/// The text without its newlines.
pub open spec fn without_newlines(t: Seq<char>) -> Seq<char>
    decreases t.len(),
{
    if t.len() == 0 {
        t
    } else if t.last() == '\n' {
        without_newlines(t.drop_last())
    } else {
        without_newlines(t.drop_last()).push(t.last())
    }
}

proof fn lemma_wrap_state(text: Seq<char>, w: int)
    requires
        w >= 0,
    ensures
        ({
            let (lines, cur, cw) = wrap_state(text, char_widths(text), w);
            &&& cw == line_width(cur)
            &&& line_fits(cur, w)
            &&& forall|i: int| 0 <= i < lines.len() ==> line_fits(#[trigger] lines[i], w)
            &&& lines.flatten() + cur == without_newlines(text)
        }),
    decreases text.len(),
{
    if text.len() == 0 {
        assert(Seq::<Seq<char>>::empty().flatten() + Seq::<char>::empty() =~= Seq::<char>::empty());
        assert(!Seq::<char>::empty().contains('\n'));
    } else {
        let t0 = text.drop_last();
        lemma_wrap_state(t0, w);
        assert(char_widths(text).drop_last() =~= char_widths(t0));
        let (lines, cur, cw) = wrap_state(t0, char_widths(t0), w);
        let c = text.last();
        assert(char_widths(text).last() == wrap_width(c));
        lines.lemma_flatten_push(cur);
        if c == '\n' {
            let nl = lines.push(cur);
            assert forall|i: int| 0 <= i < nl.len() implies line_fits(#[trigger] nl[i], w) by {
                if i < lines.len() {
                    assert(nl[i] == lines[i]);
                }
            }
            assert(nl.flatten() + Seq::<char>::empty() =~= lines.flatten() + cur);
            assert(!Seq::<char>::empty().contains('\n'));
        } else if cw + wrap_width(c) > w {
            let nl = lines.push(cur);
            let one = seq![c];
            assert(one.drop_last() =~= Seq::<char>::empty());
            assert(one.last() == c);
            assert(line_width(one.drop_last()) == 0);
            assert(line_width(one) == wrap_width(c));
            assert(!one.contains('\n')) by {
                assert forall|k: int| 0 <= k < one.len() implies one[k] != '\n' by {}
            }
            assert forall|i: int| 0 <= i < nl.len() implies line_fits(#[trigger] nl[i], w) by {
                if i < lines.len() {
                    assert(nl[i] == lines[i]);
                }
            }
            assert(nl.flatten() + one =~= (lines.flatten() + cur).push(c));
        } else {
            let cur2 = cur.push(c);
            assert(cur2.drop_last() =~= cur);
            assert(line_width(cur2) == cw + wrap_width(c));
            assert(!cur2.contains('\n')) by {
                assert forall|k: int| 0 <= k < cur2.len() implies cur2[k] != '\n' by {
                    if k < cur.len() {
                        assert(cur2[k] == cur[k]);
                    }
                }
            }
            assert(lines.flatten() + cur2 =~= (lines.flatten() + cur).push(c));
        }
    }
}

/// Wrapped notes keep every character but the newlines, in order, and each
/// line fits in the panel's width (a character wider than the panel gets a
/// line of its own).
pub proof fn law_wrapped_lines_fit_and_keep_text(text: Seq<char>, w: int)
    requires
        w >= 0,
    ensures
        forall|i: int|
            0 <= i < wrapped_lines(text, char_widths(text), w).len() ==> line_fits(
                #[trigger] wrapped_lines(text, char_widths(text), w)[i],
                w,
            ),
        wrapped_lines(text, char_widths(text), w).flatten() == without_newlines(text),
{
    lemma_wrap_state(text, w);
    let (lines, cur, cw) = wrap_state(text, char_widths(text), w);
    let all = lines.push(cur);
    lines.lemma_flatten_push(cur);
    assert forall|i: int| 0 <= i < all.len() implies line_fits(#[trigger] all[i], w) by {
        if i < lines.len() {
            assert(all[i] == lines[i]);
        }
    }
}

// ---------------------------------------------------------------------------
// Ordering of the list.
// ---------------------------------------------------------------------------

/// Ordering positions by key is a stable sort: keys never decrease along
/// the order, and positions with equal keys keep their storage order.
pub proof fn law_bucket_order_is_stable_sort(keys: Seq<u8>, nk: int)
    requires
        keys.len() <= usize::MAX,
    ensures
        forall|x: int, y: int|
            0 <= x < y < bucket_order(keys, nk).len() ==> {
                let i = #[trigger] bucket_order(keys, nk)[x];
                let j = #[trigger] bucket_order(keys, nk)[y];
                keys[i as int] < keys[j as int] || (keys[i as int] == keys[j as int] && i < j)
            },
    decreases nk,
{
    if nk > 0 {
        law_bucket_order_is_stable_sort(keys, nk - 1);
        crate::rows::lemma_bucket_order_elems(keys, nk - 1);
        lemma_bucket_elems(keys, nk - 1, keys.len() as int);
        let a = bucket_order(keys, nk - 1);
        let b = bucket(keys, nk - 1, keys.len() as int);
        let o = bucket_order(keys, nk);
        assert(o == a + b);
        assert forall|x: int, y: int| 0 <= x < y < o.len() implies {
            let i = #[trigger] o[x];
            let j = #[trigger] o[y];
            keys[i as int] < keys[j as int] || (keys[i as int] == keys[j as int] && i < j)
        } by {
            if y < a.len() {
                assert(o[x] == a[x] && o[y] == a[y]);
            } else if x < a.len() {
                assert(o[x] == a[x] && o[y] == b[y - a.len()]);
            } else {
                assert(o[x] == b[x - a.len()] && o[y] == b[y - a.len()]);
            }
        }
    }
}

/// The todos of the shown group are listed by their sort key (status, then
/// the timer's todo, then priority), ties in storage order; subtasks are
/// listed by status, ties in storage order.
pub proof fn law_list_is_sorted(a: AppView)
    requires
        a.fits(),
        a.selected_group < a.groups.len(),
    ensures
        forall|x: int, y: int|
            0 <= x < y < a.todo_order().len() ==> {
                let keys = todo_keys(a, a.selected_group as int);
                let i = #[trigger] a.todo_order()[x];
                let j = #[trigger] a.todo_order()[y];
                keys[i as int] < keys[j as int] || (keys[i as int] == keys[j as int] && i < j)
            },
        forall|t: TodoView, x: int, y: int|
            t.subtasks.len() <= usize::MAX && 0 <= x < y < bucket_order(subtask_keys(t), 3).len() ==> {
                let i = #[trigger] bucket_order(subtask_keys(t), 3)[x];
                let j = #[trigger] bucket_order(subtask_keys(t), 3)[y];
                subtask_keys(t)[i as int] < subtask_keys(t)[j as int] || (subtask_keys(t)[i as int]
                    == subtask_keys(t)[j as int] && i < j)
            },
{
    let sg = a.selected_group as int;
    assert(a.groups[sg].todos.len() <= usize::MAX);
    law_bucket_order_is_stable_sort(todo_keys(a, sg), todo_key_count());
    assert forall|t: TodoView, x: int, y: int|
        t.subtasks.len() <= usize::MAX && 0 <= x < y < bucket_order(subtask_keys(t), 3).len() implies {
            let i = #[trigger] bucket_order(subtask_keys(t), 3)[x];
            let j = #[trigger] bucket_order(subtask_keys(t), 3)[y];
            subtask_keys(t)[i as int] < subtask_keys(t)[j as int] || (subtask_keys(t)[i as int]
                == subtask_keys(t)[j as int] && i < j)
        } by {
        law_bucket_order_is_stable_sort(subtask_keys(t), 3);
    }
}

// ---------------------------------------------------------------------------
// Statuses, folding and focus sessions.
// ---------------------------------------------------------------------------

/// Cycling the status of a todo moves it to its next status and gives every
/// one of its subtasks that same status.
pub proof fn law_status_cascades_to_subtasks(a: AppView, i: usize)
    requires
        a.current_row() == Some(RowRef::Todo(i)),
    ensures
        ({
            let sg = a.selected_group as int;
            let before = a.groups[sg].todos[i as int];
            let after = a.cycle_status().groups[sg].todos[i as int];
            &&& after.status == next_status(before.status)
            &&& after.subtasks.len() == before.subtasks.len()
            &&& forall|j: int| 0 <= j < after.subtasks.len() ==> (#[trigger] after.subtasks[j]).status == after.status
        }),
{
    crate::rows::lemma_current_row_valid(a);
}

/// The todo whose row, or one of whose subtask rows, is `r`.
pub open spec fn row_parent(r: RowRef) -> usize {
    match r {
        RowRef::Todo(i) => i,
        RowRef::Sub(i, _) => i,
    }
}

proof fn lemma_fold_step(a: AppView, parent: usize)
    requires
        a.fits(),
        a.current_row() matches Some(r) && row_parent(r) == parent,
        a.shows(RowRef::Todo(parent)),
        a.groups[a.selected_group as int].todos[parent as int].subtasks.len() > 0,
    ensures
        ({
            let sg = a.selected_group as int;
            let t = a.groups[sg].todos[parent as int];
            let b = a.toggle_collapse();
            &&& b.fits()
            &&& b.groups == a.with_todo(sg, parent as int, TodoView { collapsed: !t.collapsed, ..t }).groups
            &&& b.selected_group == a.selected_group
            &&& b.search_query == a.search_query
            &&& b.current_row() == Some(RowRef::Todo(parent))
            &&& b.shows(RowRef::Todo(parent))
        }),
{
    let sg = a.selected_group as int;
    let t = a.groups[sg].todos[parent as int];
    let tr = RowRef::Todo(parent);
    let b0 = a.with_todo(sg, parent as int, TodoView { collapsed: !t.collapsed, ..t });
    assert forall|k: int| 0 <= k < a.groups[sg].todos.len() implies (#[trigger] a.groups[sg].todos[k]).subtasks.len()
        == b0.groups[sg].todos[k].subtasks.len() by {}
    lemma_item_count_same(a.groups[sg].todos, b0.groups[sg].todos);
    assert(b0.fits());
    assert(b0.shows(tr));
    lemma_visible_iff_shows(b0, tr);
    lemma_select_shown_row(b0, tr);
    let b1 = b0.select_row(tr);
    assert(b1.current_row() == Some(tr));
    let b = b1.clamp_selection();
    assert(b == b1);
    assert(a.toggle_collapse() == b);
}

/// Folding a todo's subtasks and unfolding them again gives the same todos
/// back, with the todo selected.
pub proof fn law_fold_twice_restores(a: AppView)
    requires
        a.fits(),
        a.current_row() matches Some(r) && a.groups[a.selected_group as int].todos[row_parent(
            r,
        ) as int].subtasks.len() > 0,
    ensures
        a.toggle_collapse().toggle_collapse().groups == a.groups,
        a.toggle_collapse().current_row() == Some(RowRef::Todo(row_parent(a.current_row()->0))),
        a.toggle_collapse().toggle_collapse().current_row() == Some(
            RowRef::Todo(row_parent(a.current_row()->0)),
        ),
{
    let r = a.current_row()->0;
    let parent = row_parent(r);
    let sg = a.selected_group as int;
    lemma_current_row_shown(a);
    lemma_visible_iff_shows(a, r);
    crate::rows::lemma_current_row_valid(a);
    assert(a.shows(RowRef::Todo(parent)));
    lemma_fold_step(a, parent);
    let b = a.toggle_collapse();
    assert(row_parent(RowRef::Todo(parent)) == parent);
    lemma_fold_step(b, parent);
    assert(b.toggle_collapse().groups[sg].todos =~= a.groups[sg].todos);
    assert(b.toggle_collapse().groups =~= a.groups);
}

/// Entering Zen mode on a selected todo that is not done, with no timer
/// running, starts a full pomodoro on it and shows Zen mode; the todo is in
/// progress.
pub proof fn law_enter_zen_starts_a_session(a: AppView, i: usize)
    requires
        a.current_row() == Some(RowRef::Todo(i)),
        a.timer is None,
        a.groups[a.selected_group as int].todos[i as int].status != TodoStatus::Done,
    ensures
        a.enter_zen_mode().mode == AppMode::Zen,
        a.enter_zen_mode().timer == Some(
            TimerView {
                target: TimerTarget { group: a.selected_group, todo: i },
                remaining: crate::model::pomodoro_nanos(),
                running: true,
            },
        ),
        a.enter_zen_mode().groups[a.selected_group as int].todos[i as int].status
            == TodoStatus::InProgress,
{
    crate::rows::lemma_current_row_valid(a);
}

/// When a running session reaches its end, the timer stops, its todo earns
/// one pomodoro (the count stays at 255 once there) and Zen mode ends.
pub proof fn law_session_end_earns_one_pomodoro(a: AppView, tm: TimerView, elapsed: nat)
    requires
        a.timer == Some(tm),
        tm.running,
        elapsed >= tm.remaining,
        a.target_valid(tm.target),
    ensures
        a.tick_timer(elapsed).timer is None,
        a.tick_timer(elapsed).mode != AppMode::Zen,
        a.tick_timer(elapsed).groups[tm.target.group as int].todos[tm.target.todo as int].pomodoros
            == crate::focus::saturating_inc(
            a.groups[tm.target.group as int].todos[tm.target.todo as int].pomodoros,
        ),
{
}

/// On the timer's own todo, `t` pauses and a second `t` resumes (or the
/// other way round): the state is as before.
pub proof fn law_toggle_timer_twice_on_its_todo(a: AppView, tm: TimerView, i: usize)
    requires
        a.timer == Some(tm),
        a.current_row() == Some(RowRef::Todo(i)),
        tm.target == (TimerTarget { group: a.selected_group, todo: i }),
    ensures
        a.toggle_timer().toggle_timer() == a,
{
    let b = a.toggle_timer();
    assert(b == AppView { timer: Some(TimerView { running: !tm.running, ..tm }), ..a });
    assert(todo_keys(b, a.selected_group as int) =~= todo_keys(a, a.selected_group as int));
    assert(b.visible_rows() == a.visible_rows());
    assert(b.current_row() == a.current_row());
    assert(TimerView { running: !!tm.running, ..tm } == tm);
}

/// Deleting a todo other than the timer's keeps the timer on the same todo,
/// wherever that todo moves in its list.
pub proof fn law_delete_keeps_the_timer_on_its_todo(a: AppView, i: usize, tm: TimerView)
    requires
        a.current_row() == Some(RowRef::Todo(i)),
        a.timer == Some(tm),
        a.target_valid(tm.target),
        tm.target != (TimerTarget { group: a.selected_group, todo: i }),
    ensures
        a.delete_selected().active_timer_todo() matches Some((g, t)) && t == a.groups[tm.target.group as int].todos[tm.target.todo as int],
{
    crate::rows::lemma_current_row_valid(a);
    let sg = a.selected_group as int;
    let d = a.delete_selected();
    let todos = a.groups[sg].todos;
    assert(d.groups[sg].todos == todos.remove(i as int));
    if tm.target.group == a.selected_group {
        if tm.target.todo > i {
            assert(todos.remove(i as int)[tm.target.todo - 1] == todos[tm.target.todo as int]);
        } else {
            assert(todos.remove(i as int)[tm.target.todo as int] == todos[tm.target.todo as int]);
        }
    }
}

// ---------------------------------------------------------------------------
// What the search finds.
// ---------------------------------------------------------------------------

/// Some scored item of `s` is the hit `h`.
pub open spec fn has_hit(s: Seq<(int, SearchHit)>, h: SearchHit) -> bool {
    exists|x: int| 0 <= x < s.len() && (#[trigger] s[x]).1 == h
}

proof fn lemma_has_hit_concat(a: Seq<(int, SearchHit)>, b: Seq<(int, SearchHit)>, h: SearchHit)
    ensures
        has_hit(a + b, h) <==> has_hit(a, h) || has_hit(b, h),
{
    if has_hit(a + b, h) {
        let x = choose|x: int| 0 <= x < (a + b).len() && (#[trigger] (a + b)[x]).1 == h;
        if x < a.len() {
            assert(a[x] == (a + b)[x]);
        } else {
            assert(b[x - a.len()] == (a + b)[x]);
        }
    }
    if has_hit(a, h) {
        let x = choose|x: int| 0 <= x < a.len() && (#[trigger] a[x]).1 == h;
        assert((a + b)[x] == a[x]);
    }
    if has_hit(b, h) {
        let x = choose|x: int| 0 <= x < b.len() && (#[trigger] b[x]).1 == h;
        assert((a + b)[a.len() + x] == b[x]);
    }
}

proof fn lemma_has_hit_scored(sc: Option<int>, hit: SearchHit, h: SearchHit)
    ensures
        has_hit(scored(sc, hit), h) <==> (sc is Some && hit == h),
{
    if sc is Some {
        assert(scored(sc, hit)[0].1 == hit);
    }
}

proof fn lemma_subtask_hits(
    gi: usize,
    ti: usize,
    base: Option<int>,
    subs: Seq<SubTaskView>,
    q: Seq<char>,
    n: int,
    h: SearchHit,
)
    requires
        0 <= n <= subs.len() <= usize::MAX,
    ensures
        has_hit(subtask_hits(gi, ti, base, subs, q, n), h) <==> (h.group == gi && (h.row matches RowRef::Sub(
            t,
            j,
        ) && t == ti && j < n && best(base, fuzzy(subs[j as int].title, q)) is Some)),
    decreases n,
{
    if n > 0 {
        lemma_subtask_hits(gi, ti, base, subs, q, n - 1, h);
        let hit = SearchHit { group: gi, row: RowRef::Sub(ti, (n - 1) as usize) };
        let sc = best(base, fuzzy(subs[n - 1].title, q));
        lemma_has_hit_concat(subtask_hits(gi, ti, base, subs, q, n - 1), scored(sc, hit), h);
        lemma_has_hit_scored(sc, hit, h);
    }
}

proof fn lemma_todo_hits(
    gi: usize,
    gscore: Option<int>,
    todos: Seq<TodoView>,
    q: Seq<char>,
    n: int,
    h: SearchHit,
)
    requires
        0 <= n <= todos.len() <= usize::MAX,
        forall|i: int| 0 <= i < todos.len() ==> (#[trigger] todos[i]).subtasks.len() <= usize::MAX,
    ensures
        has_hit(todo_hits(gi, gscore, todos, q, n), h) <==> (h.group == gi && match h.row {
            RowRef::Todo(i) => i < n && best(gscore, fuzzy(todos[i as int].title, q)) is Some,
            RowRef::Sub(i, j) => i < n && j < todos[i as int].subtasks.len() && best(
                best(gscore, fuzzy(todos[i as int].title, q)),
                fuzzy(todos[i as int].subtasks[j as int].title, q),
            ) is Some,
        }),
    decreases n,
{
    if n > 0 {
        lemma_todo_hits(gi, gscore, todos, q, n - 1, h);
        let t = todos[n - 1];
        let b = best(gscore, fuzzy(t.title, q));
        let ti = (n - 1) as usize;
        let hit = SearchHit { group: gi, row: RowRef::Todo(ti) };
        let prev = todo_hits(gi, gscore, todos, q, n - 1);
        let subs = subtask_hits(gi, ti, b, t.subtasks, q, t.subtasks.len() as int);
        assert(todo_hits(gi, gscore, todos, q, n) == prev + scored(b, hit) + subs);
        lemma_has_hit_concat(prev + scored(b, hit), subs, h);
        lemma_has_hit_concat(prev, scored(b, hit), h);
        lemma_has_hit_scored(b, hit, h);
        lemma_subtask_hits(gi, ti, b, t.subtasks, q, t.subtasks.len() as int, h);
    }
}

/// Whether hit `h` names an existing todo or subtask whose own title, or
/// the title of a todo or group above it, matches the query `q`.
pub open spec fn hit_matches(groups: Seq<GroupView>, q: Seq<char>, h: SearchHit) -> bool {
    &&& h.group < groups.len()
    &&& row_valid(groups[h.group as int], h.row)
    &&& {
        let g = groups[h.group as int];
        match h.row {
            RowRef::Todo(i) => fuzzy(g.name, q) is Some || fuzzy(g.todos[i as int].title, q) is Some,
            RowRef::Sub(i, j) => fuzzy(g.name, q) is Some || fuzzy(g.todos[i as int].title, q) is Some
                || fuzzy(g.todos[i as int].subtasks[j as int].title, q) is Some,
        }
    }
}

proof fn lemma_group_hits(groups: Seq<GroupView>, q: Seq<char>, n: int, h: SearchHit)
    requires
        0 <= n <= groups.len() <= usize::MAX,
        forall|g: int| 0 <= g < groups.len() ==> (#[trigger] groups[g]).todos.len() <= usize::MAX,
        forall|g: int, i: int|
            0 <= g < groups.len() && 0 <= i < groups[g].todos.len() ==> (
            #[trigger] groups[g].todos[i]).subtasks.len() <= usize::MAX,
    ensures
        has_hit(group_hits(groups, q, n), h) <==> (h.group < n && hit_matches(groups, q, h)),
    decreases n,
{
    if n > 0 {
        lemma_group_hits(groups, q, n - 1, h);
        let g = groups[n - 1];
        let gi = (n - 1) as usize;
        let prev = group_hits(groups, q, n - 1);
        let th = todo_hits(gi, fuzzy(g.name, q), g.todos, q, g.todos.len() as int);
        lemma_has_hit_concat(prev, th, h);
        assert forall|i: int| 0 <= i < g.todos.len() implies (#[trigger] g.todos[i]).subtasks.len()
            <= usize::MAX by {
            assert(groups[n - 1].todos[i].subtasks.len() <= usize::MAX);
        }
        lemma_todo_hits(gi, fuzzy(g.name, q), g.todos, q, g.todos.len() as int, h);
    }
}

/// The search lists exactly the todos and subtasks that match the trimmed
/// query through their own title or the title of a todo or group above
/// them, in every group, folded or not.
pub proof fn law_search_finds_exactly_the_matches(a: AppView, h: SearchHit)
    requires
        a.fits(),
    ensures
        a.search_results().contains(h) <==> hit_matches(a.groups, trimmed(a.search_query), h),
{
    let q = trimmed(a.search_query);
    let gh = group_hits(a.groups, q, a.groups.len() as int);
    let ranked = rank(gh);
    law_rank_best_first(gh);
    lemma_group_hits(a.groups, q, a.groups.len() as int, h);
    let res = a.search_results();
    assert(res == ranked.map_values(|p: (int, SearchHit)| p.1));
    if res.contains(h) {
        let x = choose|x: int| 0 <= x < res.len() && res[x] == h;
        let e = ranked[x];
        assert(ranked.contains(e));
        vstd::seq_lib::to_multiset_contains(ranked, e);
        vstd::seq_lib::to_multiset_contains(gh, e);
        let y = choose|y: int| 0 <= y < gh.len() && gh[y] == e;
        assert(has_hit(gh, h));
    }
    if hit_matches(a.groups, q, h) {
        assert(has_hit(gh, h));
        let y = choose|y: int| 0 <= y < gh.len() && (#[trigger] gh[y]).1 == h;
        let e = gh[y];
        assert(gh.contains(e));
        vstd::seq_lib::to_multiset_contains(gh, e);
        vstd::seq_lib::to_multiset_contains(ranked, e);
        let x = choose|x: int| 0 <= x < ranked.len() && ranked[x] == e;
        assert(res[x] == h);
    }
}

/// Confirming a search hit closes the search and shows the hit selected in
/// its group; a hit subtask's todo is unfolded for it.
pub proof fn law_confirm_search_selects_the_hit(a: AppView)
    requires
        a.fits(),
        a.search_selected < a.search_results().len(),
    ensures
        ({
            let hit = a.search_results()[a.search_selected as int];
            let b = a.confirm_search();
            &&& b.selected_group == hit.group
            &&& b.current_row() == Some(hit.row)
            &&& b.mode == AppMode::Normal
            &&& b.search_query.len() == 0
        }),
{
    let hits = a.search_results();
    let hit = hits[a.search_selected as int];
    assert(hits.contains(hit));
    law_search_finds_exactly_the_matches(a, hit);
    let a1 = match hit.row {
        RowRef::Sub(ti, _) => {
            let t = a.groups[hit.group as int].todos[ti as int];
            a.with_todo(hit.group as int, ti as int, TodoView { collapsed: false, ..t })
        },
        RowRef::Todo(_) => a,
    };
    let g = hit.group as int;
    assert forall|k: int| 0 <= k < a.groups[g].todos.len() implies (#[trigger] a.groups[g].todos[k]).subtasks.len()
        == a1.groups[g].todos[k].subtasks.len() by {}
    lemma_item_count_same(a.groups[g].todos, a1.groups[g].todos);
    assert(a1.fits());
    let a2 = a1.switch_group(hit.group);
    let a3 = AppView { search_query: Seq::empty(), search_selected: 0, mode: AppMode::Normal, ..a2 };
    assert(a3.groups == a1.groups);
    assert(a3.fits());
    assert(a3.selected_group == hit.group);
    assert(a3.shows(hit.row));
    lemma_visible_iff_shows(a3, hit.row);
    lemma_select_shown_row(a3, hit.row);
    assert(a.confirm_search() == a3.select_row(hit.row));
}

/// Whatever was typed in a search and wherever its cursor went, cancelling
/// it returns to the list as it was before the search.
pub proof fn law_cancel_search_keeps_the_place(a: AppView, q: Seq<char>, sel: usize)
    requires
        a.search_query.len() == 0,
    ensures
        (AppView { search_query: q, search_selected: sel, mode: AppMode::Search, ..a }).cancel_search().selected_group
            == a.selected_group,
        (AppView { search_query: q, search_selected: sel, mode: AppMode::Search, ..a }).cancel_search().current_row()
            == a.current_row(),
{
    let b = (AppView { search_query: q, search_selected: sel, mode: AppMode::Search, ..a }).cancel_search();
    assert(b.search_query =~= a.search_query);
    assert(todo_keys(b, b.selected_group as int) =~= todo_keys(a, a.selected_group as int));
    assert(b.visible_rows() == a.visible_rows());
}


// ---------------------------------------------------------------------------
// What each editing operation changes, and nothing else.
// ---------------------------------------------------------------------------

/// Deleting a group removes the group under the popup cursor (the last one
/// when the cursor is past the end), whatever group is shown; a shown group
/// other than the deleted one stays shown.
pub proof fn law_group_delete_removes_the_group_under_the_cursor(a: AppView)
    requires
        a.groups.len() > 1,
    ensures
        ({
            let k = if a.category_cursor < a.groups.len() {
                a.category_cursor as int
            } else {
                a.groups.len() - 1
            };
            let b = a.confirm_group_delete();
            &&& b.groups == a.groups.remove(k)
            &&& (a.selected_group < a.groups.len() && a.selected_group != k) ==> b.groups[b.selected_group as int]
                == a.groups[a.selected_group as int]
        }),
{
    let k = if a.category_cursor < a.groups.len() {
        a.category_cursor as int
    } else {
        a.groups.len() - 1
    };
    let b = a.confirm_group_delete();
    let sg = a.selected_group as int;
    if a.selected_group < a.groups.len() && sg != k {
        if sg > k {
            assert(a.groups.remove(k)[sg - 1] == a.groups[sg]);
        } else {
            assert(a.groups.remove(k)[sg] == a.groups[sg]);
        }
    }
}

/// Editing the selected subtask and committing a non-blank text renames
/// that subtask to the trimmed text; every other item, and every field
/// but that title, stays as it was.
pub proof fn law_edit_renames_the_selected_subtask(a: AppView, i: usize, j: usize, buf: Seq<char>)
    requires
        a.current_row() == Some(RowRef::Sub(i, j)),
        trimmed(buf).len() > 0,
    ensures
        ({
            let sg = a.selected_group as int;
            let b = (AppView { input_buffer: buf, ..a.enter_edit_mode() }).commit_input();
            let t = a.groups[sg].todos[i as int];
            let u = b.groups[sg].todos[i as int];
            &&& b.groups.len() == a.groups.len()
            &&& forall|g: int| 0 <= g < a.groups.len() && g != sg ==> #[trigger] b.groups[g] == a.groups[g]
            &&& b.groups[sg].name == a.groups[sg].name
            &&& b.groups[sg].todos.len() == a.groups[sg].todos.len()
            &&& forall|k: int|
                0 <= k < a.groups[sg].todos.len() && k != i ==> #[trigger] b.groups[sg].todos[k]
                    == a.groups[sg].todos[k]
            &&& u == (TodoView { subtasks: u.subtasks, ..t })
            &&& u.subtasks.len() == t.subtasks.len()
            &&& forall|l: int| 0 <= l < t.subtasks.len() && l != j ==> #[trigger] u.subtasks[l] == t.subtasks[l]
            &&& u.subtasks[j as int] == (SubTaskView { title: trimmed(buf), ..t.subtasks[j as int] })
        }),
{
    crate::rows::lemma_current_row_valid(a);
    let sg = a.selected_group as int;
    let t = a.groups[sg].todos[i as int];
    if t.subtasks[j as int].title == trimmed(buf) {
        assert(t.subtasks[j as int] == (SubTaskView { title: trimmed(buf), ..t.subtasks[j as int] }));
    }
}

/// Editing the selected todo and committing a non-blank text renames that
/// todo to the trimmed text; every other item, and every field but that
/// title, stays as it was.
pub proof fn law_edit_renames_the_selected_todo(a: AppView, i: usize, buf: Seq<char>)
    requires
        a.current_row() == Some(RowRef::Todo(i)),
        trimmed(buf).len() > 0,
    ensures
        ({
            let sg = a.selected_group as int;
            let b = (AppView { input_buffer: buf, ..a.enter_edit_mode() }).commit_input();
            &&& b.groups.len() == a.groups.len()
            &&& forall|g: int| 0 <= g < a.groups.len() && g != sg ==> #[trigger] b.groups[g] == a.groups[g]
            &&& b.groups[sg].name == a.groups[sg].name
            &&& b.groups[sg].todos.len() == a.groups[sg].todos.len()
            &&& forall|k: int|
                0 <= k < a.groups[sg].todos.len() && k != i ==> #[trigger] b.groups[sg].todos[k]
                    == a.groups[sg].todos[k]
            &&& b.groups[sg].todos[i as int] == (TodoView {
                title: trimmed(buf),
                ..a.groups[sg].todos[i as int]
            })
        }),
{
    crate::rows::lemma_current_row_valid(a);
    let sg = a.selected_group as int;
    let t = a.groups[sg].todos[i as int];
    if t.title == trimmed(buf) {
        assert(t == (TodoView { title: trimmed(buf), ..t }));
    }
}

/// Space on a subtask moves that subtask, and nothing else, one step along
/// to do, in progress, done, and back to to do.
pub proof fn law_cycle_status_on_a_subtask(a: AppView, i: usize, j: usize)
    requires
        a.current_row() == Some(RowRef::Sub(i, j)),
    ensures
        ({
            let sg = a.selected_group as int;
            let b = a.cycle_status();
            let t = a.groups[sg].todos[i as int];
            let u = b.groups[sg].todos[i as int];
            let before = t.subtasks[j as int].status;
            let after = u.subtasks[j as int].status;
            &&& before == TodoStatus::Todo ==> after == TodoStatus::InProgress
            &&& before == TodoStatus::InProgress ==> after == TodoStatus::Done
            &&& before == TodoStatus::Done ==> after == TodoStatus::Todo
            &&& u.subtasks[j as int] == (SubTaskView { status: after, ..t.subtasks[j as int] })
            &&& b.groups.len() == a.groups.len()
            &&& forall|g: int| 0 <= g < a.groups.len() && g != sg ==> #[trigger] b.groups[g] == a.groups[g]
            &&& b.groups[sg].name == a.groups[sg].name
            &&& b.groups[sg].todos.len() == a.groups[sg].todos.len()
            &&& forall|k: int|
                0 <= k < a.groups[sg].todos.len() && k != i ==> #[trigger] b.groups[sg].todos[k]
                    == a.groups[sg].todos[k]
            &&& u == (TodoView { subtasks: u.subtasks, ..t })
            &&& u.subtasks.len() == t.subtasks.len()
            &&& forall|l: int| 0 <= l < t.subtasks.len() && l != j ==> #[trigger] u.subtasks[l] == t.subtasks[l]
        }),
{
    crate::rows::lemma_current_row_valid(a);
}

/// Completing the focus session marks the timer's todo and all its
/// subtasks done, in the timer's group whatever group is shown; every other
/// todo stays as it was; the timer is dropped and the normal view returns.
pub proof fn law_complete_session_finishes_the_timer_todo(a: AppView, tm: TimerView)
    requires
        a.timer == Some(tm),
        a.target_valid(tm.target),
    ensures
        ({
            let g = tm.target.group as int;
            let i = tm.target.todo as int;
            let b = a.complete_active_timer_todo();
            let t = a.groups[g].todos[i];
            let u = b.groups[g].todos[i];
            &&& b.timer is None
            &&& b.mode == AppMode::Normal
            &&& b.groups.len() == a.groups.len()
            &&& forall|h: int| 0 <= h < a.groups.len() && h != g ==> #[trigger] b.groups[h] == a.groups[h]
            &&& b.groups[g].name == a.groups[g].name
            &&& b.groups[g].todos.len() == a.groups[g].todos.len()
            &&& forall|k: int|
                0 <= k < a.groups[g].todos.len() && k != i ==> #[trigger] b.groups[g].todos[k]
                    == a.groups[g].todos[k]
            &&& u == (TodoView { status: TodoStatus::Done, subtasks: u.subtasks, ..t })
            &&& u.subtasks.len() == t.subtasks.len()
            &&& forall|l: int|
                0 <= l < t.subtasks.len() ==> #[trigger] u.subtasks[l] == (SubTaskView {
                    status: TodoStatus::Done,
                    ..t.subtasks[l]
                })
        }),
{
}

/// Undoing the deletion of a todo puts it back in its group at its old
/// place (at the end when the list got shorter), shows that group, and
/// selects the todo, whatever group was shown before; the todo must pass
/// the search filter to be shown.
pub proof fn law_undo_shows_the_restored_todo(a: AppView, g: usize, index: usize, item: TodoView)
    requires
        a.last_deleted == Some(DeletedView::Todo { group: g, index, item }),
        g < a.groups.len(),
        a.undo().fits(),
        title_visible(a.search_query, item.title),
    ensures
        ({
            let n = a.groups[g as int].todos.len();
            let k = if index < n {
                index as int
            } else {
                n as int
            };
            let b = a.undo();
            &&& b.selected_group == g
            &&& b.current_row() == Some(RowRef::Todo(k as usize))
            &&& b.groups.len() == a.groups.len()
            &&& b.groups[g as int].todos == a.groups[g as int].todos.insert(k, item)
            &&& forall|h: int| 0 <= h < a.groups.len() && h != g ==> #[trigger] b.groups[h] == a.groups[h]
            &&& b.last_deleted is None
        }),
{
    let n = a.groups[g as int].todos.len();
    let k: usize = if index < n {
        index
    } else {
        n as usize
    };
    let todos = a.groups[g as int].todos;
    let a0 = AppView { last_deleted: None, ..a };
    let b0 = AppView {
        timer: crate::edit::timer_after_todo_inserted(a.timer, g, k),
        selected_group: g,
        dirty: true,
        ..a0.with_todos(g as int, todos.insert(k as int, item))
    };
    assert(a.undo() == b0.select_row(RowRef::Todo(k)));
    let b = a.undo();
    assert(AppView { selected: b0.selected, ..b } == b0);
    assert(b0.fits());
    assert(b0.groups[g as int].todos[k as int] == item);
    assert(b0.shows(RowRef::Todo(k)));
    lemma_visible_iff_shows(b0, RowRef::Todo(k));
    lemma_select_shown_row(b0, RowRef::Todo(k));
}

/// Undoing the deletion of a subtask puts it back under its todo at its
/// old place (at the end when the list got shorter), unfolds that todo,
/// shows its group and selects the subtask, whatever group was shown
/// before; the todo must pass the search filter to be shown.
pub proof fn law_undo_shows_the_restored_subtask(
    a: AppView,
    g: usize,
    ti: usize,
    index: usize,
    item: SubTaskView,
)
    requires
        a.last_deleted == Some(DeletedView::Sub { group: g, todo: ti, index, item }),
        g < a.groups.len(),
        ti < a.groups[g as int].todos.len(),
        a.undo().fits(),
        title_visible(a.search_query, a.groups[g as int].todos[ti as int].title),
    ensures
        ({
            let t = a.groups[g as int].todos[ti as int];
            let n = t.subtasks.len();
            let k = if index < n {
                index as int
            } else {
                n as int
            };
            let b = a.undo();
            let u = b.groups[g as int].todos[ti as int];
            &&& b.selected_group == g
            &&& b.current_row() == Some(RowRef::Sub(ti, k as usize))
            &&& u == (TodoView { subtasks: t.subtasks.insert(k, item), collapsed: false, ..t })
            &&& b.groups.len() == a.groups.len()
            &&& b.groups[g as int].todos.len() == a.groups[g as int].todos.len()
            &&& forall|h: int| 0 <= h < a.groups.len() && h != g ==> #[trigger] b.groups[h] == a.groups[h]
            &&& forall|x: int|
                0 <= x < a.groups[g as int].todos.len() && x != ti ==> #[trigger] b.groups[g as int].todos[x]
                    == a.groups[g as int].todos[x]
            &&& b.last_deleted is None
        }),
{
    let t = a.groups[g as int].todos[ti as int];
    let n = t.subtasks.len();
    let k: usize = if index < n {
        index
    } else {
        n as usize
    };
    let a0 = AppView { last_deleted: None, ..a };
    let nt = TodoView { subtasks: t.subtasks.insert(k as int, item), collapsed: false, ..t };
    let b0 = AppView { selected_group: g, dirty: true, ..a0.with_todo(g as int, ti as int, nt) };
    assert(a.undo() == b0.select_row(RowRef::Sub(ti, k)));
    let b = a.undo();
    assert(AppView { selected: b0.selected, ..b } == b0);
    assert(b0.fits());
    assert(b0.shows(RowRef::Sub(ti, k)));
    lemma_visible_iff_shows(b0, RowRef::Sub(ti, k));
    lemma_select_shown_row(b0, RowRef::Sub(ti, k));
}

} // verus!
