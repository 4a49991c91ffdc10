//! Fuzzy search across all groups: scoring a title against a query, the
//! ranked list of hits, and the search mode that jumps to a hit.
use vstd::prelude::*;

use crate::app::{App, AppView};
use crate::model::{
    AppMode, GroupView, RowRef, SearchHit, SubTask, SubTaskView, TodoItem, TodoView,
};
use crate::nav::saturating_dec;
use crate::text::{chars_of, lowercase, pop_char, push_char, to_lowercase, trim, trimmed};

verus! {

// ---------------------------------------------------------------------------
// Scoring.
// ---------------------------------------------------------------------------

/// The first position at or after `from` where `c` holds `x`.
pub open spec fn first_index_from(c: Seq<char>, x: char, from: int) -> Option<int>
    decreases c.len() - from,
{
    if from < 0 || from >= c.len() {
        None
    } else if c[from] == x {
        Some(from)
    } else {
        first_index_from(c, x, from + 1)
    }
}

/// Where the characters of `q` are found in `c`, matching each one at the
/// first position after the previous match; `None` when one is not found.
pub open spec fn greedy_positions(c: Seq<char>, q: Seq<char>) -> Option<Seq<int>>
    decreases q.len(),
{
    if q.len() == 0 {
        Some(Seq::empty())
    } else {
        match greedy_positions(c, q.drop_last()) {
            None => None,
            Some(p) => {
                let from = if p.len() == 0 {
                    0
                } else {
                    p.last() + 1
                };
                match first_index_from(c, q.last(), from) {
                    Some(k) => Some(p.push(k)),
                    None => None,
                }
            },
        }
    }
}

/// 15 points for every match right after the previous one.
pub open spec fn adjacency_bonus(p: Seq<int>) -> int
    decreases p.len(),
{
    if p.len() <= 1 {
        0
    } else {
        adjacency_bonus(p.drop_last()) + if p.last() == p[p.len() - 2] + 1 {
            15int
        } else {
            0
        }
    }
}

/// The score of matches at positions `p` of a candidate of length `c_len`
/// for a query of length `q_len`: 10 points per matched character, 15 for
/// every adjacent pair, minus the position of the first match, minus the
/// number of candidate characters beyond the query's length.
pub open spec fn match_score(c_len: int, p: Seq<int>, q_len: int) -> int {
    10 * p.len() + adjacency_bonus(p) - (if p.len() > 0 {
        p[0]
    } else {
        0
    }) - (if c_len > q_len {
        c_len - q_len
    } else {
        0
    })
}

/// The score of `q` matched in order in `c`: `None` when its characters do
/// not occur in `c` in that order.
pub open spec fn subsequence_score_of(c: Seq<char>, q: Seq<char>) -> Option<int> {
    match greedy_positions(c, q) {
        Some(p) => Some(match_score(c.len() as int, p, q.len() as int)),
        None => None,
    }
}

/// How well `candidate` matches `query`, case-insensitively: `None` when
/// the query's characters do not occur in order in the candidate; an empty
/// query matches everything with score 0.
pub open spec fn fuzzy(candidate: Seq<char>, query: Seq<char>) -> Option<int> {
    if query.len() == 0 {
        Some(0)
    } else {
        subsequence_score_of(lowercase(candidate), lowercase(query))
    }
}

proof fn lemma_greedy_shape(c: Seq<char>, q: Seq<char>)
    ensures
        greedy_positions(c, q) matches Some(p) ==> p.len() == q.len() && (forall|i: int|
            0 <= i < p.len() ==> 0 <= #[trigger] p[i] < c.len()) && (forall|i: int, j: int|
            0 <= i < j < p.len() ==> #[trigger] p[i] < #[trigger] p[j]),
    decreases q.len(),
{
    if q.len() > 0 {
        lemma_greedy_shape(c, q.drop_last());
        match greedy_positions(c, q.drop_last()) {
            None => {},
            Some(p) => {
                let from = if p.len() == 0 {
                    0
                } else {
                    p.last() + 1
                };
                lemma_first_index_from(c, q.last(), from);
            },
        }
    }
}

pub(crate) proof fn lemma_first_index_from(c: Seq<char>, x: char, from: int)
    ensures
        first_index_from(c, x, from) matches Some(k) ==> from <= k < c.len() && 0 <= k && c[k] == x,
    decreases c.len() - from,
{
    if !(from < 0 || from >= c.len()) && c[from] != x {
        lemma_first_index_from(c, x, from + 1);
    }
}

proof fn lemma_adjacency_bound(p: Seq<int>)
    ensures
        0 <= adjacency_bonus(p) <= 15 * p.len(),
    decreases p.len(),
{
    if p.len() > 1 {
        lemma_adjacency_bound(p.drop_last());
    }
}

/// Finds `x` in `c` from position `from` on.
fn find_from(c: &Vec<char>, x: char, from: usize) -> (r: Option<usize>)
    requires
        from <= c@.len(),
    ensures
        match first_index_from(c@, x, from as int) {
            Some(k) => r == Some(k as usize),
            None => r is None,
        },
{
    let n = c.len();
    let mut i = from;
    while i < n
        invariant
            n == c@.len(),
            from <= i <= n,
            first_index_from(c@, x, from as int) == first_index_from(c@, x, i as int),
        decreases n - i,
    {
        if c[i] == x {
            return Some(i);
        }
        i = i + 1;
    }
    None
}

/// How well `candidate` matches `query` (see `fuzzy`).
pub fn fuzzy_score(candidate: &str, query: &str) -> (r: Option<i128>)
    ensures
        opt_int(r) == fuzzy(candidate@, query@),
{
    if query.is_empty() {
        return Some(0);
    }
    let lc = to_lowercase(candidate);
    let lq = to_lowercase(query);
    subsequence_score(&chars_of(lc.as_str()), &chars_of(lq.as_str()))
}

/// The score of `q` matched in order in `c`, both already lowercased (see
/// `subsequence_score_of` and `match_score`).
pub fn subsequence_score(c: &Vec<char>, q: &Vec<char>) -> (r: Option<i128>)
    ensures
        opt_int(r) == subsequence_score_of(c@, q@),
{
    let n = c.len();
    let m = q.len();
    let mut score: i128 = 0;
    let mut from: usize = 0;
    let mut previous: Option<usize> = None;
    let ghost mut p: Seq<int> = Seq::empty();
    let mut k: usize = 0;
    while k < m
        invariant
            n == c@.len(),
            m == q@.len(),
            k <= m,
            greedy_positions(c@, q@.take(k as int)) == Some(p),
            p.len() == k,
            forall|i: int| 0 <= i < p.len() ==> 0 <= #[trigger] p[i] < n,
            from <= n,
            from == if k == 0 {
                0
            } else {
                p.last() + 1
            },
            previous == if k == 0 {
                None::<usize>
            } else {
                Some(p.last() as usize)
            },
            score == 10 * k + adjacency_bonus(p) - if k > 0 {
                p[0]
            } else {
                0
            },
            0 <= adjacency_bonus(p) <= 15 * k,
        decreases m - k,
    {
        let needle = q[k];
        assert(q@.take(k + 1).drop_last() =~= q@.take(k as int));
        assert(q@.take(k + 1).last() == needle);
        let index = match find_from(c, needle, from) {
            Some(i) => i,
            None => {
                proof {
                    let qq = q@.take(k + 1);
                    assert(qq.drop_last() =~= q@.take(k as int));
                    assert(greedy_positions(c@, qq.drop_last()) == Some(p));
                    assert(first_index_from(c@, qq.last(), from as int) is None);
                    assert(greedy_positions(c@, qq) is None);
                    lemma_greedy_none_extends(c@, q@, k as int + 1);
                }
                return None;
            },
        };
        proof {
            lemma_first_index_from(c@, needle, from as int);
        }
        let ghost np = p.push(index as int);
        assert(np.drop_last() =~= p);
        score = score + 10;
        match previous {
            Some(prev) => {
                if prev + 1 == index {
                    score = score + 15;
                }
            },
            None => {
                score = score - index as i128;
            },
        }
        previous = Some(index);
        from = index + 1;
        proof {
            p = np;
        }
        k = k + 1;
    }
    assert(q@.take(m as int) =~= q@);
    let extra: i128 = if n > m {
        (n - m) as i128
    } else {
        0
    };
    Some(score - extra)
}

/// Once a prefix of the query fails to match, the whole query fails.
proof fn lemma_greedy_none_extends(c: Seq<char>, q: Seq<char>, k: int)
    requires
        0 <= k <= q.len(),
        greedy_positions(c, q.take(k)) is None,
    ensures
        greedy_positions(c, q) is None,
    decreases q.len() - k,
{
    if k < q.len() {
        assert(q.take(k + 1).drop_last() =~= q.take(k));
        lemma_greedy_none_extends(c, q, k + 1);
    } else {
        assert(q.take(k) =~= q);
    }
}

// ---------------------------------------------------------------------------
// Ranked hits.
// ---------------------------------------------------------------------------

/// The best of the scores that are present.
pub open spec fn best(a: Option<int>, b: Option<int>) -> Option<int> {
    match (a, b) {
        (Some(x), Some(y)) => Some(if x >= y {
            x
        } else {
            y
        }),
        (Some(x), None) => Some(x),
        (None, y) => y,
    }
}

/// A hit with its score, when there is a score.
pub open spec fn scored(s: Option<int>, hit: SearchHit) -> Seq<(int, SearchHit)> {
    match s {
        Some(x) => seq![(x, hit)],
        None => Seq::empty(),
    }
}

/// Scored hits for the first `n` subtasks of todo `ti` of group `gi`; a
/// subtask scores the best of its own, its todo's and its group's scores.
pub open spec fn subtask_hits(
    gi: usize,
    ti: usize,
    base: Option<int>,
    subs: Seq<SubTaskView>,
    q: Seq<char>,
    n: int,
) -> Seq<(int, SearchHit)>
    decreases n,
{
    if n <= 0 {
        Seq::empty()
    } else {
        subtask_hits(gi, ti, base, subs, q, n - 1) + scored(
            best(base, fuzzy(subs[n - 1].title, q)),
            SearchHit { group: gi, row: RowRef::Sub(ti, (n - 1) as usize) },
        )
    }
}

/// Scored hits for the first `n` todos of group `gi` and their subtasks, in
/// list order; a todo scores the best of its own and its group's score.
pub open spec fn todo_hits(
    gi: usize,
    gscore: Option<int>,
    todos: Seq<TodoView>,
    q: Seq<char>,
    n: int,
) -> Seq<(int, SearchHit)>
    decreases n,
{
    if n <= 0 {
        Seq::empty()
    } else {
        let t = todos[n - 1];
        let b = best(gscore, fuzzy(t.title, q));
        todo_hits(gi, gscore, todos, q, n - 1) + scored(
            b,
            SearchHit { group: gi, row: RowRef::Todo((n - 1) as usize) },
        ) + subtask_hits(gi, (n - 1) as usize, b, t.subtasks, q, t.subtasks.len() as int)
    }
}

/// Scored hits for the first `n` groups, in storage order.
pub open spec fn group_hits(groups: Seq<GroupView>, q: Seq<char>, n: int) -> Seq<(int, SearchHit)>
    decreases n,
{
    if n <= 0 {
        Seq::empty()
    } else {
        let g = groups[n - 1];
        group_hits(groups, q, n - 1) + todo_hits(
            (n - 1) as usize,
            fuzzy(g.name, q),
            g.todos,
            q,
            g.todos.len() as int,
        )
    }
}

/// Where a hit with score `s` goes in a list ranked best first: after every
/// hit scoring at least `s`.
pub open spec fn insert_pos(sorted: Seq<(int, SearchHit)>, s: int) -> int
    decreases sorted.len(),
{
    if sorted.len() == 0 {
        0
    } else if sorted[0].0 < s {
        0
    } else {
        1 + insert_pos(sorted.drop_first(), s)
    }
}

/// `items` added one by one to the ranked list `sorted`.
pub open spec fn insert_all(sorted: Seq<(int, SearchHit)>, items: Seq<(int, SearchHit)>) -> Seq<
    (int, SearchHit),
>
    decreases items.len(),
{
    if items.len() == 0 {
        sorted
    } else {
        let s = insert_all(sorted, items.drop_last());
        let x = items.last();
        s.insert(insert_pos(s, x.0), x)
    }
}

/// The items ranked by score, best first; equal scores keep their order.
pub open spec fn rank(items: Seq<(int, SearchHit)>) -> Seq<(int, SearchHit)> {
    insert_all(Seq::empty(), items)
}

impl AppView {
    /// Every todo and subtask that matches the trimmed query (through its
    /// own title or those above it), ranked by score, best first, ties in
    /// list order.
    pub open spec fn search_results(self) -> Seq<SearchHit> {
        let q = trimmed(self.search_query);
        rank(group_hits(self.groups, q, self.groups.len() as int)).map_values(
            |p: (int, SearchHit)| p.1,
        )
    }

    /// `/`: an empty query, first hit selected.
    pub open spec fn enter_search_mode(self) -> AppView {
        AppView {
            search_query: Seq::empty(),
            search_selected: 0,
            mode: AppMode::Search,
            ..self
        }
    }

    pub open spec fn push_search(self, c: char) -> AppView {
        AppView { search_query: self.search_query.push(c), search_selected: 0, ..self }
    }

    pub open spec fn backspace_search(self) -> AppView {
        AppView {
            search_query: if self.search_query.len() > 0 {
                self.search_query.drop_last()
            } else {
                self.search_query
            },
            search_selected: 0,
            ..self
        }
    }

    pub open spec fn move_search_down(self) -> AppView {
        let c = self.search_results().len();
        if c > 0 {
            AppView {
                search_selected: if self.search_selected + 1 < c {
                    (self.search_selected + 1) as usize
                } else {
                    (c - 1) as usize
                },
                ..self
            }
        } else {
            self
        }
    }

    pub open spec fn move_search_up(self) -> AppView {
        AppView { search_selected: saturating_dec(self.search_selected), ..self }
    }

    /// `Enter` in search: the selected hit's group is shown, a hit subtask's
    /// todo unfolds, the hit is selected and the search closes.
    pub open spec fn confirm_search(self) -> AppView {
        let hits = self.search_results();
        if self.search_selected >= hits.len() {
            self
        } else {
            let hit = hits[self.search_selected as int];
            let a1 = match hit.row {
                RowRef::Sub(ti, _) => if hit.group < self.groups.len() && ti
                    < self.groups[hit.group as int].todos.len() {
                    let t = self.groups[hit.group as int].todos[ti as int];
                    self.with_todo(hit.group as int, ti as int, TodoView { collapsed: false, ..t })
                } else {
                    self
                },
                RowRef::Todo(_) => self,
            };
            let a2 = a1.switch_group(hit.group);
            AppView {
                search_query: Seq::empty(),
                search_selected: 0,
                mode: AppMode::Normal,
                ..a2
            }.select_row(hit.row)
        }
    }

    /// `Esc` in search: the query is dropped and the view is as before.
    pub open spec fn cancel_search(self) -> AppView {
        AppView {
            search_query: Seq::empty(),
            search_selected: 0,
            mode: AppMode::Normal,
            ..self
        }
    }
}

// ---------------------------------------------------------------------------
// Executable ranking.
// ---------------------------------------------------------------------------

/// The scores of ranked hits as mathematical integers.
pub open spec fn ranked_view(v: Seq<(i128, SearchHit)>) -> Seq<(int, SearchHit)> {
    v.map_values(|p: (i128, SearchHit)| (p.0 as int, p.1))
}

proof fn lemma_insert_pos_skip(sorted: Seq<(int, SearchHit)>, s: int, i: int)
    requires
        0 <= i <= sorted.len(),
        forall|j: int| 0 <= j < i ==> (#[trigger] sorted[j]).0 >= s,
    ensures
        insert_pos(sorted, s) == i + insert_pos(sorted.subrange(i, sorted.len() as int), s),
    decreases i,
{
    if i > 0 {
        assert(sorted.drop_first() =~= sorted.subrange(1, sorted.len() as int));
        lemma_insert_pos_skip(sorted.drop_first(), s, i - 1);
        assert(sorted.drop_first().subrange(i - 1, sorted.drop_first().len() as int)
            =~= sorted.subrange(i, sorted.len() as int));
    } else {
        assert(sorted.subrange(0, sorted.len() as int) =~= sorted);
    }
}

fn insert_ranked(sorted: &mut Vec<(i128, SearchHit)>, x: (i128, SearchHit))
    ensures
        ranked_view(final(sorted)@) == ({
            let s = ranked_view(old(sorted)@);
            s.insert(insert_pos(s, x.0 as int), (x.0 as int, x.1))
        }),
{
    let ghost s = ranked_view(sorted@);
    let n = sorted.len();
    let mut i: usize = 0;
    while i < n && sorted[i].0 >= x.0
        invariant
            n == sorted@.len(),
            s == ranked_view(sorted@),
            i <= n,
            forall|j: int| 0 <= j < i ==> (#[trigger] s[j]).0 >= x.0,
        decreases n - i,
    {
        i = i + 1;
    }
    proof {
        lemma_insert_pos_skip(s, x.0 as int, i as int);
        if i < n {
            assert(s.subrange(i as int, n as int)[0] == s[i as int]);
        }
        assert(insert_pos(s, x.0 as int) == i);
    }
    sorted.insert(i, x);
    assert(ranked_view(sorted@) =~= s.insert(i as int, (x.0 as int, x.1)));
}

pub proof fn lemma_insert_all_append(
    s: Seq<(int, SearchHit)>,
    a: Seq<(int, SearchHit)>,
    b: Seq<(int, SearchHit)>,
)
    ensures
        insert_all(s, a + b) == insert_all(insert_all(s, a), b),
    decreases b.len(),
{
    if b.len() == 0 {
        assert(a + b =~= a);
    } else {
        assert((a + b).drop_last() =~= a + b.drop_last());
        lemma_insert_all_append(s, a, b.drop_last());
    }
}

fn opt_best(a: Option<i128>, b: Option<i128>) -> (r: Option<i128>)
    ensures
        opt_int(r) == best(opt_int(a), opt_int(b)),
{
    match (a, b) {
        (Some(x), Some(y)) => Some(if x >= y {
            x
        } else {
            y
        }),
        (Some(x), None) => Some(x),
        (None, y) => y,
    }
}

/// The integer view of an optional score.
pub open spec fn opt_int(a: Option<i128>) -> Option<int> {
    match a {
        Some(x) => Some(x as int),
        None => None,
    }
}

fn add_scored(sorted: &mut Vec<(i128, SearchHit)>, s: Option<i128>, hit: SearchHit)
    ensures
        ranked_view(final(sorted)@) == insert_all(ranked_view(old(sorted)@), scored(opt_int(s), hit)),
{
    let ghost before = ranked_view(sorted@);
    match s {
        Some(x) => {
            insert_ranked(sorted, (x, hit));
            let ghost items = scored(opt_int(s), hit);
            assert(items.drop_last() =~= Seq::<(int, SearchHit)>::empty());
            assert(insert_all(before, items.drop_last()) == before);
            assert(items.last() == (x as int, hit));
        },
        None => {
            assert(insert_all(before, scored(opt_int(s), hit)) == before);
        },
    }
}

fn add_subtask_hits(
    sorted: &mut Vec<(i128, SearchHit)>,
    gi: usize,
    ti: usize,
    base: Option<i128>,
    subs: &Vec<SubTask>,
    query: &str,
)
    ensures
        ranked_view(final(sorted)@) == insert_all(
            ranked_view(old(sorted)@),
            subtask_hits(gi, ti, opt_int(base), crate::model::subtask_views(subs@), query@, subs@.len() as int),
        ),
{
    let ghost sv = crate::model::subtask_views(subs@);
    let n = subs.len();
    let mut j: usize = 0;
    while j < n
        invariant
            n == subs@.len(),
            sv == crate::model::subtask_views(subs@),
            j <= n,
            ranked_view(sorted@) == insert_all(
                ranked_view(old(sorted)@),
                subtask_hits(gi, ti, opt_int(base), sv, query@, j as int),
            ),
        decreases n - j,
    {
        let ghost before = ranked_view(sorted@);
        let ss = fuzzy_score(subs[j].title.as_str(), query);
        let b = opt_best(base, ss);
        assert(sv[j as int].title == subs@[j as int].title@);
        add_scored(sorted, b, SearchHit { group: gi, row: RowRef::Sub(ti, j) });
        proof {
            lemma_insert_all_append(
                ranked_view(old(sorted)@),
                subtask_hits(gi, ti, opt_int(base), sv, query@, j as int),
                scored(opt_int(b), SearchHit { group: gi, row: RowRef::Sub(ti, j) }),
            );
        }
        j = j + 1;
    }
}

fn add_todo_hits(
    sorted: &mut Vec<(i128, SearchHit)>,
    gi: usize,
    gscore: Option<i128>,
    todos: &Vec<TodoItem>,
    query: &str,
)
    ensures
        ranked_view(final(sorted)@) == insert_all(
            ranked_view(old(sorted)@),
            todo_hits(gi, opt_int(gscore), crate::model::todo_views(todos@), query@, todos@.len() as int),
        ),
{
    let ghost tv = crate::model::todo_views(todos@);
    let n = todos.len();
    let mut i: usize = 0;
    while i < n
        invariant
            n == todos@.len(),
            tv == crate::model::todo_views(todos@),
            i <= n,
            ranked_view(sorted@) == insert_all(
                ranked_view(old(sorted)@),
                todo_hits(gi, opt_int(gscore), tv, query@, i as int),
            ),
        decreases n - i,
    {
        let t = &todos[i];
        assert(tv[i as int] == t@);
        let ts = fuzzy_score(t.title.as_str(), query);
        let b = opt_best(gscore, ts);
        let ghost prefix = todo_hits(gi, opt_int(gscore), tv, query@, i as int);
        let ghost one = scored(opt_int(b), SearchHit { group: gi, row: RowRef::Todo(i) });
        let ghost subs_hits = subtask_hits(gi, i, opt_int(b), t@.subtasks, query@, t@.subtasks.len() as int);
        add_scored(sorted, b, SearchHit { group: gi, row: RowRef::Todo(i) });
        add_subtask_hits(sorted, gi, i, b, &t.subtasks, query);
        proof {
            lemma_insert_all_append(ranked_view(old(sorted)@), prefix, one);
            lemma_insert_all_append(ranked_view(old(sorted)@), prefix + one, subs_hits);
            assert(todo_hits(gi, opt_int(gscore), tv, query@, i + 1) =~= prefix + one + subs_hits);
        }
        i = i + 1;
    }
}

impl App {
    pub fn global_search_results(&self) -> (r: Vec<SearchHit>)
        ensures
            r@ == self@.search_results(),
    {
        let query = trim(self.search_query.as_str());
        let mut sorted: Vec<(i128, SearchHit)> = Vec::new();
        let n = self.groups.len();
        let mut gi: usize = 0;
        while gi < n
            invariant
                n == self.groups@.len(),
                query@ == trimmed(self.search_query@),
                gi <= n,
                ranked_view(sorted@) == rank(group_hits(self@.groups, query@, gi as int)),
            decreases n - gi,
        {
            let g = &self.groups[gi];
            assert(self@.groups[gi as int] == g@);
            let gs = fuzzy_score(g.name.as_str(), query.as_str());
            add_todo_hits(&mut sorted, gi, gs, &g.todos, query.as_str());
            proof {
                lemma_insert_all_append(
                    Seq::empty(),
                    group_hits(self@.groups, query@, gi as int),
                    todo_hits(gi, opt_int(gs), g@.todos, query@, g@.todos.len() as int),
                );
            }
            gi = gi + 1;
        }
        let mut out: Vec<SearchHit> = Vec::new();
        let m = sorted.len();
        let mut k: usize = 0;
        while k < m
            invariant
                m == sorted@.len(),
                k <= m,
                out@ == ranked_view(sorted@).take(k as int).map_values(|p: (int, SearchHit)| p.1),
            decreases m - k,
        {
            out.push(sorted[k].1);
            k = k + 1;
            assert(out@ =~= ranked_view(sorted@).take(k as int).map_values(
                |p: (int, SearchHit)| p.1,
            ));
        }
        assert(ranked_view(sorted@).take(m as int) =~= ranked_view(sorted@));
        out
    }

    pub fn enter_search_mode(&mut self)
        ensures
            final(self)@ == old(self)@.enter_search_mode(),
    {
        self.search_query = String::new();
        self.search_selected = 0;
        self.mode = AppMode::Search;
    }

    pub fn push_search(&mut self, c: char)
        ensures
            final(self)@ == old(self)@.push_search(c),
    {
        push_char(&mut self.search_query, c);
        self.search_selected = 0;
    }

    pub fn backspace_search(&mut self)
        ensures
            final(self)@ == old(self)@.backspace_search(),
    {
        let _ = pop_char(&mut self.search_query);
        self.search_selected = 0;
    }

    pub fn move_search_down(&mut self)
        ensures
            final(self)@ == old(self)@.move_search_down(),
    {
        let count = self.global_search_results().len();
        if count > 0 {
            self.search_selected = if self.search_selected < count - 1 {
                self.search_selected + 1
            } else {
                count - 1
            };
        }
    }

    pub fn move_search_up(&mut self)
        ensures
            final(self)@ == old(self)@.move_search_up(),
    {
        self.search_selected = if self.search_selected > 0 {
            self.search_selected - 1
        } else {
            0
        };
    }

    pub fn confirm_search(&mut self)
        ensures
            final(self)@ == old(self)@.confirm_search(),
    {
        let hits = self.global_search_results();
        if self.search_selected >= hits.len() {
            return;
        }
        let hit = hits[self.search_selected];
        let ghost a = self@;
        match hit.row {
            RowRef::Sub(ti, _) => {
                if hit.group < self.groups.len() && ti < self.groups[hit.group].todos.len() {
                    self.groups[hit.group].todos[ti].collapsed = false;
                    proof {
                        let t = a.groups[hit.group as int].todos[ti as int];
                        let nt = TodoView { collapsed: false, ..t };
                        assert(self@.groups[hit.group as int].todos[ti as int] =~= nt);
                        assert(self@.groups[hit.group as int].todos =~= a.groups[hit.group as int].todos.update(
                            ti as int,
                            nt,
                        ));
                        assert(self@.groups =~= a.with_todo(hit.group as int, ti as int, nt).groups);
                    }
                }
            },
            RowRef::Todo(_) => {},
        }
        self.switch_group(hit.group);
        self.search_query = String::new();
        self.search_selected = 0;
        self.mode = AppMode::Normal;
        self.select_row(hit.row);
    }

    pub fn cancel_search(&mut self)
        ensures
            final(self)@ == old(self)@.cancel_search(),
    {
        self.search_query = String::new();
        self.search_selected = 0;
        self.mode = AppMode::Normal;
    }
}

} // verus!
