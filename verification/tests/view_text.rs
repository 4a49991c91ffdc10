use tumeto::model::{RowRef, SearchHit};
use tumeto::ui::{
    search_hit_line, search_title, tab_window, zen_focus_line, zen_status_line,
};
use tumeto::app::App;
use tumeto::model::{Group, PomodoroTimer, Priority, SubTask, TimerTarget, TodoItem, TodoStatus};
use tumeto::ui::{
    dashboard_group, fold_marker, group_tab_widths, header_left, header_timer, priority_badge,
    status_checkbox, subtask_progress, tab_bar_range, timer_clock, timer_state, TimerState,
};

fn timer(running: bool) -> Option<PomodoroTimer> {
    let mut t = PomodoroTimer::new(TimerTarget { group: 0, todo: 0 });
    t.running = running;
    Some(t)
}

#[test]
fn header_shows_group_progress_and_ready_timer() {
    let app = App::default();
    let header = format!(
        "{}{}",
        header_left(&app, "#", 60),
        header_timer(&app.timer, "▶", "Ⅱ", 60)
    );
    let compact_header = header.replace(' ', "");

    assert!(compact_header.contains("기본"), "header: {header:?}");
    assert!(compact_header.contains("0/0DONE"), "header: {header:?}");
    assert!(compact_header.contains("25:00READY"), "header: {header:?}");
    assert_eq!(header_left(&app, "#", 60), " # 기본 · 0/0 DONE");
    assert_eq!(header_left(&app, "#", 47), " # 기본");
    assert_eq!(header_timer(&app.timer, "▶", "Ⅱ", 60), "25:00 READY ");
}

#[test]
fn header_counts_done_todos_of_the_shown_group() {
    let mut app = App::default();
    app.groups[0].todos = vec![TodoItem::new("a"), TodoItem::new("b"), TodoItem::new("c")];
    app.groups[0].todos[1].status = TodoStatus::Done;
    assert_eq!(header_left(&app, "#", 48), " # 기본 · 1/3 DONE");
    app.selected_group = 4;
    assert_eq!(header_left(&app, "#", 80), " # 그룹 없음 · 0/0 DONE");
}

#[test]
fn header_timer_text_depends_on_state_and_width() {
    assert_eq!(header_timer(&timer(true), "▶", "Ⅱ", 60), "▶ 25:00 RUNNING ");
    assert_eq!(header_timer(&timer(false), "▶", "Ⅱ", 60), "Ⅱ 25:00 PAUSED ");
    assert_eq!(header_timer(&timer(true), "▶", "Ⅱ", 30), "25:00 RUN ");
    assert_eq!(header_timer(&timer(false), "▶", "Ⅱ", 28), "25:00 PAUSE ");
    assert_eq!(header_timer(&None, "▶", "Ⅱ", 28), "25:00 READY ");
    assert_eq!(header_timer(&timer(true), "▶", "Ⅱ", 27), "");
    assert_eq!(header_timer(&timer(false), "", "", 48), "25:00 PAUSED ");
}

#[test]
fn timer_states_and_labels() {
    assert_eq!(timer_state(&None), TimerState::Ready);
    assert_eq!(timer_state(&timer(true)), TimerState::Running);
    assert_eq!(timer_state(&timer(false)), TimerState::Paused);
    assert_eq!(TimerState::Running.label(), "RUNNING");
    assert_eq!(TimerState::Paused.compact_label(), "PAUSE");
    assert_eq!(TimerState::Ready.compact_label(), "READY");
    assert_eq!(timer_clock(&None), "25:00");
}

#[test]
fn dashboard_reports_on_the_timer_group_first() {
    let mut app = App {
        groups: vec![Group::new("업무"), Group::new("개인")],
        ..App::default()
    };
    assert_eq!(dashboard_group(&app).unwrap().name, "업무");
    app.groups[1].todos.push(TodoItem::new("작업"));
    app.timer = Some(PomodoroTimer::new(TimerTarget { group: 1, todo: 0 }));
    assert_eq!(dashboard_group(&app).unwrap().name, "개인");
    app.timer = Some(PomodoroTimer::new(TimerTarget { group: 1, todo: 7 }));
    assert_eq!(dashboard_group(&app).unwrap().name, "업무");
    app.selected_group = 9;
    assert!(dashboard_group(&app).is_none());
}

#[test]
fn row_marks_follow_status_folding_and_priority() {
    assert_eq!(status_checkbox(TodoStatus::Todo), "[ ] ");
    assert_eq!(status_checkbox(TodoStatus::InProgress), "[>] ");
    assert_eq!(status_checkbox(TodoStatus::Done), "[✓] ");

    let mut t = TodoItem::new("상위");
    assert_eq!(fold_marker(&t), "  ");
    assert_eq!(subtask_progress(&t), None);
    t.subtasks = vec![SubTask::new("가"), SubTask::new("나")];
    t.subtasks[0].status = TodoStatus::Done;
    assert_eq!(fold_marker(&t), "▾ ");
    assert_eq!(subtask_progress(&t).as_deref(), Some(" (1/2)"));
    t.collapsed = true;
    assert_eq!(fold_marker(&t), "▸ ");

    assert_eq!(priority_badge(&Priority::High), Some("  !!"));
    assert_eq!(priority_badge(&Priority::Medium), Some("  ! "));
    assert_eq!(priority_badge(&Priority::Low), None);
}

#[test]
fn tab_widths_and_the_shown_tabs() {
    let groups = vec![Group::new("업무"), Group::new("ab"), Group::new("")];
    assert_eq!(group_tab_widths(&groups), Some(vec![6, 4, 2]));
    assert_eq!(tab_bar_range(&[6, 6, 6], 0, 3, 100), (0, 3));
    assert_eq!(tab_bar_range(&[6, 6, 6], 0, 3, 24), (0, 3));
    assert_eq!(tab_bar_range(&[6, 6, 6], 2, 3, 12), (2, 3));
    assert_eq!(tab_bar_range(&[6, 6, 6], 0, 3, 17), (0, 2));
}

#[test]
fn wrapping_follows_the_given_widths() {
    let chars: Vec<char> = "ab\ncd".chars().collect();
    let widths = vec![Some(2), Some(2), None, Some(1), None];
    assert_eq!(
        tumeto::ui::wrap_chars(&chars, &widths, 3),
        vec!["a", "b", "cd"]
    );
    assert_eq!(tumeto::ui::wrap_chars(&Vec::new(), &Vec::new(), 3), vec![""]);
}

#[test]
fn tab_widths_pad_names_and_stop_at_sixteen_bits() {
    assert_eq!(tumeto::ui::tab_width(4), Some(6));
    assert_eq!(tumeto::ui::tab_width(65533), Some(65535));
    assert_eq!(tumeto::ui::tab_width(65534), None);
    assert_eq!(tumeto::ui::tab_width(65536 + 3), Some(5));
}

#[test]
fn zen_lines_show_state_pomodoros_and_the_todo() {
    assert_eq!(zen_status_line(TimerState::Running, 3), "RUNNING  ·  POMO 3");
    assert_eq!(zen_status_line(TimerState::Paused, 0), "PAUSED  ·  POMO 0");
    let g = Group::new("업무");
    let t = TodoItem::new("작업");
    assert_eq!(zen_focus_line(&g, &t), "[>] 업무 / 작업");
}

#[test]
fn dashboard_focus_title_names_the_focus_or_waits() {
    let mut app = App::default();
    assert_eq!(tumeto::ui::dashboard_focus_title(&app), "대기 중");
    app.groups[0].todos.push(TodoItem::new("진행"));
    app.groups[0].todos[0].status = TodoStatus::InProgress;
    assert_eq!(tumeto::ui::dashboard_focus_title(&app), "[>] 진행");
}

#[test]
fn search_titles_and_hit_lines() {
    assert_eq!(search_title("/", "  ", 2), " / 전체 항목 · 2개 ");
    assert_eq!(search_title("/", "rust", 1), " / 전체 그룹 검색 · 1개 결과 ");

    let mut app = App::default();
    let mut t = TodoItem::new("상위");
    t.subtasks.push(SubTask::new("하위"));
    t.subtasks[0].status = TodoStatus::Done;
    app.groups[0].todos.push(t);
    let todo = search_hit_line(&app, SearchHit { group: 0, row: RowRef::Todo(0) }).unwrap();
    assert_eq!(todo.path, "기본  ›  ");
    assert_eq!(todo.status, TodoStatus::Todo);
    assert_eq!(todo.title, "상위");
    let sub = search_hit_line(&app, SearchHit { group: 0, row: RowRef::Sub(0, 0) }).unwrap();
    assert_eq!(sub.path, "기본  ›  상위  ›  ");
    assert_eq!(sub.status, TodoStatus::Done);
    assert_eq!(sub.title, "하위");
    assert!(search_hit_line(&app, SearchHit { group: 0, row: RowRef::Sub(0, 1) }).is_none());
    assert!(search_hit_line(&app, SearchHit { group: 3, row: RowRef::Todo(0) }).is_none());
}

#[test]
fn tab_windows_fit_and_cannot_grow() {
    let widths = [5u16, 5, 5, 5];
    let (s, e) = tab_window(&widths, 2, 1, 12);
    assert_eq!((s, e), (2, 4));
    let span = |s: usize, e: usize| widths[s..e].iter().map(|&w| w as u32).sum::<u32>() + (e - s - 1) as u32;
    assert!(span(s, e) <= 12);
    assert!(span(s - 1, e) > 12);
    assert_eq!(tab_window(&[7, 9, 4], 0, 1, 15), (0, 1));
}
