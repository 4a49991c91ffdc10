use tumeto::app::App;
use tumeto::model::{
    pomodoro_duration, AppMode, Group, PomodoroTimer, Priority, RowRef, SearchHit, SubTask,
    TimeSpan, TimerTarget, TodoItem, TodoStatus,
};
use tumeto::nav::{LegacyApp, StoredData};
use tumeto::search::fuzzy_score;
use tumeto::ui::{
    centered_fixed, dashboard_focus, pomodoro_marks, tab_window, wrap_text, Area, IconMode,
    UiConfig,
};

fn titled(titles: &[&str]) -> App {
    let mut app = App::default();
    app.groups[0].todos = titles.iter().map(|t| TodoItem::new(t)).collect();
    app
}

// ---------------------------------------------------------------------------
// Cycles.
// ---------------------------------------------------------------------------

#[test]
fn status_and_priority_cycles_return_after_three_steps() {
    for s in [TodoStatus::Todo, TodoStatus::InProgress, TodoStatus::Done] {
        assert_eq!(s.cycle().cycle().cycle(), s);
    }
    for p in [Priority::Low, Priority::Medium, Priority::High] {
        assert_eq!(p.cycle().cycle().cycle(), p);
    }
    assert_eq!(TodoStatus::Todo.cycle(), TodoStatus::InProgress);
    assert_eq!(Priority::High.cycle(), Priority::Low);
    assert_eq!(TodoStatus::InProgress.display_sort_rank(), 0);
    assert_eq!(TodoStatus::Done.display_sort_rank(), 2);
    assert_eq!(Priority::High.display_sort_rank(), 0);
    assert_eq!(Priority::Low.display_sort_rank(), 2);
}

#[test]
fn legacy_completion_flag_maps_to_a_status() {
    assert_eq!(TodoStatus::from_completed(true), TodoStatus::Done);
    assert_eq!(TodoStatus::from_completed(false), TodoStatus::Todo);
}

// ---------------------------------------------------------------------------
// Delete and undo.
// ---------------------------------------------------------------------------

#[test]
fn undo_after_delete_restores_todo_selection_and_timer() {
    let mut app = titled(&["하나", "둘", "셋"]);
    app.select_row(RowRef::Todo(2));
    app.toggle_timer();
    app.select_row(RowRef::Todo(0));
    let before_rows = app.visible_rows();
    let before_row = app.current_row();

    app.delete_selected();
    assert_eq!(app.groups[0].todos.len(), 2);
    assert_eq!(app.timer.as_ref().unwrap().target.todo, 1);

    app.undo();
    let titles: Vec<&str> = app.groups[0].todos.iter().map(|t| t.title.as_str()).collect();
    assert_eq!(titles, vec!["하나", "둘", "셋"]);
    assert_eq!(app.visible_rows(), before_rows);
    assert_eq!(app.current_row(), before_row);
    assert_eq!(app.timer.as_ref().unwrap().target, TimerTarget { group: 0, todo: 2 });
    assert!(app.last_deleted.is_none());
}

#[test]
fn undo_after_deleting_a_subtask_puts_it_back() {
    let mut app = titled(&["상위"]);
    app.groups[0].todos[0].subtasks = vec![SubTask::new("가"), SubTask::new("나")];
    app.select_row(RowRef::Sub(0, 1));
    app.delete_selected();
    assert_eq!(app.groups[0].todos[0].subtasks.len(), 1);
    app.undo();
    assert_eq!(app.groups[0].todos[0].subtasks[1].title, "나");
    assert_eq!(app.current_row(), Some(RowRef::Sub(0, 1)));
}

#[test]
fn delete_and_undo_with_nothing_to_act_on_change_nothing() {
    let mut app = App::default();
    app.delete_selected();
    assert!(app.last_deleted.is_none());
    assert!(!app.dirty);
    app.undo();
    assert_eq!(app.groups.len(), 1);
    assert!(!app.dirty);
}

// ---------------------------------------------------------------------------
// Notes, help and input.
// ---------------------------------------------------------------------------

#[test]
fn committed_notes_are_the_selected_rows_notes() {
    let mut app = titled(&["메모할 작업", "다른 작업"]);
    app.select_row(RowRef::Todo(1));
    app.enter_notes_mode();
    app.notes_buffer = "새 메모".into();
    let row = app.current_row();
    app.commit_notes();
    assert_eq!(app.current_row(), row);
    assert_eq!(app.current_notes(), Some("새 메모"));
    assert_eq!(app.groups[0].todos[1].notes, "새 메모");
}

#[test]
fn unchanged_notes_do_not_mark_the_state_dirty() {
    let mut app = titled(&["작업"]);
    app.enter_notes_mode();
    app.commit_notes();
    assert!(!app.dirty);
    assert_eq!(app.mode, AppMode::Normal);
}

#[test]
fn help_toggles_back_to_the_normal_view() {
    let mut app = App::default();
    app.toggle_help();
    assert_eq!(app.mode, AppMode::Help);
    app.toggle_help();
    assert_eq!(app.mode, AppMode::Normal);
}

#[test]
fn input_is_trimmed_and_blank_input_adds_nothing() {
    let mut app = App::default();
    app.enter_input_mode();
    app.input_buffer = "  새 작업 \t".into();
    app.commit_input();
    assert_eq!(app.groups[0].todos.len(), 1);
    assert_eq!(app.groups[0].todos[0].title, "새 작업");
    assert_eq!(app.current_row(), Some(RowRef::Todo(0)));
    assert_eq!(app.mode, AppMode::Normal);

    app.enter_input_mode();
    app.input_buffer = "   ".into();
    app.commit_input();
    assert_eq!(app.groups[0].todos.len(), 1);
}

#[test]
fn subtask_input_adds_under_the_selected_todo_and_unfolds_it() {
    let mut app = titled(&["상위"]);
    app.groups[0].todos[0].collapsed = true;
    app.enter_subtask_input();
    app.input_buffer = "하위".into();
    app.commit_input();
    assert_eq!(app.groups[0].todos[0].subtasks[0].title, "하위");
    assert!(!app.groups[0].todos[0].collapsed);
    assert_eq!(app.current_row(), Some(RowRef::Sub(0, 0)));
}

#[test]
fn editing_a_title_replaces_it() {
    let mut app = titled(&["오래된 제목"]);
    app.enter_edit_mode();
    assert_eq!(app.input_buffer, "오래된 제목");
    app.input_buffer = "새 제목".into();
    app.commit_input();
    assert_eq!(app.groups[0].todos[0].title, "새 제목");
    assert!(app.dirty);
}

// ---------------------------------------------------------------------------
// Cursor, folding and filtering.
// ---------------------------------------------------------------------------

#[test]
fn cursor_stops_at_both_ends() {
    let mut app = titled(&["a", "b"]);
    app.move_up();
    assert_eq!(app.selected, 0);
    app.move_down();
    app.move_down();
    app.move_down();
    assert_eq!(app.selected, 1);
}

#[test]
fn folding_hides_subtasks_and_selects_the_todo() {
    let mut app = titled(&["상위"]);
    app.groups[0].todos[0].subtasks = vec![SubTask::new("하위")];
    app.select_row(RowRef::Sub(0, 0));
    app.toggle_collapse();
    assert!(app.groups[0].todos[0].collapsed);
    assert_eq!(app.visible_rows(), vec![RowRef::Todo(0)]);
    assert_eq!(app.current_row(), Some(RowRef::Todo(0)));
    app.toggle_collapse();
    assert_eq!(app.visible_rows(), vec![RowRef::Todo(0), RowRef::Sub(0, 0)]);
}

#[test]
fn the_search_query_filters_listed_todos_case_insensitively() {
    let mut app = titled(&["API 문서 정리", "점심 약속"]);
    app.search_query = "api".into();
    assert_eq!(app.visible_rows(), vec![RowRef::Todo(0)]);
}

#[test]
fn current_todos_are_those_of_the_selected_group() {
    let mut app = titled(&["하나"]);
    assert_eq!(app.current_todos().len(), 1);
    app.selected_group = 5;
    assert!(app.current_todos().is_empty());
}

// ---------------------------------------------------------------------------
// Timer.
// ---------------------------------------------------------------------------

#[test]
fn two_ticks_count_down_like_one() {
    let mut a = titled(&["작업"]);
    a.toggle_timer();
    let mut b = titled(&["작업"]);
    b.toggle_timer();
    a.tick_timer(TimeSpan::from_secs(10));
    a.tick_timer(TimeSpan::from_secs(20));
    b.tick_timer(TimeSpan::from_secs(30));
    assert_eq!(a.timer.as_ref().unwrap().display_remaining(), "24:30");
    assert_eq!(
        a.timer.as_ref().unwrap().remaining,
        b.timer.as_ref().unwrap().remaining
    );
}

#[test]
fn pausing_twice_resumes_the_timer() {
    let mut app = titled(&["작업"]);
    app.toggle_timer();
    app.toggle_active_timer();
    app.toggle_active_timer();
    assert!(app.timer.as_ref().unwrap().running);
    let mut idle = App::default();
    idle.toggle_active_timer();
    assert!(idle.timer.is_none());
}

#[test]
fn remaining_time_rounds_up_to_whole_seconds() {
    let show = |nanos: u128| {
        let mut t = PomodoroTimer::new(TimerTarget { group: 0, todo: 0 });
        t.remaining = TimeSpan::from_nanos(nanos);
        t.display_remaining()
    };
    assert_eq!(show(0), "00:00");
    assert_eq!(show(1), "00:01");
    assert_eq!(show(61_000_000_000), "01:01");
    assert_eq!(show(1_499_500_000_000), "25:00");
    assert_eq!(show(6_000_000_000_000), "100:00");
    assert_eq!(pomodoro_duration().as_nanos(), 1_500_000_000_000);
}

#[test]
fn a_done_todo_does_not_start_a_timer_or_zen_mode() {
    let mut app = titled(&["끝난 작업"]);
    app.groups[0].todos[0].status = TodoStatus::Done;
    app.enter_zen_mode();
    assert!(app.timer.is_none());
    assert_eq!(app.mode, AppMode::Normal);
}

#[test]
fn the_timer_stays_on_its_todo_when_another_is_toggled() {
    let mut app = titled(&["하나", "둘"]);
    app.select_row(RowRef::Todo(0));
    app.toggle_timer();
    app.select_row(RowRef::Todo(1));
    app.toggle_timer();
    assert_eq!(app.timer.as_ref().unwrap().target.todo, 0);
    assert!(app.timer.as_ref().unwrap().running);
}

#[test]
fn the_dashboard_focuses_on_the_timer_or_the_first_todo_in_progress() {
    let mut app = titled(&["대기", "진행 1", "진행 2"]);
    app.groups[0].todos[1].status = TodoStatus::InProgress;
    app.groups[0].todos[2].status = TodoStatus::InProgress;
    assert_eq!(dashboard_focus(&app).unwrap().1.title, "진행 1");
    app.timer = Some(PomodoroTimer::new(TimerTarget { group: 0, todo: 2 }));
    assert_eq!(dashboard_focus(&app).unwrap().1.title, "진행 2");
    assert!(dashboard_focus(&App::default()).is_none());
}

// ---------------------------------------------------------------------------
// Groups and loading.
// ---------------------------------------------------------------------------

#[test]
fn previous_group_undoes_next_group() {
    let mut app = App {
        groups: vec![Group::new("a"), Group::new("b"), Group::new("c")],
        selected_group: 2,
        ..App::default()
    };
    app.next_group();
    assert_eq!(app.selected_group, 0);
    app.prev_group();
    assert_eq!(app.selected_group, 2);
    app.prev_group();
    app.next_group();
    assert_eq!(app.selected_group, 2);
}

#[test]
fn the_last_group_is_never_deleted() {
    let mut app = App::default();
    app.enter_category_popup();
    app.enter_group_delete_confirm();
    assert_eq!(app.mode, AppMode::CategoryPopup);
    app.confirm_group_delete();
    assert_eq!(app.groups.len(), 1);

    let mut two = App {
        groups: vec![Group::new("업무"), Group::new("개인")],
        selected_group: 1,
        ..App::default()
    };
    two.enter_category_popup();
    two.enter_group_delete_confirm();
    assert_eq!(two.mode, AppMode::GroupDeleteConfirm);
    two.confirm_group_delete();
    assert_eq!(two.groups.len(), 1);
    assert_eq!(two.groups[0].name, "업무");
    assert_eq!(two.selected_group, 0);
    assert_eq!(two.mode, AppMode::CategoryPopup);
}

#[test]
fn deleting_an_earlier_group_moves_the_timer_with_its_todo() {
    let mut app = App {
        groups: vec![Group::new("업무"), Group::new("개인")],
        ..App::default()
    };
    app.groups[1].todos.push(TodoItem::new("작업"));
    app.timer = Some(PomodoroTimer::new(TimerTarget { group: 1, todo: 0 }));
    app.category_cursor = 0;
    app.confirm_group_delete();
    assert_eq!(app.timer.as_ref().unwrap().target, TimerTarget { group: 0, todo: 0 });
}

#[test]
fn groups_are_added_and_renamed_with_trimmed_names() {
    let mut app = App::default();
    app.enter_category_popup();
    app.enter_group_add();
    app.input_buffer = "  새 그룹 ".into();
    app.commit_group_input();
    assert_eq!(app.groups.len(), 2);
    assert_eq!(app.groups[1].name, "새 그룹");
    assert_eq!(app.category_cursor, 1);

    app.enter_group_rename();
    assert_eq!(app.input_buffer, "새 그룹");
    app.input_buffer = "  ".into();
    app.commit_group_input();
    assert_eq!(app.groups[1].name, "새 그룹");

    app.enter_group_rename();
    app.input_buffer = "다른 이름".into();
    app.commit_group_input();
    assert_eq!(app.groups[1].name, "다른 이름");

    app.confirm_category_popup();
    assert_eq!(app.selected_group, 1);
    assert_eq!(app.mode, AppMode::Normal);
}

#[test]
fn a_repaired_state_needs_no_second_repair() {
    let once = App {
        groups: Vec::new(),
        selected_group: 3,
        selected: 4,
        ..App::default()
    }
    .normalize_loaded_state();
    assert!(once.dirty);
    let twice = once.normalize_loaded_state();
    assert!(!twice.dirty);
    assert_eq!(twice.selected_group, 0);
    assert_eq!(twice.selected, 0);
    assert_eq!(twice.groups[0].name, "기본");
}

#[test]
fn stored_data_becomes_a_usable_state() {
    let fresh = App::from_stored(None);
    assert_eq!(fresh.groups.len(), 1);
    assert!(!fresh.dirty);

    let legacy = App::from_stored(Some(StoredData::Legacy(LegacyApp {
        todos: vec![TodoItem::new("예전 작업")],
        selected: 5,
    })));
    assert_eq!(legacy.groups.len(), 1);
    assert_eq!(legacy.groups[0].name, "기본");
    assert_eq!(legacy.groups[0].todos[0].title, "예전 작업");
    assert_eq!(legacy.selected, 0);
    assert!(legacy.dirty);

    let current = App::from_stored(Some(StoredData::Current(App {
        groups: vec![Group::new("업무"), Group::new("개인")],
        selected_group: 1,
        ..App::default()
    })));
    assert_eq!(current.selected_group, 1);
    assert!(!current.dirty);
}

#[test]
fn group_counters_add_up_their_todos() {
    let mut g = Group::new("업무");
    let mut a = TodoItem::new("a");
    a.pomodoros = 3;
    a.status = TodoStatus::Done;
    let mut b = TodoItem::new("b");
    b.pomodoros = 255;
    g.todos = vec![a, b, TodoItem::new("c")];
    assert_eq!(g.total_pomodoros(), 258);
    assert_eq!(g.done_count(), 1);
}

// ---------------------------------------------------------------------------
// Search.
// ---------------------------------------------------------------------------

#[test]
fn fuzzy_scores_follow_the_formula() {
    assert_eq!(fuzzy_score("rust", "rust"), Some(85));
    assert_eq!(fuzzy_score("review rust notes", "rust"), Some(57));
    assert_eq!(fuzzy_score("ABC", "ac"), Some(19));
    assert_eq!(fuzzy_score("RUST", "rust"), Some(85));
    assert_eq!(fuzzy_score("anything", ""), Some(0));
    assert_eq!(fuzzy_score("abc", "acb"), None);
    assert_eq!(fuzzy_score("", "a"), None);
}

#[test]
fn search_hits_are_ranked_best_first() {
    let mut app = titled(&["review rust notes", "rust", "unrelated"]);
    app.search_query = " rust ".into();
    let hits = app.global_search_results();
    let rows: Vec<RowRef> = hits.iter().map(|h| h.row).collect();
    assert_eq!(rows, vec![RowRef::Todo(1), RowRef::Todo(0)]);
}

#[test]
fn typing_and_erasing_in_search_reset_the_hit_cursor() {
    let mut app = titled(&["rust", "rusty"]);
    app.enter_search_mode();
    app.push_search('r');
    app.push_search('u');
    app.move_search_down();
    app.move_search_down();
    assert_eq!(app.search_selected, 1);
    app.move_search_up();
    app.move_search_up();
    assert_eq!(app.search_selected, 0);
    app.backspace_search();
    assert_eq!(app.search_query, "r");
    app.backspace_search();
    app.backspace_search();
    assert_eq!(app.search_query, "");
    assert_eq!(app.mode, AppMode::Search);
}

// ---------------------------------------------------------------------------
// View decisions.
// ---------------------------------------------------------------------------

#[test]
fn icon_setting_is_trimmed_and_case_insensitive() {
    assert_eq!(UiConfig::from_icon_setting(Some("  TRUE ")).icon_mode, IconMode::NerdFont);
    assert_eq!(UiConfig::from_icon_setting(Some("Nerd")).icon_mode, IconMode::NerdFont);
    assert_eq!(UiConfig::from_icon_setting(Some("2")).icon_mode, IconMode::Unicode);
    assert_eq!(UiConfig::from_icon_setting(Some("")).icon_mode, IconMode::Unicode);
    assert_eq!(UiConfig::from_icon_setting(Some("nerd")).icons().app, "\u{f489}");
    assert_eq!(UiConfig::from_icon_setting(None).icons().app, "◆");
}

#[test]
fn wrapped_notes_fit_and_keep_every_character() {
    assert_eq!(wrap_text("abc\ndef", 10), vec!["abc", "def"]);
    assert_eq!(wrap_text("abcdef", 4), vec!["abcd", "ef"]);
    assert_eq!(wrap_text("가나다", 4), vec!["가나", "다"]);
    assert_eq!(wrap_text("", 5), vec![""]);
    assert_eq!(wrap_text("ab", 0), vec!["", "a", "b"]);
    let lines = wrap_text("긴 메모를\n여러 줄로 나눈다", 3);
    assert_eq!(lines.concat(), "긴 메모를여러 줄로 나눈다");
}

#[test]
fn pomodoro_marks_use_stars_then_a_count() {
    assert_eq!(pomodoro_marks(0), None);
    assert_eq!(pomodoro_marks(3).as_deref(), Some("  ***"));
    assert_eq!(pomodoro_marks(6).as_deref(), Some("  ******"));
    assert_eq!(pomodoro_marks(7).as_deref(), Some("  *x7"));
    assert_eq!(pomodoro_marks(255).as_deref(), Some("  *x255"));
}

#[test]
fn tab_window_grows_right_then_left_around_the_selection() {
    assert_eq!(tab_window(&[5, 5, 5, 5], 2, 1, 12), (2, 4));
    assert_eq!(tab_window(&[3, 3, 3], 2, 1, 100), (0, 3));
    assert_eq!(tab_window(&[50], 0, 1, 10), (0, 1));
}

#[test]
fn fixed_boxes_are_centred_and_shrunk_to_fit() {
    assert_eq!(
        centered_fixed(10, 4, Area::new(0, 0, 30, 10)),
        Area::new(10, 3, 10, 4)
    );
    assert_eq!(
        centered_fixed(50, 20, Area::new(2, 1, 30, 10)),
        Area::new(2, 1, 30, 10)
    );
}

#[test]
fn a_matching_group_name_finds_all_its_items() {
    let mut study = Group::new("Rust 공부");
    let mut book = TodoItem::new("책 읽기");
    book.subtasks.push(SubTask::new("1장"));
    book.collapsed = true;
    study.todos.push(book);
    let mut gym = Group::new("운동");
    gym.todos.push(TodoItem::new("달리기"));
    let app = App {
        groups: vec![gym, study],
        search_query: "rust".into(),
        ..App::default()
    };
    assert_eq!(
        app.global_search_results(),
        vec![
            SearchHit { group: 1, row: RowRef::Todo(0) },
            SearchHit { group: 1, row: RowRef::Sub(0, 0) },
        ]
    );
}

#[test]
fn cycling_a_todo_status_carries_its_subtasks_along() {
    let mut app = titled(&["상위"]);
    app.groups[0].todos[0].subtasks = vec![SubTask::new("가"), SubTask::new("나")];
    app.groups[0].todos[0].subtasks[1].status = TodoStatus::Done;
    for expected in [TodoStatus::InProgress, TodoStatus::Done, TodoStatus::Todo] {
        app.select_row(RowRef::Todo(0));
        app.cycle_status();
        let todo = &app.groups[0].todos[0];
        assert_eq!(todo.status, expected);
        assert!(todo.subtasks.iter().all(|s| s.status == expected));
    }
}

#[test]
fn confirming_a_hit_in_the_shown_group_selects_it() {
    let mut app = titled(&["하나", "rust 둘"]);
    app.groups[0].todos[1].subtasks = vec![SubTask::new("셋")];
    app.groups[0].todos[1].collapsed = true;
    app.enter_search_mode();
    app.push_search('셋');
    app.confirm_search();
    assert_eq!(app.selected_group, 0);
    assert_eq!(app.current_row(), Some(RowRef::Sub(1, 0)));
    assert!(!app.groups[0].todos[1].collapsed);
}

#[test]
fn subsequence_scores_count_matches_adjacency_and_position() {
    let chars = |s: &str| s.chars().collect::<Vec<char>>();
    assert_eq!(tumeto::search::subsequence_score(&chars("rust"), &chars("rust")), Some(85));
    assert_eq!(tumeto::search::subsequence_score(&chars("xrust"), &chars("rust")), Some(83));
    assert_eq!(tumeto::search::subsequence_score(&chars("abc"), &chars("acb")), None);
    assert_eq!(tumeto::search::subsequence_score(&chars("abc"), &chars("")), Some(-3));
}
