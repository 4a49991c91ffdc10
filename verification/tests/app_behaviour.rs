use tumeto::app::App;
use tumeto::model::{
    pomodoro_duration, AppMode, Group, PomodoroTimer, Priority, RowRef, SearchHit, SubTask,
    TimeSpan, TimerTarget, TodoItem, TodoStatus,
};
use tumeto::search::fuzzy_score;

fn app_with_todo() -> App {
    let mut app = App::default();
    let mut todo = TodoItem::new("집중할 작업");
    todo.subtasks.push(SubTask::new("세부 작업"));
    app.groups[0].todos.push(todo);
    app
}

#[test]
fn timer_starts_pauses_resumes_and_completes() {
    let mut app = app_with_todo();

    app.toggle_timer();
    let timer = app.timer.as_ref().expect("timer should start");
    assert!(timer.running);
    assert_eq!(timer.display_remaining(), "25:00");
    assert_eq!(app.groups[0].todos[0].status, TodoStatus::InProgress);
    assert_eq!(
        app.groups[0].todos[0].subtasks[0].status,
        TodoStatus::InProgress
    );

    app.toggle_timer();
    assert!(!app.timer.as_ref().unwrap().running);
    app.tick_timer(TimeSpan::from_secs(10));
    assert_eq!(app.timer.as_ref().unwrap().display_remaining(), "25:00");

    app.toggle_timer();
    app.tick_timer(TimeSpan::from_secs(1));
    assert_eq!(app.timer.as_ref().unwrap().display_remaining(), "24:59");

    app.tick_timer(pomodoro_duration());
    assert!(app.timer.is_none());
    assert_eq!(app.groups[0].todos[0].pomodoros, 1);
    assert!(app.dirty);
}

#[test]
fn timer_target_tracks_insertions_and_deletions() {
    let mut app = App::default();
    app.groups[0].todos = vec![
        TodoItem::new("앞 작업"),
        TodoItem::new("집중할 작업"),
        TodoItem::new("뒤 작업"),
    ];
    app.selected = 1;
    app.toggle_timer();

    app.select_row(RowRef::Todo(0));
    app.delete_selected();
    assert_eq!(app.timer.as_ref().unwrap().target.todo, 0);
    assert_eq!(app.active_timer_todo().unwrap().1.title, "집중할 작업");

    app.undo();
    assert_eq!(app.timer.as_ref().unwrap().target.todo, 1);
    assert_eq!(app.active_timer_todo().unwrap().1.title, "집중할 작업");

    app.select_row(RowRef::Todo(1));
    app.delete_selected();
    assert!(app.timer.is_none());
}

#[test]
fn completing_active_todo_cancels_timer_without_adding_pomodoro() {
    let mut app = app_with_todo();
    app.toggle_timer();

    app.cycle_status();

    assert!(app.groups[0].todos[0].status.is_done());
    assert!(app.timer.is_none());
    assert_eq!(app.groups[0].todos[0].pomodoros, 0);
}

#[test]
fn entering_zen_starts_timer_and_pause_does_not_depend_on_selection() {
    let mut app = app_with_todo();

    app.enter_zen_mode();
    assert_eq!(app.mode, AppMode::Zen);
    assert!(app.timer.as_ref().unwrap().running);

    app.selected = 0;
    app.toggle_active_timer();
    assert!(!app.timer.as_ref().unwrap().running);
    app.toggle_active_timer();
    assert!(app.timer.as_ref().unwrap().running);
}

#[test]
fn completing_todo_from_zen_finishes_task_and_exits() {
    let mut app = app_with_todo();
    app.enter_zen_mode();

    app.complete_active_timer_todo();

    assert_eq!(app.mode, AppMode::Normal);
    assert!(app.timer.is_none());
    assert!(app.groups[0].todos[0].status.is_done());
    assert!(app.groups[0].todos[0].subtasks[0].status.is_done());
    assert_eq!(app.groups[0].todos[0].pomodoros, 0);
}

#[test]
fn timer_completion_exits_zen_and_adds_one_pomodoro() {
    let mut app = app_with_todo();
    app.enter_zen_mode();

    app.tick_timer(pomodoro_duration());

    assert_eq!(app.mode, AppMode::Normal);
    assert!(app.timer.is_none());
    assert_eq!(app.groups[0].todos[0].pomodoros, 1);
}

#[test]
fn global_search_finds_items_across_groups_and_inside_collapsed_todos() {
    let app = App {
        groups: vec![
            Group {
                name: "업무".into(),
                todos: vec![TodoItem::new("API 문서 정리")],
            },
            Group {
                name: "개인".into(),
                todos: vec![TodoItem {
                    subtasks: vec![SubTask::new("Rust 소유권 복습")],
                    collapsed: true,
                    ..TodoItem::new("학습 계획")
                }],
            },
        ],
        search_query: "rust".into(),
        ..App::default()
    };

    assert_eq!(
        app.global_search_results(),
        vec![SearchHit {
            group: 1,
            row: RowRef::Sub(0, 0),
        }]
    );
}

#[test]
fn fuzzy_search_matches_subsequences_and_ranks_tighter_matches_first() {
    assert!(fuzzy_score("Refactor timer", "rft").is_some());
    assert!(
        fuzzy_score("rust", "rust").unwrap() > fuzzy_score("review rust notes", "rust").unwrap()
    );
}

#[test]
fn confirming_global_search_moves_to_result_and_expands_parent() {
    let mut app = App {
        groups: vec![
            Group::new("업무"),
            Group {
                name: "개인".into(),
                todos: vec![TodoItem {
                    subtasks: vec![SubTask::new("Rust 소유권 복습")],
                    collapsed: true,
                    ..TodoItem::new("학습 계획")
                }],
            },
        ],
        ..App::default()
    };
    app.enter_search_mode();
    app.search_query = "소유권".into();

    app.confirm_search();

    assert_eq!(app.mode, AppMode::Normal);
    assert_eq!(app.selected_group, 1);
    assert_eq!(app.current_row(), Some(RowRef::Sub(0, 0)));
    assert!(!app.groups[1].todos[0].collapsed);
    assert!(app.search_query.is_empty());
    assert!(app.dirty);
}

#[test]
fn canceling_global_search_preserves_original_location() {
    let mut app = App {
        groups: vec![
            Group {
                name: "업무".into(),
                todos: vec![TodoItem::new("첫 작업"), TodoItem::new("둘째 작업")],
            },
            Group {
                name: "개인".into(),
                todos: vec![TodoItem::new("개인 작업")],
            },
        ],
        selected: 1,
        ..App::default()
    };
    app.enter_search_mode();
    app.push_search('개');

    app.cancel_search();

    assert_eq!(app.mode, AppMode::Normal);
    assert_eq!(app.selected_group, 0);
    assert_eq!(app.current_row(), Some(RowRef::Todo(1)));
    assert!(app.search_query.is_empty());
}

#[test]
fn subtask_notes_can_be_opened_and_committed() {
    let mut app = app_with_todo();
    app.selected = 1;

    app.enter_notes_mode();
    assert_eq!(app.mode, AppMode::EditingNotes);
    assert!(app.notes_buffer.is_empty());

    app.notes_buffer = "하위 작업 메모".into();
    app.commit_notes();

    assert_eq!(app.mode, AppMode::Normal);
    assert_eq!(app.groups[0].todos[0].subtasks[0].notes, "하위 작업 메모");
    assert_eq!(app.current_notes(), Some("하위 작업 메모"));
    assert!(app.dirty);
}

#[test]
fn canceling_subtask_notes_preserves_original_content() {
    let mut app = app_with_todo();
    app.groups[0].todos[0].subtasks[0].notes = "원본".into();
    app.selected = 1;

    app.enter_notes_mode();
    app.notes_buffer.push_str(" 변경");
    app.cancel_notes();

    assert_eq!(app.mode, AppMode::Normal);
    assert_eq!(app.current_notes(), Some("원본"));
    assert!(app.notes_buffer.is_empty());
    assert!(!app.dirty);
}

#[test]
fn todo_notes_still_use_the_same_editing_flow() {
    let mut app = app_with_todo();

    app.enter_notes_mode();
    app.notes_buffer = "상위 작업 메모".into();
    app.commit_notes();

    assert_eq!(app.groups[0].todos[0].notes, "상위 작업 메모");
    assert_eq!(app.current_notes(), Some("상위 작업 메모"));
}

#[test]
fn visible_rows_sorts_subtasks_by_status_without_reordering_storage() {
    let mut todo = TodoItem::new("상위 작업");
    todo.subtasks = vec![
        SubTask {
            status: TodoStatus::Todo,
            ..SubTask::new("대기 1")
        },
        SubTask {
            status: TodoStatus::Done,
            ..SubTask::new("완료 1")
        },
        SubTask {
            status: TodoStatus::InProgress,
            ..SubTask::new("진행 1")
        },
        SubTask {
            status: TodoStatus::Todo,
            ..SubTask::new("대기 2")
        },
        SubTask {
            status: TodoStatus::InProgress,
            ..SubTask::new("진행 2")
        },
        SubTask {
            status: TodoStatus::Done,
            ..SubTask::new("완료 2")
        },
    ];
    let mut app = App::default();
    app.groups[0].todos.push(todo);

    assert_eq!(
        app.visible_rows(),
        vec![
            RowRef::Todo(0),
            RowRef::Sub(0, 2),
            RowRef::Sub(0, 4),
            RowRef::Sub(0, 0),
            RowRef::Sub(0, 3),
            RowRef::Sub(0, 1),
            RowRef::Sub(0, 5),
        ]
    );
    assert_eq!(
        app.groups[0].todos[0]
            .subtasks
            .iter()
            .map(|subtask| subtask.title.as_str())
            .collect::<Vec<_>>(),
        vec!["대기 1", "완료 1", "진행 1", "대기 2", "진행 2", "완료 2"]
    );
}

#[test]
fn cycling_subtask_status_keeps_the_same_subtask_selected_after_sorting() {
    let mut todo = TodoItem::new("상위 작업");
    todo.subtasks = vec![
        SubTask::new("상태를 바꿀 작업"),
        SubTask {
            status: TodoStatus::InProgress,
            ..SubTask::new("기존 진행 작업")
        },
    ];
    let mut app = App::default();
    app.groups[0].todos.push(todo);
    app.select_row(RowRef::Sub(0, 0));

    app.cycle_status();

    assert_eq!(
        app.groups[0].todos[0].subtasks[0].status,
        TodoStatus::InProgress
    );
    assert_eq!(app.current_row(), Some(RowRef::Sub(0, 0)));
}

#[test]
fn visible_rows_sorts_todo_blocks_by_status_timer_and_priority() {
    let todo = |title: &str, status, priority| TodoItem {
        status,
        priority,
        ..TodoItem::new(title)
    };
    let mut active = todo("타이머 진행 Low", TodoStatus::InProgress, Priority::Low);
    active.subtasks = vec![
        SubTask {
            status: TodoStatus::Done,
            ..SubTask::new("완료 하위")
        },
        SubTask {
            status: TodoStatus::InProgress,
            ..SubTask::new("진행 하위")
        },
    ];
    let mut app = App::default();
    app.groups[0].todos = vec![
        todo("대기 Medium", TodoStatus::Todo, Priority::Medium),
        todo("완료 High", TodoStatus::Done, Priority::High),
        todo("진행 High", TodoStatus::InProgress, Priority::High),
        todo("대기 High", TodoStatus::Todo, Priority::High),
        active,
        todo("대기 Low", TodoStatus::Todo, Priority::Low),
        todo("완료 Low", TodoStatus::Done, Priority::Low),
    ];
    app.timer = Some(PomodoroTimer::new(TimerTarget { group: 0, todo: 4 }));

    assert_eq!(
        app.visible_rows(),
        vec![
            RowRef::Todo(4),
            RowRef::Sub(4, 1),
            RowRef::Sub(4, 0),
            RowRef::Todo(2),
            RowRef::Todo(3),
            RowRef::Todo(0),
            RowRef::Todo(5),
            RowRef::Todo(1),
            RowRef::Todo(6),
        ]
    );
    assert_eq!(
        app.groups[0]
            .todos
            .iter()
            .map(|todo| todo.title.as_str())
            .collect::<Vec<_>>(),
        vec![
            "대기 Medium",
            "완료 High",
            "진행 High",
            "대기 High",
            "타이머 진행 Low",
            "대기 Low",
            "완료 Low",
        ]
    );
}

#[test]
fn cycling_todo_priority_keeps_the_same_todo_selected_after_sorting() {
    let mut app = App::default();
    app.groups[0].todos = vec![
        TodoItem::new("기존 Low"),
        TodoItem::new("우선순위를 바꿀 작업"),
    ];
    app.select_row(RowRef::Todo(1));

    app.cycle_priority();

    assert_eq!(app.groups[0].todos[1].priority, Priority::Medium);
    assert_eq!(app.current_row(), Some(RowRef::Todo(1)));
    assert_eq!(app.visible_rows(), vec![RowRef::Todo(1), RowRef::Todo(0)]);
}

#[test]
fn cycling_todo_status_keeps_the_same_todo_selected_after_sorting() {
    let mut high = TodoItem::new("대기 High");
    high.priority = Priority::High;

    let mut app = App::default();
    app.groups[0].todos = vec![high, TodoItem::new("진행 중으로 바꿀 Low")];
    app.select_row(RowRef::Todo(1));

    app.cycle_status();

    assert_eq!(app.groups[0].todos[1].status, TodoStatus::InProgress);
    assert_eq!(app.visible_rows()[0], RowRef::Todo(1));
    assert_eq!(app.current_row(), Some(RowRef::Todo(1)));
}

#[test]
fn timer_sort_changes_keep_the_current_todo_selected() {
    let mut high = TodoItem::new("기존 진행 High");
    high.status = TodoStatus::InProgress;
    high.priority = Priority::High;

    let mut app = App::default();
    app.groups[0].todos = vec![high, TodoItem::new("타이머를 시작할 Low")];
    app.select_row(RowRef::Todo(1));

    app.toggle_timer();
    assert_eq!(app.visible_rows()[0], RowRef::Todo(1));
    assert_eq!(app.current_row(), Some(RowRef::Todo(1)));

    app.cancel_timer();
    assert_eq!(app.visible_rows()[0], RowRef::Todo(0));
    assert_eq!(app.current_row(), Some(RowRef::Todo(1)));
}

#[test]
fn group_navigation_marks_persistent_state_dirty_and_resets_the_view() {
    let mut app = App {
        groups: vec![Group::new("업무"), Group::new("개인")],
        selected: 3,
        search_query: "rust".into(),
        ..App::default()
    };

    app.next_group();

    assert_eq!(app.selected_group, 1);
    assert_eq!(app.selected, 0);
    assert!(app.search_query.is_empty());
    assert!(app.dirty);
}

#[test]
fn switching_to_the_current_or_invalid_group_is_a_no_op() {
    let mut app = App {
        groups: vec![Group::new("업무"), Group::new("개인")],
        ..App::default()
    };

    app.switch_group(0);
    app.switch_group(99);

    assert_eq!(app.selected_group, 0);
    assert!(!app.dirty);
}

#[test]
fn loaded_state_repairs_empty_groups_and_out_of_range_selection() {
    let empty = App {
        groups: Vec::new(),
        selected_group: 7,
        selected: 9,
        ..App::default()
    }
    .normalize_loaded_state();

    assert_eq!(empty.groups.len(), 1);
    assert_eq!(empty.selected_group, 0);
    assert_eq!(empty.selected, 0);
    assert!(empty.dirty);

    let out_of_range = App {
        groups: vec![Group::new("업무"), Group::new("개인")],
        selected_group: 7,
        selected: 9,
        ..App::default()
    }
    .normalize_loaded_state();

    assert_eq!(out_of_range.selected_group, 1);
    assert_eq!(out_of_range.selected, 0);
    assert!(out_of_range.dirty);
}
