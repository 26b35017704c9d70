use clippiboy::ui::{ui_tasks, UiTasks};

#[test]
fn levels_go_only_where_somebody_looks() {
    let (hidden, next) = ui_tasks(5, false, false, false);
    assert!(!hidden.read_levels && !hidden.levels_to_main && !hidden.levels_to_console);
    assert_eq!(next, 6);
    let (console, _) = ui_tasks(5, false, true, false);
    assert!(console.read_levels && console.levels_to_console && !console.levels_to_main);
}

#[test]
fn the_slow_tasks_come_on_their_multiples() {
    assert_eq!(
        ui_tasks(199, true, false, true).0,
        UiTasks {
            read_levels: true,
            levels_to_main: true,
            levels_to_console: false,
            log_levels: false,
            retry_failed: true,
            poll_game: true,
            check_trouble: true,
            health_line: true,
            status: true,
        }
    );
    let (t, _) = ui_tasks(20, false, false, true);
    assert!(t.log_levels && !t.status && !t.poll_game);
    let (t, _) = ui_tasks(39, false, false, false);
    assert!(t.poll_game && t.status && !t.retry_failed && !t.health_line);
    let (t, _) = ui_tasks(99, false, false, false);
    assert!(t.health_line && t.status && !t.poll_game);
}
