//! The cadence of the program's housekeeping tick.
//!
//! The tick comes every 50 ms. Levels go out on every tick, but only to a
//! window somebody can see; everything else runs on a multiple of the tick:
//! status and trouble once a second, the game and the screens every two
//! seconds, the pipeline's health line every five, and the retry of sources
//! that failed to start every ten.
use vstd::prelude::*;

verus! {

/// What one tick of the housekeeping loop does.
#[derive(Debug, Clone, Copy, PartialEq, Eq, Structural)]
pub struct UiTasks {
    /// Read the audio levels at all.
    pub read_levels: bool,
    /// Send them to the main window.
    pub levels_to_main: bool,
    /// Send them to the console over the game.
    pub levels_to_console: bool,
    /// Write them to the log.
    pub log_levels: bool,
    /// Try the sources that failed to start once more.
    pub retry_failed: bool,
    /// Look for the game in the foreground, follow it with the audio, check
    /// the sources, run the buffer automation and watch the screens.
    pub poll_game: bool,
    /// Report trouble the recording ran into, and stop a recording that can
    /// no longer write.
    pub check_trouble: bool,
    /// Log the pipeline's health line.
    pub health_line: bool,
    /// Measure the frame rate and send the status, errors and warnings.
    pub status: bool,
}

/// What the tick with counter `tick` does: the levels part reads the counter
/// as it stands, the rest reads it after it was counted on.
pub open spec fn ui_tasks_spec(tick: int, watched: bool, console: bool, logging: bool) -> UiTasks {
    let next = tick + 1;
    UiTasks {
        read_levels: watched || console || logging,
        levels_to_main: watched,
        levels_to_console: console,
        log_levels: logging && tick % 20 == 0,
        retry_failed: next % 200 == 0,
        poll_game: next % 40 == 0,
        check_trouble: next % 20 == 0,
        health_line: next % 100 == 0,
        status: next % 20 == 0,
    }
}

/// The tasks of this tick, given whether the main window and the console are
/// being looked at and whether levels are being logged, and the counter for
/// the next tick.
pub fn ui_tasks(tick: u32, watched: bool, console: bool, logging: bool) -> (r: (UiTasks, u32))
    requires
        tick < u32::MAX,
    ensures
        r.0 == ui_tasks_spec(tick as int, watched, console, logging),
        r.1 == tick + 1,
{
    let next = tick + 1;
    let tasks = UiTasks {
        read_levels: watched || console || logging,
        levels_to_main: watched,
        levels_to_console: console,
        log_levels: logging && tick % 20 == 0,
        retry_failed: next % 200 == 0,
        poll_game: next % 40 == 0,
        check_trouble: next % 20 == 0,
        health_line: next % 100 == 0,
        status: next % 20 == 0,
    };
    (tasks, next)
}

/// Whatever is looked at, the game is looked for every 40th tick, the
/// status goes out every 20th, and whenever the sources are retried the game
/// is polled and the status sent on the same tick.
pub proof fn law_the_slow_tasks_line_up(tick: int, watched: bool, console: bool, logging: bool)
    requires
        tick >= 0,
    ensures
        ui_tasks_spec(tick, watched, console, logging).retry_failed ==> ui_tasks_spec(
            tick,
            watched,
            console,
            logging,
        ).poll_game && ui_tasks_spec(tick, watched, console, logging).status,
        ui_tasks_spec(tick, watched, console, logging).poll_game ==> ui_tasks_spec(
            tick,
            watched,
            console,
            logging,
        ).status,
        ui_tasks_spec(tick + 40, watched, console, logging).poll_game == ui_tasks_spec(
            tick,
            watched,
            console,
            logging,
        ).poll_game,
{
}

} // verus!
