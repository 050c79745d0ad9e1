use orbit_pi::quit::{OrbitApp, QuitDetail, QuitEffect};

fn app() -> OrbitApp {
    OrbitApp {
        quit_confirmation_open: false,
        busy: false,
        streaming: false,
        is_compacting: false,
        live_busy: vec![false, false],
    }
}

#[test]
fn a_window_close_is_always_interrupted_by_the_prompt() {
    let mut app = app();
    assert_eq!(app.window_should_close(), (false, QuitEffect::FocusPrompt));
    assert!(app.quit_confirmation_open);
    assert_eq!(app.window_should_close(), (false, QuitEffect::FocusPrompt));
    assert!(app.quit_confirmation_open);
}

#[test]
fn the_quit_command_uses_the_same_prompt() {
    let mut app = app();
    assert_eq!(app.on_quit(), QuitEffect::FocusPrompt);
    assert!(app.quit_confirmation_open);
}

#[test]
fn cancel_hides_the_prompt_and_returns_focus_once() {
    let mut app = app();
    app.on_quit();
    assert_eq!(app.on_quit_dialog_cancel(), QuitEffect::FocusInput);
    assert!(!app.quit_confirmation_open);
    assert_eq!(app.dismiss_quit_confirmation(), QuitEffect::Nothing);
}

#[test]
fn confirm_quits() {
    let mut app = app();
    app.on_quit();
    assert_eq!(app.on_quit_dialog_confirm(), QuitEffect::Quit);
}

#[test]
fn the_prompt_explains_running_work() {
    let mut app = app();
    assert_eq!(app.quit_confirmation_detail(), None);
    app.on_quit();
    assert_eq!(app.quit_confirmation_detail(), Some(QuitDetail::Idle));
    app.live_busy[1] = true;
    assert!(app.has_in_progress_sessions());
    assert_eq!(app.quit_confirmation_detail(), Some(QuitDetail::RunningWork));
    app.live_busy[1] = false;
    for flag in 0..3 {
        let mut busy = self::app();
        busy.quit_confirmation_open = true;
        match flag {
            0 => busy.busy = true,
            1 => busy.streaming = true,
            _ => busy.is_compacting = true,
        }
        assert!(busy.has_in_progress_sessions());
        assert_eq!(busy.quit_confirmation_detail(), Some(QuitDetail::RunningWork));
    }
    assert!(!app.has_in_progress_sessions());
}
