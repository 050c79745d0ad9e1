//! Close confirmation for window controls and the app-level Quit command.
//!
//! A close request is always interrupted once so an accidental click cannot
//! tear down live agent processes. Intentional updater shutdowns still quit
//! directly and bypass this user-facing prompt.
use vstd::prelude::*;

verus! {

/// The part of the app's state that the quit prompt reads and changes.
pub struct OrbitApp {
    pub quit_confirmation_open: bool,
    /// The main session is working.
    pub busy: bool,
    /// The transcript is streaming a reply.
    pub streaming: bool,
    pub is_compacting: bool,
    /// Whether each live background session is working.
    pub live_busy: Vec<bool>,
}

/// What the window has to do after a quit event.
#[derive(Clone, Copy, Debug, PartialEq, Eq)]
pub enum QuitEffect {
    /// Move focus to the prompt and repaint.
    FocusPrompt,
    /// Give focus back to the composer and repaint.
    FocusInput,
    /// Quit the application.
    Quit,
    /// Nothing changed.
    Nothing,
}

/// Which explanation the quit prompt shows.
#[derive(Clone, Copy, Debug, PartialEq, Eq)]
pub enum QuitDetail {
    /// Some session is still working and would be stopped.
    RunningWork,
    /// Nothing is in progress.
    Idle,
}

impl OrbitApp {
    /// The app's state is unchanged apart from the prompt.
    pub open spec fn same_work(self, other: OrbitApp) -> bool {
        &&& self.busy == other.busy
        &&& self.streaming == other.streaming
        &&& self.is_compacting == other.is_compacting
        &&& self.live_busy@ == other.live_busy@
    }

    /// Some session is working.
    pub open spec fn working(self) -> bool {
        self.busy || self.streaming || self.is_compacting || exists|i: int|
            0 <= i < self.live_busy.len() && #[trigger] self.live_busy@[i]
    }

    /// Shows the confirmation.
    pub fn open_quit_confirmation(&mut self) -> (res: QuitEffect)
        ensures
            final(self).quit_confirmation_open,
            final(self).same_work(*old(self)),
            res == QuitEffect::FocusPrompt,
    {
        self.quit_confirmation_open = true;
        QuitEffect::FocusPrompt
    }

    /// Intercept an OS/window-caption close request and show the confirmation.
    /// Returning `false` keeps the window alive while the user decides.
    pub fn window_should_close(&mut self) -> (res: (bool, QuitEffect))
        ensures
            !res.0,
            final(self).quit_confirmation_open,
            final(self).same_work(*old(self)),
            res.1 == QuitEffect::FocusPrompt,
    {
        let effect = self.open_quit_confirmation();
        (false, effect)
    }

    /// The menu/keybinding path for Quit. It uses the same prompt as the OS
    /// close button so every user-initiated exit has identical safeguards.
    pub fn on_quit(&mut self) -> (res: QuitEffect)
        ensures
            final(self).quit_confirmation_open,
            final(self).same_work(*old(self)),
            res == QuitEffect::FocusPrompt,
    {
        self.open_quit_confirmation()
    }

    /// Hides the confirmation, returning focus to the composer when it was
    /// shown.
    pub fn dismiss_quit_confirmation(&mut self) -> (res: QuitEffect)
        ensures
            !final(self).quit_confirmation_open,
            final(self).same_work(*old(self)),
            res == if old(self).quit_confirmation_open {
                QuitEffect::FocusInput
            } else {
                QuitEffect::Nothing
            },
    {
        if self.quit_confirmation_open {
            self.quit_confirmation_open = false;
            QuitEffect::FocusInput
        } else {
            QuitEffect::Nothing
        }
    }

    /// The prompt's Cancel action.
    pub fn on_quit_dialog_cancel(&mut self) -> (res: QuitEffect)
        ensures
            !final(self).quit_confirmation_open,
            final(self).same_work(*old(self)),
            res == if old(self).quit_confirmation_open {
                QuitEffect::FocusInput
            } else {
                QuitEffect::Nothing
            },
    {
        self.dismiss_quit_confirmation()
    }

    /// The prompt's Quit action quits outright: routing the confirmed choice
    /// back through the window close callback would reopen the prompt.
    pub fn on_quit_dialog_confirm(&self) -> (res: QuitEffect)
        ensures
            res == QuitEffect::Quit,
    {
        QuitEffect::Quit
    }

    /// Whether some session is still working.
    pub fn has_in_progress_sessions(&self) -> (res: bool)
        ensures
            res == self.working(),
    {
        if self.busy || self.streaming || self.is_compacting {
            return true;
        }
        let mut i: usize = 0;
        while i < self.live_busy.len()
            invariant
                i <= self.live_busy.len(),
                forall|j: int| 0 <= j < i ==> !#[trigger] self.live_busy@[j],
            decreases self.live_busy.len() - i,
        {
            if self.live_busy[i] {
                return true;
            }
            i = i + 1;
        }
        false
    }

    /// What the confirmation layer shows: nothing while it is closed, else
    /// the explanation that fits the work in progress.
    pub fn quit_confirmation_detail(&self) -> (res: Option<QuitDetail>)
        ensures
            res == if !self.quit_confirmation_open {
                None
            } else if self.working() {
                Some(QuitDetail::RunningWork)
            } else {
                Some(QuitDetail::Idle)
            },
    {
        if !self.quit_confirmation_open {
            return None;
        }
        if self.has_in_progress_sessions() {
            Some(QuitDetail::RunningWork)
        } else {
            Some(QuitDetail::Idle)
        }
    }
}

} // verus!
