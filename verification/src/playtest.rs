//! Playing a project inside the editor: which phase the play mode is in.

use vstd::prelude::*;

verus! {

/// Phase of the play mode.
#[derive(Debug, Clone, Copy, PartialEq, Eq, Structural)]
pub enum EmbeddedPlaytestPhase {
    Idle,
    /// The project is being built in the background.
    Building,
    /// The editor shows the running game.
    Running {
        /// The game has the keyboard and the controllers.
        input_captured: bool,
    },
    /// The last attempt failed.
    Failed,
}

/// The play mode as the editor shows it.
#[derive(Debug, Clone, Copy, PartialEq, Eq, Structural)]
pub enum EditorPlaytestStatus {
    Idle,
    Building,
    Running { input_captured: bool },
    Failed,
}

impl EmbeddedPlaytestPhase {
    /// The phase as the editor shows it.
    pub open spec fn status(self) -> EditorPlaytestStatus {
        match self {
            EmbeddedPlaytestPhase::Idle => EditorPlaytestStatus::Idle,
            EmbeddedPlaytestPhase::Building => EditorPlaytestStatus::Building,
            EmbeddedPlaytestPhase::Running { input_captured } => EditorPlaytestStatus::Running {
                input_captured,
            },
            EmbeddedPlaytestPhase::Failed => EditorPlaytestStatus::Failed,
        }
    }

    /// The phase as the editor shows it.
    pub fn editor_status(self) -> (status: EditorPlaytestStatus)
        ensures
            status == self.status(),
    {
        match self {
            EmbeddedPlaytestPhase::Idle => EditorPlaytestStatus::Idle,
            EmbeddedPlaytestPhase::Building => EditorPlaytestStatus::Building,
            EmbeddedPlaytestPhase::Running { input_captured } => EditorPlaytestStatus::Running {
                input_captured,
            },
            EmbeddedPlaytestPhase::Failed => EditorPlaytestStatus::Failed,
        }
    }

    /// Whether the editor shows the running game.
    pub fn is_running(self) -> (running: bool)
        ensures
            running == (self is Running),
    {
        match self {
            EmbeddedPlaytestPhase::Running { .. } => true,
            _ => false,
        }
    }

    /// Whether the game has the input.
    pub fn input_captured(self) -> (captured: bool)
        ensures
            captured == (self == (EmbeddedPlaytestPhase::Running { input_captured: true })),
    {
        match self {
            EmbeddedPlaytestPhase::Running { input_captured } => input_captured,
            _ => false,
        }
    }
}

impl Default for EmbeddedPlaytestPhase {
    fn default() -> (phase: Self)
        ensures
            phase == EmbeddedPlaytestPhase::Idle,
    {
        EmbeddedPlaytestPhase::Idle
    }
}

/// The play mode, with the handle of the build that runs for it.
pub struct EmbeddedPlaytest<C> {
    phase: EmbeddedPlaytestPhase,
    build_child: Option<C>,
}

impl<C> EmbeddedPlaytest<C> {
    /// The phase.
    pub closed spec fn current(&self) -> EmbeddedPlaytestPhase {
        self.phase
    }

    /// The handle of the build, if one is kept.
    pub closed spec fn child(&self) -> Option<C> {
        self.build_child
    }

    /// A handle is kept for a build only.
    pub open spec fn wf(&self) -> bool {
        self.child() is Some ==> self.current() == EmbeddedPlaytestPhase::Building
    }

    /// The phase.
    pub fn phase(&self) -> (phase: EmbeddedPlaytestPhase)
        ensures
            phase == self.current(),
    {
        self.phase
    }

    /// The phase as the editor shows it.
    pub fn editor_status(&self) -> (status: EditorPlaytestStatus)
        ensures
            status == self.current().status(),
    {
        self.phase.editor_status()
    }

    /// Whether the editor shows the running game.
    pub fn is_running(&self) -> (running: bool)
        ensures
            running == (self.current() is Running),
    {
        self.phase.is_running()
    }

    /// Whether the game has the input.
    pub fn input_captured(&self) -> (captured: bool)
        ensures
            captured == (self.current() == (EmbeddedPlaytestPhase::Running {
                input_captured: true,
            })),
    {
        self.phase.input_captured()
    }

    /// A build begins; its handle is kept.
    pub fn start_building(&mut self, child: C)
        ensures
            final(self).current() == EmbeddedPlaytestPhase::Building,
            final(self).child() == Some(child),
            final(self).wf(),
    {
        self.build_child = Some(child);
        self.phase = EmbeddedPlaytestPhase::Building;
    }

    /// The handle of the build while it runs.
    pub fn building_child_mut(&mut self) -> (child: Option<&mut C>)
        ensures
            final(self).current() == old(self).current(),
            match child {
                Some(handle) => old(self).current() == EmbeddedPlaytestPhase::Building && old(
                    self,
                ).child() == Some(*handle) && final(self).child() == Some(*final(handle)),
                None => (old(self).current() != EmbeddedPlaytestPhase::Building || old(
                    self,
                ).child() is None) && final(self).child() == old(self).child(),
            },
    {
        if self.phase == EmbeddedPlaytestPhase::Building {
            match &mut self.build_child {
                Some(handle) => Some(handle),
                None => None,
            }
        } else {
            None
        }
    }

    /// Hands the handle of the build over, if one is kept.
    pub fn take_build_child(&mut self) -> (child: Option<C>)
        ensures
            child == old(self).child(),
            final(self).child() is None,
            final(self).current() == old(self).current(),
            final(self).wf(),
    {
        self.build_child.take()
    }

    /// The game runs.
    pub fn start_running(&mut self, input_captured: bool)
        ensures
            final(self).current() == (EmbeddedPlaytestPhase::Running { input_captured }),
            final(self).child() is None,
            final(self).wf(),
    {
        self.build_child = None;
        self.phase = EmbeddedPlaytestPhase::Running { input_captured };
    }

    /// The attempt failed.
    pub fn fail(&mut self)
        ensures
            final(self).current() == EmbeddedPlaytestPhase::Failed,
            final(self).child() is None,
            final(self).wf(),
    {
        self.build_child = None;
        self.phase = EmbeddedPlaytestPhase::Failed;
    }

    /// The play mode ends.
    pub fn stop(&mut self)
        ensures
            final(self).current() == EmbeddedPlaytestPhase::Idle,
            final(self).child() is None,
            final(self).wf(),
    {
        self.build_child = None;
        self.phase = EmbeddedPlaytestPhase::Idle;
    }

    /// Gives the input to the game, if it runs. Tells whether it does.
    pub fn capture_input(&mut self) -> (running: bool)
        ensures
            running == (old(self).current() is Running),
            final(self).current() == if running {
                EmbeddedPlaytestPhase::Running { input_captured: true }
            } else {
                old(self).current()
            },
            final(self).child() == old(self).child(),
            old(self).wf() ==> final(self).wf(),
    {
        match self.phase {
            EmbeddedPlaytestPhase::Running { .. } => {
                self.phase = EmbeddedPlaytestPhase::Running { input_captured: true };
                true
            },
            _ => false,
        }
    }

    /// Gives the input back to the editor, if the game runs. Tells whether it
    /// does.
    pub fn release_input(&mut self) -> (running: bool)
        ensures
            running == (old(self).current() is Running),
            final(self).current() == if running {
                EmbeddedPlaytestPhase::Running { input_captured: false }
            } else {
                old(self).current()
            },
            final(self).child() == old(self).child(),
            old(self).wf() ==> final(self).wf(),
    {
        match self.phase {
            EmbeddedPlaytestPhase::Running { .. } => {
                self.phase = EmbeddedPlaytestPhase::Running { input_captured: false };
                true
            },
            _ => false,
        }
    }
}

impl<C> Default for EmbeddedPlaytest<C> {
    fn default() -> (playtest: Self)
        ensures
            playtest.current() == EmbeddedPlaytestPhase::Idle,
            playtest.child() is None,
            playtest.wf(),
    {
        EmbeddedPlaytest { phase: EmbeddedPlaytestPhase::Idle, build_child: None }
    }
}

/// The editor shows each phase as what it is, and no two alike.
pub proof fn law_status_tells_the_phase(a: EmbeddedPlaytestPhase, b: EmbeddedPlaytestPhase)
    ensures
        a.status() == b.status() ==> a == b,
        a is Idle <==> a.status() is Idle,
        a is Building <==> a.status() is Building,
        a is Failed <==> a.status() is Failed,
        a is Running <==> a.status() is Running,
        a == (EmbeddedPlaytestPhase::Running { input_captured: true }) <==> a.status() == (
        EditorPlaytestStatus::Running { input_captured: true }),
{
}

} // verus!
