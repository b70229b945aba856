//! The application's screens and the history used to go back between them.
use vstd::prelude::*;

verus! {

/// The screens of the application.
#[derive(Clone, Copy, Debug, PartialEq, Eq, Structural)]
pub enum AppState {
    MainMenu,
    AlgorithmSelection2D,
    Sim2DLoading,
    Sim2DLog,
    Sim2DRun,
    Sim3D,
}

impl Default for AppState {
    /// The application starts at the main menu.
    fn default() -> (s: Self)
        ensures
            s == AppState::MainMenu,
    {
        AppState::MainMenu
    }
}

/// The buttons of the main menu.
#[derive(Clone, Copy, Debug, PartialEq, Eq, Structural)]
pub enum MenuAction {
    Play2D,
    Play3D,
}

impl MenuAction {
    /// The screen a main-menu button leads to.
    pub open spec fn spec_target(self) -> AppState {
        match self {
            MenuAction::Play2D => AppState::AlgorithmSelection2D,
            MenuAction::Play3D => AppState::Sim3D,
        }
    }

    /// The screen a main-menu button leads to: the 2D setup menu or the 3D
    /// simulation.
    pub fn target(&self) -> (s: AppState)
        ensures
            s == self.spec_target(),
    {
        match self {
            MenuAction::Play2D => AppState::AlgorithmSelection2D,
            MenuAction::Play3D => AppState::Sim3D,
        }
    }
}

/// The screens left by going forward, most recent last.
pub struct NavStack {
    history: Vec<AppState>,
}

impl View for NavStack {
    type V = Seq<AppState>;

    closed spec fn view(&self) -> Seq<AppState> {
        self.history@
    }
}

/// The history after going forward from `from`.
pub open spec fn pushed(history: Seq<AppState>, from: AppState) -> Seq<AppState> {
    history.push(from)
}

/// Going back: the screen returned to, if any, and the history after it.
pub open spec fn popped(history: Seq<AppState>) -> (Option<AppState>, Seq<AppState>) {
    if history.len() == 0 {
        (None, history)
    } else {
        (Some(history.last()), history.drop_last())
    }
}

impl NavStack {
    /// An empty history.
    pub fn new() -> (s: Self)
        ensures
            s@ == Seq::<AppState>::empty(),
    {
        NavStack { history: Vec::new() }
    }

    /// Number of screens to go back through.
    pub fn len(&self) -> (n: usize)
        ensures
            n == self@.len(),
    {
        self.history.len()
    }

    /// Goes forward from `from` to `to`: remembers `from` and returns the
    /// screen to switch to, `to`.
    pub fn push_state(&mut self, from: AppState, to: AppState) -> (next: AppState)
        ensures
            final(self)@ == pushed(old(self)@, from),
            next == to,
    {
        self.history.push(from);
        to
    }

    /// Goes back: the most recently left screen, which is forgotten; `None`
    /// when there is nothing to go back to.
    pub fn pop_state(&mut self) -> (prev: Option<AppState>)
        ensures
            (prev, final(self)@) == popped(old(self)@),
    {
        self.history.pop()
    }
}

impl Default for NavStack {
    fn default() -> (s: Self)
        ensures
            s@ == Seq::<AppState>::empty(),
    {
        NavStack::new()
    }
}

/// Going back right after going forward from `from` returns to `from` and
/// leaves the history as it was before.
pub proof fn law_back_undoes_forward(history: Seq<AppState>, from: AppState)
    ensures
        popped(pushed(history, from)) == (Some(from), history),
{
    assert(history.push(from).drop_last() =~= history);
}

/// Going back with no history goes nowhere and changes nothing.
pub proof fn law_back_on_empty_history()
    ensures
        popped(Seq::<AppState>::empty()) == (None::<AppState>, Seq::<AppState>::empty()),
{
}

} // verus!
