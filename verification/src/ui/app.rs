//! The state of the generation picker and how a finished diff moves it on.

use vstd::prelude::*;

use crate::model::changes::{of_type, views, PackageChanges};
use crate::model::generation::{Generation, GenerationView};
use crate::model::package::{PackageChange, PackageChangeType, PackageChangeView};

verus! {

/// What is on screen.
pub enum Screen {
    /// Choosing two generations: the list, the highlighted row, and the
    /// generations picked so far.
    SelectGenerations { generations: Vec<Generation>, cursor: usize, picked: Vec<Generation> },
    /// Waiting for the diff of `old` against `new`; `spin_idx` counts the
    /// ticks spent waiting.
    Diffing { old: Generation, new: Generation, spin_idx: usize },
    /// The changes, the tab shown and the highlighted row.
    Results { changes: PackageChanges, active_tab: usize, cursor: usize },
}

/// The whole state of the program.
pub struct DiffApp {
    pub screen: Screen,
    pub should_quit: bool,
}

pub enum ScreenView {
    SelectGenerations { generations: Seq<GenerationView>, cursor: usize, picked: Seq<GenerationView> },
    Diffing { old: GenerationView, new: GenerationView, spin_idx: usize },
    Results { lists: Seq<Seq<PackageChangeView>>, active_tab: usize, cursor: usize },
}

pub struct AppView {
    pub screen: ScreenView,
    pub should_quit: bool,
}

/// The views of a sequence of generations.
pub open spec fn gen_views(s: Seq<Generation>) -> Seq<GenerationView> {
    s.map_values(|g: Generation| g@)
}

/// The six lists of the results screen, in tab order.
pub open spec fn category_lists(all: Seq<PackageChangeView>) -> Seq<Seq<PackageChangeView>> {
    seq![
        of_type(all, PackageChangeType::Kernel),
        of_type(all, PackageChangeType::Updated),
        of_type(all, PackageChangeType::Removed),
        of_type(all, PackageChangeType::Added),
        of_type(all, PackageChangeType::Rebuilt),
        of_type(all, PackageChangeType::Other),
    ]
}

/// The lists of `c`, in tab order.
pub open spec fn lists_of(c: PackageChanges) -> Seq<Seq<PackageChangeView>> {
    seq![
        c.list(PackageChangeType::Kernel),
        c.list(PackageChangeType::Updated),
        c.list(PackageChangeType::Removed),
        c.list(PackageChangeType::Added),
        c.list(PackageChangeType::Rebuilt),
        c.list(PackageChangeType::Other),
    ]
}

impl View for Screen {
    type V = ScreenView;

    open spec fn view(&self) -> ScreenView {
        match self {
            Screen::SelectGenerations { generations, cursor, picked } => ScreenView::SelectGenerations {
                generations: gen_views(generations@),
                cursor: *cursor,
                picked: gen_views(picked@),
            },
            Screen::Diffing { old, new, spin_idx } => ScreenView::Diffing {
                old: old@,
                new: new@,
                spin_idx: *spin_idx,
            },
            Screen::Results { changes, active_tab, cursor } => ScreenView::Results {
                lists: lists_of(*changes),
                active_tab: *active_tab,
                cursor: *cursor,
            },
        }
    }
}

impl View for DiffApp {
    type V = AppView;

    open spec fn view(&self) -> AppView {
        AppView { screen: self.screen@, should_quit: self.should_quit }
    }
}

/// `s` lists no generation twice.
pub open spec fn no_repeats(s: Seq<GenerationView>) -> bool {
    forall|i: int, j: int| 0 <= i < j < s.len() ==> s[i] != s[j]
}

/// The states the program can be in: at most two distinct generations
/// picked, all from the list, the cursor on a row of the list; the older
/// generation of a running diff first; one of the six tabs shown.
pub open spec fn well_formed(s: AppView) -> bool {
    match s.screen {
        ScreenView::SelectGenerations { generations, cursor, picked } => {
            &&& picked.len() <= 2
            &&& no_repeats(picked)
            &&& forall|i: int| 0 <= i < picked.len() ==> generations.contains(#[trigger] picked[i])
            &&& if generations.len() > 0 {
                cursor < generations.len()
            } else {
                cursor == 0
            }
        },
        ScreenView::Diffing { old, new, .. } => old.number <= new.number,
        ScreenView::Results { lists, active_tab, .. } => lists.len() == 6 && active_tab < 6,
    }
}

/// What became of the diff that is being waited for, this tick.
pub enum DiffPoll {
    /// Not finished yet.
    Pending,
    /// Finished with these changes.
    Ready(Vec<PackageChange>),
    /// Finished with an error.
    Failed,
    /// The diff ended without a result.
    Disconnected,
}

pub enum DiffPollView {
    Pending,
    Ready(Seq<PackageChangeView>),
    Failed,
    Disconnected,
}

impl View for DiffPoll {
    type V = DiffPollView;

    open spec fn view(&self) -> DiffPollView {
        match self {
            DiffPoll::Pending => DiffPollView::Pending,
            DiffPoll::Ready(p) => DiffPollView::Ready(views(p@)),
            DiffPoll::Failed => DiffPollView::Failed,
            DiffPoll::Disconnected => DiffPollView::Disconnected,
        }
    }
}

/// Why waiting for the diff ended the program.
#[derive(Clone, Copy, Debug, PartialEq, Eq, Structural)]
pub enum AdvanceError {
    /// The diff itself failed.
    DiffFailed,
    /// The diff ended without sending a result.
    Disconnected,
}

/// One tick of the program: while a diff is awaited the spinner moves on,
/// and a finished diff shows its changes, sorted, on the first tab.
pub open spec fn advance_step(s: AppView, poll: DiffPollView) -> (AppView, Result<(), AdvanceError>) {
    match s.screen {
        ScreenView::Diffing { old, new, spin_idx } => {
            let waiting = AppView {
                screen: ScreenView::Diffing { old, new, spin_idx: (spin_idx + 1) as usize },
                should_quit: s.should_quit,
            };
            match poll {
                DiffPollView::Ready(all) => (
                    AppView {
                        screen: ScreenView::Results {
                            lists: category_lists(all),
                            active_tab: 0,
                            cursor: 0,
                        },
                        should_quit: s.should_quit,
                    },
                    Ok(()),
                ),
                DiffPollView::Pending => (waiting, Ok(())),
                DiffPollView::Failed => (waiting, Err(AdvanceError::DiffFailed)),
                DiffPollView::Disconnected => (waiting, Err(AdvanceError::Disconnected)),
            }
        },
        _ => (s, Ok(())),
    }
}

/// A tick can be taken unless the spinner count is at its limit.
pub open spec fn can_advance(s: AppView) -> bool {
    s.screen matches ScreenView::Diffing { spin_idx, .. } ==> spin_idx < usize::MAX
}

/// Takes one tick (see `advance_step`); `poll` is what became of the diff
/// being waited for, and is not read on other screens.
pub fn advance(app: &mut DiffApp, poll: DiffPoll) -> (r: Result<(), AdvanceError>)
    requires
        can_advance(old(app)@),
    ensures
        (final(app)@, r) == advance_step(old(app)@, poll@),
{
    let ghost pv = poll@;
    let mut finished: Option<PackageChanges> = None;
    let mut r: Result<(), AdvanceError> = Ok(());
    match &mut app.screen {
        Screen::Diffing { spin_idx, .. } => {
            *spin_idx = *spin_idx + 1;
            match poll {
                DiffPoll::Ready(pkgs) => {
                    finished = Some(PackageChanges::from_packages(pkgs));
                },
                DiffPoll::Pending => {},
                DiffPoll::Failed => {
                    r = Err(AdvanceError::DiffFailed);
                },
                DiffPoll::Disconnected => {
                    r = Err(AdvanceError::Disconnected);
                },
            }
        },
        _ => {},
    }
    if let Some(changes) = finished {
        proof {
            if let DiffPollView::Ready(all) = pv {
                assert(lists_of(changes) =~= category_lists(all));
            }
        }
        app.screen = Screen::Results { changes, active_tab: 0, cursor: 0 };
    }
    r
}

/// A tick keeps the state well formed.
pub proof fn lemma_advance_keeps_well_formed(s: AppView, poll: DiffPollView)
    requires
        well_formed(s),
    ensures
        well_formed(advance_step(s, poll).0),
{
}

/// A finished diff shows its changes sorted into the six tabs, on the first
/// tab with the cursor on the first row, and ends nothing.
pub proof fn lemma_finished_diff_shows_results(s: AppView, all: Seq<PackageChangeView>)
    requires
        s.screen is Diffing,
    ensures
        advance_step(s, DiffPollView::Ready(all)) == (
            AppView {
                screen: ScreenView::Results { lists: category_lists(all), active_tab: 0, cursor: 0 },
                should_quit: s.should_quit,
            },
            Ok::<(), AdvanceError>(()),
        ),
{
}

/// The ten frames of the spinner, in order.
pub open spec fn spinner_frames() -> Seq<char> {
    seq!['⠋', '⠙', '⠹', '⠸', '⠼', '⠴', '⠦', '⠧', '⠇', '⠏']
}

/// The spinner character shown after `k` ticks of waiting.
pub open spec fn spinner_char(k: int) -> char {
    spinner_frames()[k % 10]
}

/// The spinner character shown after `spin_idx` ticks of waiting: the ten
/// frames in turn.
pub fn spinner_frame(spin_idx: usize) -> (r: char)
    ensures
        r == spinner_char(spin_idx as int),
{
    let i = spin_idx % 10;
    if i == 0 {
        '⠋'
    } else if i == 1 {
        '⠙'
    } else if i == 2 {
        '⠹'
    } else if i == 3 {
        '⠸'
    } else if i == 4 {
        '⠼'
    } else if i == 5 {
        '⠴'
    } else if i == 6 {
        '⠦'
    } else if i == 7 {
        '⠧'
    } else if i == 8 {
        '⠇'
    } else {
        '⠏'
    }
}

} // verus!
