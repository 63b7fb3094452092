//! What a key press does to the state of the program.

use vstd::prelude::*;

use super::app::{gen_views, no_repeats, well_formed, AppView, DiffApp, Screen, ScreenView};
use crate::model::generation::{Generation, GenerationView};

verus! {

/// A key, as far as the program tells keys apart.
#[derive(Clone, Copy, Debug, PartialEq, Eq, Structural)]
pub enum Key {
    Down,
    Up,
    Enter,
    Tab,
    BackTab,
    Esc,
    Char(char),
    Other,
}

/// How a key event came about.
#[derive(Clone, Copy, Debug, PartialEq, Eq, Structural)]
pub enum KeyEventKind {
    Press,
    Repeat,
    Release,
}

/// A terminal event, as far as the program reads events.
#[derive(Clone, Copy, Debug, PartialEq, Eq, Structural)]
pub enum Event {
    Key { code: Key, kind: KeyEventKind },
    Other,
}

/// What the program is to do after a key: nothing, or start the diff of
/// `old` against `new`.
pub enum Action {
    Nothing,
    StartDiff { old: Generation, new: Generation },
}

impl View for Action {
    type V = Option<(GenerationView, GenerationView)>;

    open spec fn view(&self) -> Option<(GenerationView, GenerationView)> {
        match self {
            Action::Nothing => None,
            Action::StartDiff { old, new } => Some((old@, new@)),
        }
    }
}

/// The predicate "differs from `g`".
pub open spec fn differs_from(g: GenerationView) -> spec_fn(GenerationView) -> bool {
    |n: GenerationView| n != g
}

/// Enter on generation `g`: unpick it where it is picked, else pick it
/// where fewer than two are picked.
pub open spec fn toggle_pick(picked: Seq<GenerationView>, g: GenerationView) -> Seq<GenerationView> {
    if picked.contains(g) {
        picked.filter(differs_from(g))
    } else if picked.len() < 2 {
        picked.push(g)
    } else {
        picked
    }
}

/// Two picked generations, the one with the lower number first.
pub open spec fn in_order(a: GenerationView, b: GenerationView) -> (GenerationView, GenerationView) {
    if a.number > b.number {
        (b, a)
    } else {
        (a, b)
    }
}

/// The cursor one row down in a list of `len` rows.
pub open spec fn row_down(cursor: usize, len: int) -> usize {
    if cursor + 1 < len - 1 {
        (cursor + 1) as usize
    } else {
        (len - 1) as usize
    }
}

/// The cursor one row up, stopping at the top.
pub open spec fn row_up(cursor: usize) -> usize {
    if cursor > 0 {
        (cursor - 1) as usize
    } else {
        0
    }
}

/// The tab that a digit key chooses.
pub open spec fn digit_tab(c: char) -> Option<usize> {
    if '0' <= c && c <= '5' {
        Some((c as int - '0' as int) as usize)
    } else {
        None
    }
}

/// The state and action after `key` in state `s`.
///
/// Choosing generations: Down or `j` and Up or `k` move the cursor within
/// the list, Enter
/// picks or unpicks the generation under it, Space starts the diff once two
/// are picked (the lower number as the old one), Esc quits. On the results:
/// Tab and Shift-Tab move between the six tabs, `0` to `5` choose one, Down
/// or `j` and Up or `k` move the cursor within the tab, Esc quits. While the
/// diff runs, keys do nothing.
pub open spec fn key_step(s: AppView, key: Key) -> (AppView, Option<(GenerationView, GenerationView)>) {
    let quit = AppView { screen: s.screen, should_quit: true };
    match s.screen {
        ScreenView::SelectGenerations { generations, cursor, picked } => {
            let with = |c: usize, p: Seq<GenerationView>|
                AppView {
                    screen: ScreenView::SelectGenerations { generations, cursor: c, picked: p },
                    should_quit: s.should_quit,
                };
            match key {
                Key::Down => (with(row_down(cursor, generations.len() as int), picked), None),
                Key::Up => (with(row_up(cursor), picked), None),
                Key::Enter => (with(cursor, toggle_pick(picked, generations[cursor as int])), None),
                Key::Char(c) => if c == ' ' && picked.len() == 2 {
                    let pair = in_order(picked[0], picked[1]);
                    (
                        AppView {
                            screen: ScreenView::Diffing { old: pair.0, new: pair.1, spin_idx: 0 },
                            should_quit: s.should_quit,
                        },
                        Some(pair),
                    )
                } else if c == 'j' {
                    (with(row_down(cursor, generations.len() as int), picked), None)
                } else if c == 'k' {
                    (with(row_up(cursor), picked), None)
                } else {
                    (s, None)
                },
                Key::Esc => (quit, None),
                _ => (s, None),
            }
        },
        ScreenView::Results { lists, active_tab, cursor } => {
            let length = lists[active_tab as int].len() as int;
            let with = |t: usize, c: usize|
                AppView {
                    screen: ScreenView::Results { lists, active_tab: t, cursor: c },
                    should_quit: s.should_quit,
                };
            match key {
                Key::Tab => (with(if active_tab + 1 < 5 { (active_tab + 1) as usize } else { 5 }, cursor), None),
                Key::BackTab => (with(row_up(active_tab), cursor), None),
                Key::Esc => (quit, None),
                Key::Down => (with(active_tab, row_down(cursor, length)), None),
                Key::Up => (with(active_tab, row_up(cursor)), None),
                Key::Char(c) => if c == 'j' {
                    (with(active_tab, row_down(cursor, length)), None)
                } else if c == 'k' {
                    (with(active_tab, row_up(cursor)), None)
                } else {
                    match digit_tab(c) {
                        Some(t) => (with(t, cursor), None),
                        None => (s, None),
                    }
                },
                _ => (s, None),
            }
        },
        ScreenView::Diffing { .. } => (s, None),
    }
}

/// The keys that state `s` can take: moving down needs a non-empty list and
/// room for the cursor to count on, Enter needs a row under the cursor, and
/// the results screen needs one of its six tabs.
pub open spec fn key_allowed(s: AppView, key: Key) -> bool {
    match s.screen {
        ScreenView::SelectGenerations { generations, cursor, picked } => match key {
            Key::Down | Key::Char('j') => generations.len() > 0 && cursor < usize::MAX,
            Key::Enter => cursor < generations.len(),
            _ => true,
        },
        ScreenView::Results { lists, active_tab, cursor } => {
            &&& active_tab < 6
            &&& lists.len() == 6
            &&& (key == Key::Down || key == Key::Char('j')) ==> lists[active_tab as int].len() > 0
                && cursor < usize::MAX
        },
        ScreenView::Diffing { .. } => true,
    }
}


proof fn lemma_filter_keeps_all(s: Seq<GenerationView>, g: GenerationView)
    requires
        s.len() <= 2,
        !s.contains(g),
    ensures
        s.filter(differs_from(g)) == s,
{
    reveal_with_fuel(Seq::filter, 3);
    if s.len() == 1 {
        assert(s[0] != g);
        assert(s.drop_last() =~= Seq::<GenerationView>::empty());
        assert(s.filter(differs_from(g)) =~= s);
    } else if s.len() == 2 {
        assert(s[0] != g && s[1] != g);
        assert(s.drop_last().drop_last() =~= Seq::<GenerationView>::empty());
        assert(s.drop_last() =~= seq![s[0]]);
        assert(s.filter(differs_from(g)) =~= s);
    } else {
        assert(s.filter(differs_from(g)) =~= s);
    }
}

proof fn lemma_unpick_keeps_well_formed(picked: Seq<GenerationView>, g: GenerationView, gens: Seq<GenerationView>)
    requires
        picked.len() <= 2,
        no_repeats(picked),
        forall|i: int| 0 <= i < picked.len() ==> gens.contains(#[trigger] picked[i]),
    ensures
        picked.filter(differs_from(g)).len() <= 2,
        no_repeats(picked.filter(differs_from(g))),
        forall|i: int|
            0 <= i < picked.filter(differs_from(g)).len() ==> gens.contains(
                #[trigger] picked.filter(differs_from(g))[i],
            ),
{
    reveal_with_fuel(Seq::filter, 3);
    let f = picked.filter(differs_from(g));
    if picked.len() == 2 {
        let a = picked[0];
        let b = picked[1];
        assert(picked.drop_last() =~= seq![a]);
        assert(picked.drop_last().drop_last() =~= Seq::<GenerationView>::empty());
        assert(gens.contains(a) && gens.contains(b));
        if a != g && b != g {
            assert(f =~= seq![a, b]);
        } else if a != g {
            assert(f =~= seq![a]);
        } else if b != g {
            assert(f =~= seq![b]);
        } else {
            assert(f =~= Seq::<GenerationView>::empty());
        }
    } else if picked.len() == 1 {
        let a = picked[0];
        assert(picked.drop_last() =~= Seq::<GenerationView>::empty());
        assert(gens.contains(a));
        if a != g {
            assert(f =~= seq![a]);
        } else {
            assert(f =~= Seq::<GenerationView>::empty());
        }
    } else {
        assert(f =~= Seq::<GenerationView>::empty());
    }
}

/// Every key keeps the state well formed.
pub proof fn lemma_key_keeps_well_formed(s: AppView, key: Key)
    requires
        well_formed(s),
        key_allowed(s, key),
    ensures
        well_formed(key_step(s, key).0),
{
    match s.screen {
        ScreenView::SelectGenerations { generations, cursor, picked } => {
            if key == Key::Enter {
                let g = generations[cursor as int];
                if picked.contains(g) {
                    lemma_unpick_keeps_well_formed(picked, g, generations);
                } else if picked.len() < 2 {
                    let p2 = picked.push(g);
                    assert forall|i: int| 0 <= i < p2.len() implies generations.contains(
                        #[trigger] p2[i],
                    ) by {
                        if i < picked.len() {
                            assert(p2[i] == picked[i]);
                        }
                    }
                    assert forall|i: int, j: int| 0 <= i < j < p2.len() implies p2[i] != p2[j] by {
                        if j == picked.len() {
                            assert(p2[i] == picked[i]);
                        }
                    }
                }
            }
        },
        _ => {},
    }
}

/// Enter on a generation that is not picked, while fewer than two are, then
/// Enter again, leaves the picks as they were.
pub proof fn lemma_enter_twice_undoes(s: AppView)
    requires
        s.screen matches ScreenView::SelectGenerations { generations, cursor, picked } && cursor
            < generations.len() && picked.len() < 2 && !picked.contains(generations[cursor as int]),
    ensures
        key_step(key_step(s, Key::Enter).0, Key::Enter).0 == s,
{
    if let ScreenView::SelectGenerations { generations, cursor, picked } = s.screen {
        let g = generations[cursor as int];
        let p2 = picked.push(g);
        assert(p2.contains(g)) by {
            assert(p2[picked.len() as int] == g);
        }
        picked.lemma_filter_push(g, differs_from(g));
        lemma_filter_keeps_all(picked, g);
    }
}

/// Space with two generations picked starts their diff, the one with the
/// lower number as the old one.
pub proof fn lemma_diff_starts_in_order(s: AppView)
    requires
        s.screen matches ScreenView::SelectGenerations { picked, .. } && picked.len() == 2,
    ensures
        key_step(s, Key::Char(' ')).1 matches Some(pair) && {
            &&& pair.0.number <= pair.1.number
            &&& s.screen matches ScreenView::SelectGenerations { picked, .. } && (pair == (
            picked[0],
            picked[1],
            ) || pair == (picked[1], picked[0]))
            &&& key_step(s, Key::Char(' ')).0.screen == ScreenView::Diffing {
                old: pair.0,
                new: pair.1,
                spin_idx: 0,
            }
        },
{
}

/// Down then Up returns the cursor to its row, unless it was on the last row.
pub proof fn lemma_down_then_up(s: AppView)
    requires
        s.screen matches ScreenView::SelectGenerations { generations, cursor, .. } && cursor + 1
            < generations.len(),
        key_allowed(s, Key::Down),
    ensures
        key_step(key_step(s, Key::Down).0, Key::Up).0 == s,
{
    if let ScreenView::SelectGenerations { generations, cursor, picked } = s.screen {
        let down = key_step(s, Key::Down).0;
        assert(row_down(cursor, generations.len() as int) == cursor + 1);
        assert(down.screen == ScreenView::SelectGenerations {
            generations,
            cursor: (cursor + 1) as usize,
            picked,
        });
        assert(row_up((cursor + 1) as usize) == cursor);
    }
}

/// Tab then Shift-Tab returns to the tab shown, unless it was the last one.
pub proof fn lemma_tab_then_back(s: AppView)
    requires
        s.screen matches ScreenView::Results { active_tab, .. } && active_tab < 5,
    ensures
        key_step(key_step(s, Key::Tab).0, Key::BackTab).0 == s,
{
}

/// On the results, Up and `k` move the cursor one row up (staying at the
/// top row), and change nothing else.
pub proof fn lemma_results_up(s: AppView)
    requires
        s.screen is Results,
    ensures
        s.screen matches ScreenView::Results { lists, active_tab, cursor } && {
            let moved = AppView {
                screen: ScreenView::Results {
                    lists,
                    active_tab,
                    cursor: if cursor > 0 {
                        (cursor - 1) as usize
                    } else {
                        0
                    },
                },
                should_quit: s.should_quit,
            };
            &&& key_step(s, Key::Up) == (moved, None::<(GenerationView, GenerationView)>)
            &&& key_step(s, Key::Char('k')) == (moved, None::<(GenerationView, GenerationView)>)
        },
{
}

/// On the results, Down then Up returns the cursor to its row, unless it was
/// on the last row of the tab.
pub proof fn lemma_results_down_then_up(s: AppView)
    requires
        s.screen matches ScreenView::Results { lists, active_tab, cursor } && active_tab < lists.len()
            && cursor + 1 < lists[active_tab as int].len(),
        key_allowed(s, Key::Down),
    ensures
        key_step(key_step(s, Key::Down).0, Key::Up).0 == s,
{
    if let ScreenView::Results { lists, active_tab, cursor } = s.screen {
        assert(row_down(cursor, lists[active_tab as int].len() as int) == cursor + 1);
        assert(row_up((cursor + 1) as usize) == cursor);
    }
}

/// While the diff runs, every key is ignored.
pub proof fn lemma_keys_ignored_while_diffing(s: AppView, key: Key)
    requires
        s.screen is Diffing,
    ensures
        key_step(s, key) == (s, None::<(GenerationView, GenerationView)>),
{
}

/// Esc quits from the list and from the results, and changes nothing else.
pub proof fn lemma_esc_quits(s: AppView)
    requires
        !(s.screen is Diffing),
    ensures
        key_step(s, Key::Esc) == (
            AppView { screen: s.screen, should_quit: true },
            None::<(GenerationView, GenerationView)>,
        ),
{
}

/// Whether `g` is among `v`.
fn contains_generation(v: &Vec<Generation>, g: &Generation) -> (r: bool)
    ensures
        r == gen_views(v@).contains(g@),
{
    let mut i: usize = 0;
    while i < v.len()
        invariant
            i <= v.len(),
            forall|j: int| 0 <= j < i ==> v@[j]@ != g@,
        decreases v.len() - i,
    {
        if v[i].same_as(g) {
            assert(gen_views(v@)[i as int] == g@);
            return true;
        }
        i = i + 1;
    }
    assert forall|j: int| 0 <= j < gen_views(v@).len() implies gen_views(v@)[j] != g@ by {
        assert(gen_views(v@)[j] == v@[j]@);
    }
    false
}

/// The generations of `v` that differ from `g`, in order.
fn without_generation(v: &Vec<Generation>, g: &Generation) -> (r: Vec<Generation>)
    ensures
        gen_views(r@) == gen_views(v@).filter(differs_from(g@)),
{
    let ghost all = gen_views(v@);
    let mut r: Vec<Generation> = Vec::new();
    let mut i: usize = 0;
    assert(all.take(0).filter(differs_from(g@)) =~= Seq::<GenerationView>::empty()) by {
        reveal_with_fuel(Seq::filter, 1);
    }
    while i < v.len()
        invariant
            all == gen_views(v@),
            i <= v.len(),
            gen_views(r@) == all.take(i as int).filter(differs_from(g@)),
        decreases v.len() - i,
    {
        let ghost prev = gen_views(r@);
        proof {
            all.take(i as int).lemma_filter_push(all[i as int], differs_from(g@));
            assert(all.take(i as int).push(all[i as int]) =~= all.take(i + 1));
        }
        if !v[i].same_as(g) {
            let c = v[i].clone();
            r.push(c);
            assert(gen_views(r@) =~= prev.push(all[i as int]));
        }
        i = i + 1;
    }
    assert(all.take(v.len() as int) =~= all);
    r
}

/// Picks or unpicks `g` (see `toggle_pick`).
fn toggle_generation(picked: &mut Vec<Generation>, g: Generation)
    ensures
        gen_views(final(picked)@) == toggle_pick(gen_views(old(picked)@), g@),
{
    if contains_generation(picked, &g) {
        let rest = without_generation(picked, &g);
        *picked = rest;
    } else if picked.len() < 2 {
        let ghost prev = gen_views(picked@);
        let ghost gv = g@;
        picked.push(g);
        assert(gen_views(picked@) =~= prev.push(gv));
    }
}

/// Whether state `app` can take `key` (see `key_allowed`).
pub fn can_take_key(app: &DiffApp, key: Key) -> (r: bool)
    ensures
        r == key_allowed(app@, key),
{
    match &app.screen {
        Screen::SelectGenerations { generations, cursor, picked } => match key {
            Key::Down | Key::Char('j') => generations.len() > 0 && *cursor < usize::MAX,
            Key::Enter => *cursor < generations.len(),
            _ => true,
        },
        Screen::Results { changes, active_tab, cursor } => {
            if *active_tab >= 6 {
                false
            } else if key == Key::Down || key == Key::Char('j') {
                let list = changes.category(*active_tab);
                list.len() > 0 && *cursor < usize::MAX
            } else {
                true
            }
        },
        Screen::Diffing { .. } => true,
    }
}

/// Handles one key (see `key_step`); the action says whether to start a
/// diff.
pub fn handle_key(app: &mut DiffApp, key: Key) -> (action: Action)
    requires
        key_allowed(old(app)@, key),
    ensures
        (final(app)@, action@) == key_step(old(app)@, key),
{
    let mut start: Option<(Generation, Generation)> = None;
    match &mut app.screen {
        Screen::SelectGenerations { generations, cursor, picked } => match key {
            Key::Down => {
                let last = generations.len() - 1;
                *cursor = if *cursor + 1 < last {
                    *cursor + 1
                } else {
                    last
                };
            },
            Key::Up => {
                if *cursor > 0 {
                    *cursor = *cursor - 1;
                }
            },
            Key::Enter => {
                let g = generations[*cursor].clone();
                toggle_generation(picked, g);
            },
            Key::Char(c) => {
                if c == ' ' && picked.len() == 2 {
                    if picked[0].number > picked[1].number {
                        start = Some((picked[1].clone(), picked[0].clone()));
                    } else {
                        start = Some((picked[0].clone(), picked[1].clone()));
                    }
                } else if c == 'j' {
                    let last = generations.len() - 1;
                    *cursor = if *cursor + 1 < last {
                        *cursor + 1
                    } else {
                        last
                    };
                } else if c == 'k' {
                    if *cursor > 0 {
                        *cursor = *cursor - 1;
                    }
                }
            },
            Key::Esc => {
                app.should_quit = true;
            },
            _ => {},
        },
        Screen::Results { changes, active_tab, cursor } => {
            let length = changes.category(*active_tab).len();
            match key {
                Key::Tab => {
                    *active_tab = if *active_tab + 1 < 5 {
                        *active_tab + 1
                    } else {
                        5
                    };
                },
                Key::BackTab => {
                    if *active_tab > 0 {
                        *active_tab = *active_tab - 1;
                    }
                },
                Key::Esc => {
                    app.should_quit = true;
                },
                Key::Down => {
                    *cursor = if *cursor + 1 < length - 1 {
                        *cursor + 1
                    } else {
                        length - 1
                    };
                },
                Key::Up => {
                    if *cursor > 0 {
                        *cursor = *cursor - 1;
                    }
                },
                Key::Char(c) => {
                    if c == 'j' {
                        *cursor = if *cursor + 1 < length - 1 {
                            *cursor + 1
                        } else {
                            length - 1
                        };
                    } else if c == 'k' {
                        if *cursor > 0 {
                            *cursor = *cursor - 1;
                        }
                    } else if '0' <= c && c <= '5' {
                        *active_tab = (c as u32 - '0' as u32) as usize;
                    }
                },
                _ => {},
            }
        },
        Screen::Diffing { .. } => {},
    }
    match start {
        Some((old, new)) => {
            app.screen = Screen::Diffing { old: old.clone(), new: new.clone(), spin_idx: 0 };
            Action::StartDiff { old, new }
        },
        None => Action::Nothing,
    }
}

/// The key pressed in `evt`, if it is a key press.
pub open spec fn pressed_key(evt: Event) -> Option<Key> {
    match evt {
        Event::Key { code, kind } => if kind == KeyEventKind::Press {
            Some(code)
        } else {
            None
        },
        Event::Other => None,
    }
}

/// Handles one terminal event: a key press is handled as a key, anything
/// else is ignored.
pub fn handle_events(app: &mut DiffApp, evt: Event) -> (action: Action)
    requires
        pressed_key(evt) matches Some(k) ==> key_allowed(old(app)@, k),
    ensures
        pressed_key(evt) matches Some(k) ==> (final(app)@, action@) == key_step(old(app)@, k),
        pressed_key(evt) is None ==> final(app)@ == old(app)@ && action@ is None,
{
    match evt {
        Event::Key { code, kind } => {
            if kind == KeyEventKind::Press {
                handle_key(app, code)
            } else {
                Action::Nothing
            }
        },
        Event::Other => Action::Nothing,
    }
}

} // verus!
