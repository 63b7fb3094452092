use nixos_gen_diff::model::changes::PackageChanges;
use nixos_gen_diff::model::generation::Generation;
use nixos_gen_diff::model::package::{PackageChange, Size};
use nixos_gen_diff::ui::app::{advance, spinner_frame, AdvanceError, DiffApp, DiffPoll, Screen};
use nixos_gen_diff::ui::event::{can_take_key, handle_events, handle_key, Action, Event, Key, KeyEventKind};

fn generation(n: u32) -> Generation {
    Generation {
        number: n,
        link: format!("/nix/store/{}", n),
        build_date: "2024-05-01 10:00:00".to_string(),
        ver: "24.05".to_string(),
        kernel: "6.6.30".to_string(),
        is_current: n == 3,
    }
}

fn picker(cursor: usize, picked: Vec<u32>) -> DiffApp {
    DiffApp {
        screen: Screen::SelectGenerations {
            generations: vec![generation(1), generation(2), generation(3)],
            cursor,
            picked: picked.into_iter().map(generation).collect(),
        },
        should_quit: false,
    }
}

fn cursor_and_picks(app: &DiffApp) -> (usize, Vec<u32>) {
    match &app.screen {
        Screen::SelectGenerations { cursor, picked, .. } => (*cursor, picked.iter().map(|g| g.number).collect()),
        _ => panic!("not choosing"),
    }
}

fn results(tab: usize, cursor: usize) -> DiffApp {
    let p = |name: &str, old: &[&str], new: &[&str]| PackageChange {
        pkg_name: name.to_string(),
        old_ver: old.iter().map(|s| s.to_string()).collect(),
        new_ver: new.iter().map(|s| s.to_string()).collect(),
        size_delta: None,
    };
    let changes = PackageChanges::from_packages(vec![
        p("a", &["1"], &["2"]),
        p("b", &["1"], &["2"]),
        p("c", &["1"], &["2"]),
        p("d", &[], &["1"]),
    ]);
    DiffApp { screen: Screen::Results { changes, active_tab: tab, cursor }, should_quit: false }
}

fn tab_and_cursor(app: &DiffApp) -> (usize, usize) {
    match &app.screen {
        Screen::Results { active_tab, cursor, .. } => (*active_tab, *cursor),
        _ => panic!("not on results"),
    }
}

#[test]
fn cursor_stays_in_the_list() {
    let mut app = picker(0, vec![]);
    handle_key(&mut app, Key::Up);
    assert_eq!(cursor_and_picks(&app).0, 0);
    handle_key(&mut app, Key::Down);
    handle_key(&mut app, Key::Down);
    handle_key(&mut app, Key::Down);
    assert_eq!(cursor_and_picks(&app).0, 2);
    handle_key(&mut app, Key::Up);
    assert_eq!(cursor_and_picks(&app).0, 1);
}

#[test]
fn enter_picks_and_unpicks() {
    let mut app = picker(1, vec![]);
    handle_key(&mut app, Key::Enter);
    assert_eq!(cursor_and_picks(&app).1, vec![2]);
    handle_key(&mut app, Key::Enter);
    assert_eq!(cursor_and_picks(&app).1, Vec::<u32>::new());
}

#[test]
fn at_most_two_picks() {
    let mut app = picker(0, vec![3, 1]);
    handle_key(&mut app, Key::Down);
    handle_key(&mut app, Key::Enter);
    assert_eq!(cursor_and_picks(&app).1, vec![3, 1]);
    handle_key(&mut app, Key::Down);
    handle_key(&mut app, Key::Enter);
    assert_eq!(cursor_and_picks(&app).1, vec![1]);
}

#[test]
fn space_starts_the_diff_oldest_first() {
    let mut app = picker(0, vec![3, 1]);
    match handle_key(&mut app, Key::Char(' ')) {
        Action::StartDiff { old, new } => {
            assert_eq!(old.number, 1);
            assert_eq!(new.number, 3);
            assert_eq!(old.link, "/nix/store/1");
        }
        Action::Nothing => panic!("no diff started"),
    }
    match &app.screen {
        Screen::Diffing { old, new, spin_idx } => {
            assert_eq!((old.number, new.number, *spin_idx), (1, 3, 0));
        }
        _ => panic!("not diffing"),
    }
}

#[test]
fn space_needs_two_picks() {
    let mut app = picker(0, vec![2]);
    assert!(matches!(handle_key(&mut app, Key::Char(' ')), Action::Nothing));
    assert_eq!(cursor_and_picks(&app).1, vec![2]);
}

#[test]
fn esc_quits() {
    let mut app = picker(0, vec![]);
    handle_key(&mut app, Key::Esc);
    assert!(app.should_quit);
    let mut app = results(0, 0);
    handle_key(&mut app, Key::Esc);
    assert!(app.should_quit);
}

#[test]
fn tabs_and_rows_on_results() {
    let mut app = results(0, 0);
    for _ in 0..8 {
        handle_key(&mut app, Key::Tab);
    }
    assert_eq!(tab_and_cursor(&app), (5, 0));
    handle_key(&mut app, Key::BackTab);
    assert_eq!(tab_and_cursor(&app), (4, 0));
    handle_key(&mut app, Key::Char('1'));
    assert_eq!(tab_and_cursor(&app), (1, 0));
    handle_key(&mut app, Key::Char('j'));
    handle_key(&mut app, Key::Down);
    handle_key(&mut app, Key::Down);
    assert_eq!(tab_and_cursor(&app), (1, 2));
    handle_key(&mut app, Key::Char('k'));
    assert_eq!(tab_and_cursor(&app), (1, 1));
    handle_key(&mut app, Key::Char('3'));
    assert_eq!(tab_and_cursor(&app), (3, 1));
    handle_key(&mut app, Key::Char('9'));
    assert_eq!(tab_and_cursor(&app), (3, 1));
    handle_key(&mut app, Key::Down);
    assert_eq!(tab_and_cursor(&app), (3, 0));
}

#[test]
fn moving_down_an_empty_tab_is_refused() {
    let app = results(0, 0);
    assert!(!can_take_key(&app, Key::Down));
    assert!(!can_take_key(&app, Key::Char('j')));
    assert!(can_take_key(&app, Key::Up));
    let app = results(1, 0);
    assert!(can_take_key(&app, Key::Down));
    let app = DiffApp {
        screen: Screen::SelectGenerations { generations: vec![], cursor: 0, picked: vec![] },
        should_quit: false,
    };
    assert!(!can_take_key(&app, Key::Down));
    assert!(!can_take_key(&app, Key::Enter));
}

#[test]
fn only_presses_count() {
    let mut app = picker(0, vec![]);
    handle_events(&mut app, Event::Key { code: Key::Esc, kind: KeyEventKind::Release });
    assert!(!app.should_quit);
    handle_events(&mut app, Event::Other);
    assert!(!app.should_quit);
    handle_events(&mut app, Event::Key { code: Key::Esc, kind: KeyEventKind::Press });
    assert!(app.should_quit);
}

fn diffing() -> DiffApp {
    DiffApp { screen: Screen::Diffing { old: generation(1), new: generation(2), spin_idx: 0 }, should_quit: false }
}

#[test]
fn keys_do_nothing_while_diffing() {
    let mut app = diffing();
    assert!(matches!(handle_key(&mut app, Key::Esc), Action::Nothing));
    assert!(!app.should_quit);
}

#[test]
fn ticks_while_waiting() {
    let mut app = diffing();
    assert_eq!(advance(&mut app, DiffPoll::Pending), Ok(()));
    assert_eq!(advance(&mut app, DiffPoll::Pending), Ok(()));
    match &app.screen {
        Screen::Diffing { spin_idx, .. } => assert_eq!(*spin_idx, 2),
        _ => panic!("not diffing"),
    }
    assert_eq!(advance(&mut app, DiffPoll::Failed), Err(AdvanceError::DiffFailed));
    assert_eq!(advance(&mut app, DiffPoll::Disconnected), Err(AdvanceError::Disconnected));
}

#[test]
fn finished_diff_shows_results() {
    let mut app = diffing();
    let pkgs = vec![PackageChange {
        pkg_name: "x".to_string(),
        old_ver: vec![],
        new_ver: vec![],
        size_delta: Some(Size { delta: "1.0".to_string(), unit: "KiB".to_string() }),
    }];
    assert_eq!(advance(&mut app, DiffPoll::Ready(pkgs)), Ok(()));
    match &app.screen {
        Screen::Results { changes, active_tab, cursor } => {
            assert_eq!((*active_tab, *cursor), (0, 0));
            assert_eq!(changes.rebuilt.len(), 1);
            assert_eq!(changes.rebuilt[0].pkg_name, "x");
        }
        _ => panic!("no results"),
    }
    let mut app = picker(0, vec![]);
    assert_eq!(advance(&mut app, DiffPoll::Failed), Ok(()));
}

#[test]
fn spinner_cycles_through_ten_frames() {
    let frames: Vec<char> = (0..12).map(spinner_frame).collect();
    assert_eq!(frames[0], '⠋');
    assert_eq!(frames[9], '⠏');
    assert_eq!(frames[10], '⠋');
    assert_eq!(frames[11], '⠙');
}

#[test]
fn j_and_k_move_on_the_generation_list() {
    let mut app = picker(0, vec![]);
    handle_key(&mut app, Key::Char('j'));
    assert_eq!(cursor_and_picks(&app).0, 1);
    handle_key(&mut app, Key::Char('j'));
    handle_key(&mut app, Key::Char('j'));
    assert_eq!(cursor_and_picks(&app).0, 2);
    handle_key(&mut app, Key::Char('k'));
    assert_eq!(cursor_and_picks(&app).0, 1);
    let empty = DiffApp {
        screen: Screen::SelectGenerations { generations: vec![], cursor: 0, picked: vec![] },
        should_quit: false,
    };
    assert!(!can_take_key(&empty, Key::Char('j')));
    assert!(can_take_key(&empty, Key::Char('k')));
}
