use ccol::config::parse_config;
use ccol::nav::{clone_chain, find_chain, same_chain, visible_chains, NavigationState};
use ccol::session::{bound_command, run_app, Action, Command, KeyCode, KeyEvent, KeyEventKind};
use ccol::store::{find_command_in_json, AppState, CurrentScreen};
use ccol::tree::CollectionTree;

const EXAMPLE: &[u8] = br#"{"git": {"branch": {"delete": "git branch -D "}, "status": "git status"}, "q": "exit"}"#;

fn app_of(text: &[u8]) -> AppState {
    AppState::new(parse_config(text).unwrap()).unwrap()
}

fn press(code: KeyCode) -> KeyEvent {
    KeyEvent { code, kind: KeyEventKind::Press }
}

fn chain(identifiers: &[&str]) -> Vec<String> {
    identifiers.iter().map(|identifier| identifier.to_string()).collect()
}

fn opened(app: &AppState) -> Vec<Vec<String>> {
    let mut chains: Vec<Vec<String>> = app.tree_state.opened().clone();
    chains.sort();
    chains.dedup();
    chains
}

#[test]
fn a_new_session_shows_the_menu_with_nothing_selected() {
    let app = app_of(EXAMPLE);
    assert_eq!(app.current_screen, CurrentScreen::Main);
    assert!(app.tree_state.selected().is_empty());
    assert!(app.tree_state.opened().is_empty());
    assert_eq!(app.tree_items.len(), 5);
    assert_eq!(app.shown(), vec![chain(&["/git"]), chain(&["/q"])]);
}

#[test]
fn a_session_on_a_configuration_written_by_hand() {
    let config = vec![
        ("a".to_string(), CollectionTree::Branch(vec![("b".to_string(), CollectionTree::Leaf("x".to_string()))])),
    ];
    let mut app = AppState::from_config(config);
    assert_eq!(app.tree_items.len(), 2);
    let events = vec![
        press(KeyCode::Down),
        press(KeyCode::Right),
        press(KeyCode::Down),
        press(KeyCode::Enter),
    ];
    assert_eq!(run_app(&mut app, &events), Some("/a/b".to_string()));
}

#[test]
fn bindings_of_the_menu() {
    assert_eq!(bound_command(KeyCode::Up), Command::MoveUp);
    assert_eq!(bound_command(KeyCode::Char('k')), Command::MoveUp);
    assert_eq!(bound_command(KeyCode::Down), Command::MoveDown);
    assert_eq!(bound_command(KeyCode::Char('j')), Command::MoveDown);
    assert_eq!(bound_command(KeyCode::Right), Command::Expand);
    assert_eq!(bound_command(KeyCode::Char('l')), Command::Expand);
    assert_eq!(bound_command(KeyCode::Left), Command::Collapse);
    assert_eq!(bound_command(KeyCode::Char('h')), Command::Collapse);
    assert_eq!(bound_command(KeyCode::Enter), Command::Activate);
    assert_eq!(bound_command(KeyCode::Char('e')), Command::Edit);
    assert_eq!(bound_command(KeyCode::Char('q')), Command::Quit);
    assert_eq!(bound_command(KeyCode::Esc), Command::Quit);
    assert_eq!(bound_command(KeyCode::Char('x')), Command::Nothing);
    assert_eq!(bound_command(KeyCode::Char('K')), Command::Nothing);
    assert_eq!(bound_command(KeyCode::Other), Command::Nothing);
}

#[test]
fn down_moves_through_the_visible_nodes_and_stops_at_the_last() {
    let mut app = app_of(EXAMPLE);
    assert_eq!(app.handle_key(press(KeyCode::Down)), Action::Continue);
    assert_eq!(app.tree_state.selected(), &chain(&["/git"]));
    app.handle_key(press(KeyCode::Char('j')));
    assert_eq!(app.tree_state.selected(), &chain(&["/q"]));
    app.handle_key(press(KeyCode::Down));
    assert_eq!(app.tree_state.selected(), &chain(&["/q"]));
}

#[test]
fn up_moves_through_the_visible_nodes_and_stops_at_the_first() {
    let mut app = app_of(EXAMPLE);
    app.handle_key(press(KeyCode::Up));
    assert_eq!(app.tree_state.selected(), &chain(&["/q"]));
    app.handle_key(press(KeyCode::Char('k')));
    assert_eq!(app.tree_state.selected(), &chain(&["/git"]));
    app.handle_key(press(KeyCode::Up));
    assert_eq!(app.tree_state.selected(), &chain(&["/git"]));
}

#[test]
fn moving_follows_what_is_expanded() {
    let mut app = app_of(EXAMPLE);
    app.handle_key(press(KeyCode::Down));
    app.handle_key(press(KeyCode::Right));
    assert_eq!(
        app.shown(),
        vec![chain(&["/git"]), chain(&["/git", "/git/branch"]), chain(&["/git", "/git/status"]), chain(&["/q"])]
    );
    app.handle_key(press(KeyCode::Down));
    assert_eq!(app.tree_state.selected(), &chain(&["/git", "/git/branch"]));
    app.handle_key(press(KeyCode::Char('l')));
    app.handle_key(press(KeyCode::Down));
    assert_eq!(app.tree_state.selected(), &chain(&["/git", "/git/branch", "/git/branch/delete"]));
    app.handle_key(press(KeyCode::Down));
    assert_eq!(app.tree_state.selected(), &chain(&["/git", "/git/status"]));
    app.handle_key(press(KeyCode::Down));
    assert_eq!(app.tree_state.selected(), &chain(&["/q"]));
    app.handle_key(press(KeyCode::Up));
    app.handle_key(press(KeyCode::Up));
    assert_eq!(app.tree_state.selected(), &chain(&["/git", "/git/branch", "/git/branch/delete"]));
}

#[test]
fn a_selection_that_is_not_on_screen_moves_to_an_end() {
    let mut app = app_of(EXAMPLE);
    app.tree_state.select(chain(&["/git", "/git/status"]));
    app.handle_key(press(KeyCode::Down));
    assert_eq!(app.tree_state.selected(), &chain(&["/git"]));
    app.tree_state.select(chain(&["/git", "/git/status"]));
    app.handle_key(press(KeyCode::Up));
    assert_eq!(app.tree_state.selected(), &chain(&["/q"]));
}

#[test]
fn expand_and_collapse_change_only_groups() {
    let mut app = app_of(EXAMPLE);
    app.handle_key(press(KeyCode::Right));
    assert!(opened(&app).is_empty());
    app.handle_key(press(KeyCode::Down));
    app.handle_key(press(KeyCode::Right));
    assert_eq!(opened(&app), vec![chain(&["/git"])]);
    app.handle_key(press(KeyCode::Right));
    assert_eq!(opened(&app), vec![chain(&["/git"])]);
    app.handle_key(press(KeyCode::Char('h')));
    assert!(opened(&app).is_empty());
    assert_eq!(app.tree_state.selected(), &chain(&["/git"]));
    app.handle_key(press(KeyCode::Left));
    assert!(opened(&app).is_empty());
    assert_eq!(app.tree_state.selected(), &chain(&["/git"]));
    app.handle_key(press(KeyCode::Up));
    app.handle_key(press(KeyCode::Down));
    assert_eq!(app.tree_state.selected(), &chain(&["/q"]));
    app.handle_key(press(KeyCode::Right));
    app.handle_key(press(KeyCode::Char('l')));
    assert!(opened(&app).is_empty());
    app.handle_key(press(KeyCode::Left));
    assert!(opened(&app).is_empty());
    assert_eq!(app.tree_state.selected(), &chain(&["/q"]));
}

#[test]
fn enter_toggles_a_group() {
    let mut app = app_of(EXAMPLE);
    app.handle_key(press(KeyCode::Down));
    assert_eq!(app.handle_key(press(KeyCode::Enter)), Action::Continue);
    assert_eq!(opened(&app), vec![chain(&["/git"])]);
    assert_eq!(app.handle_key(press(KeyCode::Enter)), Action::Continue);
    assert!(opened(&app).is_empty());
}

#[test]
fn toggling_twice_restores_the_expanded_set() {
    let mut app = app_of(EXAMPLE);
    app.handle_key(press(KeyCode::Down));
    app.handle_key(press(KeyCode::Enter));
    app.handle_key(press(KeyCode::Down));
    app.handle_key(press(KeyCode::Enter));
    let before = opened(&app);
    assert_eq!(before, vec![chain(&["/git"]), chain(&["/git", "/git/branch"])]);
    app.handle_key(press(KeyCode::Enter));
    assert_eq!(opened(&app), vec![chain(&["/git"])]);
    app.handle_key(press(KeyCode::Enter));
    assert_eq!(opened(&app), before);

    let mut state = NavigationState::new();
    state.open(chain(&["/a"]));
    assert!(state.toggle(chain(&["/b"])));
    assert!(state.toggle(chain(&["/b"])));
    assert!(state.is_open(&chain(&["/a"])));
    assert!(!state.is_open(&chain(&["/b"])));
    assert!(state.toggle(chain(&["/a"])));
    assert!(state.toggle(chain(&["/a"])));
    assert!(state.is_open(&chain(&["/a"])));
    assert!(!state.toggle(Vec::new()));
}

#[test]
fn enter_on_a_leaf_commits_its_identifier() {
    let mut app = app_of(EXAMPLE);
    app.handle_key(press(KeyCode::Up));
    assert_eq!(app.handle_key(press(KeyCode::Enter)), Action::Commit("/q".to_string()));
    assert!(opened(&app).is_empty());
    assert_eq!(
        find_command_in_json("/q".to_string(), &app),
        Some(("q".to_string(), "exit".to_string()))
    );
}

#[test]
fn enter_with_nothing_selected_does_nothing() {
    let mut app = app_of(EXAMPLE);
    assert_eq!(app.handle_key(press(KeyCode::Enter)), Action::Continue);
    assert!(app.tree_state.selected().is_empty());
    assert!(opened(&app).is_empty());
}

#[test]
fn enter_on_an_empty_group_commits_nothing() {
    let mut app = app_of(br#"{"empty": {}}"#);
    app.handle_key(press(KeyCode::Down));
    assert_eq!(app.tree_state.selected(), &chain(&["/empty"]));
    assert_eq!(app.handle_key(press(KeyCode::Enter)), Action::Continue);
    assert!(opened(&app).is_empty());
}

#[test]
fn quit_keys_end_the_session() {
    let mut app = app_of(EXAMPLE);
    assert_eq!(app.handle_key(press(KeyCode::Char('q'))), Action::Quit);
    assert_eq!(app.handle_key(press(KeyCode::Esc)), Action::Quit);
    assert_eq!(app.current_screen, CurrentScreen::Main);
}

#[test]
fn editing_is_left_by_escape_only() {
    let mut app = app_of(EXAMPLE);
    app.handle_key(press(KeyCode::Down));
    assert_eq!(app.handle_key(press(KeyCode::Char('e'))), Action::Continue);
    assert_eq!(app.current_screen, CurrentScreen::Editing);
    for code in [
        KeyCode::Char('q'),
        KeyCode::Char('e'),
        KeyCode::Enter,
        KeyCode::Up,
        KeyCode::Down,
        KeyCode::Left,
        KeyCode::Right,
        KeyCode::Other,
    ] {
        assert_eq!(app.handle_key(press(code)), Action::Continue);
        assert_eq!(app.current_screen, CurrentScreen::Editing);
        assert_eq!(app.tree_state.selected(), &chain(&["/git"]));
        assert!(opened(&app).is_empty());
    }
    assert_eq!(app.handle_key(press(KeyCode::Esc)), Action::Continue);
    assert_eq!(app.current_screen, CurrentScreen::Main);
}

#[test]
fn released_keys_are_ignored() {
    let mut app = app_of(EXAMPLE);
    for code in [KeyCode::Down, KeyCode::Char('q'), KeyCode::Esc, KeyCode::Enter, KeyCode::Char('e')] {
        let event = KeyEvent { code, kind: KeyEventKind::Release };
        assert_eq!(app.handle_key(event), Action::Continue);
        assert!(app.tree_state.selected().is_empty());
        assert_eq!(app.current_screen, CurrentScreen::Main);
    }
    app.handle_key(press(KeyCode::Char('e')));
    app.handle_key(KeyEvent { code: KeyCode::Esc, kind: KeyEventKind::Release });
    assert_eq!(app.current_screen, CurrentScreen::Editing);
}

#[test]
fn repeated_keys_count_as_pressed() {
    let mut app = app_of(EXAMPLE);
    app.handle_key(KeyEvent { code: KeyCode::Down, kind: KeyEventKind::Repeat });
    assert_eq!(app.tree_state.selected(), &chain(&["/git"]));
}

#[test]
fn unbound_keys_do_nothing() {
    let mut app = app_of(EXAMPLE);
    app.handle_key(press(KeyCode::Down));
    for code in [KeyCode::Other, KeyCode::Char('x'), KeyCode::Char('Q')] {
        assert_eq!(app.handle_key(press(code)), Action::Continue);
        assert_eq!(app.tree_state.selected(), &chain(&["/git"]));
        assert_eq!(app.current_screen, CurrentScreen::Main);
    }
}

#[test]
fn a_session_of_the_example() {
    let mut app = app_of(br#"{"git": {"branch": {"delete": "git branch -D "}}, "q": "exit"}"#);
    let events = vec![
        press(KeyCode::Down),
        press(KeyCode::Enter),
        press(KeyCode::Down),
        KeyEvent { code: KeyCode::Char('q'), kind: KeyEventKind::Release },
        press(KeyCode::Char('l')),
        press(KeyCode::Char('j')),
        press(KeyCode::Enter),
        press(KeyCode::Char('q')),
    ];
    let output = run_app(&mut app, &events);
    assert_eq!(output, Some("/git/branch/delete".to_string()));
    assert_eq!(
        find_command_in_json(output.unwrap(), &app),
        Some(("delete".to_string(), "git branch -D ".to_string()))
    );
}

#[test]
fn a_session_ends_at_the_first_quit() {
    let mut app = app_of(EXAMPLE);
    let events = vec![press(KeyCode::Down), press(KeyCode::Esc), press(KeyCode::Down), press(KeyCode::Enter)];
    assert_eq!(run_app(&mut app, &events), None);
    assert_eq!(app.tree_state.selected(), &chain(&["/git"]));
}

#[test]
fn a_session_without_an_end_yields_nothing() {
    let mut app = app_of(EXAMPLE);
    assert_eq!(run_app(&mut app, &Vec::new()), None);
    assert_eq!(run_app(&mut app, &vec![press(KeyCode::Down), press(KeyCode::Char('e'))]), None);
    assert_eq!(app.current_screen, CurrentScreen::Editing);
    assert_eq!(run_app(&mut app, &vec![press(KeyCode::Char('q'))]), None);
    assert_eq!(app.current_screen, CurrentScreen::Editing);
}

#[test]
fn the_empty_configuration_commits_nothing_and_quits() {
    let mut app = app_of(b"{}");
    assert!(app.tree_items.is_empty());
    assert!(app.shown().is_empty());
    for code in [KeyCode::Enter, KeyCode::Down, KeyCode::Up, KeyCode::Right, KeyCode::Left] {
        assert_eq!(app.handle_key(press(code)), Action::Continue);
        assert!(app.tree_state.selected().is_empty());
        assert!(app.tree_state.opened().is_empty());
    }
    let events = vec![press(KeyCode::Down), press(KeyCode::Enter), press(KeyCode::Enter), press(KeyCode::Char('q'))];
    assert_eq!(run_app(&mut app, &events), None);
    assert_eq!(app.handle_key(press(KeyCode::Char('q'))), Action::Quit);
}

#[test]
fn navigation_state_opens_and_closes() {
    let mut state = NavigationState::new();
    assert!(!state.open(Vec::new()));
    assert!(state.open(chain(&["/a"])));
    assert!(!state.open(chain(&["/a"])));
    assert!(state.open(chain(&["/a", "/a/b"])));
    assert!(state.is_open(&chain(&["/a"])));
    assert!(state.is_open(&chain(&["/a", "/a/b"])));
    assert!(!state.is_open(&chain(&["/a/b"])));
    assert!(!state.is_open(&Vec::new()));
    assert!(state.close(&chain(&["/a"])));
    assert!(!state.close(&chain(&["/a"])));
    assert!(!state.is_open(&chain(&["/a"])));
    assert!(state.is_open(&chain(&["/a", "/a/b"])));
    assert_eq!(state.opened(), &vec![chain(&["/a", "/a/b"])]);
}

#[test]
fn navigation_state_selects() {
    let mut state = NavigationState::new();
    assert!(!state.select(Vec::new()));
    assert!(state.select(chain(&["/a"])));
    assert!(!state.select(chain(&["/a"])));
    assert_eq!(state.selected(), &chain(&["/a"]));
    assert!(state.select(Vec::new()));
    assert!(state.selected().is_empty());
    assert!(!state.toggle_selected());
    state.select(chain(&["/a"]));
    assert!(state.toggle_selected());
    assert!(state.is_open(&chain(&["/a"])));
    assert!(state.toggle_selected());
    assert!(!state.is_open(&chain(&["/a"])));
}

#[test]
fn navigation_state_moves_among_the_chains_it_is_given() {
    let shown = vec![chain(&["/a"]), chain(&["/b"]), chain(&["/c"])];
    let mut state = NavigationState::new();
    assert!(state.key_down(&shown));
    assert_eq!(state.selected(), &chain(&["/a"]));
    assert!(state.key_down(&shown));
    assert!(state.key_down(&shown));
    assert_eq!(state.selected(), &chain(&["/c"]));
    assert!(!state.key_down(&shown));
    assert!(state.key_up(&shown));
    assert_eq!(state.selected(), &chain(&["/b"]));
    assert!(state.key_up(&shown));
    assert!(!state.key_up(&shown));
    assert_eq!(state.selected(), &chain(&["/a"]));
    assert!(state.key_up(&Vec::new()));
    assert!(state.selected().is_empty());
    assert!(!state.key_down(&Vec::new()));
    assert!(state.key_up(&shown));
    assert_eq!(state.selected(), &chain(&["/c"]));
}

#[test]
fn chains_are_compared_and_found_by_their_identifiers() {
    assert!(same_chain(&chain(&["/a", "/a/b"]), &chain(&["/a", "/a/b"])));
    assert!(!same_chain(&chain(&["/a", "/a/b"]), &chain(&["/a"])));
    assert!(!same_chain(&chain(&["/a"]), &chain(&["/b"])));
    assert!(same_chain(&Vec::new(), &Vec::new()));
    assert_eq!(clone_chain(&chain(&["/a", "/a/b"])), chain(&["/a", "/a/b"]));
    let chains = vec![chain(&["/a"]), chain(&["/b"]), chain(&["/a"])];
    assert_eq!(find_chain(&chains, &chain(&["/a"])), Some(0));
    assert_eq!(find_chain(&chains, &chain(&["/b"])), Some(1));
    assert_eq!(find_chain(&chains, &chain(&["/c"])), None);
    assert_eq!(find_chain(&Vec::new(), &chain(&["/a"])), None);
}

#[test]
fn visible_chains_show_what_is_expanded() {
    let app = app_of(EXAMPLE);
    let mut state = NavigationState::new();
    let top = String::new();
    assert_eq!(visible_chains(&app.config, &top, &Vec::new(), &state), vec![chain(&["/git"]), chain(&["/q"])]);
    state.open(chain(&["/git", "/git/branch"]));
    assert_eq!(visible_chains(&app.config, &top, &Vec::new(), &state), vec![chain(&["/git"]), chain(&["/q"])]);
    state.open(chain(&["/q"]));
    state.open(chain(&["/git"]));
    assert_eq!(
        visible_chains(&app.config, &top, &Vec::new(), &state),
        vec![
            chain(&["/git"]),
            chain(&["/git", "/git/branch"]),
            chain(&["/git", "/git/branch", "/git/branch/delete"]),
            chain(&["/git", "/git/status"]),
            chain(&["/q"]),
        ]
    );
}

#[test]
fn the_edit_popup_is_about_the_highlighted_command() {
    let mut app = app_of(EXAMPLE);
    assert_eq!(app.edit_target(), None);
    app.handle_key(press(KeyCode::Up));
    assert_eq!(app.edit_target(), None);
    app.handle_key(press(KeyCode::Char('e')));
    assert_eq!(app.edit_target(), Some(("q".to_string(), "exit".to_string())));
    app.handle_key(press(KeyCode::Esc));
    assert_eq!(app.edit_target(), None);
    app.handle_key(press(KeyCode::Up));
    app.handle_key(press(KeyCode::Char('e')));
    assert_eq!(app.tree_state.selected(), &chain(&["/git"]));
    assert_eq!(app.edit_target(), None);
}

#[test]
fn the_edit_popup_without_a_highlight_is_about_nothing() {
    let mut app = app_of(EXAMPLE);
    app.handle_key(press(KeyCode::Char('e')));
    assert_eq!(app.current_screen, CurrentScreen::Editing);
    assert_eq!(app.edit_target(), None);
}
