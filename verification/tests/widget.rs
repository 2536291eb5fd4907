use ccol::config::parse_config;
use ccol::nav::{visible_chains, NavigationState};
use ccol::error::CcolError;
use ccol::store::AppState;
use ccol::tree::CollectionTree;
use ccol::widget::{sync_widget_state, widget_items};
use ratatui::buffer::Buffer;
use ratatui::layout::Rect;
use ratatui::widgets::StatefulWidget;
use tui_tree_widget::{Tree, TreeItem, TreeState};

const MENU: &[u8] = br#"{"git": {"branch": {"delete": "git branch -D ", "list": "git branch"}, "status": "git status"}, "empty": {}, "q": "exit"}"#;

fn app_of(text: &[u8]) -> AppState {
    AppState::new(parse_config(text).unwrap()).unwrap()
}

fn chain(identifiers: &[&str]) -> Vec<String> {
    identifiers.iter().map(|identifier| identifier.to_string()).collect()
}

fn items_of(app: &AppState) -> Vec<TreeItem<'static, String>> {
    widget_items(&app.config, String::new()).unwrap()
}

fn identifiers_of(items: &[TreeItem<'static, String>]) -> Vec<String> {
    items.iter().map(|item| item.identifier().clone()).collect()
}

fn widget_state_of(state: &NavigationState) -> TreeState<String> {
    let mut widget_state = TreeState::default();
    sync_widget_state(&mut widget_state, state);
    widget_state
}

fn render(items: &[TreeItem<'static, String>], widget_state: &mut TreeState<String>) {
    let area = Rect::new(0, 0, 40, 20);
    let mut buffer = Buffer::empty(area);
    Tree::new(items).unwrap().render(area, &mut buffer, widget_state);
}

#[test]
fn the_items_make_a_tree_that_the_widget_accepts() {
    let app = app_of(MENU);
    let items = items_of(&app);
    assert!(Tree::new(&items).is_ok());
    assert_eq!(identifiers_of(&items), vec!["/git", "/empty", "/q"]);
    assert_eq!(identifiers_of(items[0].children()), vec!["/git/branch", "/git/status"]);
    assert_eq!(
        identifiers_of(items[0].children()[0].children()),
        vec!["/git/branch/delete", "/git/branch/list"]
    );
    assert!(items[0].children()[0].children()[0].children().is_empty());
    assert!(items[0].children()[1].children().is_empty());
    assert!(items[1].children().is_empty());
    assert!(items[2].children().is_empty());
}

#[test]
fn the_items_stand_for_the_nodes() {
    let app = app_of(MENU);
    let mut pending: Vec<TreeItem<'static, String>> = items_of(&app);
    pending.reverse();
    let mut seen = Vec::new();
    while let Some(item) = pending.pop() {
        seen.push((item.identifier().clone(), identifiers_of(item.children())));
        pending.extend(item.children().iter().rev().cloned());
    }
    let nodes: Vec<(String, Vec<String>)> = app
        .tree_items
        .iter()
        .map(|node| (node.identifier.clone(), node.children.clone()))
        .collect();
    assert_eq!(seen, nodes);
}

#[test]
fn the_items_show_the_display_texts() {
    let app = app_of(br#"{"git": {"status": "git status"}, "q": "exit"}"#);
    let items = items_of(&app);
    let mut widget_state: TreeState<String> = TreeState::default();
    widget_state.open(chain(&["/git"]));
    let area = Rect::new(0, 0, 30, 3);
    let mut buffer = Buffer::empty(area);
    Tree::new(&items).unwrap().render(area, &mut buffer, &mut widget_state);
    let lines: Vec<String> = (0..3)
        .map(|y| (0..30).map(|x| buffer[(x, y)].symbol().to_string()).collect::<String>())
        .collect();
    assert!(lines[0].contains("git") && !lines[0].contains("status"));
    assert!(lines[1].contains("status: git status"));
    assert!(lines[2].contains("q: exit"));
}

#[test]
fn items_under_a_prefix_carry_it() {
    let config = vec![("a".to_string(), CollectionTree::Leaf("1".to_string()))];
    let items = widget_items(&config, "/top".to_string()).unwrap();
    assert_eq!(identifiers_of(&items), vec!["/top/a"]);
    assert!(widget_items(&Vec::new(), String::new()).unwrap().is_empty());
}

#[test]
fn a_label_twice_in_a_group_below_is_refused() {
    let twice = CollectionTree::Branch(vec![
        ("a".to_string(), CollectionTree::Leaf("1".to_string())),
        ("a".to_string(), CollectionTree::Leaf("2".to_string())),
    ]);
    let config = vec![("g".to_string(), twice)];
    assert!(matches!(widget_items(&config, String::new()), Err(CcolError::FileIO(_))));
    let deeper = vec![("h".to_string(), CollectionTree::Branch(config))];
    assert!(matches!(widget_items(&deeper, String::new()), Err(CcolError::FileIO(_))));
}

#[test]
fn a_label_twice_at_the_top_is_left_to_the_widget() {
    let config = vec![
        ("a".to_string(), CollectionTree::Leaf("1".to_string())),
        ("a".to_string(), CollectionTree::Leaf("2".to_string())),
    ];
    let items = widget_items(&config, String::new()).unwrap();
    assert_eq!(identifiers_of(&items), vec!["/a", "/a"]);
    assert!(Tree::new(&items).is_err());
}

#[test]
fn the_visible_chains_are_those_that_the_widget_lists() {
    let app = app_of(MENU);
    let items = items_of(&app);
    let expansions: Vec<Vec<Vec<String>>> = vec![
        vec![],
        vec![chain(&["/git"])],
        vec![chain(&["/git", "/git/branch"])],
        vec![chain(&["/git"]), chain(&["/git", "/git/branch"])],
        vec![chain(&["/git"]), chain(&["/empty"]), chain(&["/q"])],
        vec![chain(&["/git"]), chain(&["/git", "/git/status"]), chain(&["/nope"])],
    ];
    for expansion in expansions {
        let mut state = NavigationState::new();
        for opened in &expansion {
            state.open(opened.clone());
        }
        let widget_state = widget_state_of(&state);
        let listed: Vec<Vec<String>> = widget_state
            .flatten(&items)
            .into_iter()
            .map(|flattened| flattened.identifier)
            .collect();
        assert_eq!(visible_chains(&app.config, &String::new(), &Vec::new(), &state), listed);
    }
}

#[test]
fn moving_agrees_with_the_widget() {
    let app = app_of(MENU);
    let items = items_of(&app);
    let mut state = NavigationState::new();
    state.open(chain(&["/git"]));
    state.open(chain(&["/git", "/git/branch"]));
    let shown = visible_chains(&app.config, &String::new(), &Vec::new(), &state);
    assert_eq!(shown.len(), 7);
    let mut widget_state = widget_state_of(&state);
    render(&items, &mut widget_state);
    for step in 0..20 {
        let down = step < 9 || step > 17;
        let (ours, theirs) = if down {
            (state.key_down(&shown), widget_state.key_down())
        } else {
            (state.key_up(&shown), widget_state.key_up())
        };
        assert_eq!(ours, theirs);
        assert_eq!(state.selected().as_slice(), widget_state.selected());
    }
}

#[test]
fn moving_from_no_selection_agrees_with_the_widget() {
    let app = app_of(MENU);
    let items = items_of(&app);
    let shown = visible_chains(&app.config, &String::new(), &Vec::new(), &NavigationState::new());

    let mut state = NavigationState::new();
    let mut widget_state = widget_state_of(&state);
    render(&items, &mut widget_state);
    assert_eq!(state.key_up(&shown), widget_state.key_up());
    assert_eq!(state.selected().as_slice(), widget_state.selected());

    let mut state = NavigationState::new();
    state.select(chain(&["/git", "/git/status"]));
    let mut widget_state = widget_state_of(&state);
    render(&items, &mut widget_state);
    assert_eq!(state.key_down(&shown), widget_state.key_down());
    assert_eq!(state.selected().as_slice(), widget_state.selected());
}

#[test]
fn moving_in_an_empty_menu_agrees_with_the_widget() {
    let app = app_of(b"{}");
    let items = items_of(&app);
    assert!(items.is_empty());
    let mut state = NavigationState::new();
    let mut widget_state = widget_state_of(&state);
    render(&items, &mut widget_state);
    let shown = visible_chains(&app.config, &String::new(), &Vec::new(), &state);
    assert!(shown.is_empty());
    assert_eq!(state.key_down(&shown), widget_state.key_down());
    assert_eq!(state.key_up(&shown), widget_state.key_up());
    assert_eq!(state.selected().as_slice(), widget_state.selected());
}

#[test]
fn opening_closing_and_toggling_agree_with_the_widget() {
    let mut state = NavigationState::new();
    let mut widget_state: TreeState<String> = TreeState::default();
    let chains = vec![chain(&["/a"]), chain(&["/a", "/a/b"]), Vec::new(), chain(&["/a"])];
    for opened in &chains {
        assert_eq!(state.open(opened.clone()), widget_state.open(opened.clone()));
    }
    for toggled in &chains {
        assert_eq!(state.toggle(toggled.clone()), widget_state.toggle(toggled.clone()));
        for probe in &chains {
            assert_eq!(state.is_open(probe), widget_state.opened().contains(probe));
        }
    }
    for closed in &chains {
        assert_eq!(state.close(closed), widget_state.close(closed));
        for probe in &chains {
            assert_eq!(state.is_open(probe), widget_state.opened().contains(probe));
        }
    }
    for selected in &chains {
        assert_eq!(state.select(selected.clone()), widget_state.select(selected.clone()));
        assert_eq!(state.toggle_selected(), widget_state.toggle_selected());
        assert_eq!(state.selected().as_slice(), widget_state.selected());
        for probe in &chains {
            assert_eq!(state.is_open(probe), widget_state.opened().contains(probe));
        }
    }
}

#[test]
fn the_widget_state_follows_the_navigation_state() {
    let mut widget_state: TreeState<String> = TreeState::default();
    widget_state.open(chain(&["/stale"]));
    widget_state.select(chain(&["/stale", "/stale/x"]));
    let mut state = NavigationState::new();
    sync_widget_state(&mut widget_state, &state);
    assert!(widget_state.selected().is_empty());
    assert!(widget_state.opened().is_empty());

    state.open(chain(&["/git"]));
    state.open(chain(&["/git", "/git/branch"]));
    state.select(chain(&["/git", "/git/branch"]));
    sync_widget_state(&mut widget_state, &state);
    assert_eq!(widget_state.selected(), chain(&["/git", "/git/branch"]).as_slice());
    assert_eq!(widget_state.opened().len(), 2);
    assert!(widget_state.opened().contains(&chain(&["/git"])));
    assert!(widget_state.opened().contains(&chain(&["/git", "/git/branch"])));

    state.close(&chain(&["/git"]));
    state.select(Vec::new());
    sync_widget_state(&mut widget_state, &state);
    assert!(widget_state.selected().is_empty());
    assert_eq!(widget_state.opened().len(), 1);
    assert!(widget_state.opened().contains(&chain(&["/git", "/git/branch"])));
}
