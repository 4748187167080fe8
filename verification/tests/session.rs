use sherlock::appdata::{AppData, ExecVariable};
use sherlock::config::HomeType;
use sherlock::launcher::children::{CalcData, RenderableChild};
use sherlock::launcher::{AppLauncher, Launcher, LauncherType};
use sherlock::pipeline::filter_and_sort;
use sherlock::session::{
    InputUpdate, LauncherMode, Publication, QueryAction, QuerySession, SessionState,
};
use std::sync::Arc;

fn launcher() -> Arc<Launcher> {
    Arc::new(Launcher {
        name: Some("Apps".to_string()),
        display_name: None,
        icon: None,
        alias: None,
        tag_end: None,
        method: "app_launcher".to_string(),
        exit: true,
        next_content: None,
        priority: 1,
        is_async: false,
        home: HomeType::Home,
        launcher_type: LauncherType::App(AppLauncher { use_keywords: true }),
        shortcut: true,
        spawn_focus: true,
        actions: None,
        add_actions: None,
    })
}

fn app(l: &Arc<Launcher>, search: &str) -> RenderableChild {
    let mut inner = AppData::new();
    inner.search_string = search.to_string();
    inner.vars = vec![ExecVariable::StringInput("name".to_string())];
    RenderableChild::AppLike { launcher: Arc::clone(l), inner }
}

fn modes() -> Vec<LauncherMode> {
    vec![
        LauncherMode::Alias { short: "pm".to_string(), name: "Power Menu".to_string() },
        LauncherMode::Home,
        LauncherMode::Alias { short: "Calc".to_string(), name: "Calculator".to_string() },
        LauncherMode::Alias { short: "PM".to_string(), name: "Second".to_string() },
    ]
}

fn ticket_of(action: &QueryAction) -> u64 {
    match action {
        QueryAction::Compute { ticket, .. } => *ticket,
        QueryAction::Unchanged => panic!("no computation was started"),
    }
}

#[test]
fn only_the_last_query_is_published() {
    let l = launcher();
    let snapshot = vec![app(&l, "abc"), app(&l, "a"), app(&l, "xyz")];
    let mut session = QuerySession::new(vec![]);
    assert_eq!(session.state(), SessionState::Idle);

    // "a", then "ab" before the first computation has finished
    let first = session.submit_query("a");
    assert_eq!(session.state(), SessionState::Computing);
    let second = session.submit_query("ab");
    assert_eq!(session.state(), SessionState::Computing);
    let (t1, t2) = (ticket_of(&first), ticket_of(&second));
    assert_ne!(t1, t2);
    match &second {
        QueryAction::Compute { query, mode, superseded, reset_input, .. } => {
            assert_eq!(query, "ab");
            assert_eq!(mode, "all");
            assert_eq!(*superseded, Some(t1));
            assert!(!reset_input);
        },
        QueryAction::Unchanged => panic!(),
    }

    let mut published: Vec<(Vec<usize>, String)> = vec![];
    // the first computation finishes late: its ranking is dropped
    let for_a = filter_and_sort(&snapshot, &vec![], "a", "all");
    assert_eq!(for_a, vec![0, 1]);
    if let Publication::Published(_) = session.apply_results(t1, for_a, "a".to_string(), &snapshot) {
        published.push((session.filtered_indices.clone(), "a".to_string()));
    }
    assert_eq!(session.last_query, None);
    let for_ab = filter_and_sort(&snapshot, &vec![], "ab", "all");
    if let Publication::Published(_) = session.apply_results(t2, for_ab, "ab".to_string(), &snapshot) {
        published.push((session.filtered_indices.clone(), "ab".to_string()));
    }
    assert_eq!(published, vec![(vec![0], "ab".to_string())]);
    assert_eq!(session.last_query, Some("ab".to_string()));
    assert_eq!(session.in_flight, None);
    assert_eq!(session.state(), SessionState::Idle);
    // a ranking cannot be published twice
    assert_eq!(session.apply_results(t2, vec![1], "ab".to_string(), &snapshot), Publication::Discarded);
    assert_eq!(session.filtered_indices, vec![0]);
}

#[test]
fn the_query_that_is_shown_starts_nothing() {
    let snapshot: Vec<RenderableChild> = vec![];
    let mut session = QuerySession::new(vec![]);
    let t = ticket_of(&session.submit_query("Fire"));
    assert!(matches!(
        session.apply_results(t, vec![], "fire".to_string(), &snapshot),
        Publication::Published(InputUpdate::Keep)
    ));
    // the same text, in any case of letters
    assert!(matches!(session.submit_query("fire"), QueryAction::Unchanged));
    assert!(matches!(session.submit_query("FIRE"), QueryAction::Unchanged));
    assert_eq!(session.in_flight, None);
    assert!(matches!(session.submit_query("firef"), QueryAction::Compute { .. }));
}

#[test]
fn the_query_is_compared_with_the_one_that_is_shown() {
    // the same query twice, before anything was published, starts two computations
    let mut session = QuerySession::new(vec![]);
    let t1 = ticket_of(&session.submit_query("a"));
    let t2 = ticket_of(&session.submit_query("a"));
    assert_ne!(t1, t2);
    assert_eq!(session.in_flight, Some(t2));
}

#[test]
fn publishing_resets_the_cursor() {
    let l = launcher();
    let snapshot = vec![
        app(&l, "a"),
        app(&l, "b"),
        RenderableChild::CalcLike { launcher: Arc::clone(&l), inner: CalcData { capabilities: vec![] } },
    ];
    let mut session = QuerySession::new(vec![]);
    let t = ticket_of(&session.submit_query("a"));
    // nothing was shown before: the first candidate is new and asks for input
    assert_eq!(
        session.apply_results(t, vec![1, 0], "a".to_string(), &snapshot),
        Publication::Published(InputUpdate::Rebuild(1))
    );
    session.selected_index = 1;
    session.active_bar = 2;
    let t = ticket_of(&session.submit_query("b"));
    // the first candidate changed from 1 to 0, though the cursor was on 0
    assert_eq!(
        session.apply_results(t, vec![0, 1], "b".to_string(), &snapshot),
        Publication::Published(InputUpdate::Rebuild(0))
    );
    assert_eq!(session.selected_index, 0);
    assert_eq!(session.active_bar, 0);
    assert_eq!(session.filtered_indices, vec![0, 1]);
    session.selected_index = 1;
    let t = ticket_of(&session.submit_query("bb"));
    // the first candidate stays the first, wherever the cursor was: its inputs stay
    assert_eq!(
        session.apply_results(t, vec![0], "bb".to_string(), &snapshot),
        Publication::Published(InputUpdate::Keep)
    );
    let t = ticket_of(&session.submit_query("bbb"));
    // another candidate comes first
    assert_eq!(
        session.apply_results(t, vec![1, 0], "bbb".to_string(), &snapshot),
        Publication::Published(InputUpdate::Rebuild(1))
    );
    let t = ticket_of(&session.submit_query("c"));
    assert_eq!(
        session.apply_results(t, vec![1], "c".to_string(), &snapshot),
        Publication::Published(InputUpdate::Keep)
    );
    let t = ticket_of(&session.submit_query("d"));
    // a candidate that asks for nothing
    assert_eq!(
        session.apply_results(t, vec![2, 0], "d".to_string(), &snapshot),
        Publication::Published(InputUpdate::Clear)
    );
    let t = ticket_of(&session.submit_query("e"));
    // an index outside the snapshot asks for nothing either
    assert_eq!(
        session.apply_results(t, vec![9], "e".to_string(), &snapshot),
        Publication::Published(InputUpdate::Clear)
    );
    let t = ticket_of(&session.submit_query("f"));
    assert_eq!(
        session.apply_results(t, vec![], "f".to_string(), &snapshot),
        Publication::Published(InputUpdate::Keep)
    );
    assert!(session.filtered_indices.is_empty());
    let t = ticket_of(&session.submit_query("g"));
    // after an empty ranking every first candidate is new
    assert_eq!(
        session.apply_results(t, vec![0], "g".to_string(), &snapshot),
        Publication::Published(InputUpdate::Rebuild(0))
    );
}

#[test]
fn the_mode_follows_the_query() {
    let mut mode = LauncherMode::Home;
    assert!(!mode.transition_for_query("", &modes()));
    assert!(matches!(mode, LauncherMode::Home));
    assert!(!mode.transition_for_query("pm ", &modes()));
    assert!(matches!(mode, LauncherMode::Search));
    assert!(!mode.transition_for_query("pm", &modes()));
    assert!(matches!(mode, LauncherMode::Search));
    assert!(!mode.transition_for_query("", &modes()));
    assert!(matches!(mode, LauncherMode::Home));

    let mut mode = LauncherMode::Search;
    assert!(mode.transition_for_query("PM ", &modes()));
    match &mode {
        LauncherMode::Alias { short, name } => {
            assert_eq!(short, "pm");
            assert_eq!(name, "Power Menu");
        },
        _ => panic!(),
    }
    assert_eq!(mode.as_str(), "pm");
    assert!(mode.is_active());
    assert_eq!(mode.display_str(), "Power Menu");
    // an empty query leaves an alias as it is
    assert!(!mode.transition_for_query("", &modes()));
    assert!(mode.is_active());
    // from an alias into another
    assert!(mode.transition_for_query("calc ", &modes()));
    assert_eq!(mode.as_str(), "Calc");
    assert!(!mode.transition_for_query("calc  ", &modes()));
    assert!(!mode.transition_for_query("nothing ", &modes()));
    assert!(!mode.transition_for_query(" ", &modes()));
    assert_eq!(mode.as_str(), "Calc");
}

#[test]
fn modes_have_names() {
    assert_eq!(LauncherMode::Home.as_str(), "all");
    assert_eq!(LauncherMode::Search.as_str(), "all");
    assert_eq!(LauncherMode::Home.display_str(), "All");
    assert_eq!(LauncherMode::Search.display_str(), "Search");
    assert!(!LauncherMode::Home.is_active());
    assert!(!LauncherMode::Search.is_active());
}

#[test]
fn a_query_that_names_an_alias_is_cleared() {
    let mut session = QuerySession::new(modes());
    // the first character only leaves home
    match session.submit_query("pm ") {
        QueryAction::Compute { query, mode, reset_input, .. } => {
            assert_eq!(query, "pm ");
            assert_eq!(mode, "all");
            assert!(!reset_input);
        },
        _ => panic!(),
    }
    match session.submit_query("PM ") {
        QueryAction::Compute { query, mode, reset_input, .. } => {
            assert_eq!(query, "");
            assert_eq!(mode, "pm");
            assert!(reset_input);
        },
        _ => panic!(),
    }
    assert!(session.mode.is_active());
}
