use ghost_shell::assets::{AssetError, Assets};
use ghost_shell::config::{
    cache_dir_of, config_dir_of, Base16Config, ClockConfig, ConfigError, ThemeConfig, ThemeMode, WallpaperConfig,
};
use ghost_shell::focus::{FocusStep, FocusTraversal, MAX_EXTRA_MOVES};
use ghost_shell::ipc::{
    frame, handle_request, Cli, Command, FinderAction, FinderCommand, LauncherAction, LauncherCommand, MsgCommand,
    Request, Response, ShellAction,
};
use ghost_shell::launcher::{
    search_needle, shows_description, DesktopEntry, FinderState, LauncherList, SearchItem, SearchItemKind,
    SearchOptions, SearchResult,
};
use ghost_shell::lock::{AuthGate, AuthOutcome, LockManager};
use ghost_shell::search::{decimal_text, select_next, select_previous, trim};
use ghost_shell::shell::Display;

#[test]
fn default_palettes_and_theme() {
    let dark = Base16Config::default_dark();
    assert_eq!(dark.base00, 0x0a0c10);
    assert_eq!(dark.base0f, 0xffb1af);
    let light = Base16Config::default_light();
    assert_eq!(light.base00, 0xffffff);
    assert_eq!(light.base0d, 0x622cbc);
    let theme = ThemeConfig::default();
    assert_eq!(theme.mode, ThemeMode::Dark);
    assert_eq!(*theme.palette(), dark);
    let light_theme = ThemeConfig { mode: ThemeMode::Light, ..theme };
    assert_eq!(*light_theme.palette(), light);
    assert_eq!(ClockConfig::default().format, "%H:%M");
    assert_eq!(WallpaperConfig::default(), WallpaperConfig { path: None, bg: 0 });
}

#[test]
fn missing_project_directories_are_reported() {
    assert_eq!(
        config_dir_of(&None).err(),
        Some(ConfigError::NotFound("app config dir doesn't exist".into()))
    );
    assert_eq!(
        cache_dir_of(&None).err(),
        Some(ConfigError::NotFound("app cache dir doesn't exist".into()))
    );
}

#[test]
fn command_line_and_daemon_agree() {
    let launcher = Cli { command: Command::Msg { command: MsgCommand::Launcher { action: LauncherCommand::Toggle } } };
    let finder = Cli { command: Command::Msg { command: MsgCommand::Finder { action: FinderCommand::Toggle } } };
    assert_eq!(launcher.request(), Request::Launcher { action: LauncherAction::Toggle });
    assert_eq!(finder.request(), Request::Finder { action: FinderAction::Toggle });
    assert_eq!(handle_request(launcher.request()), (ShellAction::LauncherToggle, Ok(Response::Handled)));
    assert_eq!(handle_request(Request::Finder { action: FinderAction::Close }).0, ShellAction::FinderClose);
    assert_eq!(handle_request(Request::Launcher { action: LauncherAction::Open }).0, ShellAction::LauncherOpen);
    assert_eq!(frame(&b"{}".to_vec()), b"{}\n".to_vec());
}

#[test]
fn trimming_and_numbers() {
    assert_eq!(trim("  a b \t\n"), "a b");
    assert_eq!(trim("\u{3000}x\u{2028}"), "x");
    assert_eq!(trim("   "), "");
    assert_eq!(decimal_text(0), "0");
    assert_eq!(decimal_text(1234567), "1234567");
    assert_eq!(decimal_text(usize::MAX), usize::MAX.to_string());
}

#[test]
fn selection_wraps_around() {
    assert_eq!(select_next(None, 0), None);
    assert_eq!(select_next(None, 3), Some(0));
    assert_eq!(select_next(Some(2), 3), Some(0));
    assert_eq!(select_next(Some(7), 3), Some(0));
    assert_eq!(select_previous(Some(0), 3), Some(2));
    assert_eq!(select_previous(Some(2), 3), Some(1));
    assert_eq!(select_previous(None, 3), Some(2));
    for i in 0..5 {
        assert_eq!(select_previous(select_next(Some(i), 5), 5), Some(i));
    }
}

fn entry(name: &str, command: &[&str], terminal: bool) -> DesktopEntry {
    DesktopEntry {
        name: name.into(),
        command: command.iter().map(|s| s.to_string()).collect(),
        icon: None,
        description: None,
        terminal,
    }
}

#[test]
fn launcher_selects_and_spawns() {
    let mut list = LauncherList::new(vec![
        entry("Firefox", &["firefox"], false),
        entry("Htop", &["htop", "-d", "5"], true),
        entry("Broken", &[], false),
    ]);
    assert_eq!(list.filtered, vec![0, 1, 2]);
    assert_eq!(list.selected, Some(0));
    assert_eq!(list.spawn_command(), Some(vec!["firefox".to_string()]));
    list.select_next();
    assert_eq!(list.spawn_command(), Some(vec!["ghostty".into(), "-e".into(), "htop".into(), "-d".into(), "5".into()]));
    list.select_next();
    assert_eq!(list.spawn_command(), None);
    list.select_next();
    assert_eq!(list.selected, Some(0));
    list.select_previous();
    assert_eq!(list.selected, Some(2));
}

#[test]
fn launcher_query_filters_by_name() {
    let mut list = LauncherList::new(vec![
        entry("Firefox", &["firefox"], false),
        entry("Files", &["nautilus"], false),
        entry("Terminal", &["ghostty"], false),
    ]);
    list.apply_query("  term ");
    assert_eq!(list.filtered, vec![2]);
    assert_eq!(list.selected, Some(0));
    list.apply_query("zzzz");
    assert!(list.filtered.is_empty());
    assert_eq!(list.selected, None);
    list.apply_query("");
    assert_eq!(list.filtered, vec![0, 1, 2]);
    assert!(shows_description(&Some(" web ".into())));
    assert!(!shows_description(&Some("  ".into())));
    assert!(!shows_description(&None));
}

fn found(name: &str) -> SearchItem {
    SearchItem { name: name.into(), path: std::path::PathBuf::from(name), kind: SearchItemKind::File, score: 1 }
}

#[test]
fn finder_keeps_only_the_latest_search() {
    let mut finder = FinderState::new();
    assert_eq!(search_needle("  notes.txt "), Some("notes.txt".to_string()));
    assert_eq!(search_needle(" \t "), None);
    assert_eq!(SearchOptions::default().base_path, "/");
    let first = finder.start_search("notes").unwrap();
    let second = finder.start_search("notes.txt").unwrap();
    assert_ne!(first, second);
    let stale = SearchResult { items: vec![found("old")], matched: 1, indexed_files: 10, indexed_dirs: 1 };
    assert!(!finder.finish_search(first, Some(stale)));
    assert!(finder.searching);
    let fresh = SearchResult { items: vec![found("a"), found("b")], matched: 2, indexed_files: 20, indexed_dirs: 2 };
    assert!(finder.finish_search(second, Some(fresh)));
    assert!(!finder.searching);
    assert_eq!(finder.entries.len(), 2);
    assert_eq!(finder.selected, Some(0));
    assert_eq!(finder.matched, 2);
    finder.select_previous();
    assert_eq!(finder.selected_entry().unwrap().name, "b");
    assert_eq!(finder.start_search(""), None);
    assert!(finder.entries.is_empty());
    assert_eq!(SearchResult::empty().matched, 0);
}

#[test]
fn finder_status_line() {
    let mut finder = FinderState::new();
    assert_eq!(finder.status_text(), "Indexing...");
    assert!(finder.on_progress(Some((true, 42))));
    assert_eq!(finder.files_text(), "42 files indexed");
    assert!(!finder.on_progress(Some((false, 100))));
    assert_eq!(finder.files_text(), "100 files");
    assert_eq!(finder.status_text(), "0 matches");
    finder.start_search("x");
    assert_eq!(finder.status_text(), "Searching...");
    assert!(!finder.on_progress(None));
    assert!(!finder.indexing);
}

#[test]
fn lock_opens_one_window_per_display_once() {
    let displays = vec![Display { id: 1, uuid: None }, Display { id: 2, uuid: Some(7) }];
    let mut lock = LockManager::new();
    assert!(!lock.is_locked());
    let targets = lock.lock_targets(&displays);
    assert_eq!(targets, displays);
    for _ in &targets {
        lock.window_opened();
    }
    assert!(lock.is_locked());
    assert!(lock.lock_targets(&displays).is_empty());
    lock.unlock_finished(false);
    assert!(lock.is_locked());
    lock.unlock_finished(true);
    assert!(!lock.is_locked());
}

#[test]
fn one_authentication_at_a_time() {
    let mut gate = AuthGate::new();
    assert!(!gate.begin("alice", ""));
    assert!(!gate.begin("", "secret"));
    assert!(gate.begin("alice", "secret"));
    assert!(!gate.begin("alice", "secret"));
    assert_eq!(gate.finish(false), AuthOutcome::StayLocked);
    assert!(!gate.is_authenticating());
    assert!(gate.begin("alice", "secret"));
    assert_eq!(gate.finish(true), AuthOutcome::Unlock);
}

#[test]
fn focus_traversal_is_bounded() {
    let (mut t, first) = FocusTraversal::start(false, true);
    assert_eq!(first, FocusStep::Advance);
    assert_eq!(t.step(false, false), FocusStep::Stop);
    let (mut t, _) = FocusTraversal::start(true, true);
    assert_eq!(t.step(true, false), FocusStep::Stop);
    let (mut t2, _) = FocusTraversal::start(true, true);
    assert_eq!(t2.step(false, true), FocusStep::Restore);
    let (mut t3, _) = FocusTraversal::start(true, true);
    let mut advances = 0;
    loop {
        match t3.step(false, false) {
            FocusStep::Advance => advances += 1,
            other => {
                assert_eq!(other, FocusStep::Restore);
                break;
            }
        }
    }
    assert_eq!(advances, MAX_EXTRA_MOVES);
    let _ = t.moves;
}

#[test]
fn assets_lookup_and_listing() {
    let assets = Assets::new();
    assert_eq!(assets.load("", Some(vec![1])), Ok(None));
    assert_eq!(assets.load("icons/a.svg", Some(vec![1, 2])), Ok(Some(vec![1, 2])));
    assert_eq!(
        assets.load("icons/missing.svg", None),
        Err(AssetError::NotFound("icons/missing.svg".into()))
    );
    let paths = vec!["icons/a.svg".to_string(), "logo.svg".to_string(), "icons/b.svg".to_string()];
    assert_eq!(assets.list(&paths, "icons/"), vec!["icons/a.svg", "icons/b.svg"]);
}

/// Moves focus through a ring of `stops` tab stops the way the window does,
/// asking the traversal what to do after each move. `trap` lists the stops
/// inside the active focus trap, if one is active.
fn tab(focused: usize, stops: usize, backwards: bool, trap: Option<&[usize]>) -> usize {
    let advance = |at: usize| if backwards { (at + stops - 1) % stops } else { (at + 1) % stops };
    let previous = focused;
    let (mut traversal, mut step) = FocusTraversal::start(trap.is_some(), true);
    let mut at = focused;
    loop {
        match step {
            FocusStep::Advance => at = advance(at),
            FocusStep::Stop => return at,
            FocusStep::Restore => return previous,
        }
        let inside = trap.map_or(false, |t| t.contains(&at));
        step = traversal.step(inside, at == previous);
    }
}

#[test]
fn tab_navigation_without_a_trap() {
    let first = 0;
    let second = tab(first, 3, false, None);
    let third = tab(second, 3, false, None);
    assert_ne!(first, second);
    assert_ne!(first, third);
    assert_ne!(second, third);
    assert_eq!(tab(third, 3, true, None), second);
}

#[test]
fn tab_navigation_and_focus_trap() {
    let trap: &[usize] = &[0, 1];
    let first = 0;
    let second = tab(first, 3, false, Some(trap));
    assert_ne!(first, second);
    assert_eq!(tab(second, 3, false, Some(trap)), first);
    assert_eq!(tab(first, 3, true, Some(trap)), second);
}
