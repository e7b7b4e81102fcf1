use codex_core::http_state::HttpStateClones;
use codex_core::http_state::HttpStateContext;
use codex_core::http_state::HttpStateFile;
use codex_core::http_state::HttpStateStore;
use codex_core::http_state::HttpStateSurface;
use codex_core::http_state::SurfaceFiles;

const STATE_N: &str = "state-n";
const STATE_N_PLUS_ONE: &str = "state-n-plus-one";

fn fresh() -> HttpStateStore {
    HttpStateStore::new("/home/user/.codex".to_string())
}

#[test]
fn maps_app_server_client_names_to_bounded_surfaces() {
    assert_eq!(
        [
            "codex_cli",
            "codex-tui",
            "codex_exec",
            "codex_vscode",
            "codex_desktop",
            "codex_desktop_ssh",
            "codex_remote_control",
            "third_party_client",
        ]
        .map(HttpStateSurface::from_app_server_client_name),
        [
            HttpStateSurface::CodexCli,
            HttpStateSurface::CodexTui,
            HttpStateSurface::CodexExec,
            HttpStateSurface::CodexVscode,
            HttpStateSurface::CodexDesktop,
            HttpStateSurface::CodexDesktopSsh,
            HttpStateSurface::CodexRemoteControl,
            HttpStateSurface::CodexCli,
        ]
    );
    assert_eq!(
        HttpStateSurface::try_from_app_server_client_name("third_party_client"),
        None
    );
}

#[test]
fn stores_state_in_one_file_per_surface() {
    let mut store = fresh();

    store.set(HttpStateSurface::CodexCli, STATE_N.to_string());
    store.set(HttpStateSurface::CodexDesktop, STATE_N_PLUS_ONE.to_string());

    assert_eq!(
        store
            .get(HttpStateSurface::CodexCli)
            .expect("CLI state should exist"),
        STATE_N
    );
    assert_eq!(
        store
            .get(HttpStateSurface::CodexDesktop)
            .expect("desktop state should exist"),
        STATE_N_PLUS_ONE
    );
    assert_eq!(
        store.state_path(HttpStateSurface::CodexCli),
        "/home/user/.codex/state/codex_cli.json"
    );
    store.clear(HttpStateSurface::CodexDesktop);
    assert_eq!(store.get(HttpStateSurface::CodexDesktop), None);
}

#[test]
fn compare_and_set_rejects_a_stale_prior_value() {
    let mut store = fresh();
    store.set(HttpStateSurface::CodexCli, STATE_N.to_string());

    assert!(!store.compare_and_set(
        HttpStateSurface::CodexCli,
        "stale-state",
        STATE_N_PLUS_ONE.to_string(),
    ));
    assert!(store.compare_and_set(
        HttpStateSurface::CodexCli,
        STATE_N,
        STATE_N_PLUS_ONE.to_string(),
    ));
    assert_eq!(
        store.get(HttpStateSurface::CodexCli).as_deref(),
        Some(STATE_N_PLUS_ONE)
    );
}

#[test]
fn clear_hides_a_stale_rotation_written_afterward() {
    let mut store = fresh();
    store.set(HttpStateSurface::CodexCli, STATE_N.to_string());

    store.clear(HttpStateSurface::CodexCli);
    store.write_state(
        HttpStateSurface::CodexCli,
        HttpStateFile {
            state: STATE_N_PLUS_ONE.to_string(),
            generation: None,
        },
    );

    assert_eq!(store.get(HttpStateSurface::CodexCli), None);
}

#[test]
fn every_clearing_begins_a_new_generation() {
    let mut store = fresh();
    store.clear(HttpStateSurface::CodexTui);
    store.set(HttpStateSurface::CodexTui, STATE_N.to_string());
    assert_eq!(store.get(HttpStateSurface::CodexTui).as_deref(), Some(STATE_N));
    store.clear(HttpStateSurface::CodexTui);
    assert_eq!(store.get(HttpStateSurface::CodexTui), None);
    store.clear_into(HttpStateSurface::CodexTui, "g1".to_string());
    store.write_state(
        HttpStateSurface::CodexTui,
        HttpStateFile { state: STATE_N.to_string(), generation: Some("g0".to_string()) },
    );
    assert_eq!(store.get(HttpStateSurface::CodexTui), None);
    store.write_state(
        HttpStateSurface::CodexTui,
        HttpStateFile { state: STATE_N.to_string(), generation: Some("g1".to_string()) },
    );
    assert_eq!(store.get(HttpStateSurface::CodexTui).as_deref(), Some(STATE_N));
}

#[test]
fn loaded_files_are_seen_on_their_surface() {
    let mut store = fresh();
    store.load(
        HttpStateSurface::CodexExec,
        SurfaceFiles {
            state: Some(HttpStateFile { state: "s".to_string(), generation: None }),
            generation: None,
        },
    );
    assert_eq!(store.get(HttpStateSurface::CodexExec).as_deref(), Some("s"));
    assert_eq!(store.get(HttpStateSurface::CodexCli), None);
    assert_eq!(
        store.generation_path(HttpStateSurface::CodexExec),
        "/home/user/.codex/state/codex_exec.generation.json"
    );
}

#[test]
fn rotations_hold_in_their_generation_only() {
    let files = SurfaceFiles {
        state: Some(HttpStateFile { state: "a".to_string(), generation: Some("g".to_string()) }),
        generation: Some("g".to_string()),
    };
    assert_eq!(files.visible_state().as_deref(), Some("a"));
    let next = files.rotation("a", "b".to_string()).expect("rotation");
    assert_eq!((next.state.as_str(), next.generation.as_deref()), ("b", Some("g")));
    assert!(files.rotation("x", "b".to_string()).is_none());
    assert!(files.rotation_holds(&Some("g".to_string())));
    assert!(!files.rotation_holds(&None));
    let write = files.write_of("c".to_string());
    assert_eq!((write.state.as_str(), write.generation.as_deref()), ("c", Some("g")));
}

#[test]
fn contexts_speak_of_their_surface() {
    let mut context =
        HttpStateContext::new("/home".to_string(), HttpStateSurface::CodexCli);
    assert_eq!(context.surface(), HttpStateSurface::CodexCli);
    assert!(context.set_surface(HttpStateSurface::CodexVscode));
    assert!(!context.set_surface(HttpStateSurface::CodexVscode));
    assert_eq!(context.surface(), HttpStateSurface::CodexVscode);
    context.store.set(HttpStateSurface::CodexVscode, "a".to_string());
    assert!(context.compare_and_set_for_surface(
        HttpStateSurface::CodexVscode,
        "a",
        "b".to_string()
    ));
    assert_eq!(
        context.get_for_surface(HttpStateSurface::CodexVscode).as_deref(),
        Some("b")
    );
    assert_eq!(HttpStateSurface::CodexTui.as_str(), "codex_tui");
}

#[test]
fn clones_share_the_selection() {
    let context = HttpStateContext::new("/home".to_string(), HttpStateSurface::CodexCli);
    let mut clones = HttpStateClones::new(context);
    let other = clones.make(0);
    assert_eq!(other, 1);
    assert_eq!(clones.surface(other), HttpStateSurface::CodexCli);
    assert!(clones.set_surface(0, HttpStateSurface::CodexTui));
    assert_eq!(clones.surface(0), HttpStateSurface::CodexTui);
    assert_eq!(clones.surface(other), HttpStateSurface::CodexTui);
    assert!(!clones.set_surface(other, HttpStateSurface::CodexTui));
}
