use patina_core::auth::{AuthMode, AuthState};
use patina_core::ids::fresh_id;
use patina_core::mcp::{CommandSpec, McpEndpoint};
use patina_core::ui::{InputTool, McpSidebarEntry, McpStatus, ThemeMode};

#[test]
fn fresh_ids_differ() {
    assert_ne!(fresh_id(), fresh_id());
}

#[test]
fn auth_refresh_issues_tokens() {
    let mut server = AuthState::new(AuthMode::ServerManaged);
    assert!(server.needs_refresh(1_000));
    server.refresh(AuthMode::ServerManaged, 1_000);
    assert_eq!(server.expires_at, Some(1_000 + 3_600_000));
    assert!(server.access_token.as_ref().unwrap().starts_with("server-token-"));
    assert!(server.refresh_token.is_none());
    assert!(!server.needs_refresh(1_000));
    assert!(server.needs_refresh(1_000 + 3_600_000 - 60_000));

    let client = AuthState::hydrate_for_testing(AuthMode::ClientManaged, 500);
    assert_eq!(client.expires_at, Some(500 + 1_800_000));
    assert!(client.access_token.as_ref().unwrap().starts_with("client-token-"));
    assert!(client.refresh_token.as_ref().unwrap().starts_with("refresh-"));
}

#[test]
fn command_spec_builders_accumulate() {
    let spec = CommandSpec::new("server")
        .with_args(vec!["--port".into(), "8080".into()])
        .push_arg("--verbose")
        .with_env("TOKEN", "first")
        .with_env("HOME", "/tmp/home")
        .with_env("TOKEN", "second")
        .with_current_dir("/srv");
    assert_eq!(spec.program, "server");
    assert_eq!(spec.args, vec!["--port", "8080", "--verbose"]);
    assert_eq!(spec.env.len(), 2);
    assert_eq!(spec.env[0], ("TOKEN".to_string(), "second".to_string()));
    assert_eq!(spec.env[1], ("HOME".to_string(), "/tmp/home".to_string()));
    assert_eq!(spec.current_dir.as_deref(), Some("/srv"));

    let endpoint = McpEndpoint::child_process("files", AuthMode::ClientManaged, spec);
    assert_eq!(endpoint.id(), "files");
    assert_eq!(*endpoint.mode(), AuthMode::ClientManaged);
}

#[test]
fn labels_name_their_variants() {
    assert_eq!(ThemeMode::System.label(), "System");
    assert_eq!(ThemeMode::Light.label(), "Light");
    assert_eq!(ThemeMode::Dark.label(), "Dark");
    assert_eq!(McpStatus::Connected.label(), "Connected");
    assert_eq!(McpStatus::Connecting.label(), "Connecting");
    assert_eq!(McpStatus::Disconnected.label(), "Disconnected");
    assert_eq!(InputTool::Tools.label(), "Tools");
    assert_eq!(InputTool::Mcps.label(), "MCPs");
    assert_eq!(InputTool::Files.label(), "Files");
}

#[test]
fn sidebar_matching_folds_case() {
    let entry = McpSidebarEntry {
        id: "fs".into(),
        name: "File Browser".into(),
        description: "Reads the Workspace".into(),
        status: McpStatus::Connected,
    };
    assert!(entry.matches(""));
    assert!(entry.matches("   "));
    assert!(entry.matches("FILE"));
    assert!(entry.matches("browser"));
    assert!(entry.matches("workSPACE"));
    assert!(!entry.matches("database"));
}
