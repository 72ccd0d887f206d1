use log_store::mcp::{
    begin_start, get_status, mark_started, mark_stopped, set_deployment_credentials,
    set_project_path, stop_server, McpConfig, McpServerState,
};
use log_store::retention::{RetentionScheduler, SchedulerAction, SchedulerEvent, SchedulerPhase};

#[test]
fn server_lifecycle() {
    let mut state = McpServerState::new();
    assert_eq!(stop_server(&mut state), Err("MCP server is not running".to_string()));
    assert!(begin_start(&state).is_ok());
    mark_started(&mut state, 8123);
    let status = get_status(&state);
    assert!(status.running);
    assert_eq!(status.port, Some(8123));
    assert_eq!(status.url, Some("http://localhost:8123/mcp".to_string()));
    assert_eq!(begin_start(&state), Err("MCP server is already running".to_string()));
    assert_eq!(stop_server(&mut state), Ok(()));
    assert!(state.shutdown_requested);
    mark_stopped(&mut state);
    assert!(!get_status(&state).running);
    assert_eq!(get_status(&state).url, None);
}

#[test]
fn server_settings() {
    let mut state = McpServerState::new();
    set_project_path(&mut state, Some("/p".to_string()));
    set_deployment_credentials(&mut state, Some("https://x".to_string()), Some("k".to_string()));
    assert_eq!(state.project_path, Some("/p".to_string()));
    assert_eq!(state.deployment_url, Some("https://x".to_string()));
    assert_eq!(state.deploy_key, Some("k".to_string()));
    assert_eq!(McpConfig::default(), McpConfig { port: 0, auto_start: true });
}

#[test]
fn scheduler_cycle_and_stop() {
    let mut s = RetentionScheduler::new();
    assert_eq!(s.on_event(SchedulerEvent::Started), SchedulerAction::Sweep);
    assert_eq!(s.on_event(SchedulerEvent::SweepFinished), SchedulerAction::Sleep(86_400_000));
    assert_eq!(s.on_event(SchedulerEvent::Woke), SchedulerAction::Sweep);
    assert_eq!(s.on_event(SchedulerEvent::StopRequested), SchedulerAction::Wait);
    assert_eq!(s.phase, SchedulerPhase::Running);
    assert_eq!(s.on_event(SchedulerEvent::SweepFinished), SchedulerAction::Halt);
    assert_eq!(s.phase, SchedulerPhase::Stopped);
    assert_eq!(s.on_event(SchedulerEvent::Woke), SchedulerAction::Halt);
}

#[test]
fn scheduler_stop_while_idle() {
    let mut s = RetentionScheduler::new();
    s.on_event(SchedulerEvent::Started);
    s.on_event(SchedulerEvent::SweepFinished);
    assert_eq!(s.on_event(SchedulerEvent::StopRequested), SchedulerAction::Halt);
    assert_eq!(s.phase, SchedulerPhase::Stopped);
}
