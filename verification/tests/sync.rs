use ruvnc_viewer::address_book::ServerEntry;
use ruvnc_viewer::sync::{SyncConfig, TeamSyncManager};

fn test_manager() -> TeamSyncManager {
    TeamSyncManager::with_config(SyncConfig::default())
}

#[test]
fn test_sync_config_default() {
    let config = SyncConfig::default();
    assert!(config.url.is_empty());
    assert_eq!(config.interval_secs, 300);
    assert!(!config.enabled);
}

#[test]
fn test_team_sync_manager_init() {
    let mgr = test_manager();
    assert!(!mgr.is_syncing());
    assert!(mgr.last_error().is_none());
}

#[test]
fn test_trigger_sync_no_url() {
    let mut mgr = test_manager();
    assert!(mgr.trigger_sync().is_none());
    assert!(!mgr.is_syncing());
}

#[test]
fn test_set_url_enables() {
    let mut mgr = test_manager();
    mgr.set_url("https://example.com/servers.json".to_string());
    assert_eq!(mgr.config().url, "https://example.com/servers.json");
    assert!(mgr.config().enabled);
}

#[test]
fn test_set_empty_url_disables() {
    let mut mgr = test_manager();
    mgr.set_url("https://example.com".to_string());
    assert!(mgr.config().enabled);
    mgr.set_url(String::new());
    assert!(!mgr.config().enabled);
}

#[test]
fn test_take_result_returns_none_initially() {
    let mut mgr = test_manager();
    assert!(mgr.take_result().is_none());
}

#[test]
fn test_take_result_consumes() {
    let mut mgr = test_manager();
    mgr.state.result = Some(vec![ServerEntry {
        id: "t1".to_string(),
        name: "Test".to_string(),
        host: "h".to_string(),
        ..Default::default()
    }]);
    let result = mgr.take_result();
    assert!(result.is_some());
    assert_eq!(result.unwrap().len(), 1);
    assert!(mgr.take_result().is_none());
}

#[test]
fn sync_runs_once_at_a_time_and_records_outcomes() {
    let mut mgr = test_manager();
    mgr.set_url("https://example.com/team.json".to_string());
    assert_eq!(mgr.trigger_sync().unwrap(), "https://example.com/team.json");
    assert!(mgr.is_syncing());
    assert!(mgr.trigger_sync().is_none());
    mgr.finish_sync(Err("HTTP 404".to_string()));
    assert!(!mgr.is_syncing());
    assert_eq!(mgr.last_error().unwrap(), "HTTP 404");
    assert!(mgr.trigger_sync().is_some());
    assert!(mgr.last_error().is_none());
    mgr.finish_sync(Ok(Vec::new()));
    assert!(!mgr.is_syncing());
    assert_eq!(mgr.take_result().unwrap().len(), 0);
}
