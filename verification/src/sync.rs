//! Team synchronisation of the address book: the configuration and the
//! state of a fetch of the team's server list. Fetching itself happens
//! outside; this module decides when a fetch starts and records how it ended.
use vstd::prelude::*;
use crate::address_book::ServerEntry;

verus! {

/// Where the team's server list is fetched from, and how often.
#[derive(Debug, Clone)]
pub struct SyncConfig {
    pub url: String,
    pub interval_secs: u64,
    pub enabled: bool,
}

impl Default for SyncConfig {
    /// No URL, every 300 seconds, switched off.
    fn default() -> (r: Self)
        ensures
            r.url@.len() == 0,
            r.interval_secs == 300,
            !r.enabled,
    {
        SyncConfig { url: String::new(), interval_secs: 300, enabled: false }
    }
}

/// What the last fetch left behind.
pub struct SyncState {
    pub result: Option<Vec<ServerEntry>>,
    pub syncing: bool,
    pub last_error: Option<String>,
}

/// The team synchronisation: its configuration and the state of its fetch.
pub struct TeamSyncManager {
    pub config: SyncConfig,
    pub state: SyncState,
}

impl TeamSyncManager {
    /// A manager with this configuration, no fetch running, no result and
    /// no error.
    pub fn with_config(config: SyncConfig) -> (r: Self)
        ensures
            r.config == config,
            r.state.result is None,
            !r.state.syncing,
            r.state.last_error is None,
    {
        TeamSyncManager {
            config,
            state: SyncState { result: None, syncing: false, last_error: None },
        }
    }

    /// Asks for a fetch. Without a URL, or while a fetch runs, nothing
    /// happens and `None` comes back. Otherwise the fetch is marked as
    /// running, the last error is cleared, and the URL to fetch comes back.
    pub fn trigger_sync(&mut self) -> (r: Option<String>)
        ensures
            (old(self).config.url@.len() == 0 || old(self).state.syncing) ==> {
                &&& r is None
                &&& final(self).state.syncing == old(self).state.syncing
                &&& final(self).state.last_error == old(self).state.last_error
            },
            !(old(self).config.url@.len() == 0 || old(self).state.syncing) ==> {
                &&& r matches Some(u) && u@ == old(self).config.url@
                &&& final(self).state.syncing
                &&& final(self).state.last_error is None
            },
            final(self).config == old(self).config,
            final(self).state.result == old(self).state.result,
            final(self).state == (SyncState { syncing: final(self).state.syncing, last_error: final(self).state.last_error, ..old(self).state }),
    {
        if self.config.url.as_str().is_empty() {
            return None;
        }
        if self.state.syncing {
            return None;
        }
        self.state.syncing = true;
        self.state.last_error = None;
        Some(self.config.url.clone())
    }

    /// Records how a fetch ended: the servers it brought, or why it failed.
    /// Either way no fetch runs any more.
    pub fn finish_sync(&mut self, outcome: Result<Vec<ServerEntry>, String>)
        ensures
            !final(self).state.syncing,
            final(self).config == old(self).config,
            outcome matches Ok(servers) ==> final(self).state.result == Some(servers)
                && final(self).state.last_error == old(self).state.last_error,
            outcome matches Err(e) ==> final(self).state.last_error == Some(e)
                && final(self).state.result == old(self).state.result,
            final(self).state == (SyncState { result: final(self).state.result, syncing: final(self).state.syncing, last_error: final(self).state.last_error, ..old(self).state }),
    {
        match outcome {
            Ok(servers) => {
                self.state.result = Some(servers);
            },
            Err(e) => {
                self.state.last_error = Some(e);
            },
        }
        self.state.syncing = false;
    }

    /// Takes the servers of the last fetch, if they were not taken yet.
    pub fn take_result(&mut self) -> (r: Option<Vec<ServerEntry>>)
        ensures
            r == old(self).state.result,
            final(self).state.result is None,
            final(self).state.syncing == old(self).state.syncing,
            final(self).state.last_error == old(self).state.last_error,
            final(self).config == old(self).config,
            final(self).state == (SyncState { result: final(self).state.result, ..old(self).state }),
    {
        self.state.result.take()
    }

    /// Whether a fetch runs.
    pub fn is_syncing(&self) -> (r: bool)
        ensures
            r == self.state.syncing,
    {
        self.state.syncing
    }

    /// Why the last fetch failed, if it did.
    pub fn last_error(&self) -> (r: Option<String>)
        ensures
            r == self.state.last_error,
    {
        match &self.state.last_error {
            Some(e) => Some(e.clone()),
            None => None,
        }
    }

    /// The configuration.
    pub fn config(&self) -> (r: &SyncConfig)
        ensures
            *r == self.config,
    {
        &self.config
    }

    /// Sets the URL; synchronisation is on exactly when the URL is not
    /// empty.
    pub fn set_url(&mut self, url: String)
        ensures
            final(self).config.url == url,
            final(self).config.enabled == (url@.len() > 0),
            final(self).config.interval_secs == old(self).config.interval_secs,
            final(self).state == old(self).state,
    {
        self.config.enabled = !url.as_str().is_empty();
        self.config.url = url;
    }
}

} // verus!
