//! The dialog that creates or edits an address-book entry: its initial
//! contents, when it may be saved, and what saving makes of what was typed.
use vstd::prelude::*;
use crate::address_book::{EntryView, ServerEntry, resolve_port, resolved};
use crate::text::{join, join_strings, law_tags_round_trip, parse_tags, plain_tag, tags_of, views};

verus! {

/// A password that the dialog asks to keep in the system's secret store.
pub struct PasswordToStore {
    pub host: String,
    pub port: u16,
    pub username: String,
    pub password: String,
}

/// The dialog for a new or an existing entry.
pub struct ConnectionDialog {
    pub entry: ServerEntry,
    pub is_edit: bool,
    pub tags_text: String,
    pub result: Option<ServerEntry>,
    pub cancelled: bool,
    pub password_input: String,
    pub save_password: bool,
    pub connect_after_save: bool,
}

/// The entry that saving makes of what the dialog holds: the port resolved
/// (display numbers below 100 count from 5900) and the tags read from the
/// comma-separated text.
pub open spec fn saved_entry(e: EntryView, tags_text: Seq<char>) -> EntryView {
    EntryView { port: resolved(e.port), tags: tags_of(tags_text), ..e }
}

impl ConnectionDialog {
    /// "Save & Connect" was chosen.
    pub fn wants_connect(&self) -> (r: bool)
        ensures
            r == self.connect_after_save,
    {
        self.connect_after_save
    }

    /// A dialog that edits `existing`, or, without one, creates a new entry
    /// whose user name is `system_username`; the tags are shown joined by
    /// `", "`, the password is empty and saving it is switched on.
    pub fn new(existing: Option<ServerEntry>, system_username: String) -> (r: Self)
        ensures
            r.is_edit == (existing is Some),
            existing matches Some(e) ==> r.entry@ == e@,
            existing is None ==> {
                &&& r.entry@.username == system_username@
                &&& r.entry@.name.len() == 0
                &&& r.entry@.host.len() == 0
                &&& r.entry@.port == 5900
                &&& r.entry@.group == "Default"@
                &&& r.entry@.tags.len() == 0
                &&& r.entry@.notes.len() == 0
                &&& !r.entry@.is_team
            },
            r.tags_text@ == join(r.entry@.tags, ", "@),
            r.result is None,
            !r.cancelled,
            r.password_input@.len() == 0,
            r.save_password,
            !r.connect_after_save,
    {
        let is_edit = existing.is_some();
        let mut entry = match existing {
            Some(e) => e,
            None => ServerEntry::default(),
        };
        if !is_edit && entry.username.as_str().is_empty() {
            entry.username = system_username;
        }
        let tags_text = join_strings(&entry.tags, ", ");
        ConnectionDialog {
            entry,
            is_edit,
            tags_text,
            result: None,
            cancelled: false,
            password_input: String::new(),
            save_password: true,
            connect_after_save: false,
        }
    }

    /// Takes the saved entry, if the dialog was saved.
    pub fn take_result(&mut self) -> (r: Option<ServerEntry>)
        ensures
            r == old(self).result,
            final(self).result is None,
            final(self).cancelled == old(self).cancelled,
            final(self).connect_after_save == old(self).connect_after_save,
            *final(self) == (ConnectionDialog { result: final(self).result, ..*old(self) }),
    {
        self.result.take()
    }

    /// Whether the user dismissed the dialog.
    pub fn is_cancelled(&self) -> (r: bool)
        ensures
            r == self.cancelled,
    {
        self.cancelled
    }

    /// Whether saving is enabled: the entry needs a name and a host.
    pub fn can_save(&self) -> (r: bool)
        ensures
            r == (self.entry@.name.len() > 0 && self.entry@.host.len() > 0),
    {
        !self.entry.name.as_str().is_empty() && !self.entry.host.as_str().is_empty()
    }

    /// The dialog's title.
    pub fn title(&self) -> (r: &'static str)
        ensures
            self.is_edit ==> r@ == "Edit Server"@,
            !self.is_edit ==> r@ == "New Server"@,
    {
        if self.is_edit {
            "Edit Server"
        } else {
            "New Server"
        }
    }

    /// "Save" (or, with `connect`, "Save & Connect"). Where the entry has a
    /// name and a host, the port is resolved, the tags are read from their
    /// text, and the entry becomes the result; where saving the password is
    /// on and one was typed, it is handed back to be stored under the saved
    /// host, port and user name. Without a name or a host nothing happens.
    pub fn save(&mut self, connect: bool) -> (r: Option<PasswordToStore>)
        ensures
            ({
                let e = old(self).entry@;
                let ok = e.name.len() > 0 && e.host.len() > 0;
                &&& ok ==> {
                    &&& final(self).entry@ == saved_entry(e, old(self).tags_text@)
                    &&& final(self).result matches Some(s) && s@ == final(self).entry@
                    &&& final(self).connect_after_save == (connect || old(
                        self,
                    ).connect_after_save)
                    &&& (old(self).save_password && old(self).password_input@.len() > 0) ==> (
                    r matches Some(p) && {
                        &&& p.host@ == e.host
                        &&& p.port == resolved(e.port)
                        &&& p.username@ == e.username
                        &&& p.password@ == old(self).password_input@
                    })
                    &&& !(old(self).save_password && old(self).password_input@.len() > 0) ==> r is None
                }
                &&& !ok ==> {
                    &&& r is None
                    &&& final(self).entry == old(self).entry
                    &&& final(self).result == old(self).result
                    &&& final(self).connect_after_save == old(self).connect_after_save
                }
            }),
            final(self).tags_text == old(self).tags_text,
            final(self).password_input == old(self).password_input,
            final(self).save_password == old(self).save_password,
            final(self).cancelled == old(self).cancelled,
            final(self).is_edit == old(self).is_edit,
            *final(self) == (ConnectionDialog { entry: final(self).entry, result: final(self).result, connect_after_save: final(self).connect_after_save, ..*old(self) }),
    {
        if !self.can_save() {
            return None;
        }
        if connect {
            self.connect_after_save = true;
        }
        self.entry.port = resolve_port(self.entry.port);
        self.entry.tags = parse_tags(self.tags_text.as_str());
        let store = if self.save_password && !self.password_input.as_str().is_empty() {
            Some(
                PasswordToStore {
                    host: self.entry.host.clone(),
                    port: self.entry.port,
                    username: self.entry.username.clone(),
                    password: self.password_input.clone(),
                },
            )
        } else {
            None
        };
        self.result = Some(self.entry.duplicate());
        store
    }

    /// "Cancel": the dialog is dismissed.
    pub fn cancel(&mut self)
        ensures
            final(self).cancelled,
            final(self).result == old(self).result,
            *final(self) == (ConnectionDialog { cancelled: final(self).cancelled, ..*old(self) }),
    {
        self.cancelled = true;
    }
}

/// Saving an entry whose fields were left as the dialog showed them keeps
/// the entry, with its port resolved, when each tag is non-empty, holds no
/// comma and has no white space at either end.
pub proof fn law_save_unchanged_entry(e: EntryView)
    requires
        forall|i: int| 0 <= i < e.tags.len() ==> plain_tag(#[trigger] e.tags[i]),
    ensures
        saved_entry(e, join(e.tags, ", "@)) == (EntryView { port: resolved(e.port), ..e }),
{
    law_tags_round_trip(e.tags);
}

} // verus!
