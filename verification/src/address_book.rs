//! The address book: the saved VNC servers, their groups, how an address is
//! shown and searched, and how the team's shared servers merge with the
//! local ones.
use vstd::prelude::*;
use crate::text::{
    chars_of, contains_chars, contains_seq, decimal, lowercase, occurs_at, push_decimal, str_eq, string_of,
    to_lowercase, views,
};

verus! {

/// The TCP port for a port field: display numbers below 100 count from 5900,
/// larger values are ports already.
pub open spec fn resolved(port: u16) -> u16 {
    if port < 100 {
        (5900 + port) as u16
    } else {
        port
    }
}

/// The display number of a port in the VNC range 5900..6000.
pub open spec fn display_of(port: u16) -> Option<u16> {
    if 5900 <= port < 6000 {
        Some((port - 5900) as u16)
    } else {
        None
    }
}

/// Converts a VNC display number (0-99) to a TCP port; larger values are
/// ports already and pass through.
pub fn resolve_port(port: u16) -> (r: u16)
    ensures
        r == resolved(port),
{
    if port < 100 {
        5900 + port
    } else {
        port
    }
}

/// The display number of a TCP port in the VNC range (5900-5999).
pub fn display_number(port: u16) -> (r: Option<u16>)
    ensures
        r == display_of(port),
{
    if 5900 <= port && port < 6000 {
        Some(port - 5900)
    } else {
        None
    }
}

/// A display number turned into a port gives the same display number back.
pub proof fn law_display_number_of_resolved_port(d: u16)
    requires
        d < 100,
    ensures
        display_of(resolved(d)) == Some(d),
{
}

/// Resolving a port twice is resolving it once.
pub proof fn law_resolve_port_idempotent(port: u16)
    ensures
        resolved(resolved(port)) == resolved(port),
{
}

/// A point in time: seconds since the Unix epoch and the nanoseconds within
/// that second, in UTC.
#[derive(Debug, Clone, Copy, PartialEq, Eq, Structural)]
pub struct Timestamp {
    pub secs: i64,
    pub nanos: u32,
}

/// The current time, from `chrono::Utc::now`. Nothing is promised of the
/// value: it is the clock's.
#[verifier::external_body]
fn current_time() -> (r: Timestamp) {
    let now = chrono::Utc::now();
    Timestamp { secs: now.timestamp(), nanos: now.timestamp_subsec_nanos() }
}

/// A fresh random identifier, from `uuid::Uuid::new_v4`, in the hyphenated
/// form of its `to_string`, which is 36 characters long. Which identifier
/// comes back is chance.
#[verifier::external_body]
fn new_entry_id() -> (r: String)
    ensures
        r@.len() == 36,
{
    uuid::Uuid::new_v4().to_string()
}

/// A saved VNC server.
pub struct ServerEntry {
    pub id: String,
    pub name: String,
    pub host: String,
    pub port: u16,
    pub group: String,
    pub tags: Vec<String>,
    pub username: String,
    pub notes: String,
    pub is_team: bool,
    pub created_at: Option<Timestamp>,
    pub last_connected: Option<Timestamp>,
}

/// The mathematical content of a [`ServerEntry`].
pub struct EntryView {
    pub id: Seq<char>,
    pub name: Seq<char>,
    pub host: Seq<char>,
    pub port: u16,
    pub group: Seq<char>,
    pub tags: Seq<Seq<char>>,
    pub username: Seq<char>,
    pub notes: Seq<char>,
    pub is_team: bool,
    pub created_at: Option<Timestamp>,
    pub last_connected: Option<Timestamp>,
}

impl View for ServerEntry {
    type V = EntryView;

    open spec fn view(&self) -> EntryView {
        EntryView {
            id: self.id@,
            name: self.name@,
            host: self.host@,
            port: self.port,
            group: self.group@,
            tags: views(self.tags@),
            username: self.username@,
            notes: self.notes@,
            is_team: self.is_team,
            created_at: self.created_at,
            last_connected: self.last_connected,
        }
    }
}

/// A copy of a list of strings.
pub fn clone_strings(v: &Vec<String>) -> (r: Vec<String>)
    ensures
        r@ == v@,
{
    let mut out: Vec<String> = Vec::new();
    let mut i: usize = 0;
    while i < v.len()
        invariant
            i <= v@.len(),
            out@ == v@.take(i as int),
        decreases v@.len() - i,
    {
        out.push(v[i].clone());
        i = i + 1;
        assert(out@ =~= v@.take(i as int));
    }
    assert(v@.take(v@.len() as int) =~= v@);
    out
}

impl ServerEntry {
    /// A copy of this entry.
    pub fn duplicate(&self) -> (r: ServerEntry)
        ensures
            r@ == self@,
    {
        ServerEntry {
            id: self.id.clone(),
            name: self.name.clone(),
            host: self.host.clone(),
            port: self.port,
            group: self.group.clone(),
            tags: clone_strings(&self.tags),
            username: self.username.clone(),
            notes: self.notes.clone(),
            is_team: self.is_team,
            created_at: self.created_at,
            last_connected: self.last_connected,
        }
    }
}

impl Default for ServerEntry {
    /// A new entry: a fresh identifier, port 5900, group "Default", created now,
    /// everything else empty.
    fn default() -> (r: Self)
        ensures
            r@.id.len() == 36,
            r@.name.len() == 0,
            r@.host.len() == 0,
            r@.port == 5900,
            r@.group == "Default"@,
            r@.tags.len() == 0,
            r@.username.len() == 0,
            r@.notes.len() == 0,
            !r@.is_team,
            r@.created_at is Some,
            r@.last_connected is None,
    {
        let tags: Vec<String> = Vec::new();
        assert(views(tags@) =~= Seq::<Seq<char>>::empty());
        ServerEntry {
            id: new_entry_id(),
            name: String::new(),
            host: String::new(),
            port: 5900,
            group: String::from_str("Default"),
            tags,
            username: String::new(),
            notes: String::new(),
            is_team: false,
            created_at: Some(current_time()),
            last_connected: None,
        }
    }
}

/// How an entry's address is shown: the host alone for display 0, `host:N`
/// for display N, and `host:port` outside the VNC range.
pub open spec fn address_text(host: Seq<char>, port: u16) -> Seq<char> {
    match display_of(port) {
        Some(dn) => if dn == 0 {
            host
        } else {
            host.push(':') + decimal(dn as nat)
        },
        None => host.push(':') + decimal(port as nat),
    }
}

/// Whether a search query selects an entry: the empty query selects all, and
/// otherwise the lower-cased query must occur in the lower-cased name, host,
/// group, one of the tags, or the notes.
pub open spec fn matches_query(e: EntryView, query: Seq<char>) -> bool {
    query.len() == 0 || {
        let q = lowercase(query);
        ||| contains_seq(lowercase(e.name), q)
        ||| contains_seq(lowercase(e.host), q)
        ||| contains_seq(lowercase(e.group), q)
        ||| exists|i: int| 0 <= i < e.tags.len() && contains_seq(lowercase(e.tags[i]), q)
        ||| contains_seq(lowercase(e.notes), q)
    }
}

/// Whether the lower-cased `field` contains the (already lower-cased) `q`.
fn field_contains(field: &str, q: &[char]) -> (r: bool)
    ensures
        r == contains_seq(lowercase(field@), q@),
{
    let low = to_lowercase(field);
    let cs = chars_of(low.as_str());
    contains_chars(cs.as_slice(), q)
}

impl ServerEntry {
    /// The address as shown in lists: see [`address_text`].
    pub fn display_address(&self) -> (r: String)
        ensures
            r@ == address_text(self.host@, self.port),
    {
        let mut cs = chars_of(self.host.as_str());
        match display_number(self.port) {
            Some(dn) => {
                if dn != 0 {
                    cs.push(':');
                    push_decimal(&mut cs, dn as u64);
                }
            },
            None => {
                cs.push(':');
                push_decimal(&mut cs, self.port as u64);
            },
        }
        string_of(cs.as_slice())
    }

    /// Whether the search `query` selects this entry: see [`matches_query`].
    pub fn matches_search(&self, query: &str) -> (r: bool)
        ensures
            r == matches_query(self@, query@),
    {
        if query.is_empty() {
            return true;
        }
        let low = to_lowercase(query);
        let q = chars_of(low.as_str());
        if field_contains(self.name.as_str(), q.as_slice()) {
            return true;
        }
        if field_contains(self.host.as_str(), q.as_slice()) {
            return true;
        }
        if field_contains(self.group.as_str(), q.as_slice()) {
            return true;
        }
        let mut i: usize = 0;
        while i < self.tags.len()
            invariant
                i <= self.tags@.len(),
                q@ == lowercase(query@),
                forall|k: int|
                    0 <= k < i ==> !contains_seq(lowercase(#[trigger] self@.tags[k]), q@),
            decreases self.tags@.len() - i,
        {
            if field_contains(self.tags[i].as_str(), q.as_slice()) {
                assert(self@.tags[i as int] == self.tags@[i as int]@);
                return true;
            }
            assert(self@.tags[i as int] == self.tags@[i as int]@);
            i = i + 1;
        }
        field_contains(self.notes.as_str(), q.as_slice())
    }
}

/// The views of a list of entries.
pub open spec fn entry_views(s: Seq<ServerEntry>) -> Seq<EntryView> {
    s.map_values(|e: ServerEntry| e@)
}

/// The position of the first entry whose identifier is `id` (the length when
/// there is none).
pub open spec fn index_of_id(s: Seq<EntryView>, id: Seq<char>) -> int
    decreases s.len(),
{
    if s.len() == 0 {
        0
    } else if s[0].id == id {
        0
    } else {
        1 + index_of_id(s.drop_first(), id)
    }
}

/// [`index_of_id`] is the first position whose identifier is `id`, or the
/// length when no position has it.
pub proof fn lemma_index_of_id(s: Seq<EntryView>, id: Seq<char>)
    ensures
        0 <= index_of_id(s, id) <= s.len(),
        index_of_id(s, id) < s.len() ==> s[index_of_id(s, id)].id == id,
        forall|j: int| 0 <= j < index_of_id(s, id) ==> s[j].id != id,
    decreases s.len(),
{
    if s.len() > 0 && s[0].id != id {
        lemma_index_of_id(s.drop_first(), id);
        assert forall|j: int| 0 <= j < index_of_id(s, id) implies s[j].id != id by {
            if j > 0 {
                assert(s[j] == s.drop_first()[j - 1]);
            }
        }
    }
}

/// The position of the first entry with this host and port (the length when
/// there is none).
pub open spec fn index_of_host_port(s: Seq<EntryView>, host: Seq<char>, port: u16) -> int
    decreases s.len(),
{
    if s.len() == 0 {
        0
    } else if s[0].host == host && s[0].port == port {
        0
    } else {
        1 + index_of_host_port(s.drop_first(), host, port)
    }
}

/// [`index_of_host_port`] is the first position with this host and port, or
/// the length when no position has them.
pub proof fn lemma_index_of_host_port(s: Seq<EntryView>, host: Seq<char>, port: u16)
    ensures
        0 <= index_of_host_port(s, host, port) <= s.len(),
        index_of_host_port(s, host, port) < s.len() ==> s[index_of_host_port(s, host, port)].host
            == host && s[index_of_host_port(s, host, port)].port == port,
        forall|j: int|
            0 <= j < index_of_host_port(s, host, port) ==> !(s[j].host == host && s[j].port == port),
    decreases s.len(),
{
    if s.len() > 0 && !(s[0].host == host && s[0].port == port) {
        lemma_index_of_host_port(s.drop_first(), host, port);
        assert forall|j: int| 0 <= j < index_of_host_port(s, host, port) implies !(s[j].host == host
            && s[j].port == port) by {
            if j > 0 {
                assert(s[j] == s.drop_first()[j - 1]);
            }
        }
    }
}

/// The entries whose identifier is not `id`, in their order.
pub open spec fn without_id(s: Seq<EntryView>, id: Seq<char>) -> Seq<EntryView>
    decreases s.len(),
{
    if s.len() == 0 {
        s
    } else {
        let rest = without_id(s.drop_last(), id);
        if s.last().id == id {
            rest
        } else {
            rest.push(s.last())
        }
    }
}

/// The entries that are not team entries, in their order.
pub open spec fn local_entries(s: Seq<EntryView>) -> Seq<EntryView>
    decreases s.len(),
{
    if s.len() == 0 {
        s
    } else {
        let rest = local_entries(s.drop_last());
        if s.last().is_team {
            rest
        } else {
            rest.push(s.last())
        }
    }
}

/// Whether some entry has identifier `id`.
pub open spec fn has_id(s: Seq<EntryView>, id: Seq<char>) -> bool {
    exists|i: int| 0 <= i < s.len() && s[i].id == id
}

/// The entry marked as a team entry.
pub open spec fn as_team(e: EntryView) -> EntryView {
    EntryView { is_team: true, ..e }
}

/// The team entries whose identifier no local entry has, marked as team
/// entries, in their order.
pub open spec fn team_additions(team: Seq<EntryView>, local: Seq<EntryView>) -> Seq<EntryView>
    decreases team.len(),
{
    if team.len() == 0 {
        Seq::empty()
    } else {
        let rest = team_additions(team.drop_last(), local);
        if has_id(local, team.last().id) {
            rest
        } else {
            rest.push(as_team(team.last()))
        }
    }
}

/// The servers after a team merge: the local entries, then the team
/// entries that clash with no local identifier.
pub open spec fn merged_servers(servers: Seq<EntryView>, team: Seq<EntryView>) -> Seq<EntryView> {
    local_entries(servers) + team_additions(team, local_entries(servers))
}

/// The distinct groups of the entries, in order of first appearance.
pub open spec fn group_names(s: Seq<EntryView>) -> Seq<Seq<char>>
    decreases s.len(),
{
    if s.len() == 0 {
        Seq::empty()
    } else {
        let g = group_names(s.drop_last());
        if g.contains(s.last().group) {
            g
        } else {
            g.push(s.last().group)
        }
    }
}

/// The entries of group `g`, in their order.
pub open spec fn in_group(s: Seq<EntryView>, g: Seq<char>) -> Seq<EntryView>
    decreases s.len(),
{
    if s.len() == 0 {
        s
    } else {
        let rest = in_group(s.drop_last(), g);
        if s.last().group == g {
            rest.push(s.last())
        } else {
            rest
        }
    }
}

/// The views of a list of borrowed entries.
pub open spec fn ref_views(s: Seq<&ServerEntry>) -> Seq<EntryView> {
    s.map_values(|e: &ServerEntry| e@)
}

/// `after` is `before` with a connection time recorded on the first entry
/// with identifier `id`, if there is one: everything else stays.
pub open spec fn marked_connected(before: Seq<EntryView>, after: Seq<EntryView>, id: Seq<char>) -> bool {
    let k = index_of_id(before, id);
    &&& after.len() == before.len()
    &&& forall|i: int| 0 <= i < before.len() && i != k ==> after[i] == before[i]
    &&& k < before.len() ==> {
        &&& after[k].last_connected is Some
        &&& after[k] == EntryView { last_connected: after[k].last_connected, ..before[k] }
    }
}

/// The server list.
pub struct AddressBook {
    pub servers: Vec<ServerEntry>,
    pub groups: Vec<String>,
}

/// The mathematical content of an [`AddressBook`].
pub struct AddressBookView {
    pub servers: Seq<EntryView>,
    pub groups: Seq<Seq<char>>,
}

impl View for AddressBook {
    type V = AddressBookView;

    open spec fn view(&self) -> AddressBookView {
        AddressBookView { servers: entry_views(self.servers@), groups: views(self.groups@) }
    }
}

impl Default for AddressBook {
    /// An empty book with the single group "Default".
    fn default() -> (r: Self)
        ensures
            r@.servers.len() == 0,
            r@.groups == seq!["Default"@],
    {
        let mut groups: Vec<String> = Vec::new();
        groups.push(String::from_str("Default"));
        let servers: Vec<ServerEntry> = Vec::new();
        assert(views(groups@) =~= seq!["Default"@]);
        assert(entry_views(servers@) =~= Seq::<EntryView>::empty());
        AddressBook { servers, groups }
    }
}

/// Whether `v` holds a string equal to `s`.
pub fn contains_string(v: &Vec<String>, s: &String) -> (r: bool)
    ensures
        r == views(v@).contains(s@),
{
    let mut i: usize = 0;
    while i < v.len()
        invariant
            i <= v@.len(),
            forall|k: int| 0 <= k < i ==> views(v@)[k] != s@,
        decreases v@.len() - i,
    {
        if str_eq(v[i].as_str(), s.as_str()) {
            assert(views(v@)[i as int] == s@);
            return true;
        }
        i = i + 1;
    }
    false
}

/// Whether one of the first `n` entries of `v` has identifier `id`.
fn has_id_among(v: &Vec<ServerEntry>, n: usize, id: &str) -> (r: bool)
    requires
        n <= v@.len(),
    ensures
        r == has_id(entry_views(v@).take(n as int), id@),
{
    let ghost s = entry_views(v@).take(n as int);
    let mut i: usize = 0;
    while i < n
        invariant
            i <= n <= v@.len(),
            s == entry_views(v@).take(n as int),
            forall|k: int| 0 <= k < i ==> s[k].id != id@,
        decreases n - i,
    {
        if str_eq(v[i].id.as_str(), id) {
            assert(s[i as int].id == id@);
            return true;
        }
        i = i + 1;
    }
    false
}

impl AddressBook {
    /// The position of the first entry with identifier `id`.
    fn position_of_id(&self, id: &str) -> (r: usize)
        ensures
            r == index_of_id(self@.servers, id@),
            r <= self.servers@.len(),
    {
        let ghost s = self@.servers;
        let mut i: usize = 0;
        assert(s.skip(0) =~= s);
        while i < self.servers.len()
            invariant
                s == self@.servers,
                i <= s.len(),
                index_of_id(s, id@) == i + index_of_id(s.skip(i as int), id@),
            decreases s.len() - i,
        {
            if str_eq(self.servers[i].id.as_str(), id) {
                return i;
            }
            assert(s.skip(i as int).drop_first() =~= s.skip(i + 1));
            i = i + 1;
        }
        i
    }

    /// Adds an entry at the end, and its group to the groups when it is new.
    pub fn add(&mut self, entry: ServerEntry)
        ensures
            final(self)@.servers == old(self)@.servers.push(entry@),
            final(self)@.groups == (if old(self)@.groups.contains(entry@.group) {
                old(self)@.groups
            } else {
                old(self)@.groups.push(entry@.group)
            }),
    {
        if !contains_string(&self.groups, &entry.group) {
            let g = entry.group.clone();
            let ghost prev = self.groups@;
            self.groups.push(g);
            assert(views(self.groups@) =~= views(prev).push(entry@.group));
        }
        let ghost prev = self.servers@;
        let ghost e = entry@;
        self.servers.push(entry);
        assert(entry_views(self.servers@) =~= entry_views(prev).push(e));
    }

    /// Removes every entry with identifier `id`.
    pub fn remove(&mut self, id: &str)
        ensures
            final(self)@.servers == without_id(old(self)@.servers, id@),
            final(self)@.groups == old(self)@.groups,
    {
        let mut taken: Vec<ServerEntry> = Vec::new();
        std::mem::swap(&mut taken, &mut self.servers);
        let ghost s = entry_views(taken@);
        let mut kept: Vec<ServerEntry> = Vec::new();
        assert(s.take(0) =~= Seq::<EntryView>::empty());
        for e in it: taken.into_iter()
            invariant
                it.seq() == taken@,
                s == entry_views(taken@),
                entry_views(kept@) == without_id(s.take(it.index()), id@),
        {
            let ghost idx = it.index();
            assert(s.take(idx + 1).drop_last() =~= s.take(idx));
            assert(s.take(idx + 1).last() == e@);
            if !str_eq(e.id.as_str(), id) {
                let ghost prev = kept@;
                kept.push(e);
                assert(entry_views(kept@) =~= entry_views(prev).push(s[idx]));
            }
        }
        assert(s.take(s.len() as int) =~= s);
        self.servers = kept;
    }

    /// Replaces the first entry that has the identifier of `entry`; nothing
    /// changes when there is none.
    pub fn update(&mut self, entry: ServerEntry)
        ensures
            final(self)@.servers == (if index_of_id(old(self)@.servers, entry@.id)
                < old(self)@.servers.len() {
                old(self)@.servers.update(index_of_id(old(self)@.servers, entry@.id), entry@)
            } else {
                old(self)@.servers
            }),
            final(self)@.groups == old(self)@.groups,
    {
        let k = self.position_of_id(entry.id.as_str());
        if k < self.servers.len() {
            let ghost prev = self.servers@;
            let ghost e = entry@;
            self.servers.set(k, entry);
            assert(entry_views(self.servers@) =~= entry_views(prev).update(k as int, e));
        }
    }

    /// The first entry with identifier `id`.
    pub fn find(&self, id: &str) -> (r: Option<&ServerEntry>)
        ensures
            r is None <==> index_of_id(self@.servers, id@) == self@.servers.len(),
            r matches Some(e) ==> e@ == self@.servers[index_of_id(self@.servers, id@)],
    {
        let k = self.position_of_id(id);
        if k < self.servers.len() {
            Some(&self.servers[k])
        } else {
            None
        }
    }

    /// The first entry with this host and port.
    pub fn find_by_host_port(&self, host: &str, port: u16) -> (r: Option<&ServerEntry>)
        ensures
            r is None <==> index_of_host_port(self@.servers, host@, port)
                == self@.servers.len(),
            r matches Some(e) ==> e@ == self@.servers[index_of_host_port(
                self@.servers,
                host@,
                port,
            )],
    {
        let ghost s = self@.servers;
        let mut i: usize = 0;
        assert(s.skip(0) =~= s);
        while i < self.servers.len()
            invariant
                s == self@.servers,
                i <= s.len(),
                index_of_host_port(s, host@, port) == i + index_of_host_port(
                    s.skip(i as int),
                    host@,
                    port,
                ),
            decreases s.len() - i,
        {
            if str_eq(self.servers[i].host.as_str(), host) && self.servers[i].port == port {
                return Some(&self.servers[i]);
            }
            assert(s.skip(i as int).drop_first() =~= s.skip(i + 1));
            i = i + 1;
        }
        None
    }

    /// Records `when` as the last connection time of the first entry with
    /// identifier `id`; nothing changes when there is none.
    pub fn mark_connected_at(&mut self, id: &str, when: Timestamp)
        ensures
            final(self)@.servers == (if index_of_id(old(self)@.servers, id@) < old(
                self,
            )@.servers.len() {
                old(self)@.servers.update(
                    index_of_id(old(self)@.servers, id@),
                    EntryView {
                        last_connected: Some(when),
                        ..old(self)@.servers[index_of_id(old(self)@.servers, id@)]
                    },
                )
            } else {
                old(self)@.servers
            }),
            final(self)@.groups == old(self)@.groups,
    {
        let k = self.position_of_id(id);
        if k < self.servers.len() {
            let mut e = self.servers[k].duplicate();
            e.last_connected = Some(when);
            let ghost prev = self.servers@;
            let ghost ev = e@;
            self.servers.set(k, e);
            assert(entry_views(self.servers@) =~= entry_views(prev).update(k as int, ev));
        }
    }

    /// Records the current time as the last connection time of the first
    /// entry with identifier `id`.
    pub fn mark_connected(&mut self, id: &str)
        ensures
            final(self)@.groups == old(self)@.groups,
            marked_connected(old(self)@.servers, final(self)@.servers, id@),
    {
        let now = current_time();
        let ghost before = self@.servers;
        let ghost k = index_of_id(before, id@);
        self.mark_connected_at(id, now);
        proof {
            lemma_index_of_id(before, id@);
            if k < before.len() {
                assert(self@.servers == before.update(
                    k,
                    EntryView { last_connected: Some(now), ..before[k] },
                ));
            } else {
                assert(self@.servers == before);
            }
        }
    }

    /// The entries grouped by their group: one pair per distinct group, in
    /// order of first appearance, holding that group's entries in their order.
    pub fn servers_by_group(&self) -> (r: Vec<(String, Vec<&ServerEntry>)>)
        ensures
            r@.len() == group_names(self@.servers).len(),
            forall|i: int|
                0 <= i < r@.len() ==> {
                    &&& (#[trigger] r@[i]).0@ == group_names(self@.servers)[i]
                    &&& ref_views(r@[i].1@) == in_group(self@.servers, group_names(self@.servers)[i])
                },
    {
        let ghost s = self@.servers;
        let mut names: Vec<String> = Vec::new();
        let mut i: usize = 0;
        assert(s.take(0) =~= Seq::<EntryView>::empty());
        while i < self.servers.len()
            invariant
                s == self@.servers,
                i <= s.len(),
                views(names@) == group_names(s.take(i as int)),
            decreases s.len() - i,
        {
            assert(s.take(i + 1).drop_last() =~= s.take(i as int));
            assert(s.take(i + 1).last() == s[i as int]);
            if !contains_string(&names, &self.servers[i].group) {
                let ghost prev = names@;
                names.push(self.servers[i].group.clone());
                assert(views(names@) =~= views(prev).push(s[i as int].group));
            }
            i = i + 1;
        }
        assert(s.take(s.len() as int) =~= s);
        let ghost gn = views(names@);
        let mut out: Vec<(String, Vec<&ServerEntry>)> = Vec::new();
        let mut j: usize = 0;
        while j < names.len()
            invariant
                s == self@.servers,
                gn == views(names@),
                gn == group_names(s),
                j <= names@.len(),
                out@.len() == j,
                forall|m: int|
                    0 <= m < j ==> {
                        &&& (#[trigger] out@[m]).0@ == gn[m]
                        &&& ref_views(out@[m].1@) == in_group(s, gn[m])
                    },
            decreases names@.len() - j,
        {
            let ghost g = gn[j as int];
            let mut members: Vec<&ServerEntry> = Vec::new();
            let mut k: usize = 0;
            assert(s.take(0) =~= Seq::<EntryView>::empty());
            while k < self.servers.len()
                invariant
                    s == self@.servers,
                    k <= s.len(),
                    j < names@.len(),
                    g == names@[j as int]@,
                    ref_views(members@) == in_group(s.take(k as int), g),
                decreases s.len() - k,
            {
                assert(s.take(k + 1).drop_last() =~= s.take(k as int));
                assert(s.take(k + 1).last() == s[k as int]);
                if self.servers[k].group == names[j] {
                    let ghost prev = members@;
                    members.push(&self.servers[k]);
                    assert(ref_views(members@) =~= ref_views(prev).push(s[k as int]));
                }
                k = k + 1;
            }
            assert(s.take(s.len() as int) =~= s);
            out.push((names[j].clone(), members));
            j = j + 1;
        }
        out
    }

    /// Replaces the team entries by `team`: local entries stay as they are,
    /// team entries whose identifier a local entry has are dropped, and the
    /// others are appended marked as team entries.
    pub fn merge_team_servers(&mut self, team: Vec<ServerEntry>)
        ensures
            final(self)@.servers == merged_servers(old(self)@.servers, entry_views(team@)),
            final(self)@.groups == old(self)@.groups,
    {
        let mut taken: Vec<ServerEntry> = Vec::new();
        std::mem::swap(&mut taken, &mut self.servers);
        let ghost s = entry_views(taken@);
        let mut kept: Vec<ServerEntry> = Vec::new();
        assert(s.take(0) =~= Seq::<EntryView>::empty());
        for e in it: taken.into_iter()
            invariant
                it.seq() == taken@,
                s == entry_views(taken@),
                entry_views(kept@) == local_entries(s.take(it.index())),
        {
            let ghost idx = it.index();
            assert(s.take(idx + 1).drop_last() =~= s.take(idx));
            assert(s.take(idx + 1).last() == e@);
            if !e.is_team {
                let ghost prev = kept@;
                kept.push(e);
                assert(entry_views(kept@) =~= entry_views(prev).push(s[idx]));
            }
        }
        assert(s.take(s.len() as int) =~= s);
        let n_local: usize = kept.len();
        let ghost local = entry_views(kept@);
        let ghost tv = entry_views(team@);
        assert(tv.take(0) =~= Seq::<EntryView>::empty());
        assert(local + Seq::<EntryView>::empty() =~= local);
        for t in it: team.into_iter()
            invariant
                it.seq() == team@,
                tv == entry_views(team@),
                n_local == local.len(),
                n_local <= kept@.len(),
                entry_views(kept@).take(n_local as int) == local,
                entry_views(kept@) == local + team_additions(tv.take(it.index()), local),
        {
            let ghost idx = it.index();
            assert(tv.take(idx + 1).drop_last() =~= tv.take(idx));
            assert(tv.take(idx + 1).last() == t@);
            if !has_id_among(&kept, n_local, t.id.as_str()) {
                let mut t = t;
                t.is_team = true;
                let ghost prev = kept@;
                let ghost tt = t@;
                kept.push(t);
                assert(entry_views(kept@) =~= entry_views(prev).push(tt));
                assert(tt == as_team(tv[idx]));
                assert(entry_views(kept@).take(n_local as int) =~= entry_views(prev).take(
                    n_local as int,
                ));
            }
        }
        assert(tv.take(tv.len() as int) =~= tv);
        self.servers = kept;
    }
}

/// Keeping the local entries of two lists one after the other is keeping
/// those of each.
pub proof fn lemma_local_entries_concat(a: Seq<EntryView>, b: Seq<EntryView>)
    ensures
        local_entries(a + b) == local_entries(a) + local_entries(b),
    decreases b.len(),
{
    if b.len() == 0 {
        assert(a + b =~= a);
        assert(local_entries(a) + local_entries(b) =~= local_entries(a));
    } else {
        lemma_local_entries_concat(a, b.drop_last());
        assert((a + b).drop_last() =~= a + b.drop_last());
        assert((a + b).last() == b.last());
        if !b.last().is_team {
            assert(local_entries(a) + local_entries(b.drop_last()).push(b.last()) =~= (
            local_entries(a) + local_entries(b.drop_last())).push(b.last()));
        }
    }
}

/// The local entries are local: keeping them again changes nothing.
pub proof fn lemma_local_entries_local(s: Seq<EntryView>)
    ensures
        local_entries(local_entries(s)) == local_entries(s),
    decreases s.len(),
{
    if s.len() > 0 {
        lemma_local_entries_local(s.drop_last());
        let rest = local_entries(s.drop_last());
        if !s.last().is_team {
            assert(rest.push(s.last()).drop_last() =~= rest);
        }
    }
}

/// Team additions hold no local entry.
pub proof fn lemma_team_additions(team: Seq<EntryView>, local: Seq<EntryView>)
    ensures
        local_entries(team_additions(team, local)) == Seq::<EntryView>::empty(),
    decreases team.len(),
{
    if team.len() > 0 {
        lemma_team_additions(team.drop_last(), local);
        let rest = team_additions(team.drop_last(), local);
        if !has_id(local, team.last().id) {
            assert(rest.push(as_team(team.last())).drop_last() =~= rest);
        }
    }
}

/// What the team additions hold: exactly the team entries, marked, whose
/// identifier no local entry has.
pub proof fn lemma_team_additions_members(team: Seq<EntryView>, local: Seq<EntryView>, x: EntryView)
    ensures
        team_additions(team, local).contains(x) <==> exists|k: int|
            0 <= k < team.len() && x == as_team(#[trigger] team[k]) && !has_id(local, team[k].id),
    decreases team.len(),
{
    if team.len() > 0 {
        let d = team.drop_last();
        lemma_team_additions_members(d, local, x);
        let rest = team_additions(d, local);
        if team_additions(team, local).contains(x) {
            if rest.contains(x) {
                let k = choose|k: int|
                    0 <= k < d.len() && x == as_team(#[trigger] d[k]) && !has_id(local, d[k].id);
                assert(team[k] == d[k]);
            } else {
                let n = team.len() - 1;
                assert(team_additions(team, local) == rest.push(as_team(team.last())));
                let i = choose|i: int|
                    0 <= i < team_additions(team, local).len() && team_additions(team, local)[i]
                        == x;
                assert(i == rest.len());
                assert(x == as_team(team[n]));
            }
        }
        if exists|k: int|
            0 <= k < team.len() && x == as_team(#[trigger] team[k]) && !has_id(local, team[k].id) {
            let k = choose|k: int|
                0 <= k < team.len() && x == as_team(#[trigger] team[k]) && !has_id(local, team[k].id);
            if k < team.len() - 1 {
                assert(d[k] == team[k]);
                assert(rest.contains(x));
                let i = choose|i: int| 0 <= i < rest.len() && rest[i] == x;
                if !has_id(local, team.last().id) {
                    assert(team_additions(team, local)[i] == x);
                } else {
                    assert(team_additions(team, local)[i] == x);
                }
            } else {
                assert(team_additions(team, local) == rest.push(as_team(team.last())));
                assert(team_additions(team, local)[rest.len() as int] == x);
            }
        }
    }
}

/// The first entry with an identifier that the first list has is found in
/// the first list.
pub proof fn lemma_index_of_id_concat(a: Seq<EntryView>, b: Seq<EntryView>, id: Seq<char>)
    requires
        has_id(a, id),
    ensures
        index_of_id(a + b, id) == index_of_id(a, id),
        index_of_id(a, id) < a.len(),
    decreases a.len(),
{
    if a[0].id == id {
        assert((a + b)[0] == a[0]);
    } else {
        let k = choose|k: int| 0 <= k < a.len() && a[k].id == id;
        assert(a.drop_first()[k - 1] == a[k]);
        lemma_index_of_id_concat(a.drop_first(), b, id);
        assert((a + b).drop_first() =~= a.drop_first() + b);
        assert((a + b)[0] == a[0]);
    }
}

/// No entry left by [`without_id`] has the identifier.
pub proof fn lemma_without_id(s: Seq<EntryView>, id: Seq<char>)
    ensures
        !has_id(without_id(s, id), id),
    decreases s.len(),
{
    if s.len() > 0 {
        lemma_without_id(s.drop_last(), id);
        let rest = without_id(s.drop_last(), id);
        if s.last().id != id {
            assert forall|i: int| 0 <= i < rest.push(s.last()).len() implies rest.push(
                s.last(),
            )[i].id != id by {
                if i < rest.len() {
                    assert(rest.push(s.last())[i] == rest[i]);
                }
            }
        }
    }
}

/// A team merge keeps the local entries, in their order, and only them.
pub proof fn law_merge_keeps_local_entries(servers: Seq<EntryView>, team: Seq<EntryView>)
    ensures
        local_entries(merged_servers(servers, team)) == local_entries(servers),
{
    let local = local_entries(servers);
    lemma_local_entries_concat(local, team_additions(team, local));
    lemma_local_entries_local(servers);
    lemma_team_additions(team, local);
    assert(local + Seq::<EntryView>::empty() =~= local);
}

/// Merging the same team list twice is merging it once.
pub proof fn law_merge_idempotent(servers: Seq<EntryView>, team: Seq<EntryView>)
    ensures
        merged_servers(merged_servers(servers, team), team) == merged_servers(servers, team),
{
    law_merge_keeps_local_entries(servers, team);
}

/// After a team merge, the team entries are exactly the merged list's
/// entries, marked as team entries, whose identifier no local entry has.
pub proof fn law_merge_team_entries(servers: Seq<EntryView>, team: Seq<EntryView>, x: EntryView)
    ensures
        (merged_servers(servers, team).contains(x) && x.is_team) <==> exists|k: int|
            0 <= k < team.len() && x == as_team(#[trigger] team[k]) && !has_id(
                local_entries(servers),
                team[k].id,
            ),
{
    let local = local_entries(servers);
    let adds = team_additions(team, local);
    let m = merged_servers(servers, team);
    lemma_team_additions_members(team, local, x);
    lemma_team_additions(team, local);
    law_merge_keeps_local_entries(servers, team);
    lemma_local_entries_local(servers);
    if m.contains(x) && x.is_team {
        let i = choose|i: int| 0 <= i < m.len() && m[i] == x;
        if i < local.len() {
            lemma_local_members_are_local(servers, i);
        } else {
            assert(adds[i - local.len()] == x);
        }
    }
    if exists|k: int| 0 <= k < team.len() && x == as_team(#[trigger] team[k]) && !has_id(local, team[k].id) {
        let i = choose|i: int| 0 <= i < adds.len() && adds[i] == x;
        assert(m[local.len() + i] == x);
    }
}

/// The local entries are not team entries.
pub proof fn lemma_local_members_are_local(s: Seq<EntryView>, i: int)
    requires
        0 <= i < local_entries(s).len(),
    ensures
        !local_entries(s)[i].is_team,
    decreases s.len(),
{
    if s.len() > 0 {
        let rest = local_entries(s.drop_last());
        if i < rest.len() {
            lemma_local_members_are_local(s.drop_last(), i);
        }
    }
}

/// After a team merge, looking up an identifier that a local entry has
/// finds that local entry, not a team entry.
pub proof fn law_merge_lookup_prefers_local(
    servers: Seq<EntryView>,
    team: Seq<EntryView>,
    id: Seq<char>,
)
    requires
        has_id(local_entries(servers), id),
    ensures
        index_of_id(merged_servers(servers, team), id) == index_of_id(local_entries(servers), id),
        index_of_id(local_entries(servers), id) < local_entries(servers).len(),
        merged_servers(servers, team)[index_of_id(merged_servers(servers, team), id)]
            == local_entries(servers)[index_of_id(local_entries(servers), id)],
{
    let local = local_entries(servers);
    lemma_index_of_id_concat(local, team_additions(team, local), id);
    lemma_index_of_id(local, id);
    let k = index_of_id(local, id);
    assert((local + team_additions(team, local))[k] == local[k]);
}

/// An entry added with an identifier that no entry has is what a lookup of
/// that identifier finds.
pub proof fn law_added_entry_is_found(servers: Seq<EntryView>, e: EntryView)
    requires
        !has_id(servers, e.id),
    ensures
        index_of_id(servers.push(e), e.id) == servers.len(),
        servers.push(e)[index_of_id(servers.push(e), e.id)] == e,
{
    let s = servers.push(e);
    lemma_index_of_id(s, e.id);
    let k = index_of_id(s, e.id);
    if k < servers.len() {
        assert(s[k] == servers[k]);
    }
    assert(s[servers.len() as int] == e);
    if k == s.len() {
        assert(s[servers.len() as int].id != e.id);
    }
}

/// After removing an identifier, no lookup of it finds an entry.
pub proof fn law_removed_id_is_not_found(servers: Seq<EntryView>, id: Seq<char>)
    ensures
        index_of_id(without_id(servers, id), id) == without_id(servers, id).len(),
{
    let w = without_id(servers, id);
    lemma_without_id(servers, id);
    lemma_index_of_id(w, id);
}

/// Adding an entry never lists a group twice.
pub proof fn law_add_keeps_groups_distinct(groups: Seq<Seq<char>>, group: Seq<char>)
    requires
        groups.no_duplicates(),
    ensures
        (if groups.contains(group) {
            groups
        } else {
            groups.push(group)
        }).no_duplicates(),
{
    if !groups.contains(group) {
        let g = groups.push(group);
        assert forall|i: int, j: int| 0 <= i < g.len() && 0 <= j < g.len() && i != j implies g[i]
            != g[j] by {
            if i < groups.len() && j < groups.len() {
                assert(g[i] == groups[i] && g[j] == groups[j]);
            } else if i < groups.len() {
                assert(g[i] == groups[i]);
            } else if j < groups.len() {
                assert(g[j] == groups[j]);
            }
        }
    }
}
/// The search ignores the case of the query: two non-empty queries that
/// lower-case alike select the same entries.
pub proof fn law_search_ignores_query_case(e: EntryView, q1: Seq<char>, q2: Seq<char>)
    requires
        q1.len() > 0,
        q2.len() > 0,
        lowercase(q1) == lowercase(q2),
    ensures
        matches_query(e, q1) == matches_query(e, q2),
{
}

/// The search ignores the case of the entry's fields: entries whose name,
/// host, group, tags and notes lower-case alike are selected by the same
/// queries.
pub proof fn law_search_ignores_field_case(e1: EntryView, e2: EntryView, q: Seq<char>)
    requires
        lowercase(e1.name) == lowercase(e2.name),
        lowercase(e1.host) == lowercase(e2.host),
        lowercase(e1.group) == lowercase(e2.group),
        lowercase(e1.notes) == lowercase(e2.notes),
        e1.tags.len() == e2.tags.len(),
        forall|i: int| 0 <= i < e1.tags.len() ==> lowercase(#[trigger] e1.tags[i]) == lowercase(e2.tags[i]),
    ensures
        matches_query(e1, q) == matches_query(e2, q),
{
    let lq = lowercase(q);
    if exists|i: int| 0 <= i < e1.tags.len() && contains_seq(lowercase(e1.tags[i]), lq) {
        let i = choose|i: int| 0 <= i < e1.tags.len() && contains_seq(lowercase(e1.tags[i]), lq);
        assert(lowercase(e1.tags[i]) == lowercase(e2.tags[i]));
    }
    if exists|i: int| 0 <= i < e2.tags.len() && contains_seq(lowercase(e2.tags[i]), lq) {
        let i = choose|i: int| 0 <= i < e2.tags.len() && contains_seq(lowercase(e2.tags[i]), lq);
        assert(lowercase(e1.tags[i]) == lowercase(e2.tags[i]));
    }
}

/// The empty query selects every entry.
pub proof fn law_empty_query_selects_all(e: EntryView)
    ensures
        matches_query(e, Seq::<char>::empty()),
{
}

/// After an update of an entry that the book has, a lookup of its
/// identifier finds the new entry, at the same position.
pub proof fn law_updated_entry_is_found(servers: Seq<EntryView>, e: EntryView)
    requires
        has_id(servers, e.id),
    ensures
        index_of_id(servers.update(index_of_id(servers, e.id), e), e.id) == index_of_id(servers, e.id),
        servers.update(index_of_id(servers, e.id), e)[index_of_id(servers, e.id)] == e,
{
    let k = index_of_id(servers, e.id);
    lemma_index_of_id(servers, e.id);
    let w = choose|i: int| 0 <= i < servers.len() && servers[i].id == e.id;
    assert(k <= w);
    let s2 = servers.update(k, e);
    lemma_index_of_id(s2, e.id);
    let k2 = index_of_id(s2, e.id);
    if k2 < k {
        assert(s2[k2] == servers[k2]);
    }
    if k2 > k {
        assert(s2[k].id == e.id);
    }
}

/// A non-empty query selects an entry as soon as its lower-cased text occurs
/// anywhere inside the lower-cased name, host, group, notes or any one tag.
pub proof fn law_substring_selects(e: EntryView, q: Seq<char>, field: Seq<char>, at: int)
    requires
        q.len() > 0,
        field == e.name || field == e.host || field == e.group || field == e.notes || exists|i: int|
            0 <= i < e.tags.len() && field == e.tags[i],
        occurs_at(lowercase(field), lowercase(q), at),
    ensures
        matches_query(e, q),
{
    if exists|i: int| 0 <= i < e.tags.len() && field == e.tags[i] {
        let i = choose|i: int| 0 <= i < e.tags.len() && field == e.tags[i];
        assert(contains_seq(lowercase(e.tags[i]), lowercase(q)));
    }
}

/// A non-empty query selects an entry only when its lower-cased text occurs
/// inside one of those lower-cased fields.
pub proof fn law_selected_has_substring(e: EntryView, q: Seq<char>)
    requires
        q.len() > 0,
        matches_query(e, q),
    ensures
        exists|field: Seq<char>, at: int|
            (field == e.name || field == e.host || field == e.group || field == e.notes || exists|
                i: int,
            | 0 <= i < e.tags.len() && field == e.tags[i]) && occurs_at(lowercase(field), lowercase(q), at),
{
    let lq = lowercase(q);
    if contains_seq(lowercase(e.name), lq) {
        let at = choose|at: int| occurs_at(lowercase(e.name), lq, at);
        assert(occurs_at(lowercase(e.name), lq, at));
    } else if contains_seq(lowercase(e.host), lq) {
        let at = choose|at: int| occurs_at(lowercase(e.host), lq, at);
        assert(occurs_at(lowercase(e.host), lq, at));
    } else if contains_seq(lowercase(e.group), lq) {
        let at = choose|at: int| occurs_at(lowercase(e.group), lq, at);
        assert(occurs_at(lowercase(e.group), lq, at));
    } else if contains_seq(lowercase(e.notes), lq) {
        let at = choose|at: int| occurs_at(lowercase(e.notes), lq, at);
        assert(occurs_at(lowercase(e.notes), lq, at));
    } else {
        let i = choose|i: int| 0 <= i < e.tags.len() && contains_seq(lowercase(e.tags[i]), lq);
        let at = choose|at: int| occurs_at(lowercase(e.tags[i]), lq, at);
        assert(occurs_at(lowercase(e.tags[i]), lq, at));
    }
}

/// Grouping loses and invents nothing: the list of group `g` holds each
/// entry of group `g` exactly as often as the book does, and no other entry.
pub proof fn law_group_lists_partition(s: Seq<EntryView>, g: Seq<char>, x: EntryView)
    ensures
        in_group(s, g).to_multiset().count(x) == (if x.group == g {
            s.to_multiset().count(x)
        } else {
            0
        }),
    decreases s.len(),
{
    broadcast use vstd::seq_lib::group_to_multiset_ensures;

    if s.len() == 0 {
    } else {
        let d = s.drop_last();
        law_group_lists_partition(d, g, x);
        assert(d.push(s.last()) =~= s);
    }
}

/// Every entry's group is listed, so every entry shows under its group.
pub proof fn law_every_group_listed(s: Seq<EntryView>, k: int)
    requires
        0 <= k < s.len(),
    ensures
        group_names(s).contains(s[k].group),
    decreases s.len(),
{
    let d = s.drop_last();
    let gd = group_names(d);
    if k < s.len() - 1 {
        assert(d[k] == s[k]);
        law_every_group_listed(d, k);
        if !gd.contains(s.last().group) {
            let j = choose|j: int| 0 <= j < gd.len() && gd[j] == s[k].group;
            assert(gd.push(s.last().group)[j] == s[k].group);
        }
    } else {
        if !gd.contains(s.last().group) {
            assert(gd.push(s.last().group)[gd.len() as int] == s.last().group);
        }
    }
}

} // verus!
