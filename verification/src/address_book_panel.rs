//! The address book panel's decisions: what the quick-connect text means,
//! which servers the list shows and in which order, and which action the user
//! asked for.
use vstd::prelude::*;
use crate::address_book::{
    AddressBook, EntryView, ServerEntry, address_text, display_of, entry_views, index_of_id,
    lemma_index_of_id, matches_query, ref_views,
};
use crate::text::{
    chars_of, decimal, digit_char, is_white_space, string_of, trim, trim_chars, trim_end, trim_start,
};

verus! {

/// What the user asked the panel for.
pub enum Action {
    Connect(String),
    QuickConnect(String, u16),
    Edit(String),
    Delete(String),
    Add,
}

/// The value of a string of decimal digits.
pub open spec fn digits_value(s: Seq<char>) -> int
    decreases s.len(),
{
    if s.len() == 0 {
        0
    } else {
        digits_value(s.drop_last()) * 10 + (s.last() as int - 48)
    }
}

/// Whether every character is an ASCII digit.
pub open spec fn all_digits(s: Seq<char>) -> bool {
    forall|i: int| 0 <= i < s.len() ==> '0' <= #[trigger] s[i] <= '9'
}

/// What `str::parse::<u16>` gives: an optional leading `+`, then at least one
/// ASCII digit and nothing else, with a value that fits in `u16`.
pub open spec fn parsed_u16(s: Seq<char>) -> Option<u16> {
    let d = digit_part(s);
    if d.len() > 0 && all_digits(d) && digits_value(d) <= 65535 {
        Some(digits_value(d) as u16)
    } else {
        None
    }
}

/// The text after an optional leading `+`.
pub open spec fn digit_part(s: Seq<char>) -> Seq<char> {
    if s.len() > 0 && s[0] == '+' {
        s.drop_first()
    } else {
        s
    }
}

/// The value of digits never falls when more digits follow.
pub proof fn lemma_digits_value_grows(s: Seq<char>, k: int)
    requires
        all_digits(s),
        0 <= k <= s.len(),
    ensures
        0 <= digits_value(s.take(k)) <= digits_value(s),
    decreases s.len() - k,
{
    if k < s.len() {
        lemma_digits_value_grows(s, k + 1);
        assert(s.take(k + 1).drop_last() =~= s.take(k));
        assert(s.take(k + 1).last() == s[k]);
    } else {
        assert(s.take(k) =~= s);
    }
    lemma_digits_value_nonneg(s.take(k));
}

/// The value of digits is not negative.
pub proof fn lemma_digits_value_nonneg(s: Seq<char>)
    requires
        all_digits(s),
    ensures
        digits_value(s) >= 0,
    decreases s.len(),
{
    if s.len() > 0 {
        assert(all_digits(s.drop_last())) by {
            assert forall|i: int| 0 <= i < s.drop_last().len() implies '0' <= #[trigger] s.drop_last()[i] <= '9' by {
                assert(s.drop_last()[i] == s[i]);
            }
        }
        lemma_digits_value_nonneg(s.drop_last());
    }
}

/// Parses a port number as `str::parse::<u16>` does.
pub fn parse_u16(s: &[char]) -> (r: Option<u16>)
    ensures
        r == parsed_u16(s@),
{
    let mut start: usize = 0;
    if s.len() > 0 && s[0] == '+' {
        start = 1;
    }
    let ghost d = digit_part(s@);
    assert(d =~= s@.skip(start as int));
    assert(d.len() == s@.len() - start);
    if start >= s.len() {
        return None;
    }
    let mut value: u32 = 0;
    let mut i: usize = start;
    assert(d.take(0) =~= Seq::<char>::empty());
    while i < s.len()
        invariant
            start <= i <= s@.len(),
            d =~= s@.skip(start as int),
            d == digit_part(s@),
            all_digits(d.take(i - start)),
            value == digits_value(d.take(i - start)),
            value <= 65535,
        decreases s@.len() - i,
    {
        let c = s[i];
        assert(d[i - start] == c);
        if c < '0' || c > '9' {
            assert(!all_digits(d));
            assert(digit_part(s@) == d);
            assert(parsed_u16(s@) is None);
            return None;
        }
        let v: u32 = value * 10 + ((c as u32) - 48);
        assert(d.take(i + 1 - start).drop_last() =~= d.take(i - start));
        assert(d.take(i + 1 - start).last() == c);
        assert(all_digits(d.take(i + 1 - start))) by {
            assert forall|m: int| 0 <= m < d.take(i + 1 - start).len() implies '0'
                <= #[trigger] d.take(i + 1 - start)[m] <= '9' by {
                if m < i - start {
                    assert(d.take(i + 1 - start)[m] == d.take(i - start)[m]);
                }
            }
        }
        if v > 65535 {
            proof {
                if all_digits(d) {
                    lemma_digits_value_grows(d, i + 1 - start);
                    assert(digits_value(d) > 65535);
                }
            }
            assert(digit_part(s@) == d);
            assert(parsed_u16(s@) is None);
            return None;
        }
        value = v;
        i = i + 1;
    }
    assert(d.take(s@.len() - start) =~= d);
    Some(value as u16)
}

/// The position of the last `c` in `s`, or -1.
pub open spec fn last_index_of(s: Seq<char>, c: char) -> int
    decreases s.len(),
{
    if s.len() == 0 {
        -1
    } else if s.last() == c {
        s.len() - 1
    } else {
        last_index_of(s.drop_last(), c)
    }
}

/// The host and port that quick-connect text names: the text is trimmed; when
/// the part after its last colon parses as a port, the part before is the
/// host and the port is resolved (display numbers below 100 count from 5900);
/// otherwise the whole text is the host and the port is 5900.
pub open spec fn host_port_of(input: Seq<char>) -> (Seq<char>, u16) {
    let t = trim(input);
    let p = last_index_of(t, ':');
    if p >= 0 {
        match parsed_u16(t.skip(p + 1)) {
            Some(port) => (t.take(p), if port < 100 {
                (5900 + port) as u16
            } else {
                port
            }),
            None => (t, 5900u16),
        }
    } else {
        (t, 5900u16)
    }
}

/// Whether `a` comes no later than `b` in the order of `str`: character by
/// character by code point, a prefix first.
pub open spec fn text_le(a: Seq<char>, b: Seq<char>) -> bool
    decreases a.len(),
{
    if a.len() == 0 {
        true
    } else if b.len() == 0 {
        false
    } else if a[0] != b[0] {
        a[0] < b[0]
    } else {
        text_le(a.drop_first(), b.drop_first())
    }
}

/// Whether `a` is listed no later than `b`: by group, then by name.
pub open spec fn listed_before(a: EntryView, b: EntryView) -> bool {
    if a.group != b.group {
        text_le(a.group, b.group)
    } else {
        text_le(a.name, b.name)
    }
}

/// `s` with `x` put after every entry from the end that is listed no later
/// than it: where `s` is in list order, the place that keeps it so, after the
/// entries equal to `x`.
pub open spec fn insert_listed(s: Seq<EntryView>, x: EntryView) -> Seq<EntryView>
    decreases s.len(),
{
    if s.len() == 0 {
        seq![x]
    } else if listed_before(s.last(), x) {
        s.push(x)
    } else {
        insert_listed(s.drop_last(), x).push(s.last())
    }
}

/// The entries in list order, by group and then by name; entries that
/// compare equal keep their order.
pub open spec fn in_list_order(s: Seq<EntryView>) -> Seq<EntryView>
    decreases s.len(),
{
    if s.len() == 0 {
        s
    } else {
        insert_listed(in_list_order(s.drop_last()), s.last())
    }
}

/// The entries that a search query and a group filter let through, in their
/// order.
pub open spec fn filtered(s: Seq<EntryView>, query: Seq<char>, group: Option<Seq<char>>) -> Seq<
    EntryView,
>
    decreases s.len(),
{
    if s.len() == 0 {
        s
    } else {
        let rest = filtered(s.drop_last(), query, group);
        let e = s.last();
        if matches_query(e, query) && (group is None || group == Some(e.group)) {
            rest.push(e)
        } else {
            rest
        }
    }
}

/// The view of an optional group name.
pub open spec fn group_view(g: Option<String>) -> Option<Seq<char>> {
    match g {
        Some(s) => Some(s@),
        None => None,
    }
}

/// Whether `a` comes no later than `b`: see [`text_le`].
pub fn text_le_exec(a: &str, b: &str) -> (r: bool)
    ensures
        r == text_le(a@, b@),
{
    let ca = chars_of(a);
    let cb = chars_of(b);
    let mut i: usize = 0;
    assert(ca@.skip(0) =~= ca@);
    assert(cb@.skip(0) =~= cb@);
    while i < ca.len() && i < cb.len() && ca[i] == cb[i]
        invariant
            i <= ca@.len(),
            i <= cb@.len(),
            text_le(a@, b@) == text_le(ca@.skip(i as int), cb@.skip(i as int)),
            ca@ == a@,
            cb@ == b@,
        decreases ca@.len() - i,
    {
        assert(ca@.skip(i as int).drop_first() =~= ca@.skip(i + 1));
        assert(cb@.skip(i as int).drop_first() =~= cb@.skip(i + 1));
        i = i + 1;
    }
    if i == ca.len() {
        true
    } else if i == cb.len() {
        false
    } else {
        ca[i] < cb[i]
    }
}

/// Whether `a` is listed no later than `b`: see [`listed_before`].
fn listed_before_exec(a: &ServerEntry, b: &ServerEntry) -> (r: bool)
    ensures
        r == listed_before(a@, b@),
{
    if a.group != b.group {
        text_le_exec(a.group.as_str(), b.group.as_str())
    } else {
        text_le_exec(a.name.as_str(), b.name.as_str())
    }
}

/// Inserting at the place found from the end is [`insert_listed`].
proof fn lemma_insert_listed_at(s: Seq<EntryView>, x: EntryView, j: int)
    requires
        0 <= j <= s.len(),
        forall|k: int| j <= k < s.len() ==> !listed_before(#[trigger] s[k], x),
        j == 0 || listed_before(s[j - 1], x),
    ensures
        insert_listed(s, x) == s.insert(j, x),
    decreases s.len(),
{
    if s.len() == 0 {
        assert(s.insert(j, x) =~= seq![x]);
    } else if j == s.len() {
        assert(s.insert(j, x) =~= s.push(x));
    } else {
        lemma_insert_listed_at(s.drop_last(), x, j);
        assert(s.insert(j, x) =~= s.drop_last().insert(j, x).push(s.last()));
    }
}

/// The name of the entry with identifier `id`, or the empty text.
pub open spec fn delete_name(s: Seq<EntryView>, id: Seq<char>) -> Seq<char> {
    let k = index_of_id(s, id);
    if 0 <= k < s.len() {
        s[k].name
    } else {
        Seq::empty()
    }
}

/// The panel beside the server list.
pub struct AddressBookPanel {
    pub search_query: String,
    pub selected_group: Option<String>,
    pub selected_server: Option<String>,
    pub pending_action: Option<Action>,
    pub confirm_delete: Option<String>,
    pub quick_connect_input: String,
}

impl AddressBookPanel {
    /// An empty panel: no search, no filter, nothing selected or pending.
    pub fn new() -> (r: Self)
        ensures
            r.search_query@.len() == 0,
            r.selected_group is None,
            r.selected_server is None,
            r.pending_action is None,
            r.confirm_delete is None,
            r.quick_connect_input@.len() == 0,
    {
        AddressBookPanel {
            search_query: String::new(),
            selected_group: None,
            selected_server: None,
            pending_action: None,
            confirm_delete: None,
            quick_connect_input: String::new(),
        }
    }

    /// Takes the action the user asked for.
    pub fn take_action(&mut self) -> (r: Option<Action>)
        ensures
            r == old(self).pending_action,
            final(self).pending_action is None,
            *final(self) == (AddressBookPanel { pending_action: final(self).pending_action, ..*old(self) }),
    {
        self.pending_action.take()
    }

    /// The servers the list shows: those that the search query and the
    /// group filter let through, by group and then by name, entries that
    /// compare equal in the book's order.
    pub fn visible_servers<'a>(&self, book: &'a AddressBook) -> (r: Vec<&'a ServerEntry>)
        ensures
            ref_views(r@) == in_list_order(
                filtered(book@.servers, self.search_query@, group_view(self.selected_group)),
            ),
    {
        let ghost s = book@.servers;
        let ghost g = group_view(self.selected_group);
        let ghost q = self.search_query@;
        let mut out: Vec<&ServerEntry> = Vec::new();
        let mut i: usize = 0;
        assert(s.take(0) =~= Seq::<EntryView>::empty());
        while i < book.servers.len()
            invariant
                s == book@.servers,
                g == group_view(self.selected_group),
                q == self.search_query@,
                i <= s.len(),
                ref_views(out@) == in_list_order(filtered(s.take(i as int), q, g)),
            decreases s.len() - i,
        {
            let e = &book.servers[i];
            assert(s.take(i + 1).drop_last() =~= s.take(i as int));
            assert(s.take(i + 1).last() == s[i as int]);
            assert(s[i as int] == e@);
            let keep_group = match &self.selected_group {
                Some(name) => e.group == *name,
                None => true,
            };
            assert(keep_group == (g is None || g == Some(e@.group)));
            let ghost before = filtered(s.take(i as int), q, g);
            if e.matches_search(self.search_query.as_str()) && keep_group {
                assert(filtered(s.take(i + 1), q, g) == before.push(e@));
                assert(before.push(e@).drop_last() =~= before);
                let ghost prev = ref_views(out@);
                let mut j: usize = out.len();
                while j > 0 && !listed_before_exec(out[j - 1], e)
                    invariant
                        j <= out@.len(),
                        prev == ref_views(out@),
                        forall|k: int| j <= k < prev.len() ==> !listed_before(#[trigger] prev[k], e@),
                    decreases j,
                {
                    j = j - 1;
                }
                proof {
                    lemma_insert_listed_at(prev, e@, j as int);
                }
                out.insert(j, e);
                assert(ref_views(out@) =~= prev.insert(j as int, e@));
            } else {
                assert(filtered(s.take(i + 1), q, g) == before);
            }
            i = i + 1;
        }
        assert(s.take(s.len() as int) =~= s);
        out
    }

    /// A click on a server's row selects it.
    pub fn select_server(&mut self, id: &str)
        ensures
            final(self).selected_server matches Some(s) && s@ == id@,
            final(self).pending_action == old(self).pending_action,
            final(self).confirm_delete == old(self).confirm_delete,
            *final(self) == (AddressBookPanel { selected_server: final(self).selected_server, ..*old(self) }),
    {
        self.selected_server = Some(String::from_str(id));
    }

    /// The user asked to connect to a server (a double click, or "Connect").
    pub fn request_connect(&mut self, id: &str)
        ensures
            final(self).pending_action matches Some(Action::Connect(s)) && s@ == id@,
            final(self).selected_server == old(self).selected_server,
            final(self).confirm_delete == old(self).confirm_delete,
            *final(self) == (AddressBookPanel { pending_action: final(self).pending_action, ..*old(self) }),
    {
        self.pending_action = Some(Action::Connect(String::from_str(id)));
    }

    /// The user asked to edit a server.
    pub fn request_edit(&mut self, id: &str)
        ensures
            final(self).pending_action matches Some(Action::Edit(s)) && s@ == id@,
            final(self).selected_server == old(self).selected_server,
            final(self).confirm_delete == old(self).confirm_delete,
            *final(self) == (AddressBookPanel { pending_action: final(self).pending_action, ..*old(self) }),
    {
        self.pending_action = Some(Action::Edit(String::from_str(id)));
    }

    /// The user asked to add a server.
    pub fn request_add(&mut self)
        ensures
            final(self).pending_action matches Some(Action::Add),
            final(self).selected_server == old(self).selected_server,
            final(self).confirm_delete == old(self).confirm_delete,
            *final(self) == (AddressBookPanel { pending_action: final(self).pending_action, ..*old(self) }),
    {
        self.pending_action = Some(Action::Add);
    }

    /// The user asked to delete a server: nothing is deleted until the
    /// deletion is confirmed.
    pub fn request_delete(&mut self, id: &str)
        ensures
            final(self).confirm_delete matches Some(s) && s@ == id@,
            final(self).pending_action == old(self).pending_action,
            final(self).selected_server == old(self).selected_server,
            *final(self) == (AddressBookPanel { confirm_delete: final(self).confirm_delete, ..*old(self) }),
    {
        self.confirm_delete = Some(String::from_str(id));
    }

    /// The user confirmed the deletion that waits for confirmation; with
    /// none waiting nothing happens.
    pub fn confirm_pending_delete(&mut self)
        ensures
            old(self).confirm_delete matches Some(id) ==> final(self).pending_action matches Some(
                Action::Delete(d),
            ) && d@ == id@,
            old(self).confirm_delete is None ==> final(self).pending_action == old(
                self,
            ).pending_action,
            final(self).confirm_delete is None,
            final(self).selected_server == old(self).selected_server,
            *final(self) == (AddressBookPanel { confirm_delete: final(self).confirm_delete, pending_action: final(self).pending_action, ..*old(self) }),
    {
        match self.confirm_delete.take() {
            Some(id) => {
                self.pending_action = Some(Action::Delete(id));
            },
            None => {},
        }
    }

    /// The user declined the deletion that waits for confirmation.
    pub fn cancel_delete(&mut self)
        ensures
            final(self).confirm_delete is None,
            final(self).pending_action == old(self).pending_action,
            final(self).selected_server == old(self).selected_server,
            *final(self) == (AddressBookPanel { confirm_delete: final(self).confirm_delete, ..*old(self) }),
    {
        self.confirm_delete = None;
    }

    /// "Connect" under the list: asks to connect to the selected server, if
    /// there is one.
    pub fn connect_selected(&mut self)
        ensures
            old(self).selected_server matches Some(id) ==> final(self).pending_action matches Some(
                Action::Connect(c),
            ) && c@ == id@,
            old(self).selected_server is None ==> final(self).pending_action == old(
                self,
            ).pending_action,
            final(self).selected_server == old(self).selected_server,
            final(self).confirm_delete == old(self).confirm_delete,
            *final(self) == (AddressBookPanel { pending_action: final(self).pending_action, ..*old(self) }),
    {
        match &self.selected_server {
            Some(id) => {
                self.pending_action = Some(Action::Connect(id.clone()));
            },
            None => {},
        }
    }

    /// "Edit" under the list: asks to edit the selected server, if there is
    /// one.
    pub fn edit_selected(&mut self)
        ensures
            old(self).selected_server matches Some(id) ==> final(self).pending_action matches Some(
                Action::Edit(c),
            ) && c@ == id@,
            old(self).selected_server is None ==> final(self).pending_action == old(
                self,
            ).pending_action,
            final(self).selected_server == old(self).selected_server,
            final(self).confirm_delete == old(self).confirm_delete,
            *final(self) == (AddressBookPanel { pending_action: final(self).pending_action, ..*old(self) }),
    {
        match &self.selected_server {
            Some(id) => {
                self.pending_action = Some(Action::Edit(id.clone()));
            },
            None => {},
        }
    }

    /// "Delete" under the list: asks to confirm the deletion of the selected
    /// server, if there is one.
    pub fn delete_selected(&mut self)
        ensures
            old(self).selected_server matches Some(id) ==> final(self).confirm_delete matches Some(c)
                && c@ == id@,
            old(self).selected_server is None ==> final(self).confirm_delete == old(
                self,
            ).confirm_delete,
            final(self).pending_action == old(self).pending_action,
            final(self).selected_server == old(self).selected_server,
            *final(self) == (AddressBookPanel { confirm_delete: final(self).confirm_delete, ..*old(self) }),
    {
        match &self.selected_server {
            Some(id) => {
                self.confirm_delete = Some(id.clone());
            },
            None => {},
        }
    }

    /// The question asked before a deletion: `Delete server '<name>'?`, with
    /// the name of the entry that waits for deletion, or an empty name where
    /// the book has no such entry; `None` where no deletion waits.
    pub fn delete_prompt(&self, book: &AddressBook) -> (r: Option<String>)
        ensures
            self.confirm_delete is None ==> r is None,
            self.confirm_delete matches Some(id) ==> r matches Some(t) && t@ == "Delete server '"@
                + delete_name(book@.servers, id@) + "'?"@,
    {
        match &self.confirm_delete {
            Some(id) => {
                proof {
                    lemma_index_of_id(book@.servers, id@);
                }
                let name = match book.find(id.as_str()) {
                    Some(e) => e.name.clone(),
                    None => String::new(),
                };
                assert(name@ == delete_name(book@.servers, id@));
                let mut t = String::from_str("Delete server '");
                t.append(name.as_str());
                t.append("'?");
                Some(t)
            },
            None => None,
        }
    }

    /// The host and port that quick-connect text names; see [`host_port_of`].
    pub fn parse_host_port(input: &str) -> (r: (String, u16))
        ensures
            (r.0@, r.1) == host_port_of(input@),
    {
        let cs = chars_of(input);
        let t = trim_chars(cs.as_slice());
        let mut p: usize = t.len();
        let ghost ts = t@;
        assert(ts.take(ts.len() as int) =~= ts);
        while p > 0 && t[p - 1] != ':'
            invariant
                p <= ts.len(),
                ts == t@,
                last_index_of(ts, ':') == last_index_of(ts.take(p as int), ':'),
            decreases p,
        {
            assert(ts.take(p as int).drop_last() =~= ts.take(p - 1));
            p = p - 1;
        }
        proof {
            if p == ts.len() {
                assert(ts.take(p as int) =~= ts);
            }
        }
        if p > 0 {
            let colon: usize = p - 1;
            assert(ts.take(p as int).last() == ':');
            assert(last_index_of(ts, ':') == colon);
            let mut port_part: Vec<char> = Vec::new();
            let mut k: usize = colon + 1;
            while k < t.len()
                invariant
                    colon + 1 <= k <= ts.len(),
                    ts == t@,
                    port_part@ == ts.subrange(colon + 1, k as int),
                decreases ts.len() - k,
            {
                port_part.push(t[k]);
                k = k + 1;
                assert(port_part@ =~= ts.subrange(colon + 1, k as int));
            }
            assert(port_part@ =~= ts.skip(colon + 1));
            match parse_u16(port_part.as_slice()) {
                Some(port) => {
                    let mut host_part: Vec<char> = Vec::new();
                    let mut m: usize = 0;
                    while m < colon
                        invariant
                            m <= colon < ts.len(),
                            ts == t@,
                            host_part@ == ts.take(m as int),
                        decreases colon - m,
                    {
                        host_part.push(t[m]);
                        m = m + 1;
                        assert(host_part@ =~= ts.take(m as int));
                    }
                    let resolved: u16 = if port < 100 {
                        5900 + port
                    } else {
                        port
                    };
                    return (string_of(host_part.as_slice()), resolved);
                },
                None => {
                    return (string_of(t.as_slice()), 5900);
                },
            }
        }
        assert(last_index_of(ts.take(0), ':') == -1);
        (string_of(t.as_slice()), 5900)
    }

    /// The quick-connect field was submitted: text that is not blank becomes
    /// a quick-connect action for the host and port it names, and the field is
    /// cleared; blank text does nothing.
    pub fn submit_quick_connect(&mut self)
        ensures
            trim(old(self).quick_connect_input@).len() > 0 ==> {
                &&& final(self).pending_action matches Some(Action::QuickConnect(h, p)) && (h@, p)
                    == host_port_of(old(self).quick_connect_input@)
                &&& final(self).quick_connect_input@.len() == 0
            },
            trim(old(self).quick_connect_input@).len() == 0 ==> final(self).pending_action == old(
                self,
            ).pending_action && final(self).quick_connect_input == old(self).quick_connect_input,
            *final(self) == (AddressBookPanel { pending_action: final(self).pending_action, quick_connect_input: final(self).quick_connect_input, ..*old(self) }),
    {
        let cs = chars_of(self.quick_connect_input.as_str());
        let t = trim_chars(cs.as_slice());
        if t.len() > 0 {
            let (host, port) = Self::parse_host_port(self.quick_connect_input.as_str());
            self.pending_action = Some(Action::QuickConnect(host, port));
            self.quick_connect_input = String::new();
        }
    }
}

/// Whether every entry is listed no later than each one after it.
pub open spec fn in_order(s: Seq<EntryView>) -> bool {
    forall|i: int, j: int| 0 <= i < j < s.len() ==> listed_before(#[trigger] s[i], #[trigger] s[j])
}

/// Of two texts one comes no later than the other.
pub proof fn lemma_text_le_total(a: Seq<char>, b: Seq<char>)
    ensures
        text_le(a, b) || text_le(b, a),
    decreases a.len(),
{
    if a.len() > 0 && b.len() > 0 && a[0] == b[0] {
        lemma_text_le_total(a.drop_first(), b.drop_first());
    }
}

/// Texts that each come no later than the other are equal.
pub proof fn lemma_text_le_antisymmetric(a: Seq<char>, b: Seq<char>)
    requires
        text_le(a, b),
        text_le(b, a),
    ensures
        a == b,
    decreases a.len(),
{
    if a.len() > 0 && b.len() > 0 {
        lemma_text_le_antisymmetric(a.drop_first(), b.drop_first());
        assert(a =~= seq![a[0]] + a.drop_first());
        assert(b =~= seq![b[0]] + b.drop_first());
    } else {
        assert(a =~= b);
    }
}

/// The order of texts is transitive.
pub proof fn lemma_text_le_transitive(a: Seq<char>, b: Seq<char>, c: Seq<char>)
    requires
        text_le(a, b),
        text_le(b, c),
    ensures
        text_le(a, c),
    decreases a.len(),
{
    if a.len() > 0 && b.len() > 0 && c.len() > 0 && a[0] == b[0] && b[0] == c[0] {
        lemma_text_le_transitive(a.drop_first(), b.drop_first(), c.drop_first());
    }
}

/// Of two entries one is listed no later than the other.
pub proof fn lemma_listed_before_total(a: EntryView, b: EntryView)
    ensures
        listed_before(a, b) || listed_before(b, a),
{
    lemma_text_le_total(a.group, b.group);
    lemma_text_le_total(a.name, b.name);
}

/// The list order is transitive.
pub proof fn lemma_listed_before_transitive(a: EntryView, b: EntryView, c: EntryView)
    requires
        listed_before(a, b),
        listed_before(b, c),
    ensures
        listed_before(a, c),
{
    if a.group != b.group && b.group != c.group {
        lemma_text_le_transitive(a.group, b.group, c.group);
        if a.group == c.group {
            lemma_text_le_antisymmetric(a.group, b.group);
        }
    } else if a.group == b.group && b.group == c.group {
        lemma_text_le_transitive(a.name, b.name, c.name);
    }
}

/// Inserting adds exactly the inserted entry.
pub proof fn lemma_insert_listed_multiset(s: Seq<EntryView>, x: EntryView)
    ensures
        insert_listed(s, x).to_multiset() =~= s.to_multiset().insert(x),
    decreases s.len(),
{
    broadcast use vstd::seq_lib::group_to_multiset_ensures;

    if s.len() > 0 && !listed_before(s.last(), x) {
        let d = s.drop_last();
        lemma_insert_listed_multiset(d, x);
        assert(d.push(s.last()) =~= s);
    } else if s.len() == 0 {
        assert(seq![x] =~= s.push(x));
    }
}

/// Inserting into an ordered list keeps it ordered.
pub proof fn lemma_insert_listed_in_order(s: Seq<EntryView>, x: EntryView)
    requires
        in_order(s),
    ensures
        in_order(insert_listed(s, x)),
    decreases s.len(),
{
    broadcast use vstd::seq_lib::group_to_multiset_ensures;

    if s.len() == 0 {
    } else if listed_before(s.last(), x) {
        let r = s.push(x);
        assert forall|i: int, j: int| 0 <= i < j < r.len() implies listed_before(
            #[trigger] r[i],
            #[trigger] r[j],
        ) by {
            if j == s.len() && i < s.len() - 1 {
                lemma_listed_before_transitive(s[i], s.last(), x);
            }
        }
    } else {
        let d = s.drop_last();
        let last = s.last();
        assert(in_order(d));
        lemma_insert_listed_in_order(d, x);
        lemma_insert_listed_multiset(d, x);
        lemma_listed_before_total(last, x);
        let m = insert_listed(d, x);
        let r = m.push(last);
        assert forall|i: int, j: int| 0 <= i < j < r.len() implies listed_before(
            #[trigger] r[i],
            #[trigger] r[j],
        ) by {
            if j == m.len() {
                let y = m[i];
                assert(m.contains(y));
                assert(m.to_multiset().count(y) > 0);
                if y != x {
                    assert(d.to_multiset().count(y) > 0);
                    assert(d.contains(y));
                    let k = choose|k: int| 0 <= k < d.len() && d[k] == y;
                    assert(s[k] == y);
                    assert(s[s.len() - 1] == last);
                }
            }
        }
    }
}

/// The list order puts the entries in order.
pub proof fn law_list_order_sorted(s: Seq<EntryView>)
    ensures
        in_order(in_list_order(s)),
    decreases s.len(),
{
    if s.len() > 0 {
        law_list_order_sorted(s.drop_last());
        lemma_insert_listed_in_order(in_list_order(s.drop_last()), s.last());
    }
}

/// The list order shows every entry exactly as often as it occurs.
pub proof fn law_list_order_permutes(s: Seq<EntryView>)
    ensures
        in_list_order(s).to_multiset() =~= s.to_multiset(),
    decreases s.len(),
{
    broadcast use vstd::seq_lib::group_to_multiset_ensures;

    if s.len() > 0 {
        law_list_order_permutes(s.drop_last());
        lemma_insert_listed_multiset(in_list_order(s.drop_last()), s.last());
        assert(s.drop_last().push(s.last()) =~= s);
    }
}

/// Decimal renderings are digits with the value they render.
pub proof fn lemma_decimal_digits(n: nat)
    ensures
        all_digits(decimal(n)),
        digits_value(decimal(n)) == n,
        decimal(n).len() > 0,
    decreases n,
{
    let d = decimal(n);
    if n < 10 {
        assert(d.drop_last() =~= Seq::<char>::empty());
        assert(d.last() == digit_char(n));
        assert(digit_char(n) as int == n + 48);
        assert(digits_value(d.drop_last()) == 0);
    } else {
        lemma_decimal_digits(n / 10);
        assert(d.drop_last() =~= decimal(n / 10));
        assert(d.last() == digit_char(n % 10));
        assert(digit_char(n % 10) as int == n % 10 + 48);
        assert((n / 10) * 10 + n % 10 == n) by (nonlinear_arith);
        assert forall|i: int| 0 <= i < d.len() implies '0' <= #[trigger] d[i] <= '9' by {
            if i < d.len() - 1 {
                assert(d[i] == decimal(n / 10)[i]);
            }
        }
    }
}

/// Trimming changes a text exactly when it starts or ends with white space.
proof fn lemma_trim_start_shortens(s: Seq<char>)
    ensures
        trim_start(s).len() <= s.len(),
        trim_start(s).len() == s.len() ==> trim_start(s) == s,
        s.len() > 0 && is_white_space(s[0]) ==> trim_start(s).len() < s.len(),
    decreases s.len(),
{
    if s.len() > 0 && is_white_space(s[0]) {
        lemma_trim_start_shortens(s.drop_first());
    }
}

/// Trimming the end never lengthens a text.
proof fn lemma_trim_end_shortens(s: Seq<char>)
    ensures
        trim_end(s).len() <= s.len(),
    decreases s.len(),
{
    if s.len() > 0 && is_white_space(s.last()) {
        lemma_trim_end_shortens(s.drop_last());
    }
}

/// The last colon of a text lies in its first part when the second part
/// has none.
proof fn lemma_last_index_of_concat(a: Seq<char>, b: Seq<char>, c: char)
    requires
        forall|i: int| 0 <= i < b.len() ==> b[i] != c,
    ensures
        last_index_of(a + b, c) == last_index_of(a, c),
    decreases b.len(),
{
    if b.len() == 0 {
        assert(a + b =~= a);
    } else {
        assert((a + b).drop_last() =~= a + b.drop_last());
        assert((a + b).last() == b.last());
        lemma_last_index_of_concat(a, b.drop_last(), c);
    }
}

/// An address as the address book shows it reads back, in the quick-connect
/// field, as the same host and port: for ports from 100 on (display numbers
/// below 100 are read as displays) and hosts without a colon or surrounding
/// white space.
pub proof fn law_quick_connect_reads_display_address(host: Seq<char>, port: u16)
    requires
        port >= 100,
        trim(host) == host,
        !host.contains(':'),
    ensures
        host_port_of(address_text(host, port)) == (host, port),
{
    lemma_trim_start_shortens(host);
    lemma_trim_end_shortens(trim_start(host));
    assert(trim_start(host) == host);
    assert(forall|i: int| 0 <= i < host.len() ==> host[i] != ':');
    let n: nat = match display_of(port) {
        Some(dn) => dn as nat,
        None => port as nat,
    };
    if display_of(port) == Some(0u16) {
        assert(address_text(host, port) == host);
        assert(last_index_of(host.take(host.len() as int), ':') == -1) by {
            lemma_last_index_of_concat(Seq::<char>::empty(), host, ':');
            assert(Seq::<char>::empty() + host =~= host);
            assert(host.take(host.len() as int) =~= host);
        }
        assert(host.take(host.len() as int) =~= host);
    } else {
        let dec = decimal(n);
        lemma_decimal_digits(n);
        let t = host.push(':') + dec;
        assert(address_text(host, port) == t);
        assert(forall|i: int| 0 <= i < dec.len() ==> dec[i] != ':') by {
            assert forall|i: int| 0 <= i < dec.len() implies dec[i] != ':' by {
                assert('0' <= dec[i] <= '9');
            }
        }
        // The text is already trimmed.
        assert(t.len() > 0);
        if host.len() > 0 {
            assert(t[0] == host[0]);
            assert(!is_white_space(host[0]));
        } else {
            assert(t[0] == ':');
        }
        assert(trim_start(t) == t);
        assert(t.last() == dec.last());
        assert('0' <= dec[dec.len() - 1] <= '9');
        assert(!is_white_space(t.last()));
        assert(trim_end(t) == t);
        assert(trim(t) == t);
        // Its last colon is the one after the host.
        lemma_last_index_of_concat(host.push(':'), dec, ':');
        assert(host.push(':').last() == ':');
        assert(last_index_of(t, ':') == host.len());
        assert(t.skip(host.len() as int + 1) =~= dec);
        assert(t.take(host.len() as int) =~= host);
        assert(digit_part(dec) == dec) by {
            assert('0' <= dec[0] <= '9');
        }
        assert(n <= 65535);
        assert(parsed_u16(dec) == Some(n as u16));
    }
}

/// The list shows exactly the entries that the search query and the group
/// filter let through: every shown entry passes both, and every entry of
/// the book that passes both is shown.
pub proof fn law_filter_shows_exactly_matches(
    s: Seq<EntryView>,
    query: Seq<char>,
    group: Option<Seq<char>>,
    x: EntryView,
)
    ensures
        filtered(s, query, group).contains(x) <==> (s.contains(x) && matches_query(x, query) && (
        group is None || group == Some(x.group))),
    decreases s.len(),
{
    if s.len() > 0 {
        let d = s.drop_last();
        law_filter_shows_exactly_matches(d, query, group, x);
        let rest = filtered(d, query, group);
        let e = s.last();
        assert(s =~= d.push(e));
        if s.contains(x) && !d.contains(x) {
            let i = choose|i: int| 0 <= i < s.len() && s[i] == x;
            if i < d.len() {
                assert(d[i] == x);
            }
            assert(x == e);
        }
        if d.contains(x) {
            let i = choose|i: int| 0 <= i < d.len() && d[i] == x;
            assert(s[i] == x);
        }
        if matches_query(e, query) && (group is None || group == Some(e.group)) {
            let r = rest.push(e);
            if r.contains(x) && !rest.contains(x) {
                let i = choose|i: int| 0 <= i < r.len() && r[i] == x;
                if i < rest.len() {
                    assert(rest[i] == x);
                }
            }
            if rest.contains(x) {
                let i = choose|i: int| 0 <= i < rest.len() && rest[i] == x;
                assert(r[i] == x);
            }
            if x == e {
                assert(r[rest.len() as int] == x);
            }
        }
    }
}

} // verus!
