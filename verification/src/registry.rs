//! The two-sided peer registry.
//!
//! The broker holds one record per connected bot and per connected client,
//! keyed by a unique 128-bit identifier, in insertion order. Only the broker
//! mutates the registry; callers of this crate own the sockets themselves
//! and feed write failures back through the removal functions here.

use vstd::prelude::*;
use vstd::string::StringSliceAdditionalSpecFns;
use crate::bytes::append_bytes;
use crate::ids::{ulid_string, ulid_text};
use crate::lines::{
    bot_removed_line, bot_removed_line_bytes, client_removed_line, client_removed_line_bytes,
    removing_bot_line, removing_bot_line_bytes, removing_client_line, removing_client_line_bytes,
};

verus! {

/// What the broker records of one connected bot.
pub struct BrokerBot {
    pub id: u128,
    pub name: Option<Vec<u8>>,
    pub address: Vec<u8>,
}

/// The mathematical image of a bot record.
pub struct BotRec {
    pub id: u128,
    pub name: Option<Seq<u8>>,
    pub address: Seq<u8>,
}

impl View for BrokerBot {
    type V = BotRec;

    open spec fn view(&self) -> BotRec {
        BotRec {
            id: self.id,
            name: match self.name {
                Option::Some(n) => Option::Some(n@),
                Option::None => Option::None,
            },
            address: self.address@,
        }
    }
}

/// What the broker records of one connected client.
pub struct BrokerClient {
    pub id: u128,
    pub name: Option<Vec<u8>>,
    pub is_referee: bool,
    pub address: Vec<u8>,
}

/// The mathematical image of a client record.
pub struct ClientRec {
    pub id: u128,
    pub name: Option<Seq<u8>>,
    pub is_referee: bool,
    pub address: Seq<u8>,
}

impl View for BrokerClient {
    type V = ClientRec;

    open spec fn view(&self) -> ClientRec {
        ClientRec {
            id: self.id,
            name: match self.name {
                Option::Some(n) => Option::Some(n@),
                Option::None => Option::None,
            },
            is_referee: self.is_referee,
            address: self.address@,
        }
    }
}

impl BrokerBot {
    /// Whether this record carries exactly the given name.
    pub fn has_name(&self, name: &str) -> (r: bool)
        ensures
            r == (self@.name == Option::Some(name.spec_bytes())),
    {
        match &self.name {
            Option::Some(n) => crate::bytes::bytes_eq(n.as_slice(), name.as_bytes()),
            Option::None => false,
        }
    }
}

impl BrokerClient {
    /// Whether this record carries exactly the given name.
    pub fn has_name(&self, name: &str) -> (r: bool)
        ensures
            r == (self@.name == Option::Some(name.spec_bytes())),
    {
        match &self.name {
            Option::Some(n) => crate::bytes::bytes_eq(n.as_slice(), name.as_bytes()),
            Option::None => false,
        }
    }
}

pub open spec fn bots_view(s: Seq<BrokerBot>) -> Seq<BotRec> {
    s.map_values(|r: BrokerBot| r@)
}

pub open spec fn clients_view(s: Seq<BrokerClient>) -> Seq<ClientRec> {
    s.map_values(|r: BrokerClient| r@)
}

/// The broker's registry: all connected bots and clients, in join order.
pub struct Broker {
    pub bots: Vec<BrokerBot>,
    pub clients: Vec<BrokerClient>,
}

/// The mathematical image of the registry.
pub struct BrokerView {
    pub bots: Seq<BotRec>,
    pub clients: Seq<ClientRec>,
}

impl View for Broker {
    type V = BrokerView;

    open spec fn view(&self) -> BrokerView {
        BrokerView { bots: bots_view(self.bots@), clients: clients_view(self.clients@) }
    }
}

pub open spec fn unique_bot_ids(s: Seq<BotRec>) -> bool {
    forall|i: int, j: int| #![trigger s[i], s[j]] 0 <= i < j < s.len() ==> s[i].id != s[j].id
}

pub open spec fn unique_client_ids(s: Seq<ClientRec>) -> bool {
    forall|i: int, j: int| #![trigger s[i], s[j]] 0 <= i < j < s.len() ==> s[i].id != s[j].id
}

/// True when some record carries this identifier.
pub open spec fn has_bot(s: Seq<BotRec>, id: u128) -> bool {
    exists|i: int| 0 <= i < s.len() && (#[trigger] s[i]).id == id
}

pub open spec fn has_client(s: Seq<ClientRec>, id: u128) -> bool {
    exists|i: int| 0 <= i < s.len() && (#[trigger] s[i]).id == id
}

/// The first record carrying this identifier, if any. Identifiers are
/// unique in a well-formed registry, so the first is the only one.
pub open spec fn lookup_bot(s: Seq<BotRec>, id: u128) -> Option<BotRec>
    decreases s.len(),
{
    if s.len() == 0 {
        Option::None
    } else if s[0].id == id {
        Option::Some(s[0])
    } else {
        lookup_bot(s.drop_first(), id)
    }
}

pub open spec fn lookup_client(s: Seq<ClientRec>, id: u128) -> Option<ClientRec>
    decreases s.len(),
{
    if s.len() == 0 {
        Option::None
    } else if s[0].id == id {
        Option::Some(s[0])
    } else {
        lookup_client(s.drop_first(), id)
    }
}

/// How a bot is described: its name when set, else its address.
pub open spec fn bot_label(r: BotRec) -> Seq<u8> {
    match r.name {
        Option::Some(n) => n,
        Option::None => r.address,
    }
}

/// How a client is described: referees are marked, else as a bot.
pub open spec fn client_label(r: ClientRec) -> Seq<u8> {
    if r.is_referee {
        match r.name {
            Option::Some(n) => n + "[REFEREE]".spec_bytes(),
            Option::None => "REFEREE".spec_bytes(),
        }
    } else {
        match r.name {
            Option::Some(n) => n,
            Option::None => r.address,
        }
    }
}

/// The description of the bot with this identifier, or a placeholder naming
/// the identifier itself.
pub open spec fn spec_bot_info(s: Seq<BotRec>, id: u128) -> Seq<u8> {
    match lookup_bot(s, id) {
        Option::Some(r) => bot_label(r),
        Option::None => "unknown bot ".spec_bytes() + ulid_text(id),
    }
}

pub open spec fn spec_client_info(s: Seq<ClientRec>, id: u128) -> Seq<u8> {
    match lookup_client(s, id) {
        Option::Some(r) => client_label(r),
        Option::None => "unknown client ".spec_bytes() + ulid_text(id),
    }
}

/// The filter that survives removing the identifiers in `dead`.
pub open spec fn bot_survives(dead: Seq<u128>) -> spec_fn(BotRec) -> bool {
    |r: BotRec| !dead.contains(r.id)
}

pub open spec fn bot_dropped(dead: Seq<u128>) -> spec_fn(BotRec) -> bool {
    |r: BotRec| dead.contains(r.id)
}

pub open spec fn client_survives(dead: Seq<u128>) -> spec_fn(ClientRec) -> bool {
    |c: ClientRec| !dead.contains(c.id)
}

pub open spec fn client_dropped(dead: Seq<u128>) -> spec_fn(ClientRec) -> bool {
    |c: ClientRec| dead.contains(c.id)
}

/// The stdout lines that removing the identifiers in `dead` from the bot
/// side produces at time `ts`: one removal line per dropped record, in
/// registry order.
pub open spec fn bot_drop_lines(s: Seq<BotRec>, dead: Seq<u128>, ts: Seq<u8>) -> Seq<Seq<u8>> {
    s.filter(bot_dropped(dead)).map_values(|r: BotRec| bot_removed_line(ts, bot_label(r)))
}

pub open spec fn client_drop_lines(s: Seq<ClientRec>, dead: Seq<u128>, ts: Seq<u8>) -> Seq<
    Seq<u8>,
> {
    s.filter(client_dropped(dead)).map_values(
        |r: ClientRec| client_removed_line(ts, client_label(r)),
    )
}

/// The first record with this identifier, as the first match of `lookup_bot`.
pub proof fn lemma_lookup_bot_at(s: Seq<BotRec>, id: u128, i: int)
    requires
        0 <= i < s.len(),
        s[i].id == id,
        forall|j: int| 0 <= j < i ==> (#[trigger] s[j]).id != id,
    ensures
        lookup_bot(s, id) == Option::Some(s[i]),
    decreases i,
{
    if i > 0 {
        lemma_lookup_bot_at(s.drop_first(), id, i - 1);
    }
}

pub proof fn lemma_lookup_client_at(s: Seq<ClientRec>, id: u128, i: int)
    requires
        0 <= i < s.len(),
        s[i].id == id,
        forall|j: int| 0 <= j < i ==> (#[trigger] s[j]).id != id,
    ensures
        lookup_client(s, id) == Option::Some(s[i]),
    decreases i,
{
    if i > 0 {
        lemma_lookup_client_at(s.drop_first(), id, i - 1);
    }
}

/// An absent identifier makes the lookup fail.
pub proof fn lemma_lookup_bot_absent(s: Seq<BotRec>, id: u128)
    requires
        forall|j: int| 0 <= j < s.len() ==> (#[trigger] s[j]).id != id,
    ensures
        lookup_bot(s, id) is None,
    decreases s.len(),
{
    if s.len() > 0 {
        lemma_lookup_bot_absent(s.drop_first(), id);
    }
}

pub proof fn lemma_lookup_client_absent(s: Seq<ClientRec>, id: u128)
    requires
        forall|j: int| 0 <= j < s.len() ==> (#[trigger] s[j]).id != id,
    ensures
        lookup_client(s, id) is None,
    decreases s.len(),
{
    if s.len() > 0 {
        lemma_lookup_client_absent(s.drop_first(), id);
    }
}

/// Filtering keeps identifiers unique, and introduces none.
proof fn lemma_filter_unique_bot_ids(s: Seq<BotRec>, p: spec_fn(BotRec) -> bool)
    requires
        unique_bot_ids(s),
    ensures
        unique_bot_ids(s.filter(p)),
        forall|x: u128| has_bot(s.filter(p), x) ==> has_bot(s, x),
    decreases s.len(),
{
    broadcast use Seq::lemma_filter_push;

    if s.len() > 0 {
        let rest = s.drop_last();
        let last = s.last();
        assert(rest.push(last) =~= s);
        assert forall|i: int, j: int| #![trigger rest[i], rest[j]]
            0 <= i < j < rest.len() implies rest[i].id != rest[j].id by {
            assert(rest[i] == s[i]);
            assert(rest[j] == s[j]);
        }
        lemma_filter_unique_bot_ids(rest, p);
        let f = rest.filter(p);
        assert(s.filter(p) == rest.push(last).filter(p));
        if p(last) {
            assert(!has_bot(f, last.id)) by {
                if has_bot(f, last.id) {
                    assert(has_bot(rest, last.id));
                    let k = choose|k: int| 0 <= k < rest.len() && (#[trigger] rest[k]).id == last.id;
                    assert(s[k] == rest[k]);
                    assert(s[s.len() - 1] == last);
                }
            }
            assert forall|i: int, j: int| #![trigger f.push(last)[i], f.push(last)[j]]
                0 <= i < j < f.push(last).len() implies f.push(last)[i].id != f.push(
                last,
            )[j].id by {
                if j == f.len() {
                    assert(f.push(last)[i] == f[i]);
                }
            }
            assert forall|x: u128| has_bot(f.push(last), x) implies has_bot(s, x) by {
                let k = choose|k: int|
                    0 <= k < f.push(last).len() && (#[trigger] f.push(last)[k]).id == x;
                if k < f.len() {
                    assert(f[k] == f.push(last)[k]);
                    assert(has_bot(rest, x));
                    let m = choose|m: int| 0 <= m < rest.len() && (#[trigger] rest[m]).id == x;
                    assert(s[m] == rest[m]);
                } else {
                    assert(s[s.len() - 1] == last);
                }
            }
        } else {
            assert forall|x: u128| has_bot(f, x) implies has_bot(s, x) by {
                assert(has_bot(rest, x));
                let m = choose|m: int| 0 <= m < rest.len() && (#[trigger] rest[m]).id == x;
                assert(s[m] == rest[m]);
            }
        }
    }
}

proof fn lemma_filter_unique_client_ids(s: Seq<ClientRec>, p: spec_fn(ClientRec) -> bool)
    requires
        unique_client_ids(s),
    ensures
        unique_client_ids(s.filter(p)),
        forall|x: u128| has_client(s.filter(p), x) ==> has_client(s, x),
    decreases s.len(),
{
    broadcast use Seq::lemma_filter_push;

    if s.len() > 0 {
        let rest = s.drop_last();
        let last = s.last();
        assert(rest.push(last) =~= s);
        assert forall|i: int, j: int| #![trigger rest[i], rest[j]]
            0 <= i < j < rest.len() implies rest[i].id != rest[j].id by {
            assert(rest[i] == s[i]);
            assert(rest[j] == s[j]);
        }
        lemma_filter_unique_client_ids(rest, p);
        let f = rest.filter(p);
        assert(s.filter(p) == rest.push(last).filter(p));
        if p(last) {
            assert(!has_client(f, last.id)) by {
                if has_client(f, last.id) {
                    assert(has_client(rest, last.id));
                    let k = choose|k: int| 0 <= k < rest.len() && (#[trigger] rest[k]).id == last.id;
                    assert(s[k] == rest[k]);
                    assert(s[s.len() - 1] == last);
                }
            }
            assert forall|i: int, j: int| #![trigger f.push(last)[i], f.push(last)[j]]
                0 <= i < j < f.push(last).len() implies f.push(last)[i].id != f.push(
                last,
            )[j].id by {
                if j == f.len() {
                    assert(f.push(last)[i] == f[i]);
                }
            }
            assert forall|x: u128| has_client(f.push(last), x) implies has_client(s, x) by {
                let k = choose|k: int|
                    0 <= k < f.push(last).len() && (#[trigger] f.push(last)[k]).id == x;
                if k < f.len() {
                    assert(f[k] == f.push(last)[k]);
                    assert(has_client(rest, x));
                    let m = choose|m: int| 0 <= m < rest.len() && (#[trigger] rest[m]).id == x;
                    assert(s[m] == rest[m]);
                } else {
                    assert(s[s.len() - 1] == last);
                }
            }
        } else {
            assert forall|x: u128| has_client(f, x) implies has_client(s, x) by {
                assert(has_client(rest, x));
                let m = choose|m: int| 0 <= m < rest.len() && (#[trigger] rest[m]).id == x;
                assert(s[m] == rest[m]);
            }
        }
    }
}

/// True when `id` occurs in `ids`.
pub fn id_in(ids: &Vec<u128>, id: u128) -> (r: bool)
    ensures
        r == ids@.contains(id),
{
    let n: usize = ids.len();
    let mut i: usize = 0;
    while i < n
        invariant
            n == ids@.len(),
            i <= n,
            forall|j: int| 0 <= j < i ==> ids@[j] != id,
        decreases n - i,
    {
        if ids[i] == id {
            return true;
        }
        i += 1;
    }
    false
}

fn clone_bot(r: &BrokerBot) -> (c: BrokerBot)
    ensures
        c@ == r@,
{
    BrokerBot {
        id: r.id,
        name: match &r.name {
            Option::Some(n) => Option::Some(vstd::slice::slice_to_vec(n.as_slice())),
            Option::None => Option::None,
        },
        address: vstd::slice::slice_to_vec(r.address.as_slice()),
    }
}

fn clone_client(r: &BrokerClient) -> (c: BrokerClient)
    ensures
        c@ == r@,
{
    BrokerClient {
        id: r.id,
        name: match &r.name {
            Option::Some(n) => Option::Some(vstd::slice::slice_to_vec(n.as_slice())),
            Option::None => Option::None,
        },
        is_referee: r.is_referee,
        address: vstd::slice::slice_to_vec(r.address.as_slice()),
    }
}

impl Broker {
    /// A well-formed registry keys each side by unique identifiers.
    pub open spec fn wf(self) -> bool {
        unique_bot_ids(self@.bots) && unique_client_ids(self@.clients)
    }

    /// An empty registry.
    pub fn new() -> (r: Broker)
        ensures
            r.wf(),
            r@.bots.len() == 0,
            r@.clients.len() == 0,
    {
        Broker { bots: Vec::new(), clients: Vec::new() }
    }

    /// Insert a bot record with no name. The identifier is fresh by
    /// construction, so joining never fails.
    pub fn bot_join(&mut self, id: u128, address: Vec<u8>)
        requires
            old(self).wf(),
            !has_bot(old(self)@.bots, id),
        ensures
            final(self).wf(),
            final(self)@.bots == old(self)@.bots.push(
                BotRec { id, name: Option::None, address: address@ },
            ),
            final(self)@.clients == old(self)@.clients,
            has_bot(final(self)@.bots, id),
    {
        let ghost rec = BotRec { id, name: Option::None, address: address@ };
        let ghost prior = self@.bots;
        self.bots.push(BrokerBot { id, name: Option::None, address });
        proof {
            assert(self@.bots =~= prior.push(rec));
            assert(self@.bots[prior.len() as int].id == id);
            assert forall|i: int, j: int| #![trigger self@.bots[i], self@.bots[j]]
                0 <= i < j < self@.bots.len() implies self@.bots[i].id != self@.bots[j].id by {
                if j == prior.len() {
                    assert(!has_bot(prior, id));
                    assert(prior[i] == self@.bots[i]);
                }
            }
        }
    }

    /// Insert a client record with no name and no referee status.
    pub fn join(&mut self, id: u128, address: Vec<u8>)
        requires
            old(self).wf(),
            !has_client(old(self)@.clients, id),
        ensures
            final(self).wf(),
            final(self)@.clients == old(self)@.clients.push(
                ClientRec { id, name: Option::None, is_referee: false, address: address@ },
            ),
            final(self)@.bots == old(self)@.bots,
            has_client(final(self)@.clients, id),
    {
        let ghost rec = ClientRec { id, name: Option::None, is_referee: false, address: address@ };
        let ghost prior = self@.clients;
        self.clients.push(BrokerClient { id, name: Option::None, is_referee: false, address });
        proof {
            assert(self@.clients =~= prior.push(rec));
            assert(self@.clients[prior.len() as int].id == id);
            assert forall|i: int, j: int| #![trigger self@.clients[i], self@.clients[j]]
                0 <= i < j < self@.clients.len() implies self@.clients[i].id
                != self@.clients[j].id by {
                if j == prior.len() {
                    assert(!has_client(prior, id));
                    assert(prior[i] == self@.clients[i]);
                }
            }
        }
    }

    /// The index of the first bot record with this identifier.
    pub(crate) fn find_bot(&self, id: u128) -> (r: Option<usize>)
        ensures
            match r {
                Option::Some(i) => i < self@.bots.len() && self@.bots[i as int].id == id && (
                forall|j: int| 0 <= j < i ==> (#[trigger] self@.bots[j]).id != id),
                Option::None => !has_bot(self@.bots, id),
            },
    {
        let n: usize = self.bots.len();
        let mut i: usize = 0;
        while i < n
            invariant
                n == self.bots@.len(),
                n == self@.bots.len(),
                i <= n,
                forall|j: int| 0 <= j < i ==> (#[trigger] self@.bots[j]).id != id,
            decreases n - i,
        {
            if self.bots[i].id == id {
                return Option::Some(i);
            }
            i += 1;
        }
        Option::None
    }

    /// The index of the first client record with this identifier.
    pub(crate) fn find_client(&self, id: u128) -> (r: Option<usize>)
        ensures
            match r {
                Option::Some(i) => i < self@.clients.len() && self@.clients[i as int].id == id && (
                forall|j: int| 0 <= j < i ==> (#[trigger] self@.clients[j]).id != id),
                Option::None => !has_client(self@.clients, id),
            },
    {
        let n: usize = self.clients.len();
        let mut i: usize = 0;
        while i < n
            invariant
                n == self.clients@.len(),
                n == self@.clients.len(),
                i <= n,
                forall|j: int| 0 <= j < i ==> (#[trigger] self@.clients[j]).id != id,
            decreases n - i,
        {
            if self.clients[i].id == id {
                return Option::Some(i);
            }
            i += 1;
        }
        Option::None
    }

    /// The description of the bot with this identifier.
    pub fn bot_info(&self, id: u128) -> (r: Vec<u8>)
        ensures
            r@ == spec_bot_info(self@.bots, id),
    {
        match self.find_bot(id) {
            Option::Some(i) => {
                proof {
                    lemma_lookup_bot_at(self@.bots, id, i as int);
                }
                let r = &self.bots[i];
                match &r.name {
                    Option::Some(n) => vstd::slice::slice_to_vec(n.as_slice()),
                    Option::None => vstd::slice::slice_to_vec(r.address.as_slice()),
                }
            },
            Option::None => {
                proof {
                    lemma_lookup_bot_absent(self@.bots, id);
                }
                let mut v = crate::bytes::bytes_of("unknown bot ");
                let text = ulid_string(id);
                append_bytes(&mut v, text.as_slice());
                v
            },
        }
    }

    /// The description of the client with this identifier.
    pub fn client_info(&self, id: u128) -> (r: Vec<u8>)
        ensures
            r@ == spec_client_info(self@.clients, id),
    {
        match self.find_client(id) {
            Option::Some(i) => {
                proof {
                    lemma_lookup_client_at(self@.clients, id, i as int);
                }
                let r = &self.clients[i];
                if r.is_referee {
                    match &r.name {
                        Option::Some(n) => {
                            let mut v = vstd::slice::slice_to_vec(n.as_slice());
                            append_bytes(&mut v, "[REFEREE]".as_bytes());
                            v
                        },
                        Option::None => crate::bytes::bytes_of("REFEREE"),
                    }
                } else {
                    match &r.name {
                        Option::Some(n) => vstd::slice::slice_to_vec(n.as_slice()),
                        Option::None => vstd::slice::slice_to_vec(r.address.as_slice()),
                    }
                }
            },
            Option::None => {
                proof {
                    lemma_lookup_client_absent(self@.clients, id);
                }
                let mut v = crate::bytes::bytes_of("unknown client ");
                let text = ulid_string(id);
                append_bytes(&mut v, text.as_slice());
                v
            },
        }
    }

    /// Remove every bot whose identifier is in `dead`, returning one stdout
    /// line per removed record, in registry order. Afterwards none of the
    /// dead identifiers is registered.
    pub fn remove_bots(&mut self, dead: &Vec<u128>, now: &[u8]) -> (lines: Vec<Vec<u8>>)
        requires
            old(self).wf(),
        ensures
            final(self).wf(),
            final(self)@.bots == old(self)@.bots.filter(bot_survives(dead@)),
            final(self)@.clients == old(self)@.clients,
            lines.deep_view() == bot_drop_lines(old(self)@.bots, dead@, now@),
            forall|id: u128| dead@.contains(id) ==> !has_bot(final(self)@.bots, id),
    {
        broadcast use Seq::lemma_filter_push;

        let ghost s = self@.bots;
        let mut kept: Vec<BrokerBot> = Vec::new();
        let mut lines: Vec<Vec<u8>> = Vec::new();
        let n: usize = self.bots.len();
        let mut i: usize = 0;
        while i < n
            invariant
                n == self.bots@.len(),
                s == self@.bots,
                i <= n,
                bots_view(kept@) == s.take(i as int).filter(bot_survives(dead@)),
                lines.deep_view() == bot_drop_lines(s.take(i as int), dead@, now@),
            decreases n - i,
        {
            let ghost t = s.take(i as int);
            let ghost e = s[i as int];
            proof {
                assert(s.take(i + 1) =~= t.push(e));
                assert(e == self.bots@[i as int]@);
                t.lemma_filter_push(e, bot_survives(dead@));
                t.lemma_filter_push(e, bot_dropped(dead@));
            }
            let r = &self.bots[i];
            if id_in(dead, r.id) {
                let line = match &r.name {
                    Option::Some(nm) => bot_removed_line_bytes(now, nm.as_slice()),
                    Option::None => bot_removed_line_bytes(now, r.address.as_slice()),
                };
                proof {
                    assert(line@ == bot_removed_line(now@, bot_label(e)));
                }
                let ghost pre = lines.deep_view();
                let ghost lv = line@;
                lines.push(line);
                proof {
                    assert(lines.deep_view().len() == pre.len() + 1);
                    assert(forall|k: int| 0 <= k < pre.len() ==> lines.deep_view()[k] == #[trigger] pre[k]);
                    assert(lines.deep_view()[pre.len() as int] =~= lv);
                    assert(lines.deep_view() =~= pre.push(lines.deep_view()[pre.len() as int]));
                    assert(s.take(i + 1).filter(bot_dropped(dead@)) == t.filter(bot_dropped(dead@)).push(e));
                    assert(bot_drop_lines(s.take(i + 1), dead@, now@) =~= pre.push(lv));
                    assert(lines.deep_view() =~~= bot_drop_lines(s.take(i + 1), dead@, now@));
                    assert(bots_view(kept@) == s.take(i + 1).filter(bot_survives(dead@)));
                }
            } else {
                kept.push(clone_bot(r));
                proof {
                    assert(bots_view(kept@) =~= s.take(i + 1).filter(bot_survives(dead@)));
                    assert(lines.deep_view() =~~= bot_drop_lines(s.take(i + 1), dead@, now@));
                }
            }
            i += 1;
        }
        proof {
            assert(s.take(n as int) =~= s);
            lemma_filter_unique_bot_ids(s, bot_survives(dead@));
        }
        self.bots = kept;
        proof {
            assert forall|id: u128| dead@.contains(id) implies !has_bot(
                self@.bots,
                id,
            ) by {
                if has_bot(self@.bots, id) {
                    let i = choose|i: int|
                        0 <= i < self@.bots.len() && (#[trigger] self@.bots[i]).id == id;
                    assert(bot_survives(dead@)(self@.bots[i]));
                }
            }
        }
        lines
    }

    /// Remove every client whose identifier is in `dead`, returning one
    /// stdout line per removed record, in registry order.
    pub fn remove_clients(&mut self, dead: &Vec<u128>, now: &[u8]) -> (lines: Vec<Vec<u8>>)
        requires
            old(self).wf(),
        ensures
            final(self).wf(),
            final(self)@.clients == old(self)@.clients.filter(client_survives(dead@)),
            final(self)@.bots == old(self)@.bots,
            lines.deep_view() == client_drop_lines(old(self)@.clients, dead@, now@),
            forall|id: u128| dead@.contains(id) ==> !has_client(final(self)@.clients, id),
    {
        broadcast use Seq::lemma_filter_push;

        let ghost s = self@.clients;
        let mut kept: Vec<BrokerClient> = Vec::new();
        let mut lines: Vec<Vec<u8>> = Vec::new();
        let n: usize = self.clients.len();
        let mut i: usize = 0;
        while i < n
            invariant
                n == self.clients@.len(),
                s == self@.clients,
                i <= n,
                clients_view(kept@) == s.take(i as int).filter(client_survives(dead@)),
                lines.deep_view() == client_drop_lines(s.take(i as int), dead@, now@),
            decreases n - i,
        {
            let ghost t = s.take(i as int);
            let ghost e = s[i as int];
            proof {
                assert(s.take(i + 1) =~= t.push(e));
                assert(e == self.clients@[i as int]@);
                t.lemma_filter_push(e, client_survives(dead@));
                t.lemma_filter_push(e, client_dropped(dead@));
            }
            let r = &self.clients[i];
            if id_in(dead, r.id) {
                let label: Vec<u8> = if r.is_referee {
                    match &r.name {
                        Option::Some(nm) => {
                            let mut v = vstd::slice::slice_to_vec(nm.as_slice());
                            append_bytes(&mut v, "[REFEREE]".as_bytes());
                            v
                        },
                        Option::None => crate::bytes::bytes_of("REFEREE"),
                    }
                } else {
                    match &r.name {
                        Option::Some(nm) => vstd::slice::slice_to_vec(nm.as_slice()),
                        Option::None => vstd::slice::slice_to_vec(r.address.as_slice()),
                    }
                };
                proof {
                    assert(label@ =~= client_label(e));
                }
                let line = client_removed_line_bytes(now, label.as_slice());
                let ghost pre = lines.deep_view();
                let ghost lv = line@;
                lines.push(line);
                proof {
                    assert(lines.deep_view().len() == pre.len() + 1);
                    assert(forall|k: int| 0 <= k < pre.len() ==> lines.deep_view()[k] == #[trigger] pre[k]);
                    assert(lines.deep_view()[pre.len() as int] =~= lv);
                    assert(lines.deep_view() =~= pre.push(lines.deep_view()[pre.len() as int]));
                    assert(s.take(i + 1).filter(client_dropped(dead@)) == t.filter(client_dropped(dead@)).push(e));
                    assert(client_drop_lines(s.take(i + 1), dead@, now@) =~= pre.push(lv));
                    assert(lines.deep_view() =~~= client_drop_lines(s.take(i + 1), dead@, now@));
                    assert(clients_view(kept@) == s.take(i + 1).filter(client_survives(dead@)));
                }
            } else {
                kept.push(clone_client(r));
                proof {
                    assert(clients_view(kept@) =~= s.take(i + 1).filter(client_survives(dead@)));
                    assert(lines.deep_view() =~~= client_drop_lines(s.take(i + 1), dead@, now@));
                }
            }
            i += 1;
        }
        proof {
            assert(s.take(n as int) =~= s);
            lemma_filter_unique_client_ids(s, client_survives(dead@));
        }
        self.clients = kept;
        proof {
            assert forall|id: u128| dead@.contains(id) implies !has_client(
                self@.clients,
                id,
            ) by {
                if has_client(self@.clients, id) {
                    let i = choose|i: int|
                        0 <= i < self@.clients.len() && (#[trigger] self@.clients[i]).id == id;
                    assert(client_survives(dead@)(self@.clients[i]));
                }
            }
        }
        lines
    }

    /// Drop a bot whose join or claim reply could not be delivered: its
    /// reader is gone, so the record is unreachable. Returns the stdout
    /// line, described with the record as it stood before removal.
    pub fn reply_lost_bot(&mut self, id: u128, now: &[u8]) -> (line: Vec<u8>)
        requires
            old(self).wf(),
        ensures
            final(self).wf(),
            final(self)@.bots == old(self)@.bots.filter(bot_survives(seq![id])),
            final(self)@.clients == old(self)@.clients,
            line@ == removing_bot_line(now@, spec_bot_info(old(self)@.bots, id)),
    {
        let info = self.bot_info(id);
        let line = removing_bot_line_bytes(now, info.as_slice());
        let mut dead: Vec<u128> = Vec::new();
        dead.push(id);
        let _ = self.remove_bots(&dead, now);
        proof {
            assert(dead@ =~= seq![id]);
        }
        line
    }

    /// Drop a client whose reply could not be delivered.
    pub fn reply_lost_client(&mut self, id: u128, now: &[u8]) -> (line: Vec<u8>)
        requires
            old(self).wf(),
        ensures
            final(self).wf(),
            final(self)@.clients == old(self)@.clients.filter(client_survives(seq![id])),
            final(self)@.bots == old(self)@.bots,
            line@ == removing_client_line(now@, spec_client_info(old(self)@.clients, id)),
    {
        let info = self.client_info(id);
        let line = removing_client_line_bytes(now, info.as_slice());
        let mut dead: Vec<u128> = Vec::new();
        dead.push(id);
        let _ = self.remove_clients(&dead, now);
        proof {
            assert(dead@ =~= seq![id]);
        }
        line
    }

    /// A bot's reader saw end of file: remove the record. The stdout lines
    /// are stamped with the current local time.
    pub fn bot_leave(&mut self, id: u128) -> (lines: Vec<Vec<u8>>)
        requires
            old(self).wf(),
        ensures
            final(self).wf(),
            final(self)@.bots == old(self)@.bots.filter(bot_survives(seq![id])),
            final(self)@.clients == old(self)@.clients,
            exists|ts: Seq<u8>|
                lines.deep_view() == #[trigger] bot_drop_lines(old(self)@.bots, seq![id], ts),
    {
        let now = crate::clock::local_time_text();
        let mut dead: Vec<u128> = Vec::new();
        dead.push(id);
        let lines = self.remove_bots(&dead, now.as_slice());
        proof {
            assert(dead@ =~= seq![id]);
            assert(lines.deep_view() =~~= bot_drop_lines(old(self)@.bots, seq![id], now@));
        }
        lines
    }

    /// A client's reader saw end of file: remove the record.
    pub fn leave(&mut self, id: u128) -> (lines: Vec<Vec<u8>>)
        requires
            old(self).wf(),
        ensures
            final(self).wf(),
            final(self)@.clients == old(self)@.clients.filter(client_survives(seq![id])),
            final(self)@.bots == old(self)@.bots,
            exists|ts: Seq<u8>|
                lines.deep_view() == #[trigger] client_drop_lines(old(self)@.clients, seq![id], ts),
    {
        let now = crate::clock::local_time_text();
        let mut dead: Vec<u128> = Vec::new();
        dead.push(id);
        let lines = self.remove_clients(&dead, now.as_slice());
        proof {
            assert(dead@ =~= seq![id]);
            assert(lines.deep_view() =~~= client_drop_lines(old(self)@.clients, seq![id], now@));
        }
        lines
    }
}

} // verus!
