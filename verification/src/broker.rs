//! The broker's per-action routing rules.
//!
//! Each function here is the decision part of one broker action: it mutates
//! the registry and returns the stdout lines and the socket writes the
//! action calls for. The caller performs the writes and feeds failures back
//! into the removal functions of the registry; a function that depends on
//! write outcomes takes them as an argument and is verified for every
//! outcome.

use vstd::prelude::*;
use crate::codec::{PrivateCommand, RefereeCommand};
use crate::lines::{
    bot_claim_alone_line, bot_claim_alone_line_bytes, bot_claim_client_line,
    bot_claim_client_line_bytes, client_claim_alone_line, client_claim_alone_line_bytes,
    client_claim_bot_line, client_claim_bot_line_bytes, connected_line, connected_line_bytes,
    discard_line, discard_line_bytes, invalid_name_message, invalid_name_message_bytes,
    not_connected_line, not_connected_line_bytes, referee_claim_line, referee_claim_line_bytes,
    report_line, report_line_bytes, unreachable_line, unreachable_line_bytes, warning_bots_line,
    warning_bots_line_bytes, warning_clients_line, warning_clients_line_bytes,
};
use crate::names::name_ok;
use crate::registry::{
    bots_view, clients_view, has_bot, has_client, lemma_lookup_bot_at, lemma_lookup_client_at,
    lookup_bot, lookup_client, spec_bot_info, spec_client_info, unique_bot_ids, unique_client_ids,
    BotRec, BrokerBot, Broker, ClientRec, BrokerClient,
};

verus! {

/// One socket write the caller must perform: `payload` to the peer `id`.
pub struct WriteOp {
    pub id: u128,
    pub payload: Vec<u8>,
}

/// The mathematical image of a planned write.
pub struct WriteV {
    pub id: u128,
    pub payload: Seq<u8>,
}

impl View for WriteOp {
    type V = WriteV;

    open spec fn view(&self) -> WriteV {
        WriteV { id: self.id, payload: self.payload@ }
    }
}

pub open spec fn writes_view(w: Seq<WriteOp>) -> Seq<WriteV> {
    w.map_values(|x: WriteOp| x@)
}

/// The write that delivers `payload` to a given peer.
pub open spec fn sends_to(payload: Seq<u8>) -> spec_fn(u128) -> WriteV {
    |id: u128| WriteV { id, payload }
}

/// One heartbeat byte `0x00` to every bot, in registry order.
pub open spec fn ping_bot_plan(s: Seq<BotRec>) -> Seq<WriteV> {
    s.map_values(|r: BotRec| WriteV { id: r.id, payload: seq![0u8] })
}

/// One heartbeat line feed to every client, in registry order.
pub open spec fn ping_client_plan(s: Seq<ClientRec>) -> Seq<WriteV> {
    s.map_values(|c: ClientRec| WriteV { id: c.id, payload: seq![10u8] })
}

/// Every message written to every listed peer, message-major: all writes of
/// the first message, then of the second, and so on.
pub open spec fn cross_writes(msgs: Seq<Seq<u8>>, ids: Seq<u128>) -> Seq<WriteV>
    decreases msgs.len(),
{
    if msgs.len() == 0 {
        Seq::empty()
    } else {
        cross_writes(msgs.drop_last(), ids) + ids.map_values(sends_to(msgs.last()))
    }
}

/// Law: a fanout performs one write per message and listed peer.
pub proof fn lemma_cross_writes_len(msgs: Seq<Seq<u8>>, ids: Seq<u128>)
    ensures
        cross_writes(msgs, ids).len() == msgs.len() * ids.len(),
    decreases msgs.len(),
{
    if msgs.len() > 0 {
        lemma_cross_writes_len(msgs.drop_last(), ids);
        assert((msgs.len() - 1) * ids.len() + ids.len() == msgs.len() * ids.len()) by (
        nonlinear_arith);
    }
}

/// The identifiers of all clients, in registry order.
pub open spec fn client_ids(s: Seq<ClientRec>) -> Seq<u128> {
    s.map_values(|c: ClientRec| c.id)
}

impl Broker {
    /// The heartbeat writes that precede a bot-side claim: `0x00` to every
    /// bot. A write failure marks the bot dead; the caller removes the
    /// failed targets before going on.
    pub fn ping_bot_writes(&self) -> (w: Vec<WriteOp>)
        ensures
            writes_view(w@) == ping_bot_plan(self@.bots),
    {
        let ghost s = self@.bots;
        let mut w: Vec<WriteOp> = Vec::new();
        let n: usize = self.bots.len();
        let mut i: usize = 0;
        while i < n
            invariant
                n == self.bots@.len(),
                s == self@.bots,
                i <= n,
                writes_view(w@) == ping_bot_plan(s.take(i as int)),
            decreases n - i,
        {
            let mut payload: Vec<u8> = Vec::new();
            payload.push(0u8);
            proof {
                assert(payload@ =~= seq![0u8]);
            }
            let ghost pre = writes_view(w@);
            w.push(WriteOp { id: self.bots[i].id, payload });
            proof {
                assert(s.take(i + 1) =~= s.take(i as int).push(s[i as int]));
                assert(s[i as int] == self.bots@[i as int]@);
                assert(writes_view(w@).len() == pre.len() + 1);
                assert(forall|k: int| 0 <= k < pre.len() ==> #[trigger] writes_view(w@)[k] == pre[k]);
                assert(writes_view(w@)[pre.len() as int] == (WriteV {
                    id: s[i as int].id,
                    payload: seq![0u8],
                }));
                assert(writes_view(w@) =~= ping_bot_plan(s.take(i + 1)));
            }
            i += 1;
        }
        proof {
            assert(s.take(n as int) =~= s);
        }
        w
    }

    /// The heartbeat writes that precede a client-side claim: one line feed
    /// to every client.
    pub fn ping_client_writes(&self) -> (w: Vec<WriteOp>)
        ensures
            writes_view(w@) == ping_client_plan(self@.clients),
    {
        let ghost s = self@.clients;
        let mut w: Vec<WriteOp> = Vec::new();
        let n: usize = self.clients.len();
        let mut i: usize = 0;
        while i < n
            invariant
                n == self.clients@.len(),
                s == self@.clients,
                i <= n,
                writes_view(w@) == ping_client_plan(s.take(i as int)),
            decreases n - i,
        {
            let mut payload: Vec<u8> = Vec::new();
            payload.push(10u8);
            proof {
                assert(payload@ =~= seq![10u8]);
            }
            let ghost pre = writes_view(w@);
            w.push(WriteOp { id: self.clients[i].id, payload });
            proof {
                assert(s.take(i + 1) =~= s.take(i as int).push(s[i as int]));
                assert(s[i as int] == self.clients@[i as int]@);
                assert(writes_view(w@).len() == pre.len() + 1);
                assert(forall|k: int| 0 <= k < pre.len() ==> #[trigger] writes_view(w@)[k] == pre[k]);
                assert(writes_view(w@)[pre.len() as int] == (WriteV {
                    id: s[i as int].id,
                    payload: seq![10u8],
                }));
                assert(writes_view(w@) =~= ping_client_plan(s.take(i + 1)));
            }
            i += 1;
        }
        proof {
            assert(s.take(n as int) =~= s);
        }
        w
    }
}

/// The identifiers of the writes that failed: `ok[i]` reports the outcome
/// of `writes[i]`.
pub open spec fn spec_failed_ids(w: Seq<WriteV>, ok: Seq<bool>) -> Seq<u128>
    decreases w.len(),
{
    if w.len() == 0 {
        Seq::empty()
    } else {
        spec_failed_ids(w.drop_last(), ok.drop_last()) + if ok.last() {
            Seq::empty()
        } else {
            seq![w.last().id]
        }
    }
}

/// Collect the targets of the writes that failed, in write order.
pub fn failed_ids(writes: &Vec<WriteOp>, ok: &Vec<bool>) -> (r: Vec<u128>)
    requires
        writes@.len() == ok@.len(),
    ensures
        r@ == spec_failed_ids(writes_view(writes@), ok@),
{
    let ghost wv = writes_view(writes@);
    let mut r: Vec<u128> = Vec::new();
    let n: usize = writes.len();
    let mut i: usize = 0;
    while i < n
        invariant
            n == writes@.len(),
            n == ok@.len(),
            wv == writes_view(writes@),
            i <= n,
            r@ == spec_failed_ids(wv.take(i as int), ok@.take(i as int)),
        decreases n - i,
    {
        if !ok[i] {
            r.push(writes[i].id);
        }
        proof {
            assert(wv.take(i + 1).drop_last() =~= wv.take(i as int));
            assert(ok@.take(i + 1).drop_last() =~= ok@.take(i as int));
            assert(wv.take(i + 1).last() == writes@[i as int]@);
            assert(ok@.take(i + 1).last() == ok@[i as int]);
            assert(r@ =~= spec_failed_ids(wv.take(i + 1), ok@.take(i + 1)));
        }
        i += 1;
    }
    proof {
        assert(wv.take(n as int) =~= wv);
        assert(ok@.take(n as int) =~= ok@);
    }
    r
}

/// Write every message to every listed peer, message-major.
pub fn cross_to_ids(msgs: &Vec<Vec<u8>>, ids: &Vec<u128>) -> (w: Vec<WriteOp>)
    ensures
        writes_view(w@) == cross_writes(msgs.deep_view(), ids@),
{
    let ghost md = msgs.deep_view();
    let mut w: Vec<WriteOp> = Vec::new();
    let nm: usize = msgs.len();
    let nc: usize = ids.len();
    let mut k: usize = 0;
    while k < nm
        invariant
            nm == msgs@.len(),
            nc == ids@.len(),
            md == msgs.deep_view(),
            k <= nm,
            writes_view(w@) == cross_writes(md.take(k as int), ids@),
        decreases nm - k,
    {
        let mut j: usize = 0;
        while j < nc
            invariant
                nm == msgs@.len(),
                nc == ids@.len(),
                md == msgs.deep_view(),
                k < nm,
                j <= nc,
                writes_view(w@) == cross_writes(md.take(k as int), ids@) + ids@.take(
                    j as int,
                ).map_values(sends_to(md[k as int])),
            decreases nc - j,
        {
            let payload = vstd::slice::slice_to_vec(msgs[k].as_slice());
            proof {
                assert(md[k as int] == msgs@[k as int].deep_view());
                assert(payload@ =~= md[k as int]);
            }
            let ghost pre = writes_view(w@);
            w.push(WriteOp { id: ids[j], payload });
            proof {
                assert(ids@.take(j + 1) =~= ids@.take(j as int).push(ids@[j as int]));
                assert(writes_view(w@).len() == pre.len() + 1);
                assert(forall|k2: int| 0 <= k2 < pre.len() ==> #[trigger] writes_view(w@)[k2] == pre[k2]);
                assert(writes_view(w@)[pre.len() as int] == sends_to(md[k as int])(ids@[j as int]));
                assert(writes_view(w@) =~= cross_writes(md.take(k as int), ids@) + ids@.take(
                    j + 1,
                ).map_values(sends_to(md[k as int])));
            }
            j += 1;
        }
        proof {
            assert(ids@.take(nc as int) =~= ids@);
            assert(md.take(k + 1).drop_last() =~= md.take(k as int));
            assert(md.take(k + 1).last() == md[k as int]);
            assert(writes_view(w@) == cross_writes(md.take(k + 1), ids@));
        }
        k += 1;
    }
    proof {
        assert(md.take(nm as int) =~= md);
    }
    w
}


/// The byte image of an optional name.
pub open spec fn opt_bytes(o: Option<Vec<u8>>) -> Option<Seq<u8>> {
    match o {
        Option::Some(n) => Option::Some(n@),
        Option::None => Option::None,
    }
}

/// True of the bots that carry exactly this name.
pub open spec fn bot_named(name: Seq<u8>) -> spec_fn(BotRec) -> bool {
    |r: BotRec| r.name == Option::Some(name)
}

/// True of the clients that carry exactly this name.
pub open spec fn client_named(name: Seq<u8>) -> spec_fn(ClientRec) -> bool {
    |c: ClientRec| c.name == Option::Some(name)
}

/// The bots named `name`, in registry order.
pub open spec fn bots_named(s: Seq<BotRec>, name: Seq<u8>) -> Seq<BotRec> {
    s.filter(bot_named(name))
}

/// The clients named `name`, in registry order.
pub open spec fn clients_named(s: Seq<ClientRec>, name: Seq<u8>) -> Seq<ClientRec> {
    s.filter(client_named(name))
}

fn opt_name_is(name: &Option<Vec<u8>>, target: &[u8]) -> (r: bool)
    ensures
        r == (opt_bytes(*name) == Option::<Seq<u8>>::Some(target@)),
{
    match name {
        Option::Some(n) => crate::bytes::bytes_eq(n.as_slice(), target),
        Option::None => false,
    }
}

/// The record after the bot `id` claims `name`; other records are untouched.
pub open spec fn with_bot_name(id: u128, name: Seq<u8>) -> spec_fn(BotRec) -> BotRec {
    |r: BotRec|
        if r.id == id {
            BotRec { id: r.id, name: Option::Some(name), address: r.address }
        } else {
            r
        }
}

/// The bot side after `id` claims `name`.
pub open spec fn rename_bot(s: Seq<BotRec>, id: u128, name: Seq<u8>) -> Seq<BotRec> {
    s.map_values(with_bot_name(id, name))
}

/// The record after the client `id` claims `name`; the referee bit stays.
pub open spec fn with_client_name(id: u128, name: Seq<u8>) -> spec_fn(ClientRec) -> ClientRec {
    |c: ClientRec|
        if c.id == id {
            ClientRec {
                id: c.id,
                name: Option::Some(name),
                is_referee: c.is_referee,
                address: c.address,
            }
        } else {
            c
        }
}

/// The client side after `id` claims `name`.
pub open spec fn rename_client(s: Seq<ClientRec>, id: u128, name: Seq<u8>) -> Seq<ClientRec> {
    s.map_values(with_client_name(id, name))
}

/// Law: a name claim only rewrites the claimant's name. It adds no record,
/// drops none, and never moves an identifier, so a claim, valid or not,
/// never costs a peer its connection.
pub proof fn lemma_rename_bot_ids(s: Seq<BotRec>, id: u128, name: Seq<u8>)
    ensures
        rename_bot(s, id, name).len() == s.len(),
        forall|j: int| 0 <= j < s.len() ==> (#[trigger] rename_bot(s, id, name)[j]).id == s[j].id,
        forall|x: u128| has_bot(rename_bot(s, id, name), x) <==> has_bot(s, x),
        unique_bot_ids(s) ==> unique_bot_ids(rename_bot(s, id, name)),
{
    let t = rename_bot(s, id, name);
    assert forall|x: u128| has_bot(t, x) implies has_bot(s, x) by {
        let i = choose|i: int| 0 <= i < t.len() && (#[trigger] t[i]).id == x;
        assert((#[trigger] s[i]).id == x);
    }
    assert forall|x: u128| has_bot(s, x) implies has_bot(t, x) by {
        let i = choose|i: int| 0 <= i < s.len() && (#[trigger] s[i]).id == x;
        assert((#[trigger] t[i]).id == x);
    }
    if unique_bot_ids(s) {
        assert forall|i: int, j: int| #![trigger t[i], t[j]] 0 <= i < j < t.len() implies t[i].id
            != t[j].id by {
            assert(s[i].id != s[j].id);
        }
    }
}

/// Law: the client-side form of the same statement.
pub proof fn lemma_rename_client_ids(s: Seq<ClientRec>, id: u128, name: Seq<u8>)
    ensures
        rename_client(s, id, name).len() == s.len(),
        forall|j: int|
            0 <= j < s.len() ==> (#[trigger] rename_client(s, id, name)[j]).id == s[j].id,
        forall|x: u128| has_client(rename_client(s, id, name), x) <==> has_client(s, x),
        unique_client_ids(s) ==> unique_client_ids(rename_client(s, id, name)),
        forall|j: int|
            0 <= j < s.len() ==> (#[trigger] rename_client(s, id, name)[j]).is_referee
                == s[j].is_referee,
{
    let t = rename_client(s, id, name);
    assert forall|x: u128| has_client(t, x) implies has_client(s, x) by {
        let i = choose|i: int| 0 <= i < t.len() && (#[trigger] t[i]).id == x;
        assert((#[trigger] s[i]).id == x);
    }
    assert forall|x: u128| has_client(s, x) implies has_client(t, x) by {
        let i = choose|i: int| 0 <= i < s.len() && (#[trigger] s[i]).id == x;
        assert((#[trigger] t[i]).id == x);
    }
    if unique_client_ids(s) {
        assert forall|i: int, j: int| #![trigger t[i], t[j]] 0 <= i < j < t.len() implies t[i].id
            != t[j].id by {
            assert(s[i].id != s[j].id);
        }
    }
}

/// The address of a registered bot, or empty when none carries `id`.
pub open spec fn bot_addr_of(s: Seq<BotRec>, id: u128) -> Seq<u8> {
    match lookup_bot(s, id) {
        Option::Some(r) => r.address,
        Option::None => Seq::empty(),
    }
}

/// The address of a registered client, or empty when none carries `id`.
pub open spec fn client_addr_of(s: Seq<ClientRec>, id: u128) -> Seq<u8> {
    match lookup_client(s, id) {
        Option::Some(c) => c.address,
        Option::None => Seq::empty(),
    }
}

/// What a join or claim action reports back to the reader that sent it,
/// with the stdout lines and peer writes it produced.
pub struct ClaimEffect {
    pub reply: Result<(), Vec<u8>>,
    pub stdout: Vec<Vec<u8>>,
    pub writes: Vec<WriteOp>,
}

/// One stdout line per client matching a bot's fresh name.
pub open spec fn bot_claim_match_lines(
    now: Seq<u8>,
    baddr: Seq<u8>,
    name: Seq<u8>,
    m: Seq<ClientRec>,
) -> Seq<Seq<u8>> {
    m.map_values(|c: ClientRec| bot_claim_client_line(now, baddr, name, c.address))
}

/// What a valid bot claim prints: one line per matching client, or a single
/// line noting that no client matched.
pub open spec fn bot_claim_stdout(
    now: Seq<u8>,
    baddr: Seq<u8>,
    name: Seq<u8>,
    m: Seq<ClientRec>,
) -> Seq<Seq<u8>> {
    if m.len() == 0 {
        seq![bot_claim_alone_line(now, baddr, name)]
    } else {
        bot_claim_match_lines(now, baddr, name, m)
    }
}

/// What a valid bot claim writes: the connection notice to every matching
/// client.
pub open spec fn bot_claim_writes(now: Seq<u8>, baddr: Seq<u8>, m: Seq<ClientRec>) -> Seq<WriteV> {
    m.map_values(|c: ClientRec| WriteV { id: c.id, payload: connected_line(now, baddr) })
}

impl Broker {
    /// A bot claims a name. An invalid name is rejected in the reply and
    /// changes nothing; the connection is never dropped. A valid claim sets
    /// the name on the record and notifies every client with that name.
    pub fn bot_name_claim(&mut self, id: u128, name: &[u8], now: &[u8]) -> (eff: ClaimEffect)
        requires
            old(self).wf(),
        ensures
            final(self).wf(),
            final(self)@.clients == old(self)@.clients,
            name_ok(name@) == (eff.reply is Ok),
            eff.reply matches Err(m) ==> m@ == invalid_name_message(name@),
            !name_ok(name@) || !has_bot(old(self)@.bots, id) ==> final(self)@.bots == old(
                self,
            )@.bots && eff.stdout@.len() == 0 && eff.writes@.len() == 0,
            name_ok(name@) && has_bot(old(self)@.bots, id) ==> final(self)@.bots == rename_bot(
                old(self)@.bots,
                id,
                name@,
            ) && eff.stdout.deep_view() == bot_claim_stdout(
                now@,
                bot_addr_of(old(self)@.bots, id),
                name@,
                clients_named(old(self)@.clients, name@),
            ) && writes_view(eff.writes@) == bot_claim_writes(
                now@,
                bot_addr_of(old(self)@.bots, id),
                clients_named(old(self)@.clients, name@),
            ),
            forall|x: u128| has_bot(final(self)@.bots, x) <==> has_bot(old(self)@.bots, x),
    {
        broadcast use Seq::lemma_filter_push;

        let valid = crate::names::valid_name_bytes(name);
        if !valid {
            return ClaimEffect {
                reply: Result::Err(invalid_name_message_bytes(name)),
                stdout: Vec::new(),
                writes: Vec::new(),
            };
        }
        let bi = match self.find_bot(id) {
            Option::Some(i) => i,
            Option::None => {
                return ClaimEffect {
                    reply: Result::Ok(()),
                    stdout: Vec::new(),
                    writes: Vec::new(),
                };
            },
        };
        let ghost ob = self@.bots;
        proof {
            lemma_lookup_bot_at(ob, id, bi as int);
        }
        let baddr = vstd::slice::slice_to_vec(self.bots[bi].address.as_slice());
        let newrec = BrokerBot {
            id,
            name: Option::Some(vstd::slice::slice_to_vec(name)),
            address: vstd::slice::slice_to_vec(baddr.as_slice()),
        };
        self.bots.set(bi, newrec);
        proof {
            assert forall|j: int| 0 <= j < ob.len() implies #[trigger] self@.bots[j]
                == rename_bot(ob, id, name@)[j] by {
                if j != bi {
                    assert(ob[j] == bots_view(old(self).bots@)[j]);
                }
            }
            assert(self@.bots =~= rename_bot(ob, id, name@));
            lemma_rename_bot_ids(ob, id, name@);
        }
        let conn = connected_line_bytes(now, baddr.as_slice());
        let mut stdout: Vec<Vec<u8>> = Vec::new();
        let mut writes: Vec<WriteOp> = Vec::new();
        let ghost cs = self@.clients;
        let n: usize = self.clients.len();
        let mut i: usize = 0;
        while i < n
            invariant
                n == self.clients@.len(),
                cs == self@.clients,
                i <= n,
                baddr@ == bot_addr_of(ob, id),
                conn@ == connected_line(now@, baddr@),
                stdout.deep_view() == bot_claim_match_lines(
                    now@,
                    baddr@,
                    name@,
                    clients_named(cs.take(i as int), name@),
                ),
                writes_view(writes@) == bot_claim_writes(
                    now@,
                    baddr@,
                    clients_named(cs.take(i as int), name@),
                ),
            decreases n - i,
        {
            let ghost t = cs.take(i as int);
            let ghost e = cs[i as int];
            proof {
                assert(cs.take(i + 1) =~= t.push(e));
                assert(e == self.clients@[i as int]@);
                t.lemma_filter_push(e, client_named(name@));
            }
            if opt_name_is(&self.clients[i].name, name) {
                proof {
                    assert(client_named(name@)(e));
                }
                let line = bot_claim_client_line_bytes(
                    now,
                    baddr.as_slice(),
                    name,
                    self.clients[i].address.as_slice(),
                );
                let ghost pres = stdout.deep_view();
                stdout.push(line);
                let ghost prew = writes_view(writes@);
                writes.push(
                    WriteOp { id: self.clients[i].id, payload: vstd::slice::slice_to_vec(
                        conn.as_slice(),
                    ) },
                );
                proof {
                    assert(stdout.deep_view().len() == pres.len() + 1);
                    assert(forall|k: int|
                        0 <= k < pres.len() ==> #[trigger] stdout.deep_view()[k] == pres[k]);
                    assert(stdout.deep_view()[pres.len() as int] =~= bot_claim_client_line(
                        now@,
                        baddr@,
                        name@,
                        e.address,
                    ));
                    assert(stdout.deep_view() =~= bot_claim_match_lines(
                        now@,
                        baddr@,
                        name@,
                        clients_named(cs.take(i + 1), name@),
                    ));
                    assert(writes_view(writes@).len() == prew.len() + 1);
                    assert(forall|k: int|
                        0 <= k < prew.len() ==> #[trigger] writes_view(writes@)[k] == prew[k]);
                    assert(writes_view(writes@)[prew.len() as int] == (WriteV {
                        id: e.id,
                        payload: connected_line(now@, baddr@),
                    }));
                    assert(writes_view(writes@) =~= bot_claim_writes(
                        now@,
                        baddr@,
                        clients_named(cs.take(i + 1), name@),
                    ));
                }
            } else {
                proof {
                    assert(!client_named(name@)(e));
                    assert(stdout.deep_view() =~= bot_claim_match_lines(
                        now@,
                        baddr@,
                        name@,
                        clients_named(cs.take(i + 1), name@),
                    ));
                    assert(writes_view(writes@) =~= bot_claim_writes(
                        now@,
                        baddr@,
                        clients_named(cs.take(i + 1), name@),
                    ));
                }
            }
            i += 1;
        }
        proof {
            assert(cs.take(n as int) =~= cs);
        }
        if stdout.len() == 0 {
            let alone = bot_claim_alone_line_bytes(now, baddr.as_slice(), name);
            stdout.push(alone);
            proof {
                assert(clients_named(cs, name@).len() == 0);
                assert(stdout.deep_view() =~~= seq![
                    bot_claim_alone_line(now@, baddr@, name@),
                ]);
            }
        } else {
            proof {
                assert(clients_named(cs, name@).len() > 0);
            }
        }
        ClaimEffect { reply: Result::Ok(()), stdout, writes }
    }
}


/// One stdout line per bot matching a client's fresh name.
pub open spec fn client_claim_match_lines(
    now: Seq<u8>,
    caddr: Seq<u8>,
    name: Seq<u8>,
    m: Seq<BotRec>,
) -> Seq<Seq<u8>> {
    m.map_values(|b: BotRec| client_claim_bot_line(now, caddr, name, b.address))
}

/// What a valid client claim prints: one line per matching bot, or a single
/// line noting that no bot matched.
pub open spec fn client_claim_stdout(
    now: Seq<u8>,
    caddr: Seq<u8>,
    name: Seq<u8>,
    m: Seq<BotRec>,
) -> Seq<Seq<u8>> {
    if m.len() == 0 {
        seq![client_claim_alone_line(now, caddr, name)]
    } else {
        client_claim_match_lines(now, caddr, name, m)
    }
}

impl Broker {
    /// A client claims a name. An invalid name is rejected in the reply and
    /// changes nothing; the connection is never dropped. A valid claim sets
    /// the name, prints one line per bot with that name (or a no-bot line),
    /// and writes each such line to every client with that name, the
    /// claimant included.
    pub fn name_claim(&mut self, id: u128, name: &[u8], now: &[u8]) -> (eff: ClaimEffect)
        requires
            old(self).wf(),
        ensures
            final(self).wf(),
            final(self)@.bots == old(self)@.bots,
            name_ok(name@) == (eff.reply is Ok),
            eff.reply matches Err(m) ==> m@ == invalid_name_message(name@),
            !name_ok(name@) || !has_client(old(self)@.clients, id) ==> final(self)@.clients == old(
                self,
            )@.clients && eff.stdout@.len() == 0 && eff.writes@.len() == 0,
            name_ok(name@) && has_client(old(self)@.clients, id) ==> final(self)@.clients
                == rename_client(old(self)@.clients, id, name@) && eff.stdout.deep_view()
                == client_claim_stdout(
                now@,
                client_addr_of(old(self)@.clients, id),
                name@,
                bots_named(old(self)@.bots, name@),
            ) && writes_view(eff.writes@) == cross_writes(
                client_claim_stdout(
                    now@,
                    client_addr_of(old(self)@.clients, id),
                    name@,
                    bots_named(old(self)@.bots, name@),
                ),
                client_ids(clients_named(rename_client(old(self)@.clients, id, name@), name@)),
            ),
            forall|x: u128| has_client(final(self)@.clients, x) <==> has_client(old(self)@.clients, x),
    {
        broadcast use Seq::lemma_filter_push;

        let valid = crate::names::valid_name_bytes(name);
        if !valid {
            return ClaimEffect {
                reply: Result::Err(invalid_name_message_bytes(name)),
                stdout: Vec::new(),
                writes: Vec::new(),
            };
        }
        let ci = match self.find_client(id) {
            Option::Some(i) => i,
            Option::None => {
                return ClaimEffect {
                    reply: Result::Ok(()),
                    stdout: Vec::new(),
                    writes: Vec::new(),
                };
            },
        };
        let ghost oc = self@.clients;
        proof {
            lemma_lookup_client_at(oc, id, ci as int);
        }
        let caddr = vstd::slice::slice_to_vec(self.clients[ci].address.as_slice());
        let was_referee = self.clients[ci].is_referee;
        let newrec = BrokerClient {
            id,
            name: Option::Some(vstd::slice::slice_to_vec(name)),
            is_referee: was_referee,
            address: vstd::slice::slice_to_vec(caddr.as_slice()),
        };
        self.clients.set(ci, newrec);
        proof {
            assert forall|j: int| 0 <= j < oc.len() implies #[trigger] self@.clients[j]
                == rename_client(oc, id, name@)[j] by {
                if j != ci {
                    assert(oc[j] == clients_view(old(self).clients@)[j]);
                }
            }
            assert(self@.clients =~= rename_client(oc, id, name@));
            lemma_rename_client_ids(oc, id, name@);
        }
        // one message per bot sharing the name, else a single no-bot line
        let ghost bs = self@.bots;
        let mut msgs: Vec<Vec<u8>> = Vec::new();
        let nb: usize = self.bots.len();
        let mut i: usize = 0;
        while i < nb
            invariant
                nb == self.bots@.len(),
                bs == self@.bots,
                i <= nb,
                caddr@ == client_addr_of(oc, id),
                msgs.deep_view() == client_claim_match_lines(
                    now@,
                    caddr@,
                    name@,
                    bots_named(bs.take(i as int), name@),
                ),
            decreases nb - i,
        {
            let ghost t = bs.take(i as int);
            let ghost e = bs[i as int];
            proof {
                assert(bs.take(i + 1) =~= t.push(e));
                assert(e == self.bots@[i as int]@);
                t.lemma_filter_push(e, bot_named(name@));
            }
            if opt_name_is(&self.bots[i].name, name) {
                proof {
                    assert(bot_named(name@)(e));
                }
                let line = client_claim_bot_line_bytes(
                    now,
                    caddr.as_slice(),
                    name,
                    self.bots[i].address.as_slice(),
                );
                let ghost pres = msgs.deep_view();
                msgs.push(line);
                proof {
                    assert(msgs.deep_view().len() == pres.len() + 1);
                    assert(forall|k: int|
                        0 <= k < pres.len() ==> #[trigger] msgs.deep_view()[k] == pres[k]);
                    assert(msgs.deep_view()[pres.len() as int] =~= client_claim_bot_line(
                        now@,
                        caddr@,
                        name@,
                        e.address,
                    ));
                    assert(msgs.deep_view() =~= client_claim_match_lines(
                        now@,
                        caddr@,
                        name@,
                        bots_named(bs.take(i + 1), name@),
                    ));
                }
            } else {
                proof {
                    assert(!bot_named(name@)(e));
                    assert(msgs.deep_view() =~= client_claim_match_lines(
                        now@,
                        caddr@,
                        name@,
                        bots_named(bs.take(i + 1), name@),
                    ));
                }
            }
            i += 1;
        }
        proof {
            assert(bs.take(nb as int) =~= bs);
        }
        if msgs.len() == 0 {
            let alone = client_claim_alone_line_bytes(now, caddr.as_slice(), name);
            msgs.push(alone);
            proof {
                assert(bots_named(bs, name@).len() == 0);
                assert(msgs.deep_view() =~~= seq![client_claim_alone_line(now@, caddr@, name@)]);
            }
        } else {
            proof {
                assert(bots_named(bs, name@).len() > 0);
            }
        }
        proof {
            assert(msgs.deep_view() == client_claim_stdout(
                now@,
                caddr@,
                name@,
                bots_named(bs, name@),
            ));
        }
        // the matching clients, in the renamed registry
        let ghost cs = self@.clients;
        let mut mids: Vec<u128> = Vec::new();
        let nc: usize = self.clients.len();
        let mut j: usize = 0;
        while j < nc
            invariant
                nc == self.clients@.len(),
                cs == self@.clients,
                j <= nc,
                mids@ == client_ids(clients_named(cs.take(j as int), name@)),
            decreases nc - j,
        {
            let ghost t = cs.take(j as int);
            let ghost e = cs[j as int];
            proof {
                assert(cs.take(j + 1) =~= t.push(e));
                assert(e == self.clients@[j as int]@);
                t.lemma_filter_push(e, client_named(name@));
            }
            if opt_name_is(&self.clients[j].name, name) {
                mids.push(self.clients[j].id);
                proof {
                    assert(client_named(name@)(e));
                    assert(mids@ =~= client_ids(clients_named(cs.take(j + 1), name@)));
                }
            } else {
                proof {
                    assert(!client_named(name@)(e));
                    assert(mids@ =~= client_ids(clients_named(cs.take(j + 1), name@)));
                }
            }
            j += 1;
        }
        proof {
            assert(cs.take(nc as int) =~= cs);
        }
        let writes = cross_to_ids(&msgs, &mids);
        ClaimEffect { reply: Result::Ok(()), stdout: msgs, writes }
    }
}


/// The record after the client `id` claims referee status.
pub open spec fn make_referee(id: u128) -> spec_fn(ClientRec) -> ClientRec {
    |c: ClientRec|
        if c.id == id {
            ClientRec { id: c.id, name: c.name, is_referee: true, address: c.address }
        } else {
            c
        }
}

/// The client side after `id` claims referee status.
pub open spec fn set_referee(s: Seq<ClientRec>, id: u128) -> Seq<ClientRec> {
    s.map_values(make_referee(id))
}

/// Law: a referee claim only raises the claimant's referee bit. No record
/// moves, and the bit is monotonic: once a referee, always a referee.
pub proof fn lemma_set_referee_ids(s: Seq<ClientRec>, id: u128)
    ensures
        set_referee(s, id).len() == s.len(),
        forall|j: int| 0 <= j < s.len() ==> (#[trigger] set_referee(s, id)[j]).id == s[j].id,
        forall|x: u128| has_client(set_referee(s, id), x) <==> has_client(s, x),
        unique_client_ids(s) ==> unique_client_ids(set_referee(s, id)),
        forall|j: int|
            0 <= j < s.len() ==> s[j].is_referee ==> (#[trigger] set_referee(s, id)[j]).is_referee,
{
    let t = set_referee(s, id);
    assert forall|x: u128| has_client(t, x) implies has_client(s, x) by {
        let i = choose|i: int| 0 <= i < t.len() && (#[trigger] t[i]).id == x;
        assert((#[trigger] s[i]).id == x);
    }
    assert forall|x: u128| has_client(s, x) implies has_client(t, x) by {
        let i = choose|i: int| 0 <= i < s.len() && (#[trigger] s[i]).id == x;
        assert((#[trigger] t[i]).id == x);
    }
    if unique_client_ids(s) {
        assert forall|i: int, j: int| #![trigger t[i], t[j]] 0 <= i < j < t.len() implies t[i].id
            != t[j].id by {
            assert(s[i].id != s[j].id);
        }
    }
}

/// What a referee claim prints and writes back to the claimant.
pub struct RefereeClaimEffect {
    pub stdout: Vec<Vec<u8>>,
    pub writes: Vec<WriteOp>,
}

impl Broker {
    /// A client claims referee status: the bit is set, the claim is logged,
    /// and the same line is written back to that client alone. The claim
    /// always succeeds.
    pub fn referee_claim(&mut self, id: u128, now: &[u8]) -> (eff: RefereeClaimEffect)
        requires
            old(self).wf(),
        ensures
            final(self).wf(),
            final(self)@.bots == old(self)@.bots,
            final(self)@.clients == set_referee(old(self)@.clients, id),
            has_client(old(self)@.clients, id) ==> eff.stdout.deep_view() == seq![
                referee_claim_line(now@, client_addr_of(old(self)@.clients, id)),
            ] && writes_view(eff.writes@) == seq![
                WriteV {
                    id,
                    payload: referee_claim_line(now@, client_addr_of(old(self)@.clients, id)),
                },
            ],
            !has_client(old(self)@.clients, id) ==> eff.stdout@.len() == 0 && eff.writes@.len()
                == 0,
            forall|j: int|
                0 <= j < old(self)@.clients.len() ==> old(self)@.clients[j].is_referee ==> (
                #[trigger] final(self)@.clients[j]).is_referee,
    {
        let ghost oc = self@.clients;
        proof {
            lemma_set_referee_ids(oc, id);
        }
        let ci = match self.find_client(id) {
            Option::Some(i) => i,
            Option::None => {
                proof {
                    assert forall|j: int| 0 <= j < oc.len() implies #[trigger] self@.clients[j]
                        == set_referee(oc, id)[j] by {
                        assert(oc[j].id != id);
                    }
                    assert(self@.clients =~= set_referee(oc, id));
                }
                return RefereeClaimEffect { stdout: Vec::new(), writes: Vec::new() };
            },
        };
        proof {
            lemma_lookup_client_at(oc, id, ci as int);
        }
        let caddr = vstd::slice::slice_to_vec(self.clients[ci].address.as_slice());
        let newrec = BrokerClient {
            id,
            name: match &self.clients[ci].name {
                Option::Some(n) => Option::Some(vstd::slice::slice_to_vec(n.as_slice())),
                Option::None => Option::None,
            },
            is_referee: true,
            address: vstd::slice::slice_to_vec(caddr.as_slice()),
        };
        self.clients.set(ci, newrec);
        proof {
            assert forall|j: int| 0 <= j < oc.len() implies #[trigger] self@.clients[j]
                == set_referee(oc, id)[j] by {
                if j != ci {
                    assert(oc[j] == clients_view(old(self).clients@)[j]);
                }
            }
            assert(self@.clients =~= set_referee(oc, id));
        }
        let line = referee_claim_line_bytes(now, caddr.as_slice());
        let mut stdout: Vec<Vec<u8>> = Vec::new();
        stdout.push(line);
        let payload = referee_claim_line_bytes(now, caddr.as_slice());
        let mut writes: Vec<WriteOp> = Vec::new();
        writes.push(WriteOp { id, payload });
        proof {
            assert(stdout.deep_view() =~~= seq![referee_claim_line(now@, client_addr_of(oc, id))]);
            assert(writes_view(writes@) =~= seq![
                WriteV { id, payload: referee_claim_line(now@, client_addr_of(oc, id)) },
            ]);
        }
        RefereeClaimEffect { stdout, writes }
    }
}

/// The claimant's name, when a client with this identifier is registered
/// and named.
pub open spec fn client_name_of(s: Seq<ClientRec>, id: u128) -> Option<Seq<u8>> {
    match lookup_client(s, id) {
        Option::Some(c) => c.name,
        Option::None => Option::None,
    }
}

/// The two wire bytes of a private command: the command byte and a line
/// feed.
pub open spec fn private_payload(byte: u8) -> Seq<u8> {
    seq![byte, 10u8]
}

/// The writes of a private command issued under `name`: its two bytes to
/// every bot with that name, and to no other bot.
pub open spec fn private_writes(bots: Seq<BotRec>, name: Seq<u8>, byte: u8) -> Seq<WriteV> {
    bots_named(bots, name).map_values(|b: BotRec| WriteV { id: b.id, payload: private_payload(byte) })
}

/// The write phase of a private command: either the bot writes to perform,
/// or the stdout line discarding the command of an unnamed client.
pub struct PrivatePlan {
    pub name: Option<Vec<u8>>,
    pub writes: Vec<WriteOp>,
    pub stdout: Vec<Vec<u8>>,
}

impl Broker {
    /// Plan a private command. A client without a name (or one no longer
    /// registered) produces no write at all, only a discard line; a named
    /// client's command goes to exactly the bots sharing the name.
    pub fn private_command_targets(&self, id: u128, command: &PrivateCommand, now: &[u8]) -> (p:
        PrivatePlan)
        ensures
            match client_name_of(self@.clients, id) {
                Option::Some(nm) => p.name matches Some(n) && n@ == nm && writes_view(p.writes@)
                    == private_writes(self@.bots, nm, command.spec_byte()) && p.stdout@.len() == 0,
                Option::None => p.name is None && p.writes@.len() == 0 && p.stdout.deep_view()
                    == seq![
                    discard_line(now@, command.spec_display(), spec_client_info(self@.clients, id)),
                ],
            },
    {
        broadcast use Seq::lemma_filter_push;

        let named: Option<Vec<u8>> = match self.find_client(id) {
            Option::Some(ci) => {
                proof {
                    lemma_lookup_client_at(self@.clients, id, ci as int);
                }
                match &self.clients[ci].name {
                    Option::Some(n) => Option::Some(vstd::slice::slice_to_vec(n.as_slice())),
                    Option::None => Option::None,
                }
            },
            Option::None => {
                proof {
                    crate::registry::lemma_lookup_client_absent(self@.clients, id);
                }
                Option::None
            },
        };
        let name = match named {
            Option::Some(n) => n,
            Option::None => {
                let info = self.client_info(id);
                let body = command.display_bytes();
                let line = discard_line_bytes(now, body.as_slice(), info.as_slice());
                let mut stdout: Vec<Vec<u8>> = Vec::new();
                stdout.push(line);
                proof {
                    assert(stdout.deep_view() =~~= seq![
                        discard_line(
                            now@,
                            command.spec_display(),
                            spec_client_info(self@.clients, id),
                        ),
                    ]);
                }
                return PrivatePlan { name: Option::None, writes: Vec::new(), stdout };
            },
        };
        let ghost nm = client_name_of(self@.clients, id)->Some_0;
        proof {
            assert(name@ == nm);
        }
        let byte = command.encode();
        let ghost bs = self@.bots;
        let mut writes: Vec<WriteOp> = Vec::new();
        let nb: usize = self.bots.len();
        let mut i: usize = 0;
        while i < nb
            invariant
                nb == self.bots@.len(),
                bs == self@.bots,
                i <= nb,
                name@ == nm,
                byte == command.spec_byte(),
                writes_view(writes@) == private_writes(bs.take(i as int), nm, byte),
            decreases nb - i,
        {
            let ghost t = bs.take(i as int);
            let ghost e = bs[i as int];
            proof {
                assert(bs.take(i + 1) =~= t.push(e));
                assert(e == self.bots@[i as int]@);
                t.lemma_filter_push(e, bot_named(nm));
            }
            if opt_name_is(&self.bots[i].name, name.as_slice()) {
                let mut payload: Vec<u8> = Vec::new();
                payload.push(byte);
                payload.push(10u8);
                proof {
                    assert(payload@ =~= private_payload(byte));
                }
                let ghost prew = writes_view(writes@);
                writes.push(WriteOp { id: self.bots[i].id, payload });
                proof {
                    assert(bot_named(nm)(e));
                    assert(writes_view(writes@).len() == prew.len() + 1);
                    assert(forall|k: int|
                        0 <= k < prew.len() ==> #[trigger] writes_view(writes@)[k] == prew[k]);
                    assert(writes_view(writes@)[prew.len() as int] == (WriteV {
                        id: e.id,
                        payload: private_payload(byte),
                    }));
                    assert(writes_view(writes@) =~= private_writes(bs.take(i + 1), nm, byte));
                }
            } else {
                proof {
                    assert(!bot_named(nm)(e));
                    assert(writes_view(writes@) =~= private_writes(bs.take(i + 1), nm, byte));
                }
            }
            i += 1;
        }
        proof {
            assert(bs.take(nb as int) =~= bs);
        }
        PrivatePlan { name: Option::Some(name), writes, stdout: Vec::new() }
    }
}

/// The display lines of a private command, one per attempted bot write in
/// write order, or a single no-bot line: `delivered[i]` reports whether the
/// i-th planned write succeeded.
pub open spec fn private_report_lines(
    time: Seq<u8>,
    name: Seq<u8>,
    body: Seq<u8>,
    delivered: Seq<bool>,
) -> Seq<Seq<u8>> {
    if delivered.len() == 0 {
        seq![not_connected_line(time, name, body)]
    } else {
        Seq::new(
            delivered.len(),
            |i: int|
                if delivered[i] {
                    report_line(time, name, body)
                } else {
                    unreachable_line(time, name, body)
                },
        )
    }
}

/// Render the display lines of a private command from the write outcomes.
pub fn private_command_report(
    name: &[u8],
    command: &PrivateCommand,
    time: &[u8],
    delivered: &Vec<bool>,
) -> (msgs: Vec<Vec<u8>>)
    ensures
        msgs.deep_view() == private_report_lines(
            time@,
            name@,
            command.spec_display(),
            delivered@,
        ),
{
    let body = command.display_bytes();
    if delivered.len() == 0 {
        let mut msgs: Vec<Vec<u8>> = Vec::new();
        msgs.push(not_connected_line_bytes(time, name, body.as_slice()));
        proof {
            assert(msgs.deep_view() =~~= private_report_lines(
                time@,
                name@,
                command.spec_display(),
                delivered@,
            ));
        }
        msgs
    } else {
        let mut msgs: Vec<Vec<u8>> = Vec::new();
        let n: usize = delivered.len();
        let mut i: usize = 0;
        while i < n
            invariant
                n == delivered@.len(),
                n > 0,
                body@ == command.spec_display(),
                i <= n,
                msgs@.len() == i,
                forall|k: int|
                    0 <= k < i ==> #[trigger] msgs.deep_view()[k] == (if delivered@[k] {
                        report_line(time@, name@, body@)
                    } else {
                        unreachable_line(time@, name@, body@)
                    }),
            decreases n - i,
        {
            let line = if delivered[i] {
                report_line_bytes(time, name, body.as_slice())
            } else {
                unreachable_line_bytes(time, name, body.as_slice())
            };
            let ghost pres = msgs.deep_view();
            msgs.push(line);
            proof {
                assert(msgs.deep_view().len() == pres.len() + 1);
                assert(forall|k: int|
                    0 <= k < pres.len() ==> #[trigger] msgs.deep_view()[k] == pres[k]);
                assert(msgs.deep_view()[i as int] == line@);
            }
            i += 1;
        }
        proof {
            assert(msgs.deep_view() =~= private_report_lines(
                time@,
                name@,
                command.spec_display(),
                delivered@,
            ));
        }
        msgs
    }
}

/// One payload written to every client, in registry order.
pub open spec fn client_fanout(clients: Seq<ClientRec>, payload: Seq<u8>) -> Seq<WriteV> {
    clients.map_values(|c: ClientRec| WriteV { id: c.id, payload })
}

/// One encoded command byte written to every bot, in registry order.
pub open spec fn broadcast_plan(bots: Seq<BotRec>, byte: u8) -> Seq<WriteV> {
    bots.map_values(|b: BotRec| WriteV { id: b.id, payload: seq![byte] })
}

/// A bot log line fanned out to the clients.
pub struct LogEffect {
    pub line: Vec<u8>,
    pub writes: Vec<WriteOp>,
}

/// A referee broadcast: the display line, the byte to every bot, the line
/// to every client.
pub struct BroadcastEffect {
    pub line: Vec<u8>,
    pub bot_writes: Vec<WriteOp>,
    pub client_writes: Vec<WriteOp>,
}

impl Broker {
    /// All client identifiers, in registry order.
    pub fn all_client_ids(&self) -> (r: Vec<u128>)
        ensures
            r@ == client_ids(self@.clients),
    {
        let ghost cs = self@.clients;
        let mut r: Vec<u128> = Vec::new();
        let n: usize = self.clients.len();
        let mut i: usize = 0;
        while i < n
            invariant
                n == self.clients@.len(),
                cs == self@.clients,
                i <= n,
                r@ == client_ids(cs.take(i as int)),
            decreases n - i,
        {
            r.push(self.clients[i].id);
            proof {
                assert(cs.take(i + 1) =~= cs.take(i as int).push(cs[i as int]));
                assert(cs[i as int] == self.clients@[i as int]@);
                assert(r@ =~= client_ids(cs.take(i + 1)));
            }
            i += 1;
        }
        proof {
            assert(cs.take(n as int) =~= cs);
        }
        r
    }

    /// Write one payload to every client.
    pub fn fanout_clients(&self, payload: &[u8]) -> (w: Vec<WriteOp>)
        ensures
            writes_view(w@) == client_fanout(self@.clients, payload@),
    {
        let ghost cs = self@.clients;
        let mut w: Vec<WriteOp> = Vec::new();
        let n: usize = self.clients.len();
        let mut i: usize = 0;
        while i < n
            invariant
                n == self.clients@.len(),
                cs == self@.clients,
                i <= n,
                writes_view(w@) == client_fanout(cs.take(i as int), payload@),
            decreases n - i,
        {
            let ghost pre = writes_view(w@);
            w.push(WriteOp { id: self.clients[i].id, payload: vstd::slice::slice_to_vec(payload) });
            proof {
                assert(cs.take(i + 1) =~= cs.take(i as int).push(cs[i as int]));
                assert(cs[i as int] == self.clients@[i as int]@);
                assert(writes_view(w@).len() == pre.len() + 1);
                assert(forall|k: int| 0 <= k < pre.len() ==> #[trigger] writes_view(w@)[k] == pre[k]);
                assert(writes_view(w@)[pre.len() as int] == (WriteV {
                    id: cs[i as int].id,
                    payload: payload@,
                }));
                assert(writes_view(w@) =~= client_fanout(cs.take(i + 1), payload@));
            }
            i += 1;
        }
        proof {
            assert(cs.take(n as int) =~= cs);
        }
        w
    }

    /// A bot's log line: formatted with the bot's description, printed, and
    /// written to every client.
    pub fn log(&self, id: u128, time: &[u8], message: &[u8]) -> (eff: LogEffect)
        ensures
            eff.line@ == report_line(time@, spec_bot_info(self@.bots, id), message@),
            writes_view(eff.writes@) == client_fanout(self@.clients, eff.line@),
    {
        let info = self.bot_info(id);
        let line = report_line_bytes(time, info.as_slice(), message);
        let writes = self.fanout_clients(line.as_slice());
        LogEffect { line, writes }
    }

    /// A referee broadcast: one encoded byte to every bot (no line feed),
    /// the display line to every client. The write counts equal the peer
    /// counts at action start.
    pub fn referee_command(&self, id: u128, time: &[u8], command: &RefereeCommand) -> (eff:
        BroadcastEffect)
        ensures
            eff.line@ == report_line(time@, spec_client_info(self@.clients, id), command.spec_display()),
            writes_view(eff.bot_writes@) == broadcast_plan(self@.bots, command.spec_encode()),
            writes_view(eff.client_writes@) == client_fanout(self@.clients, eff.line@),
            eff.bot_writes@.len() == self@.bots.len(),
            eff.client_writes@.len() == self@.clients.len(),
    {
        let info = self.client_info(id);
        let body = command.display_bytes();
        let line = report_line_bytes(time, info.as_slice(), body.as_slice());
        let byte = command.encode();
        let ghost bs = self@.bots;
        let mut bot_writes: Vec<WriteOp> = Vec::new();
        let n: usize = self.bots.len();
        let mut i: usize = 0;
        while i < n
            invariant
                n == self.bots@.len(),
                bs == self@.bots,
                i <= n,
                byte == command.spec_encode(),
                writes_view(bot_writes@) == broadcast_plan(bs.take(i as int), byte),
            decreases n - i,
        {
            let mut payload: Vec<u8> = Vec::new();
            payload.push(byte);
            proof {
                assert(payload@ =~= seq![byte]);
            }
            let ghost pre = writes_view(bot_writes@);
            bot_writes.push(WriteOp { id: self.bots[i].id, payload });
            proof {
                assert(bs.take(i + 1) =~= bs.take(i as int).push(bs[i as int]));
                assert(bs[i as int] == self.bots@[i as int]@);
                assert(writes_view(bot_writes@).len() == pre.len() + 1);
                assert(forall|k: int|
                    0 <= k < pre.len() ==> #[trigger] writes_view(bot_writes@)[k] == pre[k]);
                assert(writes_view(bot_writes@)[pre.len() as int] == (WriteV {
                    id: bs[i as int].id,
                    payload: seq![byte],
                }));
                assert(writes_view(bot_writes@) =~= broadcast_plan(bs.take(i + 1), byte));
            }
            i += 1;
        }
        proof {
            assert(bs.take(n as int) =~= bs);
        }
        let client_writes = self.fanout_clients(line.as_slice());
        proof {
            assert(writes_view(client_writes@).len() == client_writes@.len());
            assert(client_fanout(self@.clients, line@).len() == self@.clients.len());
            assert(writes_view(bot_writes@).len() == bot_writes@.len());
            assert(broadcast_plan(self@.bots, byte).len() == self@.bots.len());
        }
        BroadcastEffect { line, bot_writes, client_writes }
    }
}


/// True when index `i` is the first record carrying its name.
pub open spec fn first_bot_with_name(s: Seq<BotRec>, i: int) -> bool {
    forall|j: int| 0 <= j < i ==> (#[trigger] s[j]).name != s[i].name
}

pub open spec fn first_client_with_name(s: Seq<ClientRec>, i: int) -> bool {
    forall|j: int| 0 <= j < i ==> (#[trigger] s[j]).name != s[i].name
}

/// The name inside an option, where the caller knows one is set.
pub open spec fn the_name(o: Option<Seq<u8>>) -> Seq<u8> {
    match o {
        Option::Some(n) => n,
        Option::None => Seq::empty(),
    }
}

/// The warning emitted while standing on bot `i`: one line when `i` is the
/// first bot of a name that more than one bot carries, nothing otherwise.
pub open spec fn bot_warning_at(s: Seq<BotRec>, now: Seq<u8>, i: int) -> Seq<Seq<u8>> {
    if s[i].name is Some && first_bot_with_name(s, i) && bots_named(s, the_name(s[i].name)).len()
        > 1 {
        seq![
            warning_bots_line(now, bots_named(s, the_name(s[i].name)).len(), the_name(s[i].name)),
        ]
    } else {
        Seq::empty()
    }
}

pub open spec fn client_warning_at(s: Seq<ClientRec>, now: Seq<u8>, i: int) -> Seq<Seq<u8>> {
    if s[i].name is Some && first_client_with_name(s, i) && clients_named(
        s,
        the_name(s[i].name),
    ).len() > 1 {
        seq![
            warning_clients_line(
                now,
                clients_named(s, the_name(s[i].name)).len(),
                the_name(s[i].name),
            ),
        ]
    } else {
        Seq::empty()
    }
}

/// The duplicate-name warnings over the first `n` bots.
pub open spec fn bot_warnings_upto(s: Seq<BotRec>, now: Seq<u8>, n: int) -> Seq<Seq<u8>>
    decreases n,
{
    if n <= 0 {
        Seq::empty()
    } else {
        bot_warnings_upto(s, now, n - 1) + bot_warning_at(s, now, n - 1)
    }
}

pub open spec fn client_warnings_upto(s: Seq<ClientRec>, now: Seq<u8>, n: int) -> Seq<Seq<u8>>
    decreases n,
{
    if n <= 0 {
        Seq::empty()
    } else {
        client_warnings_upto(s, now, n - 1) + client_warning_at(s, now, n - 1)
    }
}

/// One warning per name that more than one bot carries, in order of the
/// name's first appearance.
pub open spec fn bot_warnings(s: Seq<BotRec>, now: Seq<u8>) -> Seq<Seq<u8>> {
    bot_warnings_upto(s, now, s.len() as int)
}

pub open spec fn client_warnings(s: Seq<ClientRec>, now: Seq<u8>) -> Seq<Seq<u8>> {
    client_warnings_upto(s, now, s.len() as int)
}

impl Broker {
    /// Count the bots carrying this name.
    fn count_bots_named(&self, name: &[u8]) -> (cnt: usize)
        ensures
            cnt == bots_named(self@.bots, name@).len(),
    {
        broadcast use Seq::lemma_filter_push;

        let ghost bs = self@.bots;
        let mut cnt: usize = 0;
        let n: usize = self.bots.len();
        let mut i: usize = 0;
        while i < n
            invariant
                n == self.bots@.len(),
                bs == self@.bots,
                i <= n,
                cnt <= i,
                cnt == bots_named(bs.take(i as int), name@).len(),
            decreases n - i,
        {
            let ghost t = bs.take(i as int);
            let ghost e = bs[i as int];
            proof {
                assert(bs.take(i + 1) =~= t.push(e));
                assert(e == self.bots@[i as int]@);
                t.lemma_filter_push(e, bot_named(name@));
                t.lemma_filter_len(bot_named(name@));
            }
            if opt_name_is(&self.bots[i].name, name) {
                proof {
                    assert(bot_named(name@)(e));
                }
                cnt += 1;
            } else {
                proof {
                    assert(!bot_named(name@)(e));
                }
            }
            i += 1;
        }
        proof {
            assert(bs.take(n as int) =~= bs);
        }
        cnt
    }

    fn count_clients_named(&self, name: &[u8]) -> (cnt: usize)
        ensures
            cnt == clients_named(self@.clients, name@).len(),
    {
        broadcast use Seq::lemma_filter_push;

        let ghost cs = self@.clients;
        let mut cnt: usize = 0;
        let n: usize = self.clients.len();
        let mut i: usize = 0;
        while i < n
            invariant
                n == self.clients@.len(),
                cs == self@.clients,
                i <= n,
                cnt <= i,
                cnt == clients_named(cs.take(i as int), name@).len(),
            decreases n - i,
        {
            let ghost t = cs.take(i as int);
            let ghost e = cs[i as int];
            proof {
                assert(cs.take(i + 1) =~= t.push(e));
                assert(e == self.clients@[i as int]@);
                t.lemma_filter_push(e, client_named(name@));
                t.lemma_filter_len(client_named(name@));
            }
            if opt_name_is(&self.clients[i].name, name) {
                proof {
                    assert(client_named(name@)(e));
                }
                cnt += 1;
            } else {
                proof {
                    assert(!client_named(name@)(e));
                }
            }
            i += 1;
        }
        proof {
            assert(cs.take(n as int) =~= cs);
        }
        cnt
    }

    /// The duplicate-name warnings the broker prints after pinging the bot
    /// side: `warning: <n> bots identified as '<name>'` for every name that
    /// more than one bot carries.
    pub fn bot_name_warnings(&self, now: &[u8]) -> (lines: Vec<Vec<u8>>)
        ensures
            lines.deep_view() == bot_warnings(self@.bots, now@),
    {
        let ghost bs = self@.bots;
        let mut lines: Vec<Vec<u8>> = Vec::new();
        let n: usize = self.bots.len();
        let mut i: usize = 0;
        while i < n
            invariant
                n == self.bots@.len(),
                bs == self@.bots,
                i <= n,
                lines.deep_view() == bot_warnings_upto(bs, now@, i as int),
            decreases n - i,
        {
            let ghost e = bs[i as int];
            proof {
                assert(e == self.bots@[i as int]@);
            }
            match &self.bots[i].name {
                Option::Some(nm) => {
                    let mut first = true;
                    let mut j: usize = 0;
                    while j < i
                        invariant
                            n == self.bots@.len(),
                            bs == self@.bots,
                            i < n,
                            j <= i,
                            e == bs[i as int],
                            e.name == Option::Some(nm@),
                            first == (forall|k: int|
                                0 <= k < j ==> (#[trigger] bs[k]).name != e.name),
                        decreases i - j,
                    {
                        if opt_name_is(&self.bots[j].name, nm.as_slice()) {
                            proof {
                                assert(bs[j as int] == self.bots@[j as int]@);
                            }
                            first = false;
                        } else {
                            proof {
                                assert(bs[j as int] == self.bots@[j as int]@);
                            }
                        }
                        j += 1;
                    }
                    if first {
                        let cnt = self.count_bots_named(nm.as_slice());
                        if cnt > 1 {
                            let line = warning_bots_line_bytes(now, cnt, nm.as_slice());
                            let ghost pres = lines.deep_view();
                            lines.push(line);
                            proof {
                                assert(lines.deep_view().len() == pres.len() + 1);
                                assert(forall|k: int|
                                    0 <= k < pres.len() ==> #[trigger] lines.deep_view()[k]
                                        == pres[k]);
                                assert(the_name(e.name) == nm@);
                                assert(lines.deep_view()[pres.len() as int] == warning_bots_line(
                                    now@,
                                    bots_named(bs, nm@).len(),
                                    nm@,
                                ));
                                assert(lines.deep_view() =~= bot_warnings_upto(bs, now@, i + 1));
                            }
                        } else {
                            proof {
                                assert(bot_warning_at(bs, now@, i as int) =~= Seq::<Seq<u8>>::empty());
                                assert(lines.deep_view() =~= bot_warnings_upto(bs, now@, i + 1));
                            }
                        }
                    } else {
                        proof {
                            assert(!first_bot_with_name(bs, i as int));
                            assert(bot_warning_at(bs, now@, i as int) =~= Seq::<Seq<u8>>::empty());
                            assert(lines.deep_view() =~= bot_warnings_upto(bs, now@, i + 1));
                        }
                    }
                },
                Option::None => {
                    proof {
                        assert(e.name is None);
                        assert(bot_warning_at(bs, now@, i as int) =~= Seq::<Seq<u8>>::empty());
                        assert(lines.deep_view() =~= bot_warnings_upto(bs, now@, i + 1));
                    }
                },
            }
            i += 1;
        }
        lines
    }

    /// The duplicate-name warnings for the client side.
    pub fn client_name_warnings(&self, now: &[u8]) -> (lines: Vec<Vec<u8>>)
        ensures
            lines.deep_view() == client_warnings(self@.clients, now@),
    {
        let ghost cs = self@.clients;
        let mut lines: Vec<Vec<u8>> = Vec::new();
        let n: usize = self.clients.len();
        let mut i: usize = 0;
        while i < n
            invariant
                n == self.clients@.len(),
                cs == self@.clients,
                i <= n,
                lines.deep_view() == client_warnings_upto(cs, now@, i as int),
            decreases n - i,
        {
            let ghost e = cs[i as int];
            proof {
                assert(e == self.clients@[i as int]@);
            }
            match &self.clients[i].name {
                Option::Some(nm) => {
                    let mut first = true;
                    let mut j: usize = 0;
                    while j < i
                        invariant
                            n == self.clients@.len(),
                            cs == self@.clients,
                            i < n,
                            j <= i,
                            e == cs[i as int],
                            e.name == Option::Some(nm@),
                            first == (forall|k: int|
                                0 <= k < j ==> (#[trigger] cs[k]).name != e.name),
                        decreases i - j,
                    {
                        if opt_name_is(&self.clients[j].name, nm.as_slice()) {
                            proof {
                                assert(cs[j as int] == self.clients@[j as int]@);
                            }
                            first = false;
                        } else {
                            proof {
                                assert(cs[j as int] == self.clients@[j as int]@);
                            }
                        }
                        j += 1;
                    }
                    if first {
                        let cnt = self.count_clients_named(nm.as_slice());
                        if cnt > 1 {
                            let line = warning_clients_line_bytes(now, cnt, nm.as_slice());
                            let ghost pres = lines.deep_view();
                            lines.push(line);
                            proof {
                                assert(lines.deep_view().len() == pres.len() + 1);
                                assert(forall|k: int|
                                    0 <= k < pres.len() ==> #[trigger] lines.deep_view()[k]
                                        == pres[k]);
                                assert(the_name(e.name) == nm@);
                                assert(lines.deep_view()[pres.len() as int] == warning_clients_line(
                                    now@,
                                    clients_named(cs, nm@).len(),
                                    nm@,
                                ));
                                assert(lines.deep_view() =~= client_warnings_upto(cs, now@, i + 1));
                            }
                        } else {
                            proof {
                                assert(client_warning_at(cs, now@, i as int) =~= Seq::<
                                    Seq<u8>,
                                >::empty());
                                assert(lines.deep_view() =~= client_warnings_upto(cs, now@, i + 1));
                            }
                        }
                    } else {
                        proof {
                            assert(!first_client_with_name(cs, i as int));
                            assert(client_warning_at(cs, now@, i as int) =~= Seq::<
                                Seq<u8>,
                            >::empty());
                            assert(lines.deep_view() =~= client_warnings_upto(cs, now@, i + 1));
                        }
                    }
                },
                Option::None => {
                    proof {
                        assert(e.name is None);
                        assert(client_warning_at(cs, now@, i as int) =~= Seq::<Seq<u8>>::empty());
                        assert(lines.deep_view() =~= client_warnings_upto(cs, now@, i + 1));
                    }
                },
            }
            i += 1;
        }
        lines
    }
}


impl Broker {
    /// How many bots are registered.
    pub fn bot_count(&self) -> (n: usize)
        ensures
            n == self@.bots.len(),
    {
        self.bots.len()
    }

    /// How many clients are registered.
    pub fn client_count(&self) -> (n: usize)
        ensures
            n == self@.clients.len(),
    {
        self.clients.len()
    }

    /// Whether a bot with this identifier is registered.
    pub fn contains_bot(&self, id: u128) -> (r: bool)
        ensures
            r == has_bot(self@.bots, id),
    {
        match self.find_bot(id) {
            Option::Some(i) => {
                proof {
                    assert(has_bot(self@.bots, id));
                }
                true
            },
            Option::None => false,
        }
    }

    /// Whether a client with this identifier is registered.
    pub fn contains_client(&self, id: u128) -> (r: bool)
        ensures
            r == has_client(self@.clients, id),
    {
        match self.find_client(id) {
            Option::Some(i) => {
                proof {
                    assert(has_client(self@.clients, id));
                }
                true
            },
            Option::None => false,
        }
    }

    /// The name on a registered bot's record, when any.
    pub fn bot_name(&self, id: u128) -> (r: Option<Vec<u8>>)
        ensures
            match lookup_bot(self@.bots, id) {
                Option::Some(rec) => opt_bytes(r) == rec.name,
                Option::None => r is None,
            },
    {
        match self.find_bot(id) {
            Option::Some(i) => {
                proof {
                    lemma_lookup_bot_at(self@.bots, id, i as int);
                }
                match &self.bots[i].name {
                    Option::Some(n) => Option::Some(vstd::slice::slice_to_vec(n.as_slice())),
                    Option::None => Option::None,
                }
            },
            Option::None => {
                proof {
                    crate::registry::lemma_lookup_bot_absent(self@.bots, id);
                }
                Option::None
            },
        }
    }

    /// The name on a registered client's record, when any.
    pub fn client_name(&self, id: u128) -> (r: Option<Vec<u8>>)
        ensures
            match lookup_client(self@.clients, id) {
                Option::Some(rec) => opt_bytes(r) == rec.name,
                Option::None => r is None,
            },
    {
        match self.find_client(id) {
            Option::Some(i) => {
                proof {
                    lemma_lookup_client_at(self@.clients, id, i as int);
                }
                match &self.clients[i].name {
                    Option::Some(n) => Option::Some(vstd::slice::slice_to_vec(n.as_slice())),
                    Option::None => Option::None,
                }
            },
            Option::None => {
                proof {
                    crate::registry::lemma_lookup_client_absent(self@.clients, id);
                }
                Option::None
            },
        }
    }

    /// Whether a registered client holds referee status.
    pub fn client_is_referee(&self, id: u128) -> (r: Option<bool>)
        ensures
            r == (match lookup_client(self@.clients, id) {
                Option::Some(rec) => Option::Some(rec.is_referee),
                Option::None => Option::<bool>::None,
            }),
    {
        match self.find_client(id) {
            Option::Some(i) => {
                proof {
                    lemma_lookup_client_at(self@.clients, id, i as int);
                }
                Option::Some(self.clients[i].is_referee)
            },
            Option::None => {
                proof {
                    crate::registry::lemma_lookup_client_absent(self@.clients, id);
                }
                Option::None
            },
        }
    }
}

} // verus!
