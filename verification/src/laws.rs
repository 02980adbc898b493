//! Registry laws that span several operations.
//!
//! The per-action guarantees stand on the operations themselves; this
//! module states what they add up to: a registered identifier keys exactly
//! one record.

use vstd::prelude::*;
use crate::registry::{has_bot, has_client, unique_bot_ids, unique_client_ids, BotRec, ClientRec};

verus! {

/// True of the records carrying this identifier.
pub open spec fn bot_with_id(id: u128) -> spec_fn(BotRec) -> bool {
    |r: BotRec| r.id == id
}

pub open spec fn client_with_id(id: u128) -> spec_fn(ClientRec) -> bool {
    |c: ClientRec| c.id == id
}

proof fn lemma_no_match_filter_empty_bot(s: Seq<BotRec>, p: spec_fn(BotRec) -> bool)
    requires
        forall|i: int| 0 <= i < s.len() ==> !p(#[trigger] s[i]),
    ensures
        s.filter(p).len() == 0,
    decreases s.len(),
{
    broadcast use Seq::lemma_filter_push;

    if s.len() > 0 {
        let rest = s.drop_last();
        assert(rest.push(s.last()) =~= s);
        assert forall|i: int| 0 <= i < rest.len() implies !p(#[trigger] rest[i]) by {
            assert(rest[i] == s[i]);
        }
        lemma_no_match_filter_empty_bot(rest, p);
        assert(s[s.len() - 1] == s.last());
        assert(s.filter(p) == rest.push(s.last()).filter(p));
    }
}

proof fn lemma_no_match_filter_empty_client(s: Seq<ClientRec>, p: spec_fn(ClientRec) -> bool)
    requires
        forall|i: int| 0 <= i < s.len() ==> !p(#[trigger] s[i]),
    ensures
        s.filter(p).len() == 0,
    decreases s.len(),
{
    broadcast use Seq::lemma_filter_push;

    if s.len() > 0 {
        let rest = s.drop_last();
        assert(rest.push(s.last()) =~= s);
        assert forall|i: int| 0 <= i < rest.len() implies !p(#[trigger] rest[i]) by {
            assert(rest[i] == s[i]);
        }
        lemma_no_match_filter_empty_client(rest, p);
        assert(s[s.len() - 1] == s.last());
        assert(s.filter(p) == rest.push(s.last()).filter(p));
    }
}

/// Law: while an identifier is registered on the bot side of a well-formed
/// registry, exactly one record carries it. Join establishes membership,
/// every action preserves well-formedness, and removal ends it, so the
/// count is one from join to removal.
pub proof fn lemma_bot_id_unique(s: Seq<BotRec>, id: u128)
    requires
        unique_bot_ids(s),
        has_bot(s, id),
    ensures
        s.filter(bot_with_id(id)).len() == 1,
    decreases s.len(),
{
    broadcast use Seq::lemma_filter_push;

    let rest = s.drop_last();
    let last = s.last();
    assert(rest.push(last) =~= s);
    assert(s.filter(bot_with_id(id)) == rest.push(last).filter(bot_with_id(id)));
    assert forall|i: int, j: int| #![trigger rest[i], rest[j]]
        0 <= i < j < rest.len() implies rest[i].id != rest[j].id by {
        assert(rest[i] == s[i]);
        assert(rest[j] == s[j]);
    }
    if last.id == id {
        assert forall|i: int| 0 <= i < rest.len() implies !bot_with_id(id)(
            #[trigger] rest[i],
        ) by {
            assert(rest[i] == s[i]);
            assert(s[s.len() - 1] == last);
        }
        lemma_no_match_filter_empty_bot(rest, bot_with_id(id));
    } else {
        let i = choose|i: int| 0 <= i < s.len() && (#[trigger] s[i]).id == id;
        assert(s[s.len() - 1] == last);
        assert(rest[i] == s[i]);
        assert(has_bot(rest, id));
        lemma_bot_id_unique(rest, id);
    }
}

/// Law: the client-side form of the same statement.
pub proof fn lemma_client_id_unique(s: Seq<ClientRec>, id: u128)
    requires
        unique_client_ids(s),
        has_client(s, id),
    ensures
        s.filter(client_with_id(id)).len() == 1,
    decreases s.len(),
{
    broadcast use Seq::lemma_filter_push;

    let rest = s.drop_last();
    let last = s.last();
    assert(rest.push(last) =~= s);
    assert(s.filter(client_with_id(id)) == rest.push(last).filter(client_with_id(id)));
    assert forall|i: int, j: int| #![trigger rest[i], rest[j]]
        0 <= i < j < rest.len() implies rest[i].id != rest[j].id by {
        assert(rest[i] == s[i]);
        assert(rest[j] == s[j]);
    }
    if last.id == id {
        assert forall|i: int| 0 <= i < rest.len() implies !client_with_id(id)(
            #[trigger] rest[i],
        ) by {
            assert(rest[i] == s[i]);
            assert(s[s.len() - 1] == last);
        }
        lemma_no_match_filter_empty_client(rest, client_with_id(id));
    } else {
        let i = choose|i: int| 0 <= i < s.len() && (#[trigger] s[i]).id == id;
        assert(s[s.len() - 1] == last);
        assert(rest[i] == s[i]);
        assert(has_client(rest, id));
        lemma_client_id_unique(rest, id);
    }
}

} // verus!
