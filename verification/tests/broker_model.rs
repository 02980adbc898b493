use bot_msg::broker::{failed_ids, private_command_report};
use bot_msg::codec::{PrivateCommand, RefereeCommand};
use bot_msg::registry::{Broker, BrokerBot, BrokerClient};

const TS: &[u8] = b"2024-01-02 03:04:05";

fn ts_line(tail: &str) -> Vec<u8> {
    let mut v = TS.to_vec();
    v.extend_from_slice(tail.as_bytes());
    v
}

/// The topology of the first end-to-end scenario: bot 1 named alpha,
/// client 2 named alpha.
fn alpha_topology() -> Broker {
    let mut broker = Broker::new();
    broker.bot_join(1, b"10.0.0.1:50000".to_vec());
    let eff = broker.bot_name_claim(1, b"alpha", TS);
    assert!(eff.reply.is_ok());
    broker.join(2, b"10.0.0.2:60000".to_vec());
    let eff = broker.name_claim(2, b"alpha", TS);
    assert!(eff.reply.is_ok());
    broker
}

#[test]
fn join_registers_exactly_once() {
    let mut broker = Broker::new();
    assert_eq!(broker.bot_count(), 0);
    broker.bot_join(1, b"10.0.0.1:50000".to_vec());
    assert_eq!(broker.bot_count(), 1);
    assert!(broker.contains_bot(1));
    assert!(!broker.contains_bot(2));
    broker.join(2, b"10.0.0.2:60000".to_vec());
    assert_eq!(broker.client_count(), 1);
    assert!(broker.contains_client(2));
    assert_eq!(broker.client_is_referee(2), Some(false));
}

#[test]
fn bot_claim_without_client_logs_alone_line() {
    let mut broker = Broker::new();
    broker.bot_join(1, b"10.0.0.1:50000".to_vec());
    let eff = broker.bot_name_claim(1, b"alpha", TS);
    assert!(eff.reply.is_ok());
    assert_eq!(
        eff.stdout,
        vec![ts_line(": bot at address 10.0.0.1:50000 claims name 'alpha' (no client)\n")]
    );
    assert!(eff.writes.is_empty());
    assert_eq!(broker.bot_name(1), Some(b"alpha".to_vec()));
}

#[test]
fn client_claim_connects_to_bot() {
    // S1: the claiming client is told about the matching bot.
    let mut broker = Broker::new();
    broker.bot_join(1, b"10.0.0.1:50000".to_vec());
    broker.bot_name_claim(1, b"alpha", TS);
    broker.join(2, b"10.0.0.2:60000".to_vec());
    let eff = broker.name_claim(2, b"alpha", TS);
    assert!(eff.reply.is_ok());
    let expected = ts_line(
        ": client at address 10.0.0.2:60000 claims name alpha and connects to bot at address 10.0.0.1:50000\n",
    );
    assert_eq!(eff.stdout, vec![expected.clone()]);
    assert_eq!(eff.writes.len(), 1);
    assert_eq!(eff.writes[0].id, 2);
    assert_eq!(eff.writes[0].payload, expected);
}

#[test]
fn client_claim_without_bot_logs_no_bot() {
    let mut broker = Broker::new();
    broker.join(2, b"10.0.0.2:60000".to_vec());
    let eff = broker.name_claim(2, b"beta", TS);
    assert!(eff.reply.is_ok());
    let expected = ts_line(": client at address 10.0.0.2:60000 claims name beta (no bot)\n");
    assert_eq!(eff.stdout, vec![expected.clone()]);
    // the line still reaches every client named beta: the claimant itself
    assert_eq!(eff.writes.len(), 1);
    assert_eq!(eff.writes[0].id, 2);
    assert_eq!(eff.writes[0].payload, expected);
}

#[test]
fn bot_claim_notifies_matching_client() {
    let mut broker = Broker::new();
    broker.join(2, b"10.0.0.2:60000".to_vec());
    broker.name_claim(2, b"alpha", TS);
    broker.bot_join(1, b"10.0.0.1:50000".to_vec());
    let eff = broker.bot_name_claim(1, b"alpha", TS);
    assert!(eff.reply.is_ok());
    assert_eq!(
        eff.stdout,
        vec![ts_line(
            ": bot at address 10.0.0.1:50000 claims name 'alpha' and connects to client at address 10.0.0.2:60000\n"
        )]
    );
    assert_eq!(eff.writes.len(), 1);
    assert_eq!(eff.writes[0].id, 2);
    assert_eq!(
        eff.writes[0].payload,
        ts_line(": connected with bot at address 10.0.0.1:50000\n")
    );
}

#[test]
fn private_command_reaches_bot_and_reports() {
    // S2: C sends q; B receives the bytes q LF; C receives the display line.
    let broker = alpha_topology();
    let q = PrivateCommand::decode(b'q').unwrap();
    let plan = broker.private_command_targets(2, &q, TS);
    assert_eq!(plan.name, Some(b"alpha".to_vec()));
    assert!(plan.stdout.is_empty());
    assert_eq!(plan.writes.len(), 1);
    assert_eq!(plan.writes[0].id, 1);
    assert_eq!(plan.writes[0].payload, b"q\n".to_vec());

    let msgs = private_command_report(b"alpha", &q, TS, &vec![true]);
    assert_eq!(msgs, vec![ts_line(":alpha:private command 'q'\n")]);

    let writes = broker.fanout_clients(&msgs[0]);
    assert_eq!(writes.len(), 1);
    assert_eq!(writes[0].id, 2);
    assert_eq!(writes[0].payload, ts_line(":alpha:private command 'q'\n"));
}

#[test]
fn duplicate_bot_names_warn_and_double_delivery() {
    // S3: a second bot claiming alpha doubles the routing and warns.
    let mut broker = alpha_topology();
    broker.bot_join(3, b"10.0.0.3:50001".to_vec());
    let eff = broker.bot_name_claim(3, b"alpha", TS);
    assert!(eff.reply.is_ok());

    let warnings = broker.bot_name_warnings(TS);
    assert_eq!(
        warnings,
        vec![ts_line(": warning: 2 bots identified as 'alpha'\n")]
    );

    let q = PrivateCommand::decode(b'q').unwrap();
    let plan = broker.private_command_targets(2, &q, TS);
    assert_eq!(plan.writes.len(), 2);
    assert_eq!(plan.writes[0].id, 1);
    assert_eq!(plan.writes[1].id, 3);
    let msgs = private_command_report(b"alpha", &q, TS, &vec![true, true]);
    assert_eq!(
        msgs,
        vec![
            ts_line(":alpha:private command 'q'\n"),
            ts_line(":alpha:private command 'q'\n"),
        ]
    );
}

#[test]
fn referee_broadcast_reaches_every_bot_without_line_feed() {
    // S4: a referee's start reaches every bot as the single byte x.
    let mut broker = alpha_topology();
    broker.join(4, b"10.0.0.4:60001".to_vec());
    let eff = broker.referee_claim(4, TS);
    assert_eq!(
        eff.stdout,
        vec![ts_line(": client at address 10.0.0.4:60001 claims referee status\n")]
    );
    assert_eq!(eff.writes.len(), 1);
    assert_eq!(eff.writes[0].id, 4);
    assert_eq!(broker.client_is_referee(4), Some(true));

    let eff = broker.referee_command(4, TS, &RefereeCommand::Start);
    assert_eq!(eff.line, ts_line(":REFEREE:referee command START\n"));
    // one write per bot alive at action start, the bare byte x
    assert_eq!(eff.bot_writes.len(), broker.bot_count());
    for w in &eff.bot_writes {
        assert_eq!(w.payload, b"x".to_vec());
    }
    // one line per client alive at action start
    assert_eq!(eff.client_writes.len(), broker.client_count());
    for w in &eff.client_writes {
        assert_eq!(w.payload, ts_line(":REFEREE:referee command START\n"));
    }
}

#[test]
fn reserved_name_is_rejected_without_disconnect() {
    // S5: NAME:Referee draws the rejection line and the peer stays.
    let mut broker = Broker::new();
    broker.join(2, b"10.0.0.2:60000".to_vec());
    let eff = broker.name_claim(2, b"Referee", TS);
    let err = eff.reply.unwrap_err();
    assert_eq!(err, b"invalid name 'Referee'".to_vec());
    assert!(eff.stdout.is_empty());
    assert!(eff.writes.is_empty());
    assert!(broker.contains_client(2));
    assert_eq!(broker.client_name(2), None);
    let printed = bot_msg::lines::client_claim_ignored_line_bytes(TS, &err);
    assert_eq!(
        printed,
        ts_line(": client name claim ignored: invalid name 'Referee'\n")
    );
}

#[test]
fn dead_bot_is_removed_and_stops_matching() {
    // S6: the first failed write removes the bot; later commands find none.
    let mut broker = alpha_topology();
    let q = PrivateCommand::decode(b'q').unwrap();
    let plan = broker.private_command_targets(2, &q, TS);
    assert_eq!(plan.writes.len(), 1);

    // the write to bot 1 fails
    let msgs = private_command_report(b"alpha", &q, TS, &vec![false]);
    assert_eq!(msgs, vec![ts_line(":alpha:private command 'q' (bot unreachable)\n")]);
    let dead = failed_ids(&plan.writes, &vec![false]);
    assert_eq!(dead, vec![1]);
    let lines = broker.remove_bots(&dead, TS);
    assert_eq!(lines, vec![ts_line(": disconnected bot alpha\n")]);
    assert!(!broker.contains_bot(1));
    assert_eq!(broker.bot_count(), 0);

    // the next command finds no bot
    let plan = broker.private_command_targets(2, &q, TS);
    assert!(plan.writes.is_empty());
    let msgs = private_command_report(b"alpha", &q, TS, &Vec::new());
    assert_eq!(msgs, vec![ts_line(":alpha:private command 'q' (bot not connected)\n")]);
    assert!(broker.ping_bot_writes().is_empty());
}

#[test]
fn unnamed_client_command_is_discarded() {
    // An unnamed client's command draws no write at all.
    let mut broker = Broker::new();
    broker.bot_join(1, b"10.0.0.1:50000".to_vec());
    broker.bot_name_claim(1, b"alpha", TS);
    broker.join(2, b"10.0.0.2:60000".to_vec());
    let q = PrivateCommand::decode(b'q').unwrap();
    let plan = broker.private_command_targets(2, &q, TS);
    assert_eq!(plan.name, None);
    assert!(plan.writes.is_empty());
    assert_eq!(
        plan.stdout,
        vec![ts_line(
            ": discarding command 'private command 'q'' from unnamed client 10.0.0.2:60000\n"
        )]
    );
}

#[test]
fn ping_payloads() {
    let broker = alpha_topology();
    let pings = broker.ping_bot_writes();
    assert_eq!(pings.len(), 1);
    assert_eq!(pings[0].id, 1);
    assert_eq!(pings[0].payload, vec![0u8]);
    let pings = broker.ping_client_writes();
    assert_eq!(pings.len(), 1);
    assert_eq!(pings[0].id, 2);
    assert_eq!(pings[0].payload, b"\n".to_vec());
}

#[test]
fn log_line_uses_name_address_or_placeholder() {
    let mut broker = alpha_topology();
    let eff = broker.log(1, TS, b"battery low");
    assert_eq!(eff.line, ts_line(":alpha:battery low\n"));
    assert_eq!(eff.writes.len(), 1);
    assert_eq!(eff.writes[0].id, 2);

    broker.bot_join(3, b"10.0.0.3:50001".to_vec());
    let eff = broker.log(3, TS, b"hello");
    assert_eq!(eff.line, ts_line(":10.0.0.3:50001:hello\n"));

    let eff = broker.log(99, TS, b"ghost");
    let expected = format!(
        "{}:unknown bot {}:ghost\n",
        String::from_utf8(TS.to_vec()).unwrap(),
        ulid::Ulid(99)
    );
    assert_eq!(eff.line, expected.into_bytes());
}

#[test]
fn referee_bit_survives_name_claim() {
    let mut broker = Broker::new();
    broker.join(4, b"10.0.0.4:60001".to_vec());
    broker.referee_claim(4, TS);
    let eff = broker.name_claim(4, b"judge", TS);
    assert!(eff.reply.is_ok());
    assert_eq!(broker.client_is_referee(4), Some(true));
    assert_eq!(broker.client_name(4), Some(b"judge".to_vec()));
}

#[test]
fn named_referee_renders_with_marker() {
    let mut broker = Broker::new();
    broker.join(4, b"10.0.0.4:60001".to_vec());
    broker.referee_claim(4, TS);
    broker.name_claim(4, b"judge", TS);
    let eff = broker.referee_command(4, TS, &RefereeCommand::Stop);
    assert_eq!(eff.line, ts_line(":judge[REFEREE]:referee command STOP\n"));
    for w in &eff.bot_writes {
        assert_eq!(w.payload, b"z".to_vec());
    }
}

#[test]
fn reply_loss_removes_the_peer() {
    let mut broker = alpha_topology();
    let line = broker.reply_lost_client(2, TS);
    assert_eq!(line, ts_line(": removing client alpha\n"));
    assert!(!broker.contains_client(2));
    let line = broker.reply_lost_bot(1, TS);
    assert_eq!(line, ts_line(": removing bot alpha\n"));
    assert!(!broker.contains_bot(1));
}

#[test]
fn client_removal_logs_description() {
    let mut broker = alpha_topology();
    broker.join(4, b"10.0.0.4:60001".to_vec());
    broker.referee_claim(4, TS);
    let lines = broker.remove_clients(&vec![4, 2], TS);
    assert_eq!(
        lines,
        vec![
            ts_line(": disconnected client alpha\n"),
            ts_line(": disconnected client REFEREE\n"),
        ]
    );
    assert_eq!(broker.client_count(), 0);
}

#[test]
fn client_duplicate_names_warn() {
    let mut broker = Broker::new();
    broker.join(2, b"10.0.0.2:60000".to_vec());
    broker.join(4, b"10.0.0.4:60001".to_vec());
    broker.join(5, b"10.0.0.5:60002".to_vec());
    broker.name_claim(2, b"crew", TS);
    broker.name_claim(4, b"crew", TS);
    broker.name_claim(5, b"solo", TS);
    let warnings = broker.client_name_warnings(TS);
    assert_eq!(
        warnings,
        vec![ts_line(": warning: 2 clients identified as 'crew'\n")]
    );
}

#[test]
fn leave_removes_records() {
    let mut broker = alpha_topology();
    let lines = broker.bot_leave(1);
    assert_eq!(lines.len(), 1);
    assert!(!broker.contains_bot(1));
    let lines = broker.leave(2);
    assert_eq!(lines.len(), 1);
    assert!(!broker.contains_client(2));
    // leaving twice is harmless
    assert!(broker.leave(2).is_empty());
}

#[test]
fn failed_ids_picks_exactly_the_failures() {
    let broker = {
        let mut b = Broker::new();
        b.bot_join(1, b"a:1".to_vec());
        b.bot_join(2, b"a:2".to_vec());
        b.bot_join(3, b"a:3".to_vec());
        b
    };
    let writes = broker.ping_bot_writes();
    let dead = failed_ids(&writes, &vec![true, false, false]);
    assert_eq!(dead, vec![2, 3]);
    let dead = failed_ids(&writes, &vec![true, true, true]);
    assert!(dead.is_empty());
}

#[test]
fn bot_reclaim_overwrites_name() {
    let mut broker = alpha_topology();
    let eff = broker.bot_name_claim(1, b"beta", TS);
    assert!(eff.reply.is_ok());
    assert_eq!(broker.bot_name(1), Some(b"beta".to_vec()));
    // no client is named beta, so the claim stands alone
    assert_eq!(
        eff.stdout,
        vec![ts_line(": bot at address 10.0.0.1:50000 claims name 'beta' (no client)\n")]
    );
}

#[test]
fn invalid_bot_claim_keeps_old_name() {
    let mut broker = alpha_topology();
    let eff = broker.bot_name_claim(1, b"bad name!", TS);
    assert_eq!(eff.reply.unwrap_err(), b"invalid name 'bad name!'".to_vec());
    assert_eq!(broker.bot_name(1), Some(b"alpha".to_vec()));
    assert!(broker.contains_bot(1));
}

#[test]
fn record_has_name() {
    let bot = BrokerBot { id: 1, name: Some(b"alpha".to_vec()), address: b"a:1".to_vec() };
    assert!(bot.has_name("alpha"));
    assert!(!bot.has_name("beta"));
    let unnamed = BrokerBot { id: 2, name: None, address: b"a:2".to_vec() };
    assert!(!unnamed.has_name("alpha"));
    let client = BrokerClient {
        id: 3,
        name: Some(b"judge".to_vec()),
        is_referee: true,
        address: b"a:3".to_vec(),
    };
    assert!(client.has_name("judge"));
    assert!(!client.has_name(""));
}
