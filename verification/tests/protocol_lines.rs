use bot_msg::bytes::{append_bytes, bytes_eq, bytes_of, decimal_bytes};
use bot_msg::codec::BotCommand;
use bot_msg::protocol::{parse_bot_line, parse_client_line, BotLine, ClientLine};

#[test]
fn bot_line_name_claim() {
    match parse_bot_line(b"NAME:alpha") {
        BotLine::NameClaim(n) => assert_eq!(n, b"alpha".to_vec()),
        _ => panic!("NAME: line must be a claim"),
    }
    match parse_bot_line(b"NAME:") {
        BotLine::NameClaim(n) => assert!(n.is_empty()),
        _ => panic!("bare NAME: claims the empty name"),
    }
}

#[test]
fn bot_line_log_message() {
    match parse_bot_line(b"battery low") {
        BotLine::LogMessage(m) => assert_eq!(m, b"battery low".to_vec()),
        _ => panic!("other lines are log messages"),
    }
    match parse_bot_line(b"NAM") {
        BotLine::LogMessage(m) => assert_eq!(m, b"NAM".to_vec()),
        _ => panic!("a short line is a log message"),
    }
}

#[test]
fn client_line_claims() {
    match parse_client_line(b"NAME:alpha") {
        ClientLine::NameClaim(n) => assert_eq!(n, b"alpha".to_vec()),
        _ => panic!("NAME: line must be a claim"),
    }
    assert!(matches!(parse_client_line(b"REFEREE"), ClientLine::RefereeClaim));
}

#[test]
fn client_line_commands() {
    match parse_client_line(b"q") {
        ClientLine::Command(BotCommand::Private(c)) => assert_eq!(c.encode(), b'q'),
        _ => panic!("q is a private command"),
    }
    match parse_client_line(b"x") {
        ClientLine::Command(BotCommand::Referee(_)) => {}
        _ => panic!("x is a referee command"),
    }
}

#[test]
fn client_line_invalid() {
    match parse_client_line(b"!") {
        ClientLine::BadByte(t) => assert_eq!(t, b"!".to_vec()),
        _ => panic!("one byte outside the alphabet is a bad byte"),
    }
    match parse_client_line(b"qq") {
        ClientLine::BadLine(t) => assert_eq!(t, b"qq".to_vec()),
        _ => panic!("two bytes are a bad line"),
    }
    match parse_client_line(b"") {
        ClientLine::BadLine(t) => assert!(t.is_empty()),
        _ => panic!("an empty line is a bad line"),
    }
    // the claim marker wins over everything else
    match parse_client_line(b"NAME:REFEREE") {
        ClientLine::NameClaim(n) => assert_eq!(n, b"REFEREE".to_vec()),
        _ => panic!("NAME: wins"),
    }
}

#[test]
fn reader_report_lines() {
    assert_eq!(
        bot_msg::lines::bot_claim_ignored_line_bytes(b"TS", b"invalid name 'a!'"),
        b"TS: bot name claim ignored: invalid name 'a!'\n".to_vec()
    );
    assert_eq!(
        bot_msg::lines::invalid_command_line_bytes(b"TS", b"qq"),
        b"TS: invalid command 'qq'\n".to_vec()
    );
    assert_eq!(
        bot_msg::lines::invalid_char_line_bytes(b"TS", b"!"),
        b"TS: invalid command character in '!'\n".to_vec()
    );
}

#[test]
fn decimal_rendering() {
    assert_eq!(decimal_bytes(0), b"0".to_vec());
    assert_eq!(decimal_bytes(7), b"7".to_vec());
    assert_eq!(decimal_bytes(10), b"10".to_vec());
    assert_eq!(decimal_bytes(409), b"409".to_vec());
    assert_eq!(decimal_bytes(18446744073709551615), b"18446744073709551615".to_vec());
}

#[test]
fn byte_helpers() {
    let mut v = bytes_of("head");
    append_bytes(&mut v, b"-tail");
    assert_eq!(v, b"head-tail".to_vec());
    assert!(bytes_eq(b"same", b"same"));
    assert!(!bytes_eq(b"same", b"sama"));
    assert!(!bytes_eq(b"same", b"sam"));
}

#[test]
fn default_configuration() {
    let broker_args = bot_msg::config::BrokerArguments::default();
    assert_eq!(broker_args.address, "0.0.0.0");
    let cmd_args = bot_msg::config::CmdArguments::default();
    assert_eq!(cmd_args.address, "127.0.0.1");
    assert!(cmd_args.name.is_empty());
    assert!(!cmd_args.referee);
    let referee_args = bot_msg::config::RefereeArguments::default();
    assert_eq!(referee_args.address, "127.0.0.1");
    assert_eq!(bot_msg::config::Arguments::default_bot_port(), 9001);
    assert_eq!(bot_msg::config::Arguments::default_client_port(), 9002);
}
