use bot_msg::codec::{BotCommand, PrivateCommand, RefereeCommand};

#[test]
fn referee_decode_start_both_cases() {
    assert!(matches!(RefereeCommand::decode(b'x'), Some(RefereeCommand::Start)));
    assert!(matches!(RefereeCommand::decode(b'X'), Some(RefereeCommand::Start)));
}

#[test]
fn referee_decode_stop_both_cases() {
    assert!(matches!(RefereeCommand::decode(b'z'), Some(RefereeCommand::Stop)));
    assert!(matches!(RefereeCommand::decode(b'Z'), Some(RefereeCommand::Stop)));
}

#[test]
fn referee_rejects_other_bytes() {
    assert!(RefereeCommand::decode(b'q').is_none());
    assert!(RefereeCommand::decode(b'0').is_none());
    assert!(RefereeCommand::decode(b'!').is_none());
    assert!(RefereeCommand::decode(0).is_none());
}

#[test]
fn referee_encodes_lowercase() {
    assert_eq!(RefereeCommand::Start.encode(), b'x');
    assert_eq!(RefereeCommand::Stop.encode(), b'z');
}

#[test]
fn private_roundtrip_on_whole_alphabet() {
    // Every alphanumeric byte except the four referee bytes decodes, and
    // the decoded command re-encodes to the same byte.
    let mut alphabet: Vec<u8> = Vec::new();
    alphabet.extend(b'a'..=b'z');
    alphabet.extend(b'A'..=b'Z');
    alphabet.extend(b'0'..=b'9');
    for byte in alphabet {
        let decoded = PrivateCommand::decode(byte);
        if byte == b'x' || byte == b'X' || byte == b'z' || byte == b'Z' {
            assert!(decoded.is_none());
        } else {
            assert_eq!(decoded.expect("alphanumeric byte must decode").encode(), byte);
        }
    }
}

#[test]
fn private_rejects_outside_alphabet() {
    assert!(PrivateCommand::decode(b' ').is_none());
    assert!(PrivateCommand::decode(b'!').is_none());
    assert!(PrivateCommand::decode(b'\n').is_none());
    assert!(PrivateCommand::decode(0xFF).is_none());
}

#[test]
fn bot_command_prefers_referee() {
    assert!(matches!(
        BotCommand::decode(b'x'),
        Some(BotCommand::Referee(RefereeCommand::Start))
    ));
    assert!(matches!(
        BotCommand::decode(b'Z'),
        Some(BotCommand::Referee(RefereeCommand::Stop))
    ));
    match BotCommand::decode(b'q') {
        Some(BotCommand::Private(c)) => assert_eq!(c.encode(), b'q'),
        _ => panic!("'q' must decode as a private command"),
    }
    assert!(BotCommand::decode(b'#').is_none());
}

#[test]
fn bot_command_encode_matches_variant() {
    let start = BotCommand::decode(b'X').unwrap();
    assert_eq!(start.encode(), b'x');
    let private = BotCommand::decode(b'7').unwrap();
    assert_eq!(private.encode(), b'7');
}

#[test]
fn display_strings() {
    assert_eq!(
        RefereeCommand::Start.display_bytes(),
        b"referee command START".to_vec()
    );
    assert_eq!(
        RefereeCommand::Stop.display_bytes(),
        b"referee command STOP".to_vec()
    );
    let q = PrivateCommand::decode(b'q').unwrap();
    assert_eq!(q.display_bytes(), b"private command 'q'".to_vec());
}
