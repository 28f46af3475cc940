use recipe_share::commands::{parse_command, Command};

#[test]
fn recognizes_ls_p() {
    assert!(matches!(parse_command(b"ls p"), Command::ListPeers));
}

#[test]
fn bare_ls_r_lists_the_local_catalog() {
    assert!(matches!(parse_command(b"ls r"), Command::ListLocal));
    // A prefix match without the separating space also falls back to the
    // local listing, exactly as the dispatch table has it.
    assert!(matches!(parse_command(b"ls rx"), Command::ListLocal));
}

#[test]
fn ls_r_all_broadcasts_an_all_request() {
    assert!(matches!(parse_command(b"ls r all"), Command::ListAll));
}

#[test]
fn ls_r_peer_broadcasts_a_one_request_with_the_raw_argument() {
    match parse_command(b"ls r QmPeer") {
        Command::ListOne(p) => assert_eq!(p, b"QmPeer".to_vec()),
        _ => panic!("expected a one-peer listing"),
    }
    // The argument is taken as written, spaces included.
    match parse_command(b"ls r  padded") {
        Command::ListOne(p) => assert_eq!(p, b" padded".to_vec()),
        _ => panic!("expected a one-peer listing"),
    }
}

#[test]
fn create_splits_on_pipes_after_trimming_the_whole_argument() {
    match parse_command(b"create r Soup|water,salt|boil") {
        Command::Create { name, ingredients, instructions } => {
            assert_eq!(name, b"Soup".to_vec());
            assert_eq!(ingredients, b"water,salt".to_vec());
            assert_eq!(instructions, b"boil".to_vec());
        }
        _ => panic!("expected a create"),
    }
    match parse_command(b"create r  a | b | c ") {
        Command::Create { name, ingredients, instructions } => {
            assert_eq!(name, b"a ".to_vec());
            assert_eq!(ingredients, b" b ".to_vec());
            assert_eq!(instructions, b" c".to_vec());
        }
        _ => panic!("expected a create"),
    }
}

#[test]
fn create_ignores_fields_past_the_third() {
    match parse_command(b"create r a|b|c|d|e") {
        Command::Create { instructions, .. } => assert_eq!(instructions, b"c".to_vec()),
        _ => panic!("expected a create"),
    }
}

#[test]
fn create_with_too_few_fields_is_malformed() {
    assert!(matches!(parse_command(b"create r onlyname"), Command::CreateMalformed));
    assert!(matches!(parse_command(b"create r a|b"), Command::CreateMalformed));
    assert!(matches!(parse_command(b"create r"), Command::CreateMalformed));
}

#[test]
fn publish_parses_a_decimal_id() {
    assert!(matches!(parse_command(b"publish r 5"), Command::Publish(5)));
    assert!(matches!(parse_command(b"publish r +7"), Command::Publish(7)));
    assert!(matches!(parse_command(b"publish r 007"), Command::Publish(7)));
    assert!(matches!(
        parse_command(b"publish r 18446744073709551615"),
        Command::Publish(u64::MAX)
    ));
}

#[test]
fn publish_with_a_bad_id_is_invalid() {
    assert!(matches!(parse_command(b"publish r abc"), Command::PublishInvalid));
    assert!(matches!(parse_command(b"publish r"), Command::PublishInvalid));
    assert!(matches!(parse_command(b"publish r -3"), Command::PublishInvalid));
    assert!(matches!(parse_command(b"publish r +"), Command::PublishInvalid));
    // One past u64::MAX overflows and is rejected, not wrapped.
    assert!(matches!(
        parse_command(b"publish r 18446744073709551616"),
        Command::PublishInvalid
    ));
}

#[test]
fn anything_else_is_unknown() {
    assert!(matches!(parse_command(b"help"), Command::Unknown));
    assert!(matches!(parse_command(b""), Command::Unknown));
    assert!(matches!(parse_command(b"ls q"), Command::Unknown));
    assert!(matches!(parse_command(b"ls p extra"), Command::Unknown));
}
