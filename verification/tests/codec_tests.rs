use recipe_share::catalog::Record;
use recipe_share::codec::{decode_envelope, encode_envelope};
use recipe_share::envelope::{Envelope, ListMode};

fn soup() -> Record {
    Record {
        id: 0,
        name: b"Soup".to_vec(),
        ingredients: b"water,salt".to_vec(),
        instructions: b"boil".to_vec(),
        public: true,
    }
}

#[test]
fn encodes_request_all_as_compact_json() {
    let env = Envelope::Request { mode: ListMode::All };
    assert_eq!(encode_envelope(&env), br#"{"mode":"ALL"}"#.to_vec());
}

#[test]
fn encodes_request_one_as_compact_json() {
    let env = Envelope::Request { mode: ListMode::One(b"QmPeer".to_vec()) };
    assert_eq!(encode_envelope(&env), br#"{"mode":{"One":"QmPeer"}}"#.to_vec());
}

#[test]
fn encodes_response_with_one_record_as_compact_json() {
    let env = Envelope::Response {
        mode: ListMode::All,
        data: vec![soup()],
        receiver: b"QmReceiver".to_vec(),
    };
    let expected = br#"{"mode":"ALL","data":[{"id":0,"name":"Soup","ingredients":"water,salt","instructions":"boil","public":true}],"receiver":"QmReceiver"}"#;
    assert_eq!(encode_envelope(&env), expected.to_vec());
}

#[test]
fn escapes_quotes_backslashes_and_control_bytes() {
    let env = Envelope::Request { mode: ListMode::One(b"a\"b\\c\nd\x01e".to_vec()) };
    assert_eq!(
        encode_envelope(&env),
        b"{\"mode\":{\"One\":\"a\\\"b\\\\c\\nd\\u0001e\"}}".to_vec()
    );
}

#[test]
fn decodes_what_it_encodes() {
    let samples = vec![
        Envelope::Request { mode: ListMode::All },
        Envelope::Request { mode: ListMode::One(b"QmPeer".to_vec()) },
        Envelope::Request { mode: ListMode::One(b"tricky\"\\|\t\r\x1f bytes".to_vec()) },
        Envelope::Response { mode: ListMode::All, data: vec![], receiver: b"r".to_vec() },
        Envelope::Response {
            mode: ListMode::One(b"p".to_vec()),
            data: vec![
                soup(),
                Record {
                    id: u64::MAX,
                    name: b"".to_vec(),
                    ingredients: b"\\ \" \x08\x0c".to_vec(),
                    instructions: b"multi word text".to_vec(),
                    public: false,
                },
            ],
            receiver: b"QmReceiver".to_vec(),
        },
    ];
    for env in samples {
        let bytes = encode_envelope(&env);
        let back = decode_envelope(&bytes).expect("canonical encoding must decode");
        assert_eq!(bytes, encode_envelope(&back));
    }
}

#[test]
fn decodes_a_hand_written_canonical_response() {
    let wire = br#"{"mode":"ALL","data":[{"id":12,"name":"Pie","ingredients":"apples","instructions":"bake","public":false}],"receiver":"me"}"#;
    match decode_envelope(wire) {
        Some(Envelope::Response { data, receiver, .. }) => {
            assert_eq!(receiver, b"me".to_vec());
            assert_eq!(data.len(), 1);
            assert_eq!(data[0].id, 12);
            assert_eq!(data[0].name, b"Pie".to_vec());
            assert!(!data[0].public);
        }
        other => panic!("expected a response, got {:?}", other.is_some()),
    }
}

#[test]
fn rejects_malformed_and_foreign_traffic() {
    assert!(decode_envelope(b"").is_none());
    assert!(decode_envelope(b"hello").is_none());
    assert!(decode_envelope(br#"{"mode":"SOME"}"#).is_none());
    assert!(decode_envelope(br#"{"mode":"ALL""#).is_none());
    assert!(decode_envelope(br#"{"mode":"ALL"} "#).is_none());
    assert!(decode_envelope(br#"{ "mode" : "ALL" }"#).is_none());
    assert!(decode_envelope(br#"{"mode":"ALL","data":[],"receiver":"x""#).is_none());
    assert!(decode_envelope(br#"{"mode":"ALL","data":[{"id":01}],"receiver":"x"}"#).is_none());
}

#[test]
fn request_and_response_shapes_are_never_confused() {
    let req = encode_envelope(&Envelope::Request { mode: ListMode::All });
    assert!(matches!(decode_envelope(&req), Some(Envelope::Request { .. })));
    let resp = encode_envelope(&Envelope::Response {
        mode: ListMode::All,
        data: vec![],
        receiver: b"x".to_vec(),
    });
    assert!(matches!(decode_envelope(&resp), Some(Envelope::Response { .. })));
}
