use server_core::chunk::Chunk;
use server_core::codec::{
    decode_client_message, decode_server_message, encode_client_message, encode_server_message,
    frame_message, read_frame,
};
use server_core::messages::{
    AccountCredentials, AccountInfo, CharacterRecord, ClientControlStreamMessage,
    ServerControlStreamMessage,
};
use server_core::pos::ChunkPos;
use server_core::terrain::TerrainSampler;

fn creds() -> AccountCredentials {
    AccountCredentials::new(
        "alice".to_string(),
        "hunter2".to_string(),
        Some("server-secret".to_string()),
    )
}

fn client_round_trip(msg: ClientControlStreamMessage) {
    let bytes = encode_client_message(&msg).expect("message should encode");
    let back = decode_client_message(&bytes).expect("encoding should decode");
    assert_eq!(back, msg);
    // Encoding what was decoded gives back the very same bytes.
    let again = encode_client_message(&back).expect("decoded message should encode");
    assert_eq!(again, bytes);
}

fn server_round_trip(msg: ServerControlStreamMessage) {
    let bytes = encode_server_message(&msg).expect("message should encode");
    let back = decode_server_message(&bytes).expect("encoding should decode");
    assert_eq!(back, msg);
    let again = encode_server_message(&back).expect("decoded message should encode");
    assert_eq!(again, bytes);
}

#[test]
fn every_client_variant_round_trips() {
    client_round_trip(ClientControlStreamMessage::ConnectionRequest);
    client_round_trip(ClientControlStreamMessage::CreateAccount(creds()));
    client_round_trip(ClientControlStreamMessage::Login(AccountCredentials::new(
        "bob".to_string(),
        "pw".to_string(),
        None,
    )));
    client_round_trip(ClientControlStreamMessage::CreateCharacter("Hero".to_string()));
    client_round_trip(ClientControlStreamMessage::SelectCharacter(-7));
    client_round_trip(ClientControlStreamMessage::JoinWorldRequest);
}

#[test]
fn every_server_variant_round_trips() {
    server_round_trip(ServerControlStreamMessage::Connected);
    server_round_trip(ServerControlStreamMessage::Disconnected(
        "Control stream already opened".to_string(),
    ));
    server_round_trip(ServerControlStreamMessage::Authenticated(AccountInfo {
        username: "alice".to_string(),
        characters: vec![CharacterRecord {
            character_id: 1,
            account_username: "alice".to_string(),
            name: "Hero".to_string(),
            created_at: 1700000000,
        }],
    }));
    server_round_trip(ServerControlStreamMessage::LoginDenied("Invalid Password".to_string()));
    server_round_trip(ServerControlStreamMessage::AccountCreateDenied(
        "Account already exists".to_string(),
    ));
    server_round_trip(ServerControlStreamMessage::CharacterSelected(42));
    server_round_trip(ServerControlStreamMessage::CharacterDenied("not authenticated".to_string()));
    let sampler = TerrainSampler::new(0);
    let pos = ChunkPos::new(0, 0);
    let chunk = Chunk::new(&sampler, pos);
    server_round_trip(ServerControlStreamMessage::InitialWorld {
        chunks: vec![(pos, chunk), (ChunkPos::new(1, 0), Chunk::new(&sampler, ChunkPos::new(1, 0)))],
    });
}

#[test]
fn unicode_strings_round_trip() {
    client_round_trip(ClientControlStreamMessage::CreateCharacter("n\u{e4}m\u{e9} \u{1F600}".to_string()));
    client_round_trip(ClientControlStreamMessage::CreateCharacter(String::new()));
}

#[test]
fn select_character_has_a_fixed_wire_form() {
    let bytes = encode_client_message(&ClientControlStreamMessage::SelectCharacter(1)).unwrap();
    assert_eq!(bytes, vec![4, 0, 0, 0, 0, 0, 0, 0, 1]);
    let neg = encode_client_message(&ClientControlStreamMessage::SelectCharacter(-1)).unwrap();
    assert_eq!(neg, vec![4, 255, 255, 255, 255, 255, 255, 255, 255]);
}

#[test]
fn unknown_tag_is_a_decode_error() {
    assert!(decode_client_message(&vec![6]).is_none());
    assert!(decode_client_message(&vec![255]).is_none());
    assert!(decode_server_message(&vec![8]).is_none());
}

#[test]
fn truncated_payload_is_a_decode_error() {
    assert!(decode_client_message(&vec![]).is_none());
    // SelectCharacter needs eight bytes of id.
    assert!(decode_client_message(&vec![4, 0, 0]).is_none());
    // A string whose length prefix promises more characters than follow.
    assert!(decode_client_message(&vec![3, 0, 0, 0, 2, 0, 0, 0, 65]).is_none());
}

#[test]
fn trailing_bytes_are_a_decode_error() {
    let mut bytes = encode_client_message(&ClientControlStreamMessage::JoinWorldRequest).unwrap();
    bytes.push(0);
    assert!(decode_client_message(&bytes).is_none());
}

#[test]
fn invalid_character_code_is_a_decode_error() {
    // CreateCharacter with one "character" in the surrogate range 0xD800.
    let bytes = vec![3, 0, 0, 0, 1, 0, 0, 0xD8, 0x00];
    assert!(decode_client_message(&bytes).is_none());
}

#[test]
fn bad_option_tag_is_a_decode_error() {
    // CreateAccount: username "", password "", then a presence byte of 9.
    let bytes = vec![1, 0, 0, 0, 0, 0, 0, 0, 0, 9];
    assert!(decode_client_message(&bytes).is_none());
}

#[test]
fn framing_round_trips_and_has_a_fixed_prefix() {
    let payload = vec![10u8, 20, 30];
    let framed = frame_message(&payload).unwrap();
    assert_eq!(framed, vec![0, 0, 0, 3, 10, 20, 30]);
    let (got, next) = read_frame(&framed, 0).unwrap();
    assert_eq!(got, payload);
    assert_eq!(next, framed.len());
}

#[test]
fn short_frame_reads_report_no_frame() {
    // Fewer than four header bytes.
    assert!(read_frame(&vec![0, 0, 0], 0).is_none());
    // Header promises four payload bytes, only two follow.
    assert!(read_frame(&vec![0, 0, 0, 4, 1, 2], 0).is_none());
}

#[test]
fn frames_pack_back_to_back() {
    let a = encode_client_message(&ClientControlStreamMessage::ConnectionRequest).unwrap();
    let b = encode_client_message(&ClientControlStreamMessage::SelectCharacter(9)).unwrap();
    let mut stream = frame_message(&a).unwrap();
    stream.extend_from_slice(&frame_message(&b).unwrap());
    let (p1, mid) = read_frame(&stream, 0).unwrap();
    let (p2, end) = read_frame(&stream, mid).unwrap();
    assert_eq!(end, stream.len());
    assert_eq!(decode_client_message(&p1).unwrap(), ClientControlStreamMessage::ConnectionRequest);
    assert_eq!(decode_client_message(&p2).unwrap(), ClientControlStreamMessage::SelectCharacter(9));
}
