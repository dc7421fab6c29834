use nex_core::cli::{CliCommand, NexCli, parse_u16_exec};
use nex_core::identity::pairing::{PairingPayload, PairingSessionInitiator, compute_sas_code};
use nex_core::identity::master::NexMasterIdentity;
use nex_core::identity::authority::{derive_actor_id, verify_device_certificate};
use nex_core::identity::types::KeyType;
use nex_core::ffi::stream::{CasStreamHeader, CasStreamProcessor, CAS_STREAM_MAGIC};
use nex_core::ffi::handle::{NEX_ERR_CAS_CORRUPTION, NEX_ERR_INTERNAL_ERROR};
use nex_core::apps::drive::CasChunkStore;
use sha2::{Digest, Sha256};

fn args(v: &[&str]) -> Vec<String> {
    v.iter().map(|s| s.to_string()).collect()
}

#[test]
fn cli_defaults_and_options() {
    assert_eq!(NexCli::parse_args(&args(&["init"])), CliCommand::Init { data_dir: ".nex".to_string() });
    assert_eq!(NexCli::parse_args(&args(&["--data-dir", "/tmp/n", "daemon", "--port", "5000"])),
        CliCommand::Daemon { data_dir: "/tmp/n".to_string(), port: 5000 });
    assert_eq!(NexCli::parse_args(&args(&["ping", "--port", "6000"])), CliCommand::Ping { socket: "127.0.0.1:6000".to_string() });
    assert_eq!(NexCli::parse_args(&args(&["ping", "--port", "99999"])), CliCommand::Ping { socket: "127.0.0.1:44555".to_string() });
    assert_eq!(NexCli::parse_args(&args(&["status"])), CliCommand::Status { data_dir: ".nex".to_string(), socket: None });
    assert_eq!(NexCli::parse_args(&args(&["gc", "--socket", "h:1"])),
        CliCommand::GcCas { data_dir: ".nex".to_string(), socket: Some("h:1".to_string()) });
    assert_eq!(NexCli::parse_args(&args(&["sync", "--verbose"])), CliCommand::Sync { socket: "127.0.0.1:44555".to_string() });
}

#[test]
fn cli_subcommands() {
    assert_eq!(NexCli::parse_args(&args(&["drive", "put", "dir/report.pdf"])), CliCommand::DrivePut {
        socket: "127.0.0.1:44555".to_string(), file_path: "dir/report.pdf".to_string(), vpath: "/report.pdf".to_string() });
    assert_eq!(NexCli::parse_args(&args(&["drive", "put", "a.txt", "/docs/a.txt"])), CliCommand::DrivePut {
        socket: "127.0.0.1:44555".to_string(), file_path: "a.txt".to_string(), vpath: "/docs/a.txt".to_string() });
    assert_eq!(NexCli::parse_args(&args(&["drive", "ls"])), CliCommand::DriveList {
        socket: "127.0.0.1:44555".to_string(), vpath: "/".to_string() });
    assert_eq!(NexCli::parse_args(&args(&["drive", "rm"])), CliCommand::Unknown("drive rm".to_string()));
    let chan = hex::encode([7u8; 32]);
    assert_eq!(NexCli::parse_args(&args(&["chat", "send", &chan, "hello", "world"])), CliCommand::ChatSend {
        socket: "127.0.0.1:44555".to_string(), channel_id: [7u8; 32], message: "hello world".to_string() });
    assert_eq!(NexCli::parse_args(&args(&["chat", "send", "zz"])), CliCommand::ChatSend {
        socket: "127.0.0.1:44555".to_string(), channel_id: [0u8; 32], message: String::new() });
    assert_eq!(NexCli::parse_args(&args(&["community", "post", &chan])), CliCommand::CommunityPost {
        socket: "127.0.0.1:44555".to_string(), channel_id: [7u8; 32], title: "Untitled Post".to_string(), content: String::new() });
    assert_eq!(NexCli::parse_args(&args(&["community", "post", &chan, "T", "a", "b"])), CliCommand::CommunityPost {
        socket: "127.0.0.1:44555".to_string(), channel_id: [7u8; 32], title: "T".to_string(), content: "a b".to_string() });
    assert_eq!(NexCli::parse_args(&args(&["frobnicate"])), CliCommand::Unknown("frobnicate".to_string()));
    assert_eq!(NexCli::parse_args(&args(&[])), CliCommand::Unknown(String::new()));
}

#[test]
fn u16_parsing_follows_str_parse() {
    for s in ["0", "65535", "+12", "007", "65536", "", "+", "-1", "1a", " 1"] {
        assert_eq!(parse_u16_exec(s), s.parse::<u16>().ok(), "input {:?}", s);
    }
}

fn payload() -> PairingPayload {
    PairingPayload {
        session_id: [1u8; 16],
        ephemeral_pubkey: [2u8; 32],
        nonce: [3u8; 16],
        expires_at_epoch: 1234,
        rendezvous: "relay.example:443".to_string(),
    }
}

#[test]
fn pairing_uri_round_trip() {
    let p = payload();
    let uri = p.encode_qr_uri();
    assert_eq!(uri, format!("nex://pair/v1?sid={}&pk={}&nonce={}&exp=1234&rdv=relay.example:443",
        hex::encode([1u8; 16]), hex::encode([2u8; 32]), hex::encode([3u8; 16])));
    assert_eq!(PairingPayload::decode_qr_uri(&uri), Ok(p));
}

#[test]
fn pairing_uri_rendezvous_with_separators_does_not_round_trip() {
    let mut p = payload();
    p.rendezvous = "relay&x".to_string();
    assert_eq!(PairingPayload::decode_qr_uri(&p.encode_qr_uri()), Err("MalformedParam".to_string()));
    p.rendezvous = "relay=x".to_string();
    let back = PairingPayload::decode_qr_uri(&p.encode_qr_uri()).unwrap();
    assert_eq!(back.rendezvous, "relay");
}

#[test]
fn pairing_uri_errors() {
    assert_eq!(PairingPayload::decode_qr_uri("nex://other"), Err("InvalidUriScheme".to_string()));
    assert_eq!(PairingPayload::decode_qr_uri("nex://pair/v1?sid"), Err("MalformedParam".to_string()));
    assert_eq!(PairingPayload::decode_qr_uri("nex://pair/v1?sid=00"), Err("InvalidSidLen".to_string()));
    assert_eq!(PairingPayload::decode_qr_uri(&format!("nex://pair/v1?pk={}", hex::encode([1u8; 16]))), Err("InvalidPkLen".to_string()));
    assert_eq!(PairingPayload::decode_qr_uri("nex://pair/v1?nonce=0011"), Err("InvalidNonceLen".to_string()));
    assert!(PairingPayload::decode_qr_uri("nex://pair/v1?sid=zz").is_err());
    assert!(PairingPayload::decode_qr_uri("nex://pair/v1?exp=soon").is_err());
    assert_eq!(PairingPayload::decode_qr_uri("nex://pair/v1?x=1"), Err("MissingSid".to_string()));
    let sid = hex::encode([1u8; 16]);
    assert_eq!(PairingPayload::decode_qr_uri(&format!("nex://pair/v1?sid={}", sid)), Err("MissingPk".to_string()));
    let full = format!("nex://pair/v1?sid={}&pk={}&nonce={}&exp=5", sid, hex::encode([2u8; 32]), hex::encode([3u8; 16]));
    assert_eq!(PairingPayload::decode_qr_uri(&full), Err("MissingRdv".to_string()));
}

#[test]
fn sas_codes_are_six_digits_from_the_transcript_hash() {
    let code = compute_sas_code(&[1u8; 32], &[2u8; 32], &[3u8; 16], &[4u8; 16]);
    let mut h = Sha256::new();
    h.update(b"NEX/PAIRING_SAS/v1");
    h.update(&[1u8; 32]);
    h.update(&[2u8; 32]);
    h.update(&[3u8; 16]);
    h.update(&[4u8; 16]);
    let d: [u8; 32] = h.finalize().into();
    assert_eq!(code, u32::from_be_bytes([d[0], d[1], d[2], d[3]]) % 1_000_000);
    assert!(code < 1_000_000);
}

#[test]
fn pairing_completes_only_on_matching_code() {
    let master = NexMasterIdentity::from_seed(&[0x42; 32]);
    let init = PairingSessionInitiator::new([1u8; 16], &[5u8; 32], [3u8; 16], 100);
    let p = init.generate_payload("relay");
    assert_eq!(p.ephemeral_pubkey, init.local_ephemeral_pubkey);
    let code = compute_sas_code(&init.local_ephemeral_pubkey, &[9u8; 32], &[3u8; 16], &[4u8; 16]);
    let (c, cert) = init.complete_pairing(&master, &[0x11; 32], &[9u8; 32], &[4u8; 16], code, 50, 10).unwrap();
    assert_eq!(c, code);
    assert_eq!(cert.device_actor_id, derive_actor_id(KeyType::Ed25519, &[0x11; 32]));
    assert_eq!(verify_device_certificate(&cert, &master.root_actor(), 60), Ok(()));
    assert_eq!(init.complete_pairing(&master, &[0x11; 32], &[9u8; 32], &[4u8; 16], code + 1, 50, 10).unwrap_err(), "SasMismatch");
    assert_eq!(init.complete_pairing(&master, &[0x11; 32], &[9u8; 32], &[4u8; 16], code, 101, 10).unwrap_err(), "PairingSessionExpired");
}

fn header() -> CasStreamHeader {
    CasStreamHeader { magic: CAS_STREAM_MAGIC, opcode: 1, flags: 0x0203, payload_len: 5, reserved: 0, expected_digest: Sha256::digest(b"chunk").into() }
}

#[test]
fn cas_stream_header_round_trip() {
    let h = header();
    let bytes = h.serialize();
    assert_eq!(&bytes[0..4], &[0x4E, 0x58, 0x43, 0x53]);
    assert_eq!(&bytes[6..8], &[0x02, 0x03]);
    assert_eq!(&bytes[8..12], &[0, 0, 0, 5]);
    assert_eq!(CasStreamHeader::parse(&bytes), Ok(h));
    let mut bad = bytes;
    bad[0] = 0;
    assert_eq!(CasStreamHeader::parse(&bad), Err(NEX_ERR_INTERNAL_ERROR));
    assert_eq!(CasStreamHeader::parse(&bytes[..47]), Err(NEX_ERR_INTERNAL_ERROR));
}

#[test]
fn cas_stream_put_and_get() {
    let mut cas = CasChunkStore::new();
    let h = header();
    assert_eq!(CasStreamProcessor::process_put_chunk(&mut cas, &h, b"chun"), Err(NEX_ERR_INTERNAL_ERROR));
    assert_eq!(CasStreamProcessor::process_put_chunk(&mut cas, &h, b"CHUNK"), Err(NEX_ERR_CAS_CORRUPTION));
    let d = CasStreamProcessor::process_put_chunk(&mut cas, &h, b"chunk").unwrap();
    assert_eq!(d, h.expected_digest);
    assert_eq!(CasStreamProcessor::process_get_chunk(&cas, &d), Ok(b"chunk".to_vec()));
    assert_eq!(CasStreamProcessor::process_get_chunk(&cas, &[0u8; 32]), Err(NEX_ERR_CAS_CORRUPTION));
}
