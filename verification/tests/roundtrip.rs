//! End-to-end write/read tests over in-memory byte streams.

use pwsafe::reader::Error;
use pwsafe::PwsafeReader;
use pwsafe::PwsafeWriter;

fn blocks_for(len: usize) -> usize {
    if len <= 11 {
        1
    } else {
        1 + (len - 11 + 15) / 16
    }
}

fn write_db(iter: u32, password: &[u8], fields: &[(u8, Vec<u8>)]) -> Vec<u8> {
    let mut w = PwsafeWriter::new(iter, password);
    for (t, data) in fields {
        w.write_field(*t, data.as_slice());
    }
    w.finish()
}

#[test]
fn round_trip_many_fields() {
    let fields: Vec<(u8, Vec<u8>)> = vec![
        (0x00, vec![0x0e, 0x03]),
        (0x09, b"my database".to_vec()),
        (0x20, vec![]),
        (0x21, vec![7u8; 11]),
        (0x22, vec![8u8; 12]),
        (0x23, vec![9u8; 16]),
        (0x24, vec![10u8; 27]),
        (0x25, (0..=99u8).collect()),
        (0xff, vec![]),
    ];
    let bytes = write_db(11, b"correct horse", &fields);
    let total_blocks: usize = fields.iter().map(|(_, d)| blocks_for(d.len())).sum();
    assert_eq!(bytes.len(), 152 + 16 * total_blocks + 48);

    let mut rd = PwsafeReader::new(bytes, b"correct horse").expect("open");
    assert_eq!(rd.get_iter(), 11);
    for (t, data) in &fields {
        let (rt, rdata) = rd.read_field().expect("read").expect("field");
        assert_eq!(rt, *t);
        assert_eq!(&rdata, data);
    }
    assert_eq!(rd.read_field().expect("read"), None);
    rd.verify().expect("verify");
}

#[test]
fn concrete_scenario() {
    let fields: Vec<(u8, Vec<u8>)> = vec![(0x00, vec![0x0e, 0x03]), (0xff, vec![])];
    let bytes = write_db(2048, b"password", &fields);
    let mut rd = PwsafeReader::new(bytes, b"password").expect("open");
    assert_eq!(rd.read_version().expect("version"), 0x030e);
    let (t, data) = rd.read_field().expect("read").expect("field");
    assert_eq!(t, 0xff);
    assert_eq!(data, Vec::<u8>::new());
    assert_eq!(rd.read_field().expect("read"), None);
    rd.verify().expect("verify");
}

#[test]
fn wrong_passphrase_rejected() {
    let bytes = write_db(64, b"password", &[(0x00, vec![0x0e, 0x03]), (0xff, vec![])]);
    match PwsafeReader::new(bytes, b"passw0rd") {
        Err(Error::InvalidPassword) => {}
        other => panic!("expected InvalidPassword, got {:?}", other.map(|_| ())),
    }
}

#[test]
fn empty_passphrase_differs() {
    let bytes = write_db(64, b"", &[(0xff, vec![])]);
    assert!(PwsafeReader::new(bytes.clone(), b"").is_ok());
    match PwsafeReader::new(bytes, b"x") {
        Err(Error::InvalidPassword) => {}
        other => panic!("expected InvalidPassword, got {:?}", other.map(|_| ())),
    }
}

#[test]
fn sentinel_termination_repeats() {
    let bytes = write_db(16, b"pw", &[(0x01, vec![1u8; 16]), (0xff, vec![])]);
    let mut rd = PwsafeReader::new(bytes, b"pw").expect("open");
    while rd.read_field().expect("read").is_some() {}
    for _ in 0..5 {
        assert_eq!(rd.read_field().expect("read"), None);
    }
    rd.verify().expect("verify");
}

#[test]
fn tamper_in_payload_block_detected() {
    // A 20-byte field spans two blocks; its second block carries payload
    // bytes only, so flipping a bit there leaves the framing intact and
    // must surface at verify() as a tag mismatch.
    let mut bytes = write_db(16, b"pw", &[(0x05, vec![0x41u8; 20]), (0xff, vec![])]);
    let idx = 152 + 16; // second ciphertext block
    bytes[idx] ^= 0x01;
    let mut rd = PwsafeReader::new(bytes, b"pw").expect("open");
    let (t, data) = rd.read_field().expect("read").expect("field");
    assert_eq!(t, 0x05);
    assert_eq!(data.len(), 20);
    // remaining fields until the sentinel
    while rd.read_field().expect("read").is_some() {}
    match rd.verify() {
        Err(Error::MacError) => {}
        other => panic!("expected MacError, got {:?}", other),
    }
}

#[test]
fn tamper_in_trailing_tag_detected() {
    let mut bytes = write_db(16, b"pw", &[(0x00, vec![0x0e, 0x03]), (0xff, vec![])]);
    let last = bytes.len() - 1;
    bytes[last] ^= 0x80;
    let mut rd = PwsafeReader::new(bytes, b"pw").expect("open");
    while rd.read_field().expect("read").is_some() {}
    match rd.verify() {
        Err(Error::MacError) => {}
        other => panic!("expected MacError, got {:?}", other),
    }
}

#[test]
fn corrupted_magic_rejected() {
    let mut bytes = write_db(16, b"pw", &[(0xff, vec![])]);
    bytes[0] = b'Q';
    match PwsafeReader::new(bytes, b"pw") {
        Err(Error::InvalidTag) => {}
        other => panic!("expected InvalidTag, got {:?}", other.map(|_| ())),
    }
}

#[test]
fn short_input_rejected() {
    match PwsafeReader::new(vec![b'P', b'W'], b"pw") {
        Err(Error::InvalidTag) => {}
        other => panic!("expected InvalidTag, got {:?}", other.map(|_| ())),
    }
    let bytes = write_db(16, b"pw", &[(0xff, vec![])]);
    let short = bytes[..100].to_vec();
    match PwsafeReader::new(short, b"pw") {
        Err(Error::Truncated) => {}
        other => panic!("expected Truncated, got {:?}", other.map(|_| ())),
    }
}

#[test]
fn truncated_body_rejected() {
    let bytes = write_db(16, b"pw", &[(0x00, vec![0x0e, 0x03]), (0xff, vec![])]);
    // drop the trailing tag and sentinel: the body no longer has room
    let cut = bytes[..bytes.len() - 40].to_vec();
    match PwsafeReader::new(cut, b"pw") {
        Err(Error::Truncated) => {}
        other => panic!("expected Truncated, got {:?}", other.map(|_| ())),
    }
}

#[test]
fn length_invariant_exact() {
    for len in [0usize, 1, 5, 11, 12, 16, 27, 31, 32, 100, 1000] {
        let payload: Vec<u8> = (0..len).map(|i| (i % 251) as u8).collect();
        let bytes = write_db(3, b"pw", &[(0x30, payload.clone()), (0xff, vec![])]);
        assert_eq!(
            bytes.len(),
            152 + 16 * (blocks_for(len) + blocks_for(0)) + 48,
            "file size for len {}",
            len
        );
        let mut rd = PwsafeReader::new(bytes, b"pw").expect("open");
        let (t, data) = rd.read_field().expect("read").expect("field");
        assert_eq!(t, 0x30);
        assert_eq!(data, payload);
        let (t2, d2) = rd.read_field().expect("read").expect("field");
        assert_eq!((t2, d2.len()), (0xff, 0));
        assert_eq!(rd.read_field().expect("read"), None);
        rd.verify().expect("verify");
    }
}

#[test]
fn version_field_must_lead() {
    let bytes = write_db(4, b"pw", &[(0x09, b"name".to_vec()), (0xff, vec![])]);
    let mut rd = PwsafeReader::new(bytes, b"pw").expect("open");
    match rd.read_version() {
        Err(Error::InvalidHeader) => {}
        other => panic!("expected InvalidHeader, got {:?}", other),
    }
}
