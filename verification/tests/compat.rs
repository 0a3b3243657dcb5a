//! A database assembled directly with the cipher, hash and MAC crates
//! must open and check out through the library's reader.

use block_modes::block_padding::ZeroPadding;
use block_modes::{BlockMode, Cbc, Ecb};
use hmac::{Hmac, Mac, NewMac};
use pwsafe::PwsafeReader;
use sha2::{Digest, Sha256};
use twofish::Twofish;

#[test]
fn externally_built_database_reads_back() {
    let salt = [1u8; 32];
    let iter = 100u32;
    let password = b"password";

    // key stretching: hash(password ++ salt), then iterate
    let mut key = {
        let mut h = Sha256::default();
        h.update(password);
        h.update(&salt);
        h.finalize().to_vec()
    };
    for _ in 0..iter {
        key = Sha256::digest(&key).to_vec();
    }
    let truehash = Sha256::digest(&key).to_vec();

    let k = [2u8; 32];
    let l = [3u8; 32];
    let iv = [4u8; 16];
    let wrap = |secret: &[u8]| -> Vec<u8> {
        Ecb::<Twofish, ZeroPadding>::new_from_slices(&key, &[])
            .unwrap()
            .encrypt_vec(secret)
    };
    let wk = wrap(&k);
    let wl = wrap(&l);
    assert_eq!((wk.len(), wl.len()), (32, 32));

    // two framed fields: (0x00, [0x0e, 0x03]) and (0xff, [])
    let mut plain = vec![0x02, 0x00, 0x00, 0x00, 0x00, 0x0e, 0x03];
    plain.extend(vec![0xAA; 9]);
    plain.extend(vec![0x00, 0x00, 0x00, 0x00, 0xff]);
    plain.extend(vec![0xBB; 11]);
    let ct = Cbc::<Twofish, ZeroPadding>::new_from_slices(&k, &iv)
        .unwrap()
        .encrypt_vec(&plain);
    assert_eq!(ct.len(), 32);

    let mut mac = Hmac::<Sha256>::new_from_slice(&l).unwrap();
    mac.update(&[0x0e, 0x03]); // payload bytes only, in order
    let tag = mac.finalize().into_bytes();

    let mut file = b"PWS3".to_vec();
    file.extend(&salt);
    file.extend(&iter.to_le_bytes());
    file.extend(&truehash);
    file.extend(&wk);
    file.extend(&wl);
    file.extend(&iv);
    file.extend(&ct);
    file.extend(b"PWS3-EOFPWS3-EOF");
    file.extend(tag.as_slice());

    let mut rd = PwsafeReader::new(file, password).expect("open");
    assert_eq!(rd.get_iter(), 100);
    assert_eq!(rd.read_version().expect("version"), 0x030e);
    let (t, d) = rd.read_field().expect("read").expect("field");
    assert_eq!((t, d.len()), (0xff, 0));
    assert_eq!(rd.read_field().expect("read"), None);
    rd.verify().expect("verify");
}

#[test]
fn library_output_decrypts_with_raw_crates() {
    // The reverse direction: a database produced by the writer must
    // decrypt with the cipher crates alone.
    let mut w = pwsafe::PwsafeWriter::new(7, b"pw");
    w.write_field(0x00, &[0x0e, 0x03]);
    w.write_field(0xff, &[]);
    let file = w.finish();

    let salt = &file[4..36];
    let iter = u32::from_le_bytes(file[36..40].try_into().unwrap());
    assert_eq!(iter, 7);
    let mut key = {
        let mut h = Sha256::default();
        h.update(b"pw");
        h.update(salt);
        h.finalize().to_vec()
    };
    for _ in 0..iter {
        key = Sha256::digest(&key).to_vec();
    }
    assert_eq!(Sha256::digest(&key).as_slice(), &file[40..72]);

    let k = Ecb::<Twofish, ZeroPadding>::new_from_slices(&key, &[])
        .unwrap()
        .decrypt_vec(&file[72..104])
        .unwrap();
    let iv = &file[136..152];
    let n = file.len();
    assert_eq!(&file[n - 48..n - 32], b"PWS3-EOFPWS3-EOF");
    let plain = Cbc::<Twofish, ZeroPadding>::new_from_slices(&k, iv)
        .unwrap()
        .decrypt_vec(&file[152..n - 48])
        .unwrap();
    // first field: length 2, type 0x00, payload 0x0e 0x03
    assert_eq!(&plain[0..4], &[2, 0, 0, 0]);
    assert_eq!(plain[4], 0x00);
    assert_eq!(&plain[5..7], &[0x0e, 0x03]);
    // second field: length 0, type 0xff
    assert_eq!(&plain[16..20], &[0, 0, 0, 0]);
    assert_eq!(plain[20], 0xff);
}
