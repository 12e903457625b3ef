use ember_cpu_miner::work::{
    block_hash_bytes, format_hash_hex, presentable, print_block_header, Header, Template, WorkPrefix,
};
use tiny_keccak::{Hasher, Keccak};

fn header() -> Header {
    Header {
        number: 4002,
        parent_hash: "0xabc".to_string(),
        timestamp: 1_700_000_000,
        miner: "0xe0124ead86bdc20cc675317bef95533020a6165f".to_string(),
        difficulty: "32416993".to_string(),
        transactions_root: "0xdef".to_string(),
    }
}

#[test]
fn the_message_is_the_header_as_json() {
    let work = WorkPrefix::new(&header());
    assert_eq!(
        String::from_utf8(work.message_bytes(123_456_789)).unwrap(),
        "{\"number\":4002,\"parentHash\":\"0xabc\",\"timestamp\":1700000000,\"miner\":\"0xe0124ead86bdc20cc675317bef95533020a6165f\",\"difficulty\":\"32416993\",\"transactionsRoot\":\"0xdef\",\"nonce\":\"123456789\"}"
    );
    assert_eq!(work.suffix, b"\"}");
}

#[test]
fn texts_in_the_header_are_escaped() {
    let mut odd = header();
    odd.parent_hash = "\u{8}\t\u{c}\r\u{0}\u{1f}\u{7f}\u{2028}".to_string();
    odd.miner = "\"\\\u{e9}\n".to_string();
    odd.difficulty = "1\"2".to_string();
    odd.transactions_root = "\\".to_string();
    let message = String::from_utf8(WorkPrefix::new(&odd).message_bytes(0)).unwrap();
    assert_eq!(
        message,
        "{\"number\":4002,\"parentHash\":\"\\b\\t\\f\\r\\u0000\\u001f\u{7f}\u{2028}\",\"timestamp\":1700000000,\"miner\":\"\\\"\\\\\u{e9}\\n\",\"difficulty\":\"1\\\"2\",\"transactionsRoot\":\"\\\\\",\"nonce\":\"0\"}"
    );
}

#[test]
fn a_quote_in_the_miner_is_escaped() {
    let header = Header {
        number: 1,
        parent_hash: "0xaa".to_string(),
        timestamp: 2,
        miner: "a\"b".to_string(),
        difficulty: "3".to_string(),
        transactions_root: "0xcc".to_string(),
    };
    assert_eq!(
        String::from_utf8(WorkPrefix::new(&header).prefix).unwrap(),
        r#"{"number":1,"parentHash":"0xaa","timestamp":2,"miner":"a\"b","difficulty":"3","transactionsRoot":"0xcc","nonce":""#
    );
}

#[test]
fn messages_with_different_nonces_differ() {
    let work = WorkPrefix::new(&header());
    assert_ne!(work.message_bytes(1), work.message_bytes(10));
    assert_ne!(work.message_bytes(0), work.message_bytes(u64::MAX));
}

#[test]
fn blocks_are_hashed_with_keccak_256() {
    let bare = WorkPrefix { prefix: vec![], suffix: &[] };
    assert_eq!(
        format_hash_hex(&block_hash_bytes(&bare, 1)),
        "0xc89efdaa54c0f20c7adf612882df0950f5a951637e0307cdcb4c672f298b8bc6"
    );
    let work = WorkPrefix::new(&header());
    assert_eq!(
        format_hash_hex(&block_hash_bytes(&work, 123_456_789)),
        "0x2d15eaa0e32226cf00f4ff300e2058de570edca2eb44561553cce6f8297d762c"
    );
    assert_eq!(
        format_hash_hex(&block_hash_bytes(&work, 6_726_689_996_527_822_293)),
        "0xbc121558403b74e653ab685516ba7aa79d206e4b210918a24e11164d4ec12f5d"
    );
}

#[test]
fn hashing_in_parts_is_hashing_the_whole_message() {
    let work = WorkPrefix::new(&header());
    for nonce in [0u64, 77, u64::MAX] {
        let mut output = [0u8; 32];
        let mut keccak = Keccak::v256();
        keccak.update(&work.prefix);
        keccak.update(nonce.to_string().as_bytes());
        keccak.update(work.suffix);
        keccak.finalize(&mut output);
        assert_eq!(block_hash_bytes(&work, nonce), output);
    }
}

#[test]
fn hashes_are_written_in_hexadecimal() {
    let mut hash = [0u8; 32];
    hash[0] = 0x01;
    hash[1] = 0xab;
    hash[31] = 0xf0;
    assert_eq!(
        format_hash_hex(&hash),
        "0x01ab0000000000000000000000000000000000000000000000000000000000f0"
    );
}

#[test]
fn hashes_that_differ_are_written_differently() {
    let mut other = [0u8; 32];
    other[15] = 0x10;
    assert_ne!(format_hash_hex(&[0u8; 32]), format_hash_hex(&other));
}

#[test]
fn a_template_is_announced() {
    let mut header = header();
    header.parent_hash =
        "0x2d15eaa0e32226cf00f4ff300e2058de570edca2eb44561553cce6f8297d762c".to_string();
    let template = Template {
        header,
        target: "115792089237316195423570985008687907853".to_string(),
        pending_tx_hashes: vec!["0x1".to_string(), "0x2".to_string()],
    };
    assert!(presentable(&template));
    assert_eq!(
        print_block_header(&template),
        "[MINE] block #4002 | diff 32416993 | pending 2 | parent 0x2d15eaa0e3...297d762c | target 115792089237316195...87907853\n"
    );
}
