use parity_scale_codec::Encode;
use rust_node::blockchain::Transaction;
use rust_node::error::{DecodeError, Field};

fn tx(sender: &str, recipient: &str, amount: u128, nonce: u64, memo: &str) -> Transaction {
    Transaction::new(sender.to_string(), recipient.to_string(), amount, nonce, memo.to_string())
}

fn request(pairs: &[(&str, &str)]) -> Vec<(String, String)> {
    pairs.iter().map(|(name, value)| (name.to_string(), value.to_string())).collect()
}

fn full_request() -> Vec<(String, String)> {
    request(&[
        ("sender", "alice"),
        ("recipient", "bob"),
        ("amount", "10"),
        ("nonce", "1"),
        ("memo", "hi"),
    ])
}

fn without(name: &str) -> Vec<(String, String)> {
    full_request().into_iter().filter(|(n, _)| n != name).collect()
}

fn with(name: &str, value: &str) -> Vec<(String, String)> {
    full_request()
        .into_iter()
        .map(|(n, v)| if n == name { (n, value.to_string()) } else { (n, v) })
        .collect()
}

const ALICE_BYTES: [u8; 37] = [
    20, 97, 108, 105, 99, 101, 12, 98, 111, 98, 10, 0, 0, 0, 0, 0, 0, 0, 0, 0, 0, 0, 0, 0, 0, 0, 1,
    0, 0, 0, 0, 0, 0, 0, 8, 104, 105,
];

#[test]
fn encode_writes_the_fields_in_order() {
    assert_eq!(tx("alice", "bob", 10, 1, "hi").encode(), ALICE_BYTES.to_vec());
}

#[test]
fn encode_of_the_default_transaction_is_27_zero_bytes() {
    assert_eq!(Transaction::default().encode(), vec![0u8; 27]);
}

#[test]
fn encode_writes_the_largest_numbers_and_multibyte_text() {
    let mut expected = vec![16, 122, 111, 195, 171, 4, 98];
    expected.extend_from_slice(&[255u8; 24]);
    expected.push(0);
    assert_eq!(tx("zoë", "b", u128::MAX, u64::MAX, "").encode(), expected);
}

#[test]
fn encode_agrees_with_the_codec_on_a_tuple_of_the_fields() {
    let t = tx("carol", "dave", 123_456_789_012_345_678_901_234_567_890, 77, "rent for may");
    let fields = (
        "carol".to_string(),
        "dave".to_string(),
        123_456_789_012_345_678_901_234_567_890u128,
        77u64,
        "rent for may".to_string(),
    );
    assert_eq!(t.encode(), fields.encode());
}

#[test]
fn encode_uses_a_two_byte_length_from_64_bytes_on() {
    let short = "a".repeat(63);
    let long = "a".repeat(64);
    let bytes = tx(&short, "", 0, 0, "").encode();
    assert_eq!(bytes[0], 252);
    assert_eq!(bytes.len(), 1 + 63 + 1 + 16 + 8 + 1);
    let bytes = tx(&long, "", 0, 0, "").encode();
    assert_eq!(&bytes[..2], &[1, 1]);
    assert_eq!(bytes.len(), 2 + 64 + 1 + 16 + 8 + 1);
}

#[test]
fn encode_uses_a_four_byte_length_from_16384_bytes_on() {
    let memo = "m".repeat(16383);
    let bytes = tx("", "", 0, 0, &memo).encode();
    assert_eq!(&bytes[26..28], &[253, 255]);
    assert_eq!(bytes.len(), 26 + 2 + 16383);
    let memo = "m".repeat(16384);
    let bytes = tx("", "", 0, 0, &memo).encode();
    assert_eq!(&bytes[26..30], &[2, 0, 1, 0]);
    assert_eq!(bytes.len(), 26 + 4 + 16384);
}

#[test]
fn decode_reads_back_what_encode_wrote() {
    let t = tx("alice", "bob", 10, 1, "hi");
    let back = Transaction::decode(&t.encode()).unwrap();
    assert_eq!(back, t);
    assert_eq!(back.sender(), "alice");
    assert_eq!(back.recipient(), "bob");
    assert_eq!(back.amount(), 10);
    assert_eq!(back.nonce(), 1);
    assert_eq!(back.memo(), "hi");
}

#[test]
fn decode_reads_back_large_values() {
    let t = tx("zoë", &"r".repeat(20000), u128::MAX, u64::MAX, &"m".repeat(70));
    assert_eq!(Transaction::decode(&t.encode()).unwrap(), t);
}

#[test]
fn decode_ignores_what_follows_the_transaction() {
    let mut bytes = ALICE_BYTES.to_vec();
    bytes.extend_from_slice(&[1, 2, 3]);
    assert_eq!(Transaction::decode(&bytes).unwrap(), tx("alice", "bob", 10, 1, "hi"));
}

#[test]
fn decode_rejects_every_proper_prefix() {
    for cut in 0..ALICE_BYTES.len() {
        assert_eq!(Transaction::decode(&ALICE_BYTES[..cut]), Err(DecodeError::Bytes));
    }
}

#[test]
fn decode_rejects_text_that_is_not_utf8() {
    let mut bytes = ALICE_BYTES.to_vec();
    bytes[1] = 0xff;
    assert_eq!(Transaction::decode(&bytes), Err(DecodeError::Bytes));
}

#[test]
fn decode_rejects_a_length_that_is_not_the_shortest() {
    // 5 written in two bytes instead of one.
    let mut bytes = vec![21, 0];
    bytes.extend_from_slice(&ALICE_BYTES[1..]);
    assert_eq!(Transaction::decode(&bytes), Err(DecodeError::Bytes));
}

#[test]
fn hash_is_the_sha256_of_the_encoding() {
    let expected = [
        78, 41, 237, 246, 18, 157, 15, 29, 170, 227, 111, 245, 171, 150, 63, 36, 197, 62, 88, 185,
        210, 37, 133, 130, 129, 171, 250, 235, 11, 76, 178, 110,
    ];
    assert_eq!(tx("alice", "bob", 10, 1, "hi").hash(), expected.to_vec());
}

#[test]
fn hash_is_the_same_each_time_and_differs_between_transactions() {
    let a = tx("alice", "bob", 10, 1, "hi");
    assert_eq!(a.hash(), a.hash());
    assert_eq!(a.hash(), a.clone().hash());
    assert_eq!(a.hash().len(), 32);
    assert_ne!(a.hash(), tx("alice", "bob", 11, 1, "hi").hash());
    assert_ne!(a.hash(), a.encode());
}

#[test]
fn is_encodable_holds_of_ordinary_transactions() {
    assert!(tx("alice", "bob", 10, 1, "hi").is_encodable());
    assert!(Transaction::default().is_encodable());
}

#[test]
fn default_is_empty() {
    assert_eq!(Transaction::default(), tx("", "", 0, 0, ""));
}

#[test]
fn from_map_builds_the_transaction() {
    assert_eq!(Transaction::from_map(&full_request()), Ok(tx("alice", "bob", 10, 1, "hi")));
}

#[test]
fn from_map_takes_the_first_value_of_a_name_and_ignores_other_names() {
    let mut fields = request(&[("colour", "red")]);
    fields.extend(full_request());
    fields.push(("amount".to_string(), "99".to_string()));
    assert_eq!(Transaction::from_map(&fields), Ok(tx("alice", "bob", 10, 1, "hi")));
}

#[test]
fn from_map_reports_each_missing_field() {
    assert_eq!(
        Transaction::from_map(&without("sender")),
        Err(DecodeError::Missing(Field::Sender))
    );
    assert_eq!(
        Transaction::from_map(&without("recipient")),
        Err(DecodeError::Missing(Field::Recipient))
    );
    assert_eq!(
        Transaction::from_map(&without("amount")),
        Err(DecodeError::Missing(Field::Amount))
    );
    assert_eq!(Transaction::from_map(&without("nonce")), Err(DecodeError::Missing(Field::Nonce)));
    assert_eq!(Transaction::from_map(&without("memo")), Err(DecodeError::Missing(Field::Memo)));
    assert_eq!(Transaction::from_map(&Vec::new()), Err(DecodeError::Missing(Field::Sender)));
}

#[test]
fn from_map_reports_the_first_fault() {
    let fields = request(&[("sender", "alice"), ("amount", "x"), ("nonce", "y")]);
    assert_eq!(Transaction::from_map(&fields), Err(DecodeError::Missing(Field::Recipient)));
    let fields = request(&[("sender", "a"), ("recipient", "b"), ("amount", "x")]);
    assert_eq!(Transaction::from_map(&fields), Err(DecodeError::Unparsable(Field::Amount)));
    let fields = request(&[("sender", "a"), ("recipient", "b"), ("amount", "1"), ("nonce", "y")]);
    assert_eq!(Transaction::from_map(&fields), Err(DecodeError::Unparsable(Field::Nonce)));
    let fields = request(&[("sender", "a"), ("recipient", "b"), ("amount", "1")]);
    assert_eq!(Transaction::from_map(&fields), Err(DecodeError::Missing(Field::Nonce)));
}

#[test]
fn from_map_reads_numbers_in_base_ten() {
    let max128 = "340282366920938463463374607431768211455";
    let max64 = "18446744073709551615";
    let t = Transaction::from_map(&with("amount", max128)).unwrap();
    assert_eq!(t.amount(), u128::MAX);
    let t = Transaction::from_map(&with("nonce", max64)).unwrap();
    assert_eq!(t.nonce(), u64::MAX);
    assert_eq!(Transaction::from_map(&with("amount", "+7")).unwrap().amount(), 7);
    assert_eq!(Transaction::from_map(&with("amount", "007")).unwrap().amount(), 7);
    assert_eq!(Transaction::from_map(&with("nonce", "0")).unwrap().nonce(), 0);
}

#[test]
fn from_map_rejects_what_is_no_number() {
    let amount = Err(DecodeError::Unparsable(Field::Amount));
    for bad in [
        "",
        "+",
        "-",
        "-1",
        "++1",
        " 1",
        "1 ",
        "1_000",
        "1.5",
        "0x10",
        "ten",
        "١٢",
        "340282366920938463463374607431768211456",
    ] {
        assert_eq!(Transaction::from_map(&with("amount", bad)), amount);
    }
    let nonce = Err(DecodeError::Unparsable(Field::Nonce));
    for bad in ["", "-0", "18446744073709551616", "1e3"] {
        assert_eq!(Transaction::from_map(&with("nonce", bad)), nonce);
    }
}
