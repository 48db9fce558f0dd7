use paillier_php::api::{
    decryption_key_text_meets_panic, encrypt_array_meets_small_modulus, encrypt_meets_small_modulus,
    pal_add, pal_add_array, pal_decrypt, pal_decrypt_array, pal_encrypt, pal_encrypt_array,
    pal_get_encryption_key_numbers, pal_multiply,
};
use paillier_php::bignum::Num;
use paillier_php::key_text::split_key_pair;
use paillier_php::ops::{validate_decryption_key, validate_encryption_key, MsgType};

// A small key: p = 5, q = 7, N = 35 ("z"); plaintexts run over -17 ..= 17.
const SMALL_EK: &str = "z";
const SMALL_DK: &str = "5||7";

const BIG_DK: &str = "3wsthbpqk78k9eu24f9db7uqlpw0qhhrs0ec0ciodmp6b4uj4z||5zjqhy9yb1j39o34xehmu7spzdo48tr7rkf9i9721hk04ml47z";
const BIG_EK: &str = "nf1ax22h2x95zdezy0g14u3nnofolhl4v5xvrxa1crkj81974odof2c9k9jqnun4m7hvqktf9hk4f12iwkpzxz8gqfszw92dgn1";

fn s(x: &str) -> String {
    x.to_string()
}

fn enc_small(v: i64) -> String {
    pal_encrypt(s(SMALL_EK), MsgType::Int(v)).unwrap()
}

fn dec_small(ct: &str) -> Result<String, String> {
    pal_decrypt(s(SMALL_DK), s(ct))
}

fn reads(text: &str) -> Option<String> {
    Num::parse_radix36(text).map(|n| n.to_radix36())
}

#[test]
fn radix36_reading() {
    assert_eq!(reads("z"), Some(s("z")));
    assert_eq!(reads("Z"), Some(s("z")));
    assert_eq!(reads("+10"), Some(s("10")));
    assert_eq!(reads("-10"), Some(s("-10")));
    assert_eq!(reads("1_0"), Some(s("10")));
    assert_eq!(reads("00a"), Some(s("a")));
    assert_eq!(reads("-0"), Some(s("0")));
    assert_eq!(reads("_1"), None);
    assert_eq!(reads("++1"), None);
    assert_eq!(reads("-+1"), None);
    assert_eq!(reads("--1"), None);
    assert_eq!(reads(""), None);
    assert_eq!(reads("-"), None);
    assert_eq!(reads("+"), None);
    assert_eq!(reads("1 "), None);
    assert_eq!(reads("a|b"), None);
}

#[test]
fn radix36_values() {
    assert_eq!(Num::from_i64(35).to_radix36(), "z");
    assert_eq!(Num::from_i64(36).to_radix36(), "10");
    assert_eq!(Num::from_i64(-37).to_radix36(), "-11");
    assert_eq!(Num::from_i64(0).to_radix36(), "0");
    assert_eq!(Num::from_i64(4294967295).to_radix36(), "1z141z3");
    assert_eq!(Num::from_i64(35).plus_one().to_radix36(), "10");
    assert_eq!(Num::from_i64(-1).plus_one().to_radix36(), "0");
    assert!(Num::from_i64(-5).equals(&Num::from_i64(0).plus_one().plus_one()) == false);
    assert!(Num::from_i64(2).equals(&Num::from_i64(1).plus_one()));
    assert!(Num::from_i64(-7).is_below_two());
    assert!(Num::from_i64(1).is_below_two());
    assert!(Num::from_i64(0).is_below_two());
    assert!(!Num::from_i64(2).is_below_two());
    assert!(!Num::from_i64(36).is_below_two());
}

#[test]
fn key_pair_splitting() {
    assert_eq!(split_key_pair("a||b"), Some((s("a"), s("b"))));
    assert_eq!(split_key_pair("a|||b"), Some((s("a"), s("|b"))));
    assert_eq!(split_key_pair("||"), Some((s(""), s(""))));
    assert_eq!(split_key_pair("ab"), None);
    assert_eq!(split_key_pair("a|b"), None);
    assert_eq!(split_key_pair("a||b||c"), None);
    assert_eq!(split_key_pair("a||||b"), None);
}

#[test]
fn key_numbers() {
    let numbers = pal_get_encryption_key_numbers(s("z")).unwrap();
    assert_eq!(
        numbers,
        vec![(s("0"), s("10")), (s("1"), s("z")), (s("n"), s("z")), (s("g"), s("10"))]
    );
    let numbers = pal_get_encryption_key_numbers(s("-1")).unwrap();
    assert_eq!(numbers[0].1, "0");
    assert_eq!(pal_get_encryption_key_numbers(s("!")), Err(s("Bad encryption key data")));
}

#[test]
fn encryption_key_reading() {
    let ek = validate_encryption_key(s("Z")).unwrap();
    assert_eq!(ek.n().to_radix36(), "z");
    assert!(validate_encryption_key(s("")).is_err());
}

#[test]
fn decryption_key_reading() {
    let dk = validate_decryption_key(s(SMALL_DK)).unwrap();
    assert_eq!(dk.p().to_radix36(), "5");
    assert_eq!(dk.q().to_radix36(), "7");
    let err = |t: &str| validate_decryption_key(s(t)).err().unwrap();
    assert_eq!(err("57"), "Bad decryption key data");
    assert_eq!(err("5||7||b"), "Bad decryption key data");
    assert_eq!(err("!||7"), "Bad decryption key data (p)");
    assert_eq!(err("5||!"), "Bad decryption key data (q)");
    assert_eq!(err("5|||7"), "Bad decryption key data (q)");
    assert_eq!(err("5||5"), "Failed to recreate decryption key");
    assert_eq!(err("3||7"), "Failed to recreate decryption key");
    assert_eq!(err("1||7"), "Failed to recreate decryption key");
    assert_eq!(err("-5||7"), "Failed to recreate decryption key");
}

#[test]
fn small_key_roundtrip() {
    for v in [0i64, 1, 5, 12, 17] {
        let ct = enc_small(v);
        assert_ne!(ct, Num::from_i64(v).to_radix36());
        assert_eq!(dec_small(&ct).unwrap(), Num::from_i64(v).to_radix36());
    }
    let ct = pal_encrypt(s(SMALL_EK), MsgType::Str(s("-h"))).unwrap();
    assert_eq!(dec_small(&ct).unwrap(), "-h");
    let ct = pal_encrypt(s(SMALL_EK), MsgType::Str(s("+A"))).unwrap();
    assert_eq!(dec_small(&ct).unwrap(), "a");
}

#[test]
fn big_key_roundtrip() {
    // An integer message is encrypted as the integer itself.
    let ct = pal_encrypt(s(BIG_EK), MsgType::Int(-1)).unwrap();
    assert_eq!(pal_decrypt(s(BIG_DK), ct).unwrap(), "-1");
    let ct = pal_encrypt(s(BIG_EK), MsgType::Int(i64::MIN)).unwrap();
    assert_eq!(pal_decrypt(s(BIG_DK), ct).unwrap(), "-1y2p0ij32e8e8");
    let ct = pal_encrypt(s(BIG_EK), MsgType::Int(4294967296 + 7)).unwrap();
    assert_eq!(pal_decrypt(s(BIG_DK), ct).unwrap(), "1z141zb");
    let ct = pal_encrypt(s(BIG_EK), MsgType::Str(s("-helloworld"))).unwrap();
    assert_eq!(pal_decrypt(s(BIG_DK), ct).unwrap(), "-helloworld");
}

#[test]
fn encrypt_errors() {
    assert_eq!(pal_encrypt(s("!"), MsgType::Int(1)), Err(s("Bad encryption key data")));
    assert_eq!(pal_encrypt(s(SMALL_EK), MsgType::Int(18)), Err(s("Failed to encrypt")));
    assert_eq!(pal_encrypt(s(SMALL_EK), MsgType::Str(s("-i"))), Err(s("Failed to encrypt")));
    assert_eq!(pal_encrypt(s(SMALL_EK), MsgType::Int(-18)), Err(s("Failed to encrypt")));
    let ct = pal_encrypt(s(SMALL_EK), MsgType::Int(-1)).unwrap();
    assert_eq!(dec_small(&ct).unwrap(), "-1");
    assert_eq!(pal_encrypt(s(SMALL_EK), MsgType::Str(s("?"))), Err(s("Bad message data")));
    assert_eq!(pal_encrypt(s(SMALL_EK), MsgType::Null), Err(s("Bad type")));
    // No plaintext, so even a tiny modulus reports the message error.
    assert_eq!(pal_encrypt(s("1"), MsgType::Null), Err(s("Bad type")));
}

#[test]
fn decrypt_errors() {
    assert_eq!(dec_small("!"), Err(s("Bad ciphertext data")));
    assert_eq!(dec_small("0"), Err(s("Failed to decrypt")));
    assert_eq!(dec_small("z"), Err(s("Failed to decrypt")));
    assert_eq!(pal_decrypt(s("5|7"), enc_small(1)), Err(s("Bad decryption key data")));
    assert_eq!(pal_decrypt(s("5||5"), enc_small(1)), Err(s("Failed to recreate decryption key")));
}

#[test]
fn homomorphic_addition() {
    let sum = pal_add(s(SMALL_EK), enc_small(3), enc_small(4)).unwrap();
    assert_eq!(dec_small(&sum).unwrap(), "7");
    // 10 + 10 = 20 = -15 modulo 35, in the signed range
    let sum = pal_add(s(SMALL_EK), enc_small(10), enc_small(10)).unwrap();
    assert_eq!(dec_small(&sum).unwrap(), "-f");
    assert_eq!(pal_add(s("!"), enc_small(1), enc_small(1)), Err(s("Bad encryption key data")));
    assert_eq!(pal_add(s(SMALL_EK), s("!"), enc_small(1)), Err(s("Bad ct1_data")));
    assert_eq!(pal_add(s(SMALL_EK), enc_small(1), s("!")), Err(s("Bad ct2_data")));
    assert_eq!(pal_add(s(SMALL_EK), s("0"), enc_small(1)), Err(s("Add failed")));
}

#[test]
fn homomorphic_multiplication() {
    let ct = enc_small(3);
    let p = pal_multiply(s(SMALL_EK), ct.clone(), 2).unwrap();
    assert_eq!(dec_small(&p).unwrap(), "6");
    let p = pal_multiply(s(SMALL_EK), ct.clone(), -1).unwrap();
    assert_eq!(dec_small(&p).unwrap(), "-3");
    let p = pal_multiply(s(SMALL_EK), ct.clone(), -4).unwrap();
    assert_eq!(dec_small(&p).unwrap(), "-c");
    assert_eq!(pal_multiply(s(SMALL_EK), ct.clone(), 0), Err(s("Failed to multipy")));
    assert_eq!(pal_multiply(s(SMALL_EK), ct.clone(), 5), Err(s("Failed to multipy")));
    assert_eq!(pal_multiply(s(SMALL_EK), ct.clone(), 35), Err(s("Failed to multipy")));
    assert_eq!(pal_multiply(s(SMALL_EK), s("!"), 2), Err(s("Bad ciphertext data")));
    assert_eq!(pal_multiply(s("!"), ct, 2), Err(s("Bad encryption key data")));
}

#[test]
fn array_addition() {
    let cts = vec![(s("a"), enc_small(1)), (s("b"), enc_small(2)), (s("c"), enc_small(3))];
    let total = pal_add_array(s(SMALL_EK), cts).unwrap();
    assert_eq!(dec_small(&total).unwrap(), "6");
    let single = pal_add_array(s(SMALL_EK), vec![(s("x"), enc_small(9))]).unwrap();
    assert_eq!(dec_small(&single).unwrap(), "9");
    assert_eq!(pal_add_array(s(SMALL_EK), vec![]), Err(s("Nothing to add")));
    assert_eq!(pal_add_array(s("!"), vec![]), Err(s("Bad encryption key data")));
    let bad = vec![(s("a"), enc_small(1)), (s("b"), s("!"))];
    assert_eq!(pal_add_array(s(SMALL_EK), bad), Err(s("Bad ciphertext data")));
    let bad = vec![(s("a"), enc_small(1)), (s("b"), s("0"))];
    assert_eq!(pal_add_array(s(SMALL_EK), bad), Err(s("Add failed")));
    // A lone ciphertext is handed back untouched, whatever it is.
    assert_eq!(pal_add_array(s(SMALL_EK), vec![(s("a"), s("0"))]), Ok(s("0")));
}

#[test]
fn array_addition_any_order() {
    let (c1, c2, c3) = (enc_small(1), enc_small(-5), enc_small(11));
    let forward = vec![(s("a"), c1.clone()), (s("b"), c2.clone()), (s("c"), c3.clone())];
    let backward = vec![(s("z"), c3.clone()), (s("y"), c2.clone()), (s("x"), c1.clone())];
    let total = pal_add_array(s(SMALL_EK), forward).unwrap();
    assert_eq!(pal_add_array(s(SMALL_EK), backward), Ok(total.clone()));
    assert_eq!(dec_small(&total).unwrap(), "7");
    // A bad text fails the sum wherever it stands.
    let bad1 = vec![(s("a"), s("0")), (s("b"), c1.clone())];
    let bad2 = vec![(s("b"), c1), (s("a"), s("0"))];
    assert!(pal_add_array(s(SMALL_EK), bad1).is_err());
    assert!(pal_add_array(s(SMALL_EK), bad2).is_err());
}

#[test]
fn integer_and_text_messages_agree() {
    for v in [-17i64, -1, 0, 9, 17] {
        let text = Num::from_i64(v).to_radix36();
        let a = pal_encrypt(s(SMALL_EK), MsgType::Int(v)).unwrap();
        let b = pal_encrypt(s(SMALL_EK), MsgType::Str(text.clone())).unwrap();
        assert_eq!(dec_small(&a).unwrap(), text);
        assert_eq!(dec_small(&b).unwrap(), text);
    }
    assert_eq!(pal_encrypt(s(SMALL_EK), MsgType::Str(s("-i"))), pal_encrypt(s(SMALL_EK), MsgType::Int(-18)));
}

#[test]
fn array_results_match_single_calls() {
    let cts = vec![(s("p"), enc_small(2)), (s("q"), enc_small(-3))];
    let plain = pal_decrypt_array(s(SMALL_DK), cts.clone()).unwrap();
    for (i, (_, ct)) in cts.iter().enumerate() {
        assert_eq!(pal_decrypt(s(SMALL_DK), ct.clone()).unwrap(), plain[i].1);
    }
    // Outside the multiplicative group modulo N^2: 0, N and a multiple of 5.
    for ct in ["0", "z", "5"] {
        assert_eq!(dec_small(ct), Err(s("Failed to decrypt")));
        let cts = vec![(s("k"), s(ct))];
        assert_eq!(pal_decrypt_array(s(SMALL_DK), cts), Err(s("Failed to decrypt")));
    }
    let msgs = vec![(s("a"), MsgType::Int(3)), (s("b"), MsgType::Str(s("?")))];
    assert_eq!(pal_encrypt(s(SMALL_EK), MsgType::Str(s("?"))), Err(s("Bad message data")));
    assert_eq!(pal_encrypt_array(s(SMALL_EK), msgs), Err(s("Bad message data")));
}

#[test]
fn array_encryption_and_decryption() {
    let msgs = vec![
        (s("first"), MsgType::Int(4)),
        (s("second"), MsgType::Str(s("-b"))),
        (s("third"), MsgType::Int(0)),
    ];
    let cts = pal_encrypt_array(s(SMALL_EK), msgs).unwrap();
    let keys: Vec<&str> = cts.iter().map(|(k, _)| k.as_str()).collect();
    assert_eq!(keys, vec!["first", "second", "third"]);
    let plain = pal_decrypt_array(s(SMALL_DK), cts).unwrap();
    assert_eq!(
        plain,
        vec![(s("first"), s("4")), (s("second"), s("-b")), (s("third"), s("0"))]
    );

    let msgs = vec![(s("a"), MsgType::Int(1)), (s("b"), MsgType::Null), (s("c"), MsgType::Int(99))];
    assert_eq!(pal_encrypt_array(s(SMALL_EK), msgs), Err(s("Bad type")));
    let msgs = vec![(s("a"), MsgType::Int(99)), (s("b"), MsgType::Null)];
    assert_eq!(pal_encrypt_array(s(SMALL_EK), msgs), Err(s("Failed to encrypt")));
    assert_eq!(pal_encrypt_array(s("!"), vec![]), Err(s("Bad encryption key data")));
    assert_eq!(pal_encrypt_array(s(SMALL_EK), vec![]), Ok(vec![]));

    let cts = vec![(s("x"), enc_small(1)), (s("y"), s("!")), (s("z"), s("0"))];
    assert_eq!(pal_decrypt_array(s(SMALL_DK), cts), Err(s("Bad ciphertext_data[y]")));
    let cts = vec![(s("x"), s("0")), (s("y"), s("!"))];
    assert_eq!(pal_decrypt_array(s(SMALL_DK), cts), Err(s("Failed to decrypt")));
    assert_eq!(pal_decrypt_array(s("5"), vec![]), Err(s("Bad decryption key data")));
}

#[test]
fn key_text_reads_back() {
    let dk = validate_decryption_key(s(BIG_DK)).unwrap();
    let text = format!("{}||{}", dk.p().to_radix36(), dk.q().to_radix36());
    assert_eq!(text, BIG_DK);
    let again = validate_decryption_key(text).unwrap();
    assert_eq!(again.p().to_radix36(), dk.p().to_radix36());
    assert_eq!(again.q().to_radix36(), dk.q().to_radix36());
}

#[test]
fn precondition_checks() {
    assert!(encrypt_meets_small_modulus("1", &MsgType::Int(3)));
    assert!(encrypt_meets_small_modulus("-5", &MsgType::Str(s("a"))));
    assert!(!encrypt_meets_small_modulus("1", &MsgType::Null));
    assert!(!encrypt_meets_small_modulus("1", &MsgType::Str(s("?"))));
    assert!(!encrypt_meets_small_modulus("2", &MsgType::Int(3)));
    assert!(!encrypt_meets_small_modulus("!", &MsgType::Int(3)));
    assert!(encrypt_array_meets_small_modulus("0", &vec![(s("a"), MsgType::Int(1))]));
    assert!(!encrypt_array_meets_small_modulus("0", &vec![(s("a"), MsgType::Null), (s("b"), MsgType::Int(1))]));
    assert!(!encrypt_array_meets_small_modulus("0", &vec![]));
    assert!(decryption_key_text_meets_panic("0||5"));
    assert!(decryption_key_text_meets_panic("7||0"));
    assert!(!decryption_key_text_meets_panic("0||0"));
    assert!(!decryption_key_text_meets_panic("0||1"));
    assert!(!decryption_key_text_meets_panic("5||7"));
    assert!(!decryption_key_text_meets_panic("0|5"));
}
