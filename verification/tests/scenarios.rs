use fast_paillier::backend::Integer;
use paillier_php::api::{key_list, pal_add, pal_add_array, pal_decrypt, pal_encrypt, pal_multiply};
use paillier_php::bignum::Num;
use paillier_php::ops::{
    add_ciphertexts, decrypt_ciphertext, encrypt_msg, multiply_ciphertext, validate_decryption_key,
    validate_encryption_key, MsgType,
};
use rand_core::RngCore;

// A key pair of two 256-bit safe primes; its key list is made by `key_list`, as
// `pal_generate_keys` makes it for the key it draws: drawing 1536-bit safe primes
// takes minutes, beyond a test's time here.
const P: &str = "3wsthbpqk78k9eu24f9db7uqlpw0qhhrs0ec0ciodmp6b4uj4z";
const Q: &str = "5zjqhy9yb1j39o34xehmu7spzdo48tr7rkf9i9721hk04ml47z";
const N: &str = "nf1ax22h2x95zdezy0g14u3nnofolhl4v5xvrxa1crkj81974odof2c9k9jqnun4m7hvqktf9hk4f12iwkpzxz8gqfszw92dgn1";

fn sample_keys() -> Result<Vec<(String, String)>, String> {
    let dk = validate_decryption_key(format!("{}||{}", P, Q))?;
    let keys = key_list(&dk);
    assert_eq!(lookup(&keys, "encryption_key").map(|s| s.as_str()), Some(N));
    Ok(keys)
}

#[test]
fn keys() -> Result<(), String> {
    let keys = sample_keys()?;
    let Some(_) = lookup(&keys, "0") else { return Err("Missing key 0".to_string()) };
    let Some(_) = lookup(&keys, "1") else { return Err("Missing key 1".to_string()) };
    let Some(_) = lookup(&keys, "encryption_key") else { return Err("Missing key encryption_key".to_string()) };
    let Some(_) = lookup(&keys, "decryption_key") else { return Err("Missing key decryption_key".to_string()) };
    Ok(())
}

fn lookup<'a>(keys: &'a [(String, String)], name: &str) -> Option<&'a String> {
    keys.iter().find(|(k, _)| k == name).map(|(_, v)| v)
}

#[test]
fn encrypt_decrypt() -> Result<(), String> {
    let keys = sample_keys()?;
    let Some(ek_data) = lookup(&keys, "encryption_key") else { return Err("No encryption key".to_string()) };
    let ek = validate_encryption_key(ek_data.to_string())?;
    let Some(dk_data) = lookup(&keys, "decryption_key") else { return Err("No decryption key".to_string()) };
    let dk = validate_decryption_key(dk_data.to_string())?;

    let mut rng = rand_core::OsRng;
    let plain_val = rng.next_u32() as i64;
    let plain_str = (Integer::zero() + plain_val).to_str_radix(36);
    let enc_val = encrypt_msg(&ek, &MsgType::Int(plain_val))?;
    let dec_val = decrypt_ciphertext(&dk, &enc_val)?;
    assert_eq!(plain_str, dec_val);
    Ok(())
}

#[test]
fn enc_add() -> Result<(), String> {
    let keys = sample_keys()?;
    let Some(ek_data) = lookup(&keys, "encryption_key") else { return Err("No encryption key".to_string()) };
    let ek = validate_encryption_key(ek_data.to_string())?;
    let Some(dk_data) = lookup(&keys, "decryption_key") else { return Err("No decryption key".to_string()) };
    let dk = validate_decryption_key(dk_data.to_string())?;

    let mut rng = rand_core::OsRng;
    let plain1 = rng.next_u32() as i64;
    let plain2 = rng.next_u32() as i64;
    let plain_sum = plain1 + plain2;
    let plain_str = (Integer::zero() + plain_sum).to_str_radix(36);

    let enc1 = encrypt_msg(&ek, &MsgType::Int(plain1))?;
    let enc2 = encrypt_msg(&ek, &MsgType::Int(plain2))?;
    let enc_sum = add_ciphertexts(&ek, &enc1, &enc2)?;
    let sum = decrypt_ciphertext(&dk, &enc_sum)?;

    assert_eq!(sum, plain_str, "p1 {plain1} p2 {plain2} psum {plain_sum} sum {sum:?}");
    Ok(())
}

#[test]
fn enc_add_array() -> Result<(), String> {
    let keys = sample_keys()?;
    let Some(ek_data) = lookup(&keys, "encryption_key") else { return Err("No encryption key".to_string()) };
    let ek = validate_encryption_key(ek_data.to_string())?;
    let Some(dk_data) = lookup(&keys, "decryption_key") else { return Err("No decryption key".to_string()) };
    let dk = validate_decryption_key(dk_data.to_string())?;

    let mut rng = rand_core::OsRng;
    let plain1 = rng.next_u32() as i64;
    let enc1 = (encrypt_msg(&ek, &MsgType::Int(plain1))?).to_radix36();
    let plain2 = rng.next_u32() as i64;
    let enc2 = (encrypt_msg(&ek, &MsgType::Int(plain2))?).to_radix36();
    let plain3 = rng.next_u32() as i64;
    let enc3 = (encrypt_msg(&ek, &MsgType::Int(plain3))?).to_radix36();
    let plain_sum = plain1 + plain2 + plain3;
    let plain_str = (Integer::zero() + plain_sum).to_str_radix(36);

    let ary = vec![
        ("1".to_string(), enc1),
        ("2".to_string(), enc2),
        ("3".to_string(), enc3),
    ];
    let array_sum_data = pal_add_array(ek_data.to_string(), ary)?;
    let Some(array_sum) = Num::parse_radix36(&array_sum_data) else { return Err("Bad array sum data".to_string()) };
    let dec_sum = decrypt_ciphertext(&dk, &array_sum)?;
    assert_eq!(plain_str, dec_sum);
    Ok(())
}

#[test]
fn multiply() -> Result<(), String> {
    let keys = sample_keys()?;
    let Some(ek_data) = lookup(&keys, "encryption_key") else { return Err("No encryption key".to_string()) };
    let ek = validate_encryption_key(ek_data.to_string())?;
    let Some(dk_data) = lookup(&keys, "decryption_key") else { return Err("No decryption key".to_string()) };
    let dk = validate_decryption_key(dk_data.to_string())?;

    let mut rng = rand_core::OsRng;
    let plain_val = rng.next_u32() as i64;
    let enc_val = encrypt_msg(&ek, &MsgType::Int(plain_val))?;
    let factor = (rng.next_u32() as u16) as i64;
    let fac = Integer::zero() + factor;
    let plain_str = (fac.clone() * plain_val).to_str_radix(36);
    let mult_val = multiply_ciphertext(&ek, &enc_val, Num::from_i64(factor))?;
    let dec_val = decrypt_ciphertext(&dk, &mult_val)?;
    assert_eq!(plain_str, dec_val);
    Ok(())
}

#[test]
pub fn enc_dec_zero() -> Result<(), String> {
    let keys = sample_keys()?;
    let Some(ek_data) = lookup(&keys, "encryption_key") else { return Err("No encryption key".to_string()) };
    let ek = validate_encryption_key(ek_data.to_string())?;
    let Some(dk_data) = lookup(&keys, "decryption_key") else { return Err("No decryption key".to_string()) };
    let dk = validate_decryption_key(dk_data.to_string())?;

    let plain_zero = 0_i64;
    let plain_str = (Integer::zero() + plain_zero).to_str_radix(36);
    let enc_zero = encrypt_msg(&ek, &MsgType::Int(plain_zero))?;
    let dec_zero = decrypt_ciphertext(&dk, &enc_zero)?;
    assert_eq!(plain_str, dec_zero);
    Ok(())
}

#[test]
fn readme_example() -> Result<(), String> {
    let keys = sample_keys()?;
    let ek = lookup(&keys, "encryption_key").unwrap().clone();
    let dk = lookup(&keys, "decryption_key").unwrap().clone();
    let enc_a = pal_encrypt(ek.clone(), MsgType::Int(42))?;
    let enc_b = pal_encrypt(ek.clone(), MsgType::Int(8))?;
    let enc_sum = pal_add(ek.clone(), enc_a.clone(), enc_b)?;
    assert_eq!(pal_decrypt(dk.clone(), enc_sum)?, "1e");
    let enc_doubled = pal_multiply(ek, enc_a, 2)?;
    // 84 in base 36.
    assert_eq!(pal_decrypt(dk, enc_doubled)?, "2c");
    Ok(())
}
