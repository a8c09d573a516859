use peach::checksum::{check_hash, HashError};
use sha2::{Digest, Sha256};

#[test]
fn sha256_roundtrip() {
    let data: &[u8] = b"hello peach";
    let hex = base16ct::lower::encode_string(&Sha256::digest(data));
    let checksum = format!("sha256:{hex}");
    assert_eq!(check_hash(data, &checksum), Ok(true));
}

#[test]
fn sha256_detects_one_flipped_byte() {
    let data: &[u8] = b"hello peach";
    let hex = base16ct::lower::encode_string(&Sha256::digest(data));
    let checksum = format!("sha256:{hex}");
    let mut mutated = data.to_vec();
    mutated[0] ^= 1;
    assert_eq!(check_hash(&mutated, &checksum), Ok(false));
}

#[test]
fn blake3_roundtrip() {
    let data: &[u8] = b"hello peach";
    let checksum = format!("blake3:{}", blake3::hash(data).to_hex());
    assert_eq!(check_hash(data, &checksum), Ok(true));
}

#[test]
fn blake3_detects_one_flipped_byte() {
    let data: &[u8] = b"hello peach";
    let checksum = format!("blake3:{}", blake3::hash(data).to_hex());
    let mut mutated = data.to_vec();
    mutated[10] ^= 0x80;
    assert_eq!(check_hash(&mutated, &checksum), Ok(false));
}

#[test]
fn unsupported_algorithm() {
    let data: &[u8] = b"anything";
    assert_eq!(check_hash(data, "md5:deadbeef"), Err(HashError::Unsupported));
}

#[test]
fn missing_colon() {
    let data: &[u8] = b"anything";
    assert_eq!(check_hash(data, "nocolon"), Err(HashError::Format));
}

#[test]
fn comparison_is_case_sensitive() {
    let data: &[u8] = b"hello peach";
    let hex = base16ct::lower::encode_string(&Sha256::digest(data)).to_uppercase();
    let checksum = format!("sha256:{hex}");
    assert_eq!(check_hash(data, &checksum), Ok(false));
}

#[test]
fn algorithm_is_split_on_first_colon() {
    let data: &[u8] = b"hello peach";
    assert_eq!(
        check_hash(data, "sha256:extra:colon"),
        Ok(false)
    );
}

#[test]
fn empty_data_roundtrip() {
    let data: &[u8] = b"";
    let hex = base16ct::lower::encode_string(&Sha256::digest(data));
    let checksum = format!("sha256:{hex}");
    assert_eq!(check_hash(data, &checksum), Ok(true));
}
