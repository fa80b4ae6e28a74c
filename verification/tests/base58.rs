use solana_arb_executor::base58::{parse_pubkey, parse_tip_account, pubkey_text, AddressError};
use solana_arb_executor::keys::{key_from_bytes, same_key};

const TOKEN_PROGRAM: &str = "TokenkegQfeZyiNwAJbNbGKPFXCWuBvf9Ss623VQ5DA";

fn token_program() -> [u8; 32] {
    [
        0x06, 0xdd, 0xf6, 0xe1, 0xd7, 0x65, 0xa1, 0x93, 0xd9, 0xcb, 0xe1, 0x46, 0xce, 0xeb, 0x79, 0xac,
        0x1c, 0xb4, 0x85, 0xed, 0x5f, 0x5b, 0x37, 0x91, 0x3a, 0x8c, 0xf5, 0x85, 0x7e, 0xff, 0x00, 0xa9,
    ]
}

#[test]
fn addresses_are_read_and_written() {
    assert_eq!(parse_pubkey(TOKEN_PROGRAM), Ok(token_program()));
    assert_eq!(pubkey_text(&token_program()), TOKEN_PROGRAM);
    assert_eq!(parse_pubkey("11111111111111111111111111111111"), Ok([0u8; 32]));
    assert_eq!(pubkey_text(&[0u8; 32]), "11111111111111111111111111111111");
}

#[test]
fn address_text_reads_back() {
    for seed in 0u8..50 {
        let mut key = [seed; 32];
        key[0] = seed / 7;
        key[31] = 255 - seed;
        assert_eq!(parse_pubkey(&pubkey_text(&key)), Ok(key));
        assert_eq!(parse_tip_account(&pubkey_text(&key)), Some(key));
    }
}

#[test]
fn bad_addresses_are_refused() {
    assert_eq!(parse_pubkey("0OIl"), Err(AddressError::NotBase58));
    assert_eq!(parse_pubkey("not base 58!"), Err(AddressError::NotBase58));
    assert_eq!(parse_pubkey(""), Err(AddressError::WrongLength(0)));
    assert_eq!(parse_pubkey("2NEpo7TZRRrLZSi2U"), Err(AddressError::WrongLength(12)));
    assert_eq!(
        parse_pubkey("111111111111111111111111111111111"),
        Err(AddressError::WrongLength(33))
    );
}

#[test]
fn tip_accounts_are_addresses() {
    assert_eq!(parse_tip_account(TOKEN_PROGRAM), Some(token_program()));
    assert_eq!(parse_tip_account("2NEpo7TZRRrLZSi2U"), None);
    assert_eq!(parse_tip_account("0OIl"), None);
    assert_eq!(parse_tip_account(""), None);
    assert_eq!(parse_tip_account(&"1".repeat(100)), None);
}

#[test]
fn keys_are_32_bytes() {
    assert_eq!(key_from_bytes(&vec![7u8; 32]), Some([7u8; 32]));
    assert_eq!(key_from_bytes(&vec![7u8; 31]), None);
    assert_eq!(key_from_bytes(&vec![7u8; 33]), None);
    let mut other = [7u8; 32];
    other[31] = 8;
    assert!(same_key(&[7u8; 32], &[7u8; 32]));
    assert!(!same_key(&[7u8; 32], &other));
}
