use solana_arb_executor::solana::{
    sign_transaction, AccountMeta, Instruction, Keypair, KeypairError,
};
use solana_sdk::instruction::{AccountMeta as SdkMeta, Instruction as SdkInstruction};
use solana_sdk::signature::Keypair as SdkKeypair;
use solana_sdk::signer::Signer;
use solana_sdk::transaction::Transaction;

fn sdk_keypair(seed: u8) -> SdkKeypair {
    SdkKeypair::new_from_array([seed; 32])
}

fn keypair(seed: u8) -> Keypair {
    match Keypair::from_bytes(sdk_keypair(seed).to_bytes().to_vec()) {
        Ok(k) => k,
        Err(e) => panic!("{e:?}"),
    }
}

#[test]
fn keypair_files_are_read() {
    let bytes = sdk_keypair(3).to_bytes();
    let text = format!("{:?}", bytes.to_vec());
    match Keypair::from_json(&text) {
        Ok(k) => assert_eq!(k.pubkey(), sdk_keypair(3).pubkey().to_bytes()),
        Err(e) => panic!("{e:?}"),
    }
}

#[test]
fn bad_keypair_files_are_refused() {
    assert_eq!(Keypair::from_json("").err(), Some(KeypairError::NotAByteArray));
    assert_eq!(Keypair::from_json("{}").err(), Some(KeypairError::NotAByteArray));
    assert_eq!(Keypair::from_json("[256]").err(), Some(KeypairError::NotAByteArray));
    assert_eq!(Keypair::from_json("[1, 2, 3]").err(), Some(KeypairError::NotAKeypair));
    let mut bytes = sdk_keypair(3).to_bytes().to_vec();
    bytes[40] ^= 1;
    assert_eq!(Keypair::from_bytes(bytes).err(), Some(KeypairError::NotAKeypair));
}

#[test]
fn public_key_is_the_second_half() {
    let bytes = sdk_keypair(9).to_bytes();
    assert_eq!(keypair(9).pubkey().to_vec(), bytes[32..].to_vec());
}

#[test]
fn transactions_are_signed_as_by_the_sdk() {
    let payer = keypair(1);
    let other = keypair(2);
    let program = [5u8; 32];
    let instruction = Instruction {
        program_id: program,
        accounts: vec![
            AccountMeta { pubkey: other.pubkey(), is_signer: true, is_writable: false },
            AccountMeta { pubkey: [6u8; 32], is_signer: false, is_writable: true },
        ],
        data: vec![1, 2, 3],
    };
    let wire = sign_transaction(&vec![instruction], &payer, &vec![&payer, &other], &[8u8; 32]);

    let sdk_payer = sdk_keypair(1);
    let sdk_other = sdk_keypair(2);
    let ix = SdkInstruction {
        program_id: program.into(),
        accounts: vec![
            SdkMeta { pubkey: sdk_other.pubkey(), is_signer: true, is_writable: false },
            SdkMeta { pubkey: [6u8; 32].into(), is_signer: false, is_writable: true },
        ],
        data: vec![1, 2, 3],
    };
    let mut tx = Transaction::new_with_payer(&[ix], Some(&sdk_payer.pubkey()));
    tx.sign(&[&sdk_payer, &sdk_other], [8u8; 32].into());
    assert_eq!(wire, bincode::serialize(&tx).unwrap());

    let read: Transaction = bincode::deserialize(&wire).unwrap();
    assert!(read.verify().is_ok());
    assert_eq!(read.signatures.len(), 2);
}
