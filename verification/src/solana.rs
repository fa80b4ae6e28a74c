//! Instructions, keys and signed transactions as plain values.

use solana_sdk::instruction::{AccountMeta as SdkAccountMeta, Instruction as SdkInstruction};
use solana_sdk::signature::Keypair as SdkKeypair;
use solana_sdk::transaction::Transaction;
use vstd::bytes::*;
use vstd::prelude::*;

verus! {

/// An account that an instruction names.
#[derive(Debug, Clone, Copy)]
pub struct AccountMeta {
    pub pubkey: [u8; 32],
    pub is_signer: bool,
    pub is_writable: bool,
}

/// An instruction of a transaction.
#[derive(Debug)]
pub struct Instruction {
    pub program_id: [u8; 32],
    pub accounts: Vec<AccountMeta>,
    pub data: Vec<u8>,
}

/// An account of an instruction: address, whether it signs, whether it is written.
pub type AccountView = (Seq<u8>, bool, bool);

/// An instruction: program, accounts, data.
pub type InstructionView = (Seq<u8>, Seq<AccountView>, Seq<u8>);

impl View for AccountMeta {
    type V = AccountView;

    open spec fn view(&self) -> AccountView {
        (self.pubkey@, self.is_signer, self.is_writable)
    }
}

impl View for Instruction {
    type V = InstructionView;

    open spec fn view(&self) -> InstructionView {
        (self.program_id@, views(self.accounts@), self.data@)
    }
}

/// The views of a row of accounts.
pub open spec fn views(accounts: Seq<AccountMeta>) -> Seq<AccountView> {
    Seq::new(accounts.len(), |i: int| accounts[i]@)
}

/// The views of a row of instructions.
pub open spec fn instruction_views(instructions: Seq<Instruction>) -> Seq<InstructionView> {
    Seq::new(instructions.len(), |i: int| instructions[i]@)
}

/// The error type of `serde_json`.
#[verifier::external_type_specification]
#[verifier::external_body]
pub struct ExJsonError(serde_json::Error);

/// The byte array that a JSON text spells, if `serde_json::from_str` accepts the
/// text as one.
pub uninterp spec fn json_byte_array(text: Seq<char>) -> Option<Seq<u8>>;

/// Whether `Keypair::try_from` of `solana_sdk` accepts the bytes as a keypair.
pub uninterp spec fn is_keypair(bytes: Seq<u8>) -> bool;

/// The wire bytes of the transaction of the given instructions, paid by `payer`,
/// signed with the keypairs `signers` over the given blockhash.
pub uninterp spec fn signed_transaction(
    instructions: Seq<(Seq<u8>, Seq<(Seq<u8>, bool, bool)>, Seq<u8>)>,
    payer: Seq<u8>,
    signers: Seq<Seq<u8>>,
    blockhash: Seq<u8>,
) -> Seq<u8>;

/// `serde_json::from_str::<Vec<u8>>`: whether the text is a JSON array of bytes,
/// and which one, depends on the text alone.
#[verifier::external_body]
fn parse_json_bytes(text: &str) -> (bytes: Result<Vec<u8>, serde_json::Error>)
    ensures
        match bytes {
            Ok(v) => json_byte_array(text@) == Some(v@),
            Err(_) => json_byte_array(text@) is None,
        },
{
    serde_json::from_str::<Vec<u8>>(text)
}

/// `Keypair::try_from` and `Signer::pubkey` of `solana_sdk`: whether the bytes
/// are a keypair depends on the bytes alone. A keypair is 64 bytes long, and its
/// public key is the second half of them.
#[verifier::external_body]
fn keypair_pubkey(bytes: &Vec<u8>) -> (pubkey: Option<[u8; 32]>)
    ensures
        pubkey is Some <==> is_keypair(bytes@),
        pubkey matches Some(key) ==> bytes@.len() == 64 && key@ == bytes@.subrange(32, 64),
{
    let keypair = SdkKeypair::try_from(bytes.as_slice()).ok();
    keypair.map(|k| solana_sdk::signer::Signer::pubkey(&k).to_bytes())
}

/// Why a text is not a keypair.
#[derive(Debug, Clone, Copy, PartialEq, Eq, Structural)]
pub enum KeypairError {
    /// The text is not a JSON array of bytes.
    NotAByteArray,
    /// The bytes are not a secret key followed by its public key.
    NotAKeypair,
}

/// A signing key with its public key.
pub struct Keypair {
    bytes: Vec<u8>,
    pubkey: [u8; 32],
}

impl View for Keypair {
    type V = Seq<u8>;

    closed spec fn view(&self) -> Seq<u8> {
        self.bytes@
    }
}

/// The public key of a keypair: the second half of its bytes.
pub open spec fn pubkey_of(keypair: Seq<u8>) -> Seq<u8> {
    keypair.subrange(32, 64)
}

impl Keypair {
    /// The bytes are a keypair, and the public key is theirs.
    #[verifier::type_invariant]
    spec fn is_valid(self) -> bool {
        &&& is_keypair(self.bytes@)
        &&& self.bytes@.len() == 64
        &&& self.pubkey@ == pubkey_of(self.bytes@)
    }

    /// Read a keypair file: a JSON array of the 64 bytes.
    pub fn from_json(text: &str) -> (keypair: Result<Keypair, KeypairError>)
        ensures
            is_keypair_reading(keypair, text@),
            match json_byte_array(text@) {
                None => keypair == Err::<Keypair, KeypairError>(KeypairError::NotAByteArray),
                Some(bytes) => if is_keypair(bytes) {
                    keypair matches Ok(k) && k@ == bytes
                } else {
                    keypair == Err::<Keypair, KeypairError>(KeypairError::NotAKeypair)
                },
            },
    {
        match parse_json_bytes(text) {
            Ok(bytes) => Keypair::from_bytes(bytes),
            Err(_) => Err(KeypairError::NotAByteArray),
        }
    }

    /// The keypair that the bytes are, if they are one.
    pub fn from_bytes(bytes: Vec<u8>) -> (keypair: Result<Keypair, KeypairError>)
        ensures
            is_keypair(bytes@) ==> (keypair matches Ok(k) && k@ == bytes@),
            !is_keypair(bytes@) ==> keypair == Err::<Keypair, KeypairError>(
                KeypairError::NotAKeypair,
            ),
    {
        match keypair_pubkey(&bytes) {
            Some(pubkey) => Ok(Keypair { bytes, pubkey }),
            None => Err(KeypairError::NotAKeypair),
        }
    }

    /// The public key.
    pub fn pubkey(&self) -> (key: [u8; 32])
        ensures
            self@.len() == 64,
            key@ == pubkey_of(self@),
    {
        proof {
            use_type_invariant(self);
        }
        self.pubkey
    }
}

/// The bytes of a row of keypairs.
pub open spec fn keypair_views(signers: Seq<&Keypair>) -> Seq<Seq<u8>> {
    Seq::new(signers.len(), |i: int| signers[i]@)
}

/// Every address that the instructions name, programs included.
pub open spec fn named_keys(instructions: Seq<InstructionView>) -> Seq<Seq<u8>>
    decreases instructions.len(),
{
    if instructions.len() == 0 {
        Seq::empty()
    } else {
        let last = instructions.last();
        named_keys(instructions.drop_last()) + seq![last.0] + Seq::new(
            last.1.len(),
            |i: int| last.1[i].0,
        )
    }
}

/// Whether some instruction has `key` among its accounts as a signer.
pub open spec fn signs(instructions: Seq<InstructionView>, key: Seq<u8>) -> bool {
    exists|i: int, j: int|
        #![trigger instructions[i].1[j]]
        0 <= i < instructions.len() && 0 <= j < instructions[i].1.len() && instructions[i].1[j].0
            == key && instructions[i].1[j].1
}

/// Whether some instruction has `key` among its accounts as writable.
pub open spec fn writes(instructions: Seq<InstructionView>, key: Seq<u8>) -> bool {
    exists|i: int, j: int|
        #![trigger instructions[i].1[j]]
        0 <= i < instructions.len() && 0 <= j < instructions[i].1.len() && instructions[i].1[j].0
            == key && instructions[i].1[j].2
}

/// The addresses that a transaction only reads.
pub open spec fn read_only_keys(instructions: Seq<InstructionView>, payer: Seq<u8>) -> Set<
    Seq<u8>,
> {
    named_keys(instructions).to_set().filter(
        |key: Seq<u8>|
            key != payer && !signs(instructions, key) && !writes(instructions, key),
    )
}

/// Whether a transaction of these instructions can be compiled and signed: the
/// signers are exactly the payer and the signing accounts, and every count fits
/// the wire format.
pub open spec fn can_be_signed(
    instructions: Seq<InstructionView>,
    payer: Seq<u8>,
    signer_keys: Seq<Seq<u8>>,
) -> bool {
    let keys = named_keys(instructions).to_set();
    &&& forall|key: Seq<u8>| #[trigger]
        signer_keys.contains(key) <==> key == payer || signs(instructions, key)
    &&& signer_keys.to_set().len() <= u8::MAX
    &&& read_only_keys(instructions, payer).len() <= u8::MAX
    &&& keys.insert(payer).len() <= u16::MAX
    &&& instructions.len() <= u16::MAX
    &&& forall|i: int|
        0 <= i < instructions.len() ==> (#[trigger] instructions[i]).1.len() <= u16::MAX
            && instructions[i].2.len() <= u16::MAX
}

/// The public keys of a row of keypairs.
pub open spec fn pubkeys(keypairs: Seq<Seq<u8>>) -> Seq<Seq<u8>> {
    Seq::new(keypairs.len(), |i: int| pubkey_of(keypairs[i]))
}

/// `Transaction::new_with_payer` and `Transaction::sign` of `solana_sdk`, and the
/// wire bytes of the result by `bincode::serialize`: they depend on the
/// arguments alone. The requirements are those under which none of the three
/// fails.
#[verifier::external_body]
fn sign_with_sdk(
    instructions: &Vec<Instruction>,
    payer: [u8; 32],
    signers: &Vec<&Keypair>,
    blockhash: [u8; 32],
) -> (wire: Vec<u8>)
    requires
        forall|i: int| 0 <= i < signers@.len() ==> is_keypair(#[trigger] keypair_views(signers@)[i]),
        can_be_signed(
            instruction_views(instructions@),
            payer@,
            pubkeys(keypair_views(signers@)),
        ),
    ensures
        wire@ == signed_transaction(
            instruction_views(instructions@),
            payer@,
            keypair_views(signers@),
            blockhash@,
        ),
{
    let sdk_key = |k: &&Keypair| SdkKeypair::try_from(&k.bytes[..]).unwrap();
    let keys = Vec::from_iter(signers.iter().map(sdk_key));
    let sdk_meta = |a: &AccountMeta| SdkAccountMeta {
        pubkey: a.pubkey.into(), is_signer: a.is_signer, is_writable: a.is_writable,
    };
    let ixs = Vec::from_iter(instructions.iter().map(|ix| SdkInstruction {
        program_id: ix.program_id.into(), data: ix.data.clone(),
        accounts: ix.accounts.iter().map(sdk_meta).collect(),
    }));
    let mut tx = Transaction::new_with_payer(&ixs, Some(&payer.into()));
    tx.sign(&Vec::from_iter(&keys), blockhash.into());
    bincode::serialize(&tx).unwrap()
}

/// Compile the instructions into a transaction paid by `payer`, sign it with the
/// given keypairs and return its wire bytes.
pub fn sign_transaction(
    instructions: &Vec<Instruction>,
    payer: &Keypair,
    signers: &Vec<&Keypair>,
    blockhash: &[u8; 32],
) -> (wire: Vec<u8>)
    requires
        can_be_signed(
            instruction_views(instructions@),
            pubkey_of(payer@),
            pubkeys(keypair_views(signers@)),
        ),
    ensures
        wire@ == signed_transaction(
            instruction_views(instructions@),
            pubkey_of(payer@),
            keypair_views(signers@),
            blockhash@,
        ),
{
    let mut i: usize = 0;
    while i < signers.len()
        invariant
            i <= signers@.len(),
            forall|k: int| 0 <= k < i ==> is_keypair(#[trigger] keypair_views(signers@)[k]),
        decreases signers@.len() - i,
    {
        let signer: &Keypair = signers[i];
        proof {
            use_type_invariant(signer);
        }
        assert(keypair_views(signers@)[i as int] == signer@);
        i = i + 1;
    }
    sign_with_sdk(instructions, payer.pubkey(), signers, *blockhash)
}

/// The byte of weight `256^i` of a little-endian number.
pub open spec fn le_byte(n: nat, weight: nat) -> u8 {
    (n / weight % 256) as u8
}

/// The data of a system transfer: the instruction number 2 in four bytes, then
/// the lamports in eight, both little-endian.
pub open spec fn transfer_data(lamports: nat) -> Seq<u8> {
    seq![
        2u8,
        0u8,
        0u8,
        0u8,
        le_byte(lamports, 0x1),
        le_byte(lamports, 0x100),
        le_byte(lamports, 0x1_0000),
        le_byte(lamports, 0x100_0000),
        le_byte(lamports, 0x1_0000_0000),
        le_byte(lamports, 0x100_0000_0000),
        le_byte(lamports, 0x1_0000_0000_0000),
        le_byte(lamports, 0x100_0000_0000_0000),
    ]
}

/// The system program's transfer of `lamports`: the sender signs, both accounts
/// are written. The address of the system program is 32 zero bytes.
pub open spec fn transfer_view(from: Seq<u8>, to: Seq<u8>, lamports: nat) -> InstructionView {
    (
        Seq::new(32, |i: int| 0u8),
        seq![(from, true, true), (to, false, true)],
        transfer_data(lamports),
    )
}

/// `transfer` of `solana_system_interface`: the instruction that moves `lamports`
/// from one account to another.
#[verifier::external_body]
pub(crate) fn system_transfer(from: &[u8; 32], to: &[u8; 32], lamports: u64) -> (instruction: Instruction)
    ensures
        instruction@ == transfer_view(from@, to@, lamports as nat),
{
    let ix = solana_system_interface::instruction::transfer(&(*from).into(), &(*to).into(), lamports);
    let accounts = ix.accounts.iter().map(|a| AccountMeta {
        pubkey: a.pubkey.to_bytes(), is_signer: a.is_signer, is_writable: a.is_writable,
    });
    Instruction { program_id: ix.program_id.to_bytes(), accounts: accounts.collect(), data: ix.data.clone() }
}

/// A transfer alone can always be signed by its sender.
pub proof fn lemma_transfer_can_be_signed(from: Seq<u8>, to: Seq<u8>, lamports: nat)
    ensures
        can_be_signed(seq![transfer_view(from, to, lamports)], from, seq![from]),
{
    broadcast use vstd::set_lib::group_set_lib_default;

    let transfer = transfer_view(from, to, lamports);
    let instructions = seq![transfer];
    assert(instructions.drop_last() =~= Seq::<InstructionView>::empty());
    let keys = named_keys(instructions);
    reveal_with_fuel(named_keys, 2);
    assert(keys.len() == 3);
    keys.lemma_cardinality_of_set();
    seq![from].lemma_cardinality_of_set();
    vstd::set_lib::lemma_len_subset(read_only_keys(instructions, from), keys.to_set());
    assert forall|key: Seq<u8>| #[trigger] seq![from].contains(key) <==> key == from || signs(
        instructions,
        key,
    ) by {
        assert(seq![from][0] == from);
        if signs(instructions, key) {
            let (i, j) = choose|i: int, j: int|
                #![trigger instructions[i].1[j]]
                0 <= i < instructions.len() && 0 <= j < instructions[i].1.len()
                    && instructions[i].1[j].0 == key && instructions[i].1[j].1;
            assert(i == 0);
            assert(j == 0 || j == 1);
        }
    }
}

/// A transaction without instructions can always be signed by its payer.
pub proof fn lemma_empty_can_be_signed(payer: Seq<u8>)
    ensures
        can_be_signed(Seq::empty(), payer, seq![payer]),
{
    let keys = named_keys(Seq::empty());
    assert(keys.to_set() =~= Set::<Seq<u8>>::empty());
    assert(read_only_keys(Seq::empty(), payer) =~= Set::<Seq<u8>>::empty());
    seq![payer].lemma_cardinality_of_set();
    assert forall|key: Seq<u8>| #[trigger] seq![payer].contains(key) <==> key == payer || signs(
        Seq::empty(),
        key,
    ) by {
        assert(seq![payer][0] == payer);
    }
}

/// A transfer carries its amount in full, in little-endian bytes behind the number
/// of the instruction; its sender signs and is written, its receiver is only
/// written.
pub proof fn law_a_transfer_carries_its_amount(from: Seq<u8>, to: Seq<u8>, lamports: u64)
    ensures
        ({
            let (program, accounts, data) = transfer_view(from, to, lamports as nat);
            &&& program.len() == 32 && forall|i: int| 0 <= i < 32 ==> #[trigger] program[i] == 0
            &&& accounts == seq![(from, true, true), (to, false, true)]
            &&& data.len() == 12
            &&& data.subrange(0, 4) == seq![2u8, 0u8, 0u8, 0u8]
            &&& data.subrange(4, 12) == spec_u64_to_le_bytes(lamports)
        }),
{
    let n = lamports;
    spec_u64_to_le_bytes_to_open(n);
    assert(n & 0xff == n / 0x1 % 0x100) by (bit_vector);
    assert((n >> 8) & 0xff == n / 0x100 % 0x100) by (bit_vector);
    assert((n >> 16) & 0xff == n / 0x1_0000 % 0x100) by (bit_vector);
    assert((n >> 24) & 0xff == n / 0x100_0000 % 0x100) by (bit_vector);
    assert((n >> 32) & 0xff == n / 0x1_0000_0000 % 0x100) by (bit_vector);
    assert((n >> 40) & 0xff == n / 0x100_0000_0000 % 0x100) by (bit_vector);
    assert((n >> 48) & 0xff == n / 0x1_0000_0000_0000 % 0x100) by (bit_vector);
    assert((n >> 56) & 0xff == n / 0x100_0000_0000_0000 % 0x100) by (bit_vector);
    let data = transfer_data(n as nat);
    assert(data.subrange(0, 4) =~= seq![2u8, 0u8, 0u8, 0u8]);
    assert(data.subrange(4, 12) =~= spec_u64_to_le_bytes(n));
}

/// Whether `keypair` is what a keypair file holds: the keypair of the bytes that it
/// spells, or why there is none.
pub open spec fn is_keypair_reading(keypair: Result<Keypair, KeypairError>, text: Seq<char>) -> bool {
    match keypair {
        Ok(k) => json_byte_array(text) == Some(k@) && is_keypair(k@),
        Err(KeypairError::NotAByteArray) => json_byte_array(text) is None,
        Err(KeypairError::NotAKeypair) => json_byte_array(text) is Some && !is_keypair(
            json_byte_array(text)->0,
        ),
    }
}

/// A keypair file is read exactly if it spells the bytes of a keypair, and then as
/// these bytes; the error tells a text that spells no bytes from bytes that are no
/// keypair.
pub proof fn law_a_keypair_file_is_read_as_it_is(
    keypair: Result<Keypair, KeypairError>,
    text: Seq<char>,
    bytes: Seq<u8>,
)
    requires
        is_keypair_reading(keypair, text),
    ensures
        json_byte_array(text) == Some(bytes) && is_keypair(bytes) ==> keypair is Ok
            && keypair->Ok_0@ == bytes,
        json_byte_array(text) == Some(bytes) && !is_keypair(bytes) ==> keypair == Err::<
            Keypair,
            KeypairError,
        >(KeypairError::NotAKeypair),
        json_byte_array(text) is None ==> keypair == Err::<Keypair, KeypairError>(
            KeypairError::NotAByteArray,
        ),
{
}

/// The values of an instruction are those that it holds, account by account.
pub proof fn law_instructions_keep_every_part(instruction: Instruction, i: int)
    ensures
        ({
            let (program, accounts, data) = instruction@;
            &&& program == instruction.program_id@
            &&& data == instruction.data@
            &&& accounts.len() == instruction.accounts@.len()
            &&& 0 <= i < accounts.len() ==> {
                &&& accounts[i].0 == instruction.accounts@[i].pubkey@
                &&& accounts[i].1 == instruction.accounts@[i].is_signer
                &&& accounts[i].2 == instruction.accounts@[i].is_writable
            }
        }),
{
}

} // verus!
