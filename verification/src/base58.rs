//! Account addresses in base 58.

use crate::keys::key_from_bytes;
use vstd::prelude::*;
use vstd::string::*;

verus! {

/// The error type of `bs58` decoding.
#[verifier::external_type_specification]
#[verifier::external_body]
pub struct ExBase58Error(bs58::decode::Error);

/// The error type of parsing a `solana_sdk` address.
#[verifier::external_type_specification]
#[verifier::external_body]
pub struct ExParsePubkeyError(solana_sdk::pubkey::ParsePubkeyError);

/// The base-58 digits, in the order of their values.
pub open spec fn alphabet() -> Seq<char> {
    "123456789ABCDEFGHJKLMNPQRSTUVWXYZabcdefghijkmnopqrstuvwxyz"@
}

/// Whether every character of `text` is a base-58 digit.
pub open spec fn is_base58_text(text: Seq<char>) -> bool {
    forall|i: int| 0 <= i < text.len() ==> alphabet().contains(#[trigger] text[i])
}

/// The number that base-58 digits stand for, most significant first.
pub open spec fn base58_number(text: Seq<char>) -> nat
    decreases text.len(),
{
    if text.len() == 0 {
        0
    } else {
        base58_number(text.drop_last()) * 58 + alphabet().index_of(text.last()) as nat
    }
}

/// The number that bytes stand for, most significant first.
pub open spec fn big_endian_number(bytes: Seq<u8>) -> nat
    decreases bytes.len(),
{
    if bytes.len() == 0 {
        0
    } else {
        big_endian_number(bytes.drop_last()) * 256 + bytes.last() as nat
    }
}

/// The number of characters `1` that `text` begins with.
pub open spec fn leading_ones(text: Seq<char>) -> nat
    decreases text.len(),
{
    if text.len() > 0 && text[0] == '1' {
        1 + leading_ones(text.skip(1))
    } else {
        0
    }
}

/// The number of zero bytes that `bytes` begins with.
pub open spec fn leading_zeros(bytes: Seq<u8>) -> nat
    decreases bytes.len(),
{
    if bytes.len() > 0 && bytes[0] == 0 {
        1 + leading_zeros(bytes.skip(1))
    } else {
        0
    }
}

/// Whether `text` is `bytes` in base 58: the same number, with one leading `1`
/// for every leading zero byte.
pub open spec fn is_base58_of(text: Seq<char>, bytes: Seq<u8>) -> bool {
    &&& is_base58_text(text)
    &&& base58_number(text) == big_endian_number(bytes)
    &&& leading_ones(text) == leading_zeros(bytes)
}

/// `bs58::decode(..).into_vec()` with its default alphabet: any row of base-58
/// digits decodes, to the bytes of the same number behind a zero byte for every
/// leading `1`; any other character is an error.
#[verifier::external_body]
fn base58_decode(text: &str) -> (bytes: Result<Vec<u8>, bs58::decode::Error>)
    ensures
        match bytes {
            Ok(v) => is_base58_of(text@, v@),
            Err(_) => !is_base58_text(text@),
        },
{
    bs58::decode(text).into_vec()
}

/// `bs58::encode(..).into_string()` with its default alphabet: the digits of the
/// same number behind a `1` for every leading zero byte.
#[verifier::external_body]
fn base58_encode(bytes: &[u8; 32]) -> (text: String)
    ensures
        is_base58_of(text@, bytes@),
{
    bs58::encode(bytes).into_string()
}

/// `Pubkey::from_str` of `solana_sdk`: a text parses exactly if it is the base-58
/// text of 32 bytes, and then to those bytes.
#[verifier::external_body]
fn parse_sdk_pubkey(text: &str) -> (key: Result<[u8; 32], solana_sdk::pubkey::ParsePubkeyError>)
    ensures
        match key {
            Ok(k) => is_base58_of(text@, k@),
            Err(_) => forall|k: Seq<u8>| k.len() == 32 ==> !#[trigger] is_base58_of(text@, k),
        },
{
    <solana_sdk::pubkey::Pubkey as std::str::FromStr>::from_str(text).map(|key| key.to_bytes())
}

/// Why a text is not an account address.
#[derive(Debug, Clone, Copy, PartialEq, Eq, Structural)]
pub enum AddressError {
    /// The text is not base 58.
    NotBase58,
    /// The text decodes to this many bytes, not to 32.
    WrongLength(usize),
}

/// Whether some 32 bytes are spelled by a text.
pub open spec fn is_address_text(text: Seq<char>) -> bool {
    exists|key: Seq<u8>| key.len() == 32 && #[trigger] is_base58_of(text, key)
}

/// Why a text is not the address of an account.
pub open spec fn is_address_error(text: Seq<char>, error: AddressError) -> bool {
    match error {
        AddressError::NotBase58 => !is_base58_text(text),
        AddressError::WrongLength(n) => n != 32 && exists|bytes: Seq<u8>|
            bytes.len() == n && #[trigger] is_base58_of(text, bytes),
    }
}

/// The address that a base-58 text spells.
pub fn parse_pubkey(text: &str) -> (key: Result<[u8; 32], AddressError>)
    ensures
        match key {
            Ok(k) => is_base58_of(text@, k@),
            Err(error) => is_address_error(text@, error),
        },
        key is Ok <==> is_address_text(text@),
{
    match base58_decode(text) {
        Ok(bytes) => match key_from_bytes(&bytes) {
            Some(key) => {
                assert(is_base58_of(text@, key@));
                Ok(key)
            },
            None => {
                proof {
                    assert forall|k: Seq<u8>| k.len() == 32 implies !#[trigger] is_base58_of(
                        text@,
                        k,
                    ) by {
                        if is_base58_of(text@, k) {
                            law_base58_text_names_one_key(text@, k, bytes@);
                        }
                    }
                }
                Err(AddressError::WrongLength(bytes.len()))
            },
        },
        Err(_) => Err(AddressError::NotBase58),
    }
}

/// The base-58 text of an address.
pub fn pubkey_text(key: &[u8; 32]) -> (text: String)
    ensures
        is_base58_of(text@, key@),
{
    base58_encode(key)
}

/// The tip account that a reply of the block engine names, if the reply is an
/// account address.
pub fn parse_tip_account(reply: &str) -> (account: Option<[u8; 32]>)
    ensures
        match account {
            Some(key) => is_base58_of(reply@, key@),
            None => !is_address_text(reply@),
        },
{
    match parse_sdk_pubkey(reply) {
        Ok(key) => Some(key),
        Err(_) => None,
    }
}

proof fn lemma_leading_zeros(bytes: Seq<u8>)
    ensures
        leading_zeros(bytes) <= bytes.len(),
        forall|i: int| 0 <= i < leading_zeros(bytes) ==> bytes[i] == 0,
        leading_zeros(bytes) < bytes.len() ==> bytes[leading_zeros(bytes) as int] != 0,
    decreases bytes.len(),
{
    if bytes.len() > 0 && bytes[0] == 0 {
        let rest = bytes.skip(1);
        lemma_leading_zeros(rest);
        assert forall|i: int| 0 <= i < leading_zeros(bytes) implies bytes[i] == 0 by {
            if i > 0 {
                assert(rest[i - 1] == bytes[i]);
            }
        }
    }
}

proof fn lemma_zeros_add_nothing(bytes: Seq<u8>, n: nat)
    requires
        n <= bytes.len(),
        forall|i: int| 0 <= i < n ==> bytes[i] == 0,
    ensures
        big_endian_number(bytes) == big_endian_number(bytes.skip(n as int)),
    decreases bytes.len(),
{
    if bytes.len() == n {
        if n > 0 {
            lemma_zeros_add_nothing(bytes.drop_last(), (n - 1) as nat);
            assert(bytes.drop_last().skip(n - 1) =~= Seq::<u8>::empty());
        }
        assert(bytes.skip(n as int) =~= Seq::<u8>::empty());
    } else {
        lemma_zeros_add_nothing(bytes.drop_last(), n);
        assert(bytes.skip(n as int).drop_last() =~= bytes.drop_last().skip(n as int));
    }
}

proof fn lemma_number_is_positive(bytes: Seq<u8>)
    requires
        bytes.len() > 0,
        bytes[0] != 0,
    ensures
        big_endian_number(bytes) > 0,
    decreases bytes.len(),
{
    if bytes.len() > 1 {
        lemma_number_is_positive(bytes.drop_last());
    } else {
        assert(bytes.last() == bytes[0]);
    }
}

proof fn lemma_number_names_the_bytes(a: Seq<u8>, b: Seq<u8>)
    requires
        big_endian_number(a) == big_endian_number(b),
        a.len() > 0 ==> a[0] != 0,
        b.len() > 0 ==> b[0] != 0,
    ensures
        a == b,
    decreases a.len(),
{
    if a.len() == 0 {
        if b.len() > 0 {
            lemma_number_is_positive(b);
        }
        assert(a =~= b);
    } else {
        lemma_number_is_positive(a);
        assert(b.len() > 0);
        lemma_number_names_the_bytes(a.drop_last(), b.drop_last());
        assert(a =~= a.drop_last().push(a.last()));
        assert(b =~= b.drop_last().push(b.last()));
    }
}

/// A base-58 text stands for one row of bytes only.
pub proof fn law_base58_text_names_one_key(text: Seq<char>, a: Seq<u8>, b: Seq<u8>)
    requires
        is_base58_of(text, a),
        is_base58_of(text, b),
    ensures
        a == b,
{
    let n = leading_zeros(a);
    lemma_leading_zeros(a);
    lemma_leading_zeros(b);
    lemma_zeros_add_nothing(a, n);
    lemma_zeros_add_nothing(b, n);
    lemma_number_names_the_bytes(a.skip(n as int), b.skip(n as int));
    assert forall|i: int| 0 <= i < a.len() implies a[i] == b[i] by {
        if i >= n {
            assert(a.skip(n as int)[i - n] == b.skip(n as int)[i - n]);
        }
    }
    assert(a.len() == n + a.skip(n as int).len());
    assert(b.len() == n + b.skip(n as int).len());
    assert(a =~= b);
}

/// Writing an address as text and parsing the text gives the address back.
pub proof fn law_address_text_reads_back(key: Seq<u8>, text: Seq<char>, parsed: Seq<u8>)
    requires
        key.len() == 32,
        is_base58_of(text, key),
    ensures
        is_base58_of(text, parsed) ==> parsed == key,
        is_address_text(text),
{
    if is_base58_of(text, parsed) {
        law_base58_text_names_one_key(text, parsed, key);
    }
}

/// An error of an address is true: either no bytes at all are spelled by the text,
/// or as many as the error says, which are not 32. No text has both an address and
/// an error.
pub proof fn law_an_address_error_is_true(text: Seq<char>, bytes: Seq<u8>, error: AddressError)
    requires
        is_address_error(text, error),
    ensures
        !is_address_text(text),
        is_base58_of(text, bytes) ==> error == AddressError::WrongLength(bytes.len() as usize)
            && bytes.len() != 32,
{
    assert forall|key: Seq<u8>| #[trigger] is_base58_of(text, key) implies error
        == AddressError::WrongLength(key.len() as usize) && key.len() != 32 by {
        if let AddressError::WrongLength(n) = error {
            let other = choose|other: Seq<u8>|
                other.len() == n && #[trigger] is_base58_of(text, other);
            law_base58_text_names_one_key(text, key, other);
        }
    }
}

/// Digits of base 58 are worth their place: another digit behind a text makes its
/// number 58 times as large and adds the digit's own value; the digits are those of
/// the alphabet, of which the letters `O`, `I` and `l` and the figure `0` are not.
pub proof fn law_base58_digits_are_worth_their_place(text: Seq<char>, digit: int, c: char)
    ensures
        alphabet().len() == 58,
        0 <= digit < 58 ==> base58_number(text.push(alphabet()[digit])) == base58_number(text) * 58
            + digit,
        is_base58_text(seq![c]) <==> ('1' <= c <= '9' || 'A' <= c <= 'Z' || 'a' <= c <= 'z') && c
            != 'O' && c != 'I' && c != 'l',
{
    reveal_strlit("123456789ABCDEFGHJKLMNPQRSTUVWXYZabcdefghijkmnopqrstuvwxyz");
    let all = alphabet();
    if 0 <= digit < 58 {
        let longer = text.push(all[digit]);
        assert(longer.drop_last() =~= text);
        assert(all.no_duplicates()) by {
            assert forall|i: int, j: int| 0 <= i < j < 58 implies all[i] as int != all[j] as int by {
                lemma_alphabet_ascends(i, j);
            }
        }
        all.index_of_first_ensures(all[digit]);
        assert(all.contains(all[digit]));
    }
    assert(seq![c][0] == c);
    if is_base58_text(seq![c]) {
        assert(all.contains(seq![c][0]));
    }
    let v = c as int;
    let i: int = if '1' <= c <= '9' {
        v - 0x31
    } else if 'A' <= c <= 'H' {
        v - 0x41 + 9
    } else if 'J' <= c <= 'N' {
        v - 0x4a + 17
    } else if 'P' <= c <= 'Z' {
        v - 0x50 + 22
    } else if 'a' <= c <= 'k' {
        v - 0x61 + 33
    } else {
        v - 0x6d + 44
    };
    if ('1' <= c <= '9' || 'A' <= c <= 'Z' || 'a' <= c <= 'z') && c != 'O' && c != 'I' && c != 'l' {
        assert(all[i] == c);
        assert(all.contains(c));
    }
}

proof fn lemma_alphabet_ascends(i: int, j: int)
    requires
        0 <= i < j < 58,
    ensures
        alphabet()[i] < alphabet()[j],
    decreases j - i,
{
    reveal_strlit("123456789ABCDEFGHJKLMNPQRSTUVWXYZabcdefghijkmnopqrstuvwxyz");
    if i + 1 < j {
        lemma_alphabet_ascends(i, j - 1);
    }
    assert(alphabet()[j - 1] < alphabet()[j]);
}

} // verus!
