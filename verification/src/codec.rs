//! Bytes as text: base64, base58 and account addresses.
use base64::engine::general_purpose::STANDARD;
use base64::Engine;
use solana_pubkey::{ParsePubkeyError, Pubkey};
use std::str::FromStr;
use vstd::prelude::*;

use crate::text::{decimal, decimal_text, joined};

verus! {

/// Why a text is not base64.
#[derive(Clone, Copy, Debug, PartialEq, Eq, Structural)]
pub enum Base64Error {
    InvalidByte { offset: usize, byte: u8 },
    InvalidLength { len: usize },
    InvalidLastSymbol { offset: usize, byte: u8 },
    InvalidPadding,
}

impl Base64Error {
    /// The error in words.
    pub open spec fn words(self) -> Seq<char> {
        match self {
            Base64Error::InvalidByte { offset, byte } => "Invalid symbol "@ + decimal(byte as nat)
                + ", offset "@ + decimal(offset as nat) + "."@,
            Base64Error::InvalidLength { len } => "Invalid input length: "@ + decimal(len as nat),
            Base64Error::InvalidLastSymbol { offset, byte } => "Invalid last symbol "@ + decimal(byte as nat)
                + ", offset "@ + decimal(offset as nat) + "."@,
            Base64Error::InvalidPadding => "Invalid padding"@,
        }
    }

    pub fn message(&self) -> (r: String)
        ensures
            r@ == self.words(),
    {
        match self {
            Base64Error::InvalidByte { offset, byte } => {
                let mut m = joined("Invalid symbol ", decimal_text(*byte as u64).as_str());
                m.append(", offset ");
                m.append(decimal_text(*offset as u64).as_str());
                m.append(".");
                m
            },
            Base64Error::InvalidLength { len } => joined(
                "Invalid input length: ",
                decimal_text(*len as u64).as_str(),
            ),
            Base64Error::InvalidLastSymbol { offset, byte } => {
                let mut m = joined("Invalid last symbol ", decimal_text(*byte as u64).as_str());
                m.append(", offset ");
                m.append(decimal_text(*offset as u64).as_str());
                m.append(".");
                m
            },
            Base64Error::InvalidPadding => "Invalid padding".to_owned(),
        }
    }
}

/// Why a text is not an account address.
#[derive(Clone, Copy, Debug, PartialEq, Eq, Structural)]
pub enum AddressError {
    WrongSize,
    Invalid,
}

/// The base64 text of some bytes.
pub uninterp spec fn base64_text(data: Seq<u8>) -> Seq<char>;

/// The bytes of a base64 text, or why it has none.
pub uninterp spec fn base64_bytes(text: Seq<char>) -> Result<Seq<u8>, Base64Error>;

/// The base58 text of some bytes.
pub uninterp spec fn base58_text(data: Seq<u8>) -> Seq<char>;

/// The text of an account address.
pub uninterp spec fn address_text(key: Seq<u8>) -> Seq<char>;

/// The account address of a text, or why it has none.
pub uninterp spec fn address_bytes(text: Seq<char>) -> Result<Seq<u8>, AddressError>;

/// `base64::Engine::encode` of the standard engine with padding. Its text is
/// fixed by the bytes, and decodes to them again. Twice the bytes must have
/// room in memory.
#[verifier::external_body]
pub(crate) fn encode_base64(data: &[u8]) -> (r: String)
    requires
        data@.len() <= usize::MAX / 4,
    ensures
        r@ == base64_text(data@),
        base64_bytes(r@) is Ok && base64_bytes(r@)->Ok_0 == data@,
{
    STANDARD.encode(data)
}

/// `base64::Engine::decode` of the standard engine with padding. What it
/// returns is fixed by the text: the bytes, or the variant of its error with
/// the offset, the symbol or the length that it names.
#[verifier::external_body]
pub(crate) fn decode_base64(text: &str) -> (r: Result<Vec<u8>, Base64Error>)
    ensures
        r is Ok == base64_bytes(text@) is Ok,
        r is Ok ==> r->Ok_0@ == base64_bytes(text@)->Ok_0,
        r is Err ==> r->Err_0 == base64_bytes(text@)->Err_0,
{
    STANDARD.decode(text).map_err(
        |e| match e {
            base64::DecodeError::InvalidByte(offset, byte) => Base64Error::InvalidByte { offset, byte },
            base64::DecodeError::InvalidLength(len) => Base64Error::InvalidLength { len },
            base64::DecodeError::InvalidLastSymbol(offset, byte) => Base64Error::InvalidLastSymbol {
                offset,
                byte,
            },
            base64::DecodeError::InvalidPadding => Base64Error::InvalidPadding,
        },
    )
}

/// `bs58::encode` with its default alphabet, into a text that is fixed by the
/// bytes. Twice the bytes must have room in memory.
#[verifier::external_body]
pub(crate) fn encode_base58(data: &[u8]) -> (r: String)
    requires
        data@.len() <= usize::MAX / 4,
    ensures
        r@ == base58_text(data@),
{
    bs58::encode(data).into_string()
}

/// The `Display` of `solana_pubkey::Pubkey`: a text that is fixed by the 32
/// bytes of the address.
#[verifier::external_body]
pub(crate) fn address_to_text(key: &[u8; 32]) -> (r: String)
    ensures
        r@ == address_text(key@),
{
    Pubkey::new_from_array(*key).to_string()
}

/// `Pubkey::from_str` of `solana_pubkey`. What it returns is fixed by the
/// text: the 32 bytes of the address, or the variant of its error.
#[verifier::external_body]
pub(crate) fn parse_address(text: &str) -> (r: Result<[u8; 32], AddressError>)
    ensures
        r is Ok == address_bytes(text@) is Ok,
        r is Ok ==> r->Ok_0@ == address_bytes(text@)->Ok_0,
        r is Err ==> r->Err_0 == address_bytes(text@)->Err_0,
{
    match Pubkey::from_str(text) {
        Ok(key) => Ok(key.to_bytes()),
        Err(ParsePubkeyError::WrongSize) => Err(AddressError::WrongSize),
        Err(ParsePubkeyError::Invalid) => Err(AddressError::Invalid),
    }
}

}
