use vstd::prelude::*;

verus! {

/// The address, as `0x` and forty lowercase hex digits, of the wallet whose
/// private key `key` spells, or `None` when `key` is no valid private key.
pub uninterp spec fn key_address(key: Seq<char>) -> Option<Seq<char>>;

/// Relies on ethers' `LocalWallet::from_str`, which reads a hex secp256k1
/// secret key, and on `Signer::address`, written with `{:#x}`: `0x` and the
/// twenty address bytes as lowercase hex.
#[verifier::external_body]
fn wallet_address(key: &str) -> (r: Option<String>)
    ensures
        match key_address(key@) {
            Some(a) => r matches Some(s) && s@ == a && a.len() == 42,
            None => r is None,
        },
{
    match key.parse::<ethers::signers::LocalWallet>() {
        Ok(w) => Some(format!("{:#x}", ethers::signers::Signer::address(&w))),
        Err(_) => None,
    }
}

pub open spec fn invalid_key_text() -> Seq<char> {
    "Invalid private key"@
}

/// The wallet address a private key controls, or `"Invalid private key"`.
pub fn derive_address_from_private_key(private_key: String) -> (r: String)
    ensures
        r@ == match key_address(private_key@) {
            Some(a) => a,
            None => invalid_key_text(),
        },
{
    match wallet_address(private_key.as_str()) {
        Some(a) => a,
        None => String::from_str("Invalid private key"),
    }
}

} // verus!
