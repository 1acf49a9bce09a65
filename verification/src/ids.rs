//! Entity identifiers.
//!
//! Every record (project, asset, issue, burn, order) is keyed by a
//! 256-bit content hash of its defining fields plus a caller-supplied
//! salt, so identifiers are reproducible but not guessable, and a
//! collision is rejected as a duplicate key.

use vstd::prelude::*;

verus! {

/// A 256-bit identifier, held as four words so that equality is structural.
#[derive(Clone, Copy, PartialEq, Eq, Structural, Debug)]
pub struct Id {
    pub w0: u64,
    pub w1: u64,
    pub w2: u64,
    pub w3: u64,
}

impl Id {
    /// The all-zero identifier; it denotes the settlement currency.
    pub open spec fn zero_spec() -> Id {
        Id { w0: 0, w1: 0, w2: 0, w3: 0 }
    }

    /// The all-zero identifier; it denotes the settlement currency.
    pub fn zero() -> (r: Id)
        ensures
            r == Id::zero_spec(),
    {
        Id { w0: 0, w1: 0, w2: 0, w3: 0 }
    }
}

/// The identifier a project submission derives from its fields.
pub uninterp spec fn project_id_of(owner: u64, symbol: Seq<u8>, max_supply: u64, additional: Seq<u8>) -> Id;

/// The identifier an asset submission derives from its fields.
pub uninterp spec fn asset_id_of(owner: u64, project_id: Id, vintage: Seq<u8>, initial_supply: u64, additional: Seq<u8>) -> Id;

/// The identifier an issue submission derives from its fields.
pub uninterp spec fn issue_id_of(owner: u64, asset_id: Id, amount: u64, additional: Seq<u8>) -> Id;

/// The identifier a burn submission derives from its fields.
pub uninterp spec fn burn_id_of(owner: u64, asset_id: Id, amount: u64, additional: Seq<u8>) -> Id;

/// The identifier an order derives from its fields and salt.
pub uninterp spec fn order_id_of(maker: u64, asset_id: Id, money_id: Id, price: u64, amount: u64, direction: u8, salt: u64) -> Id;

/// Relies on sp_crypto_hashing::blake2_256 over the SCALE encoding
/// (parity_scale_codec::Encode) of the tagged field tuple: the digest is a
/// function of the fields alone. The encoder length-prefixes each byte
/// vector and panics past u32::MAX elements, so such inputs are left out.
#[verifier::external_body]
pub(crate) fn derive_project_id(owner: u64, symbol: &Vec<u8>, max_supply: u64, additional: &Vec<u8>) -> (r: Id)
    requires
        symbol@.len() <= u32::MAX,
        additional@.len() <= u32::MAX,
    ensures
        r == project_id_of(owner, symbol@, max_supply, additional@),
{
    let bytes = parity_scale_codec::Encode::encode(&(b"project", owner, symbol, max_supply, additional));
    let h = sp_crypto_hashing::blake2_256(&bytes);
    Id {
        w0: u64::from_le_bytes(h[0..8].try_into().unwrap()),
        w1: u64::from_le_bytes(h[8..16].try_into().unwrap()),
        w2: u64::from_le_bytes(h[16..24].try_into().unwrap()),
        w3: u64::from_le_bytes(h[24..32].try_into().unwrap()),
    }
}

/// Relies on sp_crypto_hashing::blake2_256 over the SCALE encoding
/// (parity_scale_codec::Encode) of the tagged field tuple: the digest is a
/// function of the fields alone. The encoder length-prefixes each byte
/// vector and panics past u32::MAX elements, so such inputs are left out.
#[verifier::external_body]
pub(crate) fn derive_asset_id(owner: u64, project_id: Id, vintage: &Vec<u8>, initial_supply: u64, additional: &Vec<u8>) -> (r: Id)
    requires
        vintage@.len() <= u32::MAX,
        additional@.len() <= u32::MAX,
    ensures
        r == asset_id_of(owner, project_id, vintage@, initial_supply, additional@),
{
    let pid = (project_id.w0, project_id.w1, project_id.w2, project_id.w3);
    let bytes = parity_scale_codec::Encode::encode(&(b"asset", owner, pid, vintage, initial_supply, additional));
    let h = sp_crypto_hashing::blake2_256(&bytes);
    Id {
        w0: u64::from_le_bytes(h[0..8].try_into().unwrap()),
        w1: u64::from_le_bytes(h[8..16].try_into().unwrap()),
        w2: u64::from_le_bytes(h[16..24].try_into().unwrap()),
        w3: u64::from_le_bytes(h[24..32].try_into().unwrap()),
    }
}

/// Relies on sp_crypto_hashing::blake2_256 over the SCALE encoding
/// (parity_scale_codec::Encode) of the tagged field tuple: the digest is a
/// function of the fields alone. The encoder length-prefixes the byte
/// vector and panics past u32::MAX elements, so such inputs are left out.
#[verifier::external_body]
pub(crate) fn derive_issue_id(owner: u64, asset_id: Id, amount: u64, additional: &Vec<u8>) -> (r: Id)
    requires
        additional@.len() <= u32::MAX,
    ensures
        r == issue_id_of(owner, asset_id, amount, additional@),
{
    let aid = (asset_id.w0, asset_id.w1, asset_id.w2, asset_id.w3);
    let bytes = parity_scale_codec::Encode::encode(&(b"issue", owner, aid, amount, additional));
    let h = sp_crypto_hashing::blake2_256(&bytes);
    Id {
        w0: u64::from_le_bytes(h[0..8].try_into().unwrap()),
        w1: u64::from_le_bytes(h[8..16].try_into().unwrap()),
        w2: u64::from_le_bytes(h[16..24].try_into().unwrap()),
        w3: u64::from_le_bytes(h[24..32].try_into().unwrap()),
    }
}

/// Relies on sp_crypto_hashing::blake2_256 over the SCALE encoding
/// (parity_scale_codec::Encode) of the tagged field tuple: the digest is a
/// function of the fields alone. The encoder length-prefixes the byte
/// vector and panics past u32::MAX elements, so such inputs are left out.
#[verifier::external_body]
pub(crate) fn derive_burn_id(owner: u64, asset_id: Id, amount: u64, additional: &Vec<u8>) -> (r: Id)
    requires
        additional@.len() <= u32::MAX,
    ensures
        r == burn_id_of(owner, asset_id, amount, additional@),
{
    let aid = (asset_id.w0, asset_id.w1, asset_id.w2, asset_id.w3);
    let bytes = parity_scale_codec::Encode::encode(&(b"burn", owner, aid, amount, additional));
    let h = sp_crypto_hashing::blake2_256(&bytes);
    Id {
        w0: u64::from_le_bytes(h[0..8].try_into().unwrap()),
        w1: u64::from_le_bytes(h[8..16].try_into().unwrap()),
        w2: u64::from_le_bytes(h[16..24].try_into().unwrap()),
        w3: u64::from_le_bytes(h[24..32].try_into().unwrap()),
    }
}

/// Relies on sp_crypto_hashing::blake2_256 over the SCALE encoding
/// (parity_scale_codec::Encode) of the tagged field tuple: the digest is a
/// function of the fields alone.
#[verifier::external_body]
pub(crate) fn derive_order_id(maker: u64, asset_id: Id, money_id: Id, price: u64, amount: u64, direction: u8, salt: u64) -> (r: Id)
    ensures
        r == order_id_of(maker, asset_id, money_id, price, amount, direction, salt),
{
    let aid = (asset_id.w0, asset_id.w1, asset_id.w2, asset_id.w3);
    let mid = (money_id.w0, money_id.w1, money_id.w2, money_id.w3);
    let bytes = parity_scale_codec::Encode::encode(&(b"order", maker, aid, mid, price, amount, direction, salt));
    let h = sp_crypto_hashing::blake2_256(&bytes);
    Id {
        w0: u64::from_le_bytes(h[0..8].try_into().unwrap()),
        w1: u64::from_le_bytes(h[8..16].try_into().unwrap()),
        w2: u64::from_le_bytes(h[16..24].try_into().unwrap()),
        w3: u64::from_le_bytes(h[24..32].try_into().unwrap()),
    }
}

} // verus!
