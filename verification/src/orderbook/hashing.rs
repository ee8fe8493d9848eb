//! Order ids: the Blake2-256 hash of a SCALE encoding, as the runtime's
//! hasher computes them.
use super::types::{AccountId, BlockNumber, OrderId, ResourceRequest};
use vstd::prelude::*;

verus! {

/// What `parity_scale_codec::Encode::encode` returns for the tuple
/// `(owner, block, resources)`.
pub uninterp spec fn scale_of_seed(owner: u64, block: u64, resources: Seq<(u8, u128, u128)>) -> Seq<u8>;

/// What `sp_crypto_hashing::blake2_256` returns for `data`.
pub uninterp spec fn blake2_256_of(data: Seq<u8>) -> [u8; 32];

/// `parity_scale_codec::Encode::encode` of `(owner, block, resources)`: the
/// result is named, as a function of the arguments alone.
#[verifier::external_body]
fn encode_seed(owner: u64, block: u64, resources: &Vec<(u8, u128, u128)>) -> (r: Vec<u8>)
    ensures
        r@ == scale_of_seed(owner, block, resources@),
{
    parity_scale_codec::Encode::encode(&(owner, block, resources))
}

/// `sp_crypto_hashing::blake2_256`: the 256-bit Blake2b hash of `data`; the
/// result is named, as a function of the bytes alone.
#[verifier::external_body]
fn blake2_256(data: &Vec<u8>) -> (r: [u8; 32])
    ensures
        r == blake2_256_of(data@),
{
    sp_crypto_hashing::blake2_256(data.as_slice())
}

/// A resource request as the plain values it is encoded from: the index of
/// its kind, its amount and its price.
pub open spec fn request_fields(r: ResourceRequest) -> (u8, u128, u128) {
    (super::types::resource_index(r.resource_type), r.amount, r.price)
}

/// The plain values of a list of resource requests.
pub open spec fn requests_fields(rs: Seq<ResourceRequest>) -> Seq<(u8, u128, u128)> {
    rs.map_values(|r: ResourceRequest| request_fields(r))
}

fn plain_requests(rs: &Vec<ResourceRequest>) -> (r: Vec<(u8, u128, u128)>)
    ensures
        r@ == requests_fields(rs@),
{
    let mut out: Vec<(u8, u128, u128)> = Vec::new();
    let mut i: usize = 0;
    while i < rs.len()
        invariant
            i <= rs@.len(),
            out@ == requests_fields(rs@.take(i as int)),
        decreases rs@.len() - i,
    {
        let q = rs[i];
        out.push((q.resource_type.index(), q.amount, q.price));
        proof {
            assert(rs@.take(i as int + 1) =~= rs@.take(i as int).push(q));
            assert(out@ =~= requests_fields(rs@.take(i as int + 1)));
        }
        i = i + 1;
    }
    proof {
        assert(rs@.take(rs@.len() as int) =~= rs@);
    }
    out
}

/// The id of an order placed by `owner` in block `now` for `resources`.
pub open spec fn order_id_of(owner: AccountId, now: BlockNumber, resources: Seq<ResourceRequest>) -> OrderId {
    blake2_256_of(scale_of_seed(owner, now, requests_fields(resources)))
}

/// The id of an order placed by `owner` in block `now` for `resources`.
pub fn order_id(owner: AccountId, now: BlockNumber, resources: &Vec<ResourceRequest>) -> (r: OrderId)
    ensures
        r == order_id_of(owner, now, resources@),
{
    let plain = plain_requests(resources);
    let bytes = encode_seed(owner, now, &plain);
    blake2_256(&bytes)
}

} // verus!
