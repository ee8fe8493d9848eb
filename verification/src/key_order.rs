//! The order in which the pallets walk keys made of an account and an asset:
//! by account, then custom assets by id before ERC20 tokens by address, with
//! addresses compared byte by byte.
use crate::asset::{Asset, H160};
use vstd::prelude::*;

verus! {

/// Lexicographic order on byte strings.
pub open spec fn bytes_lt(x: Seq<u8>, y: Seq<u8>) -> bool
    decreases x.len(),
{
    if x.len() == 0 || y.len() == 0 {
        x.len() < y.len()
    } else if x[0] != y[0] {
        x[0] < y[0]
    } else {
        bytes_lt(x.drop_first(), y.drop_first())
    }
}

/// The order on assets.
pub open spec fn asset_lt(a: Asset, b: Asset) -> bool {
    match (a, b) {
        (Asset::Custom(x), Asset::Custom(y)) => x < y,
        (Asset::Custom(_), Asset::Erc20(_)) => true,
        (Asset::Erc20(_), Asset::Custom(_)) => false,
        (Asset::Erc20(x), Asset::Erc20(y)) => bytes_lt(x.0@, y.0@),
    }
}

/// The order on keys made of an account and an asset.
pub open spec fn key_lt(a: (u64, Asset), b: (u64, Asset)) -> bool {
    a.0 < b.0 || (a.0 == b.0 && asset_lt(a.1, b.1))
}

/// `ks` is strictly increasing.
pub open spec fn strictly_sorted(ks: Seq<(u64, Asset)>) -> bool {
    forall|i: int, j: int| 0 <= i < j < ks.len() ==> key_lt(#[trigger] ks[i], #[trigger] ks[j])
}

pub proof fn lemma_bytes_irreflexive(x: Seq<u8>)
    ensures
        !bytes_lt(x, x),
    decreases x.len(),
{
    if x.len() > 0 {
        lemma_bytes_irreflexive(x.drop_first());
    }
}

pub proof fn lemma_bytes_transitive(x: Seq<u8>, y: Seq<u8>, z: Seq<u8>)
    requires
        bytes_lt(x, y),
        bytes_lt(y, z),
    ensures
        bytes_lt(x, z),
    decreases x.len(),
{
    if x.len() > 0 && y.len() > 0 && z.len() > 0 && x[0] == y[0] && y[0] == z[0] {
        lemma_bytes_transitive(x.drop_first(), y.drop_first(), z.drop_first());
    }
}

pub proof fn lemma_bytes_total(x: Seq<u8>, y: Seq<u8>)
    requires
        x.len() == y.len(),
        x != y,
    ensures
        bytes_lt(x, y) || bytes_lt(y, x),
    decreases x.len(),
{
    if x.len() == 0 {
        assert(x =~= y);
    } else if x[0] == y[0] {
        if x.drop_first() == y.drop_first() {
            assert(x =~= y) by {
                assert forall|i: int| 0 <= i < x.len() implies x[i] == y[i] by {
                    if i > 0 {
                        assert(x[i] == x.drop_first()[i - 1]);
                        assert(y[i] == y.drop_first()[i - 1]);
                    }
                }
            }
        } else {
            lemma_bytes_total(x.drop_first(), y.drop_first());
        }
    }
}

pub proof fn lemma_bytes_asymmetric(x: Seq<u8>, y: Seq<u8>)
    requires
        bytes_lt(x, y),
    ensures
        !bytes_lt(y, x),
    decreases x.len(),
{
    if x.len() > 0 && y.len() > 0 && x[0] == y[0] {
        lemma_bytes_asymmetric(x.drop_first(), y.drop_first());
    }
}

/// Two addresses with the same bytes are the same address.
pub proof fn lemma_address_eq(a: H160, b: H160)
    requires
        a.0@ == b.0@,
    ensures
        a == b,
{
    broadcast use vstd::array::group_array_axioms;

    assert(a.0 =~= b.0);
}

pub proof fn lemma_asset_total(a: Asset, b: Asset)
    requires
        a != b,
    ensures
        asset_lt(a, b) || asset_lt(b, a),
{
    if let (Asset::Erc20(x), Asset::Erc20(y)) = (a, b) {
        if x.0@ == y.0@ {
            lemma_address_eq(x, y);
        }
        lemma_bytes_total(x.0@, y.0@);
    }
}

/// The order on keys is a strict total order.
pub proof fn lemma_key_order(a: (u64, Asset), b: (u64, Asset), c: (u64, Asset))
    ensures
        !key_lt(a, a),
        key_lt(a, b) ==> !key_lt(b, a),
        key_lt(a, b) && key_lt(b, c) ==> key_lt(a, c),
        a != b ==> key_lt(a, b) || key_lt(b, a),
{
    if let Asset::Erc20(x) = a.1 {
        lemma_bytes_irreflexive(x.0@);
    }
    if let (Asset::Erc20(x), Asset::Erc20(y)) = (a.1, b.1) {
        if bytes_lt(x.0@, y.0@) {
            lemma_bytes_asymmetric(x.0@, y.0@);
        }
    }
    if let (Asset::Erc20(x), Asset::Erc20(y), Asset::Erc20(z)) = (a.1, b.1, c.1) {
        if bytes_lt(x.0@, y.0@) && bytes_lt(y.0@, z.0@) {
            lemma_bytes_transitive(x.0@, y.0@, z.0@);
        }
    }
    if a != b && a.0 == b.0 {
        lemma_asset_total(a.1, b.1);
    }
}

/// Whether `a` comes before `b` in byte order.
pub fn bytes_less(a: &[u8; 20], b: &[u8; 20]) -> (r: bool)
    ensures
        r == bytes_lt(a@, b@),
{
    let mut i: usize = 0;
    proof {
        assert(a@.skip(0) =~= a@);
        assert(b@.skip(0) =~= b@);
    }
    while i < 20
        invariant
            i <= 20,
            a@.len() == 20,
            b@.len() == 20,
            bytes_lt(a@, b@) == bytes_lt(a@.skip(i as int), b@.skip(i as int)),
        decreases 20 - i,
    {
        let x = a[i];
        let y = b[i];
        proof {
            assert(a@.skip(i as int)[0] == x);
            assert(b@.skip(i as int)[0] == y);
            assert(a@.skip(i as int).drop_first() =~= a@.skip(i as int + 1));
            assert(b@.skip(i as int).drop_first() =~= b@.skip(i as int + 1));
        }
        if x != y {
            return x < y;
        }
        i = i + 1;
    }
    proof {
        assert(a@.skip(20).len() == 0);
    }
    false
}

/// Whether asset `a` comes before asset `b`.
pub fn asset_less(a: &Asset, b: &Asset) -> (r: bool)
    ensures
        r == asset_lt(*a, *b),
{
    match (a, b) {
        (Asset::Custom(x), Asset::Custom(y)) => *x < *y,
        (Asset::Custom(_), Asset::Erc20(_)) => true,
        (Asset::Erc20(_), Asset::Custom(_)) => false,
        (Asset::Erc20(x), Asset::Erc20(y)) => bytes_less(&x.0, &y.0),
    }
}

/// Whether key `a` comes before key `b`.
pub fn key_less(a: &(u64, Asset), b: &(u64, Asset)) -> (r: bool)
    ensures
        r == key_lt(*a, *b),
{
    a.0 < b.0 || (a.0 == b.0 && asset_less(&a.1, &b.1))
}

} // verus!
