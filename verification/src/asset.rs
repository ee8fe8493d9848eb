//! Assets that can be deposited and delegated: a custom asset by id, or an
//! ERC20 token by its contract address.
use crate::keyed_map::MapKey;
use vstd::prelude::*;

verus! {

/// A 20-byte EVM address.
#[derive(Clone, Copy, Debug, PartialEq, Eq)]
pub struct H160(pub [u8; 20]);

impl MapKey for H160 {
    fn same(&self, other: &Self) -> (r: bool) {
        let mut i: usize = 0;
        while i < 20
            invariant
                i <= 20,
                forall|j: int| 0 <= j < i ==> self.0@[j] == other.0@[j],
            decreases 20 - i,
        {
            if self.0[i] != other.0[i] {
                return false;
            }
            i = i + 1;
        }
        proof {
            broadcast use vstd::array::group_array_axioms;
            assert(self.0@ =~= other.0@);
            assert(self.0 == other.0);
        }
        true
    }
}

/// An asset that can be deposited: a custom asset or an ERC20 token.
#[derive(Clone, Copy, Debug, PartialEq, Eq)]
pub enum Asset {
    /// The asset with this id.
    Custom(u64),
    /// The ERC20 token at this contract address.
    Erc20(H160),
}

impl MapKey for Asset {
    fn same(&self, other: &Self) -> (r: bool) {
        match (self, other) {
            (Asset::Custom(a), Asset::Custom(b)) => *a == *b,
            (Asset::Erc20(a), Asset::Erc20(b)) => a.same(b),
            _ => false,
        }
    }
}

impl Asset {
    /// Whether the asset is an ERC20 token.
    pub fn is_erc20(&self) -> (r: bool)
        ensures
            r == (*self is Erc20),
    {
        match self {
            Asset::Erc20(_) => true,
            _ => false,
        }
    }

    /// Whether the asset is a custom asset.
    pub fn is_custom(&self) -> (r: bool)
        ensures
            r == (*self is Custom),
    {
        match self {
            Asset::Custom(_) => true,
            _ => false,
        }
    }

    /// The contract address of an ERC20 token.
    pub fn erc20_address(&self) -> (r: Option<H160>)
        ensures
            r == (match *self {
                Asset::Erc20(a) => Some(a),
                Asset::Custom(_) => None::<H160>,
            }),
    {
        match self {
            Asset::Erc20(address) => Some(*address),
            _ => None,
        }
    }

    /// The id of a custom asset.
    pub fn custom_id(&self) -> (r: Option<&u64>)
        ensures
            r == (match *self {
                Asset::Custom(id) => Some(&id),
                Asset::Erc20(_) => None::<&u64>,
            }),
    {
        match self {
            Asset::Custom(id) => Some(id),
            _ => None,
        }
    }

    /// The default asset: the custom asset with id zero.
    pub fn default_asset() -> (r: Asset)
        ensures
            r == Asset::Custom(0),
    {
        Asset::Custom(0)
    }
}

} // verus!
