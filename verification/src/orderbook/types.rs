//! Orders, resource requests and operator offerings.
use crate::keyed_map::{Duplicate, MapKey};
use vstd::prelude::*;

verus! {

/// An account.
pub type AccountId = u64;

/// An amount of the native currency.
pub type Balance = u128;

/// A block number.
pub type BlockNumber = u64;

/// The id of an order: a 32-byte hash.
pub type OrderId = [u8; 32];

/// Whether an order buys or sells resources.
#[derive(Clone, Copy, Debug, PartialEq, Eq, Structural)]
pub enum OrderType {
    /// A bid order from a service requester.
    Bid,
    /// An ask order from a service provider.
    Ask,
}

/// A kind of resource.
#[derive(Clone, Copy, Debug, PartialEq, Eq, Structural)]
pub enum ResourceType {
    Compute,
    Memory,
    Storage,
    Network,
}

/// Every kind of resource, in declaration order.
pub open spec fn all_resource_types() -> Seq<ResourceType> {
    seq![ResourceType::Compute, ResourceType::Memory, ResourceType::Storage, ResourceType::Network]
}

impl ResourceType {
    /// Every kind of resource, in declaration order.
    pub fn all() -> (r: Vec<ResourceType>)
        ensures
            r@ == all_resource_types(),
    {
        let r = vec![
            ResourceType::Compute,
            ResourceType::Memory,
            ResourceType::Storage,
            ResourceType::Network,
        ];
        assert(r@ =~= all_resource_types());
        r
    }

    /// The position of the kind in its declaration.
    pub fn index(&self) -> (r: u8)
        ensures
            r == resource_index(*self),
    {
        match self {
            ResourceType::Compute => 0,
            ResourceType::Memory => 1,
            ResourceType::Storage => 2,
            ResourceType::Network => 3,
        }
    }
}

/// The position of a resource kind in its declaration.
pub open spec fn resource_index(r: ResourceType) -> u8 {
    match r {
        ResourceType::Compute => 0,
        ResourceType::Memory => 1,
        ResourceType::Storage => 2,
        ResourceType::Network => 3,
    }
}

/// A price for a kind of resource: the key under which orders are listed.
#[derive(Clone, Copy, Debug, PartialEq, Eq, Structural)]
pub struct PricePoint {
    pub resource_type: ResourceType,
    pub price: Balance,
}

impl MapKey for PricePoint {
    fn same(&self, other: &Self) -> (r: bool) {
        self.resource_type == other.resource_type && self.price == other.price
    }
}

/// An amount of a resource at a price.
#[derive(Clone, Copy, Debug, PartialEq, Eq, Structural)]
pub struct ResourceRequest {
    pub resource_type: ResourceType,
    pub amount: Balance,
    pub price: Balance,
}

/// The key of a stored order: its owner and its id.
#[derive(Clone, Copy, Debug, PartialEq, Eq)]
pub struct OrderKey {
    pub owner: AccountId,
    pub id: OrderId,
}

impl MapKey for OrderKey {
    fn same(&self, other: &Self) -> (r: bool) {
        if self.owner != other.owner {
            return false;
        }
        let mut i: usize = 0;
        while i < 32
            invariant
                i <= 32,
                forall|j: int| 0 <= j < i ==> self.id@[j] == other.id@[j],
            decreases 32 - i,
        {
            if self.id[i] != other.id[i] {
                return false;
            }
            i = i + 1;
        }
        proof {
            broadcast use vstd::array::group_array_axioms;

            assert(self.id@ =~= other.id@);
            assert(self.id == other.id);
        }
        true
    }
}

/// Whether two order ids are equal.
pub fn same_id(a: &OrderId, b: &OrderId) -> (r: bool)
    ensures
        r == (*a == *b),
{
    OrderKey { owner: 0, id: *a }.same(&OrderKey { owner: 0, id: *b })
}

/// An order.
#[derive(Debug)]
pub struct Order {
    pub owner: AccountId,
    pub order_type: OrderType,
    /// For Ask orders, every kind of resource.
    pub resources: Vec<ResourceRequest>,
    pub total_amount: Balance,
    pub filled_amount: Balance,
    pub created_at: BlockNumber,
    /// For Ask orders, the operator that offers the resources.
    pub operator_id: Option<AccountId>,
}

/// The abstract value of an [`Order`].
pub struct OrderView {
    pub owner: AccountId,
    pub order_type: OrderType,
    pub resources: Seq<ResourceRequest>,
    pub total_amount: Balance,
    pub filled_amount: Balance,
    pub created_at: BlockNumber,
    pub operator_id: Option<AccountId>,
}

impl View for Order {
    type V = OrderView;

    open spec fn view(&self) -> OrderView {
        OrderView {
            owner: self.owner,
            order_type: self.order_type,
            resources: self.resources@,
            total_amount: self.total_amount,
            filled_amount: self.filled_amount,
            created_at: self.created_at,
            operator_id: self.operator_id,
        }
    }
}

/// Copies a list of resource requests.
pub fn copy_requests(v: &Vec<ResourceRequest>) -> (r: Vec<ResourceRequest>)
    ensures
        r@ == v@,
{
    let mut r: Vec<ResourceRequest> = Vec::new();
    let mut i: usize = 0;
    while i < v.len()
        invariant
            i <= v@.len(),
            r@ == v@.take(i as int),
        decreases v@.len() - i,
    {
        r.push(v[i]);
        proof {
            assert(v@.take(i as int + 1) =~= v@.take(i as int).push(v@[i as int]));
        }
        i = i + 1;
    }
    proof {
        assert(v@.take(v@.len() as int) =~= v@);
    }
    r
}

/// Copies a list of order ids.
pub fn copy_ids(v: &Vec<OrderId>) -> (r: Vec<OrderId>)
    ensures
        r@ == v@,
{
    let mut r: Vec<OrderId> = Vec::new();
    let mut i: usize = 0;
    while i < v.len()
        invariant
            i <= v@.len(),
            r@ == v@.take(i as int),
        decreases v@.len() - i,
    {
        r.push(v[i]);
        proof {
            assert(v@.take(i as int + 1) =~= v@.take(i as int).push(v@[i as int]));
        }
        i = i + 1;
    }
    proof {
        assert(v@.take(v@.len() as int) =~= v@);
    }
    r
}

impl Duplicate for Order {
    fn duplicate(&self) -> (r: Order) {
        Order {
            owner: self.owner,
            order_type: self.order_type,
            resources: copy_requests(&self.resources),
            total_amount: self.total_amount,
            filled_amount: self.filled_amount,
            created_at: self.created_at,
            operator_id: self.operator_id,
        }
    }
}

impl Duplicate for Vec<OrderId> {
    fn duplicate(&self) -> (r: Vec<OrderId>) {
        copy_ids(self)
    }
}

/// A match of a taker order against a maker order, over all resources.
#[derive(Debug)]
pub struct OrderMatch {
    pub maker_id: OrderId,
    pub maker_owner: AccountId,
    pub taker_id: OrderId,
    pub taker_owner: AccountId,
    /// Each matched resource with its amount and price.
    pub resources: Vec<(ResourceType, Balance, Balance)>,
    pub total_price: Balance,
}

/// The abstract value of an [`OrderMatch`].
pub struct OrderMatchView {
    pub maker_id: OrderId,
    pub maker_owner: AccountId,
    pub taker_id: OrderId,
    pub taker_owner: AccountId,
    pub resources: Seq<(ResourceType, Balance, Balance)>,
    pub total_price: Balance,
}

impl View for OrderMatch {
    type V = OrderMatchView;

    open spec fn view(&self) -> OrderMatchView {
        OrderMatchView {
            maker_id: self.maker_id,
            maker_owner: self.maker_owner,
            taker_id: self.taker_id,
            taker_owner: self.taker_owner,
            resources: self.resources@,
            total_price: self.total_price,
        }
    }
}

/// A service request with all the resources it needs.
#[derive(Debug)]
pub struct ServiceRequest {
    pub resources: Vec<ResourceRequest>,
    pub operator_id: Option<AccountId>,
    pub min_duration: BlockNumber,
    pub max_price: Balance,
}

/// The resources that an operator offers.
#[derive(Debug)]
pub struct ResourceOffering {
    pub operator_id: AccountId,
    pub resources: Vec<ResourceRequest>,
    pub min_duration: BlockNumber,
    pub collateral: Balance,
}

/// The abstract value of a [`ResourceOffering`].
pub struct ResourceOfferingView {
    pub operator_id: AccountId,
    pub resources: Seq<ResourceRequest>,
    pub min_duration: BlockNumber,
    pub collateral: Balance,
}

impl View for ResourceOffering {
    type V = ResourceOfferingView;

    open spec fn view(&self) -> ResourceOfferingView {
        ResourceOfferingView {
            operator_id: self.operator_id,
            resources: self.resources@,
            min_duration: self.min_duration,
            collateral: self.collateral,
        }
    }
}

impl Duplicate for ResourceOffering {
    fn duplicate(&self) -> (r: ResourceOffering) {
        ResourceOffering {
            operator_id: self.operator_id,
            resources: copy_requests(&self.resources),
            min_duration: self.min_duration,
            collateral: self.collateral,
        }
    }
}

} // verus!
