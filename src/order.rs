//! The order module: an admin-gated book of market orders.

use vstd::prelude::*;
use std::collections::HashMap;
use crate::address::Address;

verus! {

broadcast use vstd::std_specs::hash::group_hash_axioms;

/// The id under which a submitted order is stored.
pub const ORDER_ID: u64 = 12345678;

/// A call to the order module.
#[derive(Debug, PartialEq, Eq)]
pub enum CallMessage {
    /// Places a market order.
    NewMarketOrder {
        /// Asset to order.
        order_asset: String,
        /// Asset to price the order in.
        price_asset: String,
        /// 0 = bid, 1 = ask.
        side: u32,
        /// Quantity.
        qty: u64,
        /// Timestamp.
        ts: u64,
    },
}

impl CallMessage {
    /// A copy of this message.
    pub fn duplicate(&self) -> (r: CallMessage)
        ensures
            r == *self,
    {
        match self {
            CallMessage::NewMarketOrder { order_asset, price_asset, side, qty, ts } => {
                CallMessage::NewMarketOrder {
                    order_asset: order_asset.clone(),
                    price_asset: price_asset.clone(),
                    side: *side,
                    qty: *qty,
                    ts: *ts,
                }
            },
        }
    }
}

/// Why an order was refused.
#[derive(Debug, Clone, Copy, PartialEq, Eq, Structural)]
pub enum OrderError {
    /// The module has no admin yet.
    MissingAdmin,
    /// Only the admin can create new orders.
    WrongSender,
}

/// Initial configuration of the order module.
#[derive(Debug, Clone, Copy)]
pub struct OrderModuleConfig {
    /// The admin of the module.
    pub admin: Address,
}

/// The answer to an order query.
#[derive(Debug, PartialEq, Eq)]
pub struct Response {
    /// The stored order.
    pub order: CallMessage,
}

/// The order module's state.
#[derive(Debug)]
pub struct OrderModule {
    /// Address of the module.
    pub address: Address,
    orders: HashMap<u64, CallMessage>,
    admin: Option<Address>,
}

impl OrderModule {
    /// The module's address.
    pub closed spec fn module_address(&self) -> Seq<u8> {
        self.address@
    }

    pub closed spec fn orders(&self) -> Map<u64, CallMessage> {
        self.orders@
    }

    pub closed spec fn admin(&self) -> Option<Seq<u8>> {
        match self.admin {
            Some(a) => Some(a@),
            None => None,
        }
    }

    /// A module at `address` with no admin and no orders.
    pub fn new(address: Address) -> (r: OrderModule)
        ensures
            r.module_address() == address@,
            r.orders() == Map::<u64, CallMessage>::empty(),
            r.admin() is None,
    {
        OrderModule { address, orders: HashMap::new(), admin: None }
    }

    /// Initializes the module with the configured admin.
    pub fn init_module(&mut self, admin_config: &OrderModuleConfig)
        ensures
            final(self).admin() == Some(admin_config.admin@),
            final(self).orders() == old(self).orders(),
            final(self).module_address() == old(self).module_address(),
    {
        self.admin = Some(admin_config.admin);
    }

    /// Stores a market order under `ORDER_ID` when `sender` is the admin.
    pub fn submit_order(
        &mut self,
        order_asset: String,
        price_asset: String,
        side: u32,
        qty: u64,
        ts: u64,
        sender: &Address,
    ) -> (r: Result<(), OrderError>)
        ensures
            final(self).admin() == old(self).admin(),
            final(self).module_address() == old(self).module_address(),
            r == match old(self).admin() {
                None => Err(OrderError::MissingAdmin),
                Some(a) => if a == sender@ {
                    Ok(())
                } else {
                    Err(OrderError::WrongSender)
                },
            },
            r is Ok ==> final(self).orders() == old(self).orders().insert(
                ORDER_ID,
                CallMessage::NewMarketOrder { order_asset, price_asset, side, qty, ts },
            ),
            r is Err ==> final(self).orders() == old(self).orders(),
    {
        let admin = match &self.admin {
            None => return Err(OrderError::MissingAdmin),
            Some(a) => *a,
        };
        if !admin.same(sender) {
            return Err(OrderError::WrongSender);
        }
        let new_order = CallMessage::NewMarketOrder { order_asset, price_asset, side, qty, ts };
        self.orders.insert(ORDER_ID, new_order);
        Ok(())
    }

    /// Dispatches a call message from `sender`.
    pub fn call(&mut self, msg: CallMessage, sender: &Address) -> (r: Result<(), OrderError>)
        ensures
            final(self).admin() == old(self).admin(),
            r == match old(self).admin() {
                None => Err(OrderError::MissingAdmin),
                Some(a) => if a == sender@ {
                    Ok(())
                } else {
                    Err(OrderError::WrongSender)
                },
            },
            r is Ok ==> final(self).orders() == old(self).orders().insert(ORDER_ID, msg),
            r is Err ==> final(self).orders() == old(self).orders(),
    {
        match msg {
            CallMessage::NewMarketOrder { order_asset, price_asset, side, qty, ts } => {
                self.submit_order(order_asset, price_asset, side, qty, ts, sender)
            },
        }
    }

    /// The order stored under `id`, if any.
    pub fn query_order(&self, id: u64) -> (r: Option<Response>)
        ensures
            match r {
                Some(resp) => self.orders().contains_key(id) && resp.order == self.orders()[id],
                None => !self.orders().contains_key(id),
            },
    {
        match self.orders.get(&id) {
            None => None,
            Some(order) => Some(Response { order: order.duplicate() }),
        }
    }
}

} // verus!
