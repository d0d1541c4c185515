use vstd::prelude::*;
use crate::data::Tick;

verus! {

/// What travels through the engine's queue. Events are handled strictly in
/// the order in which they were enqueued.
#[derive(Clone, Copy, Debug)]
pub enum Event {
    /// A new tick; enqueued once per input tick.
    Market(Tick),
    /// The strategy wants to be long (`long`) or flat.
    Signal(SignalEvent),
    /// The quantity to trade to reach the wanted position.
    Order(OrderEvent),
    /// An executed trade.
    Fill(FillEvent),
}

/// The strategy asks to be long, or to be flat.
#[derive(Clone, Copy, Debug)]
pub struct SignalEvent {
    pub ts: i64,
    pub long: bool,
}

/// An order to buy (`long`) or to sell `size` units.
#[derive(Clone, Copy, Debug)]
pub struct OrderEvent {
    pub ts: i64,
    pub long: bool,
    pub size: i32,
}

/// A trade of `size` units at `price`, bought (`long`) or sold, and what it
/// cost in commission.
#[derive(Clone, Copy, Debug)]
pub struct FillEvent {
    pub ts: i64,
    pub long: bool,
    pub size: i32,
    pub price: i32,
    pub commission: i64,
}

} // verus!
