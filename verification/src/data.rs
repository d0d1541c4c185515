use vstd::prelude::*;

verus! {

/// One timestamped observation of the instrument.
///
/// `ts` is in milliseconds since the Unix epoch, `price` in hundredths of the
/// currency unit. Callers supply ticks in non-decreasing timestamp order; the
/// engine does not check it.
#[derive(Clone, Copy, Debug)]
pub struct Tick {
    pub ts: i64,
    pub price: i32,
    pub volume: u64,
}

} // verus!
