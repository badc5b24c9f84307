//! Gas metering for transaction execution.

use vstd::prelude::*;
use crate::error::{Error, Result};

verus! {

/// Kinds of operation that cost gas.
#[derive(Debug, Clone, Copy, PartialEq, Eq)]
pub enum GasPrice {
    /// Reading a row
    ReadRow,
    /// Writing a row
    WriteRow,
    /// Scanning an index
    IndexScan,
    /// Scanning a whole table
    FullScan,
    /// General computation
    Compute,
}

/// Gas cost of each kind of operation.
#[derive(Debug, Clone, Copy, PartialEq, Eq)]
pub struct GasPrices {
    pub read_row: u64,
    pub write_row: u64,
    pub index_scan: u64,
    pub full_scan: u64,
    pub compute: u64,
}

impl GasPrices {
    /// The cost that these prices give to `price`.
    pub open spec fn cost(self, price: GasPrice) -> u64 {
        match price {
            GasPrice::ReadRow => self.read_row,
            GasPrice::WriteRow => self.write_row,
            GasPrice::IndexScan => self.index_scan,
            GasPrice::FullScan => self.full_scan,
            GasPrice::Compute => self.compute,
        }
    }

    /// The default price table.
    pub open spec fn spec_default() -> GasPrices {
        GasPrices { read_row: 100, write_row: 1000, index_scan: 50, full_scan: 500, compute: 1 }
    }

    fn get_cost(&self, price: GasPrice) -> (r: u64)
        ensures
            r == self.cost(price),
    {
        match price {
            GasPrice::ReadRow => self.read_row,
            GasPrice::WriteRow => self.write_row,
            GasPrice::IndexScan => self.index_scan,
            GasPrice::FullScan => self.full_scan,
            GasPrice::Compute => self.compute,
        }
    }
}

impl Default for GasPrices {
    fn default() -> (r: Self)
        ensures
            r == GasPrices::spec_default(),
    {
        GasPrices { read_row: 100, write_row: 1000, index_scan: 50, full_scan: 500, compute: 1 }
    }
}

/// Tracks the gas consumed by a transaction against its limit.
///
/// The gas used never exceeds the limit: a charge that would pass the limit
/// is refused and leaves the meter as it was.
#[derive(Debug)]
pub struct GasMeter {
    gas_used: u64,
    gas_limit: u64,
    prices: GasPrices,
}

/// Outcome of charging `cost` to a meter that has used `used` of `limit`.
pub open spec fn charge_outcome(used: u64, limit: u64, cost: u64) -> Result<u64> {
    if used + cost > u64::MAX {
        Err(Error::GasOverflow)
    } else if used + cost > limit {
        Err(Error::OutOfGas { used: (used + cost) as u64, limit })
    } else {
        Ok((used + cost) as u64)
    }
}

impl Clone for GasMeter {
    fn clone(&self) -> (r: Self)
        ensures
            r == *self,
    {
        proof { use_type_invariant(self); }
        GasMeter { gas_used: self.gas_used, gas_limit: self.gas_limit, prices: self.prices }
    }
}

impl GasMeter {
    #[verifier::type_invariant]
    spec fn within_limit(self) -> bool {
        self.gas_used <= self.gas_limit
    }

    /// Gas used so far.
    pub closed spec fn used(self) -> u64 {
        self.gas_used
    }

    /// The gas limit.
    pub closed spec fn limit(self) -> u64 {
        self.gas_limit
    }

    /// The price table.
    pub closed spec fn price_table(self) -> GasPrices {
        self.prices
    }

    /// A meter with the default prices and nothing used.
    pub fn new(gas_limit: u64) -> (r: Self)
        ensures
            r.used() == 0,
            r.limit() == gas_limit,
            r.price_table() == GasPrices::spec_default(),
    {
        GasMeter { gas_used: 0, gas_limit, prices: GasPrices::default() }
    }

    /// A meter with custom prices and nothing used.
    pub fn with_prices(gas_limit: u64, prices: GasPrices) -> (r: Self)
        ensures
            r.used() == 0,
            r.limit() == gas_limit,
            r.price_table() == prices,
    {
        GasMeter { gas_used: 0, gas_limit, prices }
    }

    /// Charges the cost of `price`.
    ///
    /// Fails with `GasOverflow` when the new total would not fit in 64 bits,
    /// and with `OutOfGas` when it would pass the limit; a failed charge
    /// leaves the meter unchanged.
    pub fn charge(&mut self, price: GasPrice) -> (r: Result<()>)
        ensures
            final(self).limit() == old(self).limit(),
            final(self).price_table() == old(self).price_table(),
            ({
                let outcome = charge_outcome(
                    old(self).used(),
                    old(self).limit(),
                    old(self).price_table().cost(price),
                );
                match outcome {
                    Ok(total) => r is Ok && final(self).used() == total,
                    Err(e) => r == Err::<(), Error>(e) && final(self).used() == old(self).used(),
                }
            }),
    {
        proof { use_type_invariant(&*self); }
        let cost = self.prices.get_cost(price);
        let new_gas_used = match self.gas_used.checked_add(cost) {
            Some(v) => v,
            None => { return Err(Error::GasOverflow); },
        };
        if new_gas_used > self.gas_limit {
            return Err(Error::OutOfGas { used: new_gas_used, limit: self.gas_limit });
        }
        self.gas_used = new_gas_used;
        Ok(())
    }

    /// Checks that the gas used is within the limit; it always is.
    pub fn check_gas_limit(&self) -> (r: Result<()>)
        ensures
            r is Ok,
    {
        proof { use_type_invariant(self); }
        if self.gas_used > self.gas_limit {
            return Err(Error::OutOfGas { used: self.gas_used, limit: self.gas_limit });
        }
        Ok(())
    }

    /// The gas left before the limit, as a signed 64-bit difference.
    pub fn remaining(&self) -> (r: i64)
        requires
            i64::MIN <= (self.limit() as i64) - (self.used() as i64) <= i64::MAX,
        ensures
            r == (self.limit() as i64) - (self.used() as i64),
    {
        self.gas_limit as i64 - self.gas_used as i64
    }

    /// Gas used so far.
    pub fn gas_used(&self) -> (r: u64)
        ensures
            r == self.used(),
            r <= self.limit(),
    {
        proof { use_type_invariant(self); }
        self.gas_used
    }

    /// The gas limit.
    pub fn gas_limit(&self) -> (r: u64)
        ensures
            r == self.limit(),
    {
        self.gas_limit
    }
}

} // verus!
