//! Demodulated chirp symbols and the packets made of them.

use vstd::prelude::*;

verus! {

/// One demodulated chirp. The signal-to-noise estimate and the sub-bin
/// adjustment are kept as the bit patterns of single-precision numbers: the
/// library carries them along and never looks inside.
#[derive(Copy, Clone, Debug)]
pub struct Symbol {
    pub value: usize,
    pub snr_bits: u32,
    pub adj_bits: u32,
}

impl Symbol {
    pub fn new(value: usize, snr_bits: u32, adj_bits: u32) -> (symbol: Self)
        ensures
            symbol == (Symbol { value, snr_bits, adj_bits }),
    {
        Self { value, snr_bits, adj_bits }
    }
}

/// The symbols of one frame, in the order they were received.
pub struct Packet {
    pub symbols: Vec<Symbol>,
}

/// The values of `symbols`, in order.
pub open spec fn values_of(symbols: Seq<Symbol>) -> Seq<usize> {
    Seq::new(symbols.len(), |i: int| symbols[i].value)
}

impl Packet {
    pub fn new(symbols: Vec<Symbol>) -> (packet: Self)
        ensures
            packet.symbols == symbols,
    {
        Self { symbols }
    }

    /// The symbol values of the frame, in order.
    pub fn values(&self) -> (values: Vec<usize>)
        ensures
            values@ == values_of(self.symbols@),
    {
        let mut values: Vec<usize> = Vec::new();
        let mut i: usize = 0;
        while i < self.symbols.len()
            invariant
                i <= self.symbols@.len(),
                values@.len() == i,
                forall|k: int| 0 <= k < i ==> values@[k] == self.symbols@[k].value,
            decreases self.symbols@.len() - i,
        {
            values.push(self.symbols[i].value);
            i += 1;
        }
        assert(values@ =~= values_of(self.symbols@));
        values
    }
}

} // verus!
