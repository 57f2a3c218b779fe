//! Receive-side link layer for small rocket telemetry radios.
//!
//! The library holds what a receiver decides and computes on whole numbers,
//! each function with a contract that Verus proves:
//!
//! - the walk of the mixer through its table (`shifter`), the look-back of
//!   the phase discriminator (`discriminator`) and the cutting of the sample
//!   stream into blocks and chirp windows (`blocks`), for any kind of sample;
//! - for the GFSK layer, the changes of the bit decision (`transition`), the
//!   framing of bit decisions (`streaming_fec_decoder`), the frame search on
//!   a ring of averaged samples (`ring_sync`), packets (`packet`) and the
//!   telemetry records in them (`packet_types`);
//! - for the chirp layer, symbols (`symbol`), frame synchronisation (`sync`)
//!   and the way from symbols to payload bytes (`payload`) with its codes
//!   (`gray`, `hamming`, `interleaving`, `nibble`, `bits`);
//! - what goes over the wire to the radio (`hackrf`);
//! - tools for looking at captured frames (`analysis`).
//!
//! Arithmetic on the samples themselves is floating point and is left to
//! the caller, who hands it in as a function where the library needs it.

pub mod analysis;
pub mod bits;
pub mod blocks;
pub mod discriminator;
pub mod gray;
pub mod hackrf;
pub mod hamming;
pub mod interleaving;
pub mod nibble;
pub mod packet;
pub mod packet_types;
pub mod payload;
pub mod ring_sync;
pub mod shifter;
pub mod streaming_fec_decoder;
pub mod symbol;
pub mod sync;
pub mod transition;
