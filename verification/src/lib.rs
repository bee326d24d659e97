//! Privacy-preserving k-mer matching: a 2-bit nucleotide packing codec,
//! a 32-bit fingerprint hash, a sliding-window k-mer producer, and an
//! encrypted matching protocol with a parallel reduction scheduler.
pub mod capability;
pub mod codec;
pub mod fingerprint;
pub mod protocol;
pub mod scheduler;
pub mod windows;
