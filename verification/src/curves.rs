//! Particular elliptic curve groups.
//!
//! `ed25519` is the Edwards curve of RFC 8032 over the field of order
//! `2^255 - 19`, with the subgroup of prime order generated by its base
//! point.

pub mod ed25519;
