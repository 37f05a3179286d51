//! Core of a self-custodial SPV-style Bitcoin wallet node: the peer address
//! book, the confirmed coin set with its reorganisation journal, coin
//! selection and fees, the header trunk and its reorganisations, the coin
//! set kept in step with the trunk, the block download window, peer
//! supervision, Merkle proofs, the wallet
//! configuration and the process-wide control slot.
//!
//! Everything here works on plain values; file, database and network I/O
//! happens in the surrounding application.

pub mod error;
pub mod netaddr;
pub mod address_book;
pub mod coins;
pub mod txbuilder;
pub mod config;
pub mod api;
pub mod trunk;
pub mod merkle;
pub mod sync;
pub mod download;
pub mod peers;
