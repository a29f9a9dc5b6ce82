//! The identity and the configuration of a network of a peer-to-peer VPN.
//!
//! A network is known by a key pair. The public key is the access key: who
//! holds it can join the network. The secret key lets its holder control the
//! network. A key is handed on as a token, the base64 text of the access key
//! and, for the owner, `:` and the base64 text of the secret key:
//!
//! ```text
//! ml0Pm4ie8ZL81DdFmft5x2rNfy2Xgl534CKs1ObBb-0
//! ```
//!
//! [`network_key`] holds keys and their tokens, [`keygen`] makes fresh keys,
//! [`subnet`] reads a subnet such as `192.168.1.1/24`, and [`network_config`]
//! puts a name, a key and a subnet together and writes the result as JSON.
//! [`ip_address`], [`ipv4`], [`ipv6`], [`numeral`] and [`text`] read and write
//! addresses and numbers as text. [`outside`] lists what is taken on trust
//! from other crates; everything else is verified.

pub mod commands;
pub mod ip_address;
pub mod ipv4;
pub mod ipv6;
pub mod ipv6_lemmas;
pub mod keygen;
pub mod network_config;
pub mod network_key;
pub mod numeral;
pub mod outside;
pub mod subnet;
pub mod text;
