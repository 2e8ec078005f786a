//! Proofs of Binance trading profit and loss.
//!
//! The library holds the decisions of four programs: a prover that fetches a
//! signed response from the exchange, a presenter that discloses it without the
//! credentials, a verifier that reads the disclosed transcript, and a notary
//! that attests to it.  Everything here works on plain values; sockets, files
//! and the proof protocol stay with the programs.
pub mod account;
pub mod body;
pub mod clock;
pub mod disclosure;
pub mod exchange;
pub mod hexadecimal;
pub mod notary_key;
pub mod report;
pub mod request;
pub mod signing;
pub mod text;
pub mod trades;
pub mod transcript;
