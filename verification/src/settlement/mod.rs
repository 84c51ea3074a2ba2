pub mod htlc;
