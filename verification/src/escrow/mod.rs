pub mod timelock;
