//! Fingerprinting of a project tree and recommendation of rules for it.
//!
//! A fingerprint is two sets of signals: the extensions of the files of a
//! tree, and the names of the dependencies that its manifests declare and
//! its sources import. The rules of a catalog are matched against the
//! fingerprint; those that apply make up a report, each with its reasons
//! and with whether it is already installed. Fix mode installs what is
//! missing.
//!
//! Reading files, walking directories and talking to the network are left
//! to the caller. What is decided and computed is here, and verified:
//!
//! - `walker`, `signals`, `manifest`, `extract`, `tree`: from files to a
//!   fingerprint;
//! - `catalog`, `installed`, `matcher`: from a fingerprint to a report;
//! - `reconcile`, `download`, `installer`: what fix mode asks for, fetches
//!   and writes;
//! - `laws`: what holds of the audit as a whole;
//! - `text`, `split`: the handling of character sequences underneath.

pub mod catalog;
pub mod download;
pub mod extract;
pub mod fingerprint;
pub mod installed;
pub mod installer;
pub mod laws;
pub mod manifest;
pub mod matcher;
pub mod reconcile;
pub mod signals;
pub mod split;
pub mod text;
pub mod tree;
pub mod walker;
