//! Verified core of a competition registration backend: password policy,
//! partner pairing, live timeplan control and timeplan prediction.

pub mod acts;
pub mod auth;
pub mod catalog;
pub mod clock;
pub mod control;
pub mod http_server;
pub mod ids;
pub mod jwt;
pub mod pairing;
pub mod pairing_cases;
pub mod pairing_laws;
pub mod predict;
pub mod query;
pub mod registry;
pub mod search;
pub mod system_status;
pub mod timeplan;
pub mod utils;
