//! Core of an uptime-monitoring backend: a storage gateway over five
//! entities (users, logins, sites, responses, and a migration ledger),
//! a migration manager with single-step rollback, and the per-tick
//! bookkeeping of the probe scheduler.
//!
//! The gateway keeps the logical data model itself; reading probe targets
//! over the network and durably persisting rows are left to the
//! surrounding process.

use vstd::prelude::*;

pub mod models;

pub mod auth;
pub mod db;
pub mod envfile;
pub mod laws;
pub mod migrate;
pub mod tick;

pub use db::Database;
pub use envfile::Env;
pub use migrate::Migration;
pub use tick::is_online;
pub use tick::status_code_of;
pub use tick::ProbeOutcome;
pub use tick::ProbeResult;
pub use tick::PROBE_FAILED;

verus! {

/// Error kinds surfaced by the storage gateway and the process entry points.
#[derive(Clone, Copy, PartialEq, Eq, Structural, Debug)]
pub enum AppError {
    Migrate,
    DatabaseInsert,
    Login,
    JsonParse,
    DatabaseSelect,
    UrlEmpty,
    Rollback,
}

/// An account. The login code is its sole credential, generated once at
/// signup and never changed afterwards.
#[derive(PartialEq, Eq, Debug)]
pub struct User {
    pub id: i64,
    pub login_code: String,
    pub created_at: i64,
    pub updated_at: i64,
}

impl Clone for User {
    fn clone(&self) -> (r: Self)
        ensures
            r == *self,
    {
        User {
            id: self.id,
            login_code: self.login_code.clone(),
            created_at: self.created_at,
            updated_at: self.updated_at,
        }
    }
}

impl Default for User {
    fn default() -> (r: Self)
        ensures
            r.id == 0 && r.login_code@ == Seq::<char>::empty() && r.created_at == 0
                && r.updated_at == 0,
    {
        User { id: 0, login_code: String::new(), created_at: 0, updated_at: 0 }
    }
}

/// An audit row recording one successful authentication (signup counts as
/// the first one).
#[derive(Clone, Copy, PartialEq, Eq, Structural, Debug)]
pub struct Login {
    pub id: i64,
    pub user_id: i64,
    pub created_at: i64,
}

impl Default for Login {
    fn default() -> (r: Self)
        ensures
            r.id == 0 && r.user_id == 0 && r.created_at == 0,
    {
        Login { id: 0, user_id: 0, created_at: 0 }
    }
}

/// A monitored target, owned by one user. Its URL must be non-empty.
#[derive(PartialEq, Eq, Debug)]
pub struct Site {
    pub id: i64,
    pub user_id: i64,
    pub url: String,
    pub name: Option<String>,
    pub created_at: i64,
    pub updated_at: i64,
}

impl Clone for Site {
    fn clone(&self) -> (r: Self)
        ensures
            r == *self,
    {
        Site {
            id: self.id,
            user_id: self.user_id,
            url: self.url.clone(),
            name: match &self.name {
                Some(n) => Some(n.clone()),
                None => None,
            },
            created_at: self.created_at,
            updated_at: self.updated_at,
        }
    }
}

impl Default for Site {
    fn default() -> (r: Self)
        ensures
            r.id == 0 && r.user_id == 0 && r.url@ == Seq::<char>::empty() && r.name is None
                && r.created_at == 0 && r.updated_at == 0,
    {
        Site {
            id: 0,
            user_id: 0,
            url: String::new(),
            name: None,
            created_at: 0,
            updated_at: 0,
        }
    }
}

} // verus!
