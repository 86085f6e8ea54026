//! A pooled staking-reward accounting engine.
//!
//! Multiple users deposit a fungible stake token into one of several
//! independent reward guilds. Each guild accrues rewards from a time-bounded
//! emission schedule, and each user's pending reward is settled lazily, at
//! the moment of a state-changing action, against a monotonically growing
//! per-guild reward index. Staking is gated: a user must lock a collectible
//! in a guild before fungible stake is accepted there.
//!
//! The engine works on plain values and produces outgoing obligations
//! (token transfers, collectible returns) as data; persistence, message
//! transport and identity validation belong to the host around it.

pub mod decimal;
pub mod error;
pub mod gate;
pub mod guild;
pub mod msg;
pub mod query;
pub mod rewards;
pub mod schedule;
pub mod state;
