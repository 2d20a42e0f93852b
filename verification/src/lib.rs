//! A priority-based preemptive task scheduling core with static
//! resource-ceiling locking, together with the register-access driver
//! pattern it coordinates.
//!
//! The crate is organised around the runtime of a single-core embedded
//! system: a [`dispatch::Dispatcher`] owns the static task table and the
//! preemption stack, [`mailbox::Mailbox`] carries spawn payloads with a
//! fixed capacity, [`timer::TimerQueue`] holds entries scheduled against a
//! wrap-aware monotonic [`clock::Instant`], and [`resource::ResourceCell`]
//! enforces the priority-ceiling discipline that makes shared state
//! race-free without runtime mutexes. The driver half lives in
//! [`protocol`], [`transport`] and [`driver`]: a register read/write/burst
//! protocol with command-byte framing, generic over a byte-transfer
//! capability, with a direct-bus and a bridged transport.

pub mod clock;
pub mod mailbox;
pub mod config;
pub mod dispatch;
pub mod resource;
pub mod timer;
pub mod protocol;
pub mod transport;
pub mod driver;
