//! A physics game across several threads that share one memory: what the threads agree on, and the
//! rules of each of them.
//!
//! - Values: [`pose_ring`], [`body_motion`], [`ball_motions`], [`input_state`] and
//!   [`physics_tasks`] are the shared blocks as plain values; [`bits`] gives meaning to floats that
//!   travel as their bits; [`protocol`] holds the messages.
//! - Shared memory: [`words`] and [`shared`] are the words and the accesses to them; [`seqlock`],
//!   [`shared_ring`], [`edge`], [`blocks`] and [`shared_pool`] run the blocks' operations on them;
//!   [`layout`] puts all blocks into one memory. [`ball_history`] and [`pool_history`] say what
//!   holds of several threads at work on the drop block and on the task pool.
//! - Threads: [`physics_thread`], [`render_thread`], [`main_thread`], with [`controls`], [`scene`],
//!   [`stats`], [`boot`] and [`text`].

pub mod ball_history;
pub mod ball_motions;
pub mod bits;
pub mod blocks;
pub mod body_motion;
pub mod boot;
pub mod controls;
pub mod edge;
pub mod input_state;
pub mod layout;
pub mod main_thread;
pub mod physics_tasks;
pub mod physics_thread;
pub mod pool_history;
pub mod pose_ring;
pub mod protocol;
pub mod render_thread;
pub mod scene;
pub mod seqlock;
pub mod shared;
pub mod shared_pool;
pub mod shared_ring;
pub mod stats;
pub mod text;
pub mod words;
