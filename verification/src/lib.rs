//! A two-tier weighted draw with a pity rule and a bounded window of recent
//! draws.
//!
//! A [`PullList`] holds weighted entries, each Common or Rare. A pull picks a
//! tier first: Rare whenever a rare entry exists and either no common entry
//! does, the pity roll came up zero, or the window of recent pulls shows no
//! Rare. Within the tier an entry is picked by weight, and the pull is
//! recorded in the window.
//!
//! Weights are whole numbers of units, so that a pull is exact arithmetic:
//! [`sampling`] says which entry owns which sample, [`list`] holds the list
//! and the pull, [`history`] the window, [`text`] entries written as text.
//!
//! Three things are taken on trust, each behind one small function: the
//! random numbers ([`random`]), the wall clock ([`clock`]) and the lower case
//! of a text (in [`pull`]). A pull with its chances given,
//! [`PullList::pull_with`], depends on none of them.

pub mod clock;
pub mod error;
pub mod history;
pub mod list;
pub mod pull;
pub mod random;
pub mod sampling;
pub mod text;

pub use crate::clock::Timestamp;
pub use crate::error::PullError;
pub use crate::history::{PullHistory, PullHistoryView, RecordView};
pub use crate::list::{PullList, PullListView};
pub use crate::pull::{Pull, PullType, PullView};
