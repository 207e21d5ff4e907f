//! A Slack channel for a bot: which messages reach the bot, in what form, and what is
//! asked of the Slack API in which order.

pub mod channel;
pub mod clock;
pub mod json;
pub mod listing;
pub mod message;
pub mod poller;
pub mod polling;
pub mod reply;
pub mod socket;
pub mod socket_loop;
pub mod table;
pub mod text;

pub use channel::{ListenMode, ListedChannel, SlackChannel};
pub use message::{ChannelMessage, PendingMessage, SendMessage};
pub use reply::SlackError;
