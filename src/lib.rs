//! Client core for the tomsg chat protocol: value types, the command encoder,
//! the reply and push parsers, and the multiplexer that routes tagged replies
//! back to their callers over one connection.
pub mod closereason;
pub mod command;
pub mod id;
pub mod line;
pub mod message;
pub mod multiplexer;
pub mod pushmessage;
pub mod reply;
pub mod text;
pub mod util;
pub mod word;

pub use closereason::CloseReason;
pub use command::Command;
pub use id::Id;
pub use line::Line;
pub use message::Message;
pub use multiplexer::{wire_line, Event, Multiplexer, SubmitError};
pub use pushmessage::PushMessage;
pub use reply::{InternalReply, Reply};
pub use util::{expect_word, parsei64};
pub use word::Word;
