pub mod attach;
pub mod clunk;
pub mod error;
pub mod fcall;
pub mod header;
pub mod message;
pub mod open;
pub mod qid;
pub mod read;
pub mod session;
pub mod version;
pub mod walk;
pub mod wire;

pub use attach::{RAttach, TAttach};
pub use clunk::{RClunk, TClunk};
pub use error::RError;
pub use fcall::Fcall;
pub use header::{Header, HeaderType};
pub use message::Message;
pub use open::{Mode, ROpen, TOpen, IOUNIT};
pub use qid::Qid;
pub use read::{RRead, TRead};
pub use version::TRVersion;
pub use walk::{RWalk, TWalk};
pub use wire::{read_le_u16, read_le_u32, read_le_u64, read_le_u8, read_string};
pub use session::{take, File, Session};
