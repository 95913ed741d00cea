//! A lazily generated dungeon map: rooms joined by compass and vertical
//! directions, where an unexplored exit grows a new room on first use and
//! every passage can be walked both ways.

mod command;
mod direction;
mod exits;
mod level;
mod level_room;
mod map;
mod room;

pub use command::{Command, ParseCommandError};
pub use direction::Direction;
pub use exits::Exits;
pub use level::{Level, LevelNumber};
pub use level_room::LevelRoom;
pub use map::{GraphMap, TravelError, MAX_ROOMS};
pub use room::{describe_exits, Room};
