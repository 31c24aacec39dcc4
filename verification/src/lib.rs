pub mod address;
pub mod block;
pub mod decimal;
pub mod decoder;
pub mod event;
pub mod fetch;
pub mod reconcile;
pub mod window;
pub mod word;

pub use address::address_to_string;
pub use block::Block;
pub use decoder::{decode, u256_is_negative, u256_magnitude, u256_to_string};
pub use event::{build_record, parse_log, DecodeError, Log, ParsedLog, Token};
pub use fetch::{assemble_block, fetch_block_queue, parse_logs, FetchError, FetchedBlock};
pub use reconcile::{check_and_update_queue, WindowError};
pub use window::{Confirmation, ReorgWindow, WindowState};
pub use word::Word256;
