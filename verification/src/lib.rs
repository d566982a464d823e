pub mod text;
pub mod options;
pub mod fields;
pub mod tftp_protocol;
pub mod round_trip;
pub mod decimal;
pub mod server;
pub mod transfer;
pub mod download;
pub mod upload;
pub mod runs;
pub mod blocks;
pub mod whole_transfer;
pub mod probe;
pub mod path;
pub mod listener;
pub mod http_server;
pub mod ui;
pub mod served;
