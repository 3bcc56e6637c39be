pub mod ascii;
pub mod pins;
pub mod request_id;
pub mod tokens;
pub mod words;
pub mod numbers;
pub mod values;
pub mod line;
pub mod message;
pub mod request;
pub mod response;
pub mod round_trip;
pub mod connection;
pub mod io_state;
pub mod gpio;
pub mod lpc;
pub mod router;
pub mod serial_log;
