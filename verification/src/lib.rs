pub mod app_state;
pub mod clock;
pub mod discovery;
pub mod isotp;
pub mod logger;
pub mod scanner;
pub mod session;
pub mod simulation;
pub mod text;
pub mod topology;
pub mod transport;
pub mod uds;
