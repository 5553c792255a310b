pub mod ancestry;
pub mod args;
pub mod blind_spots;
pub mod compiler;
pub mod json;
pub mod linux;
pub mod macos;
pub mod model;
pub mod perfetto;
pub mod report;
pub mod status;
pub mod table;
pub mod text;
pub mod util;
