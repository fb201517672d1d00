pub mod colocate;
pub mod move_directory;
