pub mod library;
pub mod norm;
pub mod art;
pub mod playlist;
pub mod db;
pub mod loudness;
pub mod scan;
pub mod watch;
pub mod tags;
