pub mod downloader;
pub mod errors;
pub mod order;
pub mod roverfile;
