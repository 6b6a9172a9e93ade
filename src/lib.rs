pub mod paths;
pub mod index;
pub mod weburl;
pub mod matcher;
pub mod digest;
