pub mod encoders;
pub mod iso9660;
