pub mod param;
pub mod voice_manager;
pub mod voice_manager2;
