pub mod confirm_running;
