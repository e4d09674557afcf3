pub mod popup;
