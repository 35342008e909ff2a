//! What the user interfaces show: the decisions behind the terminal and the
//! window interfaces.
pub mod gtk_text;
pub mod text_interface;
