//! A small interactive Unix shell: the command-line grammar, the
//! directory bookkeeping and the prompt, verified.

pub mod text;
pub mod rshio;
pub mod rshexec;
