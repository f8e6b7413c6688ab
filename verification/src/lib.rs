//! A model of the raw Linux process interface used by small static utilities:
//! the initial process stack (arguments, environment, auxiliary vector), C
//! strings in the argument area, file descriptors and the decisions that the
//! `cat`, `echo`, `sleep` and loader utilities take around their system calls.

pub mod cstr;
pub mod startup;
pub mod echo;
pub mod sleep;
pub mod sys;
pub mod cat;
pub mod loader;
