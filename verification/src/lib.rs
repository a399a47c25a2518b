//! A circular, bidirectional navigator over a finite sequence, together with
//! a small builder for commands that are launched through `uwsm app`.

pub mod ring;
pub mod text;
pub mod uwsm_command;
pub mod zipper;
