//! Prints the beginning of one or more inputs, bounded by a number of lines
//! or a number of bytes.
//!
//! The library holds the decisions: how the command line resolves into a
//! configuration, how a stream of bytes is cut after its first lines or its
//! first bytes, and what headers and diagnostics look like. Opening inputs,
//! reading and writing are left to the caller, which hands each chunk it
//! reads to the library and writes back what the library keeps.
use vstd::prelude::*;

pub mod bytes;
pub mod config;
pub mod lines;
pub mod report;

pub use config::{get_args, Cli, Limit, UsageError};

verus! {

use crate::bytes::{head_bytes, lemma_head_bytes_by_parts};
use crate::lines::{head_lines, lemma_head_lines_by_parts};

/// Two runs over the same content keep the same bytes, in either mode, even
/// when their reads split the content in different places.
pub proof fn lemma_runs_agree(a1: Seq<u8>, b1: Seq<u8>, a2: Seq<u8>, b2: Seq<u8>, n: nat)
    requires
        a1 + b1 == a2 + b2,
    ensures
        head_lines(head_lines(a1, n) + b1, n) == head_lines(head_lines(a2, n) + b2, n),
        head_bytes(head_bytes(a1, n) + b1, n) == head_bytes(head_bytes(a2, n) + b2, n),
{
    lemma_head_lines_by_parts(a1, b1, n);
    lemma_head_lines_by_parts(a2, b2, n);
    lemma_head_bytes_by_parts(a1, b1, n);
    lemma_head_bytes_by_parts(a2, b2, n);
}

} // verus!
