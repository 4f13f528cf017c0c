//! Where the output of a run goes.

use vstd::prelude::*;

verus! {

/// The places to which the machine code can be written.
#[derive(Clone, Copy, Debug, PartialEq, Eq)]
pub enum Sink {
    /// The file that the caller named.
    NamedFile,
    /// The file beside the source, with the extension `hack` in place of
    /// `asm`.
    HackFile,
    /// The standard output.
    StandardOutput,
}

/// The place to which a run writes: a file that was named goes before
/// everything else; without one, a source with the extension `asm` has its
/// output beside it, unless the standard output was asked for; what is left
/// goes to the standard output.
pub open spec fn sink_of(file_named: bool, stdout_asked: bool, source_is_asm: bool) -> Sink {
    if file_named {
        Sink::NamedFile
    } else if !stdout_asked && source_is_asm {
        Sink::HackFile
    } else {
        Sink::StandardOutput
    }
}

/// Chooses the place to which a run writes.
pub fn choose_sink(file_named: bool, stdout_asked: bool, source_is_asm: bool) -> (sink: Sink)
    ensures
        sink == sink_of(file_named, stdout_asked, source_is_asm),
{
    if file_named {
        Sink::NamedFile
    } else if !stdout_asked && source_is_asm {
        Sink::HackFile
    } else {
        Sink::StandardOutput
    }
}

} // verus!
