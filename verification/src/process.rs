//! What a finished command left behind.

use vstd::prelude::*;
use vstd::utf8::{decode_utf8, valid_utf8};
use crate::outside::{decodes, from_utf8_lossy, utf8_lossy};

verus! {

/// The outcome of a command that could be started.
pub struct CommandOutput {
    pub success: bool,
    pub stdout: Vec<u8>,
    pub stderr: Vec<u8>,
}

/// What a command printed, if it could be started and succeeded; nothing
/// otherwise.
pub open spec fn printed(out: Option<CommandOutput>) -> Seq<char> {
    match out {
        Some(o) => if o.success {
            utf8_lossy(o.stdout@)
        } else {
            Seq::empty()
        },
        None => Seq::empty(),
    }
}

/// Whether what a command printed, if it is UTF-8, is made the text that it
/// encodes.
pub open spec fn output_decodes(out: Option<CommandOutput>) -> bool {
    match out {
        Some(o) => o.success ==> decodes(o.stdout@),
        None => true,
    }
}

/// What a command printed, if it could be started and succeeded; the empty
/// text otherwise.
pub fn stdout_or_empty(out: &Option<CommandOutput>) -> (r: String)
    ensures
        r@ == printed(*out),
        match *out {
            Some(o) => o.success && valid_utf8(o.stdout@) ==> r@ == decode_utf8(o.stdout@),
            None => true,
        },
{
    match out {
        Some(o) => if o.success {
            from_utf8_lossy(o.stdout.as_slice())
        } else {
            String::new()
        },
        None => String::new(),
    }
}

// ---------------------------------------------------------------------------
// Laws
// ---------------------------------------------------------------------------

/// Only what a command that succeeded printed counts; one that failed, or that
/// could not be started, counts as having printed nothing.
pub proof fn law_only_success_prints(out: CommandOutput)
    ensures
        out.success ==> printed(Some(out)) == utf8_lossy(out.stdout@),
        !out.success ==> printed(Some(out)).len() == 0,
        printed(None).len() == 0,
{
}

} // verus!
