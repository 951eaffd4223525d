//! What a shell expression yields, judged from how its process ended and
//! what it wrote.

use crate::docker::fmt::InterpolationError;
use crate::std_specs::white_space;
use vstd::prelude::*;
use vstd::utf8::{decode_utf8, valid_utf8};

verus! {

/// `text` without its trailing white space.
pub open spec fn trimmed(text: Seq<char>) -> Seq<char>
    decreases text.len(),
{
    if text.len() > 0 && white_space(text.last()) {
        trimmed(text.drop_last())
    } else {
        text
    }
}

/// What the process of a shell expression yields: nothing but an error where
/// it ended in failure or wrote bytes that are no text, else the text it
/// wrote, without trailing white space.
pub open spec fn yielded(success: bool, stdout: Seq<u8>) -> Result<
    Seq<char>,
    InterpolationError,
> {
    if !success {
        Err(InterpolationError::AbnormalExit)
    } else if !valid_utf8(stdout) {
        Err(InterpolationError::InvalidOutput)
    } else {
        Ok(trimmed(decode_utf8(stdout)))
    }
}

/// What is left of a text is its start up to the last character that is no
/// white space: where all behind the first `kept` characters is white space
/// and these do not end in white space, they are what is left.
pub proof fn lemma_trimmed(text: Seq<char>, kept: int)
    requires
        0 <= kept <= text.len(),
        forall|i: int| kept <= i < text.len() ==> white_space(#[trigger] text[i]),
        kept > 0 ==> !white_space(text[kept - 1]),
    ensures
        trimmed(text) == text.take(kept),
    decreases text.len() - kept,
{
    if kept < text.len() {
        let shorter = text.drop_last();
        assert(white_space(text[text.len() - 1]));
        assert forall|i: int| kept <= i < shorter.len() implies white_space(
            #[trigger] shorter[i],
        ) by {
            assert(shorter[i] == text[i]);
        }
        lemma_trimmed(shorter, kept);
        assert(shorter.take(kept) =~= text.take(kept));
    } else {
        assert(text.take(kept) =~= text);
    }
}

/// Judges the process of a shell expression: `success` tells whether it
/// ended with status zero, `stdout` is what it wrote to standard output.
pub fn output_text(success: bool, stdout: &[u8]) -> (r: Result<String, InterpolationError>)
    ensures
        match r {
            Ok(text) => yielded(success, stdout@) == Ok::<Seq<char>, InterpolationError>(text@),
            Err(e) => yielded(success, stdout@) == Err::<Seq<char>, InterpolationError>(e),
        },
{
    if !success {
        return Err(InterpolationError::AbnormalExit);
    }
    match core::str::from_utf8(stdout) {
        Ok(text) => {
            let kept = text.trim_end();
            proof {
                lemma_trimmed(text@, kept@.len() as int);
            }
            Ok(kept.to_owned())
        },
        Err(_) => Err(InterpolationError::InvalidOutput),
    }
}

} // verus!
