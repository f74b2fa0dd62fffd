//! Names of the files that belong to one source file.

use vstd::prelude::*;
use vstd::string::{StrSliceExecFns, StringExecFns};

verus! {

/// Whether `text` ends with `suffix`.
pub open spec fn ends_with(text: Seq<char>, suffix: Seq<char>) -> bool {
    suffix.len() <= text.len() && text.subrange(text.len() - suffix.len(), text.len() as int)
        == suffix
}

/// `text` without `suffix` at its end, or `text` as it is where it does
/// not end with `suffix`.
pub open spec fn without_suffix(text: Seq<char>, suffix: Seq<char>) -> Seq<char> {
    if ends_with(text, suffix) {
        text.subrange(0, text.len() - suffix.len())
    } else {
        text
    }
}

/// A file name without the extension of a MIDI file or of a source file
/// of the tape language.
pub open spec fn stem_of(name: Seq<char>) -> Seq<char> {
    if ends_with(name, ".mid"@) {
        without_suffix(name, ".mid"@)
    } else {
        without_suffix(name, ".bf"@)
    }
}

/// The part of `text` before `suffix`, where `text` ends with `suffix`.
fn strip_suffix<'a>(text: &'a str, suffix: &str) -> (rest: Option<&'a str>)
    ensures
        match rest {
            Some(front) => ends_with(text@, suffix@) && front@ == without_suffix(text@, suffix@),
            None => !ends_with(text@, suffix@),
        },
{
    let len = text.unicode_len();
    let tail = suffix.unicode_len();
    if tail > len {
        return None;
    }
    let start = len - tail;
    let mut i: usize = 0;
    while i < tail
        invariant
            i <= tail,
            len == text@.len(),
            tail == suffix@.len(),
            start == len - tail,
            forall|k: int| 0 <= k < i ==> text@[start + k] == suffix@[k],
        decreases tail - i,
    {
        if text.get_char(start + i) != suffix.get_char(i) {
            proof {
                assert(text@.subrange(start as int, len as int)[i as int] != suffix@[i as int]);
            }
            return None;
        }
        i += 1;
    }
    proof {
        assert(text@.subrange(start as int, len as int) =~= suffix@);
    }
    Some(text.substring_char(0, start))
}

/// A file name without the extension of a MIDI file or of a source file
/// of the tape language.
fn stem(src_str: &str) -> (name: &str)
    ensures
        name@ == stem_of(src_str@),
{
    match strip_suffix(src_str, ".mid") {
        Some(front) => front,
        None => match strip_suffix(src_str, ".bf") {
            Some(front) => front,
            None => src_str,
        },
    }
}

/// The name of the executable that is built from a MIDI file: the name of
/// the file without `.mid` at its end.
pub fn binary_name(src_str: &str) -> (name: String)
    ensures
        name@ == without_suffix(src_str@, ".mid"@),
{
    match strip_suffix(src_str, ".mid") {
        Some(front) => front.to_owned(),
        None => src_str.to_owned(),
    }
}

/// The name of the MIDI file that belongs to a source file: its stem with
/// `.mid` at its end.
pub fn midi_name(src_str: &str) -> (name: String)
    ensures
        name@ == stem_of(src_str@) + ".mid"@,
{
    let mut bn = stem(src_str).to_owned();
    bn.append(".mid");
    bn
}

/// The name of the source file of the tape language that belongs to a
/// MIDI file: its stem with `.bf` at its end.
pub fn bf_name(src_str: &str) -> (name: String)
    ensures
        name@ == stem_of(src_str@) + ".bf"@,
{
    let mut bn = stem(src_str).to_owned();
    bn.append(".bf");
    bn
}

} // verus!
