//! Words that end an interactive session.
use vstd::prelude::*;

verus! {

/// What `str::to_lowercase` makes of a string.
pub uninterp spec fn lower_of(s: Seq<char>) -> Seq<char>;

/// Relies on `str::to_lowercase`: the lowercase form depends on the
/// characters alone.
#[verifier::external_body]
fn lowercase(s: &str) -> (r: String)
    ensures
        r@ == lower_of(s@),
{
    s.to_lowercase()
}

/// The words that stop the program.
pub open spec fn exit_word(w: Seq<char>) -> bool {
    w == "exit"@ || w == "quit"@ || w == "q"@ || w == "stop"@
}

/// Whether `a` and `b` hold the same characters.
pub fn same_chars(a: &str, b: &str) -> (r: bool)
    ensures
        r == (a@ == b@),
{
    let len = a.unicode_len();
    if len != b.unicode_len() {
        return false;
    }
    let mut i: usize = 0;
    while i < len
        invariant
            i <= len,
            len == a@.len(),
            len == b@.len(),
            forall|k: int| 0 <= k < i ==> a@[k] == b@[k],
        decreases len - i,
    {
        if a.get_char(i) != b.get_char(i) {
            return false;
        }
        i = i + 1;
    }
    assert(a@ =~= b@);
    true
}

/// Whether an already lowercased `word` is one of the exit words.
pub fn is_exit_word(word: &str) -> (r: bool)
    ensures
        r == exit_word(word@),
{
    same_chars(word, "exit") || same_chars(word, "quit") || same_chars(word, "q") || same_chars(
        word,
        "stop",
    )
}

/// Whether `input`, in lowercase, is "exit", "quit", "q" or "stop".
pub fn is_exit_command(input: &str) -> (r: bool)
    ensures
        r == exit_word(lower_of(input@)),
{
    let lowered = lowercase(input);
    is_exit_word(lowered.as_str())
}

} // verus!
