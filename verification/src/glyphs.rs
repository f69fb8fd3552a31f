//! The decorative characters and fixed words of a shared result.

use vstd::prelude::*;

verus! {

/// The smiling face that closes the header phrase.
pub const SMILE: char = '\u{1F60A}';

/// The star that opens a perfect-score line.
pub const STAR: char = '\u{1F31F}';

/// The target that opens an imperfect-score line.
pub const TARGET: char = '\u{1F3AF}';

/// The clock that stands before a time.
pub const CLOCK: char = '\u{1F553}';

/// The checkmark that wraps a plain-completion line, and may wrap a date.
pub const CHECK: char = '\u{2705}';

/// The phrase by which a header line is known.
pub open spec fn header_phrase() -> Seq<char> {
    seq!['D', 'a', 'i', 'l', 'y', ' ', 'A', 'k', 'a', 'r', 'i', ' ', SMILE]
}

/// The word that a perfect-score line carries.
pub open spec fn perfect_word() -> Seq<char> {
    seq!['P', 'e', 'r', 'f', 'e', 'c', 't', '!']
}

/// The header phrase.
pub fn header_chars() -> (r: Vec<char>)
    ensures
        r@ == header_phrase(),
{
    let r = vec!['D', 'a', 'i', 'l', 'y', ' ', 'A', 'k', 'a', 'r', 'i', ' ', SMILE];
    assert(r@ =~= header_phrase());
    r
}

/// The word of a perfect-score line.
pub fn perfect_chars() -> (r: Vec<char>)
    ensures
        r@ == perfect_word(),
{
    let r = vec!['P', 'e', 'r', 'f', 'e', 'c', 't', '!'];
    assert(r@ =~= perfect_word());
    r
}

} // verus!
