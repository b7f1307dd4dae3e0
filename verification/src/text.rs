//! What this crate takes on trust of std's characters and strings.
use vstd::prelude::*;

verus! {

/// Whether `c` has Unicode's `Alphabetic` property, as `char::is_alphabetic`
/// reports it.
pub uninterp spec fn alphabetic(c: char) -> bool;

/// `char::is_alphabetic`. Trusted: the result depends on the character alone;
/// it is given the name [`alphabetic`] and nothing more is said of it.
pub assume_specification[ char::is_alphabetic ](c: char) -> (b: bool)
    ensures
        b == alphabetic(c),
;

/// `String::push`. Trusted: the string afterwards is the string before with
/// `c` at its end.
pub assume_specification[ String::push ](s: &mut String, c: char)
    ensures
        final(s)@ == old(s)@.push(c),
;

/// `String::push_str`. Trusted: the string afterwards is the string before
/// followed by the characters of `t`.
pub assume_specification[ String::push_str ](s: &mut String, t: &str)
    ensures
        final(s)@ == old(s)@ + t@,
;

} // verus!
