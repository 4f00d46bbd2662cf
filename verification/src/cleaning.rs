//! The cleaning of scraped text, which the caller brings.

use vstd::prelude::*;

verus! {

/// Whether the cleaner takes every text.
pub open spec fn cleans_all<F: Fn(&str) -> String>(cleaner: F) -> bool {
    forall|s: &str| #[trigger] call_requires(cleaner, (s,))
}

/// Whether the cleaner makes of every text what `cleaned` makes of it.
pub open spec fn cleans_as<F: Fn(&str) -> String>(
    cleaner: F,
    cleaned: spec_fn(Seq<char>) -> Seq<char>,
) -> bool {
    forall|s: &str, r: String| #[trigger] call_ensures(cleaner, (s,), r) ==> r@ == cleaned(s@)
}

/// Whether the cleaner may make `cleaned` of `text`.
pub open spec fn may_clean<F: Fn(&str) -> String>(
    cleaner: F,
    text: Seq<char>,
    cleaned: Seq<char>,
) -> bool {
    exists|s: &str, r: String| #[trigger]
        call_ensures(cleaner, (s,), r) && s@ == text && r@ == cleaned
}

} // verus!
