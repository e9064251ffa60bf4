//! Deciding whether a child's name is the singular of its parent's.

use vstd::prelude::*;
use crate::config::ListDetection;

verus! {

/// The English Snowball stem of a word.
pub uninterp spec fn english_stem(word: Seq<char>) -> Seq<char>;

/// Relies on `rust_stemmers::Stemmer::create(Algorithm::English)` and
/// `Stemmer::stem`: the stem depends on the word alone.
#[verifier::external_body]
fn stem_english(word: &str) -> (r: String)
    ensures
        r@ == english_stem(word@),
{
    rust_stemmers::Stemmer::create(rust_stemmers::Algorithm::English).stem(word).into_owned()
}

/// `parent` is `child` followed by a final `s`, and `child` is not empty.
pub open spec fn strips_to(parent: Seq<char>, child: Seq<char>) -> bool {
    &&& parent.len() >= 2
    &&& parent.last() == 's'
    &&& parent.drop_last() == child
}

/// Whether `child` is taken for the singular of `parent` under `strategy`.
pub open spec fn looks_singular(strategy: ListDetection, parent: Seq<char>, child: Seq<char>) -> bool {
    match strategy {
        ListDetection::Disabled => false,
        ListDetection::StemEquality => english_stem(parent) == english_stem(child),
        ListDetection::SuffixStrip => strips_to(parent, child),
    }
}

/// Whether `parent` is `child` with a trailing `s`.
pub fn suffix_strip_matches(parent: &str, child: &str) -> (r: bool)
    ensures
        r == strips_to(parent@, child@),
{
    let n = parent.unicode_len();
    if n < 2 {
        return false;
    }
    if parent.get_char(n - 1) != 's' {
        return false;
    }
    let rest = String::from_str(parent.substring_char(0, n - 1));
    let other = String::from_str(child);
    proof {
        assert(rest@ =~= parent@.drop_last());
    }
    rest == other
}

/// Whether the two names have the same English stem.
pub fn stems_match(parent: &str, child: &str) -> (r: bool)
    ensures
        r == (english_stem(parent@) == english_stem(child@)),
{
    let a = stem_english(parent);
    let b = stem_english(child);
    a == b
}

/// Whether `child` looks like the singular of `parent` under `strategy`.
pub fn looks_singular_of(strategy: &ListDetection, parent: &str, child: &str) -> (r: bool)
    ensures
        r == looks_singular(*strategy, parent@, child@),
{
    match strategy {
        ListDetection::Disabled => false,
        ListDetection::StemEquality => stems_match(parent, child),
        ListDetection::SuffixStrip => suffix_strip_matches(parent, child),
    }
}

} // verus!
