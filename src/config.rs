//! What a caller can adjust: ignored attributes and the list-detection rule.

use vstd::prelude::*;

verus! {

/// How a sole child is recognised as the member of a list.
#[derive(Debug, Clone, Copy, PartialEq, Eq)]
pub enum ListDetection {
    /// A sole child is never taken for a list.
    Disabled,
    /// Parent and child names have the same English stem.
    StemEquality,
    /// The parent name is the child name followed by `s`.
    SuffixStrip,
}

/// Configuration for converting XML to JSON.
#[derive(Debug)]
pub struct Config {
    /// Attributes, such as `schemaLocation`, left out of the JSON.
    pub ignore_attributes: Vec<String>,
    /// Decides whether `<groups><group/></groups>` gives `{"groups": {"group": [...]}}`
    /// even though there is a single `<group/>`.
    pub list_detection: ListDetection,
}

/// The ignored attribute names of `c`.
pub open spec fn ignored_names(c: Config) -> Seq<Seq<char>> {
    c.ignore_attributes@.map_values(|s: String| s@)
}

impl Default for Config {
    /// Ignores no attribute and detects no list.
    fn default() -> (r: Config)
        ensures
            r.ignore_attributes@.len() == 0,
            r.list_detection == ListDetection::Disabled,
    {
        Config { ignore_attributes: Vec::new(), list_detection: ListDetection::Disabled }
    }
}

/// Whether the attribute `name` is left out of the output.
pub fn is_ignored(name: &String, config: &Config) -> (r: bool)
    ensures
        r == ignored_names(*config).contains(name@),
{
    let ghost names = ignored_names(*config);
    let mut i: usize = 0;
    while i < config.ignore_attributes.len()
        invariant
            i <= config.ignore_attributes.len(),
            names == ignored_names(*config),
            forall|j: int| 0 <= j < i ==> #[trigger] names[j] != name@,
        decreases config.ignore_attributes.len() - i,
    {
        if config.ignore_attributes[i] == *name {
            proof {
                assert(names[i as int] == name@);
            }
            return true;
        }
        i = i + 1;
    }
    false
}

} // verus!
