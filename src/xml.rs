//! The parsed XML tree that conversion reads.

use vstd::prelude::*;

verus! {

/// One node of a parsed XML document.
#[derive(Debug, PartialEq)]
pub enum XmlNode {
    Element(XmlElement),
    Text(String),
    /// A comment, processing instruction or other node that conversion drops.
    Other,
}

/// An XML element: its tag name, its attributes in source order, and its
/// children in document order.
#[derive(Debug, PartialEq)]
pub struct XmlElement {
    pub name: String,
    pub attributes: Vec<(String, String)>,
    pub children: Vec<XmlNode>,
}

/// The position of the first text node in `c`, or -1 where there is none.
pub open spec fn text_index(c: Seq<XmlNode>) -> int
    decreases c.len(),
{
    if c.len() == 0 {
        -1
    } else {
        let i = text_index(c.drop_last());
        if i >= 0 {
            i
        } else if c.last() is Text {
            c.len() - 1
        } else {
            -1
        }
    }
}

pub proof fn lemma_text_index(c: Seq<XmlNode>)
    ensures
        -1 <= text_index(c) < c.len(),
        text_index(c) >= 0 ==> c[text_index(c)] is Text,
        forall|j: int| 0 <= j < c.len() && c[j] is Text ==> text_index(c) >= 0 && text_index(c) <= j,
    decreases c.len(),
{
    if c.len() > 0 {
        lemma_text_index(c.drop_last());
        assert forall|j: int| 0 <= j < c.len() - 1 implies #[trigger] c[j] == c.drop_last()[j] by {}
    }
}

/// Finds the first text node among `children`.
pub fn first_text(children: &Vec<XmlNode>) -> (r: Option<usize>)
    ensures
        match r {
            Some(i) => i < children.len() && text_index(children@) == i as int,
            None => text_index(children@) == -1,
        },
{
    let mut i: usize = 0;
    while i < children.len()
        invariant
            i <= children.len(),
            forall|j: int| 0 <= j < i ==> !(#[trigger] children@[j] is Text),
        decreases children.len() - i,
    {
        if let XmlNode::Text(_) = &children[i] {
            proof {
                lemma_text_index(children@);
            }
            return Some(i);
        }
        i = i + 1;
    }
    proof {
        lemma_text_index(children@);
    }
    None
}

} // verus!
