//! The part of a parsed XML document that a report reader looks at: each
//! node's type, name, attributes, text content and children, in document order.
use vstd::prelude::*;

verus! {

/// The type of a node, as far as a report reader tells types apart.
#[derive(Clone, Copy, PartialEq, Eq, Structural, Debug)]
pub enum XmlNodeType {
    Element,
    Text,
    Other,
}

/// One attribute of an element.
#[derive(Clone, Debug, PartialEq)]
pub struct XmlAttribute {
    pub name: String,
    pub value: String,
}

/// A node of a parsed document. `node_type` is `None` for a node whose type
/// the XML library does not know.
#[derive(Debug)]
pub struct XmlNode {
    pub node_type: Option<XmlNodeType>,
    pub name: String,
    pub attributes: Vec<XmlAttribute>,
    pub content: String,
    pub children: Vec<XmlNode>,
}

/// The value of the first attribute named `key`, if any.
pub open spec fn attr_lookup(attrs: Seq<XmlAttribute>, key: Seq<char>) -> Option<Seq<char>>
    decreases attrs.len(),
{
    if attrs.len() == 0 {
        None
    } else if attrs[0].name@ == key {
        Some(attrs[0].value@)
    } else {
        attr_lookup(attrs.drop_first(), key)
    }
}

impl XmlNode {
    /// The value of the attribute `key` of this node, if it has one.
    pub open spec fn attr(&self, key: Seq<char>) -> Option<Seq<char>> {
        attr_lookup(self.attributes@, key)
    }

    /// The node has an attribute `key`.
    pub open spec fn has_attr(&self, key: Seq<char>) -> bool {
        self.attr(key) is Some
    }

    /// The value of the attribute `key`; meaningful where `has_attr(key)`.
    pub open spec fn attr_text(&self, key: Seq<char>) -> Seq<char> {
        self.attr(key).unwrap()
    }

    /// The node is an element called `name`.
    pub open spec fn is_element_named(&self, name: Seq<char>) -> bool {
        self.node_type == Some(XmlNodeType::Element) && self.name@ == name
    }

    /// A copy of the value of the attribute `key`, if the node has one.
    pub fn attribute(&self, key: &str) -> (r: Option<String>)
        ensures
            match r {
                Some(v) => self.attr(key@) == Some(v@),
                None => self.attr(key@) is None,
            },
    {
        let k = String::from_str(key);
        let mut i: usize = 0;
        let n = self.attributes.len();
        assert(self.attributes@.subrange(0, n as int) =~= self.attributes@);
        while i < n
            invariant
                n == self.attributes@.len(),
                0 <= i <= n,
                k@ == key@,
                attr_lookup(self.attributes@, key@) == attr_lookup(
                    self.attributes@.subrange(i as int, n as int),
                    key@,
                ),
            decreases n - i,
        {
            let a = &self.attributes[i];
            let ghost rest = self.attributes@.subrange(i as int, n as int);
            assert(rest.drop_first() =~= self.attributes@.subrange(i + 1, n as int));
            if a.name == k {
                return Some(a.value.clone());
            }
            i = i + 1;
        }
        None
    }

    /// Whether the node is an element called `name`.
    pub fn is_element(&self, name: &str) -> (b: bool)
        ensures
            b == self.is_element_named(name@),
    {
        match self.node_type {
            Some(XmlNodeType::Element) => self.name == String::from_str(name),
            _ => false,
        }
    }
}

} // verus!
