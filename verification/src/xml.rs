//! A plain model of an XML element tree: the name, attributes, children
//! and text that the fare logic reads. Parsing bytes into this tree is a
//! caller's concern.

use vstd::prelude::*;

use crate::collection::ids_equal;
use crate::error::Error;

verus! {

/// One XML element: its name, its attributes in document order, its child
/// elements in document order, and its immediate text.
#[derive(Debug)]
pub struct Element {
    /// The element name.
    pub name: String,
    /// The attributes, each a name and a value, in document order.
    pub attributes: Vec<(String, String)>,
    /// The child elements, in document order.
    pub children: Vec<Element>,
    /// The text directly inside the element.
    pub text: String,
}

/// The children carrying this name, in document order.
pub open spec fn named(s: Seq<Element>, n: Seq<char>) -> Seq<Element> {
    s.filter(|e: Element| e.name@ == n)
}

/// The value of the first attribute with this name, if any.
pub open spec fn attr_first(s: Seq<(String, String)>, n: Seq<char>) -> Option<Seq<char>>
    decreases s.len(),
{
    if s.len() == 0 {
        None
    } else if s[0].0@ == n {
        Some(s[0].1@)
    } else {
        attr_first(s.drop_first(), n)
    }
}

impl Element {
    /// A childless element with no attributes and no text.
    pub fn new(name: String) -> (r: Element)
        ensures
            r.name == name,
            r.attributes@.len() == 0,
            r.children@.len() == 0,
            r.text@ == Seq::<char>::empty(),
    {
        Element { name, attributes: Vec::new(), children: Vec::new(), text: String::new() }
    }

    /// The single child of this name; fails when there is none, or more
    /// than one.
    pub fn try_only_child<'a>(&'a self, child_name: &str) -> (r: Result<&'a Element, Error>)
        ensures
            ({
                let matches = named(self.children@, child_name@);
                match r {
                    Ok(c) => matches.len() == 1 && *c == matches[0],
                    Err(e) => {
                        &&& matches.len() != 1
                        &&& (matches.len() == 0 ==> (e matches Error::XmlChildNotFound {
                            child,
                            element,
                        } && child@ == child_name@ && element@ == self.name@))
                        &&& (matches.len() > 1 ==> (e matches Error::XmlChildNotUnique {
                            child,
                            element,
                        } && child@ == child_name@ && element@ == self.name@))
                    },
                }
            }),
    {
        let ghost pred = |e: Element| e.name@ == child_name@;
        let wanted = child_name.to_owned();
        let n = self.children.len();
        let mut count: usize = 0;
        let mut first: usize = 0;
        let mut k: usize = 0;
        while k < n
            invariant
                n == self.children@.len(),
                k <= n,
                count == self.children@.subrange(0, k as int).filter(pred).len(),
                count <= k,
                count > 0 ==> first < k && self.children@[first as int] == self.children@.subrange(
                    0,
                    k as int,
                ).filter(pred)[0],
                wanted@ == child_name@,
                pred == (|e: Element| e.name@ == child_name@),
            decreases n - k,
        {
            proof {
                assert(self.children@.subrange(0, k + 1) =~= self.children@.subrange(
                    0,
                    k as int,
                ).push(self.children@[k as int]));
                assert(self.children@.subrange(0, k + 1).drop_last() =~= self.children@.subrange(
                    0,
                    k as int,
                ));
                reveal(Seq::filter);
            }
            if ids_equal(&self.children[k].name, &wanted) {
                if count == 0 {
                    first = k;
                }
                count = count + 1;
            }
            k = k + 1;
        }
        proof {
            assert(self.children@.subrange(0, n as int) =~= self.children@);
        }
        if count == 1 {
            Ok(&self.children[first])
        } else if count == 0 {
            Err(Error::XmlChildNotFound { child: wanted, element: self.name.clone() })
        } else {
            Err(Error::XmlChildNotUnique { child: wanted, element: self.name.clone() })
        }
    }

    /// The value of the first attribute with this name; fails when the
    /// element has no such attribute.
    pub fn try_attribute(&self, attr_name: &str) -> (r: Result<String, Error>)
        ensures
            match r {
                Ok(v) => attr_first(self.attributes@, attr_name@) == Some(v@),
                Err(e) => {
                    &&& attr_first(self.attributes@, attr_name@) is None
                    &&& (e matches Error::XmlAttributeNotFound { attribute, element } && attribute@
                        == attr_name@ && element@ == self.name@)
                },
            },
    {
        let wanted = attr_name.to_owned();
        let n = self.attributes.len();
        proof {
            assert(self.attributes@.subrange(0, n as int) =~= self.attributes@);
        }
        let mut k: usize = 0;
        while k < n
            invariant
                n == self.attributes@.len(),
                k <= n,
                attr_first(self.attributes@, attr_name@) == attr_first(
                    self.attributes@.subrange(k as int, n as int),
                    attr_name@,
                ),
                wanted@ == attr_name@,
            decreases n - k,
        {
            proof {
                assert(self.attributes@.subrange(k as int, n as int).drop_first()
                    =~= self.attributes@.subrange(k + 1, n as int));
                assert(self.attributes@.subrange(k as int, n as int)[0]
                    == self.attributes@[k as int]);
            }
            if ids_equal(&self.attributes[k].0, &wanted) {
                return Ok(self.attributes[k].1.clone());
            }
            k = k + 1;
        }
        proof {
            assert(self.attributes@.subrange(n as int, n as int) =~= Seq::<(String, String)>::empty());
        }
        Err(Error::XmlAttributeNotFound { attribute: wanted, element: self.name.clone() })
    }

    /// Whether the first attribute with this name holds this value.
    pub fn attribute_is(&self, attr_name: &str, value: &str) -> (r: bool)
        ensures
            r == (attr_first(self.attributes@, attr_name@) == Some(value@)),
    {
        match self.try_attribute(attr_name) {
            Ok(v) => {
                let w = value.to_owned();
                ids_equal(&v, &w)
            },
            Err(_) => false,
        }
    }

    /// The text directly inside the element.
    pub fn text(&self) -> (r: &String)
        ensures
            r@ == self.text@,
    {
        &self.text
    }
}

} // verus!
