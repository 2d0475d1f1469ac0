//! Template tables and HTML escaping.
//!
//! Parsed templates are stored per module and class and looked up by name;
//! parsing template files and rendering pages belong to the application
//! layer outside this crate.  Escaping rewrites the five HTML
//! metacharacters of a byte string to their entities, byte for byte, and is
//! stated as exactly that rewrite.

use vstd::prelude::*;

verus! {

/// One node of a parsed template: literal text, a value to print — plain,
/// de-escaped or escaped — a conditional, or a loop.
#[derive(Debug)]
pub enum Node {
    Text(String),
    Value(String),
    ValueDeEscape(String),
    ValueEscape(String),
    If(String, Vec<Node>, Vec<Node>),
    Loop(String, Vec<Node>),
}

/// The first value filed under a name, by string contents.
pub open spec fn find_str<V>(entries: Seq<(String, V)>, key: Seq<char>) -> Option<V>
    decreases entries.len(),
{
    if entries.len() == 0 {
        None
    } else if entries[0].0@ == key {
        Some(entries[0].1)
    } else {
        find_str(entries.skip(1), key)
    }
}

/// The parsed templates of every module and class: module name to class
/// name to view name to nodes.
#[derive(Debug)]
pub struct Html {
    list: Vec<(String, Vec<(String, Vec<(String, Vec<Node>)>)>)>,
}

impl Html {
    /// The stored modules, each with its classes.
    pub closed spec fn modules(&self) -> Seq<(String, Vec<(String, Vec<(String, Vec<Node>)>)>)> {
        self.list@
    }

    /// An empty table.
    pub fn new() -> (h: Html)
        ensures
            h.modules() == Seq::<(String, Vec<(String, Vec<(String, Vec<Node>)>)>)>::empty(),
    {
        let h = Html { list: Vec::new() };
        proof {
            assert(h.modules() =~= Seq::<
                (String, Vec<(String, Vec<(String, Vec<Node>)>)>),
            >::empty());
        }
        h
    }

    /// Files one module's classes under its name.
    pub fn add_module(&mut self, name: String, classes: Vec<(String, Vec<(String, Vec<Node>)>)>)
        ensures
            final(self).modules() == old(self).modules().push((name, classes)),
    {
        self.list.push((name, classes));
    }

    /// The views of one class of one module, by name.
    pub fn get(&self, module: &str, class: &str) -> (r: Option<&Vec<(String, Vec<Node>)>>)
        ensures
            match find_str(self.modules(), module@) {
                None => r is None,
                Some(classes) => match find_str(classes@, class@) {
                    None => r is None,
                    Some(views) => r == Some(&views),
                },
            },
    {
        let mk: String = module.to_owned();
        let ck: String = class.to_owned();
        let mut i: usize = 0;
        proof {
            assert(self.modules().skip(0) =~= self.modules());
        }
        while i < self.list.len()
            invariant
                i <= self.list@.len(),
                mk@ == module@,
                ck@ == class@,
                find_str(self.modules(), module@) == find_str(self.modules().skip(i as int), module@),
            decreases self.list@.len() - i,
        {
            proof {
                assert(self.modules().skip(i as int).skip(1) =~= self.modules().skip(i + 1));
            }
            if self.list[i].0 == mk {
                let classes = &self.list[i].1;
                proof {
                    assert(self.modules().skip(i as int)[0] == self.modules()[i as int]);
                    assert(find_str(self.modules().skip(i as int), module@) == Some(
                        self.modules()[i as int].1,
                    ));
                    assert(classes@.skip(0) =~= classes@);
                }
                let mut j: usize = 0;
                while j < classes.len()
                    invariant
                        j <= classes@.len(),
                        ck@ == class@,
                        find_str(self.modules(), module@) == Some(*classes),
                        find_str(classes@, class@) == find_str(classes@.skip(j as int), class@),
                    decreases classes@.len() - j,
                {
                    proof {
                        assert(classes@.skip(j as int).skip(1) =~= classes@.skip(j + 1));
                    }
                    if classes[j].0 == ck {
                        proof {
                            assert(classes@.skip(j as int)[0] == classes@[j as int]);
                            assert(find_str(classes@.skip(j as int), class@) == Some(
                                classes@[j as int].1,
                            ));
                        }
                        return Some(&classes[j].1);
                    }
                    j += 1;
                }
                proof {
                    assert(classes@.skip(classes@.len() as int) =~= Seq::<
                        (String, Vec<(String, Vec<Node>)>),
                    >::empty());
                }
                return None;
            }
            i += 1;
        }
        proof {
            assert(self.modules().skip(self.modules().len() as int) =~= Seq::<
                (String, Vec<(String, Vec<(String, Vec<Node>)>)>),
            >::empty());
        }
        None
    }

    /// What one byte becomes under HTML escaping: an ampersand, quote,
    /// apostrophe or angle bracket becomes its entity, anything else stays.
    pub open spec fn escape_byte(b: u8) -> Seq<u8> {
        if b == 38 {
            seq![38u8, 97u8, 109u8, 112u8, 59u8]
        } else if b == 34 {
            seq![38u8, 113u8, 117u8, 111u8, 116u8, 59u8]
        } else if b == 39 {
            seq![38u8, 97u8, 112u8, 111u8, 115u8, 59u8]
        } else if b == 60 {
            seq![38u8, 108u8, 116u8, 59u8]
        } else if b == 62 {
            seq![38u8, 103u8, 116u8, 59u8]
        } else {
            seq![b]
        }
    }

    /// A byte string under HTML escaping, byte for byte.
    pub open spec fn escape_bytes(s: Seq<u8>) -> Seq<u8>
        decreases s.len(),
    {
        if s.len() == 0 {
            Seq::empty()
        } else {
            Html::escape_byte(s.first()) + Html::escape_bytes(s.drop_first())
        }
    }

    /// Escapes the five HTML metacharacters of a byte string.
    pub fn escape(text: &[u8]) -> (r: Vec<u8>)
        ensures
            r@ == Html::escape_bytes(text@),
    {
        let mut out: Vec<u8> = Vec::new();
        let mut i: usize = 0;
        proof {
            assert(text@.skip(0) =~= text@);
            assert(out@ + Html::escape_bytes(text@) =~= Html::escape_bytes(text@));
        }
        while i < text.len()
            invariant
                i <= text@.len(),
                Html::escape_bytes(text@) == out@ + Html::escape_bytes(text@.skip(i as int)),
            decreases text@.len() - i,
        {
            let ghost s_rem = text@.skip(i as int);
            let ghost out0 = out@;
            let b = text[i];
            proof {
                assert(s_rem.first() == b);
                assert(s_rem.drop_first() =~= text@.skip(i + 1));
            }
            if b == 38 {
                out.push(38);
                out.push(97);
                out.push(109);
                out.push(112);
                out.push(59);
            } else if b == 34 {
                out.push(38);
                out.push(113);
                out.push(117);
                out.push(111);
                out.push(116);
                out.push(59);
            } else if b == 39 {
                out.push(38);
                out.push(97);
                out.push(112);
                out.push(111);
                out.push(115);
                out.push(59);
            } else if b == 60 {
                out.push(38);
                out.push(108);
                out.push(116);
                out.push(59);
            } else if b == 62 {
                out.push(38);
                out.push(103);
                out.push(116);
                out.push(59);
            } else {
                out.push(b);
            }
            proof {
                assert(out@ =~= out0 + Html::escape_byte(b));
                assert((out0 + Html::escape_byte(b)) + Html::escape_bytes(text@.skip(i + 1)) =~= out0
                    + (Html::escape_byte(b) + Html::escape_bytes(text@.skip(i + 1))));
            }
            i += 1;
        }
        proof {
            assert(text@.skip(text@.len() as int) =~= Seq::<u8>::empty());
            assert(out@ + Seq::<u8>::empty() =~= out@);
        }
        out
    }

    /// Hands a byte string back unchanged; de-escaping is the identity in
    /// this templating scheme.
    pub fn de_escape(text: &[u8]) -> (r: Vec<u8>)
        ensures
            r@ == text@,
    {
        let mut out: Vec<u8> = Vec::new();
        out.extend_from_slice(text);
        assert(out@ =~= text@);
        out
    }
}

} // verus!
