//! The parsed YAML tree and the lookups over it.

use vstd::prelude::*;
use crate::scan::str_eq;

verus! {

/// One key/value pair of a mapping. Keys are always text: path lookups
/// address mapping entries by exact string keys only.
#[derive(Debug, PartialEq, Eq)]
pub struct Entry {
    pub key: String,
    pub value: Node,
}

/// One node of a parsed YAML document: a tagged union over the six shapes
/// this library distinguishes. A number carries its canonical decimal text,
/// so the tree fixes no numeric type.
#[derive(Debug, PartialEq, Eq)]
pub enum Node {
    Null,
    Boolean(bool),
    Number(String),
    Text(String),
    Sequence(Vec<Node>),
    Mapping(Vec<Entry>),
}

/// The value under the first entry of `entries` whose key reads `key`.
pub open spec fn entry_lookup(entries: Seq<Entry>, key: Seq<char>) -> Option<Node>
    decreases entries.len(),
{
    if entries.len() == 0 {
        None
    } else if entries[0].key@ == key {
        Some(entries[0].value)
    } else {
        entry_lookup(entries.skip(1), key)
    }
}

impl Node {
    /// The canonical text of a scalar: the string itself, the number's
    /// decimal text, `true` or `false` for a boolean; every other node
    /// has none.
    pub open spec fn scalar_text(self) -> Seq<char> {
        match self {
            Node::Boolean(b) => if b {
                "true"@
            } else {
                "false"@
            },
            Node::Number(t) => t@,
            Node::Text(t) => t@,
            _ => Seq::empty(),
        }
    }

    /// The canonical texts of the elements of a sequence, in order; every
    /// other node yields the empty list.
    pub open spec fn scalar_list(self) -> Seq<Seq<char>> {
        match self {
            Node::Sequence(items) => items@.map_values(|n: Node| n.scalar_text()),
            _ => Seq::<Seq<char>>::empty(),
        }
    }

    /// The value under `key` when this node is a mapping that contains it.
    pub open spec fn child(self, key: Seq<char>) -> Option<Node> {
        match self {
            Node::Mapping(entries) => entry_lookup(entries@, key),
            _ => None,
        }
    }

    /// The node reached from here by consuming every segment in order, one
    /// mapping lookup per segment.
    pub open spec fn descend(self, segments: Seq<Seq<char>>) -> Option<Node>
        decreases segments.len(),
    {
        if segments.len() == 0 {
            Some(self)
        } else {
            match self.child(segments[0]) {
                Some(c) => c.descend(segments.skip(1)),
                None => None,
            }
        }
    }
}

/// A path extended by one more key resolves by one more mapping lookup: the
/// node reached over `segments.push(key)` is the child named `key` of the
/// node reached over `segments`, and nothing when that walk already failed.
pub proof fn lemma_descend_push(root: Node, segments: Seq<Seq<char>>, key: Seq<char>)
    ensures
        root.descend(segments.push(key)) == (match root.descend(segments) {
            Some(n) => n.child(key),
            None => None::<Node>,
        }),
    decreases segments.len(),
{
    if segments.len() == 0 {
        assert(segments.push(key)[0] == key);
        assert(segments.push(key).skip(1) =~= Seq::<Seq<char>>::empty());
        match root.child(key) {
            Some(c) => {
                assert(c.descend(Seq::<Seq<char>>::empty()) == Some(c));
            },
            None => {},
        }
    } else {
        assert(segments.push(key)[0] == segments[0]);
        assert(segments.push(key).skip(1) =~= segments.skip(1).push(key));
        match root.child(segments[0]) {
            Some(c) => {
                lemma_descend_push(c, segments.skip(1), key);
            },
            None => {},
        }
    }
}

/// Once a prefix of the path fails to resolve, the whole path fails.
pub proof fn lemma_descend_prefix_missing(root: Node, segments: Seq<Seq<char>>, i: int)
    requires
        0 <= i <= segments.len(),
        root.descend(segments.take(i)) is None,
    ensures
        root.descend(segments) is None,
    decreases segments.len(),
{
    if segments.len() == 0 {
        assert(segments.take(i) =~= segments);
    } else if i == 0 {
        assert(segments.take(0) =~= Seq::<Seq<char>>::empty());
    } else {
        assert(segments.take(i)[0] == segments[0]);
        match root.child(segments[0]) {
            Some(c) => {
                assert(segments.take(i).skip(1) =~= segments.skip(1).take(i - 1));
                lemma_descend_prefix_missing(c, segments.skip(1), i - 1);
            },
            None => {},
        }
    }
}

/// Looks `key` up in `node` when it is a mapping, scanning the entries in
/// order and returning the first match.
pub(crate) fn child_lookup<'a>(node: &'a Node, key: &str) -> (r: Option<&'a Node>)
    ensures
        match r {
            Some(c) => node.child(key@) == Some(*c),
            None => node.child(key@) is None,
        },
{
    match node {
        Node::Mapping(entries) => {
            let n: usize = entries.len();
            let mut i: usize = 0;
            proof {
                assert(entries@.skip(0) =~= entries@);
                assert(node.child(key@) == entry_lookup(entries@, key@));
            }
            while i < n
                invariant
                    n == entries.len(),
                    i <= n,
                    node.child(key@) == entry_lookup(entries@, key@),
                    entry_lookup(entries@, key@) == entry_lookup(entries@.skip(i as int), key@),
                decreases n - i,
            {
                proof {
                    assert(entries@.skip(i as int)[0] == entries@[i as int]);
                }
                if str_eq(entries[i].key.as_str(), key) {
                    proof {
                        assert(entries@[i as int].key@ == key@);
                        assert(entry_lookup(entries@.skip(i as int), key@) == Some(
                            entries@[i as int].value,
                        ));
                    }
                    return Some(&entries[i].value);
                }
                proof {
                    assert(entries@.skip(i as int).skip(1) =~= entries@.skip(i as int + 1));
                }
                i = i + 1;
            }
            proof {
                assert(entries@.skip(n as int) =~= Seq::<Entry>::empty());
            }
            None
        },
        _ => None,
    }
}

/// Walks `segments` from `root` by successive mapping lookups.
pub(crate) fn get_node<'a>(root: &'a Node, segments: &Vec<String>) -> (r: Option<&'a Node>)
    ensures
        match r {
            Some(n) => root.descend(segments.deep_view()) == Some(*n),
            None => root.descend(segments.deep_view()) is None,
        },
{
    let mut cur: &Node = root;
    let n: usize = segments.len();
    let mut i: usize = 0;
    proof {
        assert(segments.deep_view().skip(0) =~= segments.deep_view());
    }
    while i < n
        invariant
            n == segments.len(),
            i <= n,
            root.descend(segments.deep_view()) == cur.descend(
                segments.deep_view().skip(i as int),
            ),
        decreases n - i,
    {
        proof {
            assert(segments.deep_view().skip(i as int)[0] == segments@[i as int]@);
        }
        match child_lookup(cur, segments[i].as_str()) {
            Some(c) => {
                proof {
                    assert(segments.deep_view().skip(i as int).skip(1) =~= segments.deep_view()
                        .skip(i as int + 1));
                }
                cur = c;
            },
            None => {
                return None;
            },
        }
        i = i + 1;
    }
    proof {
        assert(segments.deep_view().skip(n as int) =~= Seq::<Seq<char>>::empty());
    }
    Some(cur)
}

} // verus!
