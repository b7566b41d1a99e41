//! The configuration value and its path-addressed accessors.

use vstd::prelude::*;
use vstd::string::*;
use crate::node::Node;
use crate::node::child_lookup;
use crate::node::get_node;
use crate::parse::parse_yaml;
use crate::parse::parsed_yaml;
use crate::render::pairs_view;
use crate::render::strfmt_call;
use crate::render::strfmt_res;
use crate::scan::lemma_split_on_nonempty;
use crate::scan::replace_first;
use crate::scan::replace_first_str;
use crate::scan::split_on;
use crate::scan::split_str;

verus! {

/// Why a configuration could not be constructed.
#[derive(Debug, Clone, Copy, PartialEq, Eq, Structural)]
pub enum ConfigError {
    /// The configuration file could not be read.
    Io,
    /// The text is not a valid YAML document.
    Parse,
    /// The filename template could not be rendered.
    Template,
}

/// A parsed YAML document with a path separator, the filename it was read
/// from, and an optional environment tag. Immutable after construction.
#[derive(Debug)]
pub struct Config {
    content: Node,
    filename: String,
    separator: String,
    environment: Option<String>,
}

/// The node that `path` addresses in `root`: split on the separator, then
/// descend by successive mapping lookups.
pub open spec fn spec_get(root: Node, path: Seq<char>, sep: Seq<char>) -> Option<Node> {
    root.descend(split_on(path, sep))
}

/// The canonical text of the scalar that `path` addresses; empty when the
/// path is missing or the node is no scalar.
pub open spec fn spec_str(root: Node, path: Seq<char>, sep: Seq<char>) -> Seq<char> {
    match spec_get(root, path, sep) {
        Some(n) => n.scalar_text(),
        None => Seq::<char>::empty(),
    }
}

/// The canonical texts of the sequence that `path` addresses; empty when
/// the path is missing or the node is no sequence.
pub open spec fn spec_list(root: Node, path: Seq<char>, sep: Seq<char>) -> Seq<Seq<char>> {
    match spec_get(root, path, sep) {
        Some(n) => n.scalar_list(),
        None => Seq::<Seq<char>>::empty(),
    }
}

/// The canonical text of a node that may be absent; empty when it is.
pub open spec fn scalar_text_opt(n: Option<Node>) -> Seq<char> {
    match n {
        Some(m) => m.scalar_text(),
        None => Seq::<char>::empty(),
    }
}

/// The format string after the placeholder pass: each attribute name, in
/// order, replaces the first remaining `{}` with `{name}`.
pub open spec fn named_format(format: Seq<char>, attrs: Seq<Seq<char>>) -> Seq<char>
    decreases attrs.len(),
{
    if attrs.len() == 0 {
        format
    } else {
        named_format(replace_first(format, "{}"@, "{"@ + attrs[0] + "}"@), attrs.skip(1))
    }
}

/// The name/value variables handed to the renderer: each attribute name
/// with the canonical text of its value under `parent`.
pub open spec fn attr_pairs(parent: Node, attrs: Seq<Seq<char>>) -> Seq<(Seq<char>, Seq<char>)> {
    attrs.map_values(|a: Seq<char>| (a, scalar_text_opt(parent.child(a))))
}

/// What `fmt` returns: walk to the parent of the last path segment, split
/// that segment on `+` into attribute names; when the walk fails, any name
/// is absent under the parent, or the number of `{}` placeholders in the
/// template differs from the number of names, the result is empty;
/// otherwise it is the renderer's output on the rewritten template and the
/// attributes' texts, or empty when rendering fails.
pub open spec fn spec_fmt(root: Node, format: Seq<char>, path: Seq<char>, sep: Seq<char>) -> Seq<
    char,
> {
    let parts = split_on(path, sep);
    match root.descend(parts.drop_last()) {
        Some(parent) => {
            let attrs = split_on(parts.last(), "+"@);
            if forall|k: int| 0 <= k < attrs.len() ==> parent.child(#[trigger] attrs[k]) is Some {
                if split_on(format, "{}"@).len() == attrs.len() + 1 {
                    match strfmt_res(named_format(format, attrs), attr_pairs(parent, attrs)) {
                        Some(s) => s,
                        None => Seq::<char>::empty(),
                    }
                } else {
                    Seq::<char>::empty()
                }
            } else {
                Seq::<char>::empty()
            }
        },
        None => Seq::<char>::empty(),
    }
}

/// `fmt` comes back empty when the walk to the parent of the last path
/// segment fails.
pub proof fn lemma_fmt_missing_parent(
    root: Node,
    format: Seq<char>,
    path: Seq<char>,
    sep: Seq<char>,
)
    requires
        root.descend(split_on(path, sep).drop_last()) is None,
    ensures
        spec_fmt(root, format, path, sep) == Seq::<char>::empty(),
{
}

/// `fmt` comes back empty when any of the `+`-separated attribute names of
/// the last path segment is absent under the resolved parent node.
pub proof fn lemma_fmt_missing_attribute(
    root: Node,
    format: Seq<char>,
    path: Seq<char>,
    sep: Seq<char>,
    parent: Node,
    i: int,
)
    requires
        root.descend(split_on(path, sep).drop_last()) == Some(parent),
        0 <= i < split_on(split_on(path, sep).last(), "+"@).len(),
        parent.child(split_on(split_on(path, sep).last(), "+"@)[i]) is None,
    ensures
        spec_fmt(root, format, path, sep) == Seq::<char>::empty(),
{
    let attrs = split_on(split_on(path, sep).last(), "+"@);
    assert(!(forall|k: int| 0 <= k < attrs.len() ==> parent.child(#[trigger] attrs[k]) is Some))
        by {
        assert(parent.child(attrs[i]) is None);
    };
}

impl Config {
    /// The parsed tree.
    pub closed spec fn spec_content(&self) -> Node {
        self.content
    }

    /// The stored separator.
    pub closed spec fn spec_separator(&self) -> Seq<char> {
        self.separator@
    }

    /// The stored filename.
    pub closed spec fn spec_filename(&self) -> Seq<char> {
        self.filename@
    }

    /// The stored environment tag.
    pub closed spec fn spec_environment(&self) -> Option<Seq<char>> {
        match self.environment {
            Some(e) => Some(e@),
            None => None,
        }
    }

    /// Builds a configuration from YAML text together with the filename and
    /// environment tag to store with it.
    pub fn from_text(yaml: &str, sep: &str, filename: &str, env: Option<&str>) -> (r: Result<
        Config,
        ConfigError,
    >)
        ensures
            match parsed_yaml(yaml@) {
                Some(n) => r matches Ok(c) && c.spec_content() == n && c.spec_separator() == sep@
                    && c.spec_filename() == filename@ && (match env {
                    Some(e) => c.spec_environment() matches Some(ev) && ev == e@,
                    None => c.spec_environment() is None,
                }),
                None => r matches Err(e) && e == ConfigError::Parse,
            },
    {
        match parse_yaml(yaml) {
            Some(content) => Ok(
                Config {
                    content,
                    filename: String::from_str(filename),
                    separator: String::from_str(sep),
                    environment: match env {
                        Some(e) => Some(String::from_str(e)),
                        None => None,
                    },
                },
            ),
            None => Err(ConfigError::Parse),
        }
    }

    /// Parses YAML text directly: no file, no environment, empty filename.
    pub fn load_yaml(yaml: &str, sep: &str) -> (r: Result<Config, ConfigError>)
        ensures
            match parsed_yaml(yaml@) {
                Some(n) => r matches Ok(c) && c.spec_content() == n && c.spec_separator() == sep@
                    && c.spec_filename() == Seq::<char>::empty() && c.spec_environment() is None,
                None => r matches Err(e) && e == ConfigError::Parse,
            },
    {
        proof {
            reveal_strlit("");
            assert(""@ =~= Seq::<char>::empty());
        }
        Self::from_text(yaml, sep, "", None)
    }

    /// The stored environment tag, unmodified.
    pub fn environment(&self) -> (r: Option<&str>)
        ensures
            match r {
                Some(e) => self.spec_environment() == Some(e@),
                None => self.spec_environment() is None,
            },
    {
        match &self.environment {
            Some(e) => Some(e.as_str()),
            None => None,
        }
    }

    /// The filename resolved at construction; empty for string-loaded
    /// configurations.
    pub fn get_filename(&self) -> (r: &str)
        ensures
            r@ == self.spec_filename(),
    {
        self.filename.as_str()
    }

    /// The node that `path` addresses, or nothing when a segment is absent
    /// or met a node that is not a mapping.
    pub fn get<'a>(&'a self, path: &str) -> (r: Option<&'a Node>)
        ensures
            match r {
                Some(n) => spec_get(self.spec_content(), path@, self.spec_separator()) == Some(*n),
                None => spec_get(self.spec_content(), path@, self.spec_separator()) is None,
            },
    {
        Self::get_leaf(&self.content, path, self.separator.as_str())
    }

    /// Walks `path`, split on `separator`, down from `content`.
    pub fn get_leaf<'a>(content: &'a Node, path: &str, separator: &str) -> (r: Option<&'a Node>)
        ensures
            match r {
                Some(n) => spec_get(*content, path@, separator@) == Some(*n),
                None => spec_get(*content, path@, separator@) is None,
            },
    {
        let segments = split_str(path, separator);
        get_node(content, &segments)
    }

    /// The canonical text of the scalar that `path` addresses; empty when
    /// the path is missing or the node is no scalar. Never fails.
    pub fn str(&self, path: &str) -> (r: String)
        ensures
            r@ == spec_str(self.spec_content(), path@, self.spec_separator()),
    {
        match self.get(path) {
            Some(v) => Self::to_string(v),
            None => String::new(),
        }
    }

    /// The canonical texts of the sequence that `path` addresses; empty
    /// when the path is missing or the node is no sequence. Never fails.
    pub fn list(&self, path: &str) -> (r: Vec<String>)
        ensures
            r.deep_view() == spec_list(self.spec_content(), path@, self.spec_separator()),
    {
        match self.get(path) {
            Some(v) => Self::to_list(v),
            None => {
                let r: Vec<String> = Vec::new();
                proof {
                    assert(r.deep_view() =~= Seq::<Seq<char>>::empty());
                }
                r
            },
        }
    }

    /// Interpolates several sibling leaves into one string: the last path
    /// segment, split on `+`, names the attributes whose canonical texts
    /// fill the `{}` placeholders of `format` in order. Empty when the
    /// path's parent or any attribute is absent, or when rendering fails.
    /// Never fails.
    #[verifier::loop_isolation(false)]
    pub fn fmt(&self, format: &str, path: &str) -> (r: String)
        ensures
            r@ == spec_fmt(self.spec_content(), format@, path@, self.spec_separator()),
    {
        let ghost all = split_on(path@, self.separator@);
        let mut parts = split_str(path, self.separator.as_str());
        proof {
            lemma_split_on_nonempty(path@, self.separator@);
        }
        let last = match parts.pop() {
            Some(l) => l,
            None => {
                return String::new();
            },
        };
        proof {
            assert(parts.deep_view() =~= all.drop_last());
            assert(last@ == all.last());
        }
        let parent = match get_node(&self.content, &parts) {
            Some(p) => p,
            None => {
                return String::new();
            },
        };
        let attrs = split_str(last.as_str(), "+");
        let ghost attrsv = attrs.deep_view();
        let mut named = String::from_str(format);
        let mut vars: Vec<(String, String)> = Vec::new();
        let n: usize = attrs.len();
        let mut i: usize = 0;
        proof {
            assert(attrsv.skip(0) =~= attrsv);
            assert(attrsv.take(0) =~= Seq::<Seq<char>>::empty());
            assert(pairs_view(vars@) =~= attr_pairs(*parent, attrsv.take(0)));
        }
        while i < n
            invariant
                i <= n,
                named_format(format@, attrsv) == named_format(named@, attrsv.skip(i as int)),
                pairs_view(vars@) == attr_pairs(*parent, attrsv.take(i as int)),
                forall|k: int| 0 <= k < i ==> parent.child(#[trigger] attrsv[k]) is Some,
            decreases n - i,
        {
            match child_lookup(parent, attrs[i].as_str()) {
                Some(v) => {
                    let mut rep = String::from_str("{");
                    rep.append(attrs[i].as_str());
                    rep.append("}");
                    let ghost named_prev = named@;
                    named = replace_first_str(named.as_str(), "{}", rep.as_str());
                    let ghost pairs_prev = pairs_view(vars@);
                    vars.push((attrs[i].clone(), Self::to_string(v)));
                    proof {
                        assert(rep@ =~= "{"@ + attrsv[i as int] + "}"@);
                        assert(attrsv.skip(i as int)[0] == attrsv[i as int]);
                        assert(attrsv.skip(i as int).skip(1) =~= attrsv.skip(i as int + 1));
                        assert(named@ == replace_first(
                            named_prev,
                            "{}"@,
                            "{"@ + attrsv[i as int] + "}"@,
                        ));
                        assert(pairs_view(vars@) =~= pairs_prev.push(
                            (attrsv[i as int], scalar_text_opt(parent.child(attrsv[i as int]))),
                        ));
                        assert(pairs_view(vars@) =~= attr_pairs(
                            *parent,
                            attrsv.take(i as int + 1),
                        ));
                    }
                },
                None => {
                    proof {
                        assert(!(forall|k: int|
                            0 <= k < attrsv.len() ==> parent.child(
                                #[trigger] attrsv[k],
                            ) is Some)) by {
                            assert(parent.child(attrsv[i as int]) is None);
                        };
                    }
                    return String::new();
                },
            }
            i = i + 1;
        }
        proof {
            assert(attrsv.take(n as int) =~= attrsv);
            assert(attrsv.skip(n as int) =~= Seq::<Seq<char>>::empty());
        }
        let placeholders = split_str(format, "{}");
        proof {
            lemma_split_on_nonempty(format@, "{}"@);
        }
        if placeholders.len() - 1 != n {
            return String::new();
        }
        match strfmt_call(named.as_str(), &vars) {
            Some(s) => s,
            None => String::new(),
        }
    }

    /// Resolves the filename to read: with an environment tag, the tag is
    /// substituted for the `{env}` placeholder of the template and stored
    /// beside the resolved name; without one, the template is used
    /// verbatim. Fails when the template cannot be rendered.
    pub fn get_file(filename: &str, env: Option<&str>) -> (r: Result<
        (String, Option<String>),
        ConfigError,
    >)
        ensures
            match env {
                Some(e) => (match strfmt_res(filename@, seq![("env"@, e@)]) {
                    Some(s) => r matches Ok(p) && (p.0@ == s && (p.1 matches Some(ev) && ev@
                        == e@)),
                    None => r matches Err(err) && err == ConfigError::Template,
                }),
                None => r matches Ok(p) && p.0@ == filename@ && p.1 is None,
            },
    {
        match env {
            Some(e) => {
                let mut vars: Vec<(String, String)> = Vec::new();
                vars.push((String::from_str("env"), String::from_str(e)));
                proof {
                    assert(pairs_view(vars@) =~= seq![("env"@, e@)]);
                }
                match strfmt_call(filename, &vars) {
                    Some(s) => Ok((s, Some(String::from_str(e)))),
                    None => Err(ConfigError::Template),
                }
            },
            None => Ok((String::from_str(filename), None)),
        }
    }

    /// The canonical text of a scalar node; empty for null, sequences and
    /// mappings.
    pub fn to_string(value: &Node) -> (r: String)
        ensures
            r@ == value.scalar_text(),
    {
        match value {
            Node::Text(s) => s.clone(),
            Node::Number(s) => s.clone(),
            Node::Boolean(b) => if *b {
                String::from_str("true")
            } else {
                String::from_str("false")
            },
            _ => String::new(),
        }
    }

    /// The canonical texts of the elements of a sequence node, in order;
    /// empty for every other node.
    pub fn to_list(value: &Node) -> (r: Vec<String>)
        ensures
            r.deep_view() == value.scalar_list(),
    {
        match value {
            Node::Sequence(items) => {
                let mut out: Vec<String> = Vec::new();
                let n: usize = items.len();
                let mut i: usize = 0;
                while i < n
                    invariant
                        n == items.len(),
                        i <= n,
                        out@.len() == i,
                        forall|k: int| 0 <= k < i ==> out.deep_view()[k] == items@[k].scalar_text(),
                    decreases n - i,
                {
                    let text = Self::to_string(&items[i]);
                    let ghost prev = out.deep_view();
                    out.push(text);
                    proof {
                        assert(out.deep_view() =~= prev.push(items@[i as int].scalar_text()));
                    }
                    i = i + 1;
                }
                proof {
                    assert(out.deep_view() =~= value.scalar_list());
                }
                out
            },
            _ => {
                let r: Vec<String> = Vec::new();
                proof {
                    assert(r.deep_view() =~= Seq::<Seq<char>>::empty());
                }
                r
            },
        }
    }
}

} // verus!
