//! The document tree: text nodes and elements with attributes.
use vstd::prelude::*;
use vstd::hash_map::StringHashMap;
use crate::text::{unicode_whitespace, same_text};

verus! {

/// The attributes of an element, by name.
pub type AttrMap = StringHashMap<String>;

/// What a node is, apart from its children.
pub enum NodeType {
    Text(String),
    Element(ElementData),
}

/// Tag name and attributes of an element.
pub struct ElementData {
    pub tag_name: String,
    pub attributes: AttrMap,
}

/// A node of the document tree, which owns its children.
pub struct Node {
    pub children: Vec<Node>,
    pub node_type: NodeType,
}

/// The mathematical value of an [`ElementData`].
pub struct ElementModel {
    pub tag_name: Seq<char>,
    pub attributes: Map<Seq<char>, Seq<char>>,
}

/// The mathematical value of a [`NodeType`].
pub enum NodeKind {
    Text(Seq<char>),
    Element(ElementModel),
}

/// The mathematical value of a [`Node`].
pub struct NodeModel {
    pub children: Seq<NodeModel>,
    pub kind: NodeKind,
}

/// The attributes as a map from name to value.
pub open spec fn attr_model(attrs: AttrMap) -> Map<Seq<char>, Seq<char>> {
    attrs@.map_values(|v: String| v@)
}

impl View for ElementData {
    type V = ElementModel;

    open spec fn view(&self) -> ElementModel {
        ElementModel { tag_name: self.tag_name@, attributes: attr_model(self.attributes) }
    }
}

impl View for NodeType {
    type V = NodeKind;

    open spec fn view(&self) -> NodeKind {
        match self {
            NodeType::Text(s) => NodeKind::Text(s@),
            NodeType::Element(e) => NodeKind::Element(e@),
        }
    }
}

impl Node {
    /// The value of the node: its kind, and the values of its children.
    pub open spec fn model(&self) -> NodeModel
        decreases self,
    {
        NodeModel {
            children: Seq::new(
                self.children@.len(),
                |i: int|
                    if 0 <= i < self.children@.len() {
                        self.children@[i].model()
                    } else {
                        arbitrary()
                    },
            ),
            kind: self.node_type@,
        }
    }
}

impl View for Node {
    type V = NodeModel;

    open spec fn view(&self) -> NodeModel {
        self.model()
    }
}

/// The values of a sequence of nodes, in order.
pub open spec fn node_models(nodes: Seq<Node>) -> Seq<NodeModel> {
    Seq::new(nodes.len(), |i: int| nodes[i]@)
}

/// A node's children are viewed one by one.
pub proof fn lemma_node_view(n: Node)
    ensures
        n@.children == node_models(n.children@),
        n@.kind == n.node_type@,
{
    assert(n@.children.len() == n.children@.len());
    assert forall|i: int| 0 <= i < n.children@.len() implies n@.children[i] == n.children@[i]@ by {}
    assert(n@.children =~= node_models(n.children@));
}

/// Whether `s[i..j]` is one of the words of `s`: a longest run of characters
/// that are not white space.
pub open spec fn is_word_at(s: Seq<char>, i: int, j: int) -> bool {
    &&& 0 <= i < j <= s.len()
    &&& forall|k: int| i <= k < j ==> !unicode_whitespace(#[trigger] s[k])
    &&& (i == 0 || unicode_whitespace(s[i - 1]))
    &&& (j == s.len() || unicode_whitespace(s[j]))
}

/// Whether `word` is one of the words of the white-space separated list `s`.
pub open spec fn has_word(s: Seq<char>, word: Seq<char>) -> bool {
    exists|i: int, j: int| is_word_at(s, i, j) && #[trigger] s.subrange(i, j) == word
}

impl ElementModel {
    /// The value of the attribute `id`, if there is one.
    pub open spec fn id(self) -> Option<Seq<char>> {
        if self.attributes.contains_key("id"@) {
            Some(self.attributes["id"@])
        } else {
            None
        }
    }

    /// Whether the attribute `class` lists `name`.
    pub open spec fn has_class(self, name: Seq<char>) -> bool {
        self.attributes.contains_key("class"@) && has_word(self.attributes["class"@], name)
    }
}

/// Whether `word` is one of the words of the white-space separated list `s`.
pub fn contains_word(s: &str, word: &str) -> (r: bool)
    ensures
        r == has_word(s@, word@),
{
    let n = s.unicode_len();
    let mut i: usize = 0;
    while i < n
        invariant
            n == s@.len(),
            i <= n,
            i == 0 || i == n || unicode_whitespace(s@[i - 1]) || unicode_whitespace(s@[i as int]),
            forall|a: int, b: int|
                is_word_at(s@, a, b) && b <= i ==> #[trigger] s@.subrange(a, b) != word@,
        decreases n - i,
    {
        if s.get_char(i).is_whitespace() {
            i = i + 1;
        } else {
            let start = i;
            let mut j: usize = i + 1;
            while j < n && !s.get_char(j).is_whitespace()
                invariant
                    n == s@.len(),
                    start < j <= n,
                    forall|k: int| start <= k < j ==> !unicode_whitespace(#[trigger] s@[k]),
                decreases n - j,
            {
                j = j + 1;
            }
            assert(is_word_at(s@, start as int, j as int));
            if same_text(s.substring_char(start, j), word) {
                return true;
            }
            assert forall|a: int, b: int| is_word_at(s@, a, b) && b <= j implies #[trigger] s@.subrange(
                a,
                b,
            ) != word@ by {
                if b > start {
                    assert(!unicode_whitespace(s@[b - 1]));
                    if b < j {
                        assert(!unicode_whitespace(s@[b]));
                    }
                    if a > start {
                        assert(!unicode_whitespace(s@[a - 1]));
                    }
                    if a < start {
                        assert(!unicode_whitespace(s@[start - 1]));
                    }
                    assert(a == start && b == j);
                }
            }
            i = j;
        }
    }
    false
}

impl ElementData {
    /// The value of the attribute `id`, if there is one.
    pub fn id(&self) -> (r: Option<&String>)
        ensures
            r is Some <==> self@.id() is Some,
            r is Some ==> r->0@ == self@.id()->0,
    {
        self.attributes.get("id")
    }

    /// Whether the attribute `class` lists `name`.
    pub fn has_class(&self, name: &str) -> (r: bool)
        ensures
            r == self@.has_class(name@),
    {
        match self.attributes.get("class") {
            Some(list) => contains_word(list.as_str(), name),
            None => false,
        }
    }
}

/// A text node without children.
pub fn text(data: String) -> (node: Node)
    ensures
        node@ == (NodeModel { children: Seq::empty(), kind: NodeKind::Text(data@) }),
{
    let node = Node { children: Vec::new(), node_type: NodeType::Text(data) };
    proof {
        lemma_node_view(node);
        assert(node_models(node.children@) =~= Seq::empty());
    }
    node
}

/// An element with the given tag name, attributes and children.
pub fn elem(name: String, attrs: AttrMap, children: Vec<Node>) -> (node: Node)
    ensures
        node@ == (NodeModel {
            children: node_models(children@),
            kind: NodeKind::Element(
                ElementModel { tag_name: name@, attributes: attr_model(attrs) },
            ),
        }),
{
    let node = Node {
        children,
        node_type: NodeType::Element(ElementData { tag_name: name, attributes: attrs }),
    };
    proof {
        lemma_node_view(node);
    }
    node
}

} // verus!
