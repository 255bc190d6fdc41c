//! The document tree: elements, their attributes, and the texts between
//! them.

use crate::file::value::{index_ok, value_ok, TypedValue};
use vstd::prelude::*;

verus! {

/// An attribute of an element.
#[derive(Debug, Clone, Copy, PartialEq, Eq)]
pub struct ResolvedAttribute {
    /// String index of the namespace URI, if the attribute has a namespace.
    pub namespace: Option<u32>,
    /// String index of the prefix that the innermost binding in effect gives
    /// to the namespace, if there is one.
    pub prefix: Option<u32>,
    /// String index of the name.
    pub name: u32,
    /// String index of the value as it was written, if it was kept.
    pub raw_value: Option<u32>,
    /// The value.
    pub value: TypedValue,
}

/// Character data inside an element.
#[derive(Debug, Clone, Copy, PartialEq, Eq, Structural)]
pub struct TextNode {
    /// String index of the text.
    pub text: u32,
    /// Line of the source file that the text came from.
    pub line: u32,
}

/// An element with everything inside it.
#[derive(Debug, PartialEq, Eq)]
pub struct Element {
    /// String index of the namespace URI, if the element has a namespace.
    pub namespace: Option<u32>,
    /// String index of the prefix that the innermost binding in effect at the
    /// element's start gives to the namespace, if there is one.
    pub prefix: Option<u32>,
    /// String index of the name.
    pub name: u32,
    /// Line of the source file that the element came from.
    pub line: u32,
    /// Which attribute is the element's id: a position counted from 1, or 0.
    pub id_attribute: u16,
    /// Which attribute is the element's class: a position counted from 1, or 0.
    pub class_attribute: u16,
    /// Which attribute is the element's style: a position counted from 1, or 0.
    pub style_attribute: u16,
    /// The attributes, in the order of the file.
    pub attributes: Vec<ResolvedAttribute>,
    /// The elements and texts directly inside, in the order of the file.
    pub children: Vec<Node>,
}

/// What an element can hold.
#[derive(Debug, PartialEq, Eq)]
pub enum Node {
    Element(Element),
    Text(TextNode),
}

/// The mathematical value of an [`Element`].
#[verifier::ext_equal]
pub struct ElementView {
    pub namespace: Option<u32>,
    pub prefix: Option<u32>,
    pub name: u32,
    pub line: u32,
    pub id_attribute: u16,
    pub class_attribute: u16,
    pub style_attribute: u16,
    pub attributes: Seq<ResolvedAttribute>,
    pub children: Seq<NodeView>,
}

/// The mathematical value of a [`Node`].
#[verifier::ext_equal]
pub enum NodeView {
    Element(ElementView),
    Text(TextNode),
}

/// The value of an element: its own fields and the values of its children.
pub open spec fn element_view(element: Element) -> ElementView
    decreases element,
{
    ElementView {
        namespace: element.namespace,
        prefix: element.prefix,
        name: element.name,
        line: element.line,
        id_attribute: element.id_attribute,
        class_attribute: element.class_attribute,
        style_attribute: element.style_attribute,
        attributes: element.attributes@,
        children: nodes_view(element.children@),
    }
}

/// The value of a node.
pub open spec fn node_view(node: Node) -> NodeView
    decreases node,
{
    match node {
        Node::Element(element) => NodeView::Element(element_view(element)),
        Node::Text(text) => NodeView::Text(text),
    }
}

/// The values of nodes, in the same order.
pub open spec fn nodes_view(nodes: Seq<Node>) -> Seq<NodeView>
    decreases nodes,
{
    if nodes.len() == 0 {
        Seq::empty()
    } else {
        nodes_view(nodes.drop_last()).push(node_view(nodes.last()))
    }
}

impl View for Element {
    type V = ElementView;

    open spec fn view(&self) -> ElementView {
        element_view(*self)
    }
}

impl View for Node {
    type V = NodeView;

    open spec fn view(&self) -> NodeView {
        node_view(*self)
    }
}

/// The values of elements, in the same order.
pub open spec fn elements_view(elements: Seq<Element>) -> Seq<ElementView> {
    Seq::new(elements.len(), |i: int| element_view(elements[i]))
}

/// The value of an element that may not be there.
pub open spec fn root_view(root: Option<Element>) -> Option<ElementView> {
    match root {
        Some(element) => Some(element_view(element)),
        None => None,
    }
}

/// The nodes behind one more node have the values behind one more value.
pub proof fn lemma_nodes_view_push(nodes: Seq<Node>, node: Node)
    ensures
        nodes_view(nodes.push(node)) == nodes_view(nodes).push(node_view(node)),
{
    assert(nodes.push(node).drop_last() =~= nodes);
}

/// `element` with one more child behind those it has.
pub open spec fn with_child(element: ElementView, child: NodeView) -> ElementView {
    ElementView { children: element.children.push(child), ..element }
}

/// Whether an index that may be absent lies in the pool where it is present.
pub open spec fn present_index_ok(count: nat, index: Option<u32>) -> bool {
    index matches Some(i) ==> index_ok(count, i)
}

/// Whether every string index of an attribute lies in the pool.
pub open spec fn attribute_indices_ok(count: nat, attribute: ResolvedAttribute) -> bool {
    &&& present_index_ok(count, attribute.namespace)
    &&& present_index_ok(count, attribute.prefix)
    &&& index_ok(count, attribute.name)
    &&& present_index_ok(count, attribute.raw_value)
    &&& value_ok(count, attribute.value)
}

/// Whether every string index of an element, of its attributes and of
/// everything inside it lies in the pool.
pub open spec fn element_indices_ok(count: nat, element: ElementView) -> bool
    decreases element,
{
    &&& present_index_ok(count, element.namespace)
    &&& present_index_ok(count, element.prefix)
    &&& index_ok(count, element.name)
    &&& forall|i: int|
        0 <= i < element.attributes.len() ==> attribute_indices_ok(
            count,
            #[trigger] element.attributes[i],
        )
    &&& forall|i: int|
        0 <= i < element.children.len() ==> node_indices_ok(count, #[trigger] element.children[i])
}

/// Whether every string index of a node lies in the pool.
pub open spec fn node_indices_ok(count: nat, node: NodeView) -> bool
    decreases node,
{
    match node {
        NodeView::Element(element) => element_indices_ok(count, element),
        NodeView::Text(text) => index_ok(count, text.text),
    }
}

/// An element that gets one more child with indices in the pool keeps its
/// indices in the pool.
pub proof fn lemma_child_in_pool(count: nat, element: ElementView, child: NodeView)
    requires
        element_indices_ok(count, element),
        node_indices_ok(count, child),
    ensures
        element_indices_ok(count, with_child(element, child)),
{
    let grown = with_child(element, child);
    assert forall|i: int| 0 <= i < grown.children.len() implies node_indices_ok(
        count,
        #[trigger] grown.children[i],
    ) by {}
}

/// What the tree of a document is made of, in document order.
pub enum Mark {
    /// An element begins.
    Open { namespace: Option<u32>, name: u32, line: u32 },
    /// The innermost element that has begun ends.
    Close { namespace: Option<u32>, name: u32 },
    /// Character data.
    Text(TextNode),
}

/// An element from its beginning up to its last child.
pub open spec fn marks_before_end(element: ElementView) -> Seq<Mark>
    decreases element, 0nat,
{
    seq![Mark::Open { namespace: element.namespace, name: element.name, line: element.line }]
        + marks_of_nodes(element.children)
}

/// An element written out in document order: its beginning, everything
/// inside it, its end.
pub open spec fn marks_of_element(element: ElementView) -> Seq<Mark>
    decreases element, 1nat,
{
    marks_before_end(element).push(
        Mark::Close { namespace: element.namespace, name: element.name },
    )
}

/// A node written out in document order.
pub open spec fn marks_of_node(node: NodeView) -> Seq<Mark>
    decreases node,
{
    match node {
        NodeView::Element(element) => marks_of_element(element),
        NodeView::Text(text) => seq![Mark::Text(text)],
    }
}

/// Nodes written out in document order, one behind the other.
pub open spec fn marks_of_nodes(nodes: Seq<NodeView>) -> Seq<Mark>
    decreases nodes,
{
    if nodes.len() == 0 {
        Seq::empty()
    } else {
        marks_of_nodes(nodes.drop_last()) + marks_of_node(nodes.last())
    }
}

/// An element with one more child is written out as before, with the child
/// behind.
pub proof fn lemma_marks_with_child(element: ElementView, child: NodeView)
    ensures
        marks_before_end(with_child(element, child)) == marks_before_end(element) + marks_of_node(
            child,
        ),
{
    assert(with_child(element, child).children.drop_last() =~= element.children);
}

} // verus!
