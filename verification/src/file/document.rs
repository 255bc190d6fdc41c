//! The assembly of the document tree from the chunk stream.

use crate::file::axml::{Axml, AxmlError, AxmlView};
use crate::file::chunk::{
    chunk_views, Attribute, AttributeView, Chunk, ChunkView, Namespace, Tag, ATTRIBUTE_LENGHT,
};
use crate::file::string_pool::{StringBlock, StringBlockView};
use crate::file::tree::{
    attribute_indices_ok, element_indices_ok, elements_view, lemma_child_in_pool,
    lemma_marks_with_child, lemma_nodes_view_push, marks_before_end, marks_of_element,
    marks_of_node, node_view, present_index_ok, root_view, with_child, Element, ElementView,
    Mark, Node, NodeView, ResolvedAttribute, TextNode,
};
use crate::file::value::{
    decode_value, index_ok, index_or_absent, lookup_index, optional_index_ok, typed_value,
    value_ok, TypedValue,
};
use vstd::prelude::*;

verus! {

/// A namespace binding that is in effect.
#[derive(Debug, Clone, Copy, PartialEq, Eq, Structural)]
pub struct Scope {
    /// String index of the prefix.
    pub prefix: u32,
    /// String index of the URI.
    pub uri: u32,
}

/// The prefix that the innermost binding for `namespace` gives it, if
/// `namespace` is present and a binding for it is in effect.
pub open spec fn prefix_of(scopes: Seq<Scope>, namespace: Option<u32>) -> Option<u32>
    decreases scopes.len(),
{
    if namespace is None || scopes.len() == 0 {
        None
    } else if scopes.last().uri == namespace->0 {
        Some(scopes.last().prefix)
    } else {
        prefix_of(scopes.drop_last(), namespace)
    }
}

/// Whether every string index in the attribute record `k` of `words` lies in
/// the pool: the namespace and the written value if present, the name, and
/// the value if it is a string.
pub open spec fn record_ok(count: nat, words: Seq<u32>, k: int) -> bool {
    &&& optional_index_ok(count, words[5 * k])
    &&& index_ok(count, words[5 * k + 1])
    &&& optional_index_ok(count, words[5 * k + 2])
    &&& value_ok(count, typed_value(words[5 * k + 3], words[5 * k + 4]))
}

/// The attribute that record `k` of `words` stands for: namespace, name,
/// written value, type word, data word.
pub open spec fn record(scopes: Seq<Scope>, words: Seq<u32>, k: int) -> ResolvedAttribute {
    ResolvedAttribute {
        namespace: index_or_absent(words[5 * k]),
        prefix: prefix_of(scopes, index_or_absent(words[5 * k])),
        name: words[5 * k + 1],
        raw_value: index_or_absent(words[5 * k + 2]),
        value: typed_value(words[5 * k + 3], words[5 * k + 4]),
    }
}

/// The attributes that the words of an attribute block stand for. Words
/// that do not make whole records are `InvalidChunkSize`; a string index
/// outside the pool is `InvalidStringIndex`.
pub open spec fn attributes_of(count: nat, scopes: Seq<Scope>, words: Seq<u32>) -> Result<
    Seq<ResolvedAttribute>,
    AxmlError,
> {
    if words.len() % 5 != 0 {
        Err(AxmlError::InvalidChunkSize)
    } else if forall|k: int| 0 <= k < words.len() / 5 ==> #[trigger] record_ok(count, words, k) {
        Ok(Seq::new(words.len() / 5, |k: int| record(scopes, words, k)))
    } else {
        Err(AxmlError::InvalidStringIndex)
    }
}

/// The element that an element start opens, still without children.
pub open spec fn element_of(
    count: nat,
    scopes: Seq<Scope>,
    tag: Tag,
    attribute: AttributeView,
) -> Result<ElementView, AxmlError> {
    if !optional_index_ok(count, tag.namespace_uri) || !index_ok(count, tag.name) {
        Err(AxmlError::InvalidStringIndex)
    } else {
        match attributes_of(count, scopes, attribute.attributes) {
            Ok(attributes) => Ok(
                ElementView {
                    namespace: index_or_absent(tag.namespace_uri),
                    prefix: prefix_of(scopes, index_or_absent(tag.namespace_uri)),
                    name: tag.name,
                    line: tag.header.line,
                    id_attribute: attribute.id_attribute,
                    class_attribute: attribute.class_attribute,
                    style_attribute: attribute.style_attribute,
                    attributes,
                    children: Seq::empty(),
                },
            ),
            Err(error) => Err(error),
        }
    }
}

/// What has been assembled when a part of the chunk stream has been taken in.
#[verifier::ext_equal]
pub struct TreeState {
    /// The namespace bindings in effect, the innermost last.
    pub scopes: Seq<Scope>,
    /// The elements that are open, the innermost last, each with the
    /// children that are already closed.
    pub open: Seq<ElementView>,
    /// The root element, once it is closed.
    pub root: Option<ElementView>,
    /// The resource identifiers seen so far.
    pub resource_ids: Seq<u32>,
}

/// The state before the first chunk.
pub open spec fn initial_state() -> TreeState {
    TreeState {
        scopes: Seq::empty(),
        open: Seq::empty(),
        root: None,
        resource_ids: Seq::empty(),
    }
}

/// Whether an element end with the given name closes `element`.
pub open spec fn closes(tag: Tag, element: ElementView) -> bool {
    index_or_absent(tag.namespace_uri) == element.namespace && tag.name == element.name
}

/// The state with its innermost open element closed: it becomes the root
/// where no other element is open, and the last child of the element around
/// it otherwise.
pub open spec fn close_innermost(state: TreeState) -> TreeState {
    let closed = state.open.last();
    let outer = state.open.drop_last();
    if outer.len() == 0 {
        TreeState { open: outer, root: Some(closed), ..state }
    } else {
        TreeState {
            open: outer.drop_last().push(with_child(outer.last(), NodeView::Element(closed))),
            ..state
        }
    }
}

/// The state after one more chunk, for a pool of `count` strings.
///
/// Resource identifiers are collected. A namespace start brings a binding
/// into effect; a namespace end takes the innermost binding out, which must
/// be the one it names. An element start opens an element, unless the root
/// is already closed. An element end closes the innermost open element,
/// whose name it must carry. Text becomes the last child of the innermost
/// open element. What breaks the nesting is `StructuralMismatch`; a string
/// index outside the pool is `InvalidStringIndex`.
pub open spec fn step(count: nat, state: TreeState, chunk: ChunkView) -> Result<
    TreeState,
    AxmlError,
> {
    match chunk {
        ChunkView::Resources(ids) => Ok(
            TreeState { resource_ids: state.resource_ids + ids, ..state },
        ),
        ChunkView::StartNamespace(namespace) => if index_ok(count, namespace.prefix) && index_ok(
            count,
            namespace.uri,
        ) {
            Ok(
                TreeState {
                    scopes: state.scopes.push(
                        Scope { prefix: namespace.prefix, uri: namespace.uri },
                    ),
                    ..state
                },
            )
        } else {
            Err(AxmlError::InvalidStringIndex)
        },
        ChunkView::EndNamespace(namespace) => if state.scopes.len() > 0 && state.scopes.last()
            == (Scope { prefix: namespace.prefix, uri: namespace.uri }) {
            Ok(TreeState { scopes: state.scopes.drop_last(), ..state })
        } else {
            Err(AxmlError::StructuralMismatch)
        },
        ChunkView::StartTag(tag, attribute) => if state.root is Some {
            Err(AxmlError::StructuralMismatch)
        } else {
            match element_of(count, state.scopes, tag, attribute) {
                Ok(element) => Ok(TreeState { open: state.open.push(element), ..state }),
                Err(error) => Err(error),
            }
        },
        ChunkView::EndTag(tag) => if state.open.len() > 0 && closes(tag, state.open.last()) {
            Ok(close_innermost(state))
        } else {
            Err(AxmlError::StructuralMismatch)
        },
        ChunkView::Text(text) => if state.open.len() == 0 {
            Err(AxmlError::StructuralMismatch)
        } else if !index_ok(count, text.name) {
            Err(AxmlError::InvalidStringIndex)
        } else {
            Ok(
                TreeState {
                    open: state.open.drop_last().push(
                        with_child(
                            state.open.last(),
                            NodeView::Text(TextNode { text: text.name, line: text.header.line }),
                        ),
                    ),
                    ..state
                },
            )
        },
    }
}

/// The state after the chunks from index `from` on, or the first error.
pub open spec fn run(count: nat, state: TreeState, chunks: Seq<ChunkView>, from: int) -> Result<
    TreeState,
    AxmlError,
>
    decreases chunks.len() - from,
{
    if from < 0 || from >= chunks.len() {
        Ok(state)
    } else {
        match step(count, state, chunks[from]) {
            Ok(next) => run(count, next, chunks, from + 1),
            Err(error) => Err(error),
        }
    }
}

/// The document that a final state holds. A stream that ends while an
/// element is open, or that held no element at all, is `InvalidTag`.
pub open spec fn finish(pool: StringBlockView, state: TreeState) -> Result<AxmlView, AxmlError> {
    if state.open.len() == 0 && state.root is Some {
        Ok(AxmlView { string_block: pool, root: state.root->0, resource_ids: state.resource_ids })
    } else {
        Err(AxmlError::InvalidTag)
    }
}

/// The document that a string pool and a chunk stream make.
pub open spec fn document_of(pool: StringBlockView, chunks: Seq<ChunkView>) -> Result<
    AxmlView,
    AxmlError,
> {
    match run(pool.string_offsets.len(), initial_state(), chunks, 0) {
        Ok(state) => finish(pool, state),
        Err(error) => Err(error),
    }
}

/// The executable form of a [`TreeState`].
struct TreeBuilder {
    scopes: Vec<Scope>,
    open: Vec<Element>,
    root: Option<Element>,
    resource_ids: Vec<u32>,
}

impl View for TreeBuilder {
    type V = TreeState;

    closed spec fn view(&self) -> TreeState {
        TreeState {
            scopes: self.scopes@,
            open: elements_view(self.open@),
            root: root_view(self.root),
            resource_ids: self.resource_ids@,
        }
    }
}

/// Finds the prefix that the innermost binding in effect gives a namespace.
fn resolve_prefix(scopes: &Vec<Scope>, namespace: Option<u32>) -> (prefix: Option<u32>)
    ensures
        prefix == prefix_of(scopes@, namespace),
{
    match namespace {
        None => None,
        Some(uri) => {
            let mut i: usize = scopes.len();
            assert(scopes@.take(i as int) =~= scopes@);
            while i > 0
                invariant
                    i <= scopes.len(),
                    namespace == Some(uri),
                    prefix_of(scopes@, namespace) == prefix_of(scopes@.take(i as int), namespace),
                decreases i,
            {
                i = i - 1;
                assert(scopes@.take(i + 1).drop_last() =~= scopes@.take(i as int));
                if scopes[i].uri == uri {
                    return Some(scopes[i].prefix);
                }
            }
            None
        },
    }
}

/// Tests whether a word holds a string index of the pool or marks an absent
/// index.
fn check_optional_index(count: usize, word: u32) -> (ok: bool)
    ensures
        ok == optional_index_ok(count as nat, word),
{
    match lookup_index(word) {
        None => true,
        Some(index) => (index as usize) < count,
    }
}

/// Tests whether a word holds a string index of the pool.
fn check_index(count: usize, word: u32) -> (ok: bool)
    ensures
        ok == index_ok(count as nat, word),
{
    match lookup_index(word) {
        None => false,
        Some(index) => (index as usize) < count,
    }
}

/// Tests whether a value that names a string names one of the pool.
fn check_value(count: usize, value: TypedValue) -> (ok: bool)
    ensures
        ok == value_ok(count as nat, value),
{
    match value {
        TypedValue::StringRef(index) => check_index(count, index),
        _ => true,
    }
}

/// Turns the words of an attribute block into attributes.
fn resolve_attributes(count: usize, scopes: &Vec<Scope>, words: &Vec<u32>) -> (r: Result<
    Vec<ResolvedAttribute>,
    AxmlError,
>)
    ensures
        match attributes_of(count as nat, scopes@, words@) {
            Ok(attributes) => r matches Ok(v) && v@ == attributes,
            Err(error) => r matches Err(e) && e == error,
        },
{
    if words.len() % (ATTRIBUTE_LENGHT as usize) != 0 {
        return Err(AxmlError::InvalidChunkSize);
    }
    let total = words.len() / (ATTRIBUTE_LENGHT as usize);
    let mut attributes: Vec<ResolvedAttribute> = Vec::new();
    let mut k: usize = 0;
    while k < total
        invariant
            k <= total,
            5 * total == words.len(),
            forall|j: int| 0 <= j < k ==> #[trigger] record_ok(count as nat, words@, j),
            attributes@ == Seq::new(k as nat, |j: int| record(scopes@, words@, j)),
        decreases total - k,
    {
        let at = 5 * k;
        let namespace_word = words[at];
        let name = words[at + 1];
        let raw_word = words[at + 2];
        let value = decode_value(words[at + 3], words[at + 4]);
        if !check_optional_index(count, namespace_word) || !check_index(count, name)
            || !check_optional_index(count, raw_word) || !check_value(count, value) {
            assert(!record_ok(count as nat, words@, k as int));
            return Err(AxmlError::InvalidStringIndex);
        }
        let namespace = lookup_index(namespace_word);
        attributes.push(
            ResolvedAttribute {
                namespace,
                prefix: resolve_prefix(scopes, namespace),
                name,
                raw_value: lookup_index(raw_word),
                value,
            },
        );
        k = k + 1;
    }
    Ok(attributes)
}

/// Opens the element that an element start describes.
fn start_element(count: usize, scopes: &Vec<Scope>, tag: &Tag, attribute: &Attribute) -> (r:
    Result<Element, AxmlError>)
    ensures
        match element_of(count as nat, scopes@, *tag, attribute@) {
            Ok(element) => r matches Ok(e) && e@ == element,
            Err(error) => r matches Err(e) && e == error,
        },
{
    if !check_optional_index(count, tag.namespace_uri) || !check_index(count, tag.name) {
        return Err(AxmlError::InvalidStringIndex);
    }
    let attributes = resolve_attributes(count, scopes, &attribute.attributes)?;
    let namespace = lookup_index(tag.namespace_uri);
    let element = Element {
        namespace,
        prefix: resolve_prefix(scopes, namespace),
        name: tag.name,
        line: tag.header.line,
        id_attribute: attribute.id_attribute,
        class_attribute: attribute.class_attribute,
        style_attribute: attribute.style_attribute,
        attributes,
        children: Vec::new(),
    };
    Ok(element)
}

/// Appends `child` to the innermost open element.
fn add_child(open: &mut Vec<Element>, child: Node)
    requires
        old(open)@.len() > 0,
    ensures
        elements_view(final(open)@) == elements_view(old(open)@).drop_last().push(
            with_child(elements_view(old(open)@).last(), node_view(child)),
        ),
{
    let mut parent = open.pop().unwrap();
    proof {
        lemma_nodes_view_push(parent.children@, child);
    }
    parent.children.push(child);
    open.push(parent);
}

/// Takes one chunk into the tree being assembled.
fn apply(count: usize, state: TreeBuilder, chunk: &Chunk) -> (r: Result<TreeBuilder, AxmlError>)
    ensures
        match step(count as nat, state@, chunk@) {
            Ok(next) => r matches Ok(b) && b@ == next,
            Err(error) => r matches Err(e) && e == error,
        },
{
    let mut state = state;
    match chunk {
        Chunk::Resources(ids) => {
            state.resource_ids.extend_from_slice(ids.as_slice());
            Ok(state)
        },
        Chunk::StartNamespace(namespace) => {
            if !check_index(count, namespace.prefix) || !check_index(count, namespace.uri) {
                return Err(AxmlError::InvalidStringIndex);
            }
            state.scopes.push(Scope { prefix: namespace.prefix, uri: namespace.uri });
            Ok(state)
        },
        Chunk::EndNamespace(namespace) => {
            let depth = state.scopes.len();
            if depth == 0 || state.scopes[depth - 1].prefix != namespace.prefix
                || state.scopes[depth - 1].uri != namespace.uri {
                return Err(AxmlError::StructuralMismatch);
            }
            state.scopes.pop();
            Ok(state)
        },
        Chunk::StartTag(tag, attribute) => {
            if state.root.is_some() {
                return Err(AxmlError::StructuralMismatch);
            }
            let element = start_element(count, &state.scopes, tag, attribute)?;
            state.open.push(element);
            Ok(state)
        },
        Chunk::EndTag(tag) => {
            let depth = state.open.len();
            if depth == 0 {
                return Err(AxmlError::StructuralMismatch);
            }
            let same_namespace = match (lookup_index(tag.namespace_uri), state.open[depth
                - 1].namespace) {
                (Some(a), Some(b)) => a == b,
                (None, None) => true,
                _ => false,
            };
            if !same_namespace || state.open[depth - 1].name != tag.name {
                return Err(AxmlError::StructuralMismatch);
            }
            let closed = state.open.pop().unwrap();
            if state.open.len() == 0 {
                state.root = Some(closed);
            } else {
                add_child(&mut state.open, Node::Element(closed));
            }
            Ok(state)
        },
        Chunk::Text(text) => {
            if state.open.len() == 0 {
                return Err(AxmlError::StructuralMismatch);
            }
            if !check_index(count, text.name) {
                return Err(AxmlError::InvalidStringIndex);
            }
            add_child(
                &mut state.open,
                Node::Text(TextNode { text: text.name, line: text.header.line }),
            );
            Ok(state)
        },
    }
}

/// Assembles the document from the string pool and the chunk stream.
pub fn build_document(pool: StringBlock, chunks: Vec<Chunk>) -> (r: Result<Axml, AxmlError>)
    ensures
        match document_of(pool@, chunk_views(chunks@)) {
            Ok(document) => r matches Ok(d) && d@ == document,
            Err(error) => r matches Err(e) && e == error,
        },
{
    let count = pool.string_offsets.len();
    let mut state = TreeBuilder {
        scopes: Vec::new(),
        open: Vec::new(),
        root: None,
        resource_ids: Vec::new(),
    };
    assert(state@ =~= initial_state());
    let mut i: usize = 0;
    while i < chunks.len()
        invariant
            i <= chunks.len(),
            count == pool@.string_offsets.len(),
            run(count as nat, initial_state(), chunk_views(chunks@), 0) == run(
                count as nat,
                state@,
                chunk_views(chunks@),
                i as int,
            ),
        decreases chunks.len() - i,
    {
        state = apply(count, state, &chunks[i])?;
        i = i + 1;
    }
    if state.open.len() != 0 {
        return Err(AxmlError::InvalidTag);
    }
    match state.root {
        Some(root) => Ok(Axml { string_block: pool, root, resource_ids: state.resource_ids }),
        None => Err(AxmlError::InvalidTag),
    }
}

/// Whether every string index in a state of the assembly lies in the pool.
pub open spec fn state_indices_ok(count: nat, state: TreeState) -> bool {
    &&& forall|i: int|
        0 <= i < state.scopes.len() ==> index_ok(count, (#[trigger] state.scopes[i]).prefix)
            && index_ok(count, state.scopes[i].uri)
    &&& forall|i: int|
        0 <= i < state.open.len() ==> element_indices_ok(count, #[trigger] state.open[i])
    &&& state.root matches Some(root) ==> element_indices_ok(count, root)
}

/// A prefix that comes from bindings with indices in the pool lies in the
/// pool.
proof fn lemma_prefix_in_pool(count: nat, scopes: Seq<Scope>, namespace: Option<u32>)
    requires
        forall|i: int|
            0 <= i < scopes.len() ==> index_ok(count, (#[trigger] scopes[i]).prefix) && index_ok(
                count,
                scopes[i].uri,
            ),
    ensures
        present_index_ok(count, prefix_of(scopes, namespace)),
    decreases scopes.len(),
{
    if namespace is Some && scopes.len() > 0 && scopes.last().uri != namespace->0 {
        lemma_prefix_in_pool(count, scopes.drop_last(), namespace);
    }
}

/// One chunk keeps the indices of the assembly in the pool.
proof fn lemma_step_keeps_indices(count: nat, state: TreeState, chunk: ChunkView)
    requires
        state_indices_ok(count, state),
        step(count, state, chunk) is Ok,
    ensures
        state_indices_ok(count, step(count, state, chunk)->Ok_0),
{
    match chunk {
        ChunkView::StartTag(tag, attribute) => {
            let element = element_of(count, state.scopes, tag, attribute)->Ok_0;
            lemma_prefix_in_pool(count, state.scopes, index_or_absent(tag.namespace_uri));
            assert forall|i: int| 0 <= i < element.attributes.len() implies attribute_indices_ok(
                count,
                #[trigger] element.attributes[i],
            ) by {
                assert(record_ok(count, attribute.attributes, i));
                lemma_prefix_in_pool(
                    count,
                    state.scopes,
                    index_or_absent(attribute.attributes[5 * i]),
                );
            }
        },
        ChunkView::EndTag(_) => {
            let closed = state.open.last();
            let outer = state.open.drop_last();
            if outer.len() > 0 {
                lemma_child_in_pool(count, outer.last(), NodeView::Element(closed));
            }
        },
        ChunkView::Text(text) => {
            lemma_child_in_pool(
                count,
                state.open.last(),
                NodeView::Text(TextNode { text: text.name, line: text.header.line }),
            );
        },
        _ => {},
    }
}

/// The whole stream keeps the indices of the assembly in the pool.
proof fn lemma_run_keeps_indices(count: nat, state: TreeState, chunks: Seq<ChunkView>, from: int)
    requires
        state_indices_ok(count, state),
        run(count, state, chunks, from) is Ok,
    ensures
        state_indices_ok(count, run(count, state, chunks, from)->Ok_0),
    decreases chunks.len() - from,
{
    if 0 <= from < chunks.len() {
        lemma_step_keeps_indices(count, state, chunks[from]);
        lemma_run_keeps_indices(count, step(count, state, chunks[from])->Ok_0, chunks, from + 1);
    }
}

/// Every string index that a document refers to lies in its string pool:
/// the names, namespaces and prefixes of its elements and attributes, the
/// written values and string values of its attributes, and its texts.
pub proof fn lemma_document_indices_are_in_pool(pool: StringBlockView, chunks: Seq<ChunkView>)
    requires
        document_of(pool, chunks) is Ok,
    ensures
        element_indices_ok(pool.string_offsets.len(), document_of(pool, chunks)->Ok_0.root),
{
    lemma_run_keeps_indices(pool.string_offsets.len(), initial_state(), chunks, 0);
}

/// What a chunk contributes to the tree: the beginning or the end of an
/// element, or a text. Namespaces and resource identifiers contribute
/// nothing.
pub open spec fn marks_of_chunk(chunk: ChunkView) -> Seq<Mark> {
    match chunk {
        ChunkView::StartTag(tag, _) => seq![
            Mark::Open {
                namespace: index_or_absent(tag.namespace_uri),
                name: tag.name,
                line: tag.header.line,
            },
        ],
        ChunkView::EndTag(tag) => seq![
            Mark::Close { namespace: index_or_absent(tag.namespace_uri), name: tag.name },
        ],
        ChunkView::Text(text) => seq![
            Mark::Text(TextNode { text: text.name, line: text.header.line }),
        ],
        _ => Seq::empty(),
    }
}

/// What the chunks of a stream contribute to the tree, one behind the other.
pub open spec fn marks_of_chunks(chunks: Seq<ChunkView>) -> Seq<Mark>
    decreases chunks.len(),
{
    if chunks.len() == 0 {
        Seq::empty()
    } else {
        marks_of_chunks(chunks.drop_last()) + marks_of_chunk(chunks.last())
    }
}

/// The open elements written out as far as they have come, the outermost
/// first.
pub open spec fn marks_of_open(open: Seq<ElementView>) -> Seq<Mark>
    decreases open.len(),
{
    if open.len() == 0 {
        Seq::empty()
    } else {
        marks_of_open(open.drop_last()) + marks_before_end(open.last())
    }
}

/// What a state of the assembly has taken in of the tree.
pub open spec fn marks_of_state(state: TreeState) -> Seq<Mark> {
    match state.root {
        Some(root) => marks_of_element(root),
        None => marks_of_open(state.open),
    }
}

/// Whether a state is what the assembly makes of `chunks`: it has taken in
/// their marks, and once the root is closed nothing is open.
pub open spec fn state_matches(state: TreeState, chunks: Seq<ChunkView>) -> bool {
    &&& marks_of_state(state) == marks_of_chunks(chunks)
    &&& state.root is Some ==> state.open.len() == 0
}

/// Open elements with one more element opened are written out as before,
/// with the new element behind.
proof fn lemma_marks_of_open_push(open: Seq<ElementView>, element: ElementView)
    ensures
        marks_of_open(open.push(element)) == marks_of_open(open) + marks_before_end(element),
{
    assert(open.push(element).drop_last() =~= open);
}

/// One chunk keeps the state in step with the chunks taken in.
proof fn lemma_step_keeps_marks(
    count: nat,
    state: TreeState,
    chunks: Seq<ChunkView>,
    chunk: ChunkView,
)
    requires
        state_matches(state, chunks),
        step(count, state, chunk) is Ok,
    ensures
        state_matches(step(count, state, chunk)->Ok_0, chunks.push(chunk)),
{
    let next = step(count, state, chunk)->Ok_0;
    let taken = marks_of_chunks(chunks);
    assert(chunks.push(chunk).drop_last() =~= chunks);
    assert(marks_of_chunks(chunks.push(chunk)) == taken + marks_of_chunk(chunk));
    match chunk {
        ChunkView::Resources(_) => {
            assert(taken + Seq::<Mark>::empty() =~= taken);
        },
        ChunkView::StartNamespace(_) => {
            assert(taken + Seq::<Mark>::empty() =~= taken);
        },
        ChunkView::EndNamespace(_) => {
            assert(taken + Seq::<Mark>::empty() =~= taken);
        },
        ChunkView::StartTag(tag, attribute) => {
            let element = element_of(count, state.scopes, tag, attribute)->Ok_0;
            lemma_marks_of_open_push(state.open, element);
            assert(marks_before_end(element) =~= marks_of_chunk(chunk));
        },
        ChunkView::EndTag(tag) => {
            let closed = state.open.last();
            let outer = state.open.drop_last();
            let end = Mark::Close { namespace: closed.namespace, name: closed.name };
            assert(marks_of_chunk(chunk) =~= seq![end]);
            if outer.len() == 0 {
                assert(marks_of_open(state.open) =~= marks_before_end(closed));
                assert(marks_of_element(closed) =~= taken + seq![end]);
            } else {
                let parent = with_child(outer.last(), NodeView::Element(closed));
                lemma_marks_with_child(outer.last(), NodeView::Element(closed));
                lemma_marks_of_open_push(outer.drop_last(), parent);
                assert(marks_of_open(next.open) =~= marks_of_open(outer.drop_last()) + (
                marks_before_end(outer.last()) + marks_of_element(closed)));
                assert(marks_of_open(next.open) =~= taken + seq![end]);
            }
        },
        ChunkView::Text(text) => {
            let node = NodeView::Text(TextNode { text: text.name, line: text.header.line });
            let parent = with_child(state.open.last(), node);
            lemma_marks_with_child(state.open.last(), node);
            lemma_marks_of_open_push(state.open.drop_last(), parent);
            assert(marks_of_open(next.open) =~= marks_of_open(state.open.drop_last()) + (
            marks_before_end(state.open.last()) + marks_of_node(node)));
            assert(marks_of_open(next.open) =~= taken + marks_of_chunk(chunk));
        },
    }
}

/// The whole stream keeps the state in step with the chunks taken in.
proof fn lemma_run_keeps_marks(count: nat, state: TreeState, chunks: Seq<ChunkView>, from: int)
    requires
        0 <= from <= chunks.len(),
        state_matches(state, chunks.take(from)),
        run(count, state, chunks, from) is Ok,
    ensures
        state_matches(run(count, state, chunks, from)->Ok_0, chunks),
    decreases chunks.len() - from,
{
    if from < chunks.len() {
        lemma_step_keeps_marks(count, state, chunks.take(from), chunks[from]);
        assert(chunks.take(from).push(chunks[from]) =~= chunks.take(from + 1));
        lemma_run_keeps_marks(count, step(count, state, chunks[from])->Ok_0, chunks, from + 1);
    } else {
        assert(chunks.take(from) =~= chunks);
    }
}

/// The tree of a document is the tree that its chunks describe: written out
/// in document order, the root element gives the element starts, element
/// ends and texts of the stream, in the order of the stream.
pub proof fn lemma_document_is_the_stream(pool: StringBlockView, chunks: Seq<ChunkView>)
    requires
        document_of(pool, chunks) is Ok,
    ensures
        marks_of_element(document_of(pool, chunks)->Ok_0.root) == marks_of_chunks(chunks),
{
    lemma_run_keeps_marks(pool.string_offsets.len(), initial_state(), chunks, 0);
}

/// An element start directly followed by an element end of the same name
/// makes a document of one element: it has that name, no attributes where
/// the start carries none, and no children.
pub proof fn lemma_single_element(
    pool: StringBlockView,
    start: Tag,
    attribute: AttributeView,
    end: Tag,
)
    requires
        optional_index_ok(pool.string_offsets.len(), start.namespace_uri),
        index_ok(pool.string_offsets.len(), start.name),
        attribute.attributes.len() == 0,
        end.namespace_uri == start.namespace_uri,
        end.name == start.name,
    ensures
        document_of(pool, seq![ChunkView::StartTag(start, attribute), ChunkView::EndTag(end)])
            matches Ok(document) && {
            &&& document.string_block == pool
            &&& document.resource_ids.len() == 0
            &&& document.root.namespace == index_or_absent(start.namespace_uri)
            &&& document.root.prefix is None
            &&& document.root.name == start.name
            &&& document.root.line == start.header.line
            &&& document.root.attributes.len() == 0
            &&& document.root.children.len() == 0
        },
{
    reveal_with_fuel(run, 3);
}

/// An element inside a namespace binding gets the prefix of the binding:
/// where a namespace start and the end that names the same binding stand
/// around an element start and its end, and the element's namespace is the
/// URI of the binding, the document's root carries the binding's prefix.
pub proof fn lemma_element_in_namespace(
    pool: StringBlockView,
    opened: Namespace,
    start: Tag,
    attribute: AttributeView,
    end: Tag,
    closed: Namespace,
)
    requires
        index_ok(pool.string_offsets.len(), opened.prefix),
        index_ok(pool.string_offsets.len(), opened.uri),
        index_ok(pool.string_offsets.len(), start.name),
        start.namespace_uri == opened.uri,
        attribute.attributes.len() == 0,
        end.namespace_uri == start.namespace_uri,
        end.name == start.name,
        closed.prefix == opened.prefix,
        closed.uri == opened.uri,
    ensures
        document_of(
            pool,
            seq![
                ChunkView::StartNamespace(opened),
                ChunkView::StartTag(start, attribute),
                ChunkView::EndTag(end),
                ChunkView::EndNamespace(closed),
            ],
        ) matches Ok(document) && {
            &&& document.root.namespace == Some(opened.uri)
            &&& document.root.prefix == Some(opened.prefix)
            &&& document.root.name == start.name
            &&& document.root.children.len() == 0
        },
{
    reveal_with_fuel(run, 5);
    reveal_with_fuel(prefix_of, 2);
}

/// A namespace end that does not name the innermost binding in effect is
/// rejected, whatever else has been assembled.
pub proof fn lemma_unmatched_namespace_end_is_rejected(
    count: nat,
    state: TreeState,
    namespace: Namespace,
)
    requires
        state.scopes.len() == 0 || state.scopes.last() != (Scope {
            prefix: namespace.prefix,
            uri: namespace.uri,
        }),
    ensures
        step(count, state, ChunkView::EndNamespace(namespace)) == Err::<TreeState, AxmlError>(
            AxmlError::StructuralMismatch,
        ),
{
}

/// An error stops the assembly: where the chunks before index `at` are taken
/// in without error and the chunk at `at` is rejected, the whole stream is
/// rejected with that chunk's error.
pub proof fn lemma_first_error_is_the_outcome(
    count: nat,
    state: TreeState,
    chunks: Seq<ChunkView>,
    from: int,
    at: int,
)
    requires
        0 <= from <= at < chunks.len(),
        run(count, state, chunks.take(at), from) is Ok,
        step(count, run(count, state, chunks.take(at), from)->Ok_0, chunks[at]) is Err,
    ensures
        run(count, state, chunks, from) == Err::<TreeState, AxmlError>(
            step(count, run(count, state, chunks.take(at), from)->Ok_0, chunks[at])->Err_0,
        ),
    decreases at - from,
{
    if from < at {
        lemma_first_error_is_the_outcome(
            count,
            step(count, state, chunks[from])->Ok_0,
            chunks,
            from + 1,
            at,
        );
    }
}

} // verus!
