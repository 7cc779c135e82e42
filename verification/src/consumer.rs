//! The consumer tree-traversal engine: a state machine that walks a
//! provider's tree by issuing `GetDirectory` commands, dedups in-flight
//! requests, hands every materialized element to subscribers, and announces
//! when the whole tree has been received.
//!
//! The engine is purely computational: it takes decoded messages and
//! returns the requests to send and the events to deliver. The embedding
//! application runs the message loop and the queues around it.

use vstd::prelude::*;

use crate::glow::{
    Command, Element, ElementCollection, FieldFlags, Matrix, Node, Parameter, QualifiedMatrix,
    QualifiedNode, QualifiedParameter, QualifiedTemplate, Root, RootElement, Template,
    TemplateElement, node_empty, node_online, parameter_online, qualified_node_empty,
    qualified_node_online, qualified_parameter_online,
};
use crate::oid::{join, RelativeOid};

verus! {

// ---------------------------------------------------------------------------
// Sizes: the structural measure that traversal recursion shrinks
// ---------------------------------------------------------------------------
/// The size of one element, counting it and everything below it.
pub open spec fn elem_size(e: Element) -> nat
    decreases e, 1int,
{
    1 + match e {
        Element::Parameter(p) => opt_children_size(p.children),
        Element::Node(n) => opt_children_size(n.children),
        Element::Command(_) => 0,
        Element::Matrix(m) => opt_children_size(m.children),
        Element::Function(f) => opt_children_size(f.children),
        Element::Template(t) => opt_template_size(t.element),
    }
}

/// The size of a child list, if there is one.
pub open spec fn opt_children_size(c: Option<ElementCollection>) -> nat
    decreases c, 1int,
{
    match c {
        Some(col) => coll_size_from(col.0@, 0),
        None => 0,
    }
}

/// The size of the elements of a list from position `i` on.
pub open spec fn coll_size_from(s: Seq<crate::glow::TaggedElement>, i: int) -> nat
    decreases s, s.len() - i,
{
    if i < 0 || i >= s.len() {
        0
    } else {
        elem_size(s[i].0) + coll_size_from(s, i + 1)
    }
}

/// The size of a template body, if there is one.
pub open spec fn opt_template_size(t: Option<Box<TemplateElement>>) -> nat
    decreases t, 1int,
{
    match t {
        Some(te) => template_elem_size(*te),
        None => 0,
    }
}

pub open spec fn template_elem_size(te: TemplateElement) -> nat
    decreases te, 1int,
{
    1 + match te {
        TemplateElement::Parameter(p) => opt_children_size(p.children),
        TemplateElement::Node(n) => opt_children_size(n.children),
        TemplateElement::Matrix(m) => opt_children_size(m.children),
        TemplateElement::Function(f) => opt_children_size(f.children),
    }
}

/// Every element of a list fits within the whole list's size.
pub proof fn lemma_coll_size_bound(s: Seq<crate::glow::TaggedElement>, j: int, i: int)
    requires
        0 <= j <= i < s.len(),
    ensures
        elem_size(s[i].0) <= coll_size_from(s, j),
    decreases i - j,
{
    if j < i {
        lemma_coll_size_bound(s, j + 1, i);
    }
}

// ---------------------------------------------------------------------------
// Traversable messages: what the walk handles without giving up
// ---------------------------------------------------------------------------
/// Whether the walk can handle an element: templates are not walked, and a
/// matrix must carry its child list.
pub open spec fn elem_traversable(e: Element) -> bool
    decreases e, 1int,
{
    match e {
        Element::Parameter(p) => opt_children_traversable(p.children),
        Element::Node(n) => opt_children_traversable(n.children),
        Element::Command(_) => true,
        Element::Matrix(m) => m.children is Some && opt_children_traversable(m.children),
        Element::Function(_) => true,
        Element::Template(_) => false,
    }
}

pub open spec fn opt_children_traversable(c: Option<ElementCollection>) -> bool
    decreases c, 1int,
{
    match c {
        Some(col) => coll_traversable_from(col.0@, 0),
        None => true,
    }
}

pub open spec fn coll_traversable_from(s: Seq<crate::glow::TaggedElement>, i: int) -> bool
    decreases s, s.len() - i,
{
    if i < 0 || i >= s.len() {
        true
    } else {
        elem_traversable(s[i].0) && coll_traversable_from(s, i + 1)
    }
}

// ---------------------------------------------------------------------------
// Tree nodes
// ---------------------------------------------------------------------------
/// One position in the tree as the traversal sees it: an element variant,
/// or the sentinel for the traversal root.
#[derive(Debug, PartialEq)]
pub enum TreeNode {
    Root,
    Node(Node),
    QualifiedNode(QualifiedNode),
    Matrix(Matrix),
    QualifiedMatrix(QualifiedMatrix),
    Parameter(Parameter),
    QualifiedParameter(QualifiedParameter),
    Template(Template),
    QualifiedTemplate(QualifiedTemplate),
}

/// The size of a tree node: what its recursion has left to do.
pub open spec fn tn_size(n: TreeNode) -> nat {
    match n {
        TreeNode::Root => 0,
        TreeNode::Node(nd) => 1 + opt_children_size(nd.children),
        TreeNode::QualifiedNode(q) => 1 + opt_children_size(q.children),
        TreeNode::Matrix(m) => 1 + opt_children_size(m.children),
        TreeNode::QualifiedMatrix(q) => 1 + opt_children_size(q.children),
        TreeNode::Parameter(p) => 1 + opt_children_size(p.children),
        TreeNode::QualifiedParameter(q) => 1 + opt_children_size(q.children),
        TreeNode::Template(t) => 1 + opt_template_size(t.element),
        TreeNode::QualifiedTemplate(t) => 1 + opt_template_size(t.element),
    }
}

/// Whether the walk can handle one node of the tree.
pub open spec fn tn_traversable(n: TreeNode) -> bool {
    match n {
        TreeNode::Root => true,
        TreeNode::Node(nd) => opt_children_traversable(nd.children),
        TreeNode::QualifiedNode(q) => opt_children_traversable(q.children),
        TreeNode::Matrix(m) => m.children is Some && opt_children_traversable(m.children),
        TreeNode::QualifiedMatrix(q) => q.children is Some && opt_children_traversable(q.children),
        TreeNode::Parameter(p) => opt_children_traversable(p.children),
        TreeNode::QualifiedParameter(q) => opt_children_traversable(q.children),
        TreeNode::Template(_) => false,
        TreeNode::QualifiedTemplate(_) => false,
    }
}

/// Whether the walk can handle a root element.
pub open spec fn root_elem_traversable(re: RootElement) -> bool {
    match re {
        RootElement::Element(e) => elem_traversable(e),
        RootElement::QualifiedParameter(q) => opt_children_traversable(q.children),
        RootElement::QualifiedNode(q) => opt_children_traversable(q.children),
        RootElement::QualifiedMatrix(q) => q.children is Some && opt_children_traversable(
            q.children,
        ),
        RootElement::QualifiedFunction(_) => true,
        RootElement::QualifiedTemplate(_) => false,
    }
}

/// Whether the walk can handle a whole inbound message: it holds elements,
/// every one of them walkable.
pub open spec fn root_traversable(r: Root) -> bool {
    match r {
        Root::Elements(c) => forall|i: int|
            0 <= i < c.0@.len() ==> root_elem_traversable(#[trigger] c.0@[i].0),
        Root::Streams(_) => false,
        Root::InvocationResult(_) => false,
    }
}

/// Checks one element for walkability.
pub fn check_element(e: &Element) -> (r: bool)
    ensures
        r == elem_traversable(*e),
    decreases *e,
{
    match e {
        Element::Parameter(p) => check_opt_children(&p.children),
        Element::Node(n) => check_opt_children(&n.children),
        Element::Command(_) => true,
        Element::Matrix(m) => m.children.is_some() && check_opt_children(&m.children),
        Element::Function(_) => true,
        Element::Template(_) => false,
    }
}

/// Checks a child list for walkability.
pub fn check_opt_children(c: &Option<ElementCollection>) -> (r: bool)
    ensures
        r == opt_children_traversable(*c),
    decreases *c,
{
    match c {
        Some(col) => {
            let items = &col.0;
            let mut i: usize = 0;
            let mut ok = true;
            while i < items.len() && ok
                invariant
                    i <= items@.len(),
                    c matches Some(cc) && cc.0@ == items@,
                    ok ==> coll_traversable_from(items@, 0) == coll_traversable_from(
                        items@,
                        i as int,
                    ),
                    !ok ==> !coll_traversable_from(items@, 0),
                decreases items@.len() - i,
            {
                let e_ok = check_element(&items[i].0);
                if !e_ok {
                    proof {
                        lemma_coll_traversable_prefix(items@, i as int);
                    }
                    ok = false;
                } else {
                    proof {
                        assert(coll_traversable_from(items@, i as int) == (elem_traversable(
                            items@[i as int].0,
                        ) && coll_traversable_from(items@, i + 1)));
                    }
                }
                i += 1;
            }
            ok
        },
        None => true,
    }
}

/// A non-walkable element at `i` makes the whole tail, and so the whole
/// list, non-walkable.
proof fn lemma_coll_traversable_prefix(s: Seq<crate::glow::TaggedElement>, i: int)
    requires
        0 <= i < s.len(),
        !elem_traversable(s[i].0),
    ensures
        !coll_traversable_from(s, 0),
{
    lemma_coll_traversable_reaches(s, 0, i);
}

proof fn lemma_coll_traversable_reaches(s: Seq<crate::glow::TaggedElement>, j: int, i: int)
    requires
        0 <= j <= i < s.len(),
        !elem_traversable(s[i].0),
    ensures
        !coll_traversable_from(s, j),
    decreases i - j,
{
    if j < i {
        lemma_coll_traversable_reaches(s, j + 1, i);
    }
}

// ---------------------------------------------------------------------------
// Tree node operations
// ---------------------------------------------------------------------------
/// The identifier of a node seen under `parent`: the root is empty, an
/// unqualified element appends its number, a qualified element carries its
/// whole path.
pub open spec fn tn_oid(n: TreeNode, parent: Seq<u32>) -> Seq<u32> {
    match n {
        TreeNode::Root => Seq::empty(),
        TreeNode::Node(nd) => parent.push(nd.number as u32),
        TreeNode::QualifiedNode(q) => q.path@,
        TreeNode::Matrix(m) => parent.push(m.number as u32),
        TreeNode::QualifiedMatrix(q) => q.path@,
        TreeNode::Parameter(p) => parent.push(p.number as u32),
        TreeNode::QualifiedParameter(q) => q.path@,
        TreeNode::Template(t) => parent.push(t.number as u32),
        TreeNode::QualifiedTemplate(q) => q.path@,
    }
}

/// Whether a node is empty: nothing below it and nothing said about it.
pub open spec fn tn_empty(n: TreeNode) -> bool {
    match n {
        TreeNode::Root => false,
        TreeNode::Node(nd) => node_empty(nd),
        TreeNode::QualifiedNode(q) => qualified_node_empty(q),
        TreeNode::Matrix(_) => true,
        TreeNode::QualifiedMatrix(_) => true,
        TreeNode::Parameter(p) => crate::glow::parameter_empty(p),
        TreeNode::QualifiedParameter(q) => crate::glow::qualified_parameter_empty(q),
        TreeNode::Template(_) => true,
        TreeNode::QualifiedTemplate(_) => true,
    }
}

/// Whether a node is online: it is unless its contents say otherwise.
pub open spec fn tn_online(n: TreeNode) -> bool {
    match n {
        TreeNode::Root => true,
        TreeNode::Node(nd) => node_online(nd),
        TreeNode::QualifiedNode(q) => qualified_node_online(q),
        TreeNode::Matrix(_) => true,
        TreeNode::QualifiedMatrix(_) => true,
        TreeNode::Parameter(p) => parameter_online(p),
        TreeNode::QualifiedParameter(q) => qualified_parameter_online(q),
        TreeNode::Template(_) => true,
        TreeNode::QualifiedTemplate(_) => true,
    }
}

/// Whether the walk should ask for a node's directory: the root always,
/// a node when it is not empty, a parameter never.
pub open spec fn tn_may_have_children(n: TreeNode) -> bool {
    match n {
        TreeNode::Root => true,
        TreeNode::Node(nd) => !node_empty(nd),
        TreeNode::QualifiedNode(q) => !qualified_node_empty(q),
        TreeNode::Parameter(_) => false,
        TreeNode::QualifiedParameter(_) => false,
        TreeNode::Matrix(_) => false,
        TreeNode::QualifiedMatrix(_) => false,
        TreeNode::Template(_) => false,
        TreeNode::QualifiedTemplate(_) => false,
    }
}

/// The materialized child list of a node, where it carries one.
pub open spec fn tn_children(n: TreeNode) -> Option<Seq<crate::glow::TaggedElement>> {
    match n {
        TreeNode::Node(nd) => match nd.children {
            Some(c) => Some(c.0@),
            None => None,
        },
        TreeNode::QualifiedNode(q) => match q.children {
            Some(c) => Some(c.0@),
            None => None,
        },
        TreeNode::Matrix(m) => match m.children {
            Some(c) => Some(c.0@),
            None => None,
        },
        TreeNode::QualifiedMatrix(q) => match q.children {
            Some(c) => Some(c.0@),
            None => None,
        },
        TreeNode::Parameter(p) => match p.children {
            Some(c) => Some(c.0@),
            None => None,
        },
        TreeNode::QualifiedParameter(q) => match q.children {
            Some(c) => Some(c.0@),
            None => None,
        },
        TreeNode::Root => None,
        TreeNode::Template(_) => None,
        TreeNode::QualifiedTemplate(_) => None,
    }
}

/// The tree nodes a child list materializes, in order; commands and
/// functions carry no tree position of their own and are skipped.
pub open spec fn tree_children(s: Seq<crate::glow::TaggedElement>) -> Seq<TreeNode>
    decreases s.len(),
{
    if s.len() == 0 {
        Seq::empty()
    } else {
        let rest = tree_children(s.drop_first());
        match s.first().0 {
            Element::Parameter(p) => seq![TreeNode::Parameter(p)] + rest,
            Element::Node(n) => seq![TreeNode::Node(n)] + rest,
            Element::Command(_) => rest,
            Element::Matrix(m) => seq![TreeNode::Matrix(m)] + rest,
            Element::Function(_) => rest,
            Element::Template(t) => seq![TreeNode::Template(t)] + rest,
        }
    }
}

/// Whether a node carries an identifier string: an element's optional
/// identifier, a matrix's mandatory one; the traversal root and templates
/// carry none.
pub open spec fn tn_id_present(n: TreeNode) -> bool {
    match n {
        TreeNode::Root => false,
        TreeNode::Node(nd) => nd.contents matches Some(c) && c.identifier is Some,
        TreeNode::QualifiedNode(q) => q.contents matches Some(c) && c.identifier is Some,
        TreeNode::Matrix(m) => m.contents is Some,
        TreeNode::QualifiedMatrix(q) => q.contents is Some,
        TreeNode::Parameter(p) => p.contents matches Some(c) && c.identifier is Some,
        TreeNode::QualifiedParameter(q) => q.contents matches Some(c) && c.identifier is Some,
        TreeNode::Template(_) => false,
        TreeNode::QualifiedTemplate(_) => false,
    }
}

/// The identifier string a node carries, where it carries one.
pub open spec fn tn_id_chars(n: TreeNode) -> Seq<char>
    recommends
        tn_id_present(n),
{
    match n {
        TreeNode::Node(nd) => nd.contents.unwrap().identifier.unwrap()@,
        TreeNode::QualifiedNode(q) => q.contents.unwrap().identifier.unwrap()@,
        TreeNode::Matrix(m) => m.contents.unwrap().identifier@,
        TreeNode::QualifiedMatrix(q) => q.contents.unwrap().identifier@,
        TreeNode::Parameter(p) => p.contents.unwrap().identifier.unwrap()@,
        TreeNode::QualifiedParameter(q) => q.contents.unwrap().identifier.unwrap()@,
        _ => Seq::empty(),
    }
}

/// Whether a command asks for the whole directory.
pub open spec fn is_get_dir_all(c: Command) -> bool {
    c.number == crate::glow::CommandType::GetDirectory && c.options == Some(
        crate::glow::CommandOptions::DirFieldMask(FieldFlags::All),
    )
}

/// Whether a child list holds exactly one `GetDirectory(All)` command.
pub open spec fn children_single_get_dir(ch: Option<ElementCollection>) -> bool {
    ch matches Some(col) && col.0@.len() == 1 && (col.0@[0].0 matches Element::Command(c)
        && is_get_dir_all(c))
}

/// The element a fabricated directory query is wrapped in: a bare command
/// at root level for the traversal root, else the qualified variant that
/// matches the addressed node's kind (the wire tags differ).
pub ghost enum RequestCarrier {
    BareCommand,
    QualifiedNode,
    QualifiedMatrix,
    QualifiedParameter,
}

/// The carrier the directory query for a node must use.
pub open spec fn carrier_of(n: TreeNode) -> RequestCarrier {
    match n {
        TreeNode::Root => RequestCarrier::BareCommand,
        TreeNode::Node(_) => RequestCarrier::QualifiedNode,
        TreeNode::QualifiedNode(_) => RequestCarrier::QualifiedNode,
        TreeNode::Matrix(_) => RequestCarrier::QualifiedMatrix,
        TreeNode::QualifiedMatrix(_) => RequestCarrier::QualifiedMatrix,
        TreeNode::Parameter(_) => RequestCarrier::QualifiedParameter,
        TreeNode::QualifiedParameter(_) => RequestCarrier::QualifiedParameter,
        TreeNode::Template(_) => RequestCarrier::BareCommand,
        TreeNode::QualifiedTemplate(_) => RequestCarrier::BareCommand,
    }
}

/// Whether a message is the directory query for `oid` in the given carrier:
/// a bare command at root level for the root, else exactly one qualified
/// element of the carrier's kind, addressed to `oid`, without contents,
/// whose only child is the command.
pub open spec fn is_get_directory_request_for(req: Root, oid: Seq<u32>, carrier: RequestCarrier) -> bool {
    req matches Root::Elements(c) && c.0@.len() == 1 && match c.0@[0].0 {
        RootElement::Element(e) => carrier == RequestCarrier::BareCommand && oid.len() == 0 && (
        e matches Element::Command(cmd) && is_get_dir_all(cmd)),
        RootElement::QualifiedNode(q) => carrier == RequestCarrier::QualifiedNode && q.path@ == oid
            && q.contents is None && children_single_get_dir(q.children),
        RootElement::QualifiedMatrix(q) => carrier == RequestCarrier::QualifiedMatrix && q.path@
            == oid && q.contents is None && children_single_get_dir(q.children),
        RootElement::QualifiedParameter(q) => carrier == RequestCarrier::QualifiedParameter
            && q.path@ == oid && q.contents is None && children_single_get_dir(q.children),
        _ => false,
    }
}

// ---------------------------------------------------------------------------
// The walk, as a mathematical function
// ---------------------------------------------------------------------------
/// The traversal state a walk threads along: the outstanding and the known
/// identifiers, in the order the engine keeps them.
pub ghost struct WalkState {
    pub in_flight: Seq<Seq<u32>>,
    pub explored: Seq<Seq<u32>>,
}

/// One directory query the walk decides to send.
pub ghost struct RequestModel {
    pub oid: Seq<u32>,
    pub carrier: RequestCarrier,
}

/// One event the walk decides to deliver.
pub ghost enum EventModel {
    Element(Seq<u32>, TreeNode),
    FullTree(int),
}

/// Whether a sent message is the modelled directory query.
pub open spec fn request_matches(r: Root, m: RequestModel) -> bool {
    is_get_directory_request_for(r, m.oid, m.carrier)
}

/// Whether a delivered event is the modelled one.
pub open spec fn event_matches(e: TreeEvent, m: EventModel) -> bool {
    match m {
        EventModel::Element(parent, node) => e matches TreeEvent::Element(p, n) && p@ == parent
            && n == node,
        EventModel::FullTree(count) => e matches TreeEvent::FullTreeReceived(c) && c == count,
    }
}

/// The position of the first occurrence of an identifier.
pub open spec fn first_index_of(s: Seq<Seq<u32>>, x: Seq<u32>) -> int
    decreases s.len(),
{
    if s.len() == 0 {
        0
    } else if s.first() == x {
        0
    } else {
        1 + first_index_of(s.drop_first(), x)
    }
}

/// Settling a parent whose contents arrived: its outstanding entry leaves,
/// and exactly when that empties the outstanding set, one full-tree
/// announcement goes out, carrying the count of known identifiers.
pub open spec fn finish_model(s: WalkState, parent: Seq<u32>) -> (WalkState, Seq<EventModel>) {
    if s.in_flight.contains(parent) {
        let in_flight = s.in_flight.remove(first_index_of(s.in_flight, parent));
        if in_flight.len() == 0 {
            (
                (WalkState { in_flight, explored: s.explored }),
                seq![EventModel::FullTree(s.explored.len() as int)],
            )
        } else {
            ((WalkState { in_flight, explored: s.explored }), Seq::empty())
        }
    } else {
        (s, Seq::empty())
    }
}

/// Visiting a leaf: where it may have children and is not yet known, it is
/// marked known; unless it is offline and offline nodes are not queried,
/// its directory query goes out and its identifier is marked outstanding,
/// never twice.
pub open spec fn leaf_model(s: WalkState, qon: bool, parent: Seq<u32>, node: TreeNode) -> (
    WalkState,
    Seq<RequestModel>,
) {
    let oid = tn_oid(node, parent);
    if tn_may_have_children(node) && !s.explored.contains(oid) {
        let explored = s.explored.push(oid);
        if tn_online(node) || qon {
            let in_flight = if s.in_flight.contains(oid) {
                s.in_flight
            } else {
                s.in_flight.push(oid)
            };
            (
                (WalkState { in_flight, explored }),
                seq![(RequestModel { oid, carrier: carrier_of(node) })],
            )
        } else {
            ((WalkState { in_flight: s.in_flight, explored }), Seq::empty())
        }
    } else {
        (s, Seq::empty())
    }
}

/// The combined size of a list of nodes.
pub open spec fn kids_sizes(kids: Seq<TreeNode>) -> nat
    decreases kids.len(),
{
    if kids.len() == 0 {
        0
    } else {
        tn_size(kids.first()) + kids_sizes(kids.drop_first())
    }
}

/// The materialized nodes of a child list weigh no more than the list.
pub proof fn lemma_tree_children_sizes(s: Seq<crate::glow::TaggedElement>)
    ensures
        kids_sizes(tree_children(s)) <= coll_size_from(s, 0),
    decreases s.len(),
{
    if s.len() > 0 {
        lemma_tree_children_sizes(s.drop_first());
        assert(coll_size_from(s, 0) == elem_size(s[0].0) + coll_size_from(s, 1));
        lemma_coll_size_shift(s);
        let rest = tree_children(s.drop_first());
        match s.first().0 {
            Element::Parameter(p) => {
                lemma_kids_sizes_cons(TreeNode::Parameter(p), rest);
            },
            Element::Node(n) => {
                lemma_kids_sizes_cons(TreeNode::Node(n), rest);
            },
            Element::Command(_) => {},
            Element::Matrix(m) => {
                lemma_kids_sizes_cons(TreeNode::Matrix(m), rest);
            },
            Element::Function(_) => {},
            Element::Template(t) => {
                lemma_kids_sizes_cons(TreeNode::Template(t), rest);
            },
        }
    }
}

/// Sizes from position one equal sizes of the tail from position zero.
proof fn lemma_coll_size_shift(s: Seq<crate::glow::TaggedElement>)
    requires
        s.len() > 0,
    ensures
        coll_size_from(s, 1) == coll_size_from(s.drop_first(), 0),
{
    lemma_coll_size_shift_from(s, 1);
}

proof fn lemma_coll_size_shift_from(s: Seq<crate::glow::TaggedElement>, i: int)
    requires
        s.len() > 0,
        1 <= i <= s.len(),
    ensures
        coll_size_from(s, i) == coll_size_from(s.drop_first(), i - 1),
    decreases s.len() - i,
{
    if i < s.len() {
        lemma_coll_size_shift_from(s, i + 1);
        assert(s.drop_first()[i - 1] == s[i]);
    }
}

/// The size of a non-empty list of nodes splits off its head.
proof fn lemma_kids_sizes_cons(head: TreeNode, rest: Seq<TreeNode>)
    ensures
        kids_sizes(seq![head] + rest) == tn_size(head) + kids_sizes(rest),
{
    assert((seq![head] + rest).first() == head);
    assert((seq![head] + rest).drop_first() =~= rest);
}

/// What the walk of one node does to the state, which directory queries it
/// sends and which events it delivers, in order: a node with materialized
/// children is walked into, a leaf is visited and delivered, and afterwards
/// the node's own identifier is settled.
pub open spec fn walk_node_model(s: WalkState, qon: bool, parent: Seq<u32>, node: TreeNode) -> (
    WalkState,
    Seq<RequestModel>,
    Seq<EventModel>,
)
    decreases tn_size(node), 0int,
        via walk_node_model_decreases
{
    match tn_children(node) {
        Some(elems) => {
            let path = tn_oid(node, parent);
            let walked = walk_kids_model(s, qon, path, tree_children(elems));
            let finished = finish_model(walked.0, parent);
            (finished.0, walked.1, walked.2 + finished.1)
        },
        None => {
            let visited = leaf_model(s, qon, parent, node);
            let finished = finish_model(visited.0, parent);
            (finished.0, visited.1, seq![EventModel::Element(parent, node)] + finished.1)
        },
    }
}

/// The walk of a list of children, left to right, threading the state.
pub open spec fn walk_kids_model(s: WalkState, qon: bool, path: Seq<u32>, kids: Seq<TreeNode>) -> (
    WalkState,
    Seq<RequestModel>,
    Seq<EventModel>,
)
    decreases kids_sizes(kids), kids.len(),
        via walk_kids_model_decreases
{
    if kids.len() == 0 {
        (s, Seq::empty(), Seq::empty())
    } else {
        let head = walk_node_model(s, qon, path, kids.first());
        let rest = walk_kids_model(head.0, qon, path, kids.drop_first());
        (rest.0, head.1 + rest.1, head.2 + rest.2)
    }
}

#[via_fn]
proof fn walk_node_model_decreases(s: WalkState, qon: bool, parent: Seq<u32>, node: TreeNode) {
    match tn_children(node) {
        Some(elems) => {
            lemma_tree_children_sizes(elems);
            assert(tn_size(node) == 1 + coll_size_from(elems, 0)) by {
                reveal_with_fuel(opt_children_size, 2);
            }
        },
        None => {},
    }
}

#[via_fn]
proof fn walk_kids_model_decreases(s: WalkState, qon: bool, path: Seq<u32>, kids: Seq<TreeNode>) {
    if kids.len() > 0 {
        assert(kids_sizes(kids) == tn_size(kids.first()) + kids_sizes(kids.drop_first()));
    }
}

/// The walk of one tagged root element: qualified variants under the parent
/// of their own path, bare elements under the root; commands and functions
/// from a provider are discarded without a trace.
pub open spec fn walk_root_elem_model(s: WalkState, qon: bool, re: RootElement) -> (
    WalkState,
    Seq<RequestModel>,
    Seq<EventModel>,
) {
    match re {
        RootElement::Element(e) => match e {
            Element::Parameter(p) => walk_node_model(
                s,
                qon,
                Seq::empty(),
                TreeNode::Parameter(p),
            ),
            Element::Node(n) => walk_node_model(s, qon, Seq::empty(), TreeNode::Node(n)),
            Element::Command(_) => (s, Seq::empty(), Seq::empty()),
            Element::Matrix(m) => walk_node_model(s, qon, Seq::empty(), TreeNode::Matrix(m)),
            Element::Function(_) => (s, Seq::empty(), Seq::empty()),
            Element::Template(_) => (s, Seq::empty(), Seq::empty()),
        },
        RootElement::QualifiedParameter(q) => walk_node_model(
            s,
            qon,
            parent_arcs(q.path@),
            TreeNode::QualifiedParameter(q),
        ),
        RootElement::QualifiedNode(q) => walk_node_model(
            s,
            qon,
            parent_arcs(q.path@),
            TreeNode::QualifiedNode(q),
        ),
        RootElement::QualifiedMatrix(q) => walk_node_model(
            s,
            qon,
            parent_arcs(q.path@),
            TreeNode::QualifiedMatrix(q),
        ),
        RootElement::QualifiedFunction(_) => (s, Seq::empty(), Seq::empty()),
        RootElement::QualifiedTemplate(_) => (s, Seq::empty(), Seq::empty()),
    }
}

/// The parent of a path: the prefix without the last arc, the root for the
/// root.
pub open spec fn parent_arcs(p: Seq<u32>) -> Seq<u32> {
    if p.len() == 0 {
        p
    } else {
        p.drop_last()
    }
}

/// The walk of a whole inbound message: its tagged elements left to right.
pub open spec fn walk_message_model(
    s: WalkState,
    qon: bool,
    items: Seq<crate::glow::TaggedRootElement>,
) -> (WalkState, Seq<RequestModel>, Seq<EventModel>)
    decreases items.len(),
{
    if items.len() == 0 {
        (s, Seq::empty(), Seq::empty())
    } else {
        let head = walk_root_elem_model(s, qon, items.first().0);
        let rest = walk_message_model(head.0, qon, items.drop_first());
        (rest.0, head.1 + rest.1, head.2 + rest.2)
    }
}

impl TreeNode {
    /// The identifier of this node under `parent`.
    pub fn oid(&self, parent: &RelativeOid) -> (r: RelativeOid)
        ensures
            r@ == tn_oid(*self, parent@),
    {
        match self {
            TreeNode::Root => RelativeOid::root(),
            TreeNode::Node(nd) => join(parent, nd.number as u32),
            TreeNode::QualifiedNode(q) => q.path.clone_oid(),
            TreeNode::Matrix(m) => join(parent, m.number as u32),
            TreeNode::QualifiedMatrix(q) => q.path.clone_oid(),
            TreeNode::Parameter(p) => join(parent, p.number as u32),
            TreeNode::QualifiedParameter(q) => q.path.clone_oid(),
            TreeNode::Template(t) => join(parent, t.number as u32),
            TreeNode::QualifiedTemplate(q) => q.path.clone_oid(),
        }
    }

    /// The identifier string of the node's contents, where one is carried.
    pub fn id(&self) -> (r: Option<&str>)
        ensures
            r is Some <==> tn_id_present(*self),
            r matches Some(s) ==> s@ == tn_id_chars(*self),
    {
        match self {
            TreeNode::Node(nd) => nd.id(),
            TreeNode::QualifiedNode(q) => q.id(),
            TreeNode::Matrix(m) => m.id(),
            TreeNode::QualifiedMatrix(q) => q.id(),
            TreeNode::Parameter(p) => p.id(),
            TreeNode::QualifiedParameter(q) => q.id(),
            TreeNode::Root | TreeNode::Template(_) | TreeNode::QualifiedTemplate(_) => None,
        }
    }

    pub fn is_empty(&self) -> (r: bool)
        ensures
            r == tn_empty(*self),
    {
        match self {
            TreeNode::Root => false,
            TreeNode::Node(nd) => nd.is_empty(),
            TreeNode::QualifiedNode(q) => q.is_empty(),
            TreeNode::Matrix(_) | TreeNode::QualifiedMatrix(_) => true,
            TreeNode::Parameter(p) => p.is_empty(),
            TreeNode::QualifiedParameter(q) => q.is_empty(),
            TreeNode::Template(_) | TreeNode::QualifiedTemplate(_) => true,
        }
    }

    pub fn is_online(&self) -> (r: bool)
        ensures
            r == tn_online(*self),
    {
        match self {
            TreeNode::Root => true,
            TreeNode::Node(nd) => nd.is_online(),
            TreeNode::QualifiedNode(q) => q.is_online(),
            TreeNode::Matrix(_) | TreeNode::QualifiedMatrix(_) => true,
            TreeNode::Parameter(p) => p.is_online(),
            TreeNode::QualifiedParameter(q) => q.is_online(),
            TreeNode::Template(_) | TreeNode::QualifiedTemplate(_) => true,
        }
    }

    /// Whether the walk should ask for this node's directory. A matrix or
    /// template without materialized children is an open question upstream
    /// and stays out of this function's domain.
    pub fn may_have_children(&self) -> (r: bool)
        requires
            !(self is Matrix) && !(self is QualifiedMatrix) && !(self is Template) && !(
            self is QualifiedTemplate),
        ensures
            r == tn_may_have_children(*self),
    {
        match self {
            TreeNode::Root => true,
            TreeNode::Node(n) => !n.is_empty(),
            TreeNode::QualifiedNode(n) => !n.is_empty(),
            _ => false,
        }
    }

    /// The directory query for this node, together with the identifier it
    /// is addressed to. Templates have no directory to ask for.
    pub fn get_directory(&self, parent: &RelativeOid) -> (r: Option<(RelativeOid, Root)>)
        ensures
            r is None <==> (self is Template || self is QualifiedTemplate),
            r matches Some((oid, req)) ==> oid@ == tn_oid(*self, parent@)
                && is_get_directory_request_for(req, oid@, carrier_of(*self)),
    {
        let command = Command::get_directory(Some(FieldFlags::All));
        match self {
            TreeNode::Root => Some((RelativeOid::root(), Root::command(command))),
            TreeNode::Node(node) => {
                let oid = join(parent, node.number as u32);
                let req = Root::qualified_node(QualifiedNode::command(oid.clone_oid(), command));
                Some((oid, req))
            },
            TreeNode::QualifiedNode(qualified_node) => {
                let oid = qualified_node.path.clone_oid();
                let req = Root::qualified_node(QualifiedNode::command(oid.clone_oid(), command));
                Some((oid, req))
            },
            TreeNode::Matrix(matrix) => {
                let oid = join(parent, matrix.number as u32);
                let req = Root::qualified_matrix(
                    QualifiedMatrix::command(oid.clone_oid(), command),
                );
                Some((oid, req))
            },
            TreeNode::QualifiedMatrix(qualified_matrix) => {
                let oid = qualified_matrix.path.clone_oid();
                let req = Root::qualified_matrix(
                    QualifiedMatrix::command(oid.clone_oid(), command),
                );
                Some((oid, req))
            },
            TreeNode::Parameter(parameter) => {
                let oid = join(parent, parameter.number as u32);
                let req = Root::qualified_parameter(
                    QualifiedParameter::command(oid.clone_oid(), command),
                );
                Some((oid, req))
            },
            TreeNode::QualifiedParameter(qualified_parameter) => {
                let oid = qualified_parameter.path.clone_oid();
                let req = Root::qualified_parameter(
                    QualifiedParameter::command(oid.clone_oid(), command),
                );
                Some((oid, req))
            },
            TreeNode::Template(_) | TreeNode::QualifiedTemplate(_) => None,
        }
    }

    /// Takes the node apart: its materialized child list with the node's
    /// own identifier if it has one, or the node given back unchanged.
    pub fn take_children(self, parent: &RelativeOid) -> (r: Result<
        (RelativeOid, Vec<TreeNode>),
        TreeNode,
    >)
        ensures
            r is Ok <==> tn_children(self) is Some,
            r matches Err(n) ==> n == self,
            (tn_traversable(self) && (self is Matrix || self is QualifiedMatrix)) ==> r is Ok,
            (self is Root || self is Template || self is QualifiedTemplate) ==> r is Err,
            r matches Ok((path, kids)) ==> path@ == tn_oid(self, parent@) && kids@ == tree_children(
                tn_children(self).unwrap(),
            ) && (forall|i: int|
                0 <= i < kids@.len() ==> tn_size(#[trigger] kids@[i]) < tn_size(self)) && (
            tn_traversable(self) ==> forall|i: int|
                0 <= i < kids@.len() ==> tn_traversable(#[trigger] kids@[i])),
    {
        match self {
            TreeNode::Node(nd) => {
                let Node { number, contents, children } = nd;
                match children {
                    Some(col) => {
                        let path = join(parent, number as u32);
                        let kids = collect_children(col);
                        Ok((path, kids))
                    },
                    None => Err(TreeNode::Node(Node { number, contents, children: None })),
                }
            },
            TreeNode::QualifiedNode(q) => {
                let QualifiedNode { path, contents, children } = q;
                match children {
                    Some(col) => {
                        let kids = collect_children(col);
                        Ok((path, kids))
                    },
                    None => Err(
                        TreeNode::QualifiedNode(
                            QualifiedNode { path, contents, children: None },
                        ),
                    ),
                }
            },
            TreeNode::Matrix(m) => {
                let Matrix { number, contents, children, targets, sources, connections } = m;
                match children {
                    Some(col) => {
                        let path = join(parent, number as u32);
                        let kids = collect_children(col);
                        Ok((path, kids))
                    },
                    None => Err(
                        TreeNode::Matrix(
                            Matrix {
                                number,
                                contents,
                                children: None,
                                targets,
                                sources,
                                connections,
                            },
                        ),
                    ),
                }
            },
            TreeNode::QualifiedMatrix(m) => {
                let QualifiedMatrix { path, contents, children, targets, sources, connections } =
                    m;
                match children {
                    Some(col) => {
                        let kids = collect_children(col);
                        Ok((path, kids))
                    },
                    None => Err(
                        TreeNode::QualifiedMatrix(
                            QualifiedMatrix {
                                path,
                                contents,
                                children: None,
                                targets,
                                sources,
                                connections,
                            },
                        ),
                    ),
                }
            },
            TreeNode::Parameter(p) => {
                let Parameter { number, contents, children } = p;
                match children {
                    Some(col) => {
                        let path = join(parent, number as u32);
                        let kids = collect_children(col);
                        Ok((path, kids))
                    },
                    None => Err(TreeNode::Parameter(Parameter { number, contents, children: None })),
                }
            },
            TreeNode::QualifiedParameter(p) => {
                let QualifiedParameter { path, contents, children } = p;
                match children {
                    Some(col) => {
                        let kids = collect_children(col);
                        Ok((path, kids))
                    },
                    None => Err(
                        TreeNode::QualifiedParameter(
                            QualifiedParameter { path, contents, children: None },
                        ),
                    ),
                }
            },
            other => Err(other),
        }
    }
}

/// Every element of a walkable list is walkable.
proof fn lemma_coll_traversable_elem(s: Seq<crate::glow::TaggedElement>, j: int, i: int)
    requires
        0 <= j <= i < s.len(),
        coll_traversable_from(s, j),
    ensures
        elem_traversable(s[i].0),
    decreases i - j,
{
    if j < i {
        lemma_coll_traversable_elem(s, j + 1, i);
    }
}

/// Turns a materialized child list into tree nodes, in order: commands and
/// functions carry no tree position and are skipped.
fn collect_children(col: ElementCollection) -> (kids: Vec<TreeNode>)
    ensures
        kids@ == tree_children(col.0@),
        forall|i: int|
            0 <= i < kids@.len() ==> tn_size(#[trigger] kids@[i]) <= coll_size_from(col.0@, 0),
        coll_traversable_from(col.0@, 0) ==> forall|i: int|
            0 <= i < kids@.len() ==> tn_traversable(#[trigger] kids@[i]),
{
    let ghost s0 = col.0@;
    let mut items = col.0;
    let mut kids: Vec<TreeNode> = Vec::new();
    let mut j: usize = 0;
    let items_len = items.len();
    proof {
        assert(s0.len() == items_len as int);
        assert(items@ =~= s0.subrange(0, s0.len() as int));
    }
    while items.len() > 0
        invariant
            items@ == s0.subrange(j as int, s0.len() as int),
            j + items@.len() == s0.len(),
            s0.len() <= usize::MAX,
            kids@ + tree_children(items@) == tree_children(s0),
            forall|i: int|
                0 <= i < kids@.len() ==> tn_size(#[trigger] kids@[i]) <= coll_size_from(s0, 0),
            coll_traversable_from(s0, 0) ==> forall|i: int|
                0 <= i < kids@.len() ==> tn_traversable(#[trigger] kids@[i]),
        decreases items@.len(),
    {
        let ghost before = items@;
        let tagged = items.remove(0);
        proof {
            assert(tagged == s0[j as int]);
            assert(items@ =~= s0.subrange(j + 1, s0.len() as int));
            assert(before.first() == tagged && before.drop_first() =~= items@);
            lemma_coll_size_bound(s0, 0, j as int);
            if coll_traversable_from(s0, 0) {
                lemma_coll_traversable_elem(s0, 0, j as int);
            }
        }
        let ghost kids_before = kids@;
        match tagged.0 {
            Element::Parameter(p) => kids.push(TreeNode::Parameter(p)),
            Element::Node(n) => kids.push(TreeNode::Node(n)),
            Element::Command(_) => {},
            Element::Matrix(m) => kids.push(TreeNode::Matrix(m)),
            Element::Function(_) => {},
            Element::Template(t) => kids.push(TreeNode::Template(t)),
        }
        proof {
            assert(kids@ + tree_children(items@) =~= kids_before + tree_children(before));
        }
        j += 1;
    }
    proof {
        assert(tree_children(items@) =~= Seq::<TreeNode>::empty());
        assert(kids@ =~= tree_children(s0));
    }
    kids
}

/// Checks a whole inbound message for walkability: whether the traversal
/// can take it without giving up, as [`root_traversable`] states.
pub fn is_traversable(msg: &Root) -> (r: bool)
    ensures
        r == root_traversable(*msg),
{
    match msg {
        Root::Elements(c) => {
            let items = &c.0;
            let mut i: usize = 0;
            while i < items.len()
                invariant
                    i <= items@.len(),
                    msg matches Root::Elements(cc) && cc.0@ == items@,
                    forall|j: int| 0 <= j < i ==> root_elem_traversable(#[trigger] items@[j].0),
                decreases items@.len() - i,
            {
                let re_ok = match &items[i].0 {
                    RootElement::Element(e) => check_element(e),
                    RootElement::QualifiedParameter(q) => check_opt_children(&q.children),
                    RootElement::QualifiedNode(q) => check_opt_children(&q.children),
                    RootElement::QualifiedMatrix(q) => q.children.is_some() && check_opt_children(
                        &q.children,
                    ),
                    RootElement::QualifiedFunction(_) => true,
                    RootElement::QualifiedTemplate(_) => false,
                };
                if !re_ok {
                    proof {
                        assert(!root_elem_traversable(items@[i as int].0));
                        if root_traversable(*msg) {
                            assert(msg matches Root::Elements(cc) && cc.0@ == items@);
                            assert(root_elem_traversable(items@[i as int].0));
                            assert(false);
                        }
                    }
                    return false;
                }
                i += 1;
            }
            true
        },
        Root::Streams(_) => false,
        Root::InvocationResult(_) => false,
    }
}

// ---------------------------------------------------------------------------
// The traversal engine
// ---------------------------------------------------------------------------
/// What the engine tells its subscribers: a materialized element under its
/// parent's identifier, or the announcement that the whole tree has been
/// received, carrying how many nodes were explored.
#[derive(Debug, PartialEq)]
pub enum TreeEvent {
    Element(RelativeOid, TreeNode),
    FullTreeReceived(usize),
}

/// The arc sequences of a list of identifiers, in order.
pub open spec fn oid_views(s: Seq<RelativeOid>) -> Seq<Seq<u32>> {
    s.map_values(|o: RelativeOid| o@)
}

/// Whether a list of identifiers holds no identifier twice.
pub open spec fn no_dup_oids(s: Seq<Seq<u32>>) -> bool {
    forall|i: int, j: int| 0 <= i < j < s.len() ==> s[i] != s[j]
}

/// The traversal state: which identifiers have an answer outstanding, and
/// which are already known.
pub struct EmberConsumer {
    in_flight: Vec<RelativeOid>,
    explored: Vec<RelativeOid>,
    query_offline_nodes: bool,
}

impl EmberConsumer {
    /// The identifiers with a directory answer still outstanding.
    pub closed spec fn spec_in_flight(&self) -> Seq<Seq<u32>> {
        oid_views(self.in_flight@)
    }

    /// The identifiers already materialized or asked for.
    pub closed spec fn spec_explored(&self) -> Seq<Seq<u32>> {
        oid_views(self.explored@)
    }

    pub closed spec fn spec_query_offline(&self) -> bool {
        self.query_offline_nodes
    }

    /// The engine's invariant: during traversal, every identifier appears
    /// in `explored` at most once and in `in_flight` at most once.
    pub open spec fn wf(&self) -> bool {
        no_dup_oids(self.spec_in_flight()) && no_dup_oids(self.spec_explored())
    }

    /// A fresh engine with nothing asked and nothing known.
    pub fn new(query_offline_nodes: bool) -> (r: EmberConsumer)
        ensures
            r.wf(),
            r.spec_in_flight().len() == 0,
            r.spec_explored().len() == 0,
            r.spec_query_offline() == query_offline_nodes,
    {
        let r = EmberConsumer {
            in_flight: Vec::new(),
            explored: Vec::new(),
            query_offline_nodes,
        };
        proof {
            assert(r.spec_in_flight() =~= Seq::<Seq<u32>>::empty());
            assert(r.spec_explored() =~= Seq::<Seq<u32>>::empty());
        }
        r
    }

    pub fn in_flight_count(&self) -> (r: usize)
        ensures
            r == self.spec_in_flight().len(),
    {
        self.in_flight.len()
    }

    pub fn explored_count(&self) -> (r: usize)
        ensures
            r == self.spec_explored().len(),
    {
        self.explored.len()
    }

    /// Whether a directory answer for `oid` is outstanding.
    pub fn is_in_flight(&self, oid: &RelativeOid) -> (r: bool)
        ensures
            r == self.spec_in_flight().contains(oid@),
    {
        contains_oid(&self.in_flight, oid)
    }

    /// Whether `oid` is already known to the traversal.
    pub fn is_explored(&self, oid: &RelativeOid) -> (r: bool)
        ensures
            r == self.spec_explored().contains(oid@),
    {
        contains_oid(&self.explored, oid)
    }

    /// Issues the directory query for one node, unless the node is offline
    /// and offline nodes are not queried, and marks its identifier as in
    /// flight. At most one request leaves, always the `GetDirectory` for
    /// the node's own identifier; an identifier never stands in flight
    /// twice.
    pub fn fetch_recursive(
        &mut self,
        parent: &RelativeOid,
        node: &TreeNode,
        requests: &mut Vec<Root>,
    )
        requires
            old(self).wf(),
        ensures
            final(self).wf(),
            final(self).spec_explored() == old(self).spec_explored(),
            final(self).spec_query_offline() == old(self).spec_query_offline(),
            final(requests)@.len() >= old(requests)@.len(),
            forall|k: int|
                0 <= k < old(requests)@.len() ==> final(requests)@[k] == old(requests)@[k],
            final(requests)@.len() <= old(requests)@.len() + 1,
            final(requests)@.len() == old(requests)@.len() + 1 ==> is_get_directory_request_for(
                final(requests)@.last(),
                tn_oid(*node, parent@),
                carrier_of(*node),
            ) && final(self).spec_in_flight().contains(tn_oid(*node, parent@)),
            (!(node is Template) && !(node is QualifiedTemplate) && (tn_online(*node) || old(
                self,
            ).spec_query_offline())) ==> (final(requests)@.len() == old(requests)@.len() + 1
                && final(self).spec_in_flight() == (if old(self).spec_in_flight().contains(
                tn_oid(*node, parent@),
            ) {
                old(self).spec_in_flight()
            } else {
                old(self).spec_in_flight().push(tn_oid(*node, parent@))
            })),
            forall|x: Seq<u32>|
                #[trigger] old(self).spec_in_flight().contains(x) ==> final(self).spec_in_flight().contains(x),
            forall|x: Seq<u32>|
                #[trigger] final(self).spec_in_flight().contains(x) ==> (old(
                    self,
                ).spec_in_flight().contains(x) || x == tn_oid(*node, parent@)),
            (node is Template || node is QualifiedTemplate || (!tn_online(*node) && !old(
                self,
            ).spec_query_offline())) ==> (final(requests)@ == old(requests)@ && final(self).spec_in_flight() == old(self).spec_in_flight()),
    {
        let dir = node.get_directory(parent);
        match dir {
            None => {},
            Some((oid, request)) => {
                if !node.is_online() && !self.query_offline_nodes {
                    return ;
                }
                if !contains_oid(&self.in_flight, &oid) {
                    proof {
                        lemma_map_push(self.in_flight@, oid);
                    }
                    self.in_flight.push(oid);
                }
                requests.push(request);
            },
        }
    }

    /// Removes `parent` from the outstanding set after its contents came
    /// in; exactly when that removal empties the set, one full-tree
    /// announcement is appended, carrying the count of explored
    /// identifiers.
    pub fn finish_parent(&mut self, parent: &RelativeOid, events: &mut Vec<TreeEvent>)
        requires
            old(self).wf(),
        ensures
            final(self).wf(),
            final(self).spec_explored() == old(self).spec_explored(),
            final(self).spec_query_offline() == old(self).spec_query_offline(),
            final(events)@.len() >= old(events)@.len(),
            forall|k: int| 0 <= k < old(events)@.len() ==> final(events)@[k] == old(events)@[k],
            ({
                let f = finish_model(
                    (WalkState {
                        in_flight: old(self).spec_in_flight(),
                        explored: old(self).spec_explored(),
                    }),
                    parent@,
                );
                &&& final(self).spec_in_flight() == f.0.in_flight
                &&& final(events)@.len() == old(events)@.len() + f.1.len()
                &&& forall|k: int|
                    0 <= k < f.1.len() ==> event_matches(
                        #[trigger] final(events)@[old(events)@.len() + k],
                        f.1[k],
                    )
            }),
            !old(self).spec_in_flight().contains(parent@) ==> (final(self).spec_in_flight() == old(
                self,
            ).spec_in_flight() && final(events)@ == old(events)@),
            old(self).spec_in_flight().contains(parent@) ==> (final(self).spec_in_flight().len()
                == old(self).spec_in_flight().len() - 1 && !final(self).spec_in_flight().contains(
                parent@,
            ) && (forall|x: Seq<u32>|
                x != parent@ ==> #[trigger] final(self).spec_in_flight().contains(x) == old(
                    self,
                ).spec_in_flight().contains(x))),
    {
        let removed = remove_oid(&mut self.in_flight, parent);
        if removed {
            if self.in_flight.len() == 0 {
                events.push(TreeEvent::FullTreeReceived(self.explored.len()));
                proof {
                    assert(final(events)@ =~= old(events)@ + seq![
                        TreeEvent::FullTreeReceived(old(self).spec_explored().len() as usize),
                    ]);
                }
            } else {
                proof {
                    assert(final(events)@ =~= old(events)@ + Seq::<TreeEvent>::empty());
                }
            }
        }
    }

    /// Walks one node: recurses into materialized children; a leaf is
    /// handed to the subscribers, and where it may have children its
    /// directory is asked for, at most once per identifier for the whole
    /// session. Afterwards the node's own outstanding entry is settled.
    /// The new state and the appended requests and events are exactly those
    /// of [`walk_node_model`], in order.
    pub fn process_ember_node(
        &mut self,
        parent: RelativeOid,
        node: TreeNode,
        requests: &mut Vec<Root>,
        events: &mut Vec<TreeEvent>,
    )
        requires
            old(self).wf(),
            tn_traversable(node),
        ensures
            final(self).wf(),
            final(self).spec_query_offline() == old(self).spec_query_offline(),
            forall|x: Seq<u32>|
                #[trigger] old(self).spec_explored().contains(x) ==> final(self).spec_explored().contains(x),
            forall|k: int|
                0 <= k < old(requests)@.len() ==> final(requests)@[k] == old(requests)@[k],
            forall|k: int| 0 <= k < old(events)@.len() ==> final(events)@[k] == old(events)@[k],
            ({
                let w = walk_node_model(
                    (WalkState {
                        in_flight: old(self).spec_in_flight(),
                        explored: old(self).spec_explored(),
                    }),
                    old(self).spec_query_offline(),
                    parent@,
                    node,
                );
                &&& final(self).spec_in_flight() == w.0.in_flight
                &&& final(self).spec_explored() == w.0.explored
                &&& final(requests)@.len() == old(requests)@.len() + w.1.len()
                &&& (forall|k: int|
                    0 <= k < w.1.len() ==> request_matches(
                        final(requests)@[old(requests)@.len() + k],
                        #[trigger] w.1[k],
                    ))
                &&& final(events)@.len() == old(events)@.len() + w.2.len()
                &&& (forall|k: int|
                    0 <= k < w.2.len() ==> event_matches(
                        final(events)@[old(events)@.len() + k],
                        #[trigger] w.2[k],
                    ))
            }),
        decreases tn_size(node),
    {
        let ghost s0 = (WalkState {
            in_flight: self.spec_in_flight(),
            explored: self.spec_explored(),
        });
        let ghost qon = self.spec_query_offline();
        let ghost req_base = requests@.len() as int;
        let ghost ev_base = events@.len() as int;
        match node.take_children(&parent) {
            Ok((path, kids)) => {
                let ghost kids0 = kids@;
                let ghost target = walk_kids_model(s0, qon, path@, kids0);
                let mut kids = kids;
                let ghost mut done_r: Seq<RequestModel> = Seq::empty();
                let ghost mut done_e: Seq<EventModel> = Seq::empty();
                proof {
                    assert(done_r + walk_kids_model(s0, qon, path@, kids@).1 =~= target.1);
                    assert(done_e + walk_kids_model(s0, qon, path@, kids@).2 =~= target.2);
                }
                while kids.len() > 0
                    invariant
                        self.wf(),
                        self.spec_query_offline() == qon,
                        forall|x: Seq<u32>|
                            #[trigger] old(self).spec_explored().contains(x)
                                ==> self.spec_explored().contains(x),
                        forall|i: int|
                            0 <= i < kids@.len() ==> tn_size(#[trigger] kids@[i]) < tn_size(node),
                        forall|i: int|
                            0 <= i < kids@.len() ==> tn_traversable(#[trigger] kids@[i]),
                        ({
                            let cur = (WalkState {
                                in_flight: self.spec_in_flight(),
                                explored: self.spec_explored(),
                            });
                            let rest = walk_kids_model(cur, qon, path@, kids@);
                            &&& target.0 == rest.0
                            &&& target.1 == done_r + rest.1
                            &&& target.2 == done_e + rest.2
                        }),
                        req_base == old(requests)@.len(),
                        ev_base == old(events)@.len(),
                        requests@.len() == req_base + done_r.len(),
                        forall|k: int| 0 <= k < req_base ==> requests@[k] == old(requests)@[k],
                        forall|k: int|
                            0 <= k < done_r.len() ==> request_matches(
                                requests@[req_base + k],
                                #[trigger] done_r[k],
                            ),
                        events@.len() == ev_base + done_e.len(),
                        forall|k: int| 0 <= k < ev_base ==> events@[k] == old(events)@[k],
                        forall|k: int|
                            0 <= k < done_e.len() ==> event_matches(
                                events@[ev_base + k],
                                #[trigger] done_e[k],
                            ),
                    decreases kids@.len(),
                {
                    let ghost kids_before = kids@;
                    let ghost cur = (WalkState {
                        in_flight: self.spec_in_flight(),
                        explored: self.spec_explored(),
                    });
                    let kid = kids.remove(0);
                    proof {
                        assert(kids_before.first() == kid);
                        assert(kids_before.drop_first() =~= kids@);
                    }
                    self.process_ember_node(path.clone_oid(), kid, requests, events);
                    proof {
                        let step = walk_node_model(cur, qon, path@, kid);
                        let rest2 = walk_kids_model(step.0, qon, path@, kids@);
                        assert(walk_kids_model(cur, qon, path@, kids_before).1 == step.1
                            + rest2.1);
                        assert(walk_kids_model(cur, qon, path@, kids_before).2 == step.2
                            + rest2.2);
                        assert(target.1 =~= (done_r + step.1) + rest2.1);
                        assert(target.2 =~= (done_e + step.2) + rest2.2);
                        assert forall|k: int| 0 <= k < (done_r + step.1).len() implies
                            request_matches(
                                requests@[req_base + k],
                                #[trigger] (done_r + step.1)[k],
                            ) by {
                            if k < done_r.len() {
                                assert((done_r + step.1)[k] == done_r[k]);
                            } else {
                                assert((done_r + step.1)[k] == step.1[k - done_r.len()]);
                            }
                        }
                        assert forall|k: int| 0 <= k < (done_e + step.2).len() implies
                            event_matches(
                                events@[ev_base + k],
                                #[trigger] (done_e + step.2)[k],
                            ) by {
                            if k < done_e.len() {
                                assert((done_e + step.2)[k] == done_e[k]);
                            } else {
                                assert((done_e + step.2)[k] == step.2[k - done_e.len()]);
                            }
                        }
                        done_r = done_r + step.1;
                        done_e = done_e + step.2;
                    }
                }
                let ghost pre = (WalkState {
                    in_flight: self.spec_in_flight(),
                    explored: self.spec_explored(),
                });
                proof {
                    assert(target.1 =~= done_r + walk_kids_model(pre, qon, path@, kids@).1);
                    assert(target.1 =~= done_r);
                    assert(target.2 =~= done_e);
                    assert(target.0 == pre);
                }
                self.finish_parent(&parent, events);
                proof {
                    let w = walk_node_model(s0, qon, parent@, node);
                    assert(kids0 == tree_children(tn_children(node).unwrap()));
                    assert(path@ == tn_oid(node, parent@));
                    let f = finish_model(pre, parent@);
                    assert(w.0 == f.0 && w.1 == target.1 && w.2 == target.2 + f.1);
                    assert forall|k: int| 0 <= k < w.2.len() implies event_matches(
                        final(events)@[ev_base + k],
                        #[trigger] w.2[k],
                    ) by {
                        if k < done_e.len() {
                            assert(w.2[k] == done_e[k]);
                            assert(final(events)@[ev_base + k] == events@[ev_base + k]);
                        } else {
                            assert(w.2[k] == f.1[k - done_e.len()]);
                            assert(ev_base + k == (ev_base + done_e.len()) + (k - done_e.len()));
                        }
                    }
                }
            },
            Err(leaf) => {
                let ghost lm = leaf_model(s0, qon, parent@, node);
                let may = leaf.may_have_children();
                if may {
                    let oid = leaf.oid(&parent);
                    if !contains_oid(&self.explored, &oid) {
                        proof {
                            lemma_map_push(self.explored@, oid);
                        }
                        self.explored.push(oid);
                        self.fetch_recursive(&parent, &leaf, requests);
                    }
                }
                proof {
                    assert(self.spec_in_flight() == lm.0.in_flight);
                    assert(self.spec_explored() == lm.0.explored);
                    assert(requests@.len() == req_base + lm.1.len());
                    assert(forall|k: int|
                        0 <= k < lm.1.len() ==> request_matches(
                            requests@[req_base + k],
                            #[trigger] lm.1[k],
                        ));
                }
                events.push(TreeEvent::Element(parent.clone_oid(), leaf));
                let ghost pre = (WalkState {
                    in_flight: self.spec_in_flight(),
                    explored: self.spec_explored(),
                });
                proof {
                    assert(pre == lm.0);
                }
                self.finish_parent(&parent, events);
                proof {
                    let w = walk_node_model(s0, qon, parent@, node);
                    let f = finish_model(pre, parent@);
                    assert(w.0 == f.0 && w.1 == lm.1 && w.2 == seq![
                        EventModel::Element(parent@, node),
                    ] + f.1);
                    assert(event_matches(
                        final(events)@[ev_base],
                        EventModel::Element(parent@, node),
                    ));
                    assert forall|k: int| 0 <= k < w.2.len() implies event_matches(
                        final(events)@[ev_base + k],
                        #[trigger] w.2[k],
                    ) by {
                        if k > 0 {
                            assert(w.2[k] == f.1[k - 1]);
                            assert(ev_base + k == (ev_base + 1) + (k - 1));
                        } else {
                            assert(w.2[0] == EventModel::Element(parent@, node));
                        }
                    }
                }
            },
        }
    }

    /// Takes one whole inbound message apart: every tagged root element is
    /// walked under its own parent (the full path's parent for qualified
    /// variants, the root for bare elements); commands and functions from
    /// the provider are discarded without a trace. The new state and the
    /// returned directory queries and subscriber events are exactly those
    /// of [`walk_message_model`], in order.
    pub fn process_ember_message(&mut self, msg: Root) -> (out: (Vec<Root>, Vec<TreeEvent>))
        requires
            old(self).wf(),
            root_traversable(msg),
        ensures
            final(self).wf(),
            final(self).spec_query_offline() == old(self).spec_query_offline(),
            forall|x: Seq<u32>|
                #[trigger] old(self).spec_explored().contains(x) ==> final(self).spec_explored().contains(x),
            msg matches Root::Elements(c) ==> ({
                let w = walk_message_model(
                    (WalkState {
                        in_flight: old(self).spec_in_flight(),
                        explored: old(self).spec_explored(),
                    }),
                    old(self).spec_query_offline(),
                    c.0@,
                );
                &&& final(self).spec_in_flight() == w.0.in_flight
                &&& final(self).spec_explored() == w.0.explored
                &&& out.0@.len() == w.1.len()
                &&& (forall|k: int|
                    0 <= k < w.1.len() ==> request_matches(out.0@[k], #[trigger] w.1[k]))
                &&& out.1@.len() == w.2.len()
                &&& (forall|k: int|
                    0 <= k < w.2.len() ==> event_matches(out.1@[k], #[trigger] w.2[k]))
            }),
    {
        let ghost s0 = (WalkState {
            in_flight: self.spec_in_flight(),
            explored: self.spec_explored(),
        });
        let ghost qon = self.spec_query_offline();
        let mut requests: Vec<Root> = Vec::new();
        let mut events: Vec<TreeEvent> = Vec::new();
        match msg {
            Root::Elements(collection) => {
                let ghost items0 = collection.0@;
                let ghost target = walk_message_model(s0, qon, items0);
                let mut items = collection.0;
                let ghost mut done_r: Seq<RequestModel> = Seq::empty();
                let ghost mut done_e: Seq<EventModel> = Seq::empty();
                proof {
                    assert(done_r + walk_message_model(s0, qon, items@).1 =~= target.1);
                    assert(done_e + walk_message_model(s0, qon, items@).2 =~= target.2);
                }
                while items.len() > 0
                    invariant
                        self.wf(),
                        self.spec_query_offline() == qon,
                        forall|x: Seq<u32>|
                            #[trigger] old(self).spec_explored().contains(x)
                                ==> self.spec_explored().contains(x),
                        forall|i: int|
                            0 <= i < items@.len() ==> root_elem_traversable(
                                #[trigger] items@[i].0,
                            ),
                        ({
                            let cur = (WalkState {
                                in_flight: self.spec_in_flight(),
                                explored: self.spec_explored(),
                            });
                            let rest = walk_message_model(cur, qon, items@);
                            &&& target.0 == rest.0
                            &&& target.1 == done_r + rest.1
                            &&& target.2 == done_e + rest.2
                        }),
                        requests@.len() == done_r.len(),
                        forall|k: int|
                            0 <= k < done_r.len() ==> request_matches(
                                requests@[k],
                                #[trigger] done_r[k],
                            ),
                        events@.len() == done_e.len(),
                        forall|k: int|
                            0 <= k < done_e.len() ==> event_matches(
                                events@[k],
                                #[trigger] done_e[k],
                            ),
                    decreases items@.len(),
                {
                    let ghost items_before = items@;
                    let ghost cur = (WalkState {
                        in_flight: self.spec_in_flight(),
                        explored: self.spec_explored(),
                    });
                    let tagged = items.remove(0);
                    let ghost re0 = tagged.0;
                    proof {
                        assert(items_before.first() == tagged);
                        assert(items_before.drop_first() =~= items@);
                    }
                    match tagged.0 {
                        RootElement::Element(element) => match element {
                            Element::Parameter(p) => self.process_ember_node(
                                RelativeOid::root(),
                                TreeNode::Parameter(p),
                                &mut requests,
                                &mut events,
                            ),
                            Element::Node(n) => self.process_ember_node(
                                RelativeOid::root(),
                                TreeNode::Node(n),
                                &mut requests,
                                &mut events,
                            ),
                            Element::Command(_) => {
                                // a command from a provider is discarded
                            },
                            Element::Matrix(m) => self.process_ember_node(
                                RelativeOid::root(),
                                TreeNode::Matrix(m),
                                &mut requests,
                                &mut events,
                            ),
                            Element::Function(_) => {
                                // a function from a provider is discarded
                            },
                            Element::Template(_) => {
                                proof {
                                    assert(false);
                                }
                            },
                        },
                        RootElement::QualifiedParameter(q) => {
                            let parent = q.path.parent();
                            self.process_ember_node(
                                parent,
                                TreeNode::QualifiedParameter(q),
                                &mut requests,
                                &mut events,
                            );
                        },
                        RootElement::QualifiedNode(q) => {
                            let parent = q.path.parent();
                            self.process_ember_node(
                                parent,
                                TreeNode::QualifiedNode(q),
                                &mut requests,
                                &mut events,
                            );
                        },
                        RootElement::QualifiedMatrix(q) => {
                            let parent = q.path.parent();
                            self.process_ember_node(
                                parent,
                                TreeNode::QualifiedMatrix(q),
                                &mut requests,
                                &mut events,
                            );
                        },
                        RootElement::QualifiedFunction(_) => {
                            // a qualified function from a provider is discarded
                        },
                        RootElement::QualifiedTemplate(_) => {
                            proof {
                                assert(false);
                            }
                        },
                    }
                    proof {
                        let step = walk_root_elem_model(cur, qon, re0);
                        let rest2 = walk_message_model(step.0, qon, items@);
                        assert(walk_message_model(cur, qon, items_before).1 == step.1 + rest2.1);
                        assert(walk_message_model(cur, qon, items_before).2 == step.2 + rest2.2);
                        assert(target.1 =~= (done_r + step.1) + rest2.1);
                        assert(target.2 =~= (done_e + step.2) + rest2.2);
                        assert forall|k: int| 0 <= k < (done_r + step.1).len() implies
                            request_matches(requests@[k], #[trigger] (done_r + step.1)[k]) by {
                            if k < done_r.len() {
                                assert((done_r + step.1)[k] == done_r[k]);
                            } else {
                                assert((done_r + step.1)[k] == step.1[k - done_r.len()]);
                            }
                        }
                        assert forall|k: int| 0 <= k < (done_e + step.2).len() implies
                            event_matches(events@[k], #[trigger] (done_e + step.2)[k]) by {
                            if k < done_e.len() {
                                assert((done_e + step.2)[k] == done_e[k]);
                            } else {
                                assert((done_e + step.2)[k] == step.2[k - done_e.len()]);
                            }
                        }
                        done_r = done_r + step.1;
                        done_e = done_e + step.2;
                    }
                }
                proof {
                    let cur = (WalkState {
                        in_flight: self.spec_in_flight(),
                        explored: self.spec_explored(),
                    });
                    assert(target.1 =~= done_r + walk_message_model(cur, qon, items@).1);
                    assert(target.1 =~= done_r);
                    assert(target.2 =~= done_e);
                }
            },
            Root::Streams(_) => {
                proof {
                    assert(false);
                }
            },
            Root::InvocationResult(_) => {
                proof {
                    assert(false);
                }
            },
        }
        (requests, events)
    }
}

/// Whether `v` holds an identifier with the arcs of `oid`.
fn contains_oid(v: &Vec<RelativeOid>, oid: &RelativeOid) -> (r: bool)
    ensures
        r == oid_views(v@).contains(oid@),
{
    let ghost views = oid_views(v@);
    let mut i: usize = 0;
    while i < v.len()
        invariant
            i <= v@.len(),
            views == oid_views(v@),
            forall|j: int| 0 <= j < i ==> views[j] != oid@,
        decreases v@.len() - i,
    {
        if v[i].same_as(oid) {
            proof {
                assert(views[i as int] == oid@);
            }
            return true;
        }
        i += 1;
    }
    proof {
        assert(forall|j: int| 0 <= j < views.len() ==> views[j] != oid@);
        if views.contains(oid@) {
            let k = choose|k: int| 0 <= k < views.len() && views[k] == oid@;
            assert(false);
        }
    }
    false
}

/// Mapping to views commutes with push; the pushed identifier is a member
/// afterwards and every old member stays one.
proof fn lemma_map_push(v: Seq<RelativeOid>, o: RelativeOid)
    ensures
        oid_views(v.push(o)) == oid_views(v).push(o@),
        oid_views(v.push(o)).contains(o@),
        forall|x: Seq<u32>|
            #[trigger] oid_views(v).contains(x) ==> oid_views(v.push(o)).contains(x),
        forall|x: Seq<u32>|
            #[trigger] oid_views(v.push(o)).contains(x) ==> oid_views(v).contains(x) || x == o@,
{
    assert(oid_views(v.push(o)) =~= oid_views(v).push(o@));
    assert(oid_views(v.push(o))[v.len() as int] == o@);
    assert forall|x: Seq<u32>| #[trigger] oid_views(v).contains(x) implies oid_views(
        v.push(o),
    ).contains(x) by {
        let k = choose|k: int| 0 <= k < oid_views(v).len() && oid_views(v)[k] == x;
        assert(oid_views(v.push(o))[k] == x);
    }
    assert forall|x: Seq<u32>| #[trigger] oid_views(v.push(o)).contains(x) implies oid_views(
        v,
    ).contains(x) || x == o@ by {
        let k = choose|k: int| 0 <= k < oid_views(v.push(o)).len() && oid_views(v.push(o))[k] == x;
        if k < oid_views(v).len() {
            assert(oid_views(v)[k] == x);
        }
    }
}

/// Mapping to views commutes with removal.
proof fn lemma_map_remove(v: Seq<RelativeOid>, k: int)
    requires
        0 <= k < v.len(),
    ensures
        oid_views(v.remove(k)) == oid_views(v).remove(k),
{
    assert(oid_views(v.remove(k)) =~= oid_views(v).remove(k));
}

/// Removes the identifier with the arcs of `oid`, where the list holds one;
/// with no duplicates the membership of every other identifier stays as it
/// was.
fn remove_oid(v: &mut Vec<RelativeOid>, oid: &RelativeOid) -> (r: bool)
    requires
        no_dup_oids(oid_views(old(v)@)),
    ensures
        no_dup_oids(oid_views(final(v)@)),
        r == oid_views(old(v)@).contains(oid@),
        !r ==> final(v)@ == old(v)@,
        r ==> final(v)@.len() == old(v)@.len() - 1,
        r ==> oid_views(final(v)@) == oid_views(old(v)@).remove(
            first_index_of(oid_views(old(v)@), oid@),
        ),
        r ==> !oid_views(final(v)@).contains(oid@),
        forall|x: Seq<u32>|
            x != oid@ ==> #[trigger] oid_views(final(v)@).contains(x) == oid_views(old(v)@).contains(x),
{
    let ghost olds = oid_views(old(v)@);
    let mut i: usize = 0;
    while i < v.len()
        invariant
            i <= v@.len(),
            v@ == old(v)@,
            olds == oid_views(old(v)@),
            no_dup_oids(olds),
            forall|j: int| 0 <= j < i ==> olds[j] != oid@,
        decreases v@.len() - i,
    {
        if v[i].same_as(oid) {
            proof {
                assert(olds[i as int] == oid@);
                lemma_first_index(olds, oid@, i as int);
                lemma_map_remove(v@, i as int);
            }
            v.remove(i);
            proof {
                let news = oid_views(final(v)@);
                assert(news == olds.remove(i as int));
                lemma_remove_keeps(olds, i as int, oid@);
            }
            return true;
        }
        i += 1;
    }
    proof {
        assert(forall|j: int| 0 <= j < olds.len() ==> olds[j] != oid@);
        if olds.contains(oid@) {
            let k = choose|k: int| 0 <= k < olds.len() && olds[k] == oid@;
            assert(false);
        }
    }
    false
}

/// A scan that passed `i` positions without finding `x` and finds it at
/// `i` has found the first occurrence.
proof fn lemma_first_index(s: Seq<Seq<u32>>, x: Seq<u32>, i: int)
    requires
        0 <= i < s.len(),
        s[i] == x,
        forall|j: int| 0 <= j < i ==> s[j] != x,
    ensures
        first_index_of(s, x) == i,
    decreases i,
{
    if i > 0 {
        lemma_first_index(s.drop_first(), x, i - 1);
    }
}

/// Removing the one occurrence of `x` from a duplicate-free list keeps
/// everything else and keeps the list duplicate-free.
proof fn lemma_remove_keeps(s: Seq<Seq<u32>>, k: int, x: Seq<u32>)
    requires
        no_dup_oids(s),
        0 <= k < s.len(),
        s[k] == x,
    ensures
        no_dup_oids(s.remove(k)),
        !s.remove(k).contains(x),
        forall|y: Seq<u32>| y != x ==> #[trigger] s.remove(k).contains(y) == s.contains(y),
{
    let t = s.remove(k);
    assert forall|i: int, j: int| 0 <= i < j < t.len() implies t[i] != t[j] by {
        if j < k {
        } else if i < k {
            assert(t[j] == s[j + 1]);
        } else {
            assert(t[i] == s[i + 1] && t[j] == s[j + 1]);
        }
    }
    assert forall|i: int| 0 <= i < t.len() implies t[i] != x by {
        if i < k {
        } else {
            assert(t[i] == s[i + 1]);
        }
    }
    if t.contains(x) {
        let i = choose|i: int| 0 <= i < t.len() && t[i] == x;
        assert(false);
    }
    assert forall|y: Seq<u32>| y != x implies t.contains(y) == s.contains(y) by {
        if t.contains(y) {
            let i = choose|i: int| 0 <= i < t.len() && t[i] == y;
            if i < k {
                assert(s[i] == y);
            } else {
                assert(s[i + 1] == y);
            }
            assert(s.contains(y));
        }
        if s.contains(y) {
            let i = choose|i: int| 0 <= i < s.len() && s[i] == y;
            if i < k {
                assert(t[i] == y);
            } else if i > k {
                assert(t[i - 1] == y);
            }
            assert(t.contains(y));
        }
    }
}

} // verus!
