//! The Glow data model: BER-tagged Ember+ entities, their qualified
//! variants, and the fragmentation of encoded payloads into packets.
//!
//! The BER codec for whole Glow messages is an external collaborator: the
//! embedding application turns these values into bytes and back. Everything
//! here works on the values themselves or on already-encoded payload bytes.

use vstd::prelude::*;

use crate::ember::{EmberPacket, PacketModel, MAX_PAYLOAD_LEN};
use crate::oid::RelativeOid;
use crate::s101::Flags;

verus! {

pub type EmberString = String;

pub type Integer32 = i32;

pub type Integer64 = i64;

pub const GLOW_VERSION_MAJOR: u8 = 2;

pub const GLOW_VERSION_MINOR: u8 = 50;

// ---------------------------------------------------------------------------
// Values
// ---------------------------------------------------------------------------
/// A parameter value. A real is carried as its IEEE-754 bit pattern: the
/// library never computes with it, only moves it.
#[derive(Debug, PartialEq)]
pub enum Value {
    Integer(Integer64),
    Real(u64),
    String(EmberString),
    Boolean(bool),
    Octets(Vec<u8>),
    Null,
}

/// A numeric-or-null bound of a parameter. A real is carried as its
/// IEEE-754 bit pattern.
#[derive(Debug, PartialEq)]
pub enum MinMax {
    Integer(Integer64),
    Real(u64),
    Null,
}

#[derive(Debug, Clone, Copy, PartialEq, Eq, Structural)]
pub enum ParameterType {
    Null,
    Integer,
    Real,
    String,
    Boolean,
    Trigger,
    Enum,
    Octets,
}

#[derive(Debug, Clone, Copy, PartialEq, Eq, Structural)]
pub enum ParameterAccess {
    NoAccess,
    Read,
    Write,
    ReadWrite,
}

#[derive(Debug, Clone, Copy, PartialEq, Eq, Structural)]
pub enum StreamFormat {
    UnsignedInt8,
    UnsignedInt16BigEndian,
    UnsignedInt16LittleEndian,
    UnsignedInt32BigEndian,
    UnsignedInt32LittleEndian,
    UnsignedInt64BigEndian,
    UnsignedInt64LittleEndian,
    SignedInt8,
    SignedInt16BigEndian,
    SignedInt16LittleEndian,
    SignedInt32BigEndian,
    SignedInt32LittleEndian,
    SignedInt64BigEndian,
    SignedInt64LittleEndian,
    IeeeFloat32BigEndian,
    IeeeFloat32LittleEndian,
    IeeeFloat64BigEndian,
    IeeeFloat64LittleEndian,
}

// ---------------------------------------------------------------------------
// Parameter
// ---------------------------------------------------------------------------
#[derive(Debug, Clone, PartialEq)]
pub struct StringIntegerPair {
    pub entry_string: EmberString,
    pub entry_integer: Integer32,
}

#[derive(Debug, Clone, PartialEq)]
pub struct TaggedStringIntegerPair(pub StringIntegerPair);

#[derive(Debug, Clone, PartialEq)]
pub struct StringIntegerCollection(pub Vec<TaggedStringIntegerPair>);

#[derive(Debug, Clone, PartialEq)]
pub struct StreamDescription {
    pub format: StreamFormat,
    pub offset: Integer32,
}

#[derive(Debug, PartialEq)]
pub struct ParameterContents {
    pub identifier: Option<EmberString>,
    pub description: Option<EmberString>,
    pub param_value: Option<Value>,
    pub minimum: Option<MinMax>,
    pub maximum: Option<MinMax>,
    pub access: Option<ParameterAccess>,
    pub format: Option<EmberString>,
    pub enumeration: Option<EmberString>,
    pub factor: Option<Integer32>,
    pub is_online: Option<bool>,
    pub formula: Option<EmberString>,
    pub step: Option<Integer32>,
    pub default: Option<Value>,
    pub parameter_type: Option<ParameterType>,
    pub stream_identifier: Option<Integer32>,
    pub enum_map: Option<StringIntegerCollection>,
    pub stream_descriptor: Option<StreamDescription>,
    pub schema_identifiers: Option<EmberString>,
    pub template_reference: Option<RelativeOid>,
}

#[derive(Debug, PartialEq)]
pub struct Parameter {
    pub number: Integer32,
    pub contents: Option<ParameterContents>,
    pub children: Option<ElementCollection>,
}

#[derive(Debug, PartialEq)]
pub struct QualifiedParameter {
    pub path: RelativeOid,
    pub contents: Option<ParameterContents>,
    pub children: Option<ElementCollection>,
}

// ---------------------------------------------------------------------------
// Command
// ---------------------------------------------------------------------------
#[derive(Debug, Clone, Copy, PartialEq, Eq, Structural)]
pub enum CommandType {
    Subscribe,
    Unsubscribe,
    GetDirectory,
    Invoke,
}

#[derive(Debug, Clone, Copy, PartialEq, Eq, Structural)]
pub enum FieldFlags {
    Sparse,
    All,
    Default,
    Identifier,
    Description,
    Tree,
    Value,
    Connections,
}

#[derive(Debug, PartialEq)]
pub struct Invocation {
    pub invocation_id: Option<Integer32>,
    pub arguments: Option<Tuple>,
}

#[derive(Debug, PartialEq)]
pub enum CommandOptions {
    DirFieldMask(FieldFlags),
    Invocation(Invocation),
}

#[derive(Debug, PartialEq)]
pub struct Command {
    pub number: CommandType,
    pub options: Option<CommandOptions>,
}

impl Command {
    /// The directory query that the traversal engine issues.
    pub fn get_directory(flags: Option<FieldFlags>) -> (r: Self)
        ensures
            r.number == CommandType::GetDirectory,
            flags matches Some(f) ==> r.options == Some(CommandOptions::DirFieldMask(f)),
            flags is None ==> r.options is None,
    {
        Command {
            number: CommandType::GetDirectory,
            options: match flags {
                Some(f) => Some(CommandOptions::DirFieldMask(f)),
                None => None,
            },
        }
    }
}

// ---------------------------------------------------------------------------
// Node
// ---------------------------------------------------------------------------
#[derive(Debug, Clone, PartialEq)]
pub struct NodeContents {
    pub identifier: Option<EmberString>,
    pub description: Option<EmberString>,
    pub is_root: Option<bool>,
    pub is_online: Option<bool>,
    pub schema_identifiers: Option<EmberString>,
    pub template_reference: Option<RelativeOid>,
}

#[derive(Debug, PartialEq)]
pub struct Node {
    pub number: Integer32,
    pub contents: Option<NodeContents>,
    pub children: Option<ElementCollection>,
}

#[derive(Debug, PartialEq)]
pub struct QualifiedNode {
    pub path: RelativeOid,
    pub contents: Option<NodeContents>,
    pub children: Option<ElementCollection>,
}

// ---------------------------------------------------------------------------
// Matrix and signals
// ---------------------------------------------------------------------------
#[derive(Debug, Clone, Copy, PartialEq, Eq, Structural)]
pub enum MatrixType {
    OneToN,
    OneToOne,
    NToN,
}

#[derive(Debug, Clone, Copy, PartialEq, Eq, Structural)]
pub enum MatrixAddressingMode {
    Linear,
    NonLinear,
}

#[derive(Debug, Clone, PartialEq)]
pub enum ParametersLocation {
    BasePath(RelativeOid),
    Inline(Integer32),
}

#[derive(Debug, Clone, PartialEq)]
pub struct Label {
    pub base_path: RelativeOid,
    pub description: EmberString,
}

#[derive(Debug, Clone, PartialEq)]
pub struct TaggedLabel(pub Label);

#[derive(Debug, Clone, PartialEq)]
pub struct LabelCollection(pub Vec<TaggedLabel>);

#[derive(Debug, Clone, PartialEq)]
pub struct MatrixContents {
    pub identifier: EmberString,
    pub description: Option<EmberString>,
    pub matrix_type: Option<MatrixType>,
    pub addressing_mode: Option<MatrixAddressingMode>,
    pub target_count: Integer32,
    pub source_count: Integer32,
    pub maximum_total_connects: Option<Integer32>,
    pub maximum_connects_per_target: Option<Integer32>,
    pub parameters_location: Option<ParametersLocation>,
    pub gain_parameter_number: Option<Integer32>,
    pub labels: Option<LabelCollection>,
    pub schema_identifiers: Option<EmberString>,
    pub template_reference: Option<RelativeOid>,
}

#[derive(Debug, Clone, PartialEq)]
pub struct SignalContents {
    pub identifier: Option<EmberString>,
    pub is_online: Option<bool>,
    pub labels_location: Option<RelativeOid>,
}

#[derive(Debug, Clone, PartialEq)]
pub struct Signal {
    pub number: Integer32,
    pub contents: Option<SignalContents>,
}

#[derive(Debug, Clone, PartialEq)]
pub struct Target(pub Signal);

#[derive(Debug, Clone, PartialEq)]
pub struct TaggedTarget(pub Target);

#[derive(Debug, Clone, PartialEq)]
pub struct TargetCollection(pub Vec<TaggedTarget>);

#[derive(Debug, Clone, PartialEq)]
pub struct Source(pub Signal);

#[derive(Debug, Clone, PartialEq)]
pub struct TaggedSource(pub Source);

#[derive(Debug, Clone, PartialEq)]
pub struct SourceCollection(pub Vec<TaggedSource>);

#[derive(Debug, Clone, PartialEq)]
pub struct PackedNumbers(pub RelativeOid);

#[derive(Debug, Clone, Copy, PartialEq, Eq, Structural)]
pub enum ConnectionOperation {
    Absolute,
    Connect,
    Disconnect,
}

#[derive(Debug, Clone, Copy, PartialEq, Eq, Structural)]
pub enum ConnectionDisposition {
    Tally,
    Modified,
    Pending,
    Locked,
}

#[derive(Debug, Clone, PartialEq)]
pub struct Connection {
    pub target: Integer32,
    pub sources: Option<PackedNumbers>,
    pub operation: Option<ConnectionOperation>,
    pub disposition: Option<ConnectionDisposition>,
}

#[derive(Debug, Clone, PartialEq)]
pub struct TaggedConnection(pub Connection);

#[derive(Debug, Clone, PartialEq)]
pub struct ConnectionCollection(pub Vec<TaggedConnection>);

#[derive(Debug, PartialEq)]
pub struct Matrix {
    pub number: Integer32,
    pub contents: Option<MatrixContents>,
    pub children: Option<ElementCollection>,
    pub targets: Option<TargetCollection>,
    pub sources: Option<SourceCollection>,
    pub connections: Option<ConnectionCollection>,
}

#[derive(Debug, PartialEq)]
pub struct QualifiedMatrix {
    pub path: RelativeOid,
    pub contents: Option<MatrixContents>,
    pub children: Option<ElementCollection>,
    pub targets: Option<TargetCollection>,
    pub sources: Option<SourceCollection>,
    pub connections: Option<ConnectionCollection>,
}

// ---------------------------------------------------------------------------
// Function
// ---------------------------------------------------------------------------
#[derive(Debug, Clone, PartialEq)]
pub struct TupleItemDescription {
    pub item_type: ParameterType,
    pub name: Option<EmberString>,
}

#[derive(Debug, Clone, PartialEq)]
pub struct TaggedTupleItemDescription(pub TupleItemDescription);

#[derive(Debug, Clone, PartialEq)]
pub struct TupleDescription(pub Vec<TaggedTupleItemDescription>);

#[derive(Debug, Clone, PartialEq)]
pub struct FunctionContents {
    pub identifier: Option<EmberString>,
    pub description: Option<EmberString>,
    pub arguments: Option<TupleDescription>,
    pub result: Option<TupleDescription>,
    pub template_reference: Option<RelativeOid>,
}

#[derive(Debug, PartialEq)]
pub struct Function {
    pub number: Integer32,
    pub contents: Option<FunctionContents>,
    pub children: Option<ElementCollection>,
}

#[derive(Debug, PartialEq)]
pub struct QualifiedFunction {
    pub path: RelativeOid,
    pub contents: Option<FunctionContents>,
    pub children: Option<ElementCollection>,
}

#[derive(Debug, PartialEq)]
pub struct TaggedValue(pub Value);

#[derive(Debug, PartialEq)]
pub struct Tuple(pub Vec<TaggedValue>);

#[derive(Debug, PartialEq)]
pub struct InvocationResult {
    pub invocation_id: Integer32,
    pub success: Option<bool>,
    pub result: Option<Tuple>,
}

// ---------------------------------------------------------------------------
// Template
// ---------------------------------------------------------------------------
#[derive(Debug, PartialEq)]
pub struct Template {
    pub number: Integer32,
    pub element: Option<Box<TemplateElement>>,
    pub description: Option<EmberString>,
}

#[derive(Debug, PartialEq)]
pub struct QualifiedTemplate {
    pub path: RelativeOid,
    pub element: Option<Box<TemplateElement>>,
    pub description: Option<EmberString>,
}

#[derive(Debug, PartialEq)]
pub enum TemplateElement {
    Parameter(Parameter),
    Node(Node),
    Matrix(Matrix),
    Function(Function),
}

// ---------------------------------------------------------------------------
// Element and Root
// ---------------------------------------------------------------------------
#[derive(Debug, PartialEq)]
pub enum Element {
    Parameter(Parameter),
    Node(Node),
    Command(Command),
    Matrix(Matrix),
    Function(Function),
    Template(Template),
}

#[derive(Debug, PartialEq)]
pub struct TaggedElement(pub Element);

#[derive(Debug, PartialEq)]
pub struct ElementCollection(pub Vec<TaggedElement>);

#[derive(Debug, PartialEq)]
pub struct StreamEntry {
    pub stream_identifier: Integer32,
    pub stream_value: Value,
}

#[derive(Debug, PartialEq)]
pub struct TaggedStreamEntry(pub StreamEntry);

#[derive(Debug, PartialEq)]
pub struct StreamCollection(pub Vec<TaggedStreamEntry>);

#[derive(Debug, PartialEq)]
pub enum RootElement {
    Element(Element),
    QualifiedParameter(QualifiedParameter),
    QualifiedNode(QualifiedNode),
    QualifiedMatrix(QualifiedMatrix),
    QualifiedFunction(QualifiedFunction),
    QualifiedTemplate(QualifiedTemplate),
}

#[derive(Debug, PartialEq)]
pub struct TaggedRootElement(pub RootElement);

#[derive(Debug, PartialEq)]
pub struct RootElementCollection(pub Vec<TaggedRootElement>);

/// A whole Glow message.
#[derive(Debug, PartialEq)]
pub enum Root {
    Elements(RootElementCollection),
    Streams(StreamCollection),
    InvocationResult(InvocationResult),
}

impl Root {
    /// A message holding a single bare command at root level.
    pub fn command(command: Command) -> (r: Root)
        ensures
            r matches Root::Elements(c) && c.0@ == seq![
                TaggedRootElement(RootElement::Element(Element::Command(command))),
            ],
    {
        let mut items: Vec<TaggedRootElement> = Vec::new();
        items.push(TaggedRootElement(RootElement::Element(Element::Command(command))));
        Root::Elements(RootElementCollection(items))
    }

    /// A message holding a single qualified node at root level.
    pub fn qualified_node(node: QualifiedNode) -> (r: Root)
        ensures
            r matches Root::Elements(c) && c.0@ == seq![
                TaggedRootElement(RootElement::QualifiedNode(node)),
            ],
    {
        let mut items: Vec<TaggedRootElement> = Vec::new();
        items.push(TaggedRootElement(RootElement::QualifiedNode(node)));
        Root::Elements(RootElementCollection(items))
    }

    /// A message holding a single qualified parameter at root level.
    pub fn qualified_parameter(parameter: QualifiedParameter) -> (r: Root)
        ensures
            r matches Root::Elements(c) && c.0@ == seq![
                TaggedRootElement(RootElement::QualifiedParameter(parameter)),
            ],
    {
        let mut items: Vec<TaggedRootElement> = Vec::new();
        items.push(TaggedRootElement(RootElement::QualifiedParameter(parameter)));
        Root::Elements(RootElementCollection(items))
    }

    /// A message holding a single qualified matrix at root level.
    pub fn qualified_matrix(matrix: QualifiedMatrix) -> (r: Root)
        ensures
            r matches Root::Elements(c) && c.0@ == seq![
                TaggedRootElement(RootElement::QualifiedMatrix(matrix)),
            ],
    {
        let mut items: Vec<TaggedRootElement> = Vec::new();
        items.push(TaggedRootElement(RootElement::QualifiedMatrix(matrix)));
        Root::Elements(RootElementCollection(items))
    }
}

impl ElementCollection {
    /// A child list holding a single command.
    pub fn command(command: Command) -> (r: ElementCollection)
        ensures
            r.0@ == seq![TaggedElement(Element::Command(command))],
    {
        let mut items: Vec<TaggedElement> = Vec::new();
        items.push(TaggedElement(Element::Command(command)));
        ElementCollection(items)
    }
}

impl QualifiedNode {
    /// A qualified node carrying only a command, addressed to `path`.
    pub fn command(path: RelativeOid, command: Command) -> (r: QualifiedNode)
        ensures
            r.path == path,
            r.contents is None,
            r.children matches Some(c) && c.0@ == seq![TaggedElement(Element::Command(command))],
    {
        QualifiedNode { path, contents: None, children: Some(ElementCollection::command(command)) }
    }
}

impl QualifiedParameter {
    /// A qualified parameter carrying only a command, addressed to `path`.
    pub fn command(path: RelativeOid, command: Command) -> (r: QualifiedParameter)
        ensures
            r.path == path,
            r.contents is None,
            r.children matches Some(c) && c.0@ == seq![TaggedElement(Element::Command(command))],
    {
        QualifiedParameter {
            path,
            contents: None,
            children: Some(ElementCollection::command(command)),
        }
    }
}

impl QualifiedMatrix {
    /// A qualified matrix carrying only a command, addressed to `path`.
    pub fn command(path: RelativeOid, command: Command) -> (r: QualifiedMatrix)
        ensures
            r.path == path,
            r.contents is None,
            r.children matches Some(c) && c.0@ == seq![TaggedElement(Element::Command(command))],
            r.targets is None && r.sources is None && r.connections is None,
    {
        QualifiedMatrix {
            path,
            contents: None,
            children: Some(ElementCollection::command(command)),
            targets: None,
            sources: None,
            connections: None,
        }
    }
}

impl QualifiedFunction {
    /// A qualified function carrying only a command, addressed to `path`.
    pub fn command(path: RelativeOid, command: Command) -> (r: QualifiedFunction)
        ensures
            r.path == path,
            r.contents is None,
            r.children matches Some(c) && c.0@ == seq![TaggedElement(Element::Command(command))],
    {
        QualifiedFunction {
            path,
            contents: None,
            children: Some(ElementCollection::command(command)),
        }
    }
}

// ---------------------------------------------------------------------------
// Emptiness and online state
// ---------------------------------------------------------------------------
/// Whether node contents say nothing. The online flag is ignored here, for
/// providers that set it on otherwise empty contents.
pub open spec fn node_contents_empty(c: NodeContents) -> bool {
    c.description is None && c.identifier is None && c.is_root is None
        && c.schema_identifiers is None && c.template_reference is None
}

/// Whether parameter contents say nothing. The online flag is ignored here,
/// for providers that set it on otherwise empty contents.
pub open spec fn parameter_contents_empty(c: ParameterContents) -> bool {
    c.access is None && c.default is None && c.description is None && c.enum_map is None
        && c.enumeration is None && c.factor is None && c.format is None && c.formula is None
        && c.identifier is None
}

impl NodeContents {
    pub fn is_empty(&self) -> (r: bool)
        ensures
            r == node_contents_empty(*self),
    {
        self.description.is_none() && self.identifier.is_none() && self.is_root.is_none()
            && self.schema_identifiers.is_none() && self.template_reference.is_none()
    }
}

impl ParameterContents {
    pub fn is_empty(&self) -> (r: bool)
        ensures
            r == parameter_contents_empty(*self),
    {
        self.access.is_none() && self.default.is_none() && self.description.is_none()
            && self.enum_map.is_none() && self.enumeration.is_none() && self.factor.is_none()
            && self.format.is_none() && self.formula.is_none() && self.identifier.is_none()
    }
}

/// Whether a node carries neither children nor contents worth a word.
pub open spec fn node_empty(n: Node) -> bool {
    (match n.children {
        Some(c) => c.0@.len() == 0,
        None => true,
    }) && (match n.contents {
        Some(c) => node_contents_empty(c),
        None => true,
    })
}

pub open spec fn qualified_node_empty(n: QualifiedNode) -> bool {
    (match n.children {
        Some(c) => c.0@.len() == 0,
        None => true,
    }) && (match n.contents {
        Some(c) => node_contents_empty(c),
        None => true,
    })
}

pub open spec fn parameter_empty(p: Parameter) -> bool {
    (match p.children {
        Some(c) => c.0@.len() == 0,
        None => true,
    }) && (match p.contents {
        Some(c) => parameter_contents_empty(c),
        None => true,
    })
}

pub open spec fn qualified_parameter_empty(p: QualifiedParameter) -> bool {
    (match p.children {
        Some(c) => c.0@.len() == 0,
        None => true,
    }) && (match p.contents {
        Some(c) => parameter_contents_empty(c),
        None => true,
    })
}

impl Node {
    pub fn id(&self) -> (r: Option<&str>)
        ensures
            r is Some <==> (self.contents matches Some(c) && c.identifier is Some),
            r matches Some(s) ==> (self.contents matches Some(c) && c.identifier matches Some(i)
                && s@ == i@),
    {
        match &self.contents {
            Some(c) => match &c.identifier {
                Some(i) => Some(i.as_str()),
                None => None,
            },
            None => None,
        }
    }

    pub fn is_empty(&self) -> (r: bool)
        ensures
            r == node_empty(*self),
    {
        (match &self.children {
            Some(c) => c.0.len() == 0,
            None => true,
        }) && (match &self.contents {
            Some(c) => c.is_empty(),
            None => true,
        })
    }

    pub fn is_online(&self) -> (r: bool)
        ensures
            r == node_online(*self),
    {
        match &self.contents {
            Some(c) => match c.is_online {
                Some(b) => b,
                None => true,
            },
            None => true,
        }
    }
}

/// A node is online unless its contents say otherwise.
pub open spec fn node_online(n: Node) -> bool {
    match n.contents {
        Some(c) => match c.is_online {
            Some(b) => b,
            None => true,
        },
        None => true,
    }
}

pub open spec fn qualified_node_online(n: QualifiedNode) -> bool {
    match n.contents {
        Some(c) => match c.is_online {
            Some(b) => b,
            None => true,
        },
        None => true,
    }
}

pub open spec fn parameter_online(p: Parameter) -> bool {
    match p.contents {
        Some(c) => match c.is_online {
            Some(b) => b,
            None => true,
        },
        None => true,
    }
}

pub open spec fn qualified_parameter_online(p: QualifiedParameter) -> bool {
    match p.contents {
        Some(c) => match c.is_online {
            Some(b) => b,
            None => true,
        },
        None => true,
    }
}

impl QualifiedNode {
    pub fn id(&self) -> (r: Option<&str>)
        ensures
            r is Some <==> (self.contents matches Some(c) && c.identifier is Some),
            r matches Some(s) ==> (self.contents matches Some(c) && c.identifier matches Some(i)
                && s@ == i@),
    {
        match &self.contents {
            Some(c) => match &c.identifier {
                Some(i) => Some(i.as_str()),
                None => None,
            },
            None => None,
        }
    }

    pub fn is_empty(&self) -> (r: bool)
        ensures
            r == qualified_node_empty(*self),
    {
        (match &self.children {
            Some(c) => c.0.len() == 0,
            None => true,
        }) && (match &self.contents {
            Some(c) => c.is_empty(),
            None => true,
        })
    }

    pub fn is_online(&self) -> (r: bool)
        ensures
            r == qualified_node_online(*self),
    {
        match &self.contents {
            Some(c) => match c.is_online {
                Some(b) => b,
                None => true,
            },
            None => true,
        }
    }
}

impl Parameter {
    pub fn id(&self) -> (r: Option<&str>)
        ensures
            r is Some <==> (self.contents matches Some(c) && c.identifier is Some),
            r matches Some(s) ==> (self.contents matches Some(c) && c.identifier matches Some(i)
                && s@ == i@),
    {
        match &self.contents {
            Some(c) => match &c.identifier {
                Some(i) => Some(i.as_str()),
                None => None,
            },
            None => None,
        }
    }

    pub fn is_empty(&self) -> (r: bool)
        ensures
            r == parameter_empty(*self),
    {
        (match &self.children {
            Some(c) => c.0.len() == 0,
            None => true,
        }) && (match &self.contents {
            Some(c) => c.is_empty(),
            None => true,
        })
    }

    pub fn is_online(&self) -> (r: bool)
        ensures
            r == parameter_online(*self),
    {
        match &self.contents {
            Some(c) => match c.is_online {
                Some(b) => b,
                None => true,
            },
            None => true,
        }
    }

    /// The carried value, if any.
    pub fn value(&self) -> (r: Option<&Value>)
        ensures
            r matches Some(v) ==> (self.contents matches Some(c) && c.param_value matches Some(w)
                && *v == w),
            r is None ==> match self.contents {
                Some(c) => c.param_value is None,
                None => true,
            },
    {
        match &self.contents {
            Some(c) => match &c.param_value {
                Some(v) => Some(v),
                None => None,
            },
            None => None,
        }
    }
}

impl QualifiedParameter {
    pub fn id(&self) -> (r: Option<&str>)
        ensures
            r is Some <==> (self.contents matches Some(c) && c.identifier is Some),
            r matches Some(s) ==> (self.contents matches Some(c) && c.identifier matches Some(i)
                && s@ == i@),
    {
        match &self.contents {
            Some(c) => match &c.identifier {
                Some(i) => Some(i.as_str()),
                None => None,
            },
            None => None,
        }
    }

    pub fn is_empty(&self) -> (r: bool)
        ensures
            r == qualified_parameter_empty(*self),
    {
        (match &self.children {
            Some(c) => c.0.len() == 0,
            None => true,
        }) && (match &self.contents {
            Some(c) => c.is_empty(),
            None => true,
        })
    }

    pub fn is_online(&self) -> (r: bool)
        ensures
            r == qualified_parameter_online(*self),
    {
        match &self.contents {
            Some(c) => match c.is_online {
                Some(b) => b,
                None => true,
            },
            None => true,
        }
    }

    /// The carried value, if any.
    pub fn value(&self) -> (r: Option<&Value>)
        ensures
            r matches Some(v) ==> (self.contents matches Some(c) && c.param_value matches Some(w)
                && *v == w),
            r is None ==> match self.contents {
                Some(c) => c.param_value is None,
                None => true,
            },
    {
        match &self.contents {
            Some(c) => match &c.param_value {
                Some(v) => Some(v),
                None => None,
            },
            None => None,
        }
    }
}

impl Matrix {
    pub fn id(&self) -> (r: Option<&str>)
        ensures
            r matches Some(s) ==> (self.contents matches Some(c) && s@ == c.identifier@),
            r is Some <==> self.contents is Some,
    {
        match &self.contents {
            Some(c) => Some(c.identifier.as_str()),
            None => None,
        }
    }
}

impl QualifiedMatrix {
    pub fn id(&self) -> (r: Option<&str>)
        ensures
            r matches Some(s) ==> (self.contents matches Some(c) && s@ == c.identifier@),
            r is Some <==> self.contents is Some,
    {
        match &self.contents {
            Some(c) => Some(c.identifier.as_str()),
            None => None,
        }
    }
}

// ---------------------------------------------------------------------------
// Fragmentation into packets
// ---------------------------------------------------------------------------
/// How many packets a payload of `n` bytes needs: none for an empty
/// payload, else one per started chunk.
pub open spec fn packet_count_spec(n: int) -> int {
    if n == 0 {
        0
    } else {
        (n + MAX_PAYLOAD_LEN - 1) / (MAX_PAYLOAD_LEN as int)
    }
}

/// The position flag of fragment `i` of `count`.
pub open spec fn fragment_flag(count: int, i: int) -> Flags {
    if count == 1 {
        Flags::SinglePacket
    } else if i == 0 {
        Flags::MultiPacketFirst
    } else if i == count - 1 {
        Flags::MultiPacketLast
    } else {
        Flags::MultiPacket
    }
}

/// The bytes of fragment `i` of a payload: its chunk of `MAX_PAYLOAD_LEN`
/// bytes, shorter at the end.
pub open spec fn fragment_payload(payload: Seq<u8>, i: int) -> Seq<u8> {
    payload.subrange(
        i * MAX_PAYLOAD_LEN,
        if (i + 1) * MAX_PAYLOAD_LEN <= payload.len() {
            (i + 1) * (MAX_PAYLOAD_LEN as int)
        } else {
            payload.len() as int
        },
    )
}

/// How many packets a payload needs.
pub fn packet_count(payload: &[u8]) -> (r: usize)
    ensures
        r == packet_count_spec(payload@.len() as int),
{
    let n = payload.len();
    if n == 0 {
        0
    } else {
        let r = n / MAX_PAYLOAD_LEN + (if n % MAX_PAYLOAD_LEN > 0 {
            1
        } else {
            0
        });
        proof {
            vstd::arithmetic::div_mod::lemma_fundamental_div_mod(n as int, MAX_PAYLOAD_LEN as int);
            assert(r == packet_count_spec(n as int)) by (nonlinear_arith)
                requires
                    n > 0,
                    n == (n as int / 1024) * 1024 + (n as int) % 1024,
                    0 <= (n as int) % 1024 < 1024,
                    r == n as int / 1024 + (if (n as int) % 1024 > 0 {
                        1int
                    } else {
                        0int
                    }),
            ;
        }
        r
    }
}

/// Splits an encoded payload into consecutive fragments: the first carries
/// `firstOfMulti`, the last `lastOfMulti`, intermediate ones `middle`; a
/// payload within one chunk gives a single packet; an empty payload gives
/// none.
pub fn to_packets(payload: &[u8]) -> (r: Vec<EmberPacket>)
    requires
        payload@.len() + MAX_PAYLOAD_LEN <= usize::MAX,
    ensures
        r@.len() == packet_count_spec(payload@.len() as int),
        forall|i: int|
            0 <= i < r@.len() ==> #[trigger] r@[i]@ == (PacketModel {
                flag: fragment_flag(r@.len() as int, i),
                dtd: 0x01,
                app_bytes: 0x02,
                glow_version_maj: GLOW_VERSION_MAJOR,
                glow_version_min: GLOW_VERSION_MINOR,
                payload: fragment_payload(payload@, i),
            }),
{
    let count = packet_count(payload);
    proof {
        lemma_fragment_bounds(payload@.len() as int);
    }
    let mut packets: Vec<EmberPacket> = Vec::new();
    let mut i: usize = 0;
    while i < count
        invariant
            i <= count,
            count == packet_count_spec(payload@.len() as int),
            count * MAX_PAYLOAD_LEN >= payload@.len(),
            count * MAX_PAYLOAD_LEN <= payload@.len() + MAX_PAYLOAD_LEN - 1,
            payload@.len() + MAX_PAYLOAD_LEN <= usize::MAX,
            count > 0 ==> (count - 1) * MAX_PAYLOAD_LEN < payload@.len(),
            packets@.len() == i,
            forall|j: int|
                0 <= j < i ==> #[trigger] packets@[j]@ == (PacketModel {
                    flag: fragment_flag(count as int, j),
                    dtd: 0x01,
                    app_bytes: 0x02,
                    glow_version_maj: GLOW_VERSION_MAJOR,
                    glow_version_min: GLOW_VERSION_MINOR,
                    payload: fragment_payload(payload@, j),
                }),
        decreases count - i,
    {
        proof {
            assert(i * 1024 <= (count - 1) * 1024 && (i + 1) * 1024 <= count * 1024)
                by (nonlinear_arith)
                requires
                    0 <= i < count,
            ;
        }
        let start = i * MAX_PAYLOAD_LEN;
        let end = if start + MAX_PAYLOAD_LEN <= payload.len() {
            start + MAX_PAYLOAD_LEN
        } else {
            payload.len()
        };
        let chunk = vstd::slice::slice_to_vec(vstd::slice::slice_subrange(payload, start, end));
        let flag = if count == 1 {
            Flags::SinglePacket
        } else if i == 0 {
            Flags::MultiPacketFirst
        } else if i == count - 1 {
            Flags::MultiPacketLast
        } else {
            Flags::MultiPacket
        };
        packets.push(EmberPacket::new(flag, GLOW_VERSION_MAJOR, GLOW_VERSION_MINOR, chunk));
        i += 1;
    }
    packets
}

/// The payload bounds that the packet count implies.
proof fn lemma_fragment_bounds(n: int)
    requires
        n >= 0,
    ensures
        packet_count_spec(n) * MAX_PAYLOAD_LEN >= n,
        packet_count_spec(n) * MAX_PAYLOAD_LEN <= n + MAX_PAYLOAD_LEN - 1,
        packet_count_spec(n) >= 0,
        n > 0 ==> (packet_count_spec(n) - 1) * MAX_PAYLOAD_LEN < n,
        n > 0 ==> packet_count_spec(n) >= 1,
{
    if n > 0 {
        vstd::arithmetic::div_mod::lemma_fundamental_div_mod(n + 1023, 1024);
        assert(packet_count_spec(n) * 1024 >= n && packet_count_spec(n) * 1024 <= n + 1023 && (
        packet_count_spec(n) - 1) * 1024 < n && packet_count_spec(n) >= 1) by (nonlinear_arith)
            requires
                n > 0,
                n + 1023 == ((n + 1023) / 1024) * 1024 + (n + 1023) % 1024,
                0 <= (n + 1023) % 1024 < 1024,
                packet_count_spec(n) == (n + 1023) / 1024,
        ;
    }
}

/// The payload bytes of a packet sequence, concatenated in order.
pub open spec fn concat_payloads(s: Seq<EmberPacket>) -> Seq<u8>
    decreases s.len(),
{
    if s.len() == 0 {
        Seq::empty()
    } else {
        concat_payloads(s.drop_last()) + s.last()@.payload
    }
}

/// Concatenates the payload fragments of consecutive packets back into one
/// payload, in arrival order.
pub fn from_packets(packets: &[EmberPacket]) -> (r: Vec<u8>)
    ensures
        r@ == concat_payloads(packets@),
{
    let mut out: Vec<u8> = Vec::new();
    let mut i: usize = 0;
    while i < packets.len()
        invariant
            i <= packets@.len(),
            out@ == concat_payloads(packets@.subrange(0, i as int)),
        decreases packets@.len() - i,
    {
        let p = vstd::slice::slice_index_get(packets, i);
        let mut chunk = p.payload().clone();
        out.append(&mut chunk);
        i += 1;
        proof {
            assert(packets@.subrange(0, i as int).drop_last() =~= packets@.subrange(0, i - 1));
        }
    }
    proof {
        assert(packets@.subrange(0, packets@.len() as int) =~= packets@);
    }
    out
}

/// Reassembling the fragments of a payload yields the payload: the
/// fragmentation round trip, for any packet sequence shaped as
/// [`to_packets`] promises.
pub proof fn lemma_fragment_round_trip(packets: Seq<EmberPacket>, payload: Seq<u8>)
    requires
        packets.len() == packet_count_spec(payload.len() as int),
        forall|i: int|
            0 <= i < packets.len() ==> (#[trigger] packets[i]@).payload == fragment_payload(
                payload,
                i,
            ),
    ensures
        concat_payloads(packets) == payload,
    decreases packets.len(),
{
    lemma_fragment_bounds(payload.len() as int);
    if packets.len() == 0 {
        assert(concat_payloads(packets) =~= payload);
    } else {
        let count = packets.len() as int;
        let prefix_len = (count - 1) * (MAX_PAYLOAD_LEN as int);
        assert(0 <= prefix_len < payload.len() && packet_count_spec(prefix_len) == count - 1)
            by (nonlinear_arith)
            requires
                count == packet_count_spec(payload.len() as int),
                prefix_len == (count - 1) * 1024,
                count * 1024 >= payload.len(),
                (count - 1) * 1024 < payload.len(),
                count >= 1,
                payload.len() > 0,
                packet_count_spec(prefix_len) == (if prefix_len == 0 {
                    0int
                } else {
                    (prefix_len + 1023) / 1024
                }),
        ;
        let prefix = payload.subrange(0, prefix_len);
        assert forall|i: int| 0 <= i < packets.drop_last().len() implies (
        #[trigger] packets.drop_last()[i]@).payload == fragment_payload(prefix, i) by {
            assert(packets[i]@.payload == fragment_payload(payload, i));
            assert((i + 1) * 1024 <= prefix_len && 0 <= i * 1024) by (nonlinear_arith)
                requires
                    0 <= i < count - 1,
                    prefix_len == (count - 1) * 1024,
            ;
            assert(fragment_payload(prefix, i) =~= fragment_payload(payload, i));
        }
        lemma_fragment_round_trip(packets.drop_last(), prefix);
        assert(packets.last()@.payload == fragment_payload(payload, count - 1));
        assert(concat_payloads(packets) =~= payload);
    }
}

} // verus!
