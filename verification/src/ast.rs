//! Structures that represent abstract syntax tree (AST) of the KDL document
//!
//! Spans only track byte offsets: the source text is expected to be around
//! when they are shown, so line and column numbers are computed on demand.
use vstd::prelude::*;

use crate::span::{Span, Spanned};
use vstd::std_specs::convert::FromSpec;
use crate::text::{chars_of, chars_of_string};

verus! {

broadcast use vstd::std_specs::vec::group_vec_axioms;

/// A shortcut for nodes children that includes span of enclosing braces `{..}`
pub type SpannedChildren = Spanned<Vec<SpannedNode>>;

/// KDL names with span information are represented using this type
pub type SpannedName = Spanned<String>;

/// A KDL node with span of the whole node (including children)
pub type SpannedNode = Spanned<Node>;

/// Single node of the KDL document
#[derive(Debug, Default, PartialEq, Eq, PartialOrd, Hash)]
pub struct Node {
    /// A type name if specified in parenthesis
    pub type_tag: Option<Spanned<TypeName>>,
    /// A node name
    pub node_name: SpannedName,
    /// Positional arguments
    pub arguments: Vec<Value>,
    /// Named properties, ordered by name, each name once
    pub properties: Vec<(SpannedName, Value)>,
    /// Node's children. This field is not none if there are braces `{..}`
    pub children: Option<SpannedChildren>,
}

/// KDL document root
#[derive(Debug, Default, PartialEq, Eq, PartialOrd, Hash)]
pub struct Document {
    /// Nodes of the document
    pub nodes: Vec<SpannedNode>,
}

/// Possible integer radices described by the KDL specification
#[derive(Copy, Clone, Eq, PartialEq, Structural, Ord, PartialOrd, Hash, Debug, Default)]
pub enum Radix {
    /// Binary (Base 2)
    Bin,
    /// Octal (Base 8)
    Oct,
    /// Decimal (Base 10)
    #[default]
    Dec,
    /// Hexadecimal (Base 16)
    Hex,
}

/// Potentially unlimited size integer value
#[derive(Eq, PartialEq, Ord, PartialOrd, Hash, Debug, Default)]
pub struct Integer(pub Radix, pub String);

/// Potentially unlimited precision decimal value
#[derive(Eq, PartialEq, Ord, PartialOrd, Hash, Debug, Default)]
pub struct Decimal(pub String);

/// Possibly typed KDL scalar value
#[derive(Debug, Default, PartialEq, Eq, PartialOrd, Hash)]
pub struct Value {
    /// A type name if specified in parenthesis
    pub type_tag: Option<Spanned<TypeName>>,
    /// The actual value literal
    pub literal: Spanned<Literal>,
}

/// Type identifier
#[derive(Eq, PartialEq, Ord, PartialOrd, Hash, Debug)]
pub struct TypeName(TypeNameInner);

#[derive(Eq, PartialEq, Ord, PartialOrd, Hash, Debug)]
enum TypeNameInner {
    Builtin(BuiltinType),
    Custom(String),
}

/// Known type identifiers described by the KDL specification — there are more
/// types defined in the specification than this enum captures, so this enum is
/// `non_exhaustive` for now.
#[non_exhaustive]
#[derive(Copy, Clone, Eq, PartialEq, Structural, Ord, PartialOrd, Hash, Debug)]
pub enum BuiltinType {
    /// `u8`: 8-bit unsigned integer type
    U8,
    /// `i8`: 8-bit signed integer type
    I8,
    /// `u16`: 16-bit unsigned integer type
    U16,
    /// `i16`: 16-bit signed integer type
    I16,
    /// `u32`: 32-bit unsigned integer type
    U32,
    /// `i32`: 32-bit signed integer type
    I32,
    /// `u64`: 64-bit unsigned integer type
    U64,
    /// `i64`: 64-bit signed integer type
    I64,
    /// `u128`: 128-bit unsigned integer type
    U128,
    /// `i128`: 128-bit signed integer type
    I128,
    /// `usize`: platform-dependent unsigned integer type
    Usize,
    /// `isize`: platform-dependent signed integer type
    Isize,
    /// `f32`: 32-bit floating point number
    F32,
    /// `f64`: 64-bit floating point number
    F64,
    /// `base64` denotes binary bytes type encoded using base64 encoding
    Base64,
}

/// Scalar KDL value
#[derive(Eq, PartialEq, Ord, PartialOrd, Hash, Debug, Default)]
pub enum Literal {
    /// Null value
    #[default]
    Null,
    /// Boolean value
    Bool(bool),
    /// Integer value
    Int(Integer),
    /// Decimal (or floating point) value
    Decimal(Decimal),
    /// String value
    String(String),
    /// Not a number
    Nan,
    /// Infinity
    Inf,
    /// Negative Infinity
    NegInf,
}

// ----- mathematical models -----

/// A literal, with its texts as character sequences.
pub enum LiteralV {
    Null,
    Bool(bool),
    Int(Radix, Seq<char>),
    Decimal(Seq<char>),
    String(Seq<char>),
    Nan,
    Inf,
    NegInf,
}

/// A type name: a builtin one, or any other text.
pub enum TypeNameV {
    Builtin(BuiltinType),
    Custom(Seq<char>),
}

/// A value: optional type name and literal, each with its span.
pub struct ValueV {
    pub type_tag: Option<(Span, TypeNameV)>,
    pub literal: (Span, LiteralV),
}

/// A node, with all of its parts as mathematical values.
pub struct NodeV {
    pub type_tag: Option<(Span, TypeNameV)>,
    pub name: (Span, Seq<char>),
    pub arguments: Seq<ValueV>,
    pub properties: Seq<((Span, Seq<char>), ValueV)>,
    pub children: Option<(Span, Seq<(Span, NodeV)>)>,
}

impl View for Literal {
    type V = LiteralV;

    open spec fn view(&self) -> LiteralV {
        match self {
            Literal::Null => LiteralV::Null,
            Literal::Bool(b) => LiteralV::Bool(*b),
            Literal::Int(i) => LiteralV::Int(i.0, i.1@),
            Literal::Decimal(d) => LiteralV::Decimal(d.0@),
            Literal::String(s) => LiteralV::String(s@),
            Literal::Nan => LiteralV::Nan,
            Literal::Inf => LiteralV::Inf,
            Literal::NegInf => LiteralV::NegInf,
        }
    }
}

impl View for TypeName {
    type V = TypeNameV;

    closed spec fn view(&self) -> TypeNameV {
        match self.0 {
            TypeNameInner::Builtin(b) => TypeNameV::Builtin(b),
            TypeNameInner::Custom(s) => TypeNameV::Custom(s@),
        }
    }
}

impl View for Value {
    type V = ValueV;

    open spec fn view(&self) -> ValueV {
        ValueV { type_tag: opt_view(self.type_tag), literal: self.literal@ }
    }
}

/// The view of an optional spanned type name.
pub open spec fn opt_view(t: Option<Spanned<TypeName>>) -> Option<(Span, TypeNameV)> {
    match t {
        Some(t) => Some(t@),
        None => None,
    }
}

/// The view of a name with its span.
pub open spec fn name_view(n: SpannedName) -> (Span, Seq<char>) {
    (n.span, n.value@)
}

/// The views of the properties of a node.
pub open spec fn props_view(ps: Seq<(SpannedName, Value)>) -> Seq<((Span, Seq<char>), ValueV)> {
    ps.map_values(|p: (SpannedName, Value)| (name_view(p.0), p.1@))
}

/// The view of a node.
pub open spec fn node_view(n: Node) -> NodeV
    decreases n,
{
    NodeV {
        type_tag: opt_view(n.type_tag),
        name: name_view(n.node_name),
        arguments: n.arguments@.map_values(|v: Value| v@),
        properties: props_view(n.properties@),
        children: match n.children {
            None => None,
            Some(c) => Some((c.span, nodes_view(c.value@))),
        },
    }
}

/// The views of a sequence of spanned nodes.
pub open spec fn nodes_view(ns: Seq<SpannedNode>) -> Seq<(Span, NodeV)>
    decreases ns,
{
    if ns.len() == 0 {
        Seq::empty()
    } else {
        nodes_view(ns.drop_last()).push((ns.last().span, node_view(ns.last().value)))
    }
}

impl View for Node {
    type V = NodeV;

    open spec fn view(&self) -> NodeV {
        node_view(*self)
    }
}

impl View for Document {
    type V = Seq<(Span, NodeV)>;

    open spec fn view(&self) -> Seq<(Span, NodeV)> {
        nodes_view(self.nodes@)
    }
}

/// Two sequences of nodes with equal views element by element have equal views.
pub proof fn lemma_nodes_view_pointwise(a: Seq<SpannedNode>, b: Seq<SpannedNode>)
    requires
        a.len() == b.len(),
        forall|j: int| 0 <= j < a.len() ==> #[trigger] a[j]@ == b[j]@,
    ensures
        nodes_view(a) == nodes_view(b),
    decreases a.len(),
{
    if a.len() > 0 {
        lemma_nodes_view_pointwise(a.drop_last(), b.drop_last());
        assert(a.last()@ == b.last()@);
    }
}

pub proof fn lemma_nodes_view_push(ns: Seq<SpannedNode>, n: SpannedNode)
    ensures
        nodes_view(ns.push(n)) == nodes_view(ns).push(n@),
{
    assert(ns.push(n).drop_last() =~= ns);
}

// ----- copies -----

impl Clone for Literal {
    fn clone(&self) -> (r: Self)
        ensures
            r == *self,
    {
        match self {
            Literal::Null => Literal::Null,
            Literal::Bool(b) => Literal::Bool(*b),
            Literal::Int(i) => Literal::Int(Integer(i.0, i.1.clone())),
            Literal::Decimal(d) => Literal::Decimal(Decimal(d.0.clone())),
            Literal::String(s) => Literal::String(s.clone()),
            Literal::Nan => Literal::Nan,
            Literal::Inf => Literal::Inf,
            Literal::NegInf => Literal::NegInf,
        }
    }
}

impl Clone for Integer {
    fn clone(&self) -> (r: Self)
        ensures
            r == *self,
    {
        Integer(self.0, self.1.clone())
    }
}

impl Clone for Decimal {
    fn clone(&self) -> (r: Self)
        ensures
            r == *self,
    {
        Decimal(self.0.clone())
    }
}

impl Clone for TypeName {
    fn clone(&self) -> (r: Self)
        ensures
            r == *self,
    {
        match &self.0 {
            TypeNameInner::Builtin(b) => TypeName(TypeNameInner::Builtin(*b)),
            TypeNameInner::Custom(s) => TypeName(TypeNameInner::Custom(s.clone())),
        }
    }
}

/// A copy of an optional spanned type name.
pub fn copy_type_tag(t: &Option<Spanned<TypeName>>) -> (r: Option<Spanned<TypeName>>)
    ensures
        r == *t,
{
    match t {
        None => None,
        Some(t) => Some(Spanned { span: t.span, value: t.value.clone() }),
    }
}

impl Clone for Value {
    fn clone(&self) -> (r: Self)
        ensures
            r == *self,
    {
        Value {
            type_tag: copy_type_tag(&self.type_tag),
            literal: Spanned { span: self.literal.span, value: self.literal.value.clone() },
        }
    }
}

/// A copy of a name with its span.
pub fn copy_name(n: &SpannedName) -> (r: SpannedName)
    ensures
        r == *n,
{
    Spanned { span: n.span, value: n.value.clone() }
}

/// A copy of a list of values.
pub fn copy_values(v: &Vec<Value>) -> (r: Vec<Value>)
    ensures
        r@ == v@,
{
    let mut r: Vec<Value> = Vec::new();
    let mut i: usize = 0;
    while i < v.len()
        invariant
            i <= v.len(),
            r@ == v@.take(i as int),
        decreases v.len() - i,
    {
        r.push(v[i].clone());
        i = i + 1;
        assert(r@ =~= v@.take(i as int));
    }
    assert(v@.take(v.len() as int) =~= v@);
    r
}

/// A copy of a list of properties.
pub fn copy_properties(v: &Vec<(SpannedName, Value)>) -> (r: Vec<(SpannedName, Value)>)
    ensures
        r@ == v@,
{
    let mut r: Vec<(SpannedName, Value)> = Vec::new();
    let mut i: usize = 0;
    while i < v.len()
        invariant
            i <= v.len(),
            r@ == v@.take(i as int),
        decreases v.len() - i,
    {
        r.push((copy_name(&v[i].0), v[i].1.clone()));
        i = i + 1;
        assert(r@ =~= v@.take(i as int));
    }
    assert(v@.take(v.len() as int) =~= v@);
    r
}

impl Clone for Node {
    fn clone(&self) -> (r: Self)
        ensures
            r@ == self@,
        decreases self,
    {
        let children = match &self.children {
            None => None,
            Some(c) => {
                let mut v: Vec<SpannedNode> = Vec::new();
                let mut i: usize = 0;
                while i < c.value.len()
                    invariant
                        i <= c.value.len(),
                        self.children == Some(*c),
                        v@.len() == i,
                        forall|j: int| 0 <= j < i ==> #[trigger] v@[j]@ == c.value@[j]@,
                    decreases c.value.len() - i,
                {
                    let n = &c.value[i];
                    proof {
                        assert(decreases_to!(*self => self.children));
                        assert(decreases_to!(self.children => self.children->0));
                        assert(decreases_to!(*c => c.value));
                        assert(decreases_to!(c.value => c.value[i as int]));
                        assert(decreases_to!(c.value[i as int] => n.value));
                    }
                    v.push(Spanned { span: n.span, value: n.value.clone() });
                    i = i + 1;
                }
                proof {
                    lemma_nodes_view_pointwise(v@, c.value@);
                }
                Some(Spanned { span: c.span, value: v })
            },
        };
        let arguments = copy_values(&self.arguments);
        let properties = copy_properties(&self.properties);
        proof {
            assert(arguments@.map_values(|v: Value| v@) =~= self.arguments@.map_values(
                |v: Value| v@,
            ));
            assert(props_view(properties@) =~= props_view(self.properties@));
        }
        Node {
            type_tag: copy_type_tag(&self.type_tag),
            node_name: copy_name(&self.node_name),
            arguments,
            properties,
            children,
        }
    }
}

impl Clone for Document {
    fn clone(&self) -> (r: Self)
        ensures
            r@ == self@,
    {
        let mut v: Vec<SpannedNode> = Vec::new();
        let mut i: usize = 0;
        while i < self.nodes.len()
            invariant
                i <= self.nodes.len(),
                v@.len() == i,
                forall|j: int| 0 <= j < i ==> #[trigger] v@[j]@ == self.nodes@[j]@,
            decreases self.nodes.len() - i,
        {
            let n = &self.nodes[i];
            v.push(Spanned { span: n.span, value: n.value.clone() });
            i = i + 1;
        }
        proof {
            lemma_nodes_view_pointwise(v@, self.nodes@);
        }
        Document { nodes: v }
    }
}

// ----- type names -----

/// The name of a builtin type, as the KDL specification writes it.
pub open spec fn builtin_name(b: BuiltinType) -> Seq<char> {
    match b {
            BuiltinType::U8 => seq!['u', '8'],
            BuiltinType::I8 => seq!['i', '8'],
            BuiltinType::U16 => seq!['u', '1', '6'],
            BuiltinType::I16 => seq!['i', '1', '6'],
            BuiltinType::U32 => seq!['u', '3', '2'],
            BuiltinType::I32 => seq!['i', '3', '2'],
            BuiltinType::U64 => seq!['u', '6', '4'],
            BuiltinType::I64 => seq!['i', '6', '4'],
            BuiltinType::U128 => seq!['u', '1', '2', '8'],
            BuiltinType::I128 => seq!['i', '1', '2', '8'],
            BuiltinType::Usize => seq!['u', 's', 'i', 'z', 'e'],
            BuiltinType::Isize => seq!['i', 's', 'i', 'z', 'e'],
            BuiltinType::F32 => seq!['f', '3', '2'],
            BuiltinType::F64 => seq!['f', '6', '4'],
            BuiltinType::Base64 => seq!['b', 'a', 's', 'e', '6', '4'],
    }
}

/// The builtin type that a type name denotes, if any.
pub open spec fn builtin_of(t: Seq<char>) -> Option<BuiltinType> {
        if t == seq!['u', '8'] {
            Some(BuiltinType::U8)
        } else if t == seq!['i', '8'] {
            Some(BuiltinType::I8)
        } else if t == seq!['u', '1', '6'] {
            Some(BuiltinType::U16)
        } else if t == seq!['i', '1', '6'] {
            Some(BuiltinType::I16)
        } else if t == seq!['u', '3', '2'] {
            Some(BuiltinType::U32)
        } else if t == seq!['i', '3', '2'] {
            Some(BuiltinType::I32)
        } else if t == seq!['u', '6', '4'] {
            Some(BuiltinType::U64)
        } else if t == seq!['i', '6', '4'] {
            Some(BuiltinType::I64)
        } else if t == seq!['u', '1', '2', '8'] {
            Some(BuiltinType::U128)
        } else if t == seq!['i', '1', '2', '8'] {
            Some(BuiltinType::I128)
        } else if t == seq!['u', 's', 'i', 'z', 'e'] {
            Some(BuiltinType::Usize)
        } else if t == seq!['i', 's', 'i', 'z', 'e'] {
            Some(BuiltinType::Isize)
        } else if t == seq!['f', '3', '2'] {
            Some(BuiltinType::F32)
        } else if t == seq!['f', '6', '4'] {
            Some(BuiltinType::F64)
        } else if t == seq!['b', 'a', 's', 'e', '6', '4'] {
            Some(BuiltinType::Base64)
        } else {
            None
        }
}

/// The type name that the text `t` denotes.
pub open spec fn type_name_of(t: Seq<char>) -> TypeNameV {
    match builtin_of(t) {
        Some(b) => TypeNameV::Builtin(b),
        None => TypeNameV::Custom(t),
    }
}

/// The text of a type name.
pub open spec fn type_text(t: TypeNameV) -> Seq<char> {
    match t {
        TypeNameV::Builtin(b) => builtin_name(b),
        TypeNameV::Custom(s) => s,
    }
}

/// Whether `t` holds exactly the characters of `lit`.
fn is_text(t: &Vec<char>, lit: &str) -> (r: bool)
    ensures
        r == (t@ == lit@),
{
    let l = chars_of(lit);
    if l.len() != t.len() {
        return false;
    }
    let mut i: usize = 0;
    while i < t.len()
        invariant
            i <= t.len(),
            l.len() == t.len(),
            l@ == lit@,
            forall|k: int| 0 <= k < i ==> t@[k] == l@[k],
        decreases t.len() - i,
    {
        if t[i] != l[i] {
            assert(t@[i as int] != l@[i as int]);
            return false;
        }
        i = i + 1;
    }
    assert(t@ =~= l@);
    true
}

/// The builtin type named by `t`, if any (see [`builtin_of`]).
pub fn builtin_from_chars(t: &Vec<char>) -> (r: Option<BuiltinType>)
    ensures
        r == builtin_of(t@),
{
    proof {
            reveal_strlit("u8");
            assert("u8"@ =~= seq!['u', '8']);
            reveal_strlit("i8");
            assert("i8"@ =~= seq!['i', '8']);
            reveal_strlit("u16");
            assert("u16"@ =~= seq!['u', '1', '6']);
            reveal_strlit("i16");
            assert("i16"@ =~= seq!['i', '1', '6']);
            reveal_strlit("u32");
            assert("u32"@ =~= seq!['u', '3', '2']);
            reveal_strlit("i32");
            assert("i32"@ =~= seq!['i', '3', '2']);
            reveal_strlit("u64");
            assert("u64"@ =~= seq!['u', '6', '4']);
            reveal_strlit("i64");
            assert("i64"@ =~= seq!['i', '6', '4']);
            reveal_strlit("u128");
            assert("u128"@ =~= seq!['u', '1', '2', '8']);
            reveal_strlit("i128");
            assert("i128"@ =~= seq!['i', '1', '2', '8']);
            reveal_strlit("usize");
            assert("usize"@ =~= seq!['u', 's', 'i', 'z', 'e']);
            reveal_strlit("isize");
            assert("isize"@ =~= seq!['i', 's', 'i', 'z', 'e']);
            reveal_strlit("f32");
            assert("f32"@ =~= seq!['f', '3', '2']);
            reveal_strlit("f64");
            assert("f64"@ =~= seq!['f', '6', '4']);
            reveal_strlit("base64");
            assert("base64"@ =~= seq!['b', 'a', 's', 'e', '6', '4']);
    }
    if is_text(t, "u8") {
        Some(BuiltinType::U8)
    } else if is_text(t, "i8") {
        Some(BuiltinType::I8)
    } else if is_text(t, "u16") {
        Some(BuiltinType::U16)
    } else if is_text(t, "i16") {
        Some(BuiltinType::I16)
    } else if is_text(t, "u32") {
        Some(BuiltinType::U32)
    } else if is_text(t, "i32") {
        Some(BuiltinType::I32)
    } else if is_text(t, "u64") {
        Some(BuiltinType::U64)
    } else if is_text(t, "i64") {
        Some(BuiltinType::I64)
    } else if is_text(t, "u128") {
        Some(BuiltinType::U128)
    } else if is_text(t, "i128") {
        Some(BuiltinType::I128)
    } else if is_text(t, "usize") {
        Some(BuiltinType::Usize)
    } else if is_text(t, "isize") {
        Some(BuiltinType::Isize)
    } else if is_text(t, "f32") {
        Some(BuiltinType::F32)
    } else if is_text(t, "f64") {
        Some(BuiltinType::F64)
    } else if is_text(t, "base64") {
        Some(BuiltinType::Base64)
    } else {
        None
    }
}

impl BuiltinType {
    /// Returns string representation of the builtin type as defined by KDL
    /// specification
    pub fn as_str(&self) -> (r: &'static str)
        ensures
            r@ == builtin_name(*self),
    {
        proof {
            reveal_strlit("u8");
            assert("u8"@ =~= seq!['u', '8']);
            reveal_strlit("i8");
            assert("i8"@ =~= seq!['i', '8']);
            reveal_strlit("u16");
            assert("u16"@ =~= seq!['u', '1', '6']);
            reveal_strlit("i16");
            assert("i16"@ =~= seq!['i', '1', '6']);
            reveal_strlit("u32");
            assert("u32"@ =~= seq!['u', '3', '2']);
            reveal_strlit("i32");
            assert("i32"@ =~= seq!['i', '3', '2']);
            reveal_strlit("u64");
            assert("u64"@ =~= seq!['u', '6', '4']);
            reveal_strlit("i64");
            assert("i64"@ =~= seq!['i', '6', '4']);
            reveal_strlit("u128");
            assert("u128"@ =~= seq!['u', '1', '2', '8']);
            reveal_strlit("i128");
            assert("i128"@ =~= seq!['i', '1', '2', '8']);
            reveal_strlit("usize");
            assert("usize"@ =~= seq!['u', 's', 'i', 'z', 'e']);
            reveal_strlit("isize");
            assert("isize"@ =~= seq!['i', 's', 'i', 'z', 'e']);
            reveal_strlit("f32");
            assert("f32"@ =~= seq!['f', '3', '2']);
            reveal_strlit("f64");
            assert("f64"@ =~= seq!['f', '6', '4']);
            reveal_strlit("base64");
            assert("base64"@ =~= seq!['b', 'a', 's', 'e', '6', '4']);
        }
        match self {
            BuiltinType::U8 => "u8",
            BuiltinType::I8 => "i8",
            BuiltinType::U16 => "u16",
            BuiltinType::I16 => "i16",
            BuiltinType::U32 => "u32",
            BuiltinType::I32 => "i32",
            BuiltinType::U64 => "u64",
            BuiltinType::I64 => "i64",
            BuiltinType::U128 => "u128",
            BuiltinType::I128 => "i128",
            BuiltinType::Usize => "usize",
            BuiltinType::Isize => "isize",
            BuiltinType::F32 => "f32",
            BuiltinType::F64 => "f64",
            BuiltinType::Base64 => "base64",
        }
    }

    /// Returns `TypeName` structure for the builtin type
    pub fn as_type(self) -> (r: TypeName)
        ensures
            r@ == TypeNameV::Builtin(self),
            r == <TypeName as FromSpec<BuiltinType>>::from_spec(self),
    {
        TypeName(TypeNameInner::Builtin(self))
    }

    /// The builtin type named `s`, if `s` is the name of one.
    pub fn from_name(s: &str) -> (r: Result<BuiltinType, ()>)
        ensures
            r == match builtin_of(s@) {
                Some(b) => Ok(b),
                None => Err(()),
            },
    {
        let t = chars_of(s);
        match builtin_from_chars(&t) {
            Some(b) => Ok(b),
            None => Err(()),
        }
    }
}

impl std::str::FromStr for BuiltinType {
    type Err = ();

    fn from_str(s: &str) -> (r: Result<BuiltinType, ()>)
        ensures
            r == match builtin_of(s@) {
                Some(b) => Ok(b),
                None => Err(()),
            },
    {
        BuiltinType::from_name(s)
    }
}

impl TypeName {
    /// The type name that `val` denotes: a builtin one where it names one.
    pub fn from_string(val: String) -> (r: TypeName)
        ensures
            r@ == type_name_of(val@),
    {
        let t = chars_of_string(&val);
        match builtin_from_chars(&t) {
            Some(b) => TypeName(TypeNameInner::Builtin(b)),
            None => TypeName(TypeNameInner::Custom(val)),
        }
    }

    /// The type name that the text `s` denotes.
    pub fn from_text(s: &str) -> (r: TypeName)
        ensures
            r@ == type_name_of(s@),
    {
        TypeName::from_string(s.to_owned())
    }

    /// Returns string represenation of the type name
    pub fn as_str(&self) -> (r: &str)
        ensures
            r@ == type_text(self@),
    {
        match &self.0 {
            TypeNameInner::Builtin(t) => t.as_str(),
            TypeNameInner::Custom(t) => t.as_str(),
        }
    }

    /// Returns `BuiltinType` enum for the type if typename matches builtin
    /// type
    ///
    /// Note: checking for `is_none()` is not forward compatible. In future we
    /// may add additional builtin type. Always use `as_str` for types that
    /// aren't yet builtin.
    pub fn as_builtin(&self) -> (r: Option<&BuiltinType>)
        ensures
            r == match self@ {
                TypeNameV::Builtin(b) => Some(&b),
                TypeNameV::Custom(_) => None,
            },
    {
        match &self.0 {
            TypeNameInner::Builtin(t) => Some(t),
            TypeNameInner::Custom(_) => None,
        }
    }
}

impl std::str::FromStr for TypeName {
    type Err = std::convert::Infallible;

    fn from_str(s: &str) -> (r: Result<TypeName, std::convert::Infallible>)
        ensures
            r matches Ok(t) && t@ == type_name_of(s@),
    {
        Ok(TypeName::from_text(s))
    }
}

impl std::ops::Deref for TypeName {
    type Target = str;

    fn deref(&self) -> (r: &str)
        ensures
            r@ == type_text(self@),
    {
        self.as_str()
    }
}

impl From<BuiltinType> for TypeName {
    fn from(val: BuiltinType) -> (r: Self) {
        TypeName(TypeNameInner::Builtin(val))
    }
}

impl vstd::std_specs::convert::FromSpecImpl<BuiltinType> for TypeName {
    open spec fn obeys_from_spec() -> bool {
        true
    }

    closed spec fn from_spec(v: BuiltinType) -> TypeName {
        TypeName(TypeNameInner::Builtin(v))
    }
}

/// The text of the type name read from a text is that text.
pub proof fn lemma_type_name_text(t: Seq<char>)
    ensures
        type_text(type_name_of(t)) == t,
{
}

/// The name of every builtin type reads back as that type, and no other
/// text names a builtin type.
pub proof fn lemma_builtin_name_roundtrip(b: BuiltinType, t: Seq<char>)
    ensures
        builtin_of(builtin_name(b)) == Some(b),
        type_name_of(builtin_name(b)) == TypeNameV::Builtin(b),
        builtin_of(t) == Some(b) ==> t == builtin_name(b),
{
}

/// Converting a builtin type gives its type name, as `as_type` does.
pub proof fn lemma_type_name_from_builtin(b: BuiltinType)
    ensures
        <TypeName as FromSpec<BuiltinType>>::from_spec(b)@ == TypeNameV::Builtin(b),
{
}

/// Type names that both stand for the same builtin type are the same type
/// name.
pub proof fn lemma_type_name_view_injective(a: TypeName, b: TypeName)
    requires
        a@ == b@,
        a@ is Builtin,
    ensures
        a == b,
{
}

impl Node {
    /// Returns node children
    pub fn children(&self) -> (r: &[SpannedNode])
        ensures
            r@ == match self.children {
                Some(c) => c.value@,
                None => Seq::empty(),
            },
    {
        match &self.children {
            Some(c) => c.value.as_slice(),
            None => &[],
        }
    }
}

} // verus!

verus! {

// ----- properties -----

/// Lexicographic order of texts by the codes of their characters (the order
/// of `str`).
pub open spec fn text_lt(a: Seq<char>, b: Seq<char>) -> bool
    decreases a.len(),
{
    if a.len() == 0 {
        b.len() > 0
    } else if b.len() == 0 {
        false
    } else if a[0] != b[0] {
        a[0] < b[0]
    } else {
        text_lt(a.drop_first(), b.drop_first())
    }
}

/// Whether `a` comes before `b` (see [`text_lt`]).
pub fn text_lt_p(a: &Vec<char>, b: &Vec<char>) -> (r: bool)
    ensures
        r == text_lt(a@, b@),
{
    let mut i: usize = 0;
    assert(a@.skip(0) =~= a@);
    assert(b@.skip(0) =~= b@);
    while i < a.len() && i < b.len() && a[i] == b[i]
        invariant
            i <= a.len(),
            i <= b.len(),
            text_lt(a@.skip(i as int), b@.skip(i as int)) == text_lt(a@, b@),
        decreases a.len() - i,
    {
        proof {
            assert(a@.skip(i as int).drop_first() =~= a@.skip(i + 1));
            assert(b@.skip(i as int).drop_first() =~= b@.skip(i + 1));
        }
        i = i + 1;
    }
    if i == a.len() {
        i < b.len()
    } else if i == b.len() {
        false
    } else {
        a[i] < b[i]
    }
}

/// The number of leading entries of `ps` (from `i`) whose names come before `k`.
pub open spec fn lower_index(ps: Seq<((Span, Seq<char>), ValueV)>, k: Seq<char>, i: int) -> int
    decreases ps.len() - i,
{
    if 0 <= i < ps.len() && text_lt(ps[i].0.1, k) {
        lower_index(ps, k, i + 1)
    } else {
        i
    }
}

/// Properties after setting `name` to `v`: a property of the same name gets
/// the new value (and keeps its own name and span); else the property is
/// inserted before the first one whose name does not come before it.
pub open spec fn props_insert(
    ps: Seq<((Span, Seq<char>), ValueV)>,
    name: (Span, Seq<char>),
    v: ValueV,
) -> Seq<((Span, Seq<char>), ValueV)> {
    let i = lower_index(ps, name.1, 0);
    if 0 <= i < ps.len() && ps[i].0.1 == name.1 {
        ps.update(i, (ps[i].0, v))
    } else {
        ps.insert(i, (name, v))
    }
}

pub proof fn lemma_lower_index_bounds(ps: Seq<((Span, Seq<char>), ValueV)>, k: Seq<char>, i: int)
    requires
        0 <= i <= ps.len(),
    ensures
        i <= lower_index(ps, k, i) <= ps.len(),
    decreases ps.len() - i,
{
    if i < ps.len() && text_lt(ps[i].0.1, k) {
        lemma_lower_index_bounds(ps, k, i + 1);
    }
}

/// Sets property `name` to `v` (see [`props_insert`]).
pub fn insert_property(props: &mut Vec<(SpannedName, Value)>, name: SpannedName, v: Value)
    ensures
        props_view(final(props)@) == props_insert(props_view(old(props)@), name_view(name), v@),
{
    let ghost ps = props_view(props@);
    let key = chars_of_string(&name.value);
    let mut i: usize = 0;
    while i < props.len()
        invariant
            i <= props.len(),
            ps == props_view(props@),
            props@ == old(props)@,
            key@ == name.value@,
            lower_index(ps, key@, i as int) == lower_index(ps, key@, 0),
        ensures
            i <= props.len(),
            ps == props_view(props@),
            props@ == old(props)@,
            lower_index(ps, key@, i as int) == lower_index(ps, key@, 0),
            i == props.len() || !text_lt(ps[i as int].0.1, key@),
        decreases props.len() - i,
    {
        let k = chars_of_string(&props[i].0.value);
        assert(ps[i as int].0.1 == k@);
        if !text_lt_p(&k, &key) {
            break;
        }
        i = i + 1;
    }
    assert(lower_index(ps, key@, i as int) == i);
    if i < props.len() {
        let k = chars_of_string(&props[i].0.value);
        if k.len() == key.len() && same_chars(&k, &key) {
            let old_name = copy_name(&props[i].0);
            props.set(i, (old_name, v));
            proof {
                assert(props_view(props@) =~= ps.update(i as int, (ps[i as int].0, v@)));
            }
            return;
        }
    }
    props.insert(i, (name, v));
    proof {
        assert(props_view(props@) =~= ps.insert(i as int, (name_view(name), v@)));
    }
}

/// Whether two texts are equal.
fn same_chars(a: &Vec<char>, b: &Vec<char>) -> (r: bool)
    requires
        a.len() == b.len(),
    ensures
        r == (a@ == b@),
{
    let mut i: usize = 0;
    while i < a.len()
        invariant
            i <= a.len(),
            a.len() == b.len(),
            forall|k: int| 0 <= k < i ==> a@[k] == b@[k],
        decreases a.len() - i,
    {
        if a[i] != b[i] {
            assert(a@[i as int] != b@[i as int]);
            return false;
        }
        i = i + 1;
    }
    assert(a@ =~= b@);
    true
}

/// The value of property `name`, if the node has one.
pub open spec fn prop_lookup(ps: Seq<((Span, Seq<char>), ValueV)>, name: Seq<char>) -> Option<ValueV>
    decreases ps.len(),
{
    if ps.len() == 0 {
        None
    } else if ps.last().0.1 == name {
        Some(ps.last().1)
    } else {
        prop_lookup(ps.drop_last(), name)
    }
}

/// Properties ordered by name, each name once.
pub open spec fn props_sorted(ps: Seq<((Span, Seq<char>), ValueV)>) -> bool {
    forall|i: int, j: int| 0 <= i < j < ps.len() ==> text_lt(#[trigger] ps[i].0.1, #[trigger] ps[j].0.1)
}

/// No text comes before itself.
pub proof fn lemma_text_lt_irreflexive(a: Seq<char>)
    ensures
        !text_lt(a, a),
    decreases a.len(),
{
    if a.len() > 0 {
        lemma_text_lt_irreflexive(a.drop_first());
    }
}

/// The order of texts is transitive.
pub proof fn lemma_text_lt_transitive(a: Seq<char>, b: Seq<char>, c: Seq<char>)
    requires
        text_lt(a, b),
        text_lt(b, c),
    ensures
        text_lt(a, c),
    decreases a.len(),
{
    if a.len() > 0 && b.len() > 0 && c.len() > 0 && a[0] == b[0] && b[0] == c[0] {
        lemma_text_lt_transitive(a.drop_first(), b.drop_first(), c.drop_first());
    }
}

/// Of two different texts, one comes before the other.
pub proof fn lemma_text_lt_total(a: Seq<char>, b: Seq<char>)
    ensures
        a == b || text_lt(a, b) || text_lt(b, a),
    decreases a.len(),
{
    if a.len() == 0 && b.len() == 0 {
        assert(a =~= b);
    } else if a.len() > 0 && b.len() > 0 && a[0] == b[0] {
        lemma_text_lt_total(a.drop_first(), b.drop_first());
        if a.drop_first() == b.drop_first() {
            assert(a =~= seq![a[0]] + a.drop_first());
            assert(b =~= seq![b[0]] + b.drop_first());
        }
    }
}

proof fn lemma_lower_index_before(ps: Seq<((Span, Seq<char>), ValueV)>, k: Seq<char>, i: int, j: int)
    requires
        0 <= i <= j < lower_index(ps, k, i),
    ensures
        text_lt(ps[j].0.1, k),
    decreases ps.len() - i,
{
    if j > i {
        lemma_lower_index_before(ps, k, i + 1, j);
    }
}

/// In sorted properties, the names from the lower index on do not come
/// before `k`.
proof fn lemma_lower_index_after(ps: Seq<((Span, Seq<char>), ValueV)>, k: Seq<char>, j: int)
    requires
        props_sorted(ps),
        lower_index(ps, k, 0) <= j < ps.len(),
    ensures
        !text_lt(ps[j].0.1, k),
{
    let i = lower_index(ps, k, 0);
    lemma_lower_index_bounds(ps, k, 0);
    lemma_lower_index_stop(ps, k, 0);
    if j > i && text_lt(ps[j].0.1, k) {
        lemma_text_lt_transitive(ps[i].0.1, ps[j].0.1, k);
    }
}

proof fn lemma_lower_index_stop(ps: Seq<((Span, Seq<char>), ValueV)>, k: Seq<char>, i: int)
    requires
        0 <= i <= ps.len(),
    ensures
        lower_index(ps, k, i) < ps.len() ==> !text_lt(ps[lower_index(ps, k, i)].0.1, k),
    decreases ps.len() - i,
{
    if i < ps.len() && text_lt(ps[i].0.1, k) {
        lemma_lower_index_stop(ps, k, i + 1);
    }
}

/// Setting a property keeps the properties ordered by name, each name once.
pub proof fn lemma_props_insert_sorted(
    ps: Seq<((Span, Seq<char>), ValueV)>,
    name: (Span, Seq<char>),
    v: ValueV,
)
    requires
        props_sorted(ps),
    ensures
        props_sorted(props_insert(ps, name, v)),
{
    let k = name.1;
    let i = lower_index(ps, k, 0);
    lemma_lower_index_bounds(ps, k, 0);
    let r = props_insert(ps, name, v);
    if 0 <= i < ps.len() && ps[i].0.1 == k {
        assert forall|a: int, b: int| 0 <= a < b < r.len() implies text_lt(#[trigger] r[a].0.1, #[trigger] r[b].0.1) by {
            assert(r[a].0.1 == ps[a].0.1 && r[b].0.1 == ps[b].0.1);
        }
    } else {
        assert forall|j: int| i <= j < ps.len() implies text_lt(k, #[trigger] ps[j].0.1) by {
            lemma_lower_index_after(ps, k, j);
            lemma_lower_index_after(ps, k, i);
            lemma_text_lt_total(ps[i].0.1, k);
            if j > i {
                lemma_text_lt_transitive(k, ps[i].0.1, ps[j].0.1);
            }
        }
        assert forall|a: int, b: int| 0 <= a < b < r.len() implies text_lt(#[trigger] r[a].0.1, #[trigger] r[b].0.1) by {
            if b < i {
            } else if b == i {
                lemma_lower_index_before(ps, k, 0, a);
            } else if a < i {
                lemma_lower_index_before(ps, k, 0, a);
                lemma_text_lt_transitive(ps[a].0.1, k, ps[b - 1].0.1);
            } else if a == i {
            } else {
                assert(r[a] == ps[a - 1] && r[b] == ps[b - 1]);
            }
        }
    }
}

proof fn lemma_lookup_found(ps: Seq<((Span, Seq<char>), ValueV)>, k: Seq<char>, j: int)
    requires
        props_sorted(ps),
        0 <= j < ps.len(),
        ps[j].0.1 == k,
    ensures
        prop_lookup(ps, k) == Some(ps[j].1),
    decreases ps.len(),
{
    if j < ps.len() - 1 {
        assert(text_lt(ps[j].0.1, ps[ps.len() - 1].0.1));
        lemma_text_lt_irreflexive(k);
        lemma_lookup_found(ps.drop_last(), k, j);
    }
}

proof fn lemma_lookup_absent(ps: Seq<((Span, Seq<char>), ValueV)>, k: Seq<char>)
    requires
        forall|j: int| 0 <= j < ps.len() ==> (#[trigger] ps[j]).0.1 != k,
    ensures
        prop_lookup(ps, k) is None,
    decreases ps.len(),
{
    if ps.len() > 0 {
        assert(ps[ps.len() - 1].0.1 != k);
        lemma_lookup_absent(ps.drop_last(), k);
    }
}

/// After a property is set, reading it gives the value it was set to, and
/// reading any other name gives what it gave before.
pub proof fn lemma_props_insert_lookup(
    ps: Seq<((Span, Seq<char>), ValueV)>,
    name: (Span, Seq<char>),
    v: ValueV,
    other: Seq<char>,
)
    requires
        props_sorted(ps),
    ensures
        prop_lookup(props_insert(ps, name, v), name.1) == Some(v),
        other != name.1 ==> prop_lookup(props_insert(ps, name, v), other) == prop_lookup(ps, other),
{
    let k = name.1;
    let i = lower_index(ps, k, 0);
    lemma_lower_index_bounds(ps, k, 0);
    let r = props_insert(ps, name, v);
    lemma_props_insert_sorted(ps, name, v);
    let upd = 0 <= i < ps.len() && ps[i].0.1 == k;
    lemma_lookup_found(r, k, i);
    if other != k {
        if exists|j: int| 0 <= j < ps.len() && (#[trigger] ps[j]).0.1 == other {
            let j = choose|j: int| 0 <= j < ps.len() && (#[trigger] ps[j]).0.1 == other;
            lemma_lookup_found(ps, other, j);
            if upd || j < i {
                lemma_lookup_found(r, other, j);
            } else {
                assert(r[j + 1] == ps[j]);
                lemma_lookup_found(r, other, j + 1);
            }
        } else {
            lemma_lookup_absent(ps, other);
            assert forall|j: int| 0 <= j < r.len() implies (#[trigger] r[j]).0.1 != other by {
                if !upd && j > i {
                    assert(r[j] == ps[j - 1]);
                }
            }
            lemma_lookup_absent(r, other);
        }
    }
}

impl Node {
    /// The value of the property `name`, if the node has one.
    pub fn property(&self, name: &str) -> (r: Option<&Value>)
        ensures
            match r {
                Some(v) => prop_lookup(props_view(self.properties@), name@) == Some(v@),
                None => prop_lookup(props_view(self.properties@), name@) is None,
            },
    {
        let key = chars_of(name);
        let mut i = self.properties.len();
        let ghost ps = props_view(self.properties@);
        assert(ps.take(i as int) =~= ps);
        while i > 0
            invariant
                i <= self.properties.len(),
                ps == props_view(self.properties@),
                key@ == name@,
                prop_lookup(ps.take(i as int), name@) == prop_lookup(ps, name@),
            decreases i,
        {
            let k = chars_of_string(&self.properties[i - 1].0.value);
            proof {
                assert(ps.take(i as int).drop_last() =~= ps.take(i - 1));
            }
            if k.len() == key.len() && same_chars(&k, &key) {
                return Some(&self.properties[i - 1].1);
            }
            i = i - 1;
        }
        None
    }
}

} // verus!
