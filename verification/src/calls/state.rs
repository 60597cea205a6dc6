//! The states that protocols are in between two calls.
use vstd::prelude::*;
use crate::arithmetic::FloatRequest;
use crate::calls::arguments::ExpandedArgs;
use crate::diagnostic::Diagnostic;
use crate::format::Piece;
use crate::lookup::DescriptorCall;
use crate::object::Builtin;
use crate::op::Op;
use crate::value::Value;

verus! {

/// The greatest nesting of comparisons and hashes that run through protocols.
pub const PROTOCOL_NESTING_LIMIT: usize = 32;

/// The builtin types that have storage or a constructor of their own.
#[derive(Clone, Copy, Debug, PartialEq, Eq, Structural)]
pub enum RuntimeTypeKind {
    Int,
    Bool,
    Float,
    Str,
    List,
    Tuple,
    Dict,
    Range,
    Exception,
}

#[derive(Clone, Copy, Debug, PartialEq, Eq, Structural)]
pub enum TruthProtocol {
    Bool,
    Length,
}

/// What a truth value is wanted for.
#[derive(Debug)]
pub enum TruthAction {
    Not,
    Return,
    Jump { when: bool, target: usize, pc: usize, original: Value },
    Equality(EqualityAction),
}

/// What an equality is wanted for.
#[derive(Debug)]
#[allow(inconsistent_fields)]
pub enum EqualityAction {
    Return { negate: bool },
    Sequence {
        left: Vec<Value>,
        right: Vec<Value>,
        next: usize,
        depth: usize,
        outer: Box<EqualityAction>,
    },
    DictCandidate { state: Box<DictOperation>, index: usize },
    DictEntries {
        left: Value,
        right: Value,
        entries: Vec<(Value, Value)>,
        next: usize,
        left_version: u64,
        right_version: u64,
        depth: usize,
        outer: Box<EqualityAction>,
    },
    SequenceOrder(SequenceOrder),
}

impl EqualityAction {
    /// How deeply the comparison is nested.
    pub open spec fn depth_of(self) -> usize {
        match self {
            EqualityAction::Return { .. } => 0,
            EqualityAction::Sequence { depth, .. } => depth,
            EqualityAction::DictCandidate { state, .. } => state.comparison_depth,
            EqualityAction::DictEntries { depth, .. } => depth,
            EqualityAction::SequenceOrder(state) => state.depth,
        }
    }

    /// How deeply the comparison is nested.
    pub fn comparison_depth(&self) -> (r: usize)
        ensures
            r == self.depth_of(),
    {
        match self {
            EqualityAction::Return { .. } => 0,
            EqualityAction::Sequence { depth, .. } => *depth,
            EqualityAction::DictCandidate { state, .. } => state.comparison_depth,
            EqualityAction::DictEntries { depth, .. } => *depth,
            EqualityAction::SequenceOrder(state) => state.depth,
        }
    }
}

/// An ordering of two sequences under way.
#[derive(Debug)]
pub struct SequenceOrder {
    pub left: Vec<Value>,
    pub right: Vec<Value>,
    pub index: usize,
    pub op: Op,
    pub depth: usize,
}

/// What a hash is wanted for.
#[derive(Debug)]
pub enum HashAction {
    Return,
    Dict(DictOperationStart),
    Sequence {
        values: Vec<Value>,
        next: usize,
        accumulator: i64,
        depth: usize,
        outer: Box<HashAction>,
    },
}

#[derive(Debug)]
pub struct DictOperationStart {
    pub owner: Value,
    pub key: Value,
    pub kind: DictOperationKind,
}

#[derive(Debug)]
#[allow(inconsistent_fields)]
pub enum DictOperationKind {
    Get,
    Store(Value),
    StoreAndContinue { value: Value, state: Box<DictConstruction> },
    StoreAndMerge { value: Value, state: Box<DictMergeState> },
    Delete,
    CompareValue { expected: Value, action: Box<EqualityAction> },
}

/// A dictionary operation whose key is being compared with candidates.
#[derive(Debug)]
pub struct DictOperation {
    pub start: DictOperationStart,
    pub hash: i64,
    pub version: u64,
    pub candidates: Vec<usize>,
    pub next: usize,
    pub comparison_depth: usize,
}

/// What is done with builtin storage that a subclass instance is made over.
#[derive(Debug)]
pub struct NativeSubclassFinish {
    pub class: Value,
    pub initialize: Option<ExpandedArgs>,
}

#[derive(Debug)]
pub struct DictConstructionStart {
    pub result: Value,
    pub keywords: Vec<(Value, Value)>,
    pub native: Option<NativeSubclassFinish>,
    pub return_value: Option<Value>,
}

#[derive(Debug)]
pub struct DictConstruction {
    pub start: DictConstructionStart,
    pub iterator: Value,
    pub index: usize,
}

#[derive(Debug)]
pub struct DictPairConstruction {
    pub outer: DictConstruction,
    pub iterator: Value,
    pub items: Vec<Value>,
}

#[derive(Debug)]
pub enum DictMergeFinish {
    Preserve,
    Construction(DictConstructionStart),
}

#[derive(Debug)]
pub struct DictMergeState {
    pub target: Value,
    pub entries: Vec<(Value, Value)>,
    pub next: usize,
    pub finish: DictMergeFinish,
}

#[derive(Debug)]
pub enum IterableCollectionKind {
    List,
    Tuple,
    NativeList(NativeSubclassFinish),
    NativeTuple(NativeSubclassFinish),
    ListInit { owner: Value, result: Value },
    Unpack { first: usize, count: usize },
}

#[derive(Debug)]
pub struct IterableCollection {
    pub kind: IterableCollectionKind,
    pub iterator: Value,
    pub items: Vec<Value>,
}

/// What an integer index is wanted for.
#[derive(Debug)]
pub enum IndexContinuation {
    Length,
    Truth(TruthAction),
    Range(RangeConstruction),
    IntBase(IntBaseConversion),
    GetItem { owner: Value },
    SetItem { owner: Value, value: Value },
    DelItem { owner: Value },
    Slice(SliceConversion),
}

/// The arguments of a range, the first ones converted.
#[derive(Debug)]
pub struct RangeConstruction {
    pub values: Vec<Value>,
    pub next: usize,
}

/// The bounds and step of a slice, the first ones converted.
#[derive(Clone, Copy, Debug)]
pub struct SliceConversion {
    pub owner: Value,
    pub start: Value,
    pub stop: Value,
    pub step: Value,
    pub next: usize,
}

#[derive(Debug)]
pub struct IntBaseConversion {
    pub argument: Value,
    pub finish: Option<NativeSubclassFinish>,
}

#[derive(Clone, Copy, Debug, PartialEq, Eq, Structural)]
pub enum NumericConversionKind {
    Int,
    IndexToInt,
    Float,
    IndexToFloat,
}

#[derive(Debug)]
pub struct NumericConversion {
    pub kind: NumericConversionKind,
    pub finish: Option<NativeSubclassFinish>,
}

#[derive(Clone, Copy, Debug, PartialEq, Eq, Structural)]
pub enum UnaryProtocolKind {
    Neg,
    Pos,
    Abs,
    Invert,
}

/// A method that may answer a binary operator.
#[derive(Clone, Copy, Debug)]
pub struct BinaryCandidate {
    pub call: DescriptorCall,
    pub argument: Value,
    pub negate: bool,
}

#[derive(Debug)]
pub enum BinaryCompletion {
    Value,
    Equality(EqualityAction),
}

/// A binary operator whose candidates are asked in turn.
#[derive(Debug)]
pub struct BinaryProtocol {
    pub op: Op,
    pub left: Value,
    pub right: Value,
    pub candidates: Vec<BinaryCandidate>,
    pub next: usize,
    pub negate_result: bool,
    pub completion: BinaryCompletion,
}

/// What is done where an attribute is missing.
#[derive(Clone, Copy, Debug)]
pub enum AttributeMissing {
    Raise,
    Default(Value),
    HasAttr,
}

#[derive(Clone, Copy, Debug, PartialEq, Eq, Structural)]
pub enum AttributePhase {
    Primary,
    Fallback,
}

#[derive(Debug)]
pub struct AttributeGet {
    pub owner: Value,
    pub name: String,
    pub missing: AttributeMissing,
    pub phase: AttributePhase,
}

/// An argument expansion under way.
#[derive(Clone, Copy, Debug)]
pub struct ArgumentExpansion {
    pub iterator: Value,
    pub resume_pc: Option<usize>,
}

/// What the result of a call goes to.
#[derive(Debug)]
pub enum Continuation {
    Value,
    Length,
    Truth { protocol: TruthProtocol, action: TruthAction },
    Index(IndexContinuation),
    Numeric(NumericConversion),
    Binary(BinaryProtocol),
    Unary { kind: UnaryProtocolKind, value: Value },
    Hash(HashAction),
    Attribute(Option<AttributeGet>),
    Setter,
    New { class: Value, arguments: ExpandedArgs },
    Initializer(Value),
    DictIterable(DictConstructionStart),
    DictItem(DictConstruction),
    DictPair(DictConstruction),
    DictPairIterator(DictConstruction),
    DictPairItem(DictPairConstruction),
    Collect(IterableCollectionKind),
    CollectItem(IterableCollection),
    Expand(Option<usize>),
    ExpandItem(ArgumentExpansion),
}

/// What comes next.
#[derive(Debug)]
#[allow(inconsistent_fields)]
pub enum Step {
    /// A result.
    Done(Value),
    /// A result and a conditional jump.
    Branch { value: Value, taken: bool, target: usize, pc: usize },
    /// Results for a row of registers.
    Unpack { first: usize, items: Vec<Value> },
    /// A call whose result goes to a continuation.
    Call { callable: Value, arguments: ExpandedArgs, then: Continuation },
    /// A call whose result stands.
    Invoke { callable: Value, arguments: ExpandedArgs },
    /// A frame for a function of the language.
    Frame { code: u16, callable: Value, arguments: ExpandedArgs },
    /// A registered native function.
    Native { index: usize, arguments: Vec<Value> },
    /// A class to call.
    Class { class: Value, arguments: ExpandedArgs },
    /// A text to print, with none or a failure as the result.
    Print { pieces: Vec<Piece>, failure: Option<Diagnostic> },
    /// A binary64 operation to perform.
    Float(FloatRequest),
    Truth { value: Value, action: TruthAction },
    ApplyTruth { truth: bool, action: TruthAction },
    Equality { left: Value, right: Value, action: EqualityAction },
    EqualityFallback { left: Value, right: Value, action: EqualityAction },
    CompleteEquality { equal: bool, action: EqualityAction },
    Order { left: Value, right: Value, op: Op, depth: usize },
    SequenceOrder(SequenceOrder),
    Binary(BinaryProtocol),
    Hash { value: Value, depth: usize, action: HashAction },
    NativeHash { value: Value, depth: usize, action: HashAction },
    CompleteHash { hash: i64, action: HashAction },
    Dict(DictOperationStart),
    DictCandidates(DictOperation),
    DictMatched { state: DictOperation, matched: Option<usize> },
    DictMerge(DictMergeState),
    DictEqual { left: Value, right: Value, action: EqualityAction },
    DictFrom { start: DictConstructionStart, source: Value },
    DictItems(DictConstruction),
    DictPair { outer: DictConstruction, item: Value },
    DictPairIterator { outer: DictConstruction, iterator: Value },
    DictPairItems(DictPairConstruction),
    DictDone(DictConstructionStart),
    Collect { kind: IterableCollectionKind, source: Value },
    CollectItems(IterableCollection),
    Collected { kind: IterableCollectionKind, items: Vec<Value> },
    Index { source: Value, continuation: IndexContinuation },
    Range(RangeConstruction),
    Slice(SliceConversion),
    Numeric { source: Value, target: RuntimeTypeKind, finish: Option<NativeSubclassFinish> },
    BuiltinValue { value: Value, finish: Option<NativeSubclassFinish> },
    New { class: Value, instance: Value, arguments: ExpandedArgs },
    Attribute { owner: Value, name: String, missing: AttributeMissing },
    SetAttribute { owner: Value, name: String, value: Value },
    DeleteAttribute { owner: Value, name: String },
    DefaultAttribute { owner: Value, name: String },
    DefaultSet { owner: Value, name: String, value: Value },
    DefaultDelete { owner: Value, name: String },
    /// The class of a value, where only the embedder knows it.
    ClassOf { value: Value, get: Option<AttributeGet> },
    /// A text to be read as a binary64 number.
    ParseFloat { text: String, finish: Option<NativeSubclassFinish> },
    /// A text to be made a string.
    Text { pieces: Vec<Piece>, finish: Option<NativeSubclassFinish> },
    /// The constructor of a builtin type.
    BuiltinType {
        class: Value,
        kind: RuntimeTypeKind,
        arguments: ExpandedArgs,
        finish: Option<NativeSubclassFinish>,
    },
    /// An exception to make once its message is a text.
    Exception { class: Value, arguments: ExpandedArgs, user: bool, message: Vec<Piece> },
    /// The constructor method of a builtin type.
    NativeNew { kind: RuntimeTypeKind, arguments: ExpandedArgs },
    /// An initializer of builtin storage.
    NativeInit { builtin: Builtin, arguments: ExpandedArgs, result: Value },
    /// A class to make of a name, bases and a namespace.
    DynamicType { name: Value, bases: Value, namespace: Value },
    /// A class to make by the constructor of classes.
    TypeNew { arguments: ExpandedArgs },
    /// A question whether a value is an instance, or a class a subclass.
    InstanceCheck { value: Value, class: Value, subclass: bool },
    /// An instance to make, if the class has no builtin storage.
    ObjectNew { class: Value },
    /// An initializer that was given arguments beside the instance.
    ObjectInit { instance: Value },
    /// A super object that the current frame determines.
    Super,
    /// Arguments to expand further.
    Expand(ArgumentExpansion),
    /// An argument that an expansion yielded.
    ExpandItem { item: Value, state: ArgumentExpansion },
    /// Arguments expanded.
    Expanded(Option<usize>),
}

} // verus!
