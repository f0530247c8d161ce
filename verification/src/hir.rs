//! The high-level intermediate representation that semantic analysis hands to
//! the bytecode emitter: resolved variable slots, constant and function ids,
//! and the program's symbol tables.
//!
//! Number literals carry the IEEE-754 bit pattern of their `f64` value.
use vstd::prelude::*;
use crate::ast::{BinaryOp, UnaryOp};
use vstd::string::StrSliceExecFns;

verus! {

/// A source range in byte offsets, as the semantic index records it.
#[derive(Debug, Clone, Copy, PartialEq, Eq, Structural)]
pub struct HirSpan {
    pub start: usize,
    pub end: usize,
}

impl HirSpan {
    /// The range `start..end`.
    pub fn new(start: usize, end: usize) -> (s: Self)
        ensures
            s.start == start,
            s.end == end,
    {
        HirSpan { start, end }
    }
}

/// The kind of a value, as semantic analysis determined it.
#[derive(Debug)]
pub enum ValueKind {
    Number,
    String,
    Boolean,
    /// Any kind.
    Any,
    /// No value.
    Void,
    /// An array with elements of the given kind.
    Array(Box<ValueKind>),
    /// A function, with its type written out.
    Function(String),
    /// A thunk, with its type written `param_type ~> return_type`.
    Thunk(String),
    /// Something that can be called.
    Callable,
    /// A struct of the named type.
    Struct(String),
    /// Not known; as a return type, the function returns nothing.
    Unknown,
}

impl ValueKind {
    /// An equal kind.
    pub fn copy(&self) -> (r: Self)
        ensures
            r == *self,
        decreases self,
    {
        match self {
            ValueKind::Number => ValueKind::Number,
            ValueKind::String => ValueKind::String,
            ValueKind::Boolean => ValueKind::Boolean,
            ValueKind::Any => ValueKind::Any,
            ValueKind::Void => ValueKind::Void,
            ValueKind::Array(k) => ValueKind::Array(Box::new(k.copy())),
            ValueKind::Function(t) => ValueKind::Function(t.clone()),
            ValueKind::Thunk(t) => ValueKind::Thunk(t.clone()),
            ValueKind::Callable => ValueKind::Callable,
            ValueKind::Struct(n) => ValueKind::Struct(n.clone()),
            ValueKind::Unknown => ValueKind::Unknown,
        }
    }
}

/// The type of a function: its parameter kinds, its return kind, and
/// whether it has effects (declared with `~>`).
#[derive(Debug)]
pub struct FunctionSignature {
    pub params: Vec<ValueKind>,
    pub return_type: Box<ValueKind>,
    pub is_effectful: bool,
}

impl FunctionSignature {
    /// An equal signature.
    pub fn copy(&self) -> (r: Self)
        ensures
            r.params@ == self.params@,
            r.return_type == self.return_type,
            r.is_effectful == self.is_effectful,
    {
        let mut params: Vec<ValueKind> = Vec::new();
        let n = self.params.len();
        let mut i: usize = 0;
        while i < n
            invariant
                n == self.params@.len(),
                0 <= i <= n,
                params@ == self.params@.subrange(0, i as int),
            decreases n - i,
        {
            params.push(self.params[i].copy());
            assert(params@ =~= self.params@.subrange(0, i + 1));
            i += 1;
        }
        assert(self.params@.subrange(0, n as int) =~= self.params@);
        FunctionSignature {
            params,
            return_type: Box::new(self.return_type.copy()),
            is_effectful: self.is_effectful,
        }
    }
}

/// The built-in array reducers.
#[derive(Debug, Clone, Copy, PartialEq, Eq, Structural)]
pub enum ReducerType {
    /// `map(f)`: apply a function to each element.
    Mapping,
    /// `filter(p)`: keep the elements a predicate accepts.
    Filter,
    /// `fold(init, f)`: combine the elements from an initial value.
    Fold,
    /// `sum()`: add the elements.
    Sum,
    /// `reduce(f)`: combine the elements from the first one.
    Reduce,
}

/// An expression.
#[derive(Debug)]
pub enum HirExpression {
    /// A number literal, as the bit pattern of its `f64` value.
    Number(u64),
    String(String),
    Boolean(bool),
    /// A variable, by slot.
    Identifier(u32),
    /// A constant, by id.
    Constant(u32),
    Binary { lhs: Box<HirExpression>, rhs: Box<HirExpression>, operator: BinaryOp },
    Unary { operand: Box<HirExpression>, operator: UnaryOp },
    /// A call of a known function; `invoke` runs it, else it stays a thunk.
    FunctionCall { function_id: u32, args: Vec<HirExpression>, invoke: bool },
    /// A partial application: `None` marks a hole.
    PartialCall { func_id: u32, bound: Vec<Option<HirExpression>> },
    /// `operand!` or `operand!(args)`.
    PostfixInvoke { operand: Box<HirExpression>, args: Option<Vec<HirExpression>> },
    ComposeThunk { first: Box<HirExpression>, second: Box<HirExpression> },
    /// A loop used as a value: its result is left in `break_slot`.
    Loop { init_vars: Vec<(u32, HirExpression)>, body: HirBlock, break_slot: Option<u32> },
    Array(Vec<HirExpression>),
    ArrayIndex { array: Box<HirExpression>, index: Box<HirExpression> },
    ArraySlice {
        array: Box<HirExpression>,
        start: Option<Box<HirExpression>>,
        end: Option<Box<HirExpression>>,
        step: Option<Box<HirExpression>>,
        inclusive_end: bool,
    },
    /// A closure, compiled to the function with the given id.
    Closure { function_id: u32 },
    Reducer { array: Box<HirExpression>, reducer_type: ReducerType, reducer_args: Vec<HirExpression> },
    StructInit { struct_name: String, fields: Vec<(String, HirExpression)> },
    FieldAccess { base: Box<HirExpression>, field_name: String },
}

/// A sequence of statements.
#[derive(Debug)]
pub struct HirBlock {
    pub statements: Vec<HirStmt>,
}

/// A statement.
#[derive(Debug)]
pub enum HirStmt {
    Assign { slot: u32, value: HirExpression },
    /// `slot += value`.
    AssignIncrement { slot: u32, value: HirExpression },
    /// `slot -= value`.
    AssignDecrement { slot: u32, value: HirExpression },
    If { arms: Vec<(HirExpression, HirBlock)>, else_block: HirBlock },
    /// `None` as a case's pattern is the wildcard.
    Match { expression: HirExpression, cases: Vec<(Option<HirExpression>, HirBlock)> },
    Return { value: HirExpression },
    Loop { init_vars: Vec<(u32, HirExpression)>, body: HirBlock, break_slot: Option<u32> },
    Break { value: Option<HirExpression> },
    Continue,
    Expression(HirExpression),
    /// Compile-time only, such as a `use`.
    Nop,
}

/// A variable of a scope.
#[derive(Debug)]
pub struct HirVar {
    pub id: u32,
    pub name: String,
    pub kind: ValueKind,
}

/// A constant with its kind.
#[derive(Debug)]
pub struct HirConstant {
    pub id: u32,
    pub kind: ValueKind,
}

/// A function with its return type.
#[derive(Debug)]
pub struct HirFunction {
    pub id: u32,
    pub return_type: ValueKind,
}

/// A struct type: its name, the type id the machine knows it by, and its
/// field names in declaration order.
#[derive(Debug)]
pub struct HirStructDef {
    pub name: String,
    pub type_id: u32,
    pub fields: Vec<String>,
}

/// A lowered program with its symbol tables.
#[derive(Debug)]
pub struct HirAst {
    pub blocks: Vec<HirBlock>,
    pub functions: Vec<HirFunction>,
    /// The variables of each scope.
    pub scopes: Vec<Vec<HirVar>>,
    pub constants: Vec<HirConstant>,
    /// For each imported module, the imported names with their function ids.
    pub module_imports: Vec<(String, Vec<(String, u32)>)>,
    pub structs: Vec<HirStructDef>,
}

// ---------------------------------------------------------------------------
// Lookups
// ---------------------------------------------------------------------------

/// The index of the first function with id `id`.
pub open spec fn function_index(fs: Seq<HirFunction>, id: u32) -> Option<int>
    decreases fs.len(),
{
    if fs.len() == 0 {
        None
    } else if fs.last().id == id && function_index(fs.drop_last(), id) is None {
        Some(fs.len() - 1)
    } else {
        function_index(fs.drop_last(), id)
    }
}

/// The index of the first variable with id `id`.
pub open spec fn var_index(vs: Seq<HirVar>, id: u32) -> Option<int>
    decreases vs.len(),
{
    if vs.len() == 0 {
        None
    } else if vs.last().id == id && var_index(vs.drop_last(), id) is None {
        Some(vs.len() - 1)
    } else {
        var_index(vs.drop_last(), id)
    }
}

/// The index of the first constant with id `id`.
pub open spec fn constant_index(cs: Seq<HirConstant>, id: u32) -> Option<int>
    decreases cs.len(),
{
    if cs.len() == 0 {
        None
    } else if cs.last().id == id && constant_index(cs.drop_last(), id) is None {
        Some(cs.len() - 1)
    } else {
        constant_index(cs.drop_last(), id)
    }
}

/// The index of the first struct named `name`.
pub open spec fn struct_index(ss: Seq<HirStructDef>, name: Seq<char>) -> Option<int>
    decreases ss.len(),
{
    if ss.len() == 0 {
        None
    } else if ss.last().name@ == name && struct_index(ss.drop_last(), name) is None {
        Some(ss.len() - 1)
    } else {
        struct_index(ss.drop_last(), name)
    }
}

/// The index of the first name equal to `name`.
pub open spec fn name_index(ns: Seq<String>, name: Seq<char>) -> Option<int>
    decreases ns.len(),
{
    if ns.len() == 0 {
        None
    } else if ns.last()@ == name && name_index(ns.drop_last(), name) is None {
        Some(ns.len() - 1)
    } else {
        name_index(ns.drop_last(), name)
    }
}

/// The function id imported under `name`, from the first entry with that name.
pub open spec fn import_lookup(imports: Seq<(String, u32)>, name: Seq<char>) -> Option<u32>
    decreases imports.len(),
{
    if imports.len() == 0 {
        None
    } else if imports[0].0@ == name {
        Some(imports[0].1)
    } else {
        import_lookup(imports.drop_first(), name)
    }
}

/// The position of the first function with id `id`.
pub fn find_function(fs: &Vec<HirFunction>, id: u32) -> (r: Option<usize>)
    ensures
        match r {
            Some(k) => function_index(fs@, id) == Some(k as int) && k < fs@.len() && fs@[k as int].id == id,
            None => function_index(fs@, id) is None,
        },
{
    let n = fs.len();
    let mut k: usize = 0;
    while k < n
        invariant
            n == fs@.len(),
            0 <= k <= n,
            function_index(fs@.subrange(0, k as int), id) is None,
        decreases n - k,
    {
        assert(fs@.subrange(0, k + 1).drop_last() =~= fs@.subrange(0, k as int));
        if fs[k].id == id {
            proof { lemma_function_index_prefix(fs@, id, k + 1); }
            return Some(k);
        }
        k += 1;
    }
    assert(fs@.subrange(0, n as int) =~= fs@);
    None
}

/// A first match in a prefix is the first match in the whole sequence.
proof fn lemma_function_index_prefix(fs: Seq<HirFunction>, id: u32, k: int)
    requires
        0 <= k <= fs.len(),
        function_index(fs.subrange(0, k), id) is Some,
    ensures
        function_index(fs, id) == function_index(fs.subrange(0, k), id),
    decreases fs.len() - k,
{
    if k < fs.len() {
        assert(fs.subrange(0, k + 1).drop_last() =~= fs.subrange(0, k));
        lemma_function_index_prefix(fs, id, k + 1);
    } else {
        assert(fs.subrange(0, k) =~= fs);
    }
}

/// The position of the first variable with id `id`.
pub fn find_var(vs: &Vec<HirVar>, id: u32) -> (r: Option<usize>)
    ensures
        match r {
            Some(k) => var_index(vs@, id) == Some(k as int) && k < vs@.len() && vs@[k as int].id == id,
            None => var_index(vs@, id) is None,
        },
{
    let n = vs.len();
    let mut k: usize = 0;
    while k < n
        invariant
            n == vs@.len(),
            0 <= k <= n,
            var_index(vs@.subrange(0, k as int), id) is None,
        decreases n - k,
    {
        assert(vs@.subrange(0, k + 1).drop_last() =~= vs@.subrange(0, k as int));
        if vs[k].id == id {
            proof { lemma_var_index_prefix(vs@, id, k + 1); }
            return Some(k);
        }
        k += 1;
    }
    assert(vs@.subrange(0, n as int) =~= vs@);
    None
}

/// A first match in a prefix is the first match in the whole sequence.
proof fn lemma_var_index_prefix(vs: Seq<HirVar>, id: u32, k: int)
    requires
        0 <= k <= vs.len(),
        var_index(vs.subrange(0, k), id) is Some,
    ensures
        var_index(vs, id) == var_index(vs.subrange(0, k), id),
    decreases vs.len() - k,
{
    if k < vs.len() {
        assert(vs.subrange(0, k + 1).drop_last() =~= vs.subrange(0, k));
        lemma_var_index_prefix(vs, id, k + 1);
    } else {
        assert(vs.subrange(0, k) =~= vs);
    }
}

/// The position of the first constant with id `id`.
pub fn find_constant(cs: &Vec<HirConstant>, id: u32) -> (r: Option<usize>)
    ensures
        match r {
            Some(k) => constant_index(cs@, id) == Some(k as int) && k < cs@.len() && cs@[k as int].id == id,
            None => constant_index(cs@, id) is None,
        },
{
    let n = cs.len();
    let mut k: usize = 0;
    while k < n
        invariant
            n == cs@.len(),
            0 <= k <= n,
            constant_index(cs@.subrange(0, k as int), id) is None,
        decreases n - k,
    {
        assert(cs@.subrange(0, k + 1).drop_last() =~= cs@.subrange(0, k as int));
        if cs[k].id == id {
            proof { lemma_constant_index_prefix(cs@, id, k + 1); }
            return Some(k);
        }
        k += 1;
    }
    assert(cs@.subrange(0, n as int) =~= cs@);
    None
}

/// A first match in a prefix is the first match in the whole sequence.
proof fn lemma_constant_index_prefix(cs: Seq<HirConstant>, id: u32, k: int)
    requires
        0 <= k <= cs.len(),
        constant_index(cs.subrange(0, k), id) is Some,
    ensures
        constant_index(cs, id) == constant_index(cs.subrange(0, k), id),
    decreases cs.len() - k,
{
    if k < cs.len() {
        assert(cs.subrange(0, k + 1).drop_last() =~= cs.subrange(0, k));
        lemma_constant_index_prefix(cs, id, k + 1);
    } else {
        assert(cs.subrange(0, k) =~= cs);
    }
}

/// The position of the first struct named `name`.
pub fn find_struct(ss: &Vec<HirStructDef>, name: &str) -> (r: Option<usize>)
    ensures
        match r {
            Some(k) => struct_index(ss@, name@) == Some(k as int) && k < ss@.len() && ss@[k as int].name@ == name@,
            None => struct_index(ss@, name@) is None,
        },
{
    let n = ss.len();
    let mut k: usize = 0;
    while k < n
        invariant
            n == ss@.len(),
            0 <= k <= n,
            struct_index(ss@.subrange(0, k as int), name@) is None,
        decreases n - k,
    {
        assert(ss@.subrange(0, k + 1).drop_last() =~= ss@.subrange(0, k as int));
        if str_equal(ss[k].name.as_str(), name) {
            proof { lemma_struct_index_prefix(ss@, name@, k + 1); }
            return Some(k);
        }
        k += 1;
    }
    assert(ss@.subrange(0, n as int) =~= ss@);
    None
}

/// A first match in a prefix is the first match in the whole sequence.
proof fn lemma_struct_index_prefix(ss: Seq<HirStructDef>, name: Seq<char>, k: int)
    requires
        0 <= k <= ss.len(),
        struct_index(ss.subrange(0, k), name) is Some,
    ensures
        struct_index(ss, name) == struct_index(ss.subrange(0, k), name),
    decreases ss.len() - k,
{
    if k < ss.len() {
        assert(ss.subrange(0, k + 1).drop_last() =~= ss.subrange(0, k));
        lemma_struct_index_prefix(ss, name, k + 1);
    } else {
        assert(ss.subrange(0, k) =~= ss);
    }
}

/// The position of the first name equal to `name`.
pub fn find_name(ns: &Vec<String>, name: &str) -> (r: Option<usize>)
    ensures
        match r {
            Some(k) => name_index(ns@, name@) == Some(k as int) && k < ns@.len() && ns@[k as int]@ == name@,
            None => name_index(ns@, name@) is None,
        },
{
    let n = ns.len();
    let mut k: usize = 0;
    while k < n
        invariant
            n == ns@.len(),
            0 <= k <= n,
            name_index(ns@.subrange(0, k as int), name@) is None,
        decreases n - k,
    {
        assert(ns@.subrange(0, k + 1).drop_last() =~= ns@.subrange(0, k as int));
        if str_equal(ns[k].as_str(), name) {
            proof { lemma_name_index_prefix(ns@, name@, k + 1); }
            return Some(k);
        }
        k += 1;
    }
    assert(ns@.subrange(0, n as int) =~= ns@);
    None
}

/// A first match in a prefix is the first match in the whole sequence.
proof fn lemma_name_index_prefix(ns: Seq<String>, name: Seq<char>, k: int)
    requires
        0 <= k <= ns.len(),
        name_index(ns.subrange(0, k), name) is Some,
    ensures
        name_index(ns, name) == name_index(ns.subrange(0, k), name),
    decreases ns.len() - k,
{
    if k < ns.len() {
        assert(ns.subrange(0, k + 1).drop_last() =~= ns.subrange(0, k));
        lemma_name_index_prefix(ns, name, k + 1);
    } else {
        assert(ns.subrange(0, k) =~= ns);
    }
}

/// The function id imported under `name` in one module's imports.
pub fn lookup_import(imports: &Vec<(String, u32)>, name: &str) -> (r: Option<u32>)
    ensures
        r == import_lookup(imports@, name@),
{
    let n = imports.len();
    let mut k: usize = 0;
    assert(imports@.subrange(0, n as int) =~= imports@);
    while k < n
        invariant
            n == imports@.len(),
            0 <= k <= n,
            import_lookup(imports@, name@) == import_lookup(imports@.subrange(k as int, n as int), name@),
        decreases n - k,
    {
        assert(imports@.subrange(k as int, n as int).drop_first() =~= imports@.subrange(k + 1, n as int));
        if str_equal(imports[k].0.as_str(), name) {
            return Some(imports[k].1);
        }
        k += 1;
    }
    None
}

/// Whether two strings hold the same characters.
pub fn str_equal(a: &str, b: &str) -> (r: bool)
    ensures
        r == (a@ == b@),
{
    let n = a.unicode_len();
    if n != b.unicode_len() {
        return false;
    }
    let mut i: usize = 0;
    while i < n
        invariant
            n == a@.len(),
            n == b@.len(),
            0 <= i <= n,
            forall|j: int| 0 <= j < i ==> a@[j] == b@[j],
        decreases n - i,
    {
        if a.get_char(i) != b.get_char(i) {
            return false;
        }
        i += 1;
    }
    assert(a@ =~= b@);
    true
}

} // verus!
