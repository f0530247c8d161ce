//! The registry of native functions: standard library modules, their
//! functions and structs, and the identities the engine hands out for them.
//!
//! A native function's implementation is carried as an opaque value of type
//! `F`; the engine stores and copies it but never looks inside.
use vstd::prelude::*;
use crate::entity_id::{EntityId, EntityIdGenerator, NATIVE_FUNC_START, NATIVE_TYPE_START, in_native_func_range};
use crate::hir::{FunctionSignature, ValueKind};
use crate::doc::DocBlock;
use crate::chars::sub_string;
use vstd::string::StrSliceExecFns;

verus! {

/// How many arguments a native function takes.
#[derive(Debug, Clone, Copy, PartialEq, Eq, Structural)]
pub enum Arity {
    Fixed(usize),
    Variadic { min: usize },
}

/// A standard library function: its name, type, arity, implementation and
/// documentation.
pub struct StdFunction<F> {
    pub name: &'static str,
    pub signature: FunctionSignature,
    pub arity: Arity,
    pub impl_fn: F,
    pub docs: Option<DocBlock>,
}

/// A standard library struct: its name and its fields with their kinds.
pub struct StdStruct<F> {
    pub name: &'static str,
    pub fields: Vec<(&'static str, ValueKind)>,
    /// Methods on the struct, reserved for member functions.
    pub methods: Vec<StdFunction<F>>,
    pub docs: Option<DocBlock>,
}

/// A standard library module: functions, structs and submodules.
pub struct StdModule<F> {
    pub name: &'static str,
    pub functions: Vec<StdFunction<F>>,
    pub structs: Vec<StdStruct<F>>,
    pub submodules: Vec<StdModule<F>>,
    pub docs: Option<DocBlock>,
}

/// A registered native function: its arity and implementation.
pub struct NativeFunction<F> {
    pub arity: Arity,
    pub func: F,
}

/// What the compiler knows of a native function: its identity, the name it
/// is found by, its type, arity and documentation.
pub struct NativeFunctionDescriptor {
    pub id: EntityId,
    pub name: String,
    pub signature: FunctionSignature,
    pub arity: Arity,
    pub docs: Option<DocBlock>,
}

/// What compilation needs to know of the native functions: their
/// descriptors, and the test `P` of which identities are registered native
/// functions.
pub struct CompileContext<'a, P> {
    pub is_native_function: P,
    pub native_functions: &'a [NativeFunctionDescriptor],
}

/// A melon project: its name, entry file, scripts and dependencies.
pub struct MelonProject {
    pub name: String,
    pub entry: String,
    pub scripts: Vec<String>,
    pub dependencies: Vec<String>,
}

/// A struct of a registered module, by name with its fields.
pub struct ModuleStructInfo {
    pub name: String,
    pub fields: Vec<(String, ValueKind)>,
}

/// The native function registry.
pub struct Engine<F> {
    /// The registered functions by identity, in registration order.
    pub functions: Vec<(EntityId, NativeFunction<F>)>,
    /// The descriptors the compiler resolves names with.
    pub native_descriptors: Vec<NativeFunctionDescriptor>,
    /// The structs of each registered module path.
    registered_structs: Vec<(String, Vec<ModuleStructInfo>)>,
    id_generator: EntityIdGenerator,
}

// ---------------------------------------------------------------------------
// Specifications
// ---------------------------------------------------------------------------

/// The path of module `name` under `base`: `base.name`, or `name` at the top.
pub open spec fn qualified_path(base: Seq<char>, name: Seq<char>) -> Seq<char> {
    if base.len() == 0 {
        name
    } else {
        base + "."@ + name
    }
}

/// The functions of a module and its submodules in registration order, each
/// with the path of the module it belongs to: a module's own functions come
/// first, then those of each submodule in turn.
pub open spec fn module_functions<F>(m: StdModule<F>, base: Seq<char>) -> Seq<(Seq<char>, StdFunction<F>)>
    decreases m, 0nat,
{
    let path = qualified_path(base, m.name@);
    own_functions(m.functions@, path) + submodules_functions(m.submodules@, path)
}

/// Functions paired with the path of their module.
pub open spec fn own_functions<F>(fs: Seq<StdFunction<F>>, path: Seq<char>) -> Seq<(Seq<char>, StdFunction<F>)> {
    Seq::new(fs.len(), |j: int| (path, fs[j]))
}

/// The functions of a list of submodules under `base`, in order.
pub open spec fn submodules_functions<F>(ms: Seq<StdModule<F>>, base: Seq<char>) -> Seq<(Seq<char>, StdFunction<F>)>
    decreases ms, 0nat,
{
    if ms.len() == 0 {
        Seq::empty()
    } else {
        submodules_functions(ms.drop_last(), base) + module_functions(ms.last(), base)
    }
}

/// Two optional documentation blocks have the same contents.
pub open spec fn same_docs(a: Option<DocBlock>, b: Option<DocBlock>) -> bool {
    match (a, b) {
        (Some(x), Some(y)) => x.same_as(&y),
        (None, None) => true,
        _ => false,
    }
}

/// `d` describes function `f` under identity `id` and name `name`.
pub open spec fn describes<F>(d: NativeFunctionDescriptor, id: int, name: Seq<char>, f: StdFunction<F>) -> bool {
    &&& d.id.0 == id
    &&& d.name@ == name
    &&& d.signature.params@ == f.signature.params@
    &&& d.signature.return_type == f.signature.return_type
    &&& d.signature.is_effectful == f.signature.is_effectful
    &&& d.arity == f.arity
    &&& same_docs(d.docs, f.docs)
}

/// What the registry records of a struct: its name, and its fields' names
/// with their kinds.
pub type StructView = (Seq<char>, Seq<(Seq<char>, ValueKind)>);

/// What the registry records of a module struct.
pub open spec fn info_view(i: ModuleStructInfo) -> StructView {
    (i.name@, Seq::new(i.fields@.len(), |k: int| (i.fields@[k].0@, i.fields@[k].1)))
}

/// What the registry records of a standard library struct.
pub open spec fn std_struct_view<F>(s: StdStruct<F>) -> StructView {
    (s.name@, Seq::new(s.fields@.len(), |k: int| (s.fields@[k].0@, s.fields@[k].1)))
}

/// The registry of structs by module path, from a list with distinct paths.
pub open spec fn structs_map(entries: Seq<(String, Vec<ModuleStructInfo>)>) -> Map<Seq<char>, Seq<StructView>>
    decreases entries.len(),
{
    if entries.len() == 0 {
        Map::empty()
    } else {
        structs_map(entries.drop_last()).insert(
            entries.last().0@,
            Seq::new(entries.last().1@.len(), |k: int| info_view(entries.last().1@[k])),
        )
    }
}

/// The struct registrations that registering module `m` under `base` makes,
/// in order: its own structs under its path, if it has any, then those of
/// its submodules.
pub open spec fn register_regs<F>(m: StdModule<F>, base: Seq<char>) -> Seq<(Seq<char>, Seq<StructView>)>
    decreases m, 1nat,
{
    let path = qualified_path(base, m.name@);
    (if m.structs@.len() > 0 {
        seq![(path, Seq::new(m.structs@.len(), |k: int| std_struct_view(m.structs@[k])))]
    } else {
        Seq::empty()
    }) + load_regs(m, base)
}

/// The struct registrations that loading module `m` under `base` makes:
/// those of its submodules, in order.
pub open spec fn load_regs<F>(m: StdModule<F>, base: Seq<char>) -> Seq<(Seq<char>, Seq<StructView>)>
    decreases m, 0nat,
{
    submodules_regs(m.submodules@, qualified_path(base, m.name@))
}

/// The struct registrations of a list of submodules under `base`.
pub open spec fn submodules_regs<F>(ms: Seq<StdModule<F>>, base: Seq<char>) -> Seq<(Seq<char>, Seq<StructView>)>
    decreases ms, 0nat,
{
    if ms.len() == 0 {
        Seq::empty()
    } else {
        submodules_regs(ms.drop_last(), base) + register_regs(ms.last(), base)
    }
}

/// A registry after the registrations, in order; a later registration for
/// a path replaces an earlier one.
pub open spec fn apply_regs(m: Map<Seq<char>, Seq<StructView>>, regs: Seq<(Seq<char>, Seq<StructView>)>) -> Map<Seq<char>, Seq<StructView>>
    decreases regs.len(),
{
    if regs.len() == 0 {
        m
    } else {
        apply_regs(m, regs.drop_last()).insert(regs.last().0, regs.last().1)
    }
}

/// Registration `r` records function `f` under identity `id`: with its
/// arity, and a clone of its implementation.
pub open spec fn registration_of<F: Clone>(r: (EntityId, NativeFunction<F>), id: int, f: StdFunction<F>) -> bool {
    &&& r.0.0 == id
    &&& r.1.arity == f.arity
    &&& cloned(f.impl_fn, r.1.func)
}

/// `after` is `before` followed by one registration per entry of `fs`, in
/// order, with consecutive identities from `first`.
pub open spec fn registers<F: Clone>(
    before: Seq<(EntityId, NativeFunction<F>)>,
    after: Seq<(EntityId, NativeFunction<F>)>,
    first: int,
    fs: Seq<(Seq<char>, StdFunction<F>)>,
) -> bool {
    &&& after.len() == before.len() + fs.len()
    &&& after.subrange(0, before.len() as int) == before
    &&& forall|k: int|
        0 <= k < fs.len() ==> registration_of(after[before.len() + k], first + k, #[trigger] fs[k].1)
}

/// The name a module function is found by through its module: the module
/// path, a dot, and the function's name.
pub open spec fn path_name<F>(entry: (Seq<char>, StdFunction<F>)) -> Seq<char> {
    entry.0 + "."@ + entry.1.name@
}

/// `after` is `before` followed by two descriptors per entry of `fs`, in
/// order: the first under the function's path name, the second under its
/// bare name, both with the entry's identity counted from `first`.
pub open spec fn describes_all<F>(
    before: Seq<NativeFunctionDescriptor>,
    after: Seq<NativeFunctionDescriptor>,
    first: int,
    fs: Seq<(Seq<char>, StdFunction<F>)>,
) -> bool {
    &&& after.len() == before.len() + 2 * fs.len()
    &&& after.subrange(0, before.len() as int) == before
    &&& forall|k: int|
        0 <= k < fs.len() ==> {
            &&& describes(after[before.len() + 2 * k], first + k, path_name(#[trigger] fs[k]), fs[k].1)
            &&& describes(after[before.len() + 2 * k + 1], first + k, fs[k].1.name@, fs[k].1)
        }
}

/// The effect on the functions of an engine of loading the module functions
/// `fs`: identities are handed out in order, each function is registered and
/// described twice.
pub open spec fn load_effect<F: Clone>(before: Engine<F>, after: Engine<F>, fs: Seq<(Seq<char>, StdFunction<F>)>) -> bool {
    &&& after.next_id() == before.next_id() + fs.len()
    &&& registers(before.registered(), after.registered(), before.next_id() as int, fs)
    &&& describes_all(before.descriptors(), after.descriptors(), before.next_id() as int, fs)
}

/// The functions of top-level modules, in order.
pub open spec fn top_functions<F>(ms: Seq<&StdModule<F>>) -> Seq<(Seq<char>, StdFunction<F>)>
    decreases ms.len(),
{
    if ms.len() == 0 {
        Seq::empty()
    } else {
        top_functions(ms.drop_last()) + module_functions(*ms.last(), Seq::empty())
    }
}

/// The struct registrations of top-level modules, in order.
pub open spec fn top_regs<F>(ms: Seq<&StdModule<F>>) -> Seq<(Seq<char>, Seq<StructView>)>
    decreases ms.len(),
{
    if ms.len() == 0 {
        Seq::empty()
    } else {
        top_regs(ms.drop_last()) + register_regs(*ms.last(), Seq::empty())
    }
}

// ---------------------------------------------------------------------------
// Native modules for compilation
// ---------------------------------------------------------------------------

/// A native module as compilation sees it: its name, its functions by name
/// and its structs.
pub struct NativeModule {
    pub name: String,
    pub functions: Vec<(String, EntityId)>,
    pub structs: Vec<ModuleStructInfo>,
}

/// The index of the first dot of `s`, or its length when it has none.
pub open spec fn first_dot(s: Seq<char>) -> int
    decreases s.len(),
{
    if s.len() == 0 {
        0
    } else if s[0] == '.' {
        0
    } else {
        1 + first_dot(s.drop_first())
    }
}

/// A qualified name split at its first dot into module and function names;
/// `None` for a name without a dot.
pub open spec fn qualified_parts(name: Seq<char>) -> Option<(Seq<char>, Seq<char>)> {
    let k = first_dot(name);
    if 0 <= k < name.len() {
        Some((name.subrange(0, k), name.subrange(k + 1, name.len() as int)))
    } else {
        None
    }
}

/// The functions of module `m` by name, from descriptors with qualified
/// names in order; a later descriptor of a name replaces an earlier one.
pub open spec fn module_function_map(ds: Seq<NativeFunctionDescriptor>, m: Seq<char>) -> Map<Seq<char>, EntityId>
    decreases ds.len(),
{
    if ds.len() == 0 {
        Map::empty()
    } else {
        let prev = module_function_map(ds.drop_last(), m);
        match qualified_parts(ds.last().name@) {
            Some((dm, f)) => if dm == m {
                prev.insert(f, ds.last().id)
            } else {
                prev
            },
            None => prev,
        }
    }
}

/// The module a qualified name belongs to.
pub open spec fn module_of(name: Seq<char>) -> Option<Seq<char>> {
    match qualified_parts(name) {
        Some((dm, _)) => Some(dm),
        None => None,
    }
}

/// Some descriptor's qualified name belongs to module `m`.
pub open spec fn is_native_module(ds: Seq<NativeFunctionDescriptor>, m: Seq<char>) -> bool {
    exists|i: int| 0 <= i < ds.len() && module_of(#[trigger] ds[i].name@) == Some(m)
}

/// Pairs by key, from a list with distinct keys.
pub open spec fn keyed_map<V>(entries: Seq<(String, V)>) -> Map<Seq<char>, V>
    decreases entries.len(),
{
    if entries.len() == 0 {
        Map::empty()
    } else {
        keyed_map(entries.drop_last()).insert(entries.last().0@, entries.last().1)
    }
}

/// The keys of `entries` are distinct.
pub open spec fn distinct_keys<V>(entries: Seq<(String, V)>) -> bool {
    forall|a: int, b: int| 0 <= a < entries.len() && 0 <= b < entries.len() && a != b ==> entries[a].0@ != entries[b].0@
}

// ---------------------------------------------------------------------------
// Lemmas
// ---------------------------------------------------------------------------

/// Loading nothing leaves an engine's functions as they are.
proof fn lemma_load_nothing<F: Clone>(e: Engine<F>)
    ensures
        load_effect(e, e, Seq::empty()),
{
    assert(e.registered().subrange(0, e.registered().len() as int) =~= e.registered());
    assert(e.descriptors().subrange(0, e.descriptors().len() as int) =~= e.descriptors());
}

/// Loading `fs1` and then `fs2` is loading `fs1 + fs2`.
proof fn lemma_load_then<F: Clone>(
    a: Engine<F>,
    b: Engine<F>,
    c: Engine<F>,
    fs1: Seq<(Seq<char>, StdFunction<F>)>,
    fs2: Seq<(Seq<char>, StdFunction<F>)>,
)
    requires
        load_effect(a, b, fs1),
        load_effect(b, c, fs2),
    ensures
        load_effect(a, c, fs1 + fs2),
{
    let fs = fs1 + fs2;
    let (ra, rb, rc) = (a.registered(), b.registered(), c.registered());
    let (da, db, dc) = (a.descriptors(), b.descriptors(), c.descriptors());
    assert(rc.subrange(0, ra.len() as int) =~= ra) by {
        assert forall|i: int| 0 <= i < ra.len() implies rc[i] == ra[i] by {
            assert(rc.subrange(0, rb.len() as int)[i] == rb[i]);
            assert(rb.subrange(0, ra.len() as int)[i] == ra[i]);
        }
    }
    assert(dc.subrange(0, da.len() as int) =~= da) by {
        assert forall|i: int| 0 <= i < da.len() implies dc[i] == da[i] by {
            assert(dc.subrange(0, db.len() as int)[i] == db[i]);
            assert(db.subrange(0, da.len() as int)[i] == da[i]);
        }
    }
    assert forall|k: int| 0 <= k < fs.len() implies registration_of(
        rc[ra.len() + k],
        a.next_id() + k,
        #[trigger] fs[k].1,
    ) by {
        if k < fs1.len() {
            assert(fs[k] == fs1[k]);
            assert(rc.subrange(0, rb.len() as int)[ra.len() + k] == rb[ra.len() + k]);
        } else {
            assert(fs[k] == fs2[k - fs1.len()]);
        }
    }
    assert forall|k: int| 0 <= k < fs.len() implies {
        &&& describes(dc[da.len() + 2 * k], a.next_id() + k, path_name(#[trigger] fs[k]), fs[k].1)
        &&& describes(dc[da.len() + 2 * k + 1], a.next_id() + k, fs[k].1.name@, fs[k].1)
    } by {
        if k < fs1.len() {
            assert(fs[k] == fs1[k]);
            assert(dc.subrange(0, db.len() as int)[da.len() + 2 * k] == db[da.len() + 2 * k]);
            assert(dc.subrange(0, db.len() as int)[da.len() + 2 * k + 1] == db[da.len() + 2 * k + 1]);
        } else {
            assert(fs[k] == fs2[k - fs1.len()]);
        }
    }
}

/// Applying `r1` and then `r2` is applying `r1 + r2`.
proof fn lemma_apply_then(m: Map<Seq<char>, Seq<StructView>>, r1: Seq<(Seq<char>, Seq<StructView>)>, r2: Seq<(Seq<char>, Seq<StructView>)>)
    ensures
        apply_regs(apply_regs(m, r1), r2) == apply_regs(m, r1 + r2),
    decreases r2.len(),
{
    if r2.len() == 0 {
        assert(r1 + r2 =~= r1);
    } else {
        lemma_apply_then(m, r1, r2.drop_last());
        assert((r1 + r2).drop_last() =~= r1 + r2.drop_last());
    }
}

/// The functions of the first `i` submodules are no more than those of all.
proof fn lemma_submodules_prefix<F>(ms: Seq<StdModule<F>>, base: Seq<char>, i: int)
    requires
        0 <= i <= ms.len(),
    ensures
        submodules_functions(ms.take(i), base).len() <= submodules_functions(ms, base).len(),
    decreases ms.len(),
{
    if i == ms.len() {
        assert(ms.take(i) =~= ms);
    } else {
        lemma_submodules_prefix(ms.drop_last(), base, i);
        assert(ms.drop_last().take(i) =~= ms.take(i));
    }
}

/// The struct registry of a list of entries with distinct paths, after one
/// entry's structs are replaced.
proof fn lemma_structs_map_update(entries: Seq<(String, Vec<ModuleStructInfo>)>, i: int, entry: (String, Vec<ModuleStructInfo>))
    requires
        forall|a: int, b: int|
            0 <= a < b < entries.len() ==> entries[a].0@ != entries[b].0@,
        0 <= i < entries.len(),
        entry.0@ == entries[i].0@,
    ensures
        structs_map(entries.update(i, entry)) == structs_map(entries).insert(
            entry.0@,
            Seq::new(entry.1@.len(), |k: int| info_view(entry.1@[k])),
        ),
    decreases entries.len(),
{
    let upd = entries.update(i, entry);
    let v = Seq::new(entry.1@.len(), |k: int| info_view(entry.1@[k]));
    if i == entries.len() - 1 {
        assert(upd.drop_last() =~= entries.drop_last());
        assert(structs_map(upd) =~= structs_map(entries).insert(entry.0@, v));
    } else {
        assert(upd.drop_last() =~= entries.drop_last().update(i, entry));
        lemma_structs_map_update(entries.drop_last(), i, entry);
        assert(entries.last().0@ != entry.0@);
        assert(structs_map(upd) =~= structs_map(entries).insert(entry.0@, v));
    }
}

impl<F> Engine<F> {
    /// The structs registered for each module path.
    pub closed spec fn struct_registry(&self) -> Map<Seq<char>, Seq<StructView>> {
        structs_map(self.registered_structs@)
    }

    /// The registered functions by identity, in registration order.
    pub closed spec fn registered(&self) -> Seq<(EntityId, NativeFunction<F>)> {
        self.functions@
    }

    /// The descriptors, in registration order.
    pub closed spec fn descriptors(&self) -> Seq<NativeFunctionDescriptor> {
        self.native_descriptors@
    }

    /// The identity the next registered function gets.
    pub closed spec fn next_id(&self) -> u32 {
        self.id_generator.native_func_counter()
    }

    /// Registered identities are native function identities, increase in
    /// registration order, and lie below the next one handed out.
    pub closed spec fn wf(&self) -> bool {
        &&& NATIVE_FUNC_START <= self.next_id() <= NATIVE_TYPE_START
        &&& forall|i: int|
            0 <= i < self.functions@.len() ==> in_native_func_range(#[trigger] self.functions@[i].0.0)
                && self.functions@[i].0.0 < self.next_id()
        &&& forall|i: int, j: int|
            0 <= i < j < self.functions@.len() ==> self.functions@[i].0.0 < self.functions@[j].0.0
        &&& forall|i: int, j: int|
            0 <= i < j < self.registered_structs@.len() ==> self.registered_structs@[i].0@
                != self.registered_structs@[j].0@
    }
}

/// Registered functions have native function identities below the next one
/// to be handed out, each its own, increasing in registration order.
pub proof fn lemma_registered_identities<F>(e: Engine<F>)
    requires
        e.wf(),
    ensures
        forall|i: int|
            0 <= i < e.registered().len() ==> in_native_func_range(#[trigger] e.registered()[i].0.0)
                && e.registered()[i].0.0 < e.next_id(),
        forall|i: int, j: int|
            0 <= i < j < e.registered().len() ==> e.registered()[i].0.0 < e.registered()[j].0.0,
        forall|i: int, j: int|
            0 <= i < e.registered().len() && 0 <= j < e.registered().len() && i != j
                ==> e.registered()[i].0 != e.registered()[j].0,
{
    assert forall|i: int, j: int|
        0 <= i < e.registered().len() && 0 <= j < e.registered().len() && i != j implies e.registered()[i].0
        != e.registered()[j].0 by {
        if i < j {
            assert(e.registered()[i].0.0 < e.registered()[j].0.0);
        } else {
            assert(e.registered()[j].0.0 < e.registered()[i].0.0);
        }
    }
}

/// Replacing the value of one key of a list with distinct keys replaces it
/// in the keyed map.
proof fn lemma_keyed_map_update<V>(entries: Seq<(String, V)>, i: int, pair: (String, V))
    requires
        distinct_keys(entries),
        0 <= i < entries.len(),
        pair.0@ == entries[i].0@,
    ensures
        keyed_map(entries.update(i, pair)) == keyed_map(entries).insert(pair.0@, pair.1),
    decreases entries.len(),
{
    let upd = entries.update(i, pair);
    if i == entries.len() - 1 {
        assert(upd.drop_last() =~= entries.drop_last());
        assert(keyed_map(upd) =~= keyed_map(entries).insert(pair.0@, pair.1));
    } else {
        assert(upd.drop_last() =~= entries.drop_last().update(i, pair));
        assert(distinct_keys(entries.drop_last()));
        lemma_keyed_map_update(entries.drop_last(), i, pair);
        assert(entries.last().0@ != entries[i].0@);
        assert(keyed_map(upd) =~= keyed_map(entries).insert(pair.0@, pair.1));
    }
}

/// In a registry list with distinct paths, each entry's path maps to the
/// views of its structs.
proof fn lemma_structs_map_lookup(entries: Seq<(String, Vec<ModuleStructInfo>)>, i: int)
    requires
        forall|a: int, b: int|
            0 <= a < b < entries.len() ==> entries[a].0@ != entries[b].0@,
        0 <= i < entries.len(),
    ensures
        structs_map(entries).contains_key(entries[i].0@),
        structs_map(entries)[entries[i].0@] == Seq::new(entries[i].1@.len(), |k: int| info_view(entries[i].1@[k])),
    decreases entries.len(),
{
    if i < entries.len() - 1 {
        assert(entries.drop_last()[i] == entries[i]);
        lemma_structs_map_lookup(entries.drop_last(), i);
        assert(entries.last().0@ != entries[i].0@);
    }
}

/// A path that no entry has is not in the registry.
proof fn lemma_structs_map_absent(entries: Seq<(String, Vec<ModuleStructInfo>)>, key: Seq<char>)
    requires
        forall|i: int| 0 <= i < entries.len() ==> entries[i].0@ != key,
    ensures
        !structs_map(entries).contains_key(key),
    decreases entries.len(),
{
    if entries.len() > 0 {
        lemma_structs_map_absent(entries.drop_last(), key);
    }
}

/// The index of the first dot of `s`, or its length when it has none.
fn find_dot(s: &str) -> (k: usize)
    ensures
        k == first_dot(s@),
        k <= s@.len(),
{
    let n = s.unicode_len();
    let mut k: usize = 0;
    assert(s@.subrange(0, n as int) =~= s@);
    while k < n && s.get_char(k) != '.'
        invariant
            0 <= k <= n,
            n == s@.len(),
            first_dot(s@) == k + first_dot(s@.subrange(k as int, n as int)),
        decreases n - k,
    {
        assert(s@.subrange(k as int, n as int)[0] == s@[k as int]);
        assert(s@.subrange(k as int, n as int).drop_first() =~= s@.subrange(k + 1, n as int));
        k += 1;
    }
    if k < n {
        assert(s@.subrange(k as int, n as int)[0] == s@[k as int]);
    }
    k
}

/// A qualified name split at its first dot.
pub(crate) fn split_qualified(name: &str) -> (r: Option<(String, String)>)
    ensures
        match r {
            Some((m, f)) => qualified_parts(name@) == Some((m@, f@)),
            None => qualified_parts(name@) is None,
        },
{
    let n = name.unicode_len();
    let k = find_dot(name);
    if k < n {
        Some((sub_string(name, 0, k), sub_string(name, k + 1, n)))
    } else {
        None
    }
}

/// Sets the value of `key`: in place when a pair has it, else by appending.
fn upsert<V>(entries: &mut Vec<(String, V)>, key: String, value: V)
    requires
        distinct_keys(old(entries)@),
    ensures
        distinct_keys(final(entries)@),
        keyed_map(final(entries)@) == keyed_map(old(entries)@).insert(key@, value),
{
    let n = entries.len();
    let mut i: usize = 0;
    while i < n
        invariant
            n == entries@.len(),
            entries@ == old(entries)@,
            distinct_keys(old(entries)@),
            0 <= i <= n,
            forall|j: int| 0 <= j < i ==> entries@[j].0@ != key@,
        decreases n - i,
    {
        if crate::hir::str_equal(entries[i].0.as_str(), key.as_str()) {
            let ghost before = entries@;
            let pair = (key, value);
            proof {
                lemma_keyed_map_update(before, i as int, pair);
            }
            entries.set(i, pair);
            assert forall|a: int, b: int|
                0 <= a < entries@.len() && 0 <= b < entries@.len() && a != b implies entries@[a].0@
                != entries@[b].0@ by {
                assert(before[a].0@ != before[b].0@);
            }
            return;
        }
        i += 1;
    }
    let ghost before = entries@;
    entries.push((key, value));
    assert(entries@.drop_last() =~= before);
}

/// A copy of a struct's record.
fn copy_info(i: &ModuleStructInfo) -> (r: ModuleStructInfo)
    ensures
        info_view(r) == info_view(*i),
{
    let mut fields: Vec<(String, ValueKind)> = Vec::new();
    let m = i.fields.len();
    let mut j: usize = 0;
    while j < m
        invariant
            m == i.fields@.len(),
            0 <= j <= m,
            fields@.len() == j,
            forall|k: int|
                0 <= k < j ==> (#[trigger] fields@[k]).0@ == i.fields@[k].0@ && fields@[k].1 == i.fields@[k].1,
        decreases m - j,
    {
        let f = &i.fields[j];
        fields.push((f.0.clone(), f.1.copy()));
        j += 1;
    }
    let r = ModuleStructInfo { name: i.name.clone(), fields };
    assert(info_view(r).1 =~= info_view(*i).1);
    r
}

// ---------------------------------------------------------------------------
// Registration
// ---------------------------------------------------------------------------

/// An equal optional documentation block.
fn copy_docs(d: &Option<DocBlock>) -> (r: Option<DocBlock>)
    ensures
        same_docs(r, *d),
{
    match d {
        Some(b) => Some(b.copy()),
        None => None,
    }
}

/// `a`, a dot, and `b`.
fn join_dot(a: &str, b: &str) -> (r: String)
    ensures
        r@ == a@ + "."@ + b@,
{
    let mut r = String::from_str(a);
    r.append(".");
    r.append(b);
    r
}

/// The path of module `name` under `base`.
fn qualified_module_name(base: &str, name: &str) -> (r: String)
    ensures
        r@ == qualified_path(base@, name@),
{
    if base.unicode_len() == 0 {
        String::from_str(name)
    } else {
        join_dot(base, name)
    }
}

/// What the registry records of a module's structs, in order.
fn struct_infos<F>(structs: &Vec<StdStruct<F>>) -> (r: Vec<ModuleStructInfo>)
    ensures
        r@.len() == structs@.len(),
        forall|k: int| 0 <= k < r@.len() ==> info_view(#[trigger] r@[k]) == std_struct_view(structs@[k]),
{
    let mut r: Vec<ModuleStructInfo> = Vec::new();
    let n = structs.len();
    let mut i: usize = 0;
    while i < n
        invariant
            n == structs@.len(),
            0 <= i <= n,
            r@.len() == i,
            forall|k: int| 0 <= k < i ==> info_view(#[trigger] r@[k]) == std_struct_view(structs@[k]),
        decreases n - i,
    {
        let s = &structs[i];
        let mut fields: Vec<(String, ValueKind)> = Vec::new();
        let m = s.fields.len();
        let mut j: usize = 0;
        while j < m
            invariant
                m == s.fields@.len(),
                0 <= j <= m,
                fields@.len() == j,
                forall|k: int|
                    0 <= k < j ==> (#[trigger] fields@[k]).0@ == s.fields@[k].0@ && fields@[k].1
                        == s.fields@[k].1,
            decreases m - j,
        {
            let field = &s.fields[j];
            fields.push((String::from_str(field.0), field.1.copy()));
            j += 1;
        }
        let info = ModuleStructInfo { name: String::from_str(s.name), fields };
        assert(info_view(info) == std_struct_view(*s)) by {
            assert(info_view(info).1 =~= std_struct_view(*s).1);
        }
        r.push(info);
        i += 1;
    }
    r
}

/// The identity of the first descriptor named `name`, if any: a qualified
/// name such as `math.add` or a bare one such as `add`.
pub fn native_function_id_by_name(ds: &[NativeFunctionDescriptor], name: &str) -> (r: Option<EntityId>)
    ensures
        match r {
            Some(id) => exists|i: int|
                0 <= i < ds@.len() && ds@[i].name@ == name@ && ds@[i].id == id && forall|j: int|
                    0 <= j < i ==> ds@[j].name@ != name@,
            None => forall|j: int| 0 <= j < ds@.len() ==> ds@[j].name@ != name@,
        },
{
    let n = ds.len();
    let mut i: usize = 0;
    while i < n
        invariant
            n == ds@.len(),
            0 <= i <= n,
            forall|j: int| 0 <= j < i ==> ds@[j].name@ != name@,
        decreases n - i,
    {
        if crate::hir::str_equal(ds[i].name.as_str(), name) {
            return Some(ds[i].id);
        }
        i += 1;
    }
    None
}

impl<F: Clone> Engine<F> {
    /// An engine with nothing registered.
    pub fn new() -> (e: Self)
        ensures
            e.wf(),
            e.registered().len() == 0,
            e.descriptors().len() == 0,
            e.next_id() == NATIVE_FUNC_START,
            e.struct_registry() == Map::<Seq<char>, Seq<StructView>>::empty(),
    {
        Engine {
            functions: Vec::new(),
            native_descriptors: Vec::new(),
            registered_structs: Vec::new(),
            id_generator: EntityIdGenerator::new(),
        }
    }

    /// Whether a native function is registered under `id`.
    pub fn contains_function(&self, id: EntityId) -> (r: bool)
        ensures
            r == exists|i: int| 0 <= i < self.registered().len() && #[trigger] self.registered()[i].0 == id,
    {
        let n = self.functions.len();
        let mut i: usize = 0;
        while i < n
            invariant
                n == self.functions@.len(),
                0 <= i <= n,
                forall|j: int| 0 <= j < i ==> self.functions@[j].0 != id,
            decreases n - i,
        {
            if self.functions[i].0.0 == id.0 {
                assert(self.registered()[i as int].0 == id);
                return true;
            }
            i += 1;
        }
        false
    }

    /// The native modules that compilation registers: one per module name
    /// that a descriptor's qualified name (`module.function`) starts with,
    /// in order of first appearance. Each holds its functions by name (a
    /// later descriptor of a name replacing an earlier one) and the structs
    /// recorded for its path.
    pub fn native_modules(&self) -> (r: Vec<NativeModule>)
        requires
            self.wf(),
        ensures
            forall|a: int, b: int|
                0 <= a < r@.len() && 0 <= b < r@.len() && a != b ==> r@[a].name@ != r@[b].name@,
            forall|m: Seq<char>|
                is_native_module(self.descriptors(), m) ==> exists|a: int| 0 <= a < r@.len() && (#[trigger] r@[a]).name@ == m,
            forall|a: int|
                0 <= a < r@.len() ==> {
                    let nm = #[trigger] r@[a];
                    &&& is_native_module(self.descriptors(), nm.name@)
                    &&& distinct_keys(nm.functions@)
                    &&& keyed_map(nm.functions@) == module_function_map(self.descriptors(), nm.name@)
                    &&& if self.struct_registry().contains_key(nm.name@) {
                        Seq::new(nm.structs@.len(), |k: int| info_view(nm.structs@[k])) == self.struct_registry()[nm.name@]
                    } else {
                        nm.structs@.len() == 0
                    }
                },
    {
        let ds = &self.native_descriptors;
        let n = ds.len();
        // the module names, in order of first appearance
        let mut names: Vec<String> = Vec::new();
        let mut i: usize = 0;
        while i < n
            invariant
                n == ds@.len(),
                ds@ == self.descriptors(),
                0 <= i <= n,
                forall|a: int, b: int|
                    0 <= a < names@.len() && 0 <= b < names@.len() && a != b ==> names@[a]@ != names@[b]@,
                forall|a: int| 0 <= a < names@.len() ==> is_native_module(ds@, #[trigger] names@[a]@),
                forall|j: int|
                    0 <= j < i && (#[trigger] module_of(ds@[j].name@)) is Some ==> exists|a: int|
                        0 <= a < names@.len() && Some(names@[a]@) == module_of(ds@[j].name@),
            decreases n - i,
        {
            if let Some((m, _f)) = split_qualified(ds[i].name.as_str()) {
                assert(module_of(ds@[i as int].name@) == Some(m@));
                let k = names.len();
                let mut q: usize = 0;
                let mut found = false;
                while q < k
                    invariant
                        k == names@.len(),
                        0 <= q <= k,
                        found ==> exists|a: int| 0 <= a < names@.len() && names@[a]@ == m@,
                        !found ==> forall|a: int| 0 <= a < q ==> names@[a]@ != m@,
                    decreases k - q,
                {
                    if crate::hir::str_equal(names[q].as_str(), m.as_str()) {
                        found = true;
                    }
                    q += 1;
                }
                if !found {
                    let ghost before = names@;
                    names.push(m);
                    assert(names@[k as int] == m);
                    assert forall|a: int| 0 <= a < names@.len() implies is_native_module(ds@, #[trigger] names@[a]@) by {
                        if a < k {
                            assert(names@[a] == before[a]);
                        }
                    }
                    assert forall|j: int|
                        0 <= j < i && (#[trigger] module_of(ds@[j].name@)) is Some implies exists|a: int|
                        0 <= a < names@.len() && Some(names@[a]@) == module_of(ds@[j].name@) by {
                        let a = choose|a: int| 0 <= a < before.len() && Some(before[a]@) == module_of(ds@[j].name@);
                        assert(names@[a] == before[a]);
                    }
                }
            }
            i += 1;
        }
        // each module with its functions and structs
        let mut r: Vec<NativeModule> = Vec::new();
        let k = names.len();
        let mut a: usize = 0;
        while a < k
            invariant
                n == ds@.len(),
                ds@ == self.descriptors(),
                k == names@.len(),
                0 <= a <= k,
                self.wf(),
                r@.len() == a,
                forall|x: int, y: int|
                    0 <= x < names@.len() && 0 <= y < names@.len() && x != y ==> names@[x]@ != names@[y]@,
                forall|x: int| 0 <= x < names@.len() ==> is_native_module(ds@, #[trigger] names@[x]@),
                forall|x: int| 0 <= x < a ==> (#[trigger] r@[x]).name@ == names@[x]@,
                forall|x: int|
                    0 <= x < a ==> {
                        let nm = #[trigger] r@[x];
                        &&& distinct_keys(nm.functions@)
                        &&& keyed_map(nm.functions@) == module_function_map(self.descriptors(), nm.name@)
                        &&& if self.struct_registry().contains_key(nm.name@) {
                            Seq::new(nm.structs@.len(), |q: int| info_view(nm.structs@[q])) == self.struct_registry()[nm.name@]
                        } else {
                            nm.structs@.len() == 0
                        }
                    },
            decreases k - a,
        {
            let name = &names[a];
            let mut functions: Vec<(String, EntityId)> = Vec::new();
            let mut j: usize = 0;
            assert(ds@.take(0) =~= Seq::<NativeFunctionDescriptor>::empty());
            while j < n
                invariant
                    n == ds@.len(),
                    0 <= j <= n,
                    distinct_keys(functions@),
                    keyed_map(functions@) == module_function_map(ds@.take(j as int), name@),
                decreases n - j,
            {
                assert(ds@.take(j + 1).drop_last() =~= ds@.take(j as int));
                assert(ds@.take(j + 1).last() == ds@[j as int]);
                if let Some((dm, f)) = split_qualified(ds[j].name.as_str()) {
                    if crate::hir::str_equal(dm.as_str(), name.as_str()) {
                        upsert(&mut functions, f, ds[j].id);
                    }
                }
                j += 1;
            }
            assert(ds@.take(n as int) =~= ds@);
            // the structs recorded for the module's path
            let entries = &self.registered_structs;
            let ne = entries.len();
            let mut e: usize = 0;
            let mut structs: Vec<ModuleStructInfo> = Vec::new();
            let mut found = false;
            while e < ne && !found
                invariant
                    ne == entries@.len(),
                    *entries == self.registered_structs,
                    0 <= e <= ne,
                    self.wf(),
                    !found ==> structs@.len() == 0,
                    !found ==> forall|x: int| 0 <= x < e ==> entries@[x].0@ != name@,
                    found ==> self.struct_registry().contains_key(name@) && Seq::new(
                        structs@.len(),
                        |q: int| info_view(structs@[q]),
                    ) == self.struct_registry()[name@],
                decreases ne - e, if found { 0nat } else { 1nat },
            {
                if crate::hir::str_equal(entries[e].0.as_str(), name.as_str()) {
                    let infos = &entries[e].1;
                    let ni = infos.len();
                    let mut q: usize = 0;
                    while q < ni
                        invariant
                            ni == infos@.len(),
                            0 <= q <= ni,
                            structs@.len() == q,
                            forall|x: int| 0 <= x < q ==> info_view(#[trigger] structs@[x]) == info_view(infos@[x]),
                        decreases ni - q,
                    {
                        structs.push(copy_info(&infos[q]));
                        q += 1;
                    }
                    proof {
                        lemma_structs_map_lookup(entries@, e as int);
                        assert(Seq::new(structs@.len(), |x: int| info_view(structs@[x])) =~= Seq::new(
                            infos@.len(),
                            |x: int| info_view(infos@[x]),
                        ));
                    }
                    found = true;
                } else {
                    e += 1;
                }
            }
            if !found {
                proof {
                    lemma_structs_map_absent(entries@, name@);
                }
            }
            let nm = NativeModule { name: name.clone(), functions, structs };
            r.push(nm);
            a += 1;
        }
        assert forall|m: Seq<char>| is_native_module(self.descriptors(), m) implies exists|x: int|
            0 <= x < r@.len() && (#[trigger] r@[x]).name@ == m by {
            let j = choose|j: int| 0 <= j < ds@.len() && module_of(#[trigger] ds@[j].name@) == Some(m);
            assert(module_of(ds@[j].name@) is Some);
            let x = choose|x: int| 0 <= x < names@.len() && Some(names@[x]@) == module_of(ds@[j].name@);
            assert(r@[x].name@ == m);
        }
        r
    }

    /// The descriptors of the registered native functions.
    pub fn native_function_descriptors(&self) -> (r: &Vec<NativeFunctionDescriptor>)
        ensures
            r@ == self.descriptors(),
    {
        &self.native_descriptors
    }

    /// Registers a native function under `name` and returns the identity it
    /// was given: the next native function identity.
    pub fn add_native_function(&mut self, name: &str, signature: FunctionSignature, arity: Arity, func: F) -> (id: EntityId)
        requires
            old(self).wf(),
            old(self).next_id() < NATIVE_TYPE_START,
        ensures
            final(self).wf(),
            id.0 == old(self).next_id(),
            final(self).next_id() == old(self).next_id() + 1,
            final(self).registered().len() == old(self).registered().len() + 1,
            final(self).registered().drop_last() == old(self).registered(),
            final(self).registered().last().0 == id,
            final(self).registered().last().1.arity == arity,
            final(self).registered().last().1.func == func,
            final(self).descriptors().len() == old(self).descriptors().len() + 1,
            final(self).descriptors().drop_last() == old(self).descriptors(),
            final(self).descriptors().last().id == id,
            final(self).descriptors().last().name@ == name@,
            final(self).descriptors().last().signature == signature,
            final(self).descriptors().last().arity == arity,
            final(self).descriptors().last().docs is None,
    {
        let id = self.id_generator.next_native_func();
        self.functions.push((id, NativeFunction { arity, func }));
        self.native_descriptors.push(
            NativeFunctionDescriptor { id, name: String::from_str(name), signature, arity, docs: None },
        );
        id
    }

    /// Registers a native function without a descriptor, so that it is found
    /// only by the module paths its module registers; returns its identity.
    fn add_native_function_no_register(&mut self, arity: Arity, func: F) -> (id: EntityId)
        requires
            old(self).wf(),
            old(self).next_id() < NATIVE_TYPE_START,
        ensures
            final(self).wf(),
            id.0 == old(self).next_id(),
            final(self).next_id() == old(self).next_id() + 1,
            final(self).registered() == old(self).registered().push((id, NativeFunction { arity, func })),
            final(self).descriptors() == old(self).descriptors(),
            final(self).registered_structs@ == old(self).registered_structs@,
    {
        let id = self.id_generator.next_native_func();
        self.functions.push((id, NativeFunction { arity, func }));
        id
    }

    /// Records `structs` as the structs of module path `path`, replacing what
    /// was recorded for it.
    fn insert_structs(&mut self, path: String, structs: Vec<ModuleStructInfo>)
        requires
            old(self).wf(),
        ensures
            final(self).wf(),
            final(self).functions@ == old(self).functions@,
            final(self).native_descriptors@ == old(self).native_descriptors@,
            final(self).id_generator == old(self).id_generator,
            final(self).struct_registry() == old(self).struct_registry().insert(
                path@,
                Seq::new(structs@.len(), |k: int| info_view(structs@[k])),
            ),
    {
        let n = self.registered_structs.len();
        let mut i: usize = 0;
        while i < n
            invariant
                n == self.registered_structs@.len(),
                self.registered_structs@ == old(self).registered_structs@,
                self.functions@ == old(self).functions@,
                self.native_descriptors@ == old(self).native_descriptors@,
                self.id_generator == old(self).id_generator,
                old(self).wf(),
                0 <= i <= n,
                forall|j: int| 0 <= j < i ==> self.registered_structs@[j].0@ != path@,
            decreases n - i,
        {
            if crate::hir::str_equal(self.registered_structs[i].0.as_str(), path.as_str()) {
                let ghost before = self.registered_structs@;
                let entry = (path, structs);
                proof {
                    lemma_structs_map_update(before, i as int, entry);
                }
                self.registered_structs.set(i, entry);
                assert forall|a: int, b: int|
                    0 <= a < b < self.registered_structs@.len() implies self.registered_structs@[a].0@
                    != self.registered_structs@[b].0@ by {
                    assert(before[a].0@ != before[b].0@);
                }
                return;
            }
            i += 1;
        }
        let ghost before = self.registered_structs@;
        self.registered_structs.push((path, structs));
        assert(self.registered_structs@.drop_last() =~= before);
    }

    /// Loads module `module`, found under `base_path`, into the engine: each
    /// of its functions is registered with the next identity and described
    /// twice, under its path name and under its bare name; then each
    /// submodule is registered under the module's path.
    pub fn load_stdlib(&mut self, module: &StdModule<F>, base_path: &str)
        requires
            old(self).wf(),
            old(self).next_id() + module_functions(*module, base_path@).len() <= NATIVE_TYPE_START,
        ensures
            final(self).wf(),
            load_effect(*old(self), *final(self), module_functions(*module, base_path@)),
            final(self).struct_registry() == apply_regs(old(self).struct_registry(), load_regs(*module, base_path@)),
        decreases module, 0nat,
    {
        let mpath = qualified_module_name(base_path, module.name);
        let ghost path = mpath@;
        let ghost own = own_functions(module.functions@, path);
        let ghost all = module_functions(*module, base_path@);
        let ghost start = *self;
        proof {
            lemma_load_nothing(start);
            assert(own.take(0) =~= Seq::<(Seq<char>, StdFunction<F>)>::empty());
        }
        let n = module.functions.len();
        let mut i: usize = 0;
        while i < n
            invariant
                self.wf(),
                n == module.functions@.len(),
                0 <= i <= n,
                path == mpath@,
                own == own_functions(module.functions@, path),
                all == own + submodules_functions(module.submodules@, path),
                start.next_id() + all.len() <= NATIVE_TYPE_START,
                load_effect(start, *self, own.take(i as int)),
                self.struct_registry() == start.struct_registry(),
            decreases n - i,
        {
            let func = &module.functions[i];
            let ghost before = *self;
            let imp = func.impl_fn.clone();
            let id = self.add_native_function_no_register(func.arity, imp);
            let qualified = join_dot(mpath.as_str(), func.name);
            self.native_descriptors.push(
                NativeFunctionDescriptor {
                    id,
                    name: qualified,
                    signature: func.signature.copy(),
                    arity: func.arity,
                    docs: copy_docs(&func.docs),
                },
            );
            self.native_descriptors.push(
                NativeFunctionDescriptor {
                    id,
                    name: String::from_str(func.name),
                    signature: func.signature.copy(),
                    arity: func.arity,
                    docs: copy_docs(&func.docs),
                },
            );
            proof {
                let step = seq![own[i as int]];
                assert(own[i as int] == (path, *func));
                assert(self.registered().subrange(0, before.registered().len() as int) =~= before.registered());
                assert(self.descriptors().subrange(0, before.descriptors().len() as int) =~= before.descriptors());
                assert(load_effect(before, *self, step));
                lemma_load_then(start, before, *self, own.take(i as int), step);
                assert(own.take(i as int) + step =~= own.take(i + 1));
            }
            i += 1;
        }
        assert(own.take(n as int) =~= own);
        let ghost subs = module.submodules@;
        proof {
            assert(subs.take(0) =~= Seq::<StdModule<F>>::empty());
            assert(own + submodules_functions(subs.take(0), path) =~= own);
            assert(apply_regs(start.struct_registry(), submodules_regs(subs.take(0), path)) == start.struct_registry());
        }
        let m = module.submodules.len();
        let mut j: usize = 0;
        while j < m
            invariant
                self.wf(),
                m == subs.len(),
                subs == module.submodules@,
                0 <= j <= m,
                path == mpath@,
                all == own + submodules_functions(subs, path),
                start.next_id() + all.len() <= NATIVE_TYPE_START,
                load_effect(start, *self, own + submodules_functions(subs.take(j as int), path)),
                self.struct_registry() == apply_regs(start.struct_registry(), submodules_regs(subs.take(j as int), path)),
            decreases m - j,
        {
            let sub = &module.submodules[j];
            let ghost before = *self;
            let ghost done = own + submodules_functions(subs.take(j as int), path);
            proof {
                assert(subs.take(j + 1).drop_last() =~= subs.take(j as int));
                assert(subs.take(j + 1).last() == *sub);
                lemma_submodules_prefix(subs, path, j + 1);
                assert(done + module_functions(*sub, path) =~= own + submodules_functions(subs.take(j + 1), path));
            }
            self.register_module(sub, mpath.as_str());
            proof {
                lemma_load_then(start, before, *self, done, module_functions(*sub, path));
                lemma_apply_then(start.struct_registry(), submodules_regs(subs.take(j as int), path), register_regs(*sub, path));
            }
            j += 1;
        }
        assert(subs.take(m as int) =~= subs);
    }

    /// Registers module `module`, found under `base_path`: records its structs
    /// under its path, if it has any, then loads it.
    pub fn register_module(&mut self, module: &StdModule<F>, base_path: &str)
        requires
            old(self).wf(),
            old(self).next_id() + module_functions(*module, base_path@).len() <= NATIVE_TYPE_START,
        ensures
            final(self).wf(),
            load_effect(*old(self), *final(self), module_functions(*module, base_path@)),
            final(self).struct_registry() == apply_regs(old(self).struct_registry(), register_regs(*module, base_path@)),
        decreases module, 1nat,
    {
        let mpath = qualified_module_name(base_path, module.name);
        let structs = struct_infos(&module.structs);
        let ghost start = *self;
        let ghost own: Seq<(Seq<char>, Seq<StructView>)> = if module.structs@.len() > 0 {
            seq![(mpath@, Seq::new(module.structs@.len(), |k: int| std_struct_view(module.structs@[k])))]
        } else {
            Seq::empty()
        };
        if structs.len() > 0 {
            assert(Seq::new(structs@.len(), |k: int| info_view(structs@[k])) =~= own[0].1);
            self.insert_structs(mpath, structs);
            assert(own.drop_last() =~= Seq::<(Seq<char>, Seq<StructView>)>::empty());
            assert(apply_regs(start.struct_registry(), own.drop_last()) == start.struct_registry());
            assert(own.last() == own[0]);
            assert(self.struct_registry() == apply_regs(start.struct_registry(), own));
        }
        self.load_stdlib(module, base_path);
        proof {
            lemma_apply_then(start.struct_registry(), own, load_regs(*module, base_path@));
        }
    }

    /// Registers each of `modules` at the top level, in order.
    pub fn register_modules(&mut self, modules: &[&StdModule<F>])
        requires
            old(self).wf(),
            old(self).next_id() + top_functions(modules@).len() <= NATIVE_TYPE_START,
        ensures
            final(self).wf(),
            load_effect(*old(self), *final(self), top_functions(modules@)),
            final(self).struct_registry() == apply_regs(old(self).struct_registry(), top_regs(modules@)),
    {
        let ghost start = *self;
        let ghost ms = modules@;
        proof {
            lemma_load_nothing(start);
            assert(ms.take(0) =~= Seq::<&StdModule<F>>::empty());
        }
        let n = modules.len();
        let mut i: usize = 0;
        while i < n
            invariant
                self.wf(),
                n == ms.len(),
                ms == modules@,
                0 <= i <= n,
                start.next_id() + top_functions(ms).len() <= NATIVE_TYPE_START,
                load_effect(start, *self, top_functions(ms.take(i as int))),
                self.struct_registry() == apply_regs(start.struct_registry(), top_regs(ms.take(i as int))),
            decreases n - i,
        {
            let module = modules[i];
            let ghost before = *self;
            proof {
                assert(ms.take(i + 1).drop_last() =~= ms.take(i as int));
                lemma_top_prefix(ms, i + 1);
            }
            proof {
                reveal_strlit("");
                assert(""@ =~= Seq::<char>::empty());
            }
            self.register_module(module, "");
            proof {
                lemma_load_then(start, before, *self, top_functions(ms.take(i as int)), module_functions(*module, Seq::empty()));
                lemma_apply_then(start.struct_registry(), top_regs(ms.take(i as int)), register_regs(*module, Seq::empty()));
            }
            i += 1;
        }
        assert(ms.take(n as int) =~= ms);
    }
}

/// The functions of the first `i` top-level modules are no more than those
/// of all.
proof fn lemma_top_prefix<F>(ms: Seq<&StdModule<F>>, i: int)
    requires
        0 <= i <= ms.len(),
    ensures
        top_functions(ms.take(i)).len() <= top_functions(ms).len(),
    decreases ms.len(),
{
    if i == ms.len() {
        assert(ms.take(i) =~= ms);
    } else {
        lemma_top_prefix(ms.drop_last(), i);
        assert(ms.drop_last().take(i) =~= ms.take(i));
    }
}

/// Registering modules in turn: the effect of registering modules `ms`
/// and then registering module `m` at the top is the effect of registering
/// the modules `ms` followed by `m` at once, on the functions and
/// descriptors and on the struct registry alike.
pub proof fn lemma_register_in_turn<F: Clone>(
    a: Engine<F>,
    b: Engine<F>,
    c: Engine<F>,
    ms: Seq<&StdModule<F>>,
    m: &StdModule<F>,
)
    requires
        load_effect(a, b, top_functions(ms)),
        b.struct_registry() == apply_regs(a.struct_registry(), top_regs(ms)),
        load_effect(b, c, module_functions(*m, Seq::empty())),
        c.struct_registry() == apply_regs(b.struct_registry(), register_regs(*m, Seq::empty())),
    ensures
        load_effect(a, c, top_functions(ms.push(m))),
        c.struct_registry() == apply_regs(a.struct_registry(), top_regs(ms.push(m))),
{
    assert(ms.push(m).drop_last() =~= ms);
    lemma_load_then(a, b, c, top_functions(ms), module_functions(*m, Seq::empty()));
    lemma_apply_then(a.struct_registry(), top_regs(ms), register_regs(*m, Seq::empty()));
}

} // verus!
