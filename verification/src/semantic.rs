//! Matching identifier occurrences to symbols by name, for the semantic index.
use vstd::prelude::*;
use crate::hir::{HirSpan, str_equal};
use crate::engine::{qualified_parts, split_qualified};

verus! {

/// A symbol as the semantic index sees it: its identity, its name (qualified
/// for built-ins, such as `std.print`) and where it is defined, if in source.
#[derive(Debug, Clone)]
pub struct SymbolEntry {
    pub id: u32,
    pub name: String,
    pub defined_at: Option<HirSpan>,
}

/// `sym_name` is qualified and its part after the first dot is `name`.
pub open spec fn unqualified_is(sym_name: Seq<char>, name: Seq<char>) -> bool {
    qualified_parts(sym_name) matches Some((_, f)) && f == name
}

/// The first symbol from `i` on named `key`.
pub open spec fn first_named(syms: Seq<SymbolEntry>, key: Seq<char>, i: int) -> Option<int>
    decreases syms.len() - i,
{
    if i < 0 || i >= syms.len() {
        None
    } else if syms[i].name@ == key {
        Some(i)
    } else {
        first_named(syms, key, i + 1)
    }
}

/// The first symbol from `i` on named `key` and defined in source.
pub open spec fn first_defined(syms: Seq<SymbolEntry>, key: Seq<char>, i: int) -> Option<int>
    decreases syms.len() - i,
{
    if i < 0 || i >= syms.len() {
        None
    } else if syms[i].name@ == key && syms[i].defined_at is Some {
        Some(i)
    } else {
        first_defined(syms, key, i + 1)
    }
}

/// The first symbol from `i` on whose unqualified name is `name`.
pub open spec fn first_unqualified(syms: Seq<SymbolEntry>, name: Seq<char>, i: int) -> Option<int>
    decreases syms.len() - i,
{
    if i < 0 || i >= syms.len() {
        None
    } else if unqualified_is(syms[i].name@, name) {
        Some(i)
    } else {
        first_unqualified(syms, name, i + 1)
    }
}

/// The symbol name an identifier `name` is looked up under: `name` itself
/// when a symbol has it; else the qualified name of the first symbol whose
/// unqualified name it is; else none.
pub open spec fn lookup_key(syms: Seq<SymbolEntry>, name: Seq<char>) -> Option<Seq<char>> {
    if first_named(syms, name, 0) is Some {
        Some(name)
    } else {
        match first_unqualified(syms, name, 0) {
            Some(i) => Some(syms[i].name@),
            None => None,
        }
    }
}

/// The symbol an identifier `name` refers to: among the symbols under its
/// lookup name, the first defined in source, else the first.
pub open spec fn best_symbol(syms: Seq<SymbolEntry>, name: Seq<char>) -> Option<int> {
    match lookup_key(syms, name) {
        None => None,
        Some(k) => if first_defined(syms, k, 0) is Some {
            first_defined(syms, k, 0)
        } else {
            first_named(syms, k, 0)
        },
    }
}

/// The first symbol named `key`.
fn find_named(syms: &[SymbolEntry], key: &str) -> (r: Option<usize>)
    ensures
        match r {
            Some(i) => first_named(syms@, key@, 0) == Some(i as int),
            None => first_named(syms@, key@, 0) is None,
        },
{
    let n = syms.len();
    let mut i: usize = 0;
    while i < n
        invariant
            n == syms@.len(),
            0 <= i <= n,
            first_named(syms@, key@, 0) == first_named(syms@, key@, i as int),
        decreases n - i,
    {
        if str_equal(syms[i].name.as_str(), key) {
            return Some(i);
        }
        i += 1;
    }
    None
}

/// The first symbol named `key` and defined in source.
fn find_defined(syms: &[SymbolEntry], key: &str) -> (r: Option<usize>)
    ensures
        match r {
            Some(i) => first_defined(syms@, key@, 0) == Some(i as int),
            None => first_defined(syms@, key@, 0) is None,
        },
{
    let n = syms.len();
    let mut i: usize = 0;
    while i < n
        invariant
            n == syms@.len(),
            0 <= i <= n,
            first_defined(syms@, key@, 0) == first_defined(syms@, key@, i as int),
        decreases n - i,
    {
        if syms[i].defined_at.is_some() && str_equal(syms[i].name.as_str(), key) {
            return Some(i);
        }
        i += 1;
    }
    None
}

/// The first symbol whose unqualified name is `name`.
fn find_unqualified(syms: &[SymbolEntry], name: &str) -> (r: Option<usize>)
    ensures
        match r {
            Some(i) => first_unqualified(syms@, name@, 0) == Some(i as int),
            None => first_unqualified(syms@, name@, 0) is None,
        },
{
    let n = syms.len();
    let mut i: usize = 0;
    while i < n
        invariant
            n == syms@.len(),
            0 <= i <= n,
            first_unqualified(syms@, name@, 0) == first_unqualified(syms@, name@, i as int),
        decreases n - i,
    {
        let found = match split_qualified(syms[i].name.as_str()) {
            Some((_, f)) => str_equal(f.as_str(), name),
            None => false,
        };
        if found {
            return Some(i);
        }
        i += 1;
    }
    None
}

/// The position of the symbol that identifier `name` refers to. Symbols
/// named `name` are looked at first; when there are none, those under the
/// qualified name of the first symbol whose part after the first dot is
/// `name` (a built-in such as `std.print` called as `print`). Among them the
/// first defined in source is preferred, else the first is taken.
pub fn best_symbol_for(syms: &[SymbolEntry], name: &str) -> (r: Option<usize>)
    ensures
        match r {
            Some(i) => best_symbol(syms@, name@) == Some(i as int),
            None => best_symbol(syms@, name@) is None,
        },
{
    let key: &str = match find_named(syms, name) {
        Some(_) => name,
        None => match find_unqualified(syms, name) {
            Some(i) => {
                proof {
                    lemma_first_unqualified_in(syms@, name@, 0);
                }
                syms[i].name.as_str()
            },
            None => {
                return None;
            },
        },
    };
    match find_defined(syms, key) {
        Some(i) => Some(i),
        None => find_named(syms, key),
    }
}

/// What the search for an unqualified name finds lies in the list.
proof fn lemma_first_unqualified_in(syms: Seq<SymbolEntry>, name: Seq<char>, i: int)
    ensures
        first_unqualified(syms, name, i) matches Some(k) ==> 0 <= k < syms.len(),
    decreases syms.len() - i,
{
    if 0 <= i < syms.len() && !unqualified_is(syms[i].name@, name) {
        lemma_first_unqualified_in(syms, name, i + 1);
    }
}

/// The spans defined by the first `k` symbols, each mapped to its symbol; a
/// later definition at a span replaces an earlier one.
pub open spec fn definitions_map(syms: Seq<SymbolEntry>, k: int) -> Map<HirSpan, u32>
    decreases k,
{
    if k <= 0 || k > syms.len() {
        Map::empty()
    } else {
        let m = definitions_map(syms, k - 1);
        match syms[k - 1].defined_at {
            Some(d) => m.insert(d, syms[k - 1].id),
            None => m,
        }
    }
}

/// `m` with each of `spans` that it does not map yet mapped to `id`.
pub open spec fn add_references(m: Map<HirSpan, u32>, spans: Seq<HirSpan>, id: u32) -> Map<HirSpan, u32>
    decreases spans.len(),
{
    if spans.len() == 0 {
        m
    } else {
        let before = add_references(m, spans.drop_last(), id);
        if before.contains_key(spans.last()) {
            before
        } else {
            before.insert(spans.last(), id)
        }
    }
}

/// The semantic index's map from spans to symbols after the first `k`
/// identifier groups: the definitions first, then every occurrence of each
/// identifier that resolves to a symbol and is not mapped yet.
pub open spec fn index_map(syms: Seq<SymbolEntry>, groups: Seq<(String, Vec<HirSpan>)>, k: int) -> Map<
    HirSpan,
    u32,
>
    decreases k,
{
    if k <= 0 || k > groups.len() {
        definitions_map(syms, syms.len() as int)
    } else {
        let m = index_map(syms, groups, k - 1);
        match best_symbol(syms, groups[k - 1].0@) {
            Some(i) => add_references(m, groups[k - 1].1@, syms[i].id),
            None => m,
        }
    }
}

/// Pairs by span, from a list with distinct spans.
pub open spec fn span_table(entries: Seq<(HirSpan, u32)>) -> Map<HirSpan, u32>
    decreases entries.len(),
{
    if entries.len() == 0 {
        Map::empty()
    } else {
        span_table(entries.drop_last()).insert(entries.last().0, entries.last().1)
    }
}

/// The spans of `entries` are distinct.
pub open spec fn distinct_spans(entries: Seq<(HirSpan, u32)>) -> bool {
    forall|a: int, b: int| 0 <= a < entries.len() && 0 <= b < entries.len() && a != b ==> entries[a].0 != entries[b].0
}

/// A span is in the table exactly when an entry has it.
proof fn lemma_span_table_keys(entries: Seq<(HirSpan, u32)>, k: HirSpan)
    ensures
        span_table(entries).contains_key(k) <==> exists|i: int| 0 <= i < entries.len() && entries[i].0 == k,
    decreases entries.len(),
{
    if entries.len() > 0 {
        let init = entries.drop_last();
        lemma_span_table_keys(init, k);
        if span_table(init).contains_key(k) {
            let i = choose|i: int| 0 <= i < init.len() && init[i].0 == k;
            assert(entries[i] == init[i]);
        }
        if exists|i: int| 0 <= i < entries.len() && entries[i].0 == k {
            let i = choose|i: int| 0 <= i < entries.len() && entries[i].0 == k;
            if i < init.len() {
                assert(init[i] == entries[i]);
            }
        }
    }
}

/// Replacing the symbol of one span replaces it in the table.
proof fn lemma_span_table_update(entries: Seq<(HirSpan, u32)>, i: int, pair: (HirSpan, u32))
    requires
        distinct_spans(entries),
        0 <= i < entries.len(),
        pair.0 == entries[i].0,
    ensures
        span_table(entries.update(i, pair)) == span_table(entries).insert(pair.0, pair.1),
    decreases entries.len(),
{
    let upd = entries.update(i, pair);
    if i == entries.len() - 1 {
        assert(upd.drop_last() =~= entries.drop_last());
        assert(span_table(upd) =~= span_table(entries).insert(pair.0, pair.1));
    } else {
        assert(upd.drop_last() =~= entries.drop_last().update(i, pair));
        assert(distinct_spans(entries.drop_last()));
        lemma_span_table_update(entries.drop_last(), i, pair);
        assert(entries.last().0 != entries[i].0);
        assert(span_table(upd) =~= span_table(entries).insert(pair.0, pair.1));
    }
}

/// Maps `span` to `id`: in place when an entry has the span, else by
/// appending; or, with `keep`, only when no entry has it.
fn put_span(entries: &mut Vec<(HirSpan, u32)>, span: HirSpan, id: u32, keep: bool)
    requires
        distinct_spans(old(entries)@),
    ensures
        distinct_spans(final(entries)@),
        span_table(final(entries)@) == if keep && span_table(old(entries)@).contains_key(span) {
            span_table(old(entries)@)
        } else {
            span_table(old(entries)@).insert(span, id)
        },
{
    proof {
        lemma_span_table_keys(entries@, span);
    }
    let n = entries.len();
    let mut i: usize = 0;
    while i < n
        invariant
            n == entries@.len(),
            entries@ == old(entries)@,
            distinct_spans(old(entries)@),
            0 <= i <= n,
            forall|j: int| 0 <= j < i ==> entries@[j].0 != span,
        decreases n - i,
    {
        if entries[i].0 == span {
            if keep {
                proof {
                    let w = i as int;
                    assert(0 <= w < old(entries)@.len() && old(entries)@[w].0 == span);
                    lemma_span_table_keys(old(entries)@, span);
                }
                return;
            }
            let ghost before = entries@;
            let pair = (span, id);
            proof {
                lemma_span_table_update(before, i as int, pair);
            }
            entries.set(i, pair);
            assert forall|a: int, b: int|
                0 <= a < entries@.len() && 0 <= b < entries@.len() && a != b implies entries@[a].0
                != entries@[b].0 by {
                assert(before[a].0 != before[b].0);
            }
            return;
        }
        i += 1;
    }
    let ghost before = entries@;
    entries.push((span, id));
    assert(entries@.drop_last() =~= before);
}

/// The semantic index's map from spans to symbol identities: the span of
/// each symbol's definition, a later definition at a span replacing an
/// earlier one; then, group by group in order, every occurrence of an
/// identifier that resolves to a symbol (see `best_symbol_for`) and is not
/// mapped yet, mapped to that symbol. No span occurs twice in the result.
pub fn semantic_index(syms: &[SymbolEntry], groups: &[(String, Vec<HirSpan>)]) -> (r: Vec<(HirSpan, u32)>)
    ensures
        distinct_spans(r@),
        span_table(r@) == index_map(syms@, groups@, groups@.len() as int),
{
    let mut out: Vec<(HirSpan, u32)> = Vec::new();
    let n = syms.len();
    let mut i: usize = 0;
    assert(span_table(out@) =~= definitions_map(syms@, 0));
    while i < n
        invariant
            n == syms@.len(),
            0 <= i <= n,
            distinct_spans(out@),
            span_table(out@) == definitions_map(syms@, i as int),
        decreases n - i,
    {
        match syms[i].defined_at {
            Some(d) => {
                put_span(&mut out, d, syms[i].id, false);
            },
            None => {},
        }
        i += 1;
    }
    let m = groups.len();
    let mut g: usize = 0;
    while g < m
        invariant
            n == syms@.len(),
            m == groups@.len(),
            0 <= g <= m,
            distinct_spans(out@),
            span_table(out@) == index_map(syms@, groups@, g as int),
        decreases m - g,
    {
        match best_symbol_for(syms, groups[g].0.as_str()) {
            Some(k) => {
                proof {
                    lemma_best_in(syms@, groups@[g as int].0@);
                }
                let id = syms[k].id;
                let spans = &groups[g].1;
                let ghost base = index_map(syms@, groups@, g as int);
                let c = spans.len();
                let mut j: usize = 0;
                assert(spans@.subrange(0, 0) =~= Seq::<HirSpan>::empty());
                while j < c
                    invariant
                        c == spans@.len(),
                        0 <= j <= c,
                        distinct_spans(out@),
                        span_table(out@) == add_references(base, spans@.subrange(0, j as int), id),
                    decreases c - j,
                {
                    assert(spans@.subrange(0, j + 1).drop_last() =~= spans@.subrange(0, j as int));
                    put_span(&mut out, spans[j], id, true);
                    j += 1;
                }
                assert(spans@.subrange(0, c as int) =~= spans@);
            },
            None => {},
        }
        g += 1;
    }
    out
}

/// The symbol an identifier refers to lies in the list.
proof fn lemma_best_in(syms: Seq<SymbolEntry>, name: Seq<char>)
    ensures
        best_symbol(syms, name) matches Some(k) ==> 0 <= k < syms.len(),
{
    match lookup_key(syms, name) {
        Some(key) => {
            lemma_first_defined_in(syms, key, 0);
            lemma_first_named_in(syms, key, 0);
        },
        None => {},
    }
}

/// What the search for a defined symbol finds lies in the list.
proof fn lemma_first_defined_in(syms: Seq<SymbolEntry>, key: Seq<char>, i: int)
    ensures
        first_defined(syms, key, i) matches Some(k) ==> 0 <= k < syms.len(),
    decreases syms.len() - i,
{
    if 0 <= i < syms.len() && !(syms[i].name@ == key && syms[i].defined_at is Some) {
        lemma_first_defined_in(syms, key, i + 1);
    }
}

/// What the search for a named symbol finds lies in the list.
proof fn lemma_first_named_in(syms: Seq<SymbolEntry>, key: Seq<char>, i: int)
    ensures
        first_named(syms, key, i) matches Some(k) ==> 0 <= k < syms.len(),
    decreases syms.len() - i,
{
    if 0 <= i < syms.len() && syms[i].name@ != key {
        lemma_first_named_in(syms, key, i + 1);
    }
}

} // verus!
