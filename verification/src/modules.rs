//! Module dependency ordering: which modules a program imports, and an
//! initialisation order in which every module comes after the modules it
//! depends on, or a dependency cycle when there is none.
use vstd::prelude::*;
use crate::ast::{Program, Statement};

verus! {

/// The modules a list of statements imports: the first component of each
/// `use` path, in order.
pub open spec fn stmts_use_deps(stmts: Seq<Statement>) -> Seq<String>
    decreases stmts.len(),
{
    if stmts.len() == 0 {
        Seq::empty()
    } else {
        stmts_use_deps(stmts.drop_last()) + match stmts.last() {
            Statement::Use { path, .. } => if path@.len() > 0 {
                seq![path@[0]]
            } else {
                Seq::empty()
            },
            _ => Seq::empty(),
        }
    }
}

/// The modules the blocks of a program import, in order.
pub open spec fn blocks_use_deps(blocks: Seq<crate::ast::Block>) -> Seq<String>
    decreases blocks.len(),
{
    if blocks.len() == 0 {
        Seq::empty()
    } else {
        blocks_use_deps(blocks.drop_last()) + stmts_use_deps(blocks.last().statements@)
    }
}

/// The modules `ast` imports: the first component of every `use` path in its
/// top-level blocks, in order (for `use utils.add` this is `utils`).
pub fn extract_module_dependencies(ast: &Program) -> (deps: Vec<String>)
    ensures
        deps@ == blocks_use_deps(ast.blocks@),
{
    let mut deps: Vec<String> = Vec::new();
    let nb = ast.blocks.len();
    let mut b: usize = 0;
    while b < nb
        invariant
            0 <= b <= nb,
            nb == ast.blocks@.len(),
            deps@ == blocks_use_deps(ast.blocks@.subrange(0, b as int)),
        decreases nb - b,
    {
        let stmts = &ast.blocks[b].statements;
        let ghost before = deps@;
        let ns = stmts.len();
        let mut s: usize = 0;
        while s < ns
            invariant
                0 <= s <= ns,
                ns == stmts@.len(),
                deps@ == before + stmts_use_deps(stmts@.subrange(0, s as int)),
            decreases ns - s,
        {
            assert(stmts@.subrange(0, s + 1).drop_last() =~= stmts@.subrange(0, s as int));
            if let Statement::Use { path, .. } = &stmts[s] {
                if path.len() > 0 {
                    deps.push(path[0].clone());
                }
            }
            assert(deps@ =~= before + stmts_use_deps(stmts@.subrange(0, s + 1)));
            s += 1;
        }
        assert(stmts@.subrange(0, ns as int) =~= stmts@);
        assert(ast.blocks@.subrange(0, b + 1).drop_last() =~= ast.blocks@.subrange(0, b as int));
        assert(deps@ =~= blocks_use_deps(ast.blocks@.subrange(0, b + 1)));
        b += 1;
    }
    assert(ast.blocks@.subrange(0, nb as int) =~= ast.blocks@);
    deps
}

/// The name declared by the first `mod` statement of a list, if any.
pub open spec fn stmts_module_name(stmts: Seq<Statement>) -> Option<Seq<char>>
    decreases stmts.len(),
{
    if stmts.len() == 0 {
        None
    } else {
        match stmts[0] {
            Statement::Mod { identifier } => Some(identifier@),
            _ => stmts_module_name(stmts.drop_first()),
        }
    }
}

/// The name declared by the first `mod` statement of a program's blocks, in
/// order, if any.
pub open spec fn blocks_module_name(blocks: Seq<crate::ast::Block>) -> Option<Seq<char>>
    decreases blocks.len(),
{
    if blocks.len() == 0 {
        None
    } else {
        match stmts_module_name(blocks[0].statements@) {
            Some(n) => Some(n),
            None => blocks_module_name(blocks.drop_first()),
        }
    }
}

/// The module name `ast` declares: that of its first `mod` statement, or
/// `None` when it has none.
pub fn extract_module_name_from_ast(ast: &Program) -> (r: Option<String>)
    ensures
        r.is_some() == blocks_module_name(ast.blocks@).is_some(),
        r matches Some(n) ==> blocks_module_name(ast.blocks@) == Some(n@),
{
    let nb = ast.blocks.len();
    let mut b: usize = 0;
    assert(ast.blocks@.subrange(0, nb as int) =~= ast.blocks@);
    while b < nb
        invariant
            0 <= b <= nb,
            nb == ast.blocks@.len(),
            blocks_module_name(ast.blocks@.subrange(b as int, nb as int)) == blocks_module_name(ast.blocks@),
        decreases nb - b,
    {
        let stmts = &ast.blocks[b].statements;
        let ns = stmts.len();
        let mut s: usize = 0;
        assert(stmts@.subrange(0, ns as int) =~= stmts@);
        while s < ns
            invariant
                0 <= s <= ns,
                0 <= b < nb,
                nb == ast.blocks@.len(),
                *stmts == ast.blocks@[b as int].statements,
                ns == stmts@.len(),
                stmts_module_name(stmts@.subrange(s as int, ns as int)) == stmts_module_name(stmts@),
                blocks_module_name(ast.blocks@.subrange(b as int, nb as int)) == blocks_module_name(ast.blocks@),
            decreases ns - s,
        {
            assert(stmts@.subrange(s as int, ns as int)[0] == stmts@[s as int]);
            if let Statement::Mod { identifier } = &stmts[s] {
                let ghost rest = ast.blocks@.subrange(b as int, nb as int);
                assert(rest[0] == ast.blocks@[b as int]);
                return Some(identifier.clone());
            }
            assert(stmts@.subrange(s as int, ns as int).drop_first() =~= stmts@.subrange(s + 1, ns as int));
            s += 1;
        }
        assert(stmts@.subrange(ns as int, ns as int) =~= Seq::<Statement>::empty());
        let ghost rest = ast.blocks@.subrange(b as int, nb as int);
        assert(rest[0] == ast.blocks@[b as int]);
        assert(rest.drop_first() =~= ast.blocks@.subrange(b + 1, nb as int));
        b += 1;
    }
    None
}

/// A dependency graph: each module's name with the names of the modules it
/// imports. Imports of names that are not modules of the graph are ignored.
#[derive(Debug)]
pub struct ModuleGraph {
    pub modules: Vec<(String, Vec<String>)>,
}

/// Module `i` imports module `j`.
pub open spec fn depends_on(mods: Seq<(String, Vec<String>)>, i: int, j: int) -> bool {
    &&& 0 <= i < mods.len()
    &&& 0 <= j < mods.len()
    &&& exists|k: int| 0 <= k < mods[i].1@.len() && (#[trigger] mods[i].1@[k])@ == mods[j].0@
}

/// No two modules share a name.
pub open spec fn names_distinct(mods: Seq<(String, Vec<String>)>) -> bool {
    forall|i: int, j: int|
        0 <= i < mods.len() && 0 <= j < mods.len() && i != j ==> mods[i].0@ != mods[j].0@
}

/// `order` lists every module exactly once, and no module comes at or before a
/// module it imports.
pub open spec fn is_topological_order(mods: Seq<(String, Vec<String>)>, order: Seq<usize>) -> bool {
    &&& order.len() == mods.len()
    &&& forall|p: int| 0 <= p < order.len() ==> order[p] < mods.len()
    &&& forall|p: int, q: int| 0 <= p < q < order.len() ==> order[p] != order[q]
    &&& forall|p: int, q: int|
        0 <= p <= q < order.len() ==> !depends_on(mods, order[p] as int, order[q] as int)
}

/// `c` is a dependency cycle: it starts and ends at the same module and each
/// module in it imports the next.
pub open spec fn is_cycle(mods: Seq<(String, Vec<String>)>, c: Seq<usize>) -> bool {
    &&& c.len() >= 2
    &&& c[0] == c[c.len() - 1]
    &&& forall|k: int| 0 <= k < c.len() - 1 ==> depends_on(mods, c[k] as int, #[trigger] c[k + 1] as int)
}

/// The graph has a dependency cycle.
pub open spec fn has_cycle(mods: Seq<(String, Vec<String>)>) -> bool {
    exists|c: Seq<usize>| is_cycle(mods, c)
}

/// The index of the module named `name`, if any.
fn module_index(mods: &Vec<(String, Vec<String>)>, name: &String) -> (r: Option<usize>)
    ensures
        r matches Some(j) ==> j < mods@.len() && mods@[j as int].0@ == name@,
        r is None ==> forall|j: int| 0 <= j < mods@.len() ==> mods@[j].0@ != name@,
{
    let n = mods.len();
    let mut j: usize = 0;
    while j < n
        invariant
            n == mods@.len(),
            0 <= j <= n,
            forall|k: int| 0 <= k < j ==> mods@[k].0@ != name@,
        decreases n - j,
    {
        if mods[j].0 == *name {
            return Some(j);
        }
        j += 1;
    }
    None
}

/// A module that module `i` imports and that is not yet done, if any.
fn pending_dependency(mods: &Vec<(String, Vec<String>)>, done: &Vec<bool>, i: usize) -> (r: Option<usize>)
    requires
        names_distinct(mods@),
        i < mods@.len(),
        done@.len() == mods@.len(),
    ensures
        r matches Some(j) ==> depends_on(mods@, i as int, j as int) && !done@[j as int],
        r is None ==> forall|j: int| depends_on(mods@, i as int, j) ==> done@[j],
{
    let deps = &mods[i].1;
    let nd = deps.len();
    let mut k: usize = 0;
    while k < nd
        invariant
            nd == deps@.len(),
            deps@ == mods@[i as int].1@,
            0 <= k <= nd,
            i < mods@.len(),
            done@.len() == mods@.len(),
            names_distinct(mods@),
            forall|kk: int, j: int|
                0 <= kk < k && 0 <= j < mods@.len() && deps@[kk]@ == mods@[j].0@ ==> done@[j],
        decreases nd - k,
    {
        match module_index(mods, &deps[k]) {
            Some(j) => {
                if !done[j] {
                    assert(depends_on(mods@, i as int, j as int)) by {
                        assert(mods@[i as int].1@[k as int]@ == mods@[j as int].0@);
                    }
                    return Some(j);
                }
            },
            None => {},
        }
        k += 1;
    }
    None
}

/// Why modules could not be ordered.
#[derive(Debug)]
pub enum ModuleOrderError {
    /// The modules of a dependency cycle, starting and ending with the same one.
    CircularDependency(Vec<String>),
}

/// The names of the modules at `idx`.
fn names_of(mods: &Vec<(String, Vec<String>)>, idx: &Vec<usize>) -> (r: Vec<String>)
    requires
        forall|k: int| 0 <= k < idx@.len() ==> idx@[k] < mods@.len(),
    ensures
        r@.len() == idx@.len(),
        forall|k: int| 0 <= k < idx@.len() ==> r@[k] == mods@[idx@[k] as int].0,
{
    let mut r: Vec<String> = Vec::new();
    let n = idx.len();
    let mut k: usize = 0;
    while k < n
        invariant
            n == idx@.len(),
            0 <= k <= n,
            forall|q: int| 0 <= q < idx@.len() ==> idx@[q] < mods@.len(),
            r@.len() == k,
            forall|q: int| 0 <= q < k ==> r@[q] == mods@[idx@[q] as int].0,
        decreases n - k,
    {
        r.push(mods[idx[k]].0.clone());
        k += 1;
    }
    r
}

/// A sequence of distinct indices below `n` has at most `n` elements.
proof fn lemma_distinct_bounded_len(s: Seq<usize>, n: int)
    requires
        n >= 0,
        forall|q: int| 0 <= q < s.len() ==> s[q] < n,
        forall|q: int, r: int| 0 <= q < r < s.len() ==> s[q] != s[r],
    ensures
        s.len() <= n,
{
    let ints = s.map_values(|v: usize| v as int);
    assert(ints.no_duplicates()) by {
        assert forall|q: int, r: int| 0 <= q < ints.len() && 0 <= r < ints.len() && q != r
            implies ints[q] != ints[r] by {
            if q < r {
                assert(s[q] != s[r]);
            } else {
                assert(s[r] != s[q]);
            }
        }
    }
    ints.unique_seq_to_set();
    vstd::set_lib::lemma_int_range(0, n);
    assert(ints.to_set().subset_of(vstd::set_lib::set_int_range(0, n))) by {
        assert forall|v: int| ints.to_set().contains(v) implies 0 <= v < n by {
            let q = choose|q: int| 0 <= q < ints.len() && ints[q] == v;
        }
    }
    vstd::set_lib::lemma_len_subset(ints.to_set(), vstd::set_lib::set_int_range(0, n));
}

/// A dependency cycle among the modules not yet done, when each of them has a
/// pending dependency and `start` is one of them.
fn find_cycle(mods: &Vec<(String, Vec<String>)>, done: &Vec<bool>, start: usize) -> (c: Vec<usize>)
    requires
        names_distinct(mods@),
        start < mods@.len(),
        done@.len() == mods@.len(),
        !done@[start as int],
        forall|i: int|
            0 <= i < mods@.len() && !done@[i] ==> exists|j: int|
                depends_on(mods@, i, j) && !#[trigger] done@[j],
    ensures
        is_cycle(mods@, c@),
        forall|k: int| 0 <= k < c@.len() ==> c@[k] < mods@.len(),
{
    let n = mods.len();
    let mut path: Vec<usize> = Vec::new();
    path.push(start);
    loop
        invariant
            names_distinct(mods@),
            n == mods@.len(),
            done@.len() == n,
            1 <= path@.len() <= n,
            forall|q: int| 0 <= q < path@.len() ==> path@[q] < n && !done@[path@[q] as int],
            forall|q: int, r: int| 0 <= q < r < path@.len() ==> path@[q] != path@[r],
            forall|q: int|
                0 <= q < path@.len() - 1 ==> depends_on(mods@, path@[q] as int, #[trigger] path@[q + 1] as int),
            forall|i: int|
                0 <= i < mods@.len() && !done@[i] ==> exists|j: int|
                    depends_on(mods@, i, j) && !#[trigger] done@[j],
        decreases n - path@.len(),
    {
        let cur = path[path.len() - 1];
        assert(!done@[cur as int]);
        let next = match pending_dependency(mods, done, cur) {
            Some(j) => j,
            None => {
                assert(false);
                0
            },
        };
        let m = path.len();
        let mut q: usize = 0;
        while q < m && path[q] != next
            invariant
                m == path@.len(),
                0 <= q <= m,
                forall|r: int| 0 <= r < q ==> path@[r] != next,
            decreases m - q,
        {
            q += 1;
        }
        if q < m {
            let mut c: Vec<usize> = Vec::new();
            let mut r: usize = q;
            while r < m
                invariant
                    q <= r <= m,
                    m == path@.len(),
                    q < m,
                    path@[q as int] == next,
                    c@ == path@.subrange(q as int, r as int),
                decreases m - r,
            {
                c.push(path[r]);
                r += 1;
            }
            c.push(next);
            assert(c@ == path@.subrange(q as int, m as int).push(next));
            assert forall|k: int| 0 <= k < c@.len() - 1 implies depends_on(
                mods@,
                c@[k] as int,
                #[trigger] c@[k + 1] as int,
            ) by {
                if k < c@.len() - 2 {
                    assert(c@[k] == path@[q + k]);
                    assert(c@[k + 1] == path@[q + k + 1]);
                } else {
                    assert(c@[k] == path@[m - 1]);
                }
            }
            return c;
        }
        path.push(next);
        proof {
            let pl = path@.len();
            assert forall|qq: int| 0 <= qq < pl - 1 implies depends_on(
                mods@,
                path@[qq] as int,
                #[trigger] path@[qq + 1] as int,
            ) by {
                if qq == pl - 2 {
                    assert(path@[qq] == cur);
                }
            }
            lemma_distinct_bounded_len(path@, n as int);
        }
    }
}

/// Every index below `n` occurs in a sequence of `n` distinct indices below `n`.
proof fn lemma_distinct_bounded_covers(s: Seq<usize>, n: int)
    requires
        n >= 0,
        s.len() == n,
        forall|q: int| 0 <= q < s.len() ==> s[q] < n,
        forall|q: int, r: int| 0 <= q < r < s.len() ==> s[q] != s[r],
    ensures
        forall|v: int| 0 <= v < n ==> placed(s, v),
{
    let ints = s.map_values(|v: usize| v as int);
    assert(ints.no_duplicates()) by {
        assert forall|q: int, r: int| 0 <= q < ints.len() && 0 <= r < ints.len() && q != r
            implies ints[q] != ints[r] by {
            if q < r {
                assert(s[q] != s[r]);
            } else {
                assert(s[r] != s[q]);
            }
        }
    }
    ints.unique_seq_to_set();
    vstd::set_lib::lemma_int_range(0, n);
    let range = vstd::set_lib::set_int_range(0, n);
    assert(ints.to_set().subset_of(range)) by {
        assert forall|v: int| ints.to_set().contains(v) implies range.contains(v) by {
            let q = choose|q: int| 0 <= q < ints.len() && ints[q] == v;
        }
    }
    vstd::set_lib::lemma_subset_equality(ints.to_set(), range);
    assert forall|v: int| 0 <= v < n implies placed(s, v) by {
        assert(range.contains(v));
        assert(ints.to_set().contains(v));
        let q = choose|q: int| 0 <= q < ints.len() && ints[q] == v;
        assert(s[q] == v);
    }
}

/// A sequence in which every index below `n` occurs has at least `n` elements.
proof fn lemma_all_placed_len(s: Seq<usize>, n: int)
    requires
        n >= 0,
        forall|v: int| 0 <= v < n ==> placed(s, v),
    ensures
        s.len() >= n,
{
    let ints = s.map_values(|v: usize| v as int);
    let range = vstd::set_lib::set_int_range(0, n);
    vstd::set_lib::lemma_int_range(0, n);
    assert(range.subset_of(ints.to_set())) by {
        assert forall|v: int| range.contains(v) implies ints.to_set().contains(v) by {
            assert(placed(s, v));
            let p = choose|p: int| 0 <= p < s.len() && s[p] == v;
            assert(ints[p] == v);
            assert(ints.contains(v));
        }
    }
    ints.lemma_cardinality_of_set();
    vstd::seq_lib::seq_to_set_is_finite(ints);
    vstd::set_lib::lemma_len_subset(range, ints.to_set());
}

/// Index `v` occurs in `s`.
spec fn placed(s: Seq<usize>, v: int) -> bool {
    exists|p: int| 0 <= p < s.len() && s[p] == v
}

/// The place of module `v` in a topological order.
spec fn position_in(order: Seq<usize>, v: int) -> int {
    choose|p: int| 0 <= p < order.len() && order[p] == v
}

/// Along a cycle, each module stands strictly before the previous one in a
/// topological order, so every module after the first stands before it.
proof fn lemma_cycle_positions_decrease(
    mods: Seq<(String, Vec<String>)>,
    order: Seq<usize>,
    c: Seq<usize>,
    k: int,
)
    requires
        is_topological_order(mods, order),
        forall|v: int| 0 <= v < mods.len() ==> placed(order, v),
        is_cycle(mods, c),
        1 <= k < c.len(),
    ensures
        c[k] < mods.len(),
        position_in(order, c[k] as int) < position_in(order, c[0] as int),
    decreases k,
{
    let j = k - 1;
    assert(depends_on(mods, c[j] as int, c[j + 1] as int));
    let a = c[k - 1] as int;
    let b = c[k] as int;
    let pa = position_in(order, a);
    let pb = position_in(order, b);
    assert(placed(order, a));
    assert(placed(order, b));
    if pa <= pb {
        assert(!depends_on(mods, order[pa] as int, order[pb] as int));
    }
    if k > 1 {
        lemma_cycle_positions_decrease(mods, order, c, k - 1);
    }
}

/// A graph that has a topological order has no dependency cycle: along a
/// cycle every module would have to come before the one it imports.
pub proof fn lemma_topological_order_excludes_cycle(
    mods: Seq<(String, Vec<String>)>,
    order: Seq<usize>,
)
    requires
        is_topological_order(mods, order),
    ensures
        !has_cycle(mods),
{
    if has_cycle(mods) {
        let c = choose|c: Seq<usize>| is_cycle(mods, c);
        lemma_distinct_bounded_covers(order, mods.len() as int);
        lemma_cycle_positions_decrease(mods, order, c, c.len() - 1);
    }
}

/// Orders the modules so that each comes after the modules it imports, picking
/// at each step the first module whose imports are all placed; when none can
/// be picked, the modules left all wait on one another and a cycle among them
/// is returned.
fn order_modules(mods: &Vec<(String, Vec<String>)>) -> (r: Result<Vec<usize>, Vec<usize>>)
    requires
        names_distinct(mods@),
    ensures
        r matches Ok(order) ==> is_topological_order(mods@, order@),
        r matches Err(c) ==> is_cycle(mods@, c@) && forall|k: int|
            0 <= k < c@.len() ==> c@[k] < mods@.len(),
        r is Ok <==> !has_cycle(mods@),
{
    let n = mods.len();
    let mut done: Vec<bool> = Vec::new();
    let mut t: usize = 0;
    while t < n
        invariant
            0 <= t <= n,
            done@.len() == t,
            forall|q: int| 0 <= q < t ==> !done@[q],
        decreases n - t,
    {
        done.push(false);
        t += 1;
    }
    let mut order: Vec<usize> = Vec::new();
    while order.len() < n
        invariant
            names_distinct(mods@),
            n == mods@.len(),
            done@.len() == n,
            order@.len() <= n,
            forall|p: int| 0 <= p < order@.len() ==> order@[p] < n,
            forall|p: int, q: int| 0 <= p < q < order@.len() ==> order@[p] != order@[q],
            forall|v: int| 0 <= v < n ==> (done@[v] <==> placed(order@, v)),
            forall|p: int, j: int|
                0 <= p < order@.len() && depends_on(mods@, order@[p] as int, j) ==> done@[j],
            forall|p: int, q: int|
                0 <= p < order@.len() && 0 <= q < order@.len() && depends_on(
                    mods@,
                    order@[p] as int,
                    order@[q] as int,
                ) ==> q < p,
        decreases n - order@.len(),
    {
        let mut i: usize = 0;
        let mut found = false;
        while !found && i < n
            invariant
                n == mods@.len(),
                done@.len() == n,
                names_distinct(mods@),
                0 <= i <= n,
                found ==> i < n && !done@[i as int] && forall|j: int|
                    depends_on(mods@, i as int, j) ==> done@[j],
                !found ==> forall|v: int|
                    0 <= v < i && !done@[v] ==> exists|j: int|
                        depends_on(mods@, v, j) && !#[trigger] done@[j],
            decreases n - i, if found { 0int } else { 1int },
        {
            if !done[i] {
                match pending_dependency(mods, &done, i) {
                    None => {
                        found = true;
                    },
                    Some(j) => {
                        i += 1;
                    },
                }
            } else {
                i += 1;
            }
        }
        if !found {
            proof {
                if forall|v: int| 0 <= v < n ==> done@[v] {
                    assert forall|v: int| 0 <= v < n implies placed(order@, v) by {
                        assert(done@[v]);
                    }
                    lemma_all_placed_len(order@, n as int);
                }
            }
            let mut s: usize = 0;
            while s < n && done[s]
                invariant
                    done@.len() == n,
                    0 <= s <= n,
                    exists|v: int| 0 <= v < n && !done@[v],
                    forall|v: int| 0 <= v < s ==> done@[v],
                decreases n - s,
            {
                s += 1;
            }
            let c = find_cycle(mods, &done, s);
            proof {
                assert(has_cycle(mods@));
            }
            return Err(c);
        }
        proof {
            assert forall|p: int| 0 <= p < order@.len() implies order@[p] != i by {
                assert(done@[order@[p] as int]);
            }
        }
        let ghost old_order = order@;
        let ghost old_done = done@;
        order.push(i);
        done.set(i, true);
        proof {
            assert forall|v: int| 0 <= v < n implies (done@[v] <==> placed(order@, v)) by {
                if v == i {
                    assert(order@[old_order.len() as int] == v);
                } else {
                    if done@[v] {
                        let p = choose|p: int| 0 <= p < old_order.len() && old_order[p] == v;
                        assert(order@[p] == v);
                    }
                    if placed(order@, v) {
                        let p = choose|p: int| 0 <= p < order@.len() && order@[p] == v;
                        assert(p < old_order.len());
                        assert(old_order[p] == v);
                    }
                }
            }
            assert forall|p: int, j: int|
                0 <= p < order@.len() && depends_on(mods@, order@[p] as int, j) implies done@[j] by {
                if p < old_order.len() {
                    assert(old_order[p] == order@[p]);
                    assert(old_done[j]);
                } else {
                    assert(old_done[j]);
                }
            }
            assert forall|p: int, q: int|
                0 <= p < order@.len() && 0 <= q < order@.len() && depends_on(
                    mods@,
                    order@[p] as int,
                    order@[q] as int,
                ) implies q < p by {
                let last = old_order.len() as int;
                if p < last && q < last {
                    assert(old_order[p] == order@[p] && old_order[q] == order@[q]);
                } else if p < last && q == last {
                    assert(old_order[p] == order@[p]);
                    assert(old_done[i as int]);
                } else if p == last && q == last {
                    assert(old_done[i as int]);
                }
            }
        }
    }
    proof {
        assert forall|p: int, q: int|
            0 <= p <= q < order@.len() implies !depends_on(mods@, order@[p] as int, order@[q] as int) by {}
        lemma_topological_order_excludes_cycle(mods@, order@);
    }
    Ok(order)
}

/// The names of the modules along `c`.
pub open spec fn cycle_names(mods: Seq<(String, Vec<String>)>, c: Seq<usize>) -> Seq<Seq<char>> {
    c.map_values(|v: usize| mods[v as int].0@)
}

/// Names joined by `" -> "`.
pub open spec fn join_arrows(names: Seq<Seq<char>>) -> Seq<char>
    decreases names.len(),
{
    if names.len() == 0 {
        Seq::empty()
    } else if names.len() == 1 {
        names[0]
    } else {
        join_arrows(names.drop_last()) + " -> "@ + names.last()
    }
}

/// The message that reports the cycle `c`.
pub open spec fn cycle_message(mods: Seq<(String, Vec<String>)>, c: Seq<usize>) -> Seq<char> {
    "Circular dependency detected: "@ + join_arrows(cycle_names(mods, c))
}

/// Builds the message that reports the cycle `c`.
fn describe_cycle(mods: &Vec<(String, Vec<String>)>, c: &Vec<usize>) -> (msg: String)
    requires
        forall|k: int| 0 <= k < c@.len() ==> c@[k] < mods@.len(),
    ensures
        msg@ == cycle_message(mods@, c@),
{
    let ghost names = cycle_names(mods@, c@);
    let mut msg = String::from_str("Circular dependency detected: ");
    let ghost prefix = msg@;
    let n = c.len();
    let mut k: usize = 0;
    while k < n
        invariant
            n == c@.len(),
            0 <= k <= n,
            forall|q: int| 0 <= q < c@.len() ==> c@[q] < mods@.len(),
            names == cycle_names(mods@, c@),
            prefix == "Circular dependency detected: "@,
            msg@ == prefix + join_arrows(names.subrange(0, k as int)),
        decreases n - k,
    {
        let ghost before = names.subrange(0, k as int);
        assert(names.subrange(0, k + 1).drop_last() =~= before);
        if k > 0 {
            msg.append(" -> ");
        }
        msg.append(mods[c[k]].0.as_str());
        proof {
            if k == 0 {
                assert(names.subrange(0, 1) =~= seq![names[0]]);
                assert(before =~= Seq::<Seq<char>>::empty());
            }
        }
        assert(msg@ =~= prefix + join_arrows(names.subrange(0, k + 1)));
        k += 1;
    }
    assert(names.subrange(0, n as int) =~= names);
    msg
}

impl ModuleGraph {
    /// No two modules of the graph share a name.
    pub open spec fn wf(&self) -> bool {
        names_distinct(self.modules@)
    }
}

/// Checks the graph for a dependency cycle: `Ok` when there is none, else the
/// message that names the modules of one, as `a -> b -> a`.
pub fn detect_circular_dependencies(graph: &ModuleGraph) -> (r: Result<(), String>)
    requires
        graph.wf(),
    ensures
        r is Ok <==> !has_cycle(graph.modules@),
        r matches Err(msg) ==> exists|c: Seq<usize>|
            is_cycle(graph.modules@, c) && msg@ == cycle_message(graph.modules@, c),
{
    match order_modules(&graph.modules) {
        Ok(_) => Ok(()),
        Err(c) => Err(describe_cycle(&graph.modules, &c)),
    }
}

/// The module names in an order where every module comes after the modules
/// it imports, or the message of `detect_circular_dependencies` when the
/// graph has a cycle.
pub fn topological_sort_modules(graph: &ModuleGraph) -> (r: Result<Vec<String>, String>)
    requires
        graph.wf(),
    ensures
        r is Ok <==> !has_cycle(graph.modules@),
        r matches Ok(names) ==> exists|order: Seq<usize>|
            is_topological_order(graph.modules@, order) && names@.len() == order.len() && forall|k: int|
                0 <= k < order.len() ==> #[trigger] names@[k] == graph.modules@[order[k] as int].0,
        r matches Err(msg) ==> exists|c: Seq<usize>|
            is_cycle(graph.modules@, c) && msg@ == cycle_message(graph.modules@, c),
{
    match order_modules(&graph.modules) {
        Ok(order) => Ok(names_of(&graph.modules, &order)),
        Err(c) => Err(describe_cycle(&graph.modules, &c)),
    }
}

/// The dependency graph of loaded modules: each module's name with the
/// modules its program imports.
pub fn build_module_dependency_graph(loaded: &Vec<(String, Program)>) -> (graph: ModuleGraph)
    ensures
        graph.modules@.len() == loaded@.len(),
        forall|i: int|
            0 <= i < loaded@.len() ==> #[trigger] graph.modules@[i].0 == loaded@[i].0
                && graph.modules@[i].1@ == blocks_use_deps(loaded@[i].1.blocks@),
{
    let mut modules: Vec<(String, Vec<String>)> = Vec::new();
    let n = loaded.len();
    let mut i: usize = 0;
    while i < n
        invariant
            n == loaded@.len(),
            0 <= i <= n,
            modules@.len() == i,
            forall|q: int|
                0 <= q < i ==> #[trigger] modules@[q].0 == loaded@[q].0
                    && modules@[q].1@ == blocks_use_deps(loaded@[q].1.blocks@),
        decreases n - i,
    {
        let deps = extract_module_dependencies(&loaded[i].1);
        modules.push((loaded[i].0.clone(), deps));
        i += 1;
    }
    ModuleGraph { modules }
}

} // verus!
