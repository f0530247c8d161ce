//! Documentation blocks attached to declarations, and their structured tags
//! (`@param`, `@returns`, `@effects` and any other `@tag`).
use vstd::prelude::*;
use crate::span::Span;
use vstd::string::StrSliceExecFns;
use crate::chars::{
    trim, trim_start, trim_end, first_newline, is_white_space, first_ws, starts_with, split_lines, skip_white_space, trim_bounds,
    find_white_space, find_newline, starts_with_at, sub_string,
};

verus! {

/// A map from tag names to texts, kept as a list of pairs with distinct keys.
/// Inserting an existing key replaces its text in place.
#[derive(Debug)]
pub struct TagMap {
    entries: Vec<(String, String)>,
}

/// No key occurs twice in `entries`.
pub open spec fn keys_distinct(entries: Seq<(String, String)>) -> bool {
    forall|i: int, j: int|
        0 <= i < entries.len() && 0 <= j < entries.len() && i != j ==> entries[i].0@
            != entries[j].0@
}

/// The map view of a list of pairs with distinct keys.
pub open spec fn entries_map(entries: Seq<(String, String)>) -> Map<Seq<char>, Seq<char>>
    decreases entries.len(),
{
    if entries.len() == 0 {
        Map::empty()
    } else {
        entries_map(entries.drop_last()).insert(entries.last().0@, entries.last().1@)
    }
}

/// Replacing the text of one key of a list with distinct keys replaces it in
/// the map view.
proof fn lemma_entries_map_update(entries: Seq<(String, String)>, i: int, pair: (String, String))
    requires
        keys_distinct(entries),
        0 <= i < entries.len(),
        pair.0@ == entries[i].0@,
    ensures
        entries_map(entries.update(i, pair)) == entries_map(entries).insert(pair.0@, pair.1@),
    decreases entries.len(),
{
    let upd = entries.update(i, pair);
    assert(upd.drop_last() =~= if i == entries.len() - 1 {
        entries.drop_last()
    } else {
        entries.drop_last().update(i, pair)
    });
    if i == entries.len() - 1 {
        assert(entries_map(upd) =~= entries_map(entries).insert(pair.0@, pair.1@));
    } else {
        assert(keys_distinct(entries.drop_last()));
        lemma_entries_map_update(entries.drop_last(), i, pair);
        assert(entries.last().0@ != pair.0@);
        assert(entries_map(upd) =~= entries_map(entries).insert(pair.0@, pair.1@));
    }
}

/// In a list with distinct keys, each pair's key maps to its text.
proof fn lemma_entries_map_lookup(entries: Seq<(String, String)>, i: int)
    requires
        keys_distinct(entries),
        0 <= i < entries.len(),
    ensures
        entries_map(entries).contains_key(entries[i].0@),
        entries_map(entries)[entries[i].0@] == entries[i].1@,
    decreases entries.len(),
{
    if i < entries.len() - 1 {
        assert(keys_distinct(entries.drop_last()));
        assert(entries.drop_last()[i] == entries[i]);
        lemma_entries_map_lookup(entries.drop_last(), i);
        assert(entries.last().0@ != entries[i].0@);
    }
}

/// A key that no pair has is not in the map view.
proof fn lemma_entries_map_absent(entries: Seq<(String, String)>, key: Seq<char>)
    requires
        forall|i: int| 0 <= i < entries.len() ==> entries[i].0@ != key,
    ensures
        !entries_map(entries).contains_key(key),
    decreases entries.len(),
{
    if entries.len() > 0 {
        lemma_entries_map_absent(entries.drop_last(), key);
    }
}

impl TagMap {
    /// The pairs in insertion order of their first key.
    pub closed spec fn entries(&self) -> Seq<(String, String)> {
        self.entries@
    }

    /// Keys are distinct.
    pub closed spec fn wf(&self) -> bool {
        keys_distinct(self.entries@)
    }

    /// An empty map.
    pub fn new() -> (m: Self)
        ensures
            m.wf(),
            m.entries() == Seq::<(String, String)>::empty(),
    {
        TagMap { entries: Vec::new() }
    }

    /// Number of keys.
    pub fn len(&self) -> (n: usize)
        ensures
            n == self.entries().len(),
    {
        self.entries.len()
    }

    /// Insert `key` with `value`: replace the text of an existing key in place,
    /// or append a new pair.
    pub fn insert(&mut self, key: String, value: String)
        requires
            old(self).wf(),
        ensures
            final(self).wf(),
            (exists|i: int|
                0 <= i < old(self).entries().len() && old(self).entries()[i].0@ == key@)
                ==> final(self).entries().len() == old(self).entries().len() && (forall|i: int|
                0 <= i < old(self).entries().len() ==> final(self).entries()[i] == (if old(
                self,
            ).entries()[i].0@ == key@ {
                (old(self).entries()[i].0, value)
            } else {
                old(self).entries()[i]
            })),
            (forall|i: int|
                0 <= i < old(self).entries().len() ==> old(self).entries()[i].0@ != key@)
                ==> final(self).entries() == old(self).entries().push((key, value)),
            entries_map(final(self).entries()) == entries_map(old(self).entries()).insert(
                key@,
                value@,
            ),
    {
        let n = self.entries.len();
        let mut i: usize = 0;
        while i < n
            invariant
                n == self.entries@.len(),
                self.entries@ == old(self).entries@,
                keys_distinct(old(self).entries@),
                0 <= i <= n,
                forall|j: int| 0 <= j < i ==> self.entries@[j].0@ != key@,
            decreases n - i,
        {
            if self.entries[i].0 == key {
                let old_key = self.entries[i].0.clone();
                let ghost old_entries = self.entries@;
                self.entries.set(i, (old_key, value));
                proof {
                    lemma_entries_map_update(old_entries, i as int, self.entries@[i as int]);
                }
                assert forall|j: int| 0 <= j < n implies self.entries@[j] == (if old(
                    self,
                ).entries@[j].0@ == key@ {
                    (old(self).entries@[j].0, value)
                } else {
                    old(self).entries@[j]
                }) by {
                    if j != i {
                        assert(old(self).entries@[j].0@ != old(self).entries@[i as int].0@);
                    }
                }
                return;
            }
            i += 1;
        }
        self.entries.push((key, value));
        assert(self.entries@.drop_last() =~= old(self).entries@);
    }

    /// Look up the text of `key`.
    pub fn get(&self, key: &String) -> (r: Option<&String>)
        requires
            self.wf(),
        ensures
            r matches Some(v) ==> exists|i: int|
                0 <= i < self.entries().len() && self.entries()[i].0@ == key@
                    && self.entries()[i].1 == *v,
            r is None ==> forall|i: int|
                0 <= i < self.entries().len() ==> self.entries()[i].0@ != key@,
            r is Some <==> entries_map(self.entries()).contains_key(key@),
            r matches Some(v) ==> v@ == entries_map(self.entries())[key@],
    {
        let n = self.entries.len();
        let mut i: usize = 0;
        while i < n
            invariant
                n == self.entries@.len(),
                0 <= i <= n,
                self.wf(),
                forall|j: int| 0 <= j < i ==> self.entries@[j].0@ != key@,
            decreases n - i,
        {
            if self.entries[i].0 == *key {
                assert(self.entries()[i as int].0@ == key@);
                proof {
                    lemma_entries_map_lookup(self.entries@, i as int);
                }
                return Some(&self.entries[i].1);
            }
            i += 1;
        }
        proof {
            lemma_entries_map_absent(self.entries@, key@);
        }
        None
    }

    /// A copy with the same pairs.
    pub fn copy(&self) -> (r: Self)
        ensures
            r.entries() == self.entries(),
            r.wf() == self.wf(),
    {
        TagMap { entries: copy_pairs(&self.entries) }
    }
}

/// A copy of a list of string pairs.
pub fn copy_pairs(v: &Vec<(String, String)>) -> (r: Vec<(String, String)>)
    ensures
        r@ == v@,
{
    let mut r: Vec<(String, String)> = Vec::new();
    let n = v.len();
    let mut i: usize = 0;
    while i < n
        invariant
            n == v@.len(),
            0 <= i <= n,
            r@ == v@.subrange(0, i as int),
        decreases n - i,
    {
        r.push((v[i].0.clone(), v[i].1.clone()));
        i += 1;
    }
    r
}

/// A copy of an optional string.
pub fn copy_opt_string(s: &Option<String>) -> (r: Option<String>)
    ensures
        r == *s,
{
    match s {
        Some(t) => Some(t.clone()),
        None => None,
    }
}

/// Parsed documentation tags.
#[derive(Debug)]
pub struct DocTags {
    /// Parameter documentation: parameter name to description.
    pub params: TagMap,
    /// Return value documentation.
    pub returns: Option<String>,
    /// Effects documentation.
    pub effects: Option<String>,
    /// Any other tags: tag name to value.
    pub other: TagMap,
}

impl DocTags {
    /// Tags with no entries.
    pub fn empty() -> (t: Self)
        ensures
            t.wf(),
            t.params.entries().len() == 0,
            t.other.entries().len() == 0,
            t.returns is None,
            t.effects is None,
    {
        DocTags { params: TagMap::new(), returns: None, effects: None, other: TagMap::new() }
    }

    /// Both tag maps have distinct keys.
    pub open spec fn wf(&self) -> bool {
        self.params.wf() && self.other.wf()
    }

    /// Same contents as `other`.
    pub open spec fn same_as(&self, other: &DocTags) -> bool {
        &&& self.params.entries() == other.params.entries()
        &&& self.other.entries() == other.other.entries()
        &&& self.returns == other.returns
        &&& self.effects == other.effects
    }

    /// A copy with the same contents.
    pub fn copy(&self) -> (r: Self)
        ensures
            r.same_as(self),
            r.wf() == self.wf(),
    {
        DocTags {
            params: self.params.copy(),
            returns: copy_opt_string(&self.returns),
            effects: copy_opt_string(&self.effects),
            other: self.other.copy(),
        }
    }
}

/// Documentation block for a declaration.
#[derive(Debug)]
pub struct DocBlock {
    pub span: Span,
    /// Raw text content (all lines joined with newlines).
    pub text: String,
    /// Parsed documentation tags.
    pub tags: DocTags,
}

impl DocBlock {
    /// Same contents as `other`.
    pub open spec fn same_as(&self, other: &DocBlock) -> bool {
        &&& self.span == other.span
        &&& self.text == other.text
        &&& self.tags.same_as(&other.tags)
    }

    /// A copy with the same contents.
    pub fn copy(&self) -> (r: Self)
        ensures
            r.same_as(self),
    {
        DocBlock { span: self.span, text: self.text.clone(), tags: self.tags.copy() }
    }
}

// ---------------------------------------------------------------------------
// Parsing tags
// ---------------------------------------------------------------------------

/// What documentation tags say: parameter descriptions by name, the return
/// and effects descriptions, and other tag values by name.
pub type TagsView = (Map<Seq<char>, Seq<char>>, Option<Seq<char>>, Option<Seq<char>>, Map<Seq<char>, Seq<char>>);

/// The characters of an optional string.
pub open spec fn opt_view(o: Option<String>) -> Option<Seq<char>> {
    match o {
        Some(s) => Some(s@),
        None => None,
    }
}

impl DocTags {
    /// What these tags say.
    pub open spec fn view_tags(&self) -> TagsView {
        (
            entries_map(self.params.entries()),
            opt_view(self.returns),
            opt_view(self.effects),
            entries_map(self.other.entries()),
        )
    }
}

/// No tags.
pub open spec fn no_tags() -> TagsView {
    (Map::empty(), None, None, Map::empty())
}

/// The tags after one trimmed line of documentation text:
/// `@param name description` records a parameter; `@returns description`
/// and `@effects description` record those texts when not empty; any other
/// `@name value` records a tag. A name must be followed by white space; a
/// later line for the same name replaces the earlier one.
pub open spec fn apply_line(t: TagsView, line: Seq<char>) -> TagsView {
    if starts_with(line, "@param"@) {
        let pt = trim_start(line.subrange("@param"@.len() as int, line.len() as int));
        let k = first_ws(pt);
        if k < pt.len() && trim(pt.subrange(0, k)).len() > 0 {
            (t.0.insert(trim(pt.subrange(0, k)), trim(pt.subrange(k, pt.len() as int))), t.1, t.2, t.3)
        } else {
            t
        }
    } else if starts_with(line, "@returns"@) {
        let d = trim_start(line.subrange("@returns"@.len() as int, line.len() as int));
        if d.len() > 0 {
            (t.0, Some(d), t.2, t.3)
        } else {
            t
        }
    } else if starts_with(line, "@effects"@) {
        let d = trim_start(line.subrange("@effects"@.len() as int, line.len() as int));
        if d.len() > 0 {
            (t.0, t.1, Some(d), t.3)
        } else {
            t
        }
    } else if line.len() > 0 && line[0] == '@' {
        let tt = trim(line.subrange(1, line.len() as int));
        let k = first_ws(tt);
        if k < tt.len() && trim(tt.subrange(0, k)).len() > 0 {
            (t.0, t.1, t.2, t.3.insert(trim(tt.subrange(0, k)), trim(tt.subrange(k, tt.len() as int))))
        } else {
            t
        }
    } else {
        t
    }
}

/// The tags after the lines, each trimmed, in order.
pub open spec fn apply_lines(t: TagsView, lines: Seq<Seq<char>>) -> TagsView
    decreases lines.len(),
{
    if lines.len() == 0 {
        t
    } else {
        apply_lines(apply_line(t, trim(lines[0])), lines.drop_first())
    }
}

/// The tags of a documentation text, line by line.
pub open spec fn parsed_tags(text: Seq<char>) -> TagsView {
    apply_lines(no_tags(), split_lines(text))
}

/// A text without a newline has no newline to find.
proof fn lemma_no_newline(s: Seq<char>)
    requires
        forall|i: int| 0 <= i < s.len() ==> s[i] != '\n',
    ensures
        first_newline(s) == s.len(),
    decreases s.len(),
{
    if s.len() > 0 {
        assert forall|i: int| 0 <= i < s.drop_first().len() implies s.drop_first()[i] != '\n' by {
            assert(s.drop_first()[i] == s[i + 1]);
        }
        lemma_no_newline(s.drop_first());
    }
}

/// The first white space of a word followed by text that starts with white
/// space is just after the word.
proof fn lemma_first_ws_after_word(w: Seq<char>, rest: Seq<char>)
    requires
        forall|i: int| 0 <= i < w.len() ==> !is_white_space(#[trigger] w[i]),
        rest.len() > 0,
        is_white_space(rest[0]),
    ensures
        first_ws(w + rest) == w.len(),
    decreases w.len(),
{
    if w.len() > 0 {
        assert((w + rest).drop_first() =~= w.drop_first() + rest);
        assert forall|i: int| 0 <= i < w.drop_first().len() implies !is_white_space(#[trigger] w.drop_first()[i]) by {
            assert(w.drop_first()[i] == w[i + 1]);
        }
        lemma_first_ws_after_word(w.drop_first(), rest);
    } else {
        assert(w + rest =~= rest);
    }
}

/// A text on one line: no newline in it.
pub open spec fn one_line(s: Seq<char>) -> bool {
    forall|i: int| 0 <= i < s.len() ==> s[i] != '\n'
}

/// Text that neither starts nor ends with white space.
pub open spec fn trimmed_text(s: Seq<char>) -> bool {
    s.len() > 0 && !is_white_space(s[0]) && !is_white_space(s.last())
}

/// A word: characters none of which is white space.
pub open spec fn word(s: Seq<char>) -> bool {
    s.len() > 0 && forall|i: int| 0 <= i < s.len() ==> !is_white_space(#[trigger] s[i])
}

/// A one-line documentation text that starts with `@` and ends with no
/// white space is a single trimmed line.
proof fn lemma_single_line(s: Seq<char>)
    requires
        s.len() > 0,
        s[0] == '@',
        !is_white_space(s.last()),
        one_line(s),
    ensures
        parsed_tags(s) == apply_line(no_tags(), s),
{
    lemma_no_newline(s);
    assert(split_lines(s) == seq![s]);
    assert(trim_start(s) == s);
    assert(trim_end(s) == s);
    assert(trim(s) == s);
    assert(seq![s].drop_first() =~= Seq::<Seq<char>>::empty());
    assert(apply_lines(no_tags(), seq![s]) == apply_lines(apply_line(no_tags(), s), Seq::<Seq<char>>::empty()));
}

/// A `@returns` line records all of its text after the tag: the tags of
/// `@returns d`, for a one-line description `d` that neither starts nor
/// ends with white space, are the returns description `d` and nothing else.
pub proof fn lemma_returns_line(d: Seq<char>)
    requires
        trimmed_text(d),
        one_line(d),
    ensures
        parsed_tags("@returns"@ + seq![' '] + d) == (
            Map::<Seq<char>, Seq<char>>::empty(),
            Some(d),
            None::<Seq<char>>,
            Map::<Seq<char>, Seq<char>>::empty(),
        ),
{
    reveal_strlit("@param");
    reveal_strlit("@returns");
    let e = "@returns"@;
    let s = e + seq![' '] + d;
    assert(e.len() == 8);
    assert forall|i: int| 0 <= i < s.len() implies s[i] != '\n' by {
        if i >= 9 {
            assert(s[i] == d[i - 9]);
        }
    }
    assert(s.last() == d.last());
    lemma_single_line(s);
    assert(s.subrange(0, 6)[1] != "@param"@[1]);
    assert(!starts_with(s, "@param"@));
    assert(s.subrange(0, 8) =~= e);
    let rest = s.subrange(8, s.len() as int);
    assert(rest =~= seq![' '] + d);
    assert(rest.drop_first() =~= d);
    assert(trim_start(d) == d);
}

/// A `@param` line records the parameter's description under its name: the
/// tags of `@param n d`, for a name `n` (one word) and a one-line
/// description `d` that neither starts nor ends with white space, are the
/// description `d` of parameter `n` and nothing else.
pub proof fn lemma_param_line(n: Seq<char>, d: Seq<char>)
    requires
        word(n),
        trimmed_text(d),
        one_line(n),
        one_line(d),
    ensures
        parsed_tags("@param"@ + seq![' '] + n + seq![' '] + d) == (
            Map::<Seq<char>, Seq<char>>::empty().insert(n, d),
            None::<Seq<char>>,
            None::<Seq<char>>,
            Map::<Seq<char>, Seq<char>>::empty(),
        ),
{
    reveal_strlit("@param");
    let e = "@param"@;
    let s = e + seq![' '] + n + seq![' '] + d;
    assert(e.len() == 6);
    assert forall|i: int| 0 <= i < s.len() implies s[i] != '\n' by {
        if 7 <= i < 7 + n.len() {
            assert(s[i] == n[i - 7]);
        } else if i >= 8 + n.len() {
            assert(s[i] == d[i - 8 - n.len()]);
        }
    }
    assert(s.last() == d.last());
    lemma_single_line(s);
    assert(s.subrange(0, 6) =~= e);
    let rest = s.subrange(6, s.len() as int);
    assert(rest =~= seq![' '] + (n + (seq![' '] + d)));
    assert(rest.drop_first() =~= n + (seq![' '] + d));
    let pt = n + (seq![' '] + d);
    assert(trim_start(pt) == pt);
    lemma_first_ws_after_word(n, seq![' '] + d);
    assert(pt.subrange(0, n.len() as int) =~= n);
    assert(trim_start(n) == n);
    assert(trim_end(n) == n);
    let tail = pt.subrange(n.len() as int, pt.len() as int);
    assert(tail =~= seq![' '] + d);
    assert(tail.drop_first() =~= d);
    assert(trim_start(d) == d);
    assert(trim_start(tail) == d);
    assert(trim_end(d) == d);
}

/// An `@effects` line records all of its text after the tag, whatever white
/// space and words that text holds: the tags of `@effects d`, for a
/// description `d` on one line that neither starts nor ends with white
/// space, are the effects description `d` and nothing else.
pub proof fn lemma_effects_line(d: Seq<char>)
    requires
        d.len() > 0,
        !is_white_space(d[0]),
        !is_white_space(d.last()),
        forall|i: int| 0 <= i < d.len() ==> d[i] != '\n',
    ensures
        parsed_tags("@effects"@ + seq![' '] + d) == (
            Map::<Seq<char>, Seq<char>>::empty(),
            None::<Seq<char>>,
            Some(d),
            Map::<Seq<char>, Seq<char>>::empty(),
        ),
{
    reveal_strlit("@effects");
    reveal_strlit("@param");
    reveal_strlit("@returns");
    let e = "@effects"@;
    let s = e + seq![' '] + d;
    assert(e.len() == 8);
    assert forall|i: int| 0 <= i < s.len() implies s[i] != '\n' by {
        if i >= 9 {
            assert(s[i] == d[i - 9]);
        }
    }
    lemma_no_newline(s);
    assert(split_lines(s) == seq![s]);
    assert(s.last() == d.last());
    assert(trim_start(s) == s);
    assert(trim_end(s) == s);
    assert(trim(s) == s);
    assert(seq![s].drop_first() =~= Seq::<Seq<char>>::empty());
    assert(apply_lines(no_tags(), seq![s]) == apply_lines(apply_line(no_tags(), s), Seq::<Seq<char>>::empty()));
    assert(s[1] == 'e');
    assert(s.subrange(0, 6)[1] != "@param"@[1]);
    assert(!starts_with(s, "@param"@));
    assert(s.subrange(0, 8)[1] != "@returns"@[1]);
    assert(!starts_with(s, "@returns"@));
    assert(s.subrange(0, 8) =~= e);
    assert(starts_with(s, "@effects"@));
    let rest = s.subrange(8, s.len() as int);
    assert(rest =~= seq![' '] + d);
    assert(rest.drop_first() =~= d);
    assert(trim_start(d) == d);
    assert(trim_start(rest) == d);
}

impl DocTags {
    /// Records what one trimmed line `s[from..to]` says.
    fn apply_line(&mut self, s: &str, from: usize, to: usize)
        requires
            from <= to <= s@.len(),
            old(self).wf(),
        ensures
            final(self).wf(),
            final(self).view_tags() == apply_line(old(self).view_tags(), s@.subrange(from as int, to as int)),
    {
        let ghost line = s@.subrange(from as int, to as int);
        proof {
            reveal_strlit("@param");
            reveal_strlit("@returns");
            reveal_strlit("@effects");
        }
        if starts_with_at(s, from, to, "@param") {
            let a = skip_white_space(s, from + 6, to);
            assert(line.subrange(6, line.len() as int) =~= s@.subrange(from + 6, to as int));
            let k = find_white_space(s, a, to);
            if k < to {
                let (na, nb) = trim_bounds(s, a, k);
                let (da, db) = trim_bounds(s, k, to);
                let ghost pt = s@.subrange(a as int, to as int);
                assert(pt.subrange(0, k - a) =~= s@.subrange(a as int, k as int));
                assert(pt.subrange(k - a, pt.len() as int) =~= s@.subrange(k as int, to as int));
                if na < nb {
                    let name = sub_string(s, na, nb);
                    let desc = sub_string(s, da, db);
                    self.params.insert(name, desc);
                }
            }
        } else if starts_with_at(s, from, to, "@returns") {
            let a = skip_white_space(s, from + 8, to);
            assert(line.subrange(8, line.len() as int) =~= s@.subrange(from + 8, to as int));
            if a < to {
                self.returns = Some(sub_string(s, a, to));
            }
        } else if starts_with_at(s, from, to, "@effects") {
            let a = skip_white_space(s, from + 8, to);
            assert(line.subrange(8, line.len() as int) =~= s@.subrange(from + 8, to as int));
            if a < to {
                self.effects = Some(sub_string(s, a, to));
            }
        } else if from < to && s.get_char(from) == '@' {
            let (ta, tb) = trim_bounds(s, from + 1, to);
            assert(line.subrange(1, line.len() as int) =~= s@.subrange(from + 1, to as int));
            let k = find_white_space(s, ta, tb);
            if k < tb {
                let (na, nb) = trim_bounds(s, ta, k);
                let (va, vb) = trim_bounds(s, k, tb);
                let ghost tt = s@.subrange(ta as int, tb as int);
                assert(tt.subrange(0, k - ta) =~= s@.subrange(ta as int, k as int));
                assert(tt.subrange(k - ta, tt.len() as int) =~= s@.subrange(k as int, tb as int));
                if na < nb {
                    let name = sub_string(s, na, nb);
                    let value = sub_string(s, va, vb);
                    self.other.insert(name, value);
                }
            }
        }
    }
}

impl DocBlock {
    /// The tags of a documentation text: each line, trimmed, may record a
    /// parameter (`@param name description`), the return description
    /// (`@returns`), the effects (`@effects`), or another tag
    /// (`@name value`).
    pub fn parse_tags(text: &str) -> (tags: DocTags)
        ensures
            tags.wf(),
            tags.view_tags() == parsed_tags(text@),
    {
        let mut tags = DocTags::empty();
        assert(tags.view_tags() =~= no_tags());
        let n = text.unicode_len();
        let mut start: usize = 0;
        let mut done = false;
        assert(text@.subrange(0, n as int) =~= text@);
        while !done
            invariant
                n == text@.len(),
                start <= n,
                tags.wf(),
                !done ==> apply_lines(tags.view_tags(), split_lines(text@.subrange(start as int, n as int)))
                    == parsed_tags(text@),
                done ==> tags.view_tags() == parsed_tags(text@),
            decreases n - start, if done { 0int } else { 1int },
        {
            let k = find_newline(text, start, n);
            let ghost rest = text@.subrange(start as int, n as int);
            let (a, b) = trim_bounds(text, start, k);
            assert(rest.subrange(0, k - start) =~= text@.subrange(start as int, k as int));
            let ghost before = tags.view_tags();
            tags.apply_line(text, a, b);
            if k < n {
                assert(rest.subrange(k - start + 1, rest.len() as int) =~= text@.subrange(k + 1, n as int));
                assert(split_lines(rest) == seq![rest.subrange(0, k - start)] + split_lines(
                    rest.subrange(k - start + 1, rest.len() as int),
                ));
                assert((seq![rest.subrange(0, k - start)] + split_lines(text@.subrange(k + 1, n as int))).drop_first()
                    =~= split_lines(text@.subrange(k + 1, n as int)));
                start = k + 1;
            } else {
                assert(split_lines(rest) == seq![rest]);
                assert(seq![rest].drop_first() =~= Seq::<Seq<char>>::empty());
                assert(apply_lines(before, seq![rest]) == apply_lines(
                    apply_line(before, trim(rest)),
                    Seq::<Seq<char>>::empty(),
                ));
                done = true;
            }
        }
        tags
    }

    /// A documentation block with its tags parsed from its text.
    pub fn new(span: Span, text: String) -> (d: Self)
        ensures
            d.span == span,
            d.text == text,
            d.tags.wf(),
            d.tags.view_tags() == parsed_tags(text@),
    {
        let tags = Self::parse_tags(text.as_str());
        DocBlock { span, text, tags }
    }

    /// A documentation block for a native function, which has no source:
    /// its span is empty at offset 0.
    pub fn from_text(text: &str) -> (d: Self)
        ensures
            d.span.start == 0 && d.span.end == 0,
            d.text@ == text@,
            d.tags.wf(),
            d.tags.view_tags() == parsed_tags(text@),
    {
        Self::new(Span::new(0, 0), String::from_str(text))
    }
}

} // verus!
