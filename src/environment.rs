//! The environment store: variables keyed by name, each with the source that
//! set it, written only through an upsert that respects source priority.

use vstd::prelude::*;
use crate::config_model::ExecutionPolicy;
use crate::runner::{Os, Section};
use crate::text::{
    is_white_space, lacks, lemma_lines_lack_newline, lemma_lines_of_cons, lemma_position_of_bounds,
    lemma_position_of_concat, lemma_trimmed_fixed, lemma_trimmed_shape, lines_of, position_of,
    split_at_equals, split_at_nul, split_lines, split_nul, trim_str, trimmed,
};

verus! {

/// Where a variable's value came from; a later source outranks an earlier one.
#[derive(Debug, Clone, Copy, PartialEq, Eq, Structural)]
pub enum EnvVariableSource {
    Default,
    Global,
    Local,
    Passed,
    Script,
}

impl EnvVariableSource {
    /// Rank of the source: Default 1, Global 2, Local 3, Passed 4, Script 5.
    pub open spec fn priority(self) -> int {
        match self {
            EnvVariableSource::Default => 1,
            EnvVariableSource::Global => 2,
            EnvVariableSource::Local => 3,
            EnvVariableSource::Passed => 4,
            EnvVariableSource::Script => 5,
        }
    }

    pub fn get_priority(&self) -> (r: i32)
        ensures
            r == self.priority(),
    {
        match self {
            EnvVariableSource::Default => 1,
            EnvVariableSource::Global => 2,
            EnvVariableSource::Local => 3,
            EnvVariableSource::Passed => 4,
            EnvVariableSource::Script => 5,
        }
    }
}

/// A stored value and its source.
#[derive(Debug, Clone)]
pub struct EnvVariable {
    pub source: EnvVariableSource,
    pub value: String,
}

impl View for EnvVariable {
    type V = (Seq<char>, EnvVariableSource);

    open spec fn view(&self) -> (Seq<char>, EnvVariableSource) {
        (self.value@, self.source)
    }
}

/// A variable table: name to value and source.
pub type VarMap = Map<Seq<char>, (Seq<char>, EnvVariableSource)>;

/// One write: name, value and source.
pub type VarWrite = (Seq<char>, (Seq<char>, EnvVariableSource));

/// Whether a write of `v` from `s` to `k` takes effect on `m`: the key is new,
/// the source outranks the stored one, or ranks equal with another value.
pub open spec fn upsert_commits(m: VarMap, k: Seq<char>, v: Seq<char>, s: EnvVariableSource) -> bool {
    ||| !m.contains_key(k)
    ||| s.priority() > m[k].1.priority()
    ||| s.priority() == m[k].1.priority() && v != m[k].0
}

/// `m` after the write of `v` from `s` to `k`: stored unless a higher-ranked
/// source holds the key.
pub open spec fn upsert_model(m: VarMap, k: Seq<char>, v: Seq<char>, s: EnvVariableSource) -> VarMap {
    if !m.contains_key(k) || s.priority() >= m[k].1.priority() {
        m.insert(k, (v, s))
    } else {
        m
    }
}

/// `m` after the writes of `calls`, in order.
pub open spec fn upserts(m: VarMap, calls: Seq<VarWrite>) -> VarMap
    decreases calls.len(),
{
    if calls.len() == 0 {
        m
    } else {
        let c = calls.last();
        upsert_model(upserts(m, calls.drop_last()), c.0, c.1.0, c.1.1)
    }
}

/// `m` after every entry of `o` is written to it with its own source.
pub open spec fn merged(m: VarMap, o: VarMap) -> VarMap {
    Map::new(
        |k: Seq<char>| m.contains_key(k) || o.contains_key(k),
        |k: Seq<char>|
            if o.contains_key(k) && (!m.contains_key(k) || o[k].1.priority() >= m[k].1.priority()) {
                o[k]
            } else {
                m[k]
            },
    )
}

/// The name and value that a `KEY=VALUE` line holds once trimmed, if it holds an `=`.
pub open spec fn line_entry(line: Seq<char>) -> Option<(Seq<char>, Seq<char>)> {
    let t = trimmed(line);
    let i = position_of(t, '=');
    if i >= t.len() {
        None
    } else {
        Some((t.take(i), t.skip(i + 1)))
    }
}

/// The entries of `lines`, in order, lines without `=` passed over.
pub open spec fn entries_of(lines: Seq<Seq<char>>) -> Seq<(Seq<char>, Seq<char>)>
    decreases lines.len(),
{
    if lines.len() == 0 {
        Seq::empty()
    } else {
        let prev = entries_of(lines.drop_last());
        match line_entry(lines.last()) {
            Some(e) => prev.push(e),
            None => prev,
        }
    }
}

/// A line of an env file holds no entry when, trimmed, it starts with `#`.
pub open spec fn is_comment(line: Seq<char>) -> bool {
    trimmed(line).len() > 0 && trimmed(line)[0] == '#'
}

/// The entries of the lines of an env file, in order: comment lines and
/// lines without `=` passed over.
pub open spec fn file_entries_of(lines: Seq<Seq<char>>) -> Seq<(Seq<char>, Seq<char>)>
    decreases lines.len(),
{
    if lines.len() == 0 {
        Seq::empty()
    } else {
        let prev = file_entries_of(lines.drop_last());
        if is_comment(lines.last()) {
            prev
        } else {
            match line_entry(lines.last()) {
                Some(e) => prev.push(e),
                None => prev,
            }
        }
    }
}

/// The entry of one NUL-separated item: the text before its first `=` and
/// the text after it; an item without `=` holds none.
pub open spec fn nul_entry(item: Seq<char>) -> Option<(Seq<char>, Seq<char>)> {
    let i = position_of(item, '=');
    if i >= item.len() {
        None
    } else {
        Some((item.take(i), item.skip(i + 1)))
    }
}

/// The entries of NUL-separated items, in order.
pub open spec fn nul_entries(items: Seq<Seq<char>>) -> Seq<(Seq<char>, Seq<char>)>
    decreases items.len(),
{
    if items.len() == 0 {
        Seq::empty()
    } else {
        let prev = nul_entries(items.drop_last());
        match nul_entry(items.last()) {
            Some(e) => prev.push(e),
            None => prev,
        }
    }
}

/// The entries of a `KEY=VALUE` per line text.
pub open spec fn dump_entries(text: Seq<char>) -> Seq<(Seq<char>, Seq<char>)> {
    entries_of(lines_of(text))
}

/// `entries` as writes from `s`.
pub open spec fn with_source(entries: Seq<(Seq<char>, Seq<char>)>, s: EnvVariableSource) -> Seq<VarWrite> {
    entries.map_values(|e: (Seq<char>, Seq<char>)| (e.0, (e.1, s)))
}

/// `m` after loading `text` with source `s`.
pub open spec fn loaded(m: VarMap, text: Seq<char>, s: EnvVariableSource) -> VarMap {
    upserts(m, with_source(dump_entries(text), s))
}

/// The `KEY=VALUE` line of one entry.
pub open spec fn kv_line(k: Seq<char>, v: Seq<char>) -> Seq<char> {
    k + seq!['='] + v
}

/// The text of `entries`, one `KEY=VALUE` line each, each ended by `\n`.
pub open spec fn dump_text(entries: Seq<VarWrite>) -> Seq<char>
    decreases entries.len(),
{
    if entries.len() == 0 {
        Seq::empty()
    } else {
        let e = entries.last();
        dump_text(entries.drop_last()) + kv_line(e.0, e.1.0) + seq!['\n']
    }
}

/// The table that a list of stored pairs represents.
pub open spec fn table_of(s: Seq<(String, EnvVariable)>) -> VarMap
    decreases s.len(),
{
    if s.len() == 0 {
        Map::empty()
    } else {
        table_of(s.drop_last()).insert(s.last().0@, s.last().1@)
    }
}

/// No name occurs twice in `s`.
pub open spec fn keys_unique(s: Seq<(String, EnvVariable)>) -> bool {
    forall|i: int, j: int| 0 <= i < j < s.len() ==> s[i].0@ != s[j].0@
}

/// The variable table: at most one entry per name, in the order names were first stored.
#[derive(Debug)]
pub struct VarTable {
    entries: Vec<(String, EnvVariable)>,
}

/// The environment of a scope: its variables, and the run settings that travel with them.
#[derive(Debug)]
pub struct Environment {
    pub variables: VarTable,
    /// The platform whose step lists run, and whose shell runs them.
    pub os: Os,
    /// Where commands run; the current directory when absent.
    pub cwd: Option<String>,
    /// The policy in force in this scope.
    pub execution_policy: ExecutionPolicy,
    /// Commands are reported instead of run.
    pub dry_run: bool,
    /// The sections that the configuration lists under `skip_sections`.
    /// Which sections run is decided by `sections` alone: without it, every
    /// section but Clean runs.
    pub banned_sections: Option<Vec<Section>>,
    /// The sections to run, when the user named some.
    pub sections: Option<Vec<Section>>,
}

/// The sections of an optional list, as a sequence.
pub open spec fn sections_view(o: Option<Vec<Section>>) -> Option<Seq<Section>> {
    match o {
        Some(v) => Some(v@),
        None => None,
    }
}

/// A copy of an optional list of sections.
fn copy_sections(o: &Option<Vec<Section>>) -> (r: Option<Vec<Section>>)
    ensures
        sections_view(r) == sections_view(*o),
{
    match o {
        Some(v) => {
            let mut out: Vec<Section> = Vec::new();
            let mut i: usize = 0;
            while i < v.len()
                invariant
                    i <= v@.len(),
                    out@ == v@.take(i as int),
                decreases v@.len() - i,
            {
                out.push(v[i]);
                i += 1;
                proof {
                    assert(out@ =~= v@.take(i as int));
                }
            }
            proof {
                assert(v@.take(v@.len() as int) =~= v@);
            }
            Some(out)
        },
        None => None,
    }
}

proof fn lemma_table_lookup(s: Seq<(String, EnvVariable)>, i: int)
    requires
        keys_unique(s),
        0 <= i < s.len(),
    ensures
        table_of(s).contains_key(s[i].0@),
        table_of(s)[s[i].0@] == s[i].1@,
    decreases s.len(),
{
    if i < s.len() - 1 {
        lemma_table_lookup(s.drop_last(), i);
    }
}

proof fn lemma_table_absent(s: Seq<(String, EnvVariable)>, k: Seq<char>)
    requires
        forall|i: int| 0 <= i < s.len() ==> s[i].0@ != k,
    ensures
        !table_of(s).contains_key(k),
    decreases s.len(),
{
    if s.len() > 0 {
        lemma_table_absent(s.drop_last(), k);
    }
}

proof fn lemma_table_update(s: Seq<(String, EnvVariable)>, i: int, e: (String, EnvVariable))
    requires
        keys_unique(s),
        0 <= i < s.len(),
        s[i].0@ == e.0@,
    ensures
        keys_unique(s.update(i, e)),
        table_of(s.update(i, e)) == table_of(s).insert(e.0@, e.1@),
    decreases s.len(),
{
    let t = s.update(i, e);
    if i == s.len() - 1 {
        assert(t.drop_last() =~= s.drop_last());
        assert(table_of(s.drop_last()).insert(e.0@, e.1@) =~= table_of(s).insert(e.0@, e.1@));
    } else {
        lemma_table_update(s.drop_last(), i, e);
        assert(t.drop_last() =~= s.drop_last().update(i, e));
        assert(table_of(t) =~= table_of(s).insert(e.0@, e.1@));
    }
}

proof fn lemma_table_push(s: Seq<(String, EnvVariable)>, e: (String, EnvVariable))
    requires
        keys_unique(s),
        forall|i: int| 0 <= i < s.len() ==> s[i].0@ != e.0@,
    ensures
        keys_unique(s.push(e)),
        table_of(s.push(e)) == table_of(s).insert(e.0@, e.1@),
{
    assert(s.push(e).drop_last() =~= s);
}

/// Writing a key that `o` lacks after merging `o` is merging `o` with it.
proof fn lemma_merged_insert(m: VarMap, o: VarMap, k: Seq<char>, e: (Seq<char>, EnvVariableSource))
    requires
        !o.contains_key(k),
    ensures
        merged(m, o.insert(k, e)) == upsert_model(merged(m, o), k, e.0, e.1),
{
    assert(merged(m, o.insert(k, e)) =~= upsert_model(merged(m, o), k, e.0, e.1));
}

/// The writes of `calls` to the name `k`, in order.
pub open spec fn writes_to(calls: Seq<VarWrite>, k: Seq<char>) -> Seq<VarWrite> {
    calls.filter(|c: VarWrite| c.0 == k)
}

/// The writes `writes` all made to the name `k`.
pub open spec fn to_key(k: Seq<char>, writes: Seq<(Seq<char>, EnvVariableSource)>) -> Seq<VarWrite> {
    writes.map_values(|w: (Seq<char>, EnvVariableSource)| (k, w))
}

proof fn lemma_single_key_holds_some_write(
    m: VarMap,
    k: Seq<char>,
    writes: Seq<(Seq<char>, EnvVariableSource)>,
)
    requires
        !m.contains_key(k),
    ensures
        writes.len() == 0 ==> !upserts(m, to_key(k, writes)).contains_key(k),
        writes.len() > 0 ==> upserts(m, to_key(k, writes)).contains_key(k) && exists|i: int|
            0 <= i < writes.len() && upserts(m, to_key(k, writes))[k] == #[trigger] writes[i],
    decreases writes.len(),
{
    if writes.len() > 0 {
        let prev = writes.drop_last();
        assert(to_key(k, writes).drop_last() =~= to_key(k, prev));
        lemma_single_key_holds_some_write(m, k, prev);
        let r = upserts(m, to_key(k, writes));
        if r[k] == writes.last() {
            assert(r[k] == writes[writes.len() - 1]);
        } else {
            let i = choose|i: int| 0 <= i < prev.len() && upserts(m, to_key(k, prev))[k] == #[trigger] prev[i];
            assert(r[k] == writes[i]);
        }
    }
}

/// Writes to a single name, on a table without it, leave the write of the
/// highest-ranked source there, and of those the last.
pub proof fn lemma_upsert_same_key(
    m: VarMap,
    k: Seq<char>,
    writes: Seq<(Seq<char>, EnvVariableSource)>,
    j: int,
)
    requires
        !m.contains_key(k),
        0 <= j < writes.len(),
        forall|i: int| 0 <= i < writes.len() ==> #[trigger] writes[i].1.priority() <= writes[j].1.priority(),
        forall|i: int| j < i < writes.len() ==> #[trigger] writes[i].1.priority() < writes[j].1.priority(),
    ensures
        upserts(m, to_key(k, writes)).contains_key(k),
        upserts(m, to_key(k, writes))[k] == writes[j],
    decreases writes.len(),
{
    let prev = writes.drop_last();
    assert(to_key(k, writes).drop_last() =~= to_key(k, prev));
    lemma_single_key_holds_some_write(m, k, prev);
    if j == writes.len() - 1 {
        if prev.len() > 0 {
            let i = choose|i: int| 0 <= i < prev.len() && upserts(m, to_key(k, prev))[k] == #[trigger] prev[i];
            assert(writes[i].1.priority() <= writes[j].1.priority());
        }
    } else {
        assert forall|i: int| 0 <= i < prev.len() implies #[trigger] prev[i].1.priority() <= prev[j].1.priority() by {
            assert(prev[i] == writes[i]);
        }
        assert forall|i: int| j < i < prev.len() implies #[trigger] prev[i].1.priority() < prev[j].1.priority() by {
            assert(prev[i] == writes[i]);
        }
        lemma_upsert_same_key(m, k, prev, j);
        assert(writes.last().1.priority() < writes[j].1.priority());
    }
}

/// What writes leave at a name depends only on the writes to that name.
pub proof fn lemma_upserts_at_key(m: VarMap, calls: Seq<VarWrite>, k: Seq<char>)
    ensures
        upserts(m, calls).contains_key(k) == upserts(m, writes_to(calls, k)).contains_key(k),
        upserts(m, calls)[k] == upserts(m, writes_to(calls, k))[k],
    decreases calls.len(),
{
    if calls.len() > 0 {
        let prev = calls.drop_last();
        let c = calls.last();
        lemma_upserts_at_key(m, prev, k);
        let f = writes_to(prev, k);
        reveal(Seq::filter);
        assert(writes_to(calls, k) == if c.0 == k { f.push(c) } else { f });
        if c.0 == k {
            assert(f.push(c).drop_last() =~= f);
        }
    }
}

/// Writes to different names commute: two orders of the same writes that
/// keep, for each name, the order of the writes to it leave the same table.
pub proof fn lemma_upsert_order(m: VarMap, a: Seq<VarWrite>, b: Seq<VarWrite>)
    requires
        forall|k: Seq<char>| #[trigger] writes_to(a, k) == writes_to(b, k),
    ensures
        upserts(m, a) == upserts(m, b),
{
    let ua = upserts(m, a);
    let ub = upserts(m, b);
    assert forall|k: Seq<char>| #[trigger] ua.dom().contains(k) == ub.dom().contains(k) by {
        lemma_upserts_at_key(m, a, k);
        lemma_upserts_at_key(m, b, k);
        assert(writes_to(a, k) == writes_to(b, k));
    }
    assert forall|k: Seq<char>| ua.dom().contains(k) implies #[trigger] ua[k] == ub[k] by {
        lemma_upserts_at_key(m, a, k);
        lemma_upserts_at_key(m, b, k);
        assert(writes_to(a, k) == writes_to(b, k));
    }
    assert(upserts(m, a) =~= upserts(m, b));
}

/// Merging an environment's variables into themselves leaves them unchanged.
pub proof fn lemma_merge_idempotent(a: Environment)
    ensures
        merged(a.vars(), a.vars()) == a.vars(),
{
    assert(merged(a.vars(), a.vars()) =~= a.vars());
}

/// A name and value that a `KEY=VALUE` line gives back unchanged: the name
/// has no `=`, neither has a `\n`, the name does not start and the value does
/// not end with white space.
pub open spec fn dump_safe(k: Seq<char>, v: Seq<char>) -> bool {
    &&& lacks(k, '=')
    &&& lacks(k, '\n')
    &&& lacks(v, '\n')
    &&& k.len() > 0 ==> !is_white_space(k[0])
    &&& v.len() > 0 ==> !is_white_space(v.last())
}

proof fn lemma_line_entry_safe(line: Seq<char>)
    requires
        lacks(line, '\n'),
    ensures
        line_entry(line) matches Some(e) ==> dump_safe(e.0, e.1),
{
    let t = trimmed(line);
    lemma_trimmed_shape(line, '\n');
    lemma_position_of_bounds(t, '=');
    let p = position_of(t, '=');
    if p < t.len() {
        let k = t.take(p);
        let v = t.skip(p + 1);
        assert forall|i: int| 0 <= i < k.len() implies k[i] != '=' && k[i] != '\n' by {
            assert(k[i] == t[i]);
        }
        assert forall|i: int| 0 <= i < v.len() implies v[i] != '\n' by {
            assert(v[i] == t[p + 1 + i]);
        }
        if k.len() > 0 {
            assert(k[0] == t[0]);
        }
        if v.len() > 0 {
            assert(v.last() == t.last());
        }
    }
}

proof fn lemma_kv_line_entry(k: Seq<char>, v: Seq<char>)
    requires
        dump_safe(k, v),
    ensures
        line_entry(kv_line(k, v)) == Some((k, v)),
        lacks(kv_line(k, v), '\n'),
        kv_line(k, v).last() != '\r',
{
    let l = kv_line(k, v);
    assert(l[k.len() as int] == '=');
    if k.len() > 0 {
        assert(l[0] == k[0]);
    }
    if v.len() > 0 {
        assert(l.last() == v.last());
    }
    assert(!is_white_space('='));
    lemma_trimmed_fixed(l);
    lemma_position_of_concat(k, '=', v);
    assert(l.take(k.len() as int) =~= k);
    assert(l.skip(k.len() as int + 1) =~= v);
    assert forall|i: int| 0 <= i < l.len() implies l[i] != '\n' by {
        if i < k.len() {
            assert(l[i] == k[i]);
        } else if i > k.len() {
            assert(l[i] == v[i - k.len() - 1]);
        }
    }
}

proof fn lemma_entries_safe(lines: Seq<Seq<char>>)
    requires
        forall|i: int| 0 <= i < lines.len() ==> lacks(#[trigger] lines[i], '\n'),
    ensures
        forall|i: int| 0 <= i < entries_of(lines).len() ==> dump_safe(#[trigger] entries_of(lines)[i].0, entries_of(lines)[i].1),
    decreases lines.len(),
{
    if lines.len() > 0 {
        let prev = lines.drop_last();
        assert forall|i: int| 0 <= i < prev.len() implies lacks(#[trigger] prev[i], '\n') by {
            assert(prev[i] == lines[i]);
        }
        lemma_entries_safe(prev);
        assert(lacks(lines[lines.len() - 1], '\n'));
        lemma_line_entry_safe(lines.last());
        let pe = entries_of(prev);
        let all = entries_of(lines);
        assert forall|i: int| 0 <= i < all.len() implies dump_safe(#[trigger] all[i].0, all[i].1) by {
            if i < pe.len() {
                assert(all[i] == pe[i]);
            }
        }
    }
}

/// Every entry that loading leaves in an empty table came from the loaded
/// writes.
proof fn lemma_upserts_from_empty(calls: Seq<VarWrite>, k: Seq<char>)
    requires
        upserts(Map::empty(), calls).contains_key(k),
    ensures
        exists|i: int| 0 <= i < calls.len() && #[trigger] calls[i] == (k, upserts(Map::empty(), calls)[k]),
    decreases calls.len(),
{
    let prev = calls.drop_last();
    let c = calls.last();
    if c.0 == k && upserts(Map::empty(), calls)[k] == c.1 {
        assert(calls[calls.len() - 1] == (k, upserts(Map::empty(), calls)[k]));
    } else {
        lemma_upserts_from_empty(prev, k);
        let i = choose|i: int| 0 <= i < prev.len() && #[trigger] prev[i] == (k, upserts(Map::empty(), prev)[k]);
        assert(calls[i] == prev[i]);
    }
}

proof fn lemma_dump_text_cons(es: Seq<VarWrite>)
    requires
        es.len() > 0,
    ensures
        dump_text(es) == kv_line(es[0].0, es[0].1.0) + seq!['\n'] + dump_text(es.drop_first()),
    decreases es.len(),
{
    if es.len() == 1 {
        assert(es.drop_first() =~= Seq::<VarWrite>::empty());
        assert(es.drop_last() =~= Seq::<VarWrite>::empty());
        assert(dump_text(es.drop_last()) == Seq::<char>::empty());
        assert(dump_text(es.drop_first()) == Seq::<char>::empty());
        assert(es.last() == es[0]);
        assert(dump_text(es) =~= kv_line(es[0].0, es[0].1.0) + seq!['\n'] + dump_text(es.drop_first()));
    } else {
        lemma_dump_text_cons(es.drop_last());
        assert(es.drop_last().drop_first() =~= es.drop_first().drop_last());
        assert(es.drop_first().last() == es.last());
        assert(es.drop_last()[0] == es[0]);
        assert(dump_text(es) =~= kv_line(es[0].0, es[0].1.0) + seq!['\n'] + dump_text(es.drop_first()));
    }
}

/// The lines of the text of safe entries are their `KEY=VALUE` lines.
proof fn lemma_lines_of_dump(es: Seq<VarWrite>)
    requires
        forall|i: int| 0 <= i < es.len() ==> dump_safe(#[trigger] es[i].0, es[i].1.0),
    ensures
        lines_of(dump_text(es)) == es.map_values(|e: VarWrite| kv_line(e.0, e.1.0)),
    decreases es.len(),
{
    if es.len() == 0 {
        assert(es.map_values(|e: VarWrite| kv_line(e.0, e.1.0)) =~= Seq::<Seq<char>>::empty());
    } else {
        let rest = es.drop_first();
        assert forall|i: int| 0 <= i < rest.len() implies dump_safe(#[trigger] rest[i].0, rest[i].1.0) by {
            assert(rest[i] == es[i + 1]);
        }
        lemma_lines_of_dump(rest);
        lemma_dump_text_cons(es);
        assert(dump_safe(es[0].0, es[0].1.0));
        lemma_kv_line_entry(es[0].0, es[0].1.0);
        lemma_lines_of_cons(kv_line(es[0].0, es[0].1.0), dump_text(rest));
        assert(es.map_values(|e: VarWrite| kv_line(e.0, e.1.0)) =~= seq![kv_line(es[0].0, es[0].1.0)]
            + rest.map_values(|e: VarWrite| kv_line(e.0, e.1.0)));
    }
}

/// Reading back the `KEY=VALUE` lines of safe entries gives the entries.
proof fn lemma_entries_of_lines(es: Seq<VarWrite>)
    requires
        forall|i: int| 0 <= i < es.len() ==> dump_safe(#[trigger] es[i].0, es[i].1.0),
    ensures
        entries_of(es.map_values(|e: VarWrite| kv_line(e.0, e.1.0))) == es.map_values(
            |e: VarWrite| (e.0, e.1.0),
        ),
    decreases es.len(),
{
    let ls = es.map_values(|e: VarWrite| kv_line(e.0, e.1.0));
    if es.len() == 0 {
        assert(es.map_values(|e: VarWrite| (e.0, e.1.0)) =~= Seq::<(Seq<char>, Seq<char>)>::empty());
    } else {
        let prev = es.drop_last();
        assert forall|i: int| 0 <= i < prev.len() implies dump_safe(#[trigger] prev[i].0, prev[i].1.0) by {
            assert(prev[i] == es[i]);
        }
        lemma_entries_of_lines(prev);
        assert(ls.drop_last() =~= prev.map_values(|e: VarWrite| kv_line(e.0, e.1.0)));
        assert(dump_safe(es[es.len() - 1].0, es[es.len() - 1].1.0));
        lemma_kv_line_entry(es.last().0, es.last().1.0);
        assert(es.map_values(|e: VarWrite| (e.0, e.1.0)) =~= prev.map_values(|e: VarWrite| (e.0, e.1.0)).push(
            (es.last().0, es.last().1.0),
        ));
    }
}

/// Writing distinct names into an empty table gives the table of those entries.
proof fn lemma_upserts_distinct(s: Seq<(String, EnvVariable)>)
    requires
        keys_unique(s),
    ensures
        upserts(Map::empty(), s.map_values(|e: (String, EnvVariable)| (e.0@, e.1@))) == table_of(s),
    decreases s.len(),
{
    if s.len() > 0 {
        let prev = s.drop_last();
        assert(keys_unique(prev));
        lemma_upserts_distinct(prev);
        let w = s.map_values(|e: (String, EnvVariable)| (e.0@, e.1@));
        assert(w.drop_last() =~= prev.map_values(|e: (String, EnvVariable)| (e.0@, e.1@)));
        assert forall|i: int| 0 <= i < prev.len() implies prev[i].0@ != s.last().0@ by {
            assert(prev[i] == s[i]);
        }
        lemma_table_absent(prev, s.last().0@);
    }
}

/// Loading a dump into an empty table, writing that table out as `KEY=VALUE`
/// lines and loading those into an empty table gives the same table back.
pub proof fn lemma_dump_round_trip(dump: Seq<char>, t: VarTable)
    requires
        t.wf(),
        t.view() == loaded(Map::empty(), dump, EnvVariableSource::Script),
    ensures
        loaded(Map::empty(), dump_text(t.entries()), EnvVariableSource::Script) == t.view(),
{
    let src = EnvVariableSource::Script;
    let calls = with_source(dump_entries(dump), src);
    lemma_lines_lack_newline(dump);
    lemma_entries_safe(lines_of(dump));
    let es = t.entries();
    assert forall|i: int| 0 <= i < es.len() implies dump_safe(#[trigger] es[i].0, es[i].1.0) && es[i].1.1
        == src by {
        let k = t.entries@[i].0@;
        lemma_table_lookup(t.entries@, i);
        assert(es[i] == (k, t.view()[k]));
        lemma_upserts_from_empty(calls, k);
        let j = choose|j: int| 0 <= j < calls.len() && #[trigger] calls[j] == (k, t.view()[k]);
        assert(calls[j] == (dump_entries(dump)[j].0, (dump_entries(dump)[j].1, src)));
    }
    lemma_lines_of_dump(es);
    lemma_entries_of_lines(es);
    assert(with_source(es.map_values(|e: VarWrite| (e.0, e.1.0)), src) =~= es);
    lemma_upserts_distinct(t.entries@);
}

impl VarTable {
    /// No name occurs twice.
    pub closed spec fn wf(&self) -> bool {
        keys_unique(self.entries@)
    }

    /// Name to value and source.
    pub closed spec fn view(&self) -> VarMap {
        table_of(self.entries@)
    }

    /// The entries in the order their names were first stored.
    pub closed spec fn entries(&self) -> Seq<VarWrite> {
        self.entries@.map_values(|e: (String, EnvVariable)| (e.0@, e.1@))
    }

    pub fn new() -> (r: Self)
        ensures
            r.wf(),
            r.view() == Map::<Seq<char>, (Seq<char>, EnvVariableSource)>::empty(),
            r.entries().len() == 0,
    {
        let r = VarTable { entries: Vec::new() };
        proof {
            assert(r.entries() =~= Seq::<VarWrite>::empty());
        }
        r
    }

    pub fn snapshot(&self) -> (r: Self)
        requires
            self.wf(),
        ensures
            r.wf(),
            r.view() == self.view(),
            r.entries() == self.entries(),
    {
        let mut out: Vec<(String, EnvVariable)> = Vec::new();
        let mut i: usize = 0;
        while i < self.entries.len()
            invariant
                i <= self.entries@.len(),
                out@ == self.entries@.take(i as int),
            decreases self.entries@.len() - i,
        {
            let e = &self.entries[i];
            out.push((e.0.clone(), EnvVariable { source: e.1.source, value: e.1.value.clone() }));
            i += 1;
            proof {
                assert(out@ =~= self.entries@.take(i as int));
            }
        }
        proof {
            assert(self.entries@.take(self.entries@.len() as int) =~= self.entries@);
        }
        VarTable { entries: out }
    }

    /// The stored pairs, each name once.
    pub fn as_vec(&self) -> (r: &Vec<(String, EnvVariable)>)
        requires
            self.wf(),
        ensures
            keys_unique(r@),
            table_of(r@) == self.view(),
    {
        &self.entries
    }

    /// Index of the pair named `key`, if any.
    fn find(&self, key: &String) -> (r: Option<usize>)
        ensures
            r matches Some(i) ==> i < self.entries@.len() && self.entries@[i as int].0@ == key@,
            r is None ==> forall|i: int| 0 <= i < self.entries@.len() ==> self.entries@[i].0@ != key@,
    {
        let mut i: usize = 0;
        while i < self.entries.len()
            invariant
                i <= self.entries@.len(),
                forall|j: int| 0 <= j < i ==> self.entries@[j].0@ != key@,
            decreases self.entries@.len() - i,
        {
            if self.entries[i].0 == *key {
                return Some(i);
            }
            i += 1;
        }
        None
    }

    pub fn upsert(&mut self, key: String, value: String, source: EnvVariableSource) -> (committed: bool)
        requires
            old(self).wf(),
        ensures
            final(self).wf(),
            final(self).view() == upsert_model(old(self).view(), key@, value@, source),
            committed == upsert_commits(old(self).view(), key@, value@, source),
    {
        match self.find(&key) {
            Some(i) => {
                proof {
                    lemma_table_lookup(self.entries@, i as int);
                }
                let old_priority = self.entries[i].1.source.get_priority();
                let new_priority = source.get_priority();
                let same_value = value == self.entries[i].1.value;
                if new_priority > old_priority || (new_priority == old_priority && !same_value) {
                    let e = (key, EnvVariable { source, value });
                    proof {
                        lemma_table_update(self.entries@, i as int, e);
                    }
                    self.entries.set(i, e);
                    true
                } else {
                    proof {
                        if new_priority == old_priority {
                            let m = old(self).view();
                            assert(m.insert(key@, (value@, source)) =~= m);
                        }
                    }
                    false
                }
            },
            None => {
                proof {
                    lemma_table_absent(self.entries@, key@);
                }
                let e = (key, EnvVariable { source, value });
                proof {
                    lemma_table_push(self.entries@, e);
                }
                self.entries.push(e);
                true
            },
        }
    }

    /// Writes every entry of `other` with its own source.
    pub fn merge(&mut self, other: &VarTable)
        requires
            old(self).wf(),
            other.wf(),
        ensures
            final(self).wf(),
            final(self).view() == merged(old(self).view(), other.view()),
    {
        let ghost src = other.entries@;
        let mut i: usize = 0;
        proof {
            assert(table_of(src.take(0)) =~= Map::<Seq<char>, (Seq<char>, EnvVariableSource)>::empty());
            assert(merged(old(self).view(), table_of(src.take(0))) =~= old(self).view());
        }
        while i < other.entries.len()
            invariant
                i <= src.len(),
                src == other.entries@,
                keys_unique(src),
                self.wf(),
                self.view() == merged(old(self).view(), table_of(src.take(i as int))),
            decreases src.len() - i,
        {
            let e = &other.entries[i];
            let k = e.0.clone();
            let v = e.1.value.clone();
            let s = e.1.source;
            proof {
                let pre = src.take(i as int);
                assert(src.take(i as int + 1).drop_last() =~= pre);
                assert forall|j: int| 0 <= j < pre.len() implies pre[j].0@ != k@ by {
                    assert(pre[j] == src[j]);
                }
                lemma_table_absent(pre, k@);
                lemma_merged_insert(old(self).view(), table_of(pre), k@, (v@, s));
            }
            self.upsert(k, v, s);
            i += 1;
        }
        proof {
            assert(src.take(src.len() as int) =~= src);
        }
    }

    /// Writes, from `source`, the entry of each line of `content` that holds an `=`.
    pub fn load(&mut self, content: &str, source: EnvVariableSource)
        requires
            old(self).wf(),
        ensures
            final(self).wf(),
            final(self).view() == loaded(old(self).view(), content@, source),
    {
        let lines = split_lines(content);
        let ghost ls = lines_of(content@);
        let mut i: usize = 0;
        proof {
            assert(with_source(entries_of(ls.take(0)), source) =~= Seq::<VarWrite>::empty());
        }
        while i < lines.len()
            invariant
                i <= ls.len(),
                lines@.len() == ls.len(),
                forall|j: int| 0 <= j < lines@.len() ==> #[trigger] lines@[j]@ == ls[j],
                self.wf(),
                self.view() == upserts(old(self).view(), with_source(entries_of(ls.take(i as int)), source)),
            decreases ls.len() - i,
        {
            let t = trim_str(lines[i].as_str());
            let ghost prev = entries_of(ls.take(i as int));
            proof {
                assert(ls.take(i as int + 1).drop_last() =~= ls.take(i as int));
                assert(ls.take(i as int + 1).last() == ls[i as int]);
                assert(lines@[i as int]@ == ls[i as int]);
                crate::text::lemma_position_of_bounds(t@, '=');
            }
            match split_at_equals(t) {
                Some((k, v)) => {
                    proof {
                        let w = with_source(prev, source);
                        assert(with_source(prev.push((k@, v@)), source) =~= w.push((k@, (v@, source))));
                        assert(w.push((k@, (v@, source))).drop_last() =~= w);
                        assert(line_entry(ls[i as int]) == Some((k@, v@)));
                        assert(entries_of(ls.take(i as int + 1)) == prev.push((k@, v@)));
                    }
                    self.upsert(k, v, source);
                },
                None => {
                    proof {
                        assert(line_entry(ls[i as int]) is None);
                        assert(entries_of(ls.take(i as int + 1)) == prev);
                    }
                },
            }
            i += 1;
        }
        proof {
            assert(ls.take(ls.len() as int) =~= ls);
        }
    }

    /// Writes, from `source`, the entry of each line of an env file that
    /// holds an `=` and is not a `#` comment.
    pub fn load_file(&mut self, content: &str, source: EnvVariableSource)
        requires
            old(self).wf(),
        ensures
            final(self).wf(),
            final(self).view() == upserts(old(self).view(), with_source(file_entries_of(lines_of(content@)), source)),
    {
        let lines = split_lines(content);
        let ghost ls = lines_of(content@);
        let mut i: usize = 0;
        proof {
            assert(with_source(file_entries_of(ls.take(0)), source) =~= Seq::<VarWrite>::empty());
        }
        while i < lines.len()
            invariant
                i <= ls.len(),
                lines@.len() == ls.len(),
                forall|j: int| 0 <= j < lines@.len() ==> #[trigger] lines@[j]@ == ls[j],
                self.wf(),
                self.view() == upserts(old(self).view(), with_source(file_entries_of(ls.take(i as int)), source)),
            decreases ls.len() - i,
        {
            let t = trim_str(lines[i].as_str());
            let ghost prev = file_entries_of(ls.take(i as int));
            proof {
                assert(ls.take(i as int + 1).drop_last() =~= ls.take(i as int));
                assert(ls.take(i as int + 1).last() == ls[i as int]);
                assert(lines@[i as int]@ == ls[i as int]);
                crate::text::lemma_position_of_bounds(t@, '=');
            }
            let comment = t.unicode_len() > 0 && t.get_char(0) == '#';
            if comment {
                proof {
                    assert(file_entries_of(ls.take(i as int + 1)) == prev);
                }
            } else {
                match split_at_equals(t) {
                    Some((k, v)) => {
                        proof {
                            let w = with_source(prev, source);
                            assert(with_source(prev.push((k@, v@)), source) =~= w.push((k@, (v@, source))));
                            assert(w.push((k@, (v@, source))).drop_last() =~= w);
                            assert(line_entry(ls[i as int]) == Some((k@, v@)));
                            assert(file_entries_of(ls.take(i as int + 1)) == prev.push((k@, v@)));
                        }
                        self.upsert(k, v, source);
                    },
                    None => {
                        proof {
                            assert(line_entry(ls[i as int]) is None);
                            assert(file_entries_of(ls.take(i as int + 1)) == prev);
                        }
                    },
                }
            }
            i += 1;
        }
        proof {
            assert(ls.take(ls.len() as int) =~= ls);
        }
    }

    /// One `KEY=VALUE` line per entry, each ended by `\n`, in entry order.
    pub fn dump(&self) -> (r: String)
        ensures
            r@ == dump_text(self.entries()),
    {
        let ghost es = self.entries();
        let mut out = String::new();
        let mut i: usize = 0;
        proof {
            reveal_strlit("=");
            reveal_strlit("\n");
            assert(es.take(0) =~= Seq::<VarWrite>::empty());
        }
        while i < self.entries.len()
            invariant
                i <= self.entries@.len(),
                es == self.entries(),
                es.len() == self.entries@.len(),
                out@ == dump_text(es.take(i as int)),
            decreases self.entries@.len() - i,
        {
            let e = &self.entries[i];
            out.append(e.0.as_str());
            out.append("=");
            out.append(e.1.value.as_str());
            out.append("\n");
            proof {
                reveal_strlit("=");
                reveal_strlit("\n");
                assert(es.take(i as int + 1).drop_last() =~= es.take(i as int));
                assert(es[i as int] == (e.0@, e.1@));
                assert(out@ =~= dump_text(es.take(i as int + 1)));
            }
            i += 1;
        }
        proof {
            assert(es.take(es.len() as int) =~= es);
        }
        out
    }
}

/// The variables of a NUL-separated `KEY=VALUE` dump, such as a process's
/// `environ` file, from the Default source; a later entry for a name
/// replaces an earlier one, and items without `=` are passed over.
pub fn parse_env_dump(content: &str) -> (r: VarTable)
    ensures
        r.wf(),
        r.view() == upserts(Map::empty(), with_source(nul_entries(split_nul(content@)), EnvVariableSource::Default)),
{
    let items = split_at_nul(content);
    let ghost its = split_nul(content@);
    let src = EnvVariableSource::Default;
    let mut table = VarTable::new();
    let mut i: usize = 0;
    proof {
        assert(with_source(nul_entries(its.take(0)), src) =~= Seq::<VarWrite>::empty());
    }
    while i < items.len()
        invariant
            i <= its.len(),
            items@.len() == its.len(),
            forall|j: int| 0 <= j < items@.len() ==> #[trigger] items@[j]@ == its[j],
            table.wf(),
            table.view() == upserts(Map::empty(), with_source(nul_entries(its.take(i as int)), src)),
        decreases its.len() - i,
    {
        let ghost prev = nul_entries(its.take(i as int));
        proof {
            assert(its.take(i as int + 1).drop_last() =~= its.take(i as int));
            assert(its.take(i as int + 1).last() == its[i as int]);
            assert(items@[i as int]@ == its[i as int]);
            crate::text::lemma_position_of_bounds(its[i as int], '=');
        }
        match split_at_equals(items[i].as_str()) {
            Some((k, v)) => {
                proof {
                    let w = with_source(prev, src);
                    assert(with_source(prev.push((k@, v@)), src) =~= w.push((k@, (v@, src))));
                    assert(w.push((k@, (v@, src))).drop_last() =~= w);
                    assert(nul_entries(its.take(i as int + 1)) == prev.push((k@, v@)));
                }
                table.upsert(k, v, src);
            },
            None => {
                proof {
                    assert(nul_entries(its.take(i as int + 1)) == prev);
                }
            },
        }
        i += 1;
    }
    proof {
        assert(its.take(its.len() as int) =~= its);
    }
    table
}

impl Environment {
    /// The variable table is well formed.
    pub open spec fn wf(&self) -> bool {
        self.variables.wf()
    }

    /// The variables: name to value and source.
    pub open spec fn vars(&self) -> VarMap {
        self.variables.view()
    }

    /// `self` and `o` carry the same run options: platform, working
    /// directory, dry run and section lists.
    pub open spec fn same_options(&self, o: &Self) -> bool {
        &&& self.os == o.os
        &&& self.cwd == o.cwd
        &&& self.dry_run == o.dry_run
        &&& sections_view(self.banned_sections) == sections_view(o.banned_sections)
        &&& sections_view(self.sections) == sections_view(o.sections)
    }

    /// `self` and `o` carry the same run options and execution policy.
    pub open spec fn same_settings(&self, o: &Self) -> bool {
        self.same_options(o) && self.execution_policy == o.execution_policy
    }

    /// An empty store for `os`, fast-fail, no working directory, no filters.
    pub fn new(os: Os) -> (r: Self)
        ensures
            r.wf(),
            r.vars() == Map::<Seq<char>, (Seq<char>, EnvVariableSource)>::empty(),
            r.os == os,
            r.cwd is None,
            r.execution_policy == ExecutionPolicy::FastFail,
            !r.dry_run,
            r.banned_sections is None,
            r.sections is None,
    {
        Environment {
            variables: VarTable::new(),
            os,
            cwd: None,
            execution_policy: ExecutionPolicy::FastFail,
            dry_run: false,
            banned_sections: None,
            sections: None,
        }
    }

    /// A copy of the store and its settings.
    pub fn snapshot(&self) -> (r: Self)
        requires
            self.wf(),
        ensures
            r.wf(),
            r.vars() == self.vars(),
            r.variables.entries() == self.variables.entries(),
            r.same_settings(self),
    {
        let cwd = match &self.cwd {
            Some(c) => Some(c.clone()),
            None => None,
        };
        Environment {
            variables: self.variables.snapshot(),
            os: self.os,
            cwd,
            execution_policy: self.execution_policy,
            dry_run: self.dry_run,
            banned_sections: copy_sections(&self.banned_sections),
            sections: copy_sections(&self.sections),
        }
    }

    /// The stored pairs, each name once.
    pub fn get_variables(&self) -> (r: &Vec<(String, EnvVariable)>)
        requires
            self.wf(),
        ensures
            keys_unique(r@),
            table_of(r@) == self.vars(),
    {
        self.variables.as_vec()
    }

    /// Writes `value` from `source` to `key` unless a higher-ranked source
    /// holds the key; an equal-ranked source replaces a different value.
    /// Returns whether the write took effect.
    pub fn upsert_variable(&mut self, key: String, value: String, source: EnvVariableSource) -> (committed: bool)
        requires
            old(self).wf(),
        ensures
            final(self).wf(),
            final(self).vars() == upsert_model(old(self).vars(), key@, value@, source),
            committed == upsert_commits(old(self).vars(), key@, value@, source),
            final(self).same_settings(old(self)),
    {
        self.variables.upsert(key, value, source)
    }
    /// Writes every variable of `other` with its own source.
    pub fn merge_env(&mut self, other: Environment)
        requires
            old(self).wf(),
            other.wf(),
        ensures
            final(self).wf(),
            final(self).vars() == merged(old(self).vars(), other.vars()),
            final(self).same_settings(old(self)),
    {
        self.variables.merge(&other.variables);
    }

    /// Writes, from `new_origin`, the `KEY=VALUE` entry of each line of
    /// `content`; lines are trimmed, and those without `=` are passed over.
    pub fn load_env(&mut self, content: String, new_origin: EnvVariableSource)
        requires
            old(self).wf(),
        ensures
            final(self).wf(),
            final(self).vars() == loaded(old(self).vars(), content@, new_origin),
            final(self).same_settings(old(self)),
    {
        self.variables.load(content.as_str(), new_origin);
    }

    /// Writes the entries of an env file from the Passed source: one
    /// `KEY=VALUE` per line, `#` comment lines and lines without `=` passed over.
    pub fn load_env_file(&mut self, content: String)
        requires
            old(self).wf(),
        ensures
            final(self).wf(),
            final(self).vars() == upserts(
                old(self).vars(),
                with_source(file_entries_of(lines_of(content@)), EnvVariableSource::Passed),
            ),
            final(self).same_settings(old(self)),
    {
        self.variables.load_file(content.as_str(), EnvVariableSource::Passed);
    }

    /// The variables as `KEY=VALUE` lines, in the order names were first stored.
    pub fn dump_variables(&self) -> (r: String)
        ensures
            r@ == dump_text(self.variables.entries()),
    {
        self.variables.dump()
    }
}

} // verus!
