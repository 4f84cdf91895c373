//! Per-language statistics and their merge algebra. Merging two
//! statistics of the same language adds the file, line and category
//! counts pointwise; the operation is commutative and associative, so
//! aggregates do not depend on the order partial results arrive in.

use vstd::prelude::*;
use crate::language_utils::{QType, LanguageDef, LanguageDefView};
use crate::lines::{line_count, blank_count, count_lines};
use crate::matcher::{grammar_matches, grammar_query_ok, count_matches};

verus! {

/// Addition that stops at the largest representable count instead of
/// overflowing.
pub open spec fn sat_add(a: nat, b: nat) -> nat {
    if a + b > u64::MAX {
        u64::MAX as nat
    } else {
        a + b
    }
}

/// Saturating addition on the executable counters.
pub fn sat_add_u64(a: u64, b: u64) -> (r: u64)
    ensures
        r as nat == sat_add(a as nat, b as nat),
{
    if a > u64::MAX - b {
        u64::MAX
    } else {
        a + b
    }
}

/// One category's accumulated count.
#[derive(Clone, Copy, PartialEq, Eq, Structural, Debug)]
pub struct OpCount {
    pub qtype: QType,
    pub count: u64,
}

/// The category counts a sequence of entries stands for; a missing
/// category means "not counted", distinct from a zero count.
pub open spec fn ops_map(s: Seq<OpCount>) -> Map<QType, nat>
    decreases s.len(),
{
    if s.len() == 0 {
        Map::empty()
    } else {
        ops_map(s.drop_last()).insert(s.last().qtype, s.last().count as nat)
    }
}

/// Entries carry pairwise distinct categories.
pub open spec fn ops_unique(s: Seq<OpCount>) -> bool {
    forall|i: int, j: int|
        0 <= i < j < s.len() ==> (#[trigger] s[i]).qtype != (#[trigger] s[j]).qtype
}

/// With unique categories, each entry is readable back from the map,
/// and the map holds nothing else.
pub proof fn lemma_ops_map_props(s: Seq<OpCount>)
    requires
        ops_unique(s),
    ensures
        forall|i: int|
            0 <= i < s.len() ==> ops_map(s).dom().contains((#[trigger] s[i]).qtype) && ops_map(
                s,
            )[s[i].qtype] == s[i].count as nat,
        forall|k: QType|
            ops_map(s).dom().contains(k) ==> exists|i: int|
                0 <= i < s.len() && (#[trigger] s[i]).qtype == k,
    decreases s.len(),
{
    if s.len() > 0 {
        lemma_ops_map_props(s.drop_last());
        assert(forall|i: int| 0 <= i < s.len() - 1 ==> s.drop_last()[i] == s[i]);
        assert(s.last() == s[s.len() - 1]);
        assert forall|k: QType| ops_map(s).dom().contains(k) implies exists|i: int|
            0 <= i < s.len() && (#[trigger] s[i]).qtype == k by {
            if k == s.last().qtype {
                assert(s[s.len() - 1].qtype == k);
            } else {
                assert(ops_map(s.drop_last()).dom().contains(k));
                let i = choose|i: int|
                    0 <= i < s.drop_last().len() && (#[trigger] s.drop_last()[i]).qtype == k;
                assert(s[i].qtype == k);
            }
        }
    }
}

/// Category counts read back from a sequence of entries stay within
/// the executable counter range.
pub proof fn lemma_ops_map_bounded(s: Seq<OpCount>)
    ensures
        forall|k: QType| get_or_zero(ops_map(s), k) <= u64::MAX,
    decreases s.len(),
{
    if s.len() > 0 {
        lemma_ops_map_bounded(s.drop_last());
        assert forall|k: QType| get_or_zero(ops_map(s), k) <= u64::MAX by {
            if k != s.last().qtype {
                assert(get_or_zero(ops_map(s), k) == get_or_zero(ops_map(s.drop_last()), k));
            }
        }
    }
}

/// Replacing the entry of a category rewrites exactly its key in the
/// map.
proof fn lemma_ops_map_update(s: Seq<OpCount>, i: int, c: OpCount)
    requires
        ops_unique(s),
        0 <= i < s.len(),
        s[i].qtype == c.qtype,
    ensures
        ops_map(s.update(i, c)) =~= ops_map(s).insert(c.qtype, c.count as nat),
    decreases s.len(),
{
    if i == s.len() - 1 {
        assert(s.update(i, c).drop_last() =~= s.drop_last());
        assert(s.update(i, c).last() == c);
    } else {
        assert(s.update(i, c).drop_last() =~= s.drop_last().update(i, c));
        assert(s.update(i, c).last() == s.last());
        assert(ops_unique(s.drop_last())) by {
            assert(forall|j: int| 0 <= j < s.len() - 1 ==> s.drop_last()[j] == s[j]);
        }
        lemma_ops_map_update(s.drop_last(), i, c);
        assert(s.last().qtype != c.qtype);
    }
}

/// Statistics accumulated for one language.
pub struct Stats {
    pub name: String,
    pub files: u64,
    pub total_lines: u64,
    pub blank_lines: u64,
    pub operations: Vec<OpCount>,
}

/// Mathematical value of a `Stats`.
#[verifier::ext_equal]
pub struct StatsView {
    pub name: Seq<char>,
    pub files: nat,
    pub total_lines: nat,
    pub blank_lines: nat,
    pub ops: Map<QType, nat>,
}

impl View for Stats {
    type V = StatsView;

    open spec fn view(&self) -> StatsView {
        StatsView {
            name: self.name@,
            files: self.files as nat,
            total_lines: self.total_lines as nat,
            blank_lines: self.blank_lines as nat,
            ops: ops_map(self.operations@),
        }
    }
}

/// Statistics a language starts from: everything zero, nothing counted.
pub open spec fn empty_stats(name: Seq<char>) -> StatsView {
    StatsView { name: name, files: 0, total_lines: 0, blank_lines: 0, ops: Map::empty() }
}

/// The category count recorded for `k`, defaulting a missing key to 0.
pub open spec fn get_or_zero(m: Map<QType, nat>, k: QType) -> nat {
    if m.dom().contains(k) {
        m[k]
    } else {
        0
    }
}

/// Pointwise saturating sum of two category-count maps, over the union
/// of their keys.
pub open spec fn merge_ops(a: Map<QType, nat>, b: Map<QType, nat>) -> Map<QType, nat> {
    Map::new(
        |k: QType| a.dom().contains(k) || b.dom().contains(k),
        |k: QType| sat_add(get_or_zero(a, k), get_or_zero(b, k)),
    )
}

/// Merged statistics of two instances of the same language.
pub open spec fn spec_merge(a: StatsView, b: StatsView) -> StatsView {
    StatsView {
        name: a.name,
        files: sat_add(a.files, b.files),
        total_lines: sat_add(a.total_lines, b.total_lines),
        blank_lines: sat_add(a.blank_lines, b.blank_lines),
        ops: merge_ops(a.ops, b.ops),
    }
}

/// Raise the count of category `k` by `n`.
pub open spec fn add_count(m: Map<QType, nat>, k: QType, n: nat) -> Map<QType, nat> {
    m.insert(k, sat_add(get_or_zero(m, k), n))
}

/// Category counts after running every query of a descriptor, in order.
pub open spec fn apply_queries(
    m: Map<QType, nat>,
    g: crate::language_utils::Grammar,
    qs: Seq<crate::language_utils::OperationView>,
    content: Seq<char>,
) -> Map<QType, nat>
    decreases qs.len(),
{
    if qs.len() == 0 {
        m
    } else {
        add_count(
            apply_queries(m, g, qs.drop_last(), content),
            qs.last().qtype,
            grammar_matches(g, qs.last().pattern, content),
        )
    }
}

/// Statistics after one more analyzed file: one file, its lines and
/// blank lines, and one run of every declared pattern (none when the
/// descriptor has no grammar).
pub open spec fn spec_update(s: StatsView, d: LanguageDefView, content: Seq<char>) -> StatsView {
    StatsView {
        name: s.name,
        files: sat_add(s.files, 1),
        total_lines: sat_add(s.total_lines, line_count(content)),
        blank_lines: sat_add(s.blank_lines, blank_count(content)),
        ops: match d.grammar {
            Option::None => s.ops,
            Option::Some(g) => apply_queries(s.ops, g, d.queries, content),
        },
    }
}

/// Statistics after a file that could not be decoded: only the file
/// count moves.
pub open spec fn spec_count_file(s: StatsView) -> StatsView {
    StatsView { files: sat_add(s.files, 1), ..s }
}

impl Stats {
    /// Entries are per-category unique and no more lines are blank than
    /// exist.
    pub open spec fn wf(&self) -> bool {
        ops_unique(self.operations@) && self.blank_lines <= self.total_lines
    }

    /// Fresh, empty statistics for the language called `name`.
    pub fn new(name: &str) -> (s: Self)
        ensures
            s@ =~~= empty_stats(name@),
            s.wf(),
    {
        let s = Self {
            name: name.to_owned(),
            files: 0,
            total_lines: 0,
            blank_lines: 0,
            operations: Vec::new(),
        };
        s
    }

    /// The recorded count for one category, `None` when the category
    /// was never counted for this language.
    pub fn get_count(&self, q: QType) -> (r: Option<u64>)
        requires
            self.wf(),
        ensures
            r is Some <==> self@.ops.dom().contains(q),
            r is Some ==> r->0 as nat == self@.ops[q],
    {
        proof {
            lemma_ops_map_props(self.operations@);
        }
        let mut i: usize = 0;
        while i < self.operations.len()
            invariant
                self.wf(),
                i <= self.operations@.len(),
                forall|j: int| 0 <= j < i ==> (#[trigger] self.operations@[j]).qtype != q,
                forall|l: int|
                    0 <= l < self.operations@.len() ==> ops_map(self.operations@).dom().contains(
                        (#[trigger] self.operations@[l]).qtype,
                    ) && ops_map(self.operations@)[self.operations@[l].qtype]
                        == self.operations@[l].count as nat,
                forall|k: QType|
                    ops_map(self.operations@).dom().contains(k) ==> exists|l: int|
                        0 <= l < self.operations@.len() && (#[trigger] self.operations@[l]).qtype
                            == k,
            decreases self.operations@.len() - i,
        {
            if self.operations[i].qtype == q {
                return Some(self.operations[i].count);
            }
            i += 1;
        }
        None
    }

    /// Raise the count of category `q` by `n`, first recording the
    /// category if it was absent.
    pub fn add_op(&mut self, q: QType, n: u64)
        requires
            old(self).wf(),
        ensures
            final(self).wf(),
            final(self)@ =~~= (StatsView { ops: add_count(old(self)@.ops, q, n as nat), ..old(self)@ }),
    {
        proof {
            lemma_ops_map_props(self.operations@);
            lemma_ops_map_bounded(self.operations@);
        }
        let mut i: usize = 0;
        while i < self.operations.len()
            invariant
                *self == *old(self),
                self.wf(),
                i <= self.operations@.len(),
                forall|j: int| 0 <= j < i ==> (#[trigger] self.operations@[j]).qtype != q,
                forall|l: int|
                    0 <= l < self.operations@.len() ==> ops_map(self.operations@).dom().contains(
                        (#[trigger] self.operations@[l]).qtype,
                    ) && ops_map(self.operations@)[self.operations@[l].qtype]
                        == self.operations@[l].count as nat,
                forall|k: QType|
                    ops_map(self.operations@).dom().contains(k) ==> exists|l: int|
                        0 <= l < self.operations@.len() && (#[trigger] self.operations@[l]).qtype
                            == k,
            decreases self.operations@.len() - i,
        {
            if self.operations[i].qtype == q {
                let cur = self.operations[i].count;
                let updated = OpCount { qtype: q, count: sat_add_u64(cur, n) };
                let ghost before = self.operations@;
                self.operations.set(i, updated);
                proof {
                    lemma_ops_map_update(before, i as int, updated);
                    assert(ops_unique(self.operations@)) by {
                        assert(forall|j: int|
                            0 <= j < before.len() && j != i ==> self.operations@[j] == before[j]);
                    }
                    assert(get_or_zero(old(self)@.ops, q) == cur as nat);
                }
                return ;
            }
            i += 1;
        }
        let ghost before = self.operations@;
        self.operations.push(OpCount { qtype: q, count: n });
        proof {
            assert(self.operations@.drop_last() =~= before);
            assert(!ops_map(before).dom().contains(q));
            assert(get_or_zero(old(self)@.ops, q) == 0);
            assert(n as nat == sat_add(0, n as nat));
            assert(ops_unique(self.operations@)) by {
                assert(forall|j: int| 0 <= j < before.len() ==> self.operations@[j] == before[j]);
                assert(self.operations@.last().qtype == q);
            }
        }
    }

    /// Merge another instance of the same language into this one: file,
    /// line and category counts add pointwise.
    pub fn add(&mut self, other: &Stats)
        requires
            old(self).wf(),
            other.wf(),
            old(self).name@ == other.name@,
        ensures
            final(self).wf(),
            final(self)@ =~~= spec_merge(old(self)@, other@),
    {
        self.files = sat_add_u64(self.files, other.files);
        self.total_lines = sat_add_u64(self.total_lines, other.total_lines);
        self.blank_lines = sat_add_u64(self.blank_lines, other.blank_lines);
        proof {
            lemma_ops_map_props(other.operations@);
            assert(ops_map(other.operations@.take(0)) =~= Map::<QType, nat>::empty());
            assert(merge_ops(old(self)@.ops, ops_map(other.operations@.take(0))) =~= old(
                self,
            )@.ops) by {
                lemma_ops_map_bounded(old(self).operations@);
            }
        }
        let mut i: usize = 0;
        while i < other.operations.len()
            invariant
                self.wf(),
                other.wf(),
                i <= other.operations@.len(),
                self.name@ == old(self).name@,
                self.files == sat_add(old(self)@.files, other@.files),
                self.total_lines == sat_add(old(self)@.total_lines, other@.total_lines),
                self.blank_lines == sat_add(old(self)@.blank_lines, other@.blank_lines),
                ops_map(self.operations@) =~= merge_ops(
                    old(self)@.ops,
                    ops_map(other.operations@.take(i as int)),
                ),
                forall|l: int|
                    0 <= l < other.operations@.len() ==> ops_map(other.operations@).dom().contains(
                        (#[trigger] other.operations@[l]).qtype,
                    ) && ops_map(other.operations@)[other.operations@[l].qtype]
                        == other.operations@[l].count as nat,
            decreases other.operations@.len() - i,
        {
            let entry = other.operations[i];
            proof {
                let pfx = other.operations@.take(i as int);
                let pfx1 = other.operations@.take(i as int + 1);
                assert(pfx1.drop_last() =~= pfx);
                assert(pfx1.last() == entry);
                assert(!ops_map(pfx).dom().contains(entry.qtype)) by {
                    assert(ops_unique(pfx)) by {
                        assert(forall|a: int|
                            0 <= a < pfx.len() ==> pfx[a] == other.operations@[a]);
                    }
                    lemma_ops_map_props(pfx);
                    assert forall|l: int| 0 <= l < pfx.len() implies (#[trigger] pfx[l]).qtype
                        != entry.qtype by {
                        assert(pfx[l] == other.operations@[l]);
                    }
                }
                lemma_ops_map_bounded(old(self).operations@);
                lemma_merge_insert(
                    old(self)@.ops,
                    ops_map(pfx),
                    entry.qtype,
                    entry.count as nat,
                );
                assert(ops_map(pfx1) =~= ops_map(pfx).insert(entry.qtype, entry.count as nat));
            }
            self.add_op(entry.qtype, entry.count);
            i += 1;
        }
        proof {
            assert(other.operations@.take(other.operations@.len() as int) =~= other.operations@);
        }
    }
}

/// Every pattern of the descriptor compiles under its grammar
/// (vacuously true without a grammar).
pub open spec fn queries_ok(d: LanguageDefView) -> bool {
    match d.grammar {
        Option::None => true,
        Option::Some(g) => forall|i: int|
            0 <= i < d.queries.len() ==> grammar_query_ok(g, (#[trigger] d.queries[i]).pattern),
    }
}

impl Stats {
    /// Account one analyzed file: bump the file count, add its line and
    /// blank-line counts, and, when the descriptor has a grammar, run
    /// every declared pattern and add its match count to its category.
    /// Returns false, changing nothing, when the grammar rejects one of
    /// the descriptor's patterns: a defect in the descriptor table that
    /// callers must treat as fatal.
    pub fn update(&mut self, content: &str, language: &LanguageDef) -> (ok: bool)
        requires
            old(self).wf(),
        ensures
            final(self).wf(),
            ok == queries_ok(language@),
            ok ==> final(self)@ =~~= spec_update(old(self)@, language@, content@),
            !ok ==> *final(self) == *old(self),
    {
        if let Some(g) = language.grammar {
            let mut counts: Vec<u64> = Vec::new();
            let mut i: usize = 0;
            while i < language.queries.len()
                invariant
                    *self == *old(self),
                    self.wf(),
                    language.grammar == Some(g),
                    i <= language.queries@.len(),
                    counts@.len() == i,
                    forall|j: int|
                        0 <= j < i ==> grammar_query_ok(
                            g,
                            (#[trigger] language@.queries[j]).pattern,
                        ),
                    forall|j: int|
                        0 <= j < i ==> (#[trigger] counts@[j]) as nat == grammar_matches(
                            g,
                            language@.queries[j].pattern,
                            content@,
                        ),
                decreases language.queries@.len() - i,
            {
                match count_matches(&g, language.queries[i].pattern.as_str(), content) {
                    Some(c) => {
                        counts.push(c as u64);
                    },
                    None => {
                        proof {
                            assert(!grammar_query_ok(g, language@.queries[i as int].pattern));
                        }
                        return false;
                    },
                }
                i += 1;
            }
            let mut j: usize = 0;
            while j < counts.len()
                invariant
                    self.wf(),
                    language.grammar == Some(g),
                    counts@.len() == language.queries@.len(),
                    j <= counts@.len(),
                    self.name@ == old(self)@.name,
                    self.files == old(self).files,
                    self.total_lines == old(self).total_lines,
                    self.blank_lines == old(self).blank_lines,
                    forall|l: int|
                        0 <= l < counts@.len() ==> (#[trigger] counts@[l]) as nat
                            == grammar_matches(g, language@.queries[l].pattern, content@),
                    ops_map(self.operations@) =~= apply_queries(
                        old(self)@.ops,
                        g,
                        language@.queries.take(j as int),
                        content@,
                    ),
                decreases counts@.len() - j,
            {
                proof {
                    let qs = language@.queries;
                    assert(qs.take(j as int + 1).drop_last() =~= qs.take(j as int));
                    assert(qs.take(j as int + 1).last() == qs[j as int]);
                }
                self.add_op(language.queries[j].qtype, counts[j]);
                j += 1;
            }
            proof {
                assert(language@.queries.take(language@.queries.len() as int)
                    =~= language@.queries);
            }
            let (total, blank) = count_lines(content);
            self.files = sat_add_u64(self.files, 1);
            self.total_lines = sat_add_u64(self.total_lines, total as u64);
            self.blank_lines = sat_add_u64(self.blank_lines, blank as u64);
            true
        } else {
            let (total, blank) = count_lines(content);
            self.files = sat_add_u64(self.files, 1);
            self.total_lines = sat_add_u64(self.total_lines, total as u64);
            self.blank_lines = sat_add_u64(self.blank_lines, blank as u64);
            true
        }
    }
}

impl Clone for Stats {
    /// An equal, independent copy of these statistics.
    fn clone(&self) -> (r: Self)
        ensures
            r@ =~~= self@,
            r.wf() == self.wf(),
            r.name@ == self.name@,
    {
        let mut ops: Vec<OpCount> = Vec::new();
        let mut i: usize = 0;
        while i < self.operations.len()
            invariant
                i <= self.operations@.len(),
                ops@ =~= self.operations@.take(i as int),
            decreases self.operations@.len() - i,
        {
            ops.push(self.operations[i]);
            i += 1;
        }
        proof {
            assert(self.operations@.take(self.operations@.len() as int) =~= self.operations@);
        }
        Stats {
            name: self.name.clone(),
            files: self.files,
            total_lines: self.total_lines,
            blank_lines: self.blank_lines,
            operations: ops,
        }
    }
}

/// Counts of statistics built by this library stay within the
/// executable counter range.
pub open spec fn bounded(v: StatsView) -> bool {
    v.files <= u64::MAX && v.total_lines <= u64::MAX && v.blank_lines <= u64::MAX && forall|
        k: QType,
    | get_or_zero(v.ops, k) <= u64::MAX
}

/// The view of any executable `Stats` value is bounded.
pub proof fn lemma_view_bounded(s: &Stats)
    ensures
        bounded(s@),
{
    lemma_ops_map_bounded(s.operations@);
}

/// Merging two statistics of the same language is commutative.
pub proof fn lemma_merge_commutative(a: StatsView, b: StatsView)
    requires
        a.name == b.name,
    ensures
        spec_merge(a, b) =~~= spec_merge(b, a),
{
    assert(merge_ops(a.ops, b.ops) =~= merge_ops(b.ops, a.ops));
}

/// Merging statistics of one language is associative; together with
/// commutativity, every grouping and arrival order of partial results
/// gives the same totals.
pub proof fn lemma_merge_associative(a: StatsView, b: StatsView, c: StatsView)
    requires
        a.name == b.name,
        b.name == c.name,
    ensures
        spec_merge(spec_merge(a, b), c) =~~= spec_merge(a, spec_merge(b, c)),
        spec_merge(spec_merge(a, b), c) =~~= spec_merge(b, spec_merge(a, c)),
{
    assert forall|k: QType|
        get_or_zero(merge_ops(a.ops, b.ops), k) == sat_add(
            get_or_zero(a.ops, k),
            get_or_zero(b.ops, k),
        ) by {}
    assert forall|k: QType|
        get_or_zero(merge_ops(b.ops, c.ops), k) == sat_add(
            get_or_zero(b.ops, k),
            get_or_zero(c.ops, k),
        ) by {}
    assert forall|k: QType|
        get_or_zero(merge_ops(a.ops, c.ops), k) == sat_add(
            get_or_zero(a.ops, k),
            get_or_zero(c.ops, k),
        ) by {}
    assert(merge_ops(merge_ops(a.ops, b.ops), c.ops) =~= merge_ops(
        a.ops,
        merge_ops(b.ops, c.ops),
    ));
    assert(merge_ops(merge_ops(a.ops, b.ops), c.ops) =~= merge_ops(
        b.ops,
        merge_ops(a.ops, c.ops),
    ));
}

/// Merging the empty statistics of a language changes nothing.
pub proof fn lemma_merge_empty(a: StatsView)
    requires
        bounded(a),
    ensures
        spec_merge(a, empty_stats(a.name)) =~~= a,
{
    assert(merge_ops(a.ops, Map::<QType, nat>::empty()) =~= a.ops);
}

/// Adding one fresh key into the right operand of a pointwise merge is
/// one `add_count` on the merged map.
proof fn lemma_merge_insert(a: Map<QType, nat>, b: Map<QType, nat>, q: QType, n: nat)
    requires
        !b.dom().contains(q),
        forall|k: QType| get_or_zero(a, k) <= u64::MAX,
    ensures
        add_count(merge_ops(a, b), q, n) =~= merge_ops(a, b.insert(q, n)),
{
    assert(get_or_zero(merge_ops(a, b), q) == sat_add(get_or_zero(a, q), 0));
    assert(sat_add(get_or_zero(a, q), 0) == get_or_zero(a, q));
}

} // verus!
