//! Splitting the file list into contiguous slices for parallel
//! workers, and the guarantee that makes it safe: processing the slices
//! separately and merging the partial aggregates gives exactly the
//! single-threaded result, whatever the worker count.

use vstd::prelude::*;
use crate::language_utils::{LanguageDef, LanguageDefView, QType, Grammar, OperationView};
use crate::languages::{views_of, first_match};
use crate::stats::{
    StatsView, queries_ok, spec_merge, spec_update, spec_count_file, empty_stats, bounded,
    merge_ops, add_count, apply_queries, get_or_zero, sat_add,
};
use crate::analyze::{
    StatsMap, spec_parse_file, parse_file_ok, parse_file, spec_merge_maps, map_view, get_or_empty,
};
use crate::matcher::grammar_matches;

verus! {

/// A file as the pipeline sees it: its name, and its decoded content
/// or nothing when the bytes are not text.
pub open spec fn file_views(s: Seq<(String, Option<String>)>) -> Seq<(Seq<char>, Option<Seq<char>>)> {
    Seq::new(
        s.len(),
        |i: int|
            (
                s[i].0@,
                match s[i].1 {
                    Option::Some(c) => Some(c@),
                    Option::None => None,
                },
            ),
    )
}

/// The aggregation after analyzing a list of files in order, starting
/// from `m`.
pub open spec fn spec_process(
    langs: Seq<LanguageDefView>,
    files: Seq<(Seq<char>, Option<Seq<char>>)>,
    m: Map<Seq<char>, StatsView>,
) -> Map<Seq<char>, StatsView>
    decreases files.len(),
{
    if files.len() == 0 {
        m
    } else {
        spec_parse_file(
            spec_process(langs, files.drop_last(), m),
            langs,
            files.last().0,
            files.last().1,
        )
    }
}

/// Every descriptor's patterns compile under its grammar: the registry
/// is free of the one defect that can stop the pipeline.
pub open spec fn registry_queries_ok(langs: Seq<LanguageDefView>) -> bool {
    forall|i: int| 0 <= i < langs.len() ==> queries_ok(#[trigger] langs[i])
}

/// Analyze a list of files in order into `map`. Returns false when some
/// file's owning descriptor carries a pattern its grammar rejects; a
/// registry free of such defects always succeeds.
pub fn process_files(
    languages: &Vec<LanguageDef>,
    files: &Vec<(String, Option<String>)>,
    map: &mut StatsMap,
) -> (ok: bool)
    requires
        old(map).wf(),
    ensures
        final(map).wf(),
        ok == (forall|i: int|
            0 <= i < files@.len() ==> parse_file_ok(
                views_of(languages@),
                (#[trigger] file_views(files@)[i]).0,
                file_views(files@)[i].1,
            )),
        ok ==> final(map)@ =~~= spec_process(views_of(languages@), file_views(files@), old(map)@),
        registry_queries_ok(views_of(languages@)) ==> ok,
{
    let ghost fv = file_views(files@);
    let mut i: usize = 0;
    proof {
        assert(fv.take(0) =~= Seq::<(Seq<char>, Option<Seq<char>>)>::empty());
    }
    while i < files.len()
        invariant
            map.wf(),
            i <= files@.len(),
            fv == file_views(files@),
            map@ =~~= spec_process(views_of(languages@), fv.take(i as int), old(map)@),
            forall|j: int|
                0 <= j < i ==> parse_file_ok(
                    views_of(languages@),
                    (#[trigger] fv[j]).0,
                    fv[j].1,
                ),
        decreases files@.len() - i,
    {
        let content: Option<&str> = match &files[i].1 {
            Some(c) => Some(c.as_str()),
            None => None,
        };
        let ok = parse_file(languages, map, files[i].0.as_str(), content);
        if !ok {
            proof {
                assert(!parse_file_ok(views_of(languages@), fv[i as int].0, fv[i as int].1));
                if registry_queries_ok(views_of(languages@)) {
                    crate::languages::lemma_first_match(views_of(languages@), fv[i as int].0);
                }
            }
            return false;
        }
        proof {
            assert(fv.take(i as int + 1).drop_last() =~= fv.take(i as int));
            assert(fv.take(i as int + 1).last() == fv[i as int]);
        }
        i += 1;
    }
    proof {
        assert(fv.take(files@.len() as int) =~= fv);
    }
    true
}

/// Every statistics value in the aggregation is named after its key.
pub open spec fn map_keyed(m: Map<Seq<char>, StatsView>) -> bool {
    forall|k: Seq<char>| m.dom().contains(k) ==> (#[trigger] m[k]).name == k
}

/// Every statistics value stays within the executable counter range.
pub open spec fn map_bounded(m: Map<Seq<char>, StatsView>) -> bool {
    forall|k: Seq<char>| m.dom().contains(k) ==> bounded(#[trigger] m[k])
}

/// The aggregation any executable `StatsMap` stands for is keyed and
/// bounded.
pub proof fn lemma_map_view_keyed_bounded(s: Seq<crate::stats::Stats>)
    ensures
        map_keyed(map_view(s)),
        map_bounded(map_view(s)),
    decreases s.len(),
{
    if s.len() > 0 {
        lemma_map_view_keyed_bounded(s.drop_last());
        crate::stats::lemma_view_bounded(&s.last());
    }
}

proof fn lemma_merge_add_count(m: Map<QType, nat>, y: Map<QType, nat>, k: QType, n: nat)
    ensures
        merge_ops(m, add_count(y, k, n)) =~= add_count(merge_ops(m, y), k, n),
{
    assert forall|q: QType|
        merge_ops(m, add_count(y, k, n)).dom().contains(q) implies #[trigger] merge_ops(
        m,
        add_count(y, k, n),
    )[q] == add_count(merge_ops(m, y), k, n)[q] by {
        if q == k {
            assert(get_or_zero(add_count(y, k, n), k) == sat_add(get_or_zero(y, k), n));
            assert(get_or_zero(merge_ops(m, y), k) == sat_add(
                get_or_zero(m, k),
                get_or_zero(y, k),
            ));
        } else {
            assert(get_or_zero(add_count(y, k, n), q) == get_or_zero(y, q));
        }
    }
}

proof fn lemma_merge_apply(
    m: Map<QType, nat>,
    y: Map<QType, nat>,
    g: Grammar,
    qs: Seq<OperationView>,
    content: Seq<char>,
)
    ensures
        merge_ops(m, apply_queries(y, g, qs, content)) =~= apply_queries(
            merge_ops(m, y),
            g,
            qs,
            content,
        ),
    decreases qs.len(),
{
    if qs.len() > 0 {
        lemma_merge_apply(m, y, g, qs.drop_last(), content);
        lemma_merge_add_count(
            m,
            apply_queries(y, g, qs.drop_last(), content),
            qs.last().qtype,
            grammar_matches(g, qs.last().pattern, content),
        );
    }
}

/// Accounting a file into the right operand of a merge, then merging,
/// is the same as accounting it into the merged statistics.
proof fn lemma_merge_update(x: StatsView, y: StatsView, d: LanguageDefView, c: Seq<char>)
    ensures
        spec_merge(x, spec_update(y, d, c)) =~~= spec_update(spec_merge(x, y), d, c),
{
    match d.grammar {
        Option::Some(g) => {
            lemma_merge_apply(x.ops, y.ops, g, d.queries, c);
        },
        Option::None => {},
    }
}

proof fn lemma_merge_count_file(x: StatsView, y: StatsView)
    ensures
        spec_merge(x, spec_count_file(y)) =~~= spec_count_file(spec_merge(x, y)),
{
}

/// Analyzing one file into the right operand of a map merge commutes
/// with the merge.
proof fn lemma_parse_merge(
    a: Map<Seq<char>, StatsView>,
    b: Map<Seq<char>, StatsView>,
    langs: Seq<LanguageDefView>,
    f: Seq<char>,
    c: Option<Seq<char>>,
)
    requires
        map_keyed(a),
        map_bounded(a),
    ensures
        spec_parse_file(spec_merge_maps(a, b), langs, f, c) =~~= spec_merge_maps(
            a,
            spec_parse_file(b, langs, f, c),
        ),
{
    match first_match(langs, f) {
        Option::None => {},
        Option::Some(i) => {
            let key = match c {
                Option::None => "Binary"@,
                Option::Some(_) => langs[i].name,
            };
            let m = spec_merge_maps(a, b);
            if a.dom().contains(key) && b.dom().contains(key) {
                assert(get_or_empty(m, key) == spec_merge(a[key], b[key]));
                match c {
                    Option::None => {
                        lemma_merge_count_file(a[key], b[key]);
                    },
                    Option::Some(cc) => {
                        lemma_merge_update(a[key], b[key], langs[i], cc);
                    },
                }
            } else if a.dom().contains(key) {
                assert(get_or_empty(m, key) == a[key]);
                assert(a[key].name == key);
                crate::stats::lemma_merge_empty(a[key]);
                match c {
                    Option::None => {
                        lemma_merge_count_file(a[key], empty_stats(key));
                    },
                    Option::Some(cc) => {
                        lemma_merge_update(a[key], empty_stats(key), langs[i], cc);
                    },
                }
            } else if b.dom().contains(key) {
                assert(get_or_empty(m, key) == b[key]);
            } else {
                assert(get_or_empty(m, key) == empty_stats(key));
            }
            assert(spec_parse_file(m, langs, f, c) =~~= spec_merge_maps(
                a,
                spec_parse_file(b, langs, f, c),
            ));
        },
    }
}

/// `spec_update` keeps names, and keeps every count representable.
proof fn lemma_apply_bounded(
    y: Map<QType, nat>,
    g: Grammar,
    qs: Seq<OperationView>,
    c: Seq<char>,
)
    requires
        forall|k: QType| get_or_zero(y, k) <= u64::MAX,
    ensures
        forall|k: QType| get_or_zero(apply_queries(y, g, qs, c), k) <= u64::MAX,
    decreases qs.len(),
{
    if qs.len() > 0 {
        lemma_apply_bounded(y, g, qs.drop_last(), c);
        let prev = apply_queries(y, g, qs.drop_last(), c);
        assert forall|k: QType|
            get_or_zero(apply_queries(y, g, qs, c), k) <= u64::MAX by {
            if k != qs.last().qtype {
                assert(get_or_zero(apply_queries(y, g, qs, c), k) == get_or_zero(prev, k));
            }
        }
    }
}

/// Analyzing one file preserves a keyed and bounded aggregation.
proof fn lemma_parse_preserves(
    m: Map<Seq<char>, StatsView>,
    langs: Seq<LanguageDefView>,
    f: Seq<char>,
    c: Option<Seq<char>>,
)
    requires
        map_keyed(m),
        map_bounded(m),
    ensures
        map_keyed(spec_parse_file(m, langs, f, c)),
        map_bounded(spec_parse_file(m, langs, f, c)),
{
    match first_match(langs, f) {
        Option::None => {},
        Option::Some(i) => {
            match c {
                Option::None => {},
                Option::Some(cc) => {
                    let key = langs[i].name;
                    let base = get_or_empty(m, key);
                    match langs[i].grammar {
                        Option::Some(g) => {
                            assert(forall|k: QType| get_or_zero(base.ops, k) <= u64::MAX);
                            lemma_apply_bounded(base.ops, g, langs[i].queries, cc);
                        },
                        Option::None => {},
                    }
                },
            }
        },
    }
}

/// Processing a file list into the right operand of a map merge
/// commutes with the merge.
proof fn lemma_process_merge(
    a: Map<Seq<char>, StatsView>,
    b: Map<Seq<char>, StatsView>,
    langs: Seq<LanguageDefView>,
    files: Seq<(Seq<char>, Option<Seq<char>>)>,
)
    requires
        map_keyed(a),
        map_bounded(a),
    ensures
        spec_process(langs, files, spec_merge_maps(a, b)) =~~= spec_merge_maps(
            a,
            spec_process(langs, files, b),
        ),
    decreases files.len(),
{
    if files.len() > 0 {
        lemma_process_merge(a, b, langs, files.drop_last());
        lemma_parse_merge(
            a,
            spec_process(langs, files.drop_last(), b),
            langs,
            files.last().0,
            files.last().1,
        );
    }
}

/// Processing preserves a keyed and bounded aggregation.
proof fn lemma_process_preserves(
    langs: Seq<LanguageDefView>,
    files: Seq<(Seq<char>, Option<Seq<char>>)>,
    m: Map<Seq<char>, StatsView>,
)
    requires
        map_keyed(m),
        map_bounded(m),
    ensures
        map_keyed(spec_process(langs, files, m)),
        map_bounded(spec_process(langs, files, m)),
    decreases files.len(),
{
    if files.len() > 0 {
        lemma_process_preserves(langs, files.drop_last(), m);
        lemma_parse_preserves(
            spec_process(langs, files.drop_last(), m),
            langs,
            files.last().0,
            files.last().1,
        );
    }
}

/// Processing a concatenation of two file lists equals processing the
/// first, processing the second from scratch, and merging the results.
pub proof fn lemma_process_concat(
    langs: Seq<LanguageDefView>,
    f1: Seq<(Seq<char>, Option<Seq<char>>)>,
    f2: Seq<(Seq<char>, Option<Seq<char>>)>,
    m: Map<Seq<char>, StatsView>,
)
    requires
        map_keyed(m),
        map_bounded(m),
    ensures
        spec_process(langs, f1 + f2, m) =~~= spec_merge_maps(
            spec_process(langs, f1, m),
            spec_process(langs, f2, Map::empty()),
        ),
    decreases f2.len(),
{
    if f2.len() == 0 {
        assert(f1 + f2 =~= f1);
        assert(spec_merge_maps(spec_process(langs, f1, m), Map::empty()) =~~= spec_process(
            langs,
            f1,
            m,
        ));
    } else {
        lemma_process_concat(langs, f1, f2.drop_last(), m);
        assert((f1 + f2).drop_last() =~= f1 + f2.drop_last());
        assert((f1 + f2).last() == f2.last());
        lemma_process_preserves(langs, f1, m);
        lemma_parse_merge(
            spec_process(langs, f1, m),
            spec_process(langs, f2.drop_last(), Map::empty()),
            langs,
            f2.last().0,
            f2.last().1,
        );
    }
}

/// The contiguous slices the partitioner hands to `n` workers.
pub open spec fn spec_partition(files: Seq<(Seq<char>, Option<Seq<char>>)>, n: int) -> Seq<
    Seq<(Seq<char>, Option<Seq<char>>)>,
> {
    let k = files.len() as int / n;
    Seq::new(
        n as nat,
        |i: int|
            if i < n - 1 {
                files.subrange(i * k, (i + 1) * k)
            } else {
                files.subrange(i * k, files.len() as int)
            },
    )
}

/// The workers' partial aggregates merged in order.
pub open spec fn merge_results(rs: Seq<Map<Seq<char>, StatsView>>) -> Map<Seq<char>, StatsView>
    decreases rs.len(),
{
    if rs.len() == 0 {
        Map::empty()
    } else {
        spec_merge_maps(merge_results(rs.drop_last()), rs.last())
    }
}

/// One list holding the slices' files back to back.
pub open spec fn concat_all(parts: Seq<Seq<(Seq<char>, Option<Seq<char>>)>>) -> Seq<
    (Seq<char>, Option<Seq<char>>),
>
    decreases parts.len(),
{
    if parts.len() == 0 {
        Seq::empty()
    } else {
        concat_all(parts.drop_last()) + parts.last()
    }
}

/// Processing each slice from scratch and merging the results in order
/// equals processing all the slices' files in one pass.
proof fn lemma_merge_results_process(
    langs: Seq<LanguageDefView>,
    parts: Seq<Seq<(Seq<char>, Option<Seq<char>>)>>,
)
    ensures
        merge_results(Seq::new(parts.len(), |i: int| spec_process(langs, parts[i], Map::empty())))
            =~~= spec_process(langs, concat_all(parts), Map::empty()),
    decreases parts.len(),
{
    let results = Seq::new(parts.len(), |i: int| spec_process(langs, parts[i], Map::empty()));
    if parts.len() == 0 {
        assert(merge_results(results) =~~= Map::<Seq<char>, StatsView>::empty());
    } else {
        lemma_merge_results_process(langs, parts.drop_last());
        assert(results.drop_last() =~= Seq::new(
            parts.drop_last().len(),
            |i: int| spec_process(langs, parts.drop_last()[i], Map::empty()),
        ));
        assert(results.last() == spec_process(langs, parts.last(), Map::empty()));
        assert(map_keyed(Map::<Seq<char>, StatsView>::empty()));
        assert(map_bounded(Map::<Seq<char>, StatsView>::empty()));
        lemma_process_concat(langs, concat_all(parts.drop_last()), parts.last(), Map::empty());
    }
}

proof fn lemma_partition_concat_prefix(files: Seq<(Seq<char>, Option<Seq<char>>)>, n: int, j: int)
    requires
        1 <= n,
        0 <= j <= n,
    ensures
        concat_all(spec_partition(files, n).take(j)) =~= files.subrange(
            0,
            if j < n {
                j * (files.len() as int / n)
            } else {
                files.len() as int
            },
        ),
    decreases j,
{
    let k = files.len() as int / n;
    let len = files.len() as int;
    assert(0 <= n * k <= len && k >= 0) by (nonlinear_arith)
        requires
            n >= 1,
            k == len / n,
            len >= 0,
    {}
    if j == 0 {
        assert(concat_all(spec_partition(files, n).take(0)) =~= Seq::<
            (Seq<char>, Option<Seq<char>>),
        >::empty());
    } else {
        lemma_partition_concat_prefix(files, n, j - 1);
        let parts = spec_partition(files, n);
        assert(parts.take(j).drop_last() =~= parts.take(j - 1));
        assert(parts.take(j).last() == parts[j - 1]);
        assert((j - 1) * k >= 0 && (j - 1) * k <= (n - 1) * k <= n * k && j * k <= n * k)
            by (nonlinear_arith)
            requires
                1 <= j <= n,
                k >= 0,
        {}
        assert(j * k == (j - 1) * k + k) by (nonlinear_arith) {}
        if j < n {
            assert(parts[j - 1] == files.subrange((j - 1) * k, j * k));
            assert(files.subrange(0, (j - 1) * k) + files.subrange((j - 1) * k, j * k)
                =~= files.subrange(0, j * k));
        } else {
            assert(parts[j - 1] == files.subrange((j - 1) * k, len));
            assert(files.subrange(0, (j - 1) * k) + files.subrange((j - 1) * k, len)
                =~= files.subrange(0, len));
        }
    }
}

/// Partition invariance: for any worker count from 1 to the number of
/// files, analyzing the partitioner's contiguous slices independently
/// and merging the partial aggregates in order yields exactly the
/// single-pass aggregation of the whole file list.
pub proof fn lemma_partition_invariance(
    langs: Seq<LanguageDefView>,
    files: Seq<(Seq<char>, Option<Seq<char>>)>,
    n: int,
)
    requires
        1 <= n <= files.len(),
    ensures
        merge_results(
            Seq::new(
                n as nat,
                |i: int| spec_process(langs, spec_partition(files, n)[i], Map::empty()),
            ),
        ) =~~= spec_process(langs, files, Map::empty()),
{
    let parts = spec_partition(files, n);
    lemma_merge_results_process(langs, parts);
    lemma_partition_concat_prefix(files, n, n);
    assert(parts.take(n as int) =~= parts);
    assert(concat_all(parts) =~= files.subrange(0, files.len() as int));
    assert(files.subrange(0, files.len() as int) =~= files);
}

/// Merging aggregations is commutative: which worker's result arrives
/// first does not matter.
pub proof fn lemma_merge_maps_commutative(
    a: Map<Seq<char>, StatsView>,
    b: Map<Seq<char>, StatsView>,
)
    requires
        map_keyed(a),
        map_keyed(b),
    ensures
        spec_merge_maps(a, b) =~~= spec_merge_maps(b, a),
{
    assert forall|k: Seq<char>|
        spec_merge_maps(a, b).dom().contains(k) implies #[trigger] spec_merge_maps(a, b)[k]
        =~~= spec_merge_maps(b, a)[k] by {
        if a.dom().contains(k) && b.dom().contains(k) {
            crate::stats::lemma_merge_commutative(a[k], b[k]);
        }
    }
}

/// Merging aggregations is associative: grouping of partial results
/// does not matter.
pub proof fn lemma_merge_maps_associative(
    a: Map<Seq<char>, StatsView>,
    b: Map<Seq<char>, StatsView>,
    c: Map<Seq<char>, StatsView>,
)
    requires
        map_keyed(a),
        map_keyed(b),
        map_keyed(c),
    ensures
        spec_merge_maps(spec_merge_maps(a, b), c) =~~= spec_merge_maps(a, spec_merge_maps(b, c)),
{
    assert forall|k: Seq<char>|
        spec_merge_maps(spec_merge_maps(a, b), c).dom().contains(k) implies #[trigger] spec_merge_maps(
        spec_merge_maps(a, b),
        c,
    )[k] =~~= spec_merge_maps(a, spec_merge_maps(b, c))[k] by {
        if a.dom().contains(k) && b.dom().contains(k) && c.dom().contains(k) {
            crate::stats::lemma_merge_associative(a[k], b[k], c[k]);
        }
    }
}

/// The slice boundaries for `jobs` workers over `len` files: the first
/// `jobs - 1` slices hold `len / jobs` files each, the last absorbs the
/// remainder.
pub fn slice_bounds(len: usize, jobs: usize) -> (r: Vec<(usize, usize)>)
    requires
        1 <= jobs,
    ensures
        r@.len() == jobs,
        forall|i: int|
            0 <= i < jobs - 1 ==> (#[trigger] r@[i]) == (
                (i * (len as int / jobs as int)) as usize,
                ((i + 1) * (len as int / jobs as int)) as usize,
            ),
        r@[jobs - 1] == (((jobs - 1) * (len as int / jobs as int)) as usize, len),
        forall|i: int| 0 <= i < jobs ==> (#[trigger] r@[i]).0 <= r@[i].1 <= len,
{
    let k = len / jobs;
    proof {
        assert(jobs * k <= len) by (nonlinear_arith)
            requires
                jobs >= 1,
                k == len / jobs,
        {}
    }
    let mut r: Vec<(usize, usize)> = Vec::new();
    let mut i: usize = 0;
    while i < jobs - 1
        invariant
            1 <= jobs,
            k == len as int / jobs as int,
            jobs * k <= len,
            i <= jobs - 1,
            r@.len() == i,
            forall|j: int|
                0 <= j < i ==> (#[trigger] r@[j]) == ((j * k) as usize, ((j + 1) * k) as usize),
        decreases jobs - 1 - i,
    {
        proof {
            assert(i * k <= jobs * k && (i + 1) * k <= jobs * k) by (nonlinear_arith)
                requires
                    0 <= i <= jobs - 1,
                    k >= 0,
            {}
            assert((i + 1) * k == i * k + k) by (nonlinear_arith) {}
        }
        let lo = i * k;
        let hi = lo + k;
        r.push((lo, hi));
        i += 1;
    }
    proof {
        assert((jobs - 1) * k <= jobs * k) by (nonlinear_arith)
            requires
                jobs >= 1,
                k >= 0,
        {}
        assert((jobs - 1) * k == jobs * k - k) by (nonlinear_arith) {}
    }
    let lo = (jobs - 1) * k;
    r.push((lo, len));
    proof {
        assert forall|i: int| 0 <= i < jobs implies (#[trigger] r@[i]).0 <= r@[i].1 <= len by {
            if i < jobs - 1 {
                assert(r@[i] == ((i * k) as usize, ((i + 1) * k) as usize));
                assert(0 <= i * k <= (i + 1) * k <= jobs * k) by (nonlinear_arith)
                    requires
                        0 <= i < jobs - 1,
                        k >= 0,
                {}
            }
        }
    }
    r
}

} // verus!
