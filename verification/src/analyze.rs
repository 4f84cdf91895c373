//! The language-keyed aggregation map and the per-file pipeline:
//! classify a file, analyze its content under the owning descriptor,
//! and account it in the statistics of its language.

use vstd::prelude::*;
use crate::language_utils::{LanguageDef, LanguageDefView, QType, str_eq, spec_extension,
    extension_of};
use crate::languages::{first_match, views_of, str_views};
use crate::stats::{
    Stats, StatsView, empty_stats, spec_update, spec_count_file, queries_ok, sat_add_u64, sat_add,
    add_count, get_or_zero,
};

verus! {

/// The mapping a sequence of per-language statistics stands for, keyed
/// by language name.
pub open spec fn map_view(s: Seq<Stats>) -> Map<Seq<char>, StatsView>
    decreases s.len(),
{
    if s.len() == 0 {
        Map::empty()
    } else {
        map_view(s.drop_last()).insert(s.last().name@, s.last()@)
    }
}

/// Entries carry pairwise distinct language names.
pub open spec fn names_unique(s: Seq<Stats>) -> bool {
    forall|i: int, j: int|
        0 <= i < j < s.len() ==> (#[trigger] s[i]).name@ != (#[trigger] s[j]).name@
}

/// With unique names, each entry is readable back from the mapping, and
/// the mapping holds nothing else.
pub proof fn lemma_map_view_props(s: Seq<Stats>)
    requires
        names_unique(s),
    ensures
        forall|i: int|
            0 <= i < s.len() ==> map_view(s).dom().contains((#[trigger] s[i]).name@) && map_view(
                s,
            )[s[i].name@] == s[i]@,
        forall|k: Seq<char>|
            map_view(s).dom().contains(k) ==> exists|i: int|
                0 <= i < s.len() && (#[trigger] s[i]).name@ == k,
    decreases s.len(),
{
    if s.len() > 0 {
        assert(names_unique(s.drop_last())) by {
            assert(forall|i: int| 0 <= i < s.len() - 1 ==> s.drop_last()[i] == s[i]);
        }
        lemma_map_view_props(s.drop_last());
        assert(forall|i: int| 0 <= i < s.len() - 1 ==> s.drop_last()[i] == s[i]);
        assert(s.last() == s[s.len() - 1]);
        assert forall|k: Seq<char>| map_view(s).dom().contains(k) implies exists|i: int|
            0 <= i < s.len() && (#[trigger] s[i]).name@ == k by {
            if k == s.last().name@ {
                assert(s[s.len() - 1].name@ == k);
            } else {
                assert(map_view(s.drop_last()).dom().contains(k));
                let i = choose|i: int|
                    0 <= i < s.drop_last().len() && (#[trigger] s.drop_last()[i]).name@ == k;
                assert(s[i].name@ == k);
            }
        }
    }
}

/// Replacing the entry of a language rewrites exactly its key.
proof fn lemma_map_view_update(s: Seq<Stats>, i: int, e: Stats)
    requires
        names_unique(s),
        0 <= i < s.len(),
        s[i].name@ == e.name@,
    ensures
        map_view(s.update(i, e)) =~= map_view(s).insert(e.name@, e@),
    decreases s.len(),
{
    if i == s.len() - 1 {
        assert(s.update(i, e).drop_last() =~= s.drop_last());
        assert(s.update(i, e).last() == e);
    } else {
        assert(s.update(i, e).drop_last() =~= s.drop_last().update(i, e));
        assert(s.update(i, e).last() == s.last());
        assert(names_unique(s.drop_last())) by {
            assert(forall|j: int| 0 <= j < s.len() - 1 ==> s.drop_last()[j] == s[j]);
        }
        lemma_map_view_update(s.drop_last(), i, e);
        assert(s.last().name@ != e.name@);
    }
}

/// The per-language aggregation: statistics keyed by language name.
pub struct StatsMap {
    pub entries: Vec<Stats>,
}

impl View for StatsMap {
    type V = Map<Seq<char>, StatsView>;

    open spec fn view(&self) -> Map<Seq<char>, StatsView> {
        map_view(self.entries@)
    }
}

impl StatsMap {
    /// Names are unique keys and every entry is well formed.
    pub open spec fn wf(&self) -> bool {
        names_unique(self.entries@) && forall|i: int|
            0 <= i < self.entries@.len() ==> (#[trigger] self.entries@[i]).wf()
    }

    /// An empty aggregation.
    pub fn new() -> (r: Self)
        ensures
            r.wf(),
            r@ =~~= Map::<Seq<char>, StatsView>::empty(),
    {
        StatsMap { entries: Vec::new() }
    }

    /// The position of the entry for `name`, if one exists.
    fn find(&self, name: &str) -> (r: Option<usize>)
        requires
            self.wf(),
        ensures
            r matches Some(j) ==> j < self.entries@.len() && self.entries@[j as int].name@ == name@
                && self@.dom().contains(name@) && self@[name@] == self.entries@[j as int]@,
            r is None ==> !self@.dom().contains(name@),
    {
        proof {
            lemma_map_view_props(self.entries@);
        }
        let mut i: usize = 0;
        while i < self.entries.len()
            invariant
                self.wf(),
                i <= self.entries@.len(),
                forall|j: int| 0 <= j < i ==> (#[trigger] self.entries@[j]).name@ != name@,
                forall|l: int|
                    0 <= l < self.entries@.len() ==> map_view(self.entries@).dom().contains(
                        (#[trigger] self.entries@[l]).name@,
                    ) && map_view(self.entries@)[self.entries@[l].name@] == self.entries@[l]@,
                forall|k: Seq<char>|
                    map_view(self.entries@).dom().contains(k) ==> exists|l: int|
                        0 <= l < self.entries@.len() && (#[trigger] self.entries@[l]).name@ == k,
            decreases self.entries@.len() - i,
        {
            if str_eq(self.entries[i].name.as_str(), name) {
                return Some(i);
            }
            i += 1;
        }
        None
    }

    /// The statistics recorded for `name`, if any.
    pub fn get(&self, name: &str) -> (r: Option<&Stats>)
        requires
            self.wf(),
        ensures
            r is Some <==> self@.dom().contains(name@),
            r matches Some(s) ==> s@ == self@[name@] && s.wf(),
    {
        match self.find(name) {
            Some(j) => Some(&self.entries[j]),
            None => None,
        }
    }
}

/// The merge of two aggregations: languages present in both have their
/// statistics merged, the rest are carried over unchanged.
pub open spec fn spec_merge_maps(
    a: Map<Seq<char>, StatsView>,
    b: Map<Seq<char>, StatsView>,
) -> Map<Seq<char>, StatsView> {
    Map::new(
        |k: Seq<char>| a.dom().contains(k) || b.dom().contains(k),
        |k: Seq<char>|
            if a.dom().contains(k) && b.dom().contains(k) {
                crate::stats::spec_merge(a[k], b[k])
            } else if a.dom().contains(k) {
                a[k]
            } else {
                b[k]
            },
    )
}

impl StatsMap {
    /// Merge another aggregation into this one, keyed by language name:
    /// merge statistics where the language is already present, insert
    /// them where it is not.
    pub fn merge_from(&mut self, other: &StatsMap)
        requires
            old(self).wf(),
            other.wf(),
        ensures
            final(self).wf(),
            final(self)@ =~~= spec_merge_maps(old(self)@, other@),
    {
        proof {
            lemma_map_view_props(other.entries@);
            assert(map_view(other.entries@.take(0)) =~= Map::<Seq<char>, StatsView>::empty());
            assert(spec_merge_maps(old(self)@, map_view(other.entries@.take(0))) =~~= old(
                self,
            )@);
        }
        let mut i: usize = 0;
        while i < other.entries.len()
            invariant
                self.wf(),
                other.wf(),
                i <= other.entries@.len(),
                self@ =~~= spec_merge_maps(old(self)@, map_view(other.entries@.take(i as int))),
                forall|l: int|
                    0 <= l < other.entries@.len() ==> map_view(other.entries@).dom().contains(
                        (#[trigger] other.entries@[l]).name@,
                    ) && map_view(other.entries@)[other.entries@[l].name@]
                        == other.entries@[l]@,
            decreases other.entries@.len() - i,
        {
            proof {
                let pfx = other.entries@.take(i as int);
                let pfx1 = other.entries@.take(i as int + 1);
                assert(pfx1.drop_last() =~= pfx);
                assert(pfx1.last() == other.entries@[i as int]);
                assert(!map_view(pfx).dom().contains(other.entries@[i as int].name@)) by {
                    assert(names_unique(pfx)) by {
                        assert(forall|a: int| 0 <= a < pfx.len() ==> pfx[a] == other.entries@[a]);
                    }
                    lemma_map_view_props(pfx);
                    assert forall|l: int| 0 <= l < pfx.len() implies (#[trigger] pfx[l]).name@
                        != other.entries@[i as int].name@ by {
                        assert(pfx[l] == other.entries@[l]);
                    }
                }
            }
            let key_idx = self.find(other.entries[i].name.as_str());
            match key_idx {
                Some(j) => {
                    let mut entry = self.entries[j].clone();
                    entry.add(&other.entries[i]);
                    let ghost before = self.entries@;
                    self.entries.set(j, entry);
                    proof {
                        lemma_map_view_update(before, j as int, self.entries@[j as int]);
                        assert(names_unique(self.entries@)) by {
                            assert(forall|l: int|
                                0 <= l < before.len() && l != j ==> self.entries@[l]
                                    == before[l]);
                        }
                    }
                },
                None => {
                    let entry = other.entries[i].clone();
                    let ghost before = self.entries@;
                    self.entries.push(entry);
                    proof {
                        assert(self.entries@.drop_last() =~= before);
                        assert(names_unique(self.entries@)) by {
                            lemma_map_view_props(before);
                            assert(forall|l: int|
                                0 <= l < before.len() ==> self.entries@[l] == before[l]);
                        }
                    }
                },
            }
            i += 1;
        }
        proof {
            assert(other.entries@.take(other.entries@.len() as int) =~= other.entries@);
        }
    }
}

/// Where the "Total" pseudo-language starts: zeros for the three
/// tracked categories, so the summary row always shows them.
pub open spec fn total_zero() -> StatsView {
    StatsView {
        name: "Total"@,
        files: 0,
        total_lines: 0,
        blank_lines: 0,
        ops: Map::empty().insert(QType::Functions, 0nat).insert(QType::Variables, 0nat).insert(
            QType::Loops,
            0nat,
        ),
    }
}

/// Fold one language's statistics into the total: files, lines and the
/// three tracked categories.
pub open spec fn total_acc(t: StatsView, v: StatsView) -> StatsView {
    StatsView {
        name: t.name,
        files: sat_add(t.files, v.files),
        total_lines: sat_add(t.total_lines, v.total_lines),
        blank_lines: sat_add(t.blank_lines, v.blank_lines),
        ops: add_count(
            add_count(
                add_count(t.ops, QType::Functions, get_or_zero(v.ops, QType::Functions)),
                QType::Variables,
                get_or_zero(v.ops, QType::Variables),
            ),
            QType::Loops,
            get_or_zero(v.ops, QType::Loops),
        ),
    }
}

/// The "Total" pseudo-language over a sequence of per-language
/// statistics.
pub open spec fn spec_total(s: Seq<StatsView>) -> StatsView
    decreases s.len(),
{
    if s.len() == 0 {
        total_zero()
    } else {
        total_acc(spec_total(s.drop_last()), s.last())
    }
}

/// The statistics a vector of them stands for, entry by entry.
pub open spec fn stats_views(s: Seq<Stats>) -> Seq<StatsView> {
    Seq::new(s.len(), |i: int| s[i]@)
}

impl StatsMap {
    /// Compute the "Total" pseudo-language: every per-language
    /// statistics merged into one row across the three tracked
    /// categories.
    pub fn total_stats(&self) -> (r: Stats)
        requires
            self.wf(),
        ensures
            r.wf(),
            r@ =~~= spec_total(stats_views(self.entries@)),
    {
        let mut total = Stats::new("Total");
        total.add_op(QType::Functions, 0);
        total.add_op(QType::Variables, 0);
        total.add_op(QType::Loops, 0);
        proof {
            assert(total@ =~~= total_zero());
        }
        let mut i: usize = 0;
        while i < self.entries.len()
            invariant
                self.wf(),
                total.wf(),
                i <= self.entries@.len(),
                total@ =~~= spec_total(stats_views(self.entries@.take(i as int))),
            decreases self.entries@.len() - i,
        {
            proof {
                let vs = stats_views(self.entries@);
                assert(stats_views(self.entries@.take(i as int + 1)).drop_last() =~~= stats_views(
                    self.entries@.take(i as int),
                ));
                assert(stats_views(self.entries@.take(i as int + 1)).last() == self.entries@[
                    i as int]@);
            }
            total.files = sat_add_u64(total.files, self.entries[i].files);
            total.total_lines = sat_add_u64(total.total_lines, self.entries[i].total_lines);
            total.blank_lines = sat_add_u64(total.blank_lines, self.entries[i].blank_lines);
            let functions = match self.entries[i].get_count(QType::Functions) {
                Some(n) => n,
                None => 0,
            };
            total.add_op(QType::Functions, functions);
            let variables = match self.entries[i].get_count(QType::Variables) {
                Some(n) => n,
                None => 0,
            };
            total.add_op(QType::Variables, variables);
            let loops = match self.entries[i].get_count(QType::Loops) {
                Some(n) => n,
                None => 0,
            };
            total.add_op(QType::Loops, loops);
            i += 1;
        }
        proof {
            assert(self.entries@.take(self.entries@.len() as int) =~= self.entries@);
        }
        total
    }
}

/// Whether the registry walk for `f` reaches the descriptor called
/// "Other" before some earlier descriptor owns the file.
pub open spec fn reaches_other(langs: Seq<LanguageDefView>, f: Seq<char>) -> bool
    decreases langs.len(),
{
    if langs.len() == 0 {
        false
    } else if langs[0].name == "Other"@ {
        true
    } else if langs[0].matches(f) {
        false
    } else {
        reaches_other(langs.skip(1), f)
    }
}

/// The distinct extensions, in order of first appearance, of the files
/// that fall through to the "Other" bucket.
pub open spec fn spec_other_endings(langs: Seq<LanguageDefView>, files: Seq<Seq<char>>) -> Seq<
    Seq<char>,
>
    decreases files.len(),
{
    if files.len() == 0 {
        Seq::empty()
    } else {
        let prev = spec_other_endings(langs, files.drop_last());
        let f = files.last();
        if reaches_other(langs, f) {
            match spec_extension(f) {
                Option::Some(e) => if prev.contains(e) {
                    prev
                } else {
                    prev.push(e)
                },
                Option::None => prev,
            }
        } else {
            prev
        }
    }
}

/// Does the registry walk for `filename` reach the "Other" descriptor?
fn reaches_other_exec(languages: &Vec<LanguageDef>, filename: &str) -> (r: bool)
    ensures
        r == reaches_other(views_of(languages@), filename@),
{
    let mut j: usize = 0;
    proof {
        assert(views_of(languages@).skip(0) =~= views_of(languages@));
    }
    while j < languages.len()
        invariant
            j <= languages@.len(),
            reaches_other(views_of(languages@), filename@) == reaches_other(
                views_of(languages@).skip(j as int),
                filename@,
            ),
        decreases languages@.len() - j,
    {
        proof {
            assert(views_of(languages@).skip(j as int)[0] == languages@[j as int]@);
            assert(views_of(languages@).skip(j as int).skip(1) =~= views_of(languages@).skip(
                j as int + 1,
            ));
        }
        if str_eq(languages[j].name.as_str(), "Other") {
            return true;
        }
        if languages[j].matches_filename(filename) {
            return false;
        }
        j += 1;
    }
    proof {
        assert(views_of(languages@).skip(languages@.len() as int).len() == 0);
    }
    false
}

/// Is `s` one of the strings in `v`?
fn contains_str(v: &Vec<String>, s: &str) -> (r: bool)
    ensures
        r == str_views(v@).contains(s@),
{
    let mut i: usize = 0;
    while i < v.len()
        invariant
            i <= v@.len(),
            forall|j: int| 0 <= j < i ==> (#[trigger] v@[j])@ != s@,
        decreases v@.len() - i,
    {
        if str_eq(v[i].as_str(), s) {
            proof {
                assert(str_views(v@)[i as int] == s@);
            }
            return true;
        }
        i += 1;
    }
    proof {
        assert forall|j: int| 0 <= j < str_views(v@).len() implies str_views(v@)[j] != s@ by {}
    }
    false
}

/// Collect the distinct extensions of the files that no registered
/// language owns before the "Other" bucket.
pub fn other_endings(languages: &Vec<LanguageDef>, files: &Vec<String>) -> (r: Vec<String>)
    ensures
        str_views(r@) =~~= spec_other_endings(views_of(languages@), str_views(files@)),
{
    let mut r: Vec<String> = Vec::new();
    let mut i: usize = 0;
    proof {
        assert(str_views(files@.take(0)) =~~= Seq::<Seq<char>>::empty());
    }
    while i < files.len()
        invariant
            i <= files@.len(),
            str_views(r@) =~~= spec_other_endings(
                views_of(languages@),
                str_views(files@.take(i as int)),
            ),
        decreases files@.len() - i,
    {
        proof {
            assert(str_views(files@.take(i as int + 1)).drop_last() =~~= str_views(
                files@.take(i as int),
            ));
            assert(str_views(files@.take(i as int + 1)).last() == files@[i as int]@);
        }
        if reaches_other_exec(languages, files[i].as_str()) {
            if let Some(ext) = extension_of(files[i].as_str()) {
                if !contains_str(&r, ext.as_str()) {
                    r.push(ext);
                    proof {
                        assert(str_views(r@).drop_last() =~~= str_views(r@.drop_last()));
                    }
                }
            }
        }
        i += 1;
    }
    proof {
        assert(files@.take(files@.len() as int) =~= files@);
    }
    r
}

/// The statistics value a possibly missing entry contributes to.
pub open spec fn get_or_empty(m: Map<Seq<char>, StatsView>, key: Seq<char>) -> StatsView {
    if m.dom().contains(key) {
        m[key]
    } else {
        empty_stats(key)
    }
}

/// The content handed to the analyzer: decoded text, or nothing for a
/// file whose bytes are not text.
pub open spec fn opt_view(content: Option<&str>) -> Option<Seq<char>> {
    match content {
        Option::None => None,
        Option::Some(c) => Some(c@),
    }
}

/// The aggregation after one file: undecodable content counts one file
/// in the "Binary" bucket, decoded content is analyzed under the first
/// descriptor that owns the filename, and a file no descriptor owns is
/// ignored.
pub open spec fn spec_parse_file(
    m: Map<Seq<char>, StatsView>,
    langs: Seq<LanguageDefView>,
    filename: Seq<char>,
    content: Option<Seq<char>>,
) -> Map<Seq<char>, StatsView> {
    match first_match(langs, filename) {
        Option::None => m,
        Option::Some(i) => match content {
            Option::None => m.insert("Binary"@, spec_count_file(get_or_empty(m, "Binary"@))),
            Option::Some(c) => m.insert(
                langs[i].name,
                spec_update(get_or_empty(m, langs[i].name), langs[i], c),
            ),
        },
    }
}

/// Whether analyzing this file can fail: only a matched descriptor
/// whose grammar rejects one of its patterns makes the pipeline refuse.
pub open spec fn parse_file_ok(
    langs: Seq<LanguageDefView>,
    filename: Seq<char>,
    content: Option<Seq<char>>,
) -> bool {
    match first_match(langs, filename) {
        Option::None => true,
        Option::Some(i) => content is None || queries_ok(langs[i]),
    }
}

/// Classify `filename` against the registry and account the file under
/// its language: content that is not text goes to the "Binary" bucket,
/// text is analyzed under the owning descriptor. Returns false and
/// changes nothing when that descriptor's patterns are rejected by its
/// grammar, a descriptor-table defect the caller must treat as fatal.
pub fn parse_file(
    languages: &Vec<LanguageDef>,
    language_map: &mut StatsMap,
    filename: &str,
    content: Option<&str>,
) -> (ok: bool)
    requires
        old(language_map).wf(),
    ensures
        final(language_map).wf(),
        ok == parse_file_ok(views_of(languages@), filename@, opt_view(content)),
        ok ==> final(language_map)@ =~~= spec_parse_file(
            old(language_map)@,
            views_of(languages@),
            filename@,
            opt_view(content),
        ),
        !ok ==> *final(language_map) == *old(language_map),
{
    match crate::languages::classify(languages, filename) {
        None => true,
        Some(i) => {
            proof {
                crate::languages::lemma_first_match(views_of(languages@), filename@);
                assert(i < languages@.len());
            }
            match content {
                None => {
                    match language_map.find("Binary") {
                        Some(j) => {
                            let mut entry = language_map.entries[j].clone();
                            entry.files = sat_add_u64(entry.files, 1);
                            let ghost before = language_map.entries@;
                            language_map.entries.set(j, entry);
                            proof {
                                lemma_map_view_update(
                                    before,
                                    j as int,
                                    language_map.entries@[j as int],
                                );
                                assert(names_unique(language_map.entries@)) by {
                                    assert(forall|l: int|
                                        0 <= l < before.len() && l != j
                                            ==> language_map.entries@[l] == before[l]);
                                }
                            }
                        },
                        None => {
                            let mut fresh = Stats::new("Binary");
                            fresh.files = 1;
                            let ghost before = language_map.entries@;
                            language_map.entries.push(fresh);
                            proof {
                                assert(language_map.entries@.drop_last() =~= before);
                                assert(names_unique(language_map.entries@)) by {
                                    lemma_map_view_props(before);
                                    assert(forall|l: int|
                                        0 <= l < before.len() ==> language_map.entries@[l]
                                            == before[l]);
                                }
                                assert(sat_add(0, 1) == 1nat);
                            }
                        },
                    }
                    true
                },
                Some(text) => {
                    let idx = language_map.find(languages[i].name.as_str());
                    let mut entry = match idx {
                        Some(j) => language_map.entries[j].clone(),
                        None => Stats::new(languages[i].name.as_str()),
                    };
                    let ok = entry.update(text, &languages[i]);
                    if ok {
                        let ghost before = language_map.entries@;
                        match idx {
                            Some(j) => {
                                language_map.entries.set(j, entry);
                                proof {
                                    lemma_map_view_update(
                                        before,
                                        j as int,
                                        language_map.entries@[j as int],
                                    );
                                    assert(names_unique(language_map.entries@)) by {
                                        assert(forall|l: int|
                                            0 <= l < before.len() && l != j
                                                ==> language_map.entries@[l] == before[l]);
                                    }
                                }
                            },
                            None => {
                                language_map.entries.push(entry);
                                proof {
                                    assert(language_map.entries@.drop_last() =~= before);
                                    assert(names_unique(language_map.entries@)) by {
                                        lemma_map_view_props(before);
                                        assert(forall|l: int|
                                            0 <= l < before.len() ==> language_map.entries@[l]
                                                == before[l]);
                                    }
                                }
                            },
                        }
                    }
                    proof {
                        assert(views_of(languages@)[i as int] == languages@[i as int]@);
                    }
                    ok
                },
            }
        },
    }
}

} // verus!
