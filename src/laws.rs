use vstd::prelude::*;
use crate::history::{entry_hits, history_hits, HistoryEntryView};
use crate::matcher::{matched_below, matched_indices, regex_matches};
use crate::occurrence::{file_hit, schema_exclusive, OccurrenceView};
use crate::scan::{file_hits, line_hits};
use crate::filter::allowed_by;

verus! {

/// The (line index, pattern index) pairs at which a pattern matches a line
/// of `texts`, line by line, and within a line by ascending pattern index.
pub open spec fn match_pairs(pats: Seq<Seq<char>>, texts: Seq<Seq<char>>) -> Seq<(int, int)>
    decreases texts.len(),
{
    if texts.len() == 0 {
        Seq::empty()
    } else {
        let k = texts.len() - 1;
        match_pairs(pats, texts.drop_last()) + matched_indices(pats, texts.last()).map_values(
            |j: int| (k, j),
        )
    }
}

/// Strictly increasing in the order of lines, then of patterns.
pub open spec fn lex_increasing(s: Seq<(int, int)>) -> bool {
    forall|a: int, b: int|
        0 <= a < b < s.len() ==> (s[a].0 < s[b].0 || (s[a].0 == s[b].0 && s[a].1 < s[b].1))
}

proof fn lemma_matched_below(pats: Seq<Seq<char>>, text: Seq<char>, n: int)
    requires
        0 <= n,
    ensures
        forall|a: int, b: int|
            0 <= a < b < matched_below(pats, text, n).len() ==> matched_below(pats, text, n)[a]
                < matched_below(pats, text, n)[b],
        forall|a: int|
            0 <= a < matched_below(pats, text, n).len() ==> 0 <= #[trigger] matched_below(
                pats,
                text,
                n,
            )[a] < n,
        forall|j: int|
            matched_below(pats, text, n).contains(j) <==> 0 <= j < n && regex_matches(
                pats[j],
                text,
            ),
    decreases n,
{
    if n > 0 {
        lemma_matched_below(pats, text, n - 1);
        let prev = matched_below(pats, text, n - 1);
        if regex_matches(pats[n - 1], text) {
            let cur = prev.push(n - 1);
            assert forall|j: int| cur.contains(j) <==> 0 <= j < n && regex_matches(pats[j], text) by {
                if j == n - 1 {
                    assert(cur[prev.len() as int] == j);
                }
                if 0 <= j < n && regex_matches(pats[j], text) && j < n - 1 {
                    assert(prev.contains(j));
                    let w = choose|w: int| 0 <= w < prev.len() && prev[w] == j;
                    assert(cur[w] == j);
                }
                if cur.contains(j) {
                    let w = choose|w: int| 0 <= w < cur.len() && cur[w] == j;
                    if w < prev.len() {
                        assert(prev[w] == j);
                        assert(prev.contains(j));
                    }
                }
            }
        } else {
            assert forall|j: int| prev.contains(j) <==> 0 <= j < n && regex_matches(pats[j], text) by {
                if j == n - 1 && prev.contains(j) {
                    let w = choose|w: int| 0 <= w < prev.len() && prev[w] == j;
                }
            }
        }
    }
}

proof fn lemma_pairs(pats: Seq<Seq<char>>, texts: Seq<Seq<char>>)
    ensures
        lex_increasing(match_pairs(pats, texts)),
        forall|a: int|
            0 <= a < match_pairs(pats, texts).len() ==> 0 <= (#[trigger] match_pairs(
                pats,
                texts,
            )[a]).0 < texts.len(),
        forall|k: int, j: int|
            match_pairs(pats, texts).contains((k, j)) <==> 0 <= k < texts.len() && 0 <= j
                < pats.len() && regex_matches(pats[j], texts[k]),
    decreases texts.len(),
{
    if texts.len() > 0 {
        let k = texts.len() - 1;
        let prev = match_pairs(pats, texts.drop_last());
        let ms = matched_indices(pats, texts.last());
        let row = ms.map_values(|j: int| (k, j));
        let all = prev + row;
        lemma_pairs(pats, texts.drop_last());
        lemma_matched_below(pats, texts.last(), pats.len() as int);
        assert(all == match_pairs(pats, texts));
        assert forall|a: int| 0 <= a < all.len() implies 0 <= (#[trigger] all[a]).0 < texts.len() by {
            if a < prev.len() {
                assert(all[a] == prev[a]);
            } else {
                assert(all[a] == row[a - prev.len()]);
            }
        }
        assert forall|a: int, b: int| 0 <= a < b < all.len() implies (all[a].0 < all[b].0 || (
        all[a].0 == all[b].0 && all[a].1 < all[b].1)) by {
            if b < prev.len() {
                assert(all[a] == prev[a] && all[b] == prev[b]);
            } else if a < prev.len() {
                assert(all[a] == prev[a]);
                assert(all[b] == row[b - prev.len()]);
            } else {
                assert(all[a] == row[a - prev.len()]);
                assert(all[b] == row[b - prev.len()]);
            }
        }
        assert forall|kk: int, j: int|
            all.contains((kk, j)) <==> 0 <= kk < texts.len() && 0 <= j < pats.len()
                && regex_matches(pats[j], texts[kk]) by {
            if all.contains((kk, j)) {
                let w = choose|w: int| 0 <= w < all.len() && all[w] == (kk, j);
                if w < prev.len() {
                    assert(prev[w] == (kk, j));
                    assert(prev.contains((kk, j)));
                    assert(texts.drop_last()[kk] == texts[kk]);
                } else {
                    assert(row[w - prev.len()] == (kk, j));
                    assert(ms.contains(j));
                }
            }
            if 0 <= kk < texts.len() && 0 <= j < pats.len() && regex_matches(pats[j], texts[kk]) {
                if kk < k {
                    assert(texts.drop_last()[kk] == texts[kk]);
                    assert(prev.contains((kk, j)));
                    let w = choose|w: int| 0 <= w < prev.len() && prev[w] == (kk, j);
                    assert(all[w] == (kk, j));
                } else {
                    assert(ms.contains(j));
                    let w = choose|w: int| 0 <= w < ms.len() && ms[w] == j;
                    assert(all[prev.len() + w] == (kk, j));
                }
            }
        }
    }
}

/// Completeness of the file scan: the records for the lines `texts` of file
/// `path` correspond one to one, in order, to the (line, pattern) pairs at
/// which the pattern matches the line's text; each such pair occurs exactly
/// once, and no other pair occurs.
pub proof fn lemma_file_scan_complete(
    labels: Seq<Seq<char>>,
    pats: Seq<Seq<char>>,
    path: Seq<char>,
    texts: Seq<Seq<char>>,
)
    ensures
        file_hits(labels, pats, path, texts) == match_pairs(pats, texts).map_values(
            |q: (int, int)| file_hit(labels[q.1], path, (q.0 + 1) as nat),
        ),
        forall|k: int, j: int|
            match_pairs(pats, texts).contains((k, j)) <==> 0 <= k < texts.len() && 0 <= j
                < pats.len() && regex_matches(pats[j], texts[k]),
        match_pairs(pats, texts).no_duplicates(),
    decreases texts.len(),
{
    lemma_pairs(pats, texts);
    let mp = match_pairs(pats, texts);
    assert forall|a: int, b: int| 0 <= a < mp.len() && 0 <= b < mp.len() && a != b implies mp[a]
        != mp[b] by {
        if a < b {
            assert(mp[a].0 < mp[b].0 || mp[a].1 < mp[b].1);
        } else {
            assert(mp[b].0 < mp[a].0 || mp[b].1 < mp[a].1);
        }
    }
    if texts.len() > 0 {
        lemma_file_scan_complete(labels, pats, path, texts.drop_last());
        let f = |q: (int, int)| file_hit(labels[q.1], path, (q.0 + 1) as nat);
        let k = texts.len() - 1;
        let ms = matched_indices(pats, texts.last());
        let prev = match_pairs(pats, texts.drop_last());
        let row = ms.map_values(|j: int| (k, j));
        assert(row.map_values(f) =~= line_hits(labels, path, texts.len() as nat, ms));
        assert((prev + row).map_values(f) =~= prev.map_values(f) + row.map_values(f));
    } else {
        assert(mp.map_values(|q: (int, int)| file_hit(labels[q.1], path, (q.0 + 1) as nat))
            =~= Seq::<OccurrenceView>::empty());
    }
}

/// Soundness of the file scan: every record of the lines `texts` of file
/// `path` names a pattern that matches the text of the line it gives, a line
/// numbered from 1 within the file.
pub proof fn lemma_file_scan_sound(
    labels: Seq<Seq<char>>,
    pats: Seq<Seq<char>>,
    path: Seq<char>,
    texts: Seq<Seq<char>>,
)
    ensures
        forall|a: int|
            #![trigger file_hits(labels, pats, path, texts)[a]]
            0 <= a < file_hits(labels, pats, path, texts).len() ==> exists|j: int|
                #![trigger labels[j]]
                {
                    let o = file_hits(labels, pats, path, texts)[a];
                    &&& 1 <= o.line <= texts.len()
                    &&& 0 <= j < pats.len()
                    &&& regex_matches(pats[j], texts[o.line - 1])
                    &&& o == file_hit(labels[j], path, o.line)
                },
{
    lemma_file_scan_complete(labels, pats, path, texts);
    let mp = match_pairs(pats, texts);
    let hits = file_hits(labels, pats, path, texts);
    assert forall|a: int| #![trigger hits[a]] 0 <= a < hits.len() implies exists|j: int|
        #![trigger labels[j]]
        {
            let o = hits[a];
            &&& 1 <= o.line <= texts.len()
            &&& 0 <= j < pats.len()
            &&& regex_matches(pats[j], texts[o.line - 1])
            &&& o == file_hit(labels[j], path, o.line)
        } by {
        let q = mp[a];
        assert(mp.contains(q));
        assert(hits[a] == file_hit(labels[q.1], path, (q.0 + 1) as nat));
        assert(hits[a].line - 1 == q.0);
    }
}

/// Every record of a file scan has the shape of a file hit: a line number
/// above 0 and no commit fields.
pub proof fn lemma_file_hits_shape(
    labels: Seq<Seq<char>>,
    pats: Seq<Seq<char>>,
    path: Seq<char>,
    texts: Seq<Seq<char>>,
)
    ensures
        forall|a: int|
            0 <= a < file_hits(labels, pats, path, texts).len() ==> {
                let o = #[trigger] file_hits(labels, pats, path, texts)[a];
                &&& o.line > 0
                &&& o.commit_hash is None
                &&& schema_exclusive(o)
            },
    decreases texts.len(),
{
    if texts.len() > 0 {
        lemma_file_hits_shape(labels, pats, path, texts.drop_last());
        let prev = file_hits(labels, pats, path, texts.drop_last());
        let row = line_hits(
            labels,
            path,
            texts.len() as nat,
            matched_indices(pats, texts.last()),
        );
        let all = file_hits(labels, pats, path, texts);
        assert forall|a: int| 0 <= a < all.len() implies ({
            let o = #[trigger] all[a];
            &&& o.line > 0
            &&& o.commit_hash is None
            &&& schema_exclusive(o)
        }) by {
            if a < prev.len() {
                assert(all[a] == prev[a]);
            } else {
                assert(all[a] == row[a - prev.len()]);
            }
        }
    }
}

/// Every record of a history scan has the shape of a history hit: line 0
/// and a commit hash.
pub proof fn lemma_history_hits_shape(
    labels: Seq<Seq<char>>,
    pats: Seq<Seq<char>>,
    entries: Seq<HistoryEntryView>,
)
    ensures
        forall|a: int|
            0 <= a < history_hits(labels, pats, entries).len() ==> {
                let o = #[trigger] history_hits(labels, pats, entries)[a];
                &&& o.line == 0
                &&& o.commit_hash is Some
                &&& schema_exclusive(o)
            },
    decreases entries.len(),
{
    if entries.len() > 0 {
        lemma_history_hits_shape(labels, pats, entries.drop_last());
        let prev = history_hits(labels, pats, entries.drop_last());
        let row = entry_hits(labels, pats, entries.last());
        let all = history_hits(labels, pats, entries);
        assert forall|a: int| 0 <= a < all.len() implies ({
            let o = #[trigger] all[a];
            &&& o.line == 0
            &&& o.commit_hash is Some
            &&& schema_exclusive(o)
        }) by {
            if a < prev.len() {
                assert(all[a] == prev[a]);
            } else {
                assert(all[a] == row[a - prev.len()]);
            }
        }
    }
}

/// The records of several batches, batch after batch.
pub open spec fn concat_all(parts: Seq<Seq<OccurrenceView>>) -> Seq<OccurrenceView>
    decreases parts.len(),
{
    if parts.len() == 0 {
        Seq::empty()
    } else {
        concat_all(parts.drop_last()) + parts.last()
    }
}

proof fn lemma_concat_add(a: Seq<Seq<OccurrenceView>>, b: Seq<Seq<OccurrenceView>>)
    ensures
        concat_all(a + b) == concat_all(a) + concat_all(b),
    decreases b.len(),
{
    if b.len() == 0 {
        assert(a + b =~= a);
        assert(concat_all(a) + concat_all(b) =~= concat_all(a));
    } else {
        lemma_concat_add(a, b.drop_last());
        assert((a + b).drop_last() =~= a + b.drop_last());
        assert((a + b).last() == b.last());
        assert(concat_all(a + b) =~= concat_all(a) + concat_all(b));
    }
}

proof fn lemma_concat_remove(s: Seq<Seq<OccurrenceView>>, j: int)
    requires
        0 <= j < s.len(),
    ensures
        concat_all(s).to_multiset() == concat_all(s.remove(j)).to_multiset().add(
            s[j].to_multiset(),
        ),
{
    broadcast use vstd::seq_lib::lemma_multiset_commutative;
    broadcast use vstd::multiset::group_multiset_axioms;

    let a = s.take(j);
    let c = s.skip(j + 1);
    assert(s =~= a.push(s[j]) + c);
    assert(s.remove(j) =~= a + c);
    lemma_concat_add(a.push(s[j]), c);
    lemma_concat_add(a, c);
    assert(a.push(s[j]).drop_last() =~= a);
    let x = concat_all(a);
    let y = concat_all(c);
    assert((x + s[j]).to_multiset() == x.to_multiset().add(s[j].to_multiset()));
    assert(((x + s[j]) + y).to_multiset() == (x + s[j]).to_multiset().add(y.to_multiset()));
    assert((x + y).to_multiset() == x.to_multiset().add(y.to_multiset()));
    assert(concat_all(s).to_multiset() =~= concat_all(s.remove(j)).to_multiset().add(
        s[j].to_multiset(),
    ));
}

/// Combining the records of separately scanned files does not depend on
/// the order in which the files were finished: batches that are a
/// rearrangement of each other give the same records, each as often.
pub proof fn lemma_merge_order_irrelevant(
    parts1: Seq<Seq<OccurrenceView>>,
    parts2: Seq<Seq<OccurrenceView>>,
)
    requires
        parts1.to_multiset() == parts2.to_multiset(),
    ensures
        concat_all(parts1).to_multiset() == concat_all(parts2).to_multiset(),
    decreases parts1.len(),
{
    broadcast use vstd::seq_lib::group_to_multiset_ensures;
    broadcast use vstd::multiset::group_multiset_axioms;

    if parts1.len() == 0 {
        vstd::seq_lib::to_multiset_len(parts1);
        vstd::seq_lib::to_multiset_len(parts2);
        assert(parts2.len() == 0);
        assert(parts2 =~= Seq::<Seq<OccurrenceView>>::empty());
    } else {
        let x = parts1.last();
        let rest = parts1.drop_last();
        assert(parts1 =~= rest.push(x));
        assert(parts2.to_multiset().count(x) > 0);
        assert(parts2.contains(x));
        let j = choose|j: int| 0 <= j < parts2.len() && parts2[j] == x;
        let rest2 = parts2.remove(j);
        assert(rest2.to_multiset() =~= rest.to_multiset());
        lemma_merge_order_irrelevant(rest, rest2);
        lemma_concat_remove(parts2, j);
        assert(parts1.remove(parts1.len() - 1) =~= rest);
        lemma_concat_remove(parts1, parts1.len() - 1);
    }
}

proof fn lemma_map_permutation<A, B>(s1: Seq<A>, s2: Seq<A>, f: spec_fn(A) -> B)
    requires
        s1.to_multiset() == s2.to_multiset(),
    ensures
        s1.map_values(f).to_multiset() == s2.map_values(f).to_multiset(),
    decreases s1.len(),
{
    broadcast use vstd::seq_lib::group_to_multiset_ensures;
    broadcast use vstd::multiset::group_multiset_axioms;

    if s1.len() == 0 {
        vstd::seq_lib::to_multiset_len(s1);
        vstd::seq_lib::to_multiset_len(s2);
        assert(s1.map_values(f) =~= Seq::<B>::empty());
        assert(s2.map_values(f) =~= Seq::<B>::empty());
    } else {
        let x = s1.last();
        let rest = s1.drop_last();
        assert(s1 =~= rest.push(x));
        assert(s2.to_multiset().count(x) > 0);
        assert(s2.contains(x));
        let j = choose|j: int| 0 <= j < s2.len() && s2[j] == x;
        let rest2 = s2.remove(j);
        assert(rest2.to_multiset() =~= rest.to_multiset());
        lemma_map_permutation(rest, rest2, f);
        assert(rest2.map_values(f) =~= s2.map_values(f).remove(j));
        assert(s1.map_values(f) =~= rest.map_values(f).push(f(x)));
        assert(s2.map_values(f)[j] == f(x));
        vstd::seq_lib::to_multiset_remove(s2.map_values(f), j);
        assert(s2.map_values(f).to_multiset() =~= s2.map_values(f).remove(j).to_multiset().insert(
            f(x),
        ));
    }
}

/// The records of one file, given as its path and the texts of its lines.
pub open spec fn records_of_file(
    labels: Seq<Seq<char>>,
    pats: Seq<Seq<char>>,
    file: (Seq<char>, Seq<Seq<char>>),
) -> Seq<OccurrenceView> {
    file_hits(labels, pats, file.0, file.1)
}

/// Scanning is repeatable: scanning the same files again, whatever the
/// order in which the files are finished, gives the same records, each as
/// often.
pub proof fn lemma_rescan_same_records(
    labels: Seq<Seq<char>>,
    pats: Seq<Seq<char>>,
    files1: Seq<(Seq<char>, Seq<Seq<char>>)>,
    files2: Seq<(Seq<char>, Seq<Seq<char>>)>,
)
    requires
        files1.to_multiset() == files2.to_multiset(),
    ensures
        concat_all(files1.map_values(|f: (Seq<char>, Seq<Seq<char>>)| records_of_file(labels, pats, f)))
            .to_multiset() == concat_all(
            files2.map_values(|f: (Seq<char>, Seq<Seq<char>>)| records_of_file(labels, pats, f)),
        ).to_multiset(),
{
    let g = |f: (Seq<char>, Seq<Seq<char>>)| records_of_file(labels, pats, f);
    lemma_map_permutation(files1, files2, g);
    lemma_merge_order_irrelevant(files1.map_values(g), files2.map_values(g));
}

/// A file of a tree: its path, its name and the texts of its lines.
pub type FileText = (Seq<char>, Seq<char>, Seq<Seq<char>>);

/// The records of a tree: file by file, the records of each file whose name
/// the allow-list admits.
pub open spec fn tree_records(
    labels: Seq<Seq<char>>,
    pats: Seq<Seq<char>>,
    allowed: Seq<Seq<char>>,
    files: Seq<FileText>,
) -> Seq<OccurrenceView>
    decreases files.len(),
{
    if files.len() == 0 {
        Seq::empty()
    } else {
        let f = files.last();
        tree_records(labels, pats, allowed, files.drop_last()) + if allowed_by(f.1, allowed) {
            file_hits(labels, pats, f.0, f.2)
        } else {
            Seq::empty()
        }
    }
}

/// `o` is a file hit of file `f` for a pattern that matches the line it
/// names.
pub open spec fn hit_of_file(
    labels: Seq<Seq<char>>,
    pats: Seq<Seq<char>>,
    o: OccurrenceView,
    f: FileText,
) -> bool {
    &&& o.path == f.0
    &&& 1 <= o.line <= f.2.len()
    &&& exists|j: int|
        #![trigger labels[j]]
        0 <= j < pats.len() && regex_matches(pats[j], f.2[o.line - 1]) && o == file_hit(
            labels[j],
            f.0,
            o.line,
        )
}

/// `o` is a hit of a file of `files` whose name the allow-list admits.
pub open spec fn from_allowed_file(
    labels: Seq<Seq<char>>,
    pats: Seq<Seq<char>>,
    allowed: Seq<Seq<char>>,
    files: Seq<FileText>,
    o: OccurrenceView,
) -> bool {
    exists|i: int|
        #![trigger files[i]]
        0 <= i < files.len() && allowed_by(files[i].1, allowed) && hit_of_file(
            labels,
            pats,
            o,
            files[i],
        )
}

/// Soundness of a tree scan: every record comes from a file whose name the
/// allow-list admits, and names a pattern that matches the line it gives.
/// A file whose extension is not allowed contributes no record.
pub proof fn lemma_tree_scan_sound(
    labels: Seq<Seq<char>>,
    pats: Seq<Seq<char>>,
    allowed: Seq<Seq<char>>,
    files: Seq<FileText>,
)
    ensures
        forall|a: int|
            0 <= a < tree_records(labels, pats, allowed, files).len() ==> from_allowed_file(
                labels,
                pats,
                allowed,
                files,
                #[trigger] tree_records(labels, pats, allowed, files)[a],
            ),
    decreases files.len(),
{
    if files.len() > 0 {
        let rest = files.drop_last();
        let f = files.last();
        let k = files.len() - 1;
        lemma_tree_scan_sound(labels, pats, allowed, rest);
        lemma_file_scan_sound(labels, pats, f.0, f.2);
        let prev = tree_records(labels, pats, allowed, rest);
        let all = tree_records(labels, pats, allowed, files);
        let own = if allowed_by(f.1, allowed) {
            file_hits(labels, pats, f.0, f.2)
        } else {
            Seq::empty()
        };
        assert(all == prev + own);
        assert forall|a: int|
            0 <= a < all.len() implies from_allowed_file(
                labels,
                pats,
                allowed,
                files,
                #[trigger] all[a],
            ) by {
            if a < prev.len() {
                assert(all[a] == prev[a]);
                assert(from_allowed_file(labels, pats, allowed, rest, prev[a]));
                let i = choose|i: int|
                    #![trigger rest[i]]
                    0 <= i < rest.len() && allowed_by(rest[i].1, allowed) && hit_of_file(
                        labels,
                        pats,
                        prev[a],
                        rest[i],
                    );
                assert(files[i] == rest[i]);
            } else {
                let hits = file_hits(labels, pats, f.0, f.2);
                assert(allowed_by(f.1, allowed));
                assert(all[a] == hits[a - prev.len()]);
                assert(files[k] == f);
                let o = hits[a - prev.len()];
                let j = choose|j: int|
                    #![trigger labels[j]]
                    {
                        &&& 1 <= o.line <= f.2.len()
                        &&& 0 <= j < pats.len()
                        &&& regex_matches(pats[j], f.2[o.line - 1])
                        &&& o == file_hit(labels[j], f.0, o.line)
                    };
                assert(hit_of_file(labels, pats, all[a], files[k]));
            }
        }
    } else {
        assert(tree_records(labels, pats, allowed, files).len() == 0);
    }
}

} // verus!
