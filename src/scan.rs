use vstd::prelude::*;
use crate::matcher::{matched_indices, PatternSet};
use crate::occurrence::{file_hit, views, Occurrence, OccurrenceView};

verus! {

/// The records for one line, 1-based number `line`, given the ascending
/// indices of the patterns that matched it.
pub open spec fn line_hits(labels: Seq<Seq<char>>, path: Seq<char>, line: nat, idxs: Seq<int>) -> Seq<
    OccurrenceView,
> {
    idxs.map_values(|j: int| file_hit(labels[j], path, line))
}

/// The records for the lines `texts` of file `path`: line by line, and
/// within a line by ascending pattern index.
pub open spec fn file_hits(
    labels: Seq<Seq<char>>,
    pats: Seq<Seq<char>>,
    path: Seq<char>,
    texts: Seq<Seq<char>>,
) -> Seq<OccurrenceView>
    decreases texts.len(),
{
    if texts.len() == 0 {
        Seq::empty()
    } else {
        file_hits(labels, pats, path, texts.drop_last()) + line_hits(
            labels,
            path,
            texts.len() as nat,
            matched_indices(pats, texts.last()),
        )
    }
}

/// The records for line number `line` of file `path`, given the indices,
/// ascending, of the patterns that matched it: one per index, in order.
pub fn line_records(ps: &PatternSet, path: &String, line: usize, matched: &Vec<usize>) -> (r: Vec<
    Occurrence,
>)
    requires
        forall|k: int| 0 <= k < matched@.len() ==> matched@[k] < ps.labels().len(),
    ensures
        views(r@) == line_hits(
            ps.labels(),
            path@,
            line as nat,
            matched@.map_values(|k: usize| k as int),
        ),
{
    let ghost idxs = matched@.map_values(|k: usize| k as int);
    let mut r: Vec<Occurrence> = Vec::new();
    let mut j: usize = 0;
    while j < matched.len()
        invariant
            j <= matched@.len(),
            idxs == matched@.map_values(|k: usize| k as int),
            forall|k: int| 0 <= k < matched@.len() ==> matched@[k] < ps.labels().len(),
            views(r@) == line_hits(ps.labels(), path@, line as nat, idxs.take(j as int)),
        decreases matched@.len() - j,
    {
        let idx = matched[j];
        let o = Occurrence {
            feature: ps.label(idx).clone(),
            path: path.clone(),
            line,
            commit_hash: None,
            author: None,
            date: None,
            commit_message: None,
            branch: None,
        };
        proof {
            assert(idxs.take(j as int + 1) =~= idxs.take(j as int).push(idx as int));
            assert(views(r@.push(o)) =~= views(r@).push(o@));
            assert(line_hits(ps.labels(), path@, line as nat, idxs.take(j as int + 1))
                =~= line_hits(ps.labels(), path@, line as nat, idxs.take(j as int)).push(o@));
        }
        r.push(o);
        j = j + 1;
    }
    proof {
        assert(idxs.take(matched@.len() as int) =~= idxs);
    }
    r
}

/// Tests every line of file `path` against the pattern set and returns one
/// record per (line, matching pattern), lines in order.
pub fn scan_lines(ps: &PatternSet, path: &String, lines: &Vec<String>) -> (r: Vec<Occurrence>)
    requires
        ps.wf(),
    ensures
        views(r@) == file_hits(ps.labels(), ps.patterns(), path@, lines.deep_view()),
{
    let mut r: Vec<Occurrence> = Vec::new();
    let ghost texts = lines.deep_view();
    let mut i: usize = 0;
    while i < lines.len()
        invariant
            ps.wf(),
            i <= lines@.len(),
            texts == lines.deep_view(),
            views(r@) == file_hits(ps.labels(), ps.patterns(), path@, texts.take(i as int)),
        decreases lines@.len() - i,
    {
        let line_no = i + 1;
        let ms = ps.matching(lines[i].as_str());
        let mut found = line_records(ps, path, line_no, &ms);
        proof {
            assert(views(r@ + found@) =~= views(r@) + views(found@));
        }
        r.append(&mut found);
        proof {
            let t = texts.take(i as int + 1);
            assert(t.drop_last() =~= texts.take(i as int));
            assert(t.last() == texts[i as int]);
        }
        i = i + 1;
    }
    proof {
        assert(texts.take(lines@.len() as int) =~= texts);
    }
    r
}

} // verus!
