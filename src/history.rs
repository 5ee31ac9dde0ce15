use vstd::prelude::*;
use crate::matcher::{matched_indices, PatternSet};
use crate::occurrence::{duplicate_text, opt_view, views, Occurrence, OccurrenceView};

verus! {

/// The UTC rendering `YYYY-MM-DD HH:MM:SS` of `secs` seconds since the
/// Unix epoch (a year outside 0 to 9999 is written with its sign).
pub uninterp spec fn utc_text(secs: int) -> Seq<char>;

/// The first second that can be rendered: -262143-01-01 00:00:00 UTC.
pub const FIRST_RENDERABLE_SECOND: i64 = -8_334_601_228_800;

/// The last second that can be rendered: 262142-12-31 23:59:59 UTC.
pub const LAST_RENDERABLE_SECOND: i64 = 8_210_266_876_799;

/// Relies on chrono's DateTime::from_timestamp, which returns None exactly
/// for the seconds whose date lies outside the years -262143 to 262142, and
/// on DateTime::format with "%Y-%m-%d %H:%M:%S", whose text depends
/// on the seconds alone.
#[verifier::external_body]
fn utc_timestamp(secs: i64) -> (r: Option<String>)
    ensures
        r matches Some(s) ==> s@ == utc_text(secs as int),
        FIRST_RENDERABLE_SECOND <= secs <= LAST_RENDERABLE_SECOND <==> r is Some,
{
    match chrono::DateTime::from_timestamp(secs, 0) {
        Some(d) => Some(d.format("%Y-%m-%d %H:%M:%S").to_string()),
        None => None,
    }
}

/// Renders a commit time, given in seconds since the Unix epoch, in UTC as
/// `YYYY-MM-DD HH:MM:SS`; `None` exactly when the time lies outside the
/// years -262143 to 262142.
pub fn format_commit_time(seconds: i64) -> (r: Option<String>)
    ensures
        r matches Some(s) ==> s@ == utc_text(seconds as int),
        FIRST_RENDERABLE_SECOND <= seconds <= LAST_RENDERABLE_SECOND <==> r is Some,
{
    utc_timestamp(seconds)
}

pub open spec fn unknown_author() -> Seq<char> {
    seq!['U', 'n', 'k', 'n', 'o', 'w', 'n']
}

pub open spec fn unnamed_branch() -> Seq<char> {
    seq!['U', 'n', 'n', 'a', 'm', 'e', 'd']
}

/// The path recorded for a hit in a commit reached by the history walk.
pub open spec fn commit_origin() -> Seq<char> {
    seq!['C', 'o', 'm', 'm', 'i', 't', ' ', 'M', 'e', 's', 's', 'a', 'g', 'e']
}

/// The path recorded for a hit in the tip commit of a branch.
pub open spec fn branch_origin() -> Seq<char> {
    seq!['B', 'r', 'a', 'n', 'c', 'h']
}

pub open spec fn text_or(o: Option<String>, fallback: Seq<char>) -> Seq<char> {
    match o {
        Some(s) => s@,
        None => fallback,
    }
}

/// What the history scan reads of one commit.
#[derive(Debug, Clone)]
pub struct CommitInfo {
    pub hash: String,
    pub author: String,
    pub date: String,
    pub message: String,
}

pub struct CommitView {
    pub hash: Seq<char>,
    pub author: Seq<char>,
    pub date: Seq<char>,
    pub message: Seq<char>,
}

impl View for CommitInfo {
    type V = CommitView;

    open spec fn view(&self) -> CommitView {
        CommitView {
            hash: self.hash@,
            author: self.author@,
            date: self.date@,
            message: self.message@,
        }
    }
}

impl CommitInfo {
    /// Builds the record of a commit from what the repository gives: a
    /// missing author name reads "Unknown", a missing message reads as
    /// empty, and the time is rendered in UTC. `None` exactly when the time
    /// cannot be rendered.
    pub fn new(hash: String, author: Option<String>, seconds: i64, message: Option<String>) -> (r:
        Option<CommitInfo>)
        ensures
            r matches Some(c) ==> c@ == (CommitView {
                hash: hash@,
                author: text_or(author, unknown_author()),
                date: utc_text(seconds as int),
                message: text_or(message, Seq::empty()),
            }),
            FIRST_RENDERABLE_SECOND <= seconds <= LAST_RENDERABLE_SECOND <==> r is Some,
    {
        let date = match format_commit_time(seconds) {
            Some(d) => d,
            None => {
                return None;
            },
        };
        let author_text = match author {
            Some(a) => a,
            None => {
                let t = String::from_str("Unknown");
                proof {
                    reveal_strlit("Unknown");
                    assert(t@ =~= unknown_author());
                }
                t
            },
        };
        let message_text = match message {
            Some(m) => m,
            None => String::new(),
        };
        Some(CommitInfo { hash, author: author_text, date, message: message_text })
    }
}

/// One commit for the history scan: reached by the walk from the current
/// head (`branch` is `None`) or the tip of the named branch.
#[derive(Debug, Clone)]
pub struct HistoryEntry {
    pub commit: CommitInfo,
    pub branch: Option<String>,
}

pub struct HistoryEntryView {
    pub commit: CommitView,
    pub branch: Option<Seq<char>>,
}

impl View for HistoryEntry {
    type V = HistoryEntryView;

    open spec fn view(&self) -> HistoryEntryView {
        HistoryEntryView { commit: self.commit@, branch: opt_view(self.branch) }
    }
}

impl HistoryEntry {
    /// A commit reached by the walk from the current head.
    pub fn walked(commit: CommitInfo) -> (r: HistoryEntry)
        ensures
            r@ == (HistoryEntryView { commit: commit@, branch: None }),
    {
        HistoryEntry { commit, branch: None }
    }

    /// The tip commit of a branch; a branch whose name cannot be read is
    /// called "Unnamed".
    pub fn branch_tip(name: Option<String>, commit: CommitInfo) -> (r: HistoryEntry)
        ensures
            r@ == (HistoryEntryView {
                commit: commit@,
                branch: Some(text_or(name, unnamed_branch())),
            }),
    {
        let name_text = match name {
            Some(n) => n,
            None => {
                let t = String::from_str("Unnamed");
                proof {
                    reveal_strlit("Unnamed");
                    assert(t@ =~= unnamed_branch());
                }
                t
            },
        };
        HistoryEntry { commit, branch: Some(name_text) }
    }
}

/// The record for `feature` found in the message of a commit.
pub open spec fn history_hit(feature: Seq<char>, e: HistoryEntryView) -> OccurrenceView {
    OccurrenceView {
        feature,
        path: if e.branch is None {
            commit_origin()
        } else {
            branch_origin()
        },
        line: 0,
        commit_hash: Some(e.commit.hash),
        author: Some(e.commit.author),
        date: Some(e.commit.date),
        commit_message: Some(e.commit.message),
        branch: e.branch,
    }
}

/// The records for one commit, by ascending pattern index.
pub open spec fn entry_hits(labels: Seq<Seq<char>>, pats: Seq<Seq<char>>, e: HistoryEntryView) -> Seq<
    OccurrenceView,
> {
    matched_indices(pats, e.commit.message).map_values(|j: int| history_hit(labels[j], e))
}

/// The records for a sequence of commits, commit by commit.
pub open spec fn history_hits(
    labels: Seq<Seq<char>>,
    pats: Seq<Seq<char>>,
    entries: Seq<HistoryEntryView>,
) -> Seq<OccurrenceView>
    decreases entries.len(),
{
    if entries.len() == 0 {
        Seq::empty()
    } else {
        history_hits(labels, pats, entries.drop_last()) + entry_hits(labels, pats, entries.last())
    }
}

pub open spec fn entry_views(entries: Seq<HistoryEntry>) -> Seq<HistoryEntryView> {
    entries.map_values(|e: HistoryEntry| e@)
}

/// The records for one commit, given the indices, ascending, of the
/// patterns that matched its message: one per index, in order.
pub fn commit_records(ps: &PatternSet, e: &HistoryEntry, matched: &Vec<usize>) -> (r: Vec<
    Occurrence,
>)
    requires
        forall|k: int| 0 <= k < matched@.len() ==> matched@[k] < ps.labels().len(),
    ensures
        views(r@) == matched@.map_values(|k: usize| k as int).map_values(
            |q: int| history_hit(ps.labels()[q], e@),
        ),
{
    let ghost idxs = matched@.map_values(|k: usize| k as int);
    let mut r: Vec<Occurrence> = Vec::new();
    let mut j: usize = 0;
    while j < matched.len()
        invariant
            j <= matched@.len(),
            idxs == matched@.map_values(|k: usize| k as int),
            forall|k: int| 0 <= k < matched@.len() ==> matched@[k] < ps.labels().len(),
            views(r@) == idxs.take(j as int).map_values(|q: int| history_hit(ps.labels()[q], e@)),
        decreases matched@.len() - j,
    {
        let idx = matched[j];
        let path = if e.branch.is_none() {
            let t = String::from_str("Commit Message");
            proof {
                reveal_strlit("Commit Message");
                assert(t@ =~= commit_origin());
            }
            t
        } else {
            let t = String::from_str("Branch");
            proof {
                reveal_strlit("Branch");
                assert(t@ =~= branch_origin());
            }
            t
        };
        let o = Occurrence {
            feature: ps.label(idx).clone(),
            path,
            line: 0,
            commit_hash: Some(e.commit.hash.clone()),
            author: Some(e.commit.author.clone()),
            date: Some(e.commit.date.clone()),
            commit_message: Some(e.commit.message.clone()),
            branch: duplicate_text(&e.branch),
        };
        proof {
            assert(o@ == history_hit(ps.labels()[idx as int], e@));
            assert(idxs.take(j as int + 1) =~= idxs.take(j as int).push(idx as int));
            assert(views(r@.push(o)) =~= views(r@).push(o@));
            assert(idxs.take(j as int + 1).map_values(|q: int| history_hit(ps.labels()[q], e@))
                =~= idxs.take(j as int).map_values(|q: int| history_hit(ps.labels()[q], e@)).push(
                o@,
            ));
        }
        r.push(o);
        j = j + 1;
    }
    proof {
        assert(idxs.take(matched@.len() as int) =~= idxs);
    }
    r
}

/// Tests the message of every commit against the pattern set and returns
/// one record per (commit, matching pattern), commits in order.
pub fn scan_history(ps: &PatternSet, entries: &Vec<HistoryEntry>) -> (r: Vec<Occurrence>)
    requires
        ps.wf(),
    ensures
        views(r@) == history_hits(ps.labels(), ps.patterns(), entry_views(entries@)),
{
    let mut r: Vec<Occurrence> = Vec::new();
    let ghost es = entry_views(entries@);
    let mut i: usize = 0;
    while i < entries.len()
        invariant
            ps.wf(),
            i <= entries@.len(),
            es == entry_views(entries@),
            views(r@) == history_hits(ps.labels(), ps.patterns(), es.take(i as int)),
        decreases entries@.len() - i,
    {
        let e = &entries[i];
        let ms = ps.matching(e.commit.message.as_str());
        let mut found = commit_records(ps, e, &ms);
        proof {
            assert(views(r@ + found@) =~= views(r@) + views(found@));
        }
        r.append(&mut found);
        proof {
            let t = es.take(i as int + 1);
            assert(t.drop_last() =~= es.take(i as int));
            assert(t.last() == e@);
        }
        i = i + 1;
    }
    proof {
        assert(es.take(entries@.len() as int) =~= es);
    }
    r
}

} // verus!
