use vstd::prelude::*;

verus! {

/// One matched instance of a feature, flattened to the report's schema: a
/// file hit has a path and a 1-based line and no commit fields; a history
/// hit has line 0 and the commit fields set.
#[derive(Debug, Clone)]
pub struct Occurrence {
    pub feature: String,
    pub path: String,
    pub line: usize,
    pub commit_hash: Option<String>,
    pub author: Option<String>,
    pub date: Option<String>,
    pub commit_message: Option<String>,
    pub branch: Option<String>,
}

/// The mathematical value of an [`Occurrence`].
pub struct OccurrenceView {
    pub feature: Seq<char>,
    pub path: Seq<char>,
    pub line: nat,
    pub commit_hash: Option<Seq<char>>,
    pub author: Option<Seq<char>>,
    pub date: Option<Seq<char>>,
    pub commit_message: Option<Seq<char>>,
    pub branch: Option<Seq<char>>,
}

pub open spec fn opt_view(o: Option<String>) -> Option<Seq<char>> {
    match o {
        Some(s) => Some(s@),
        None => None,
    }
}

impl View for Occurrence {
    type V = OccurrenceView;

    open spec fn view(&self) -> OccurrenceView {
        OccurrenceView {
            feature: self.feature@,
            path: self.path@,
            line: self.line as nat,
            commit_hash: opt_view(self.commit_hash),
            author: opt_view(self.author),
            date: opt_view(self.date),
            commit_message: opt_view(self.commit_message),
            branch: opt_view(self.branch),
        }
    }
}

/// The values of a sequence of occurrences.
pub open spec fn views(s: Seq<Occurrence>) -> Seq<OccurrenceView> {
    s.map_values(|o: Occurrence| o@)
}

/// A record is either a file hit (line above 0, no commit fields, no
/// branch) or a history hit (line 0, commit hash present); never both or
/// neither.
pub open spec fn schema_exclusive(o: OccurrenceView) -> bool {
    ||| (o.line > 0 && o.commit_hash is None && o.author is None && o.date is None
        && o.commit_message is None && o.branch is None)
    ||| (o.line == 0 && o.commit_hash is Some)
}

/// The records of `s` that have the report's shape, in order.
pub open spec fn well_shaped(s: Seq<OccurrenceView>) -> Seq<OccurrenceView> {
    s.filter(|o: OccurrenceView| schema_exclusive(o))
}

/// The record for `feature` found in file `path` at 1-based `line`.
pub open spec fn file_hit(feature: Seq<char>, path: Seq<char>, line: nat) -> OccurrenceView {
    OccurrenceView {
        feature,
        path,
        line,
        commit_hash: None,
        author: None,
        date: None,
        commit_message: None,
        branch: None,
    }
}

/// A copy of an optional text with the same value.
pub(crate) fn duplicate_text(o: &Option<String>) -> (r: Option<String>)
    ensures
        opt_view(r) == opt_view(*o),
{
    match o {
        Some(s) => Some(s.clone()),
        None => None,
    }
}

impl Occurrence {
    /// A copy with the same value.
    pub fn duplicate(&self) -> (r: Occurrence)
        ensures
            r@ == self@,
    {
        Occurrence {
            feature: self.feature.clone(),
            path: self.path.clone(),
            line: self.line,
            commit_hash: duplicate_text(&self.commit_hash),
            author: duplicate_text(&self.author),
            date: duplicate_text(&self.date),
            commit_message: duplicate_text(&self.commit_message),
            branch: duplicate_text(&self.branch),
        }
    }

    /// Whether this record has the shape of a file hit or of a history hit.
    pub fn is_exclusive(&self) -> (r: bool)
        ensures
            r == schema_exclusive(self@),
    {
        if self.line > 0 {
            self.commit_hash.is_none() && self.author.is_none() && self.date.is_none()
                && self.commit_message.is_none() && self.branch.is_none()
        } else {
            self.commit_hash.is_some()
        }
    }
}

/// Append-only collection of the occurrences of one run. Every record it
/// holds has the shape of a file hit or of a history hit.
pub struct Aggregator {
    items: Vec<Occurrence>,
}

impl Aggregator {
    /// The records held, in the order they were appended.
    pub closed spec fn contents(&self) -> Seq<OccurrenceView> {
        views(self.items@)
    }

    pub open spec fn wf(&self) -> bool {
        forall|k: int| 0 <= k < self.contents().len() ==> schema_exclusive(
            #[trigger] self.contents()[k],
        )
    }

    pub fn new() -> (r: Aggregator)
        ensures
            r.contents() == Seq::<OccurrenceView>::empty(),
            r.wf(),
    {
        Aggregator { items: Vec::new() }
    }

    /// Appends `o` when it has the report's shape; a record of neither shape
    /// is refused and leaves the collection as it was.
    pub fn append(&mut self, o: Occurrence) -> (r: bool)
        requires
            old(self).wf(),
        ensures
            final(self).wf(),
            r == schema_exclusive(o@),
            r ==> final(self).contents() == old(self).contents().push(o@),
            !r ==> final(self).contents() == old(self).contents(),
    {
        if !o.is_exclusive() {
            return false;
        }
        proof {
            let ov = o@;
            assert(views(self.items@.push(o)) =~= views(self.items@).push(ov));
        }
        self.items.push(o);
        proof {
            let c = self.contents();
            assert forall|k: int| 0 <= k < c.len() implies schema_exclusive(#[trigger] c[k]) by {
                if k < c.len() - 1 {
                    assert(c[k] == old(self).contents()[k]);
                }
            }
        }
        true
    }

    /// Appends every record of `batch` that has the report's shape, in
    /// order, and returns how many were refused.
    pub fn append_all(&mut self, batch: Vec<Occurrence>) -> (r: usize)
        requires
            old(self).wf(),
        ensures
            final(self).wf(),
            final(self).contents() == old(self).contents() + well_shaped(views(batch@)),
            r == 0 <==> forall|k: int|
                0 <= k < batch@.len() ==> schema_exclusive(#[trigger] views(batch@)[k]),
    {
        let mut refused: usize = 0;
        let mut i: usize = 0;
        while i < batch.len()
            invariant
                i <= batch@.len(),
                refused <= i,
                self.wf(),
                self.contents() == old(self).contents() + well_shaped(views(batch@.take(i as int))),
                refused == 0 <==> forall|k: int|
                    0 <= k < i ==> schema_exclusive(#[trigger] views(batch@)[k]),
            decreases batch@.len() - i,
        {
            let o = batch[i].duplicate();
            let ghost before = self.contents();
            let ghost ov = o@;
            assert(ov == views(batch@)[i as int]);
            let ok = self.append(o);
            proof {
                let s = views(batch@.take(i as int + 1));
                assert(s.drop_last() =~= views(batch@.take(i as int)));
                assert(s.last() == ov);
                reveal(Seq::filter);
                assert(well_shaped(s) == if schema_exclusive(s.last()) {
                    well_shaped(s.drop_last()).push(s.last())
                } else {
                    well_shaped(s.drop_last())
                });
                assert(self.contents() =~= old(self).contents() + well_shaped(s));
            }
            if !ok {
                refused = refused + 1;
            }
            i = i + 1;
        }
        proof {
            assert(batch@.take(i as int) =~= batch@);
        }
        refused
    }

    /// Number of records held.
    pub fn len(&self) -> (r: usize)
        ensures
            r == self.contents().len(),
    {
        self.items.len()
    }

    /// The records, in the order they were appended.
    pub fn into_occurrences(self) -> (r: Vec<Occurrence>)
        ensures
            views(r@) == self.contents(),
    {
        self.items
    }
}

} // verus!
