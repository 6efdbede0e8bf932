use vstd::prelude::*;

use crate::ansi_import::{spec_import, AnsiImportError, ImportOutcome};
use crate::canvas::{area_after, includes_fit, read_cell, Canvas, CanvasCell};
use crate::index_map::{
    entries_map, lemma_drop_first_map, lemma_sorted_listing, lemma_sorted_listing_unique,
    sorted_keys, sorted_listing,
};
use crate::operations::{
    apply_entries, builder_add_entry, empty_unit, merge_unit, lemma_reversed_keys, builder_add_entries, builder_add_modifications, diff_writes, lemma_apply_entries_same_reads,
    law_apply_then_reversed_restores, modification_fits, reversed_entries, CanvasDiff,
    modification_diff, lemma_apply_entries_read,
    CanvasDiffBuilder, CanvasDiffUnit, CanvasModification,
};
use crate::rect::CanvasIndex;

verus! {

/// An applied change, kept so that it can be undone: `diff` sets back what the change
/// overwrote.
#[derive(Debug, Clone)]
pub struct CanvasCommit {
    pub revision: u64,
    pub diff: CanvasDiff,
}

/// A canvas with undo and redo. `commits` are the applied commits, the last one most recent;
/// `commits_unapplied` are the undone ones, the last one the next to redo. `staging_area` holds
/// what sets back the staged modifications, which are applied to `current` but not yet
/// committed.
#[derive(Debug)]
pub struct VersionControlledCanvas {
    pub initial: Canvas,
    pub current: Canvas,
    pub commits: Vec<CanvasCommit>,
    pub commits_unapplied: Vec<CanvasCommit>,
    pub staging_area: CanvasDiffBuilder,
    pub revision_counter: u64,
}

pub open spec fn same_canvas(a: Canvas, b: Canvas) -> bool {
    a.area == b.area && a.cells@ == b.cells@
}

/// Every commit holds a diff in row-major order of its indices.
pub open spec fn commits_wf(commits: Seq<CanvasCommit>) -> bool {
    forall|i: int| 0 <= i < commits.len() ==> sorted_keys(#[trigger] commits[i].diff.0@)
}

/// No commit carries a revision above `counter`: the next commit's revision is new.
pub open spec fn revisions_below(commits: Seq<CanvasCommit>, counter: u64) -> bool {
    forall|i: int| 0 <= i < commits.len() ==> #[trigger] commits[i].revision <= counter
}

/// `a` and `b` read the same at every index.
pub open spec fn same_reads(a: Canvas, b: Canvas) -> bool {
    forall|k: CanvasIndex| #[trigger] read_cell(a.cell_map(), k) == read_cell(b.cell_map(), k)
}

impl VersionControlledCanvas {
    pub open spec fn wf(&self) -> bool {
        &&& self.initial.wf()
        &&& self.current.wf()
        &&& self.staging_area.wf()
        &&& commits_wf(self.commits@)
        &&& commits_wf(self.commits_unapplied@)
        &&& revisions_below(self.commits@, self.revision_counter)
        &&& revisions_below(self.commits_unapplied@, self.revision_counter)
    }

    /// The revision of the newest applied commit, or 0 where there is none.
    pub open spec fn spec_current_revision(&self) -> u64 {
        if self.commits@.len() > 0 {
            self.commits@.last().revision
        } else {
            0
        }
    }

    /// The diff that committing `modifications` applies to the current canvas.
    pub open spec fn commit_diff(&self, modifications: Seq<CanvasModification>) -> Seq<
        (CanvasIndex, CanvasDiffUnit),
    > {
        sorted_listing(
            builder_add_modifications(Map::empty(), modifications, self.current.cell_map(), true),
        )
    }

    /// Committing `modifications` runs without overflow.
    pub open spec fn can_commit(&self, modifications: Seq<CanvasModification>) -> bool {
        &&& forall|j: int| 0 <= j < modifications.len() ==> modification_fits(#[trigger] modifications[j])
        &&& self.revision_counter + (if self.staging_area.entries@.len() > 0 {
            2int
        } else {
            1int
        }) <= u64::MAX
        &&& includes_fit(self.current.area, diff_writes(self.commit_diff(modifications)))
    }

    /// Undoing runs without overflow.
    pub open spec fn can_undo(&self) -> bool {
        self.commits@.len() > 0 ==> includes_fit(
            self.current.area,
            diff_writes(self.commits@.last().diff.0@),
        )
    }

    /// Redoing runs without overflow.
    pub open spec fn can_redo(&self) -> bool {
        self.commits_unapplied@.len() > 0 ==> includes_fit(
            self.current.area,
            diff_writes(self.commits_unapplied@.last().diff.0@),
        )
    }

    /// Committing the staged modifications took `self` to `after`.
    pub closed spec fn commit_staged_step(&self, after: Self) -> bool {
        &&& same_canvas(after.current, self.current)
        &&& same_canvas(after.initial, self.initial)
        &&& if self.staging_area.entries@.len() > 0 {
            &&& after.commits@.len() == self.commits@.len() + 1
            &&& after.commits@.drop_last() == self.commits@
            &&& after.commits@.last().revision == self.revision_counter + 1
            &&& after.commits@.last().diff.0@ == self.staging_area.entries@
            &&& after.commits_unapplied@.len() == 0
            &&& after.revision_counter == self.revision_counter + 1
            &&& after.staging_area.entries@.len() == 0
        } else {
            &&& after.commits@ == self.commits@
            &&& after.commits_unapplied@ == self.commits_unapplied@
            &&& after.revision_counter == self.revision_counter
            &&& after.staging_area.entries@ == self.staging_area.entries@
        }
    }

    /// Committing `modifications` took `self` to `after`: the staged modifications were
    /// committed first, then the diff of `modifications` was applied and committed.
    pub closed spec fn create_commit_step(&self, after: Self, modifications: Seq<CanvasModification>) -> bool {
        let s = self.commit_diff(modifications);
        let staged: nat = if self.staging_area.entries@.len() > 0 {
            1
        } else {
            0
        };
        &&& sorted_keys(s)
        &&& entries_map(s) == builder_add_modifications(
            Map::empty(),
            modifications,
            self.current.cell_map(),
            true,
        )
        &&& same_canvas(after.initial, self.initial)
        &&& after.current.cell_map() == apply_entries(self.current.cell_map(), s)
        &&& after.current.area == area_after(self.current.area, diff_writes(s))
        &&& after.commits@.len() == self.commits@.len() + staged + 1
        &&& after.commits@.subrange(0, self.commits@.len() as int) == self.commits@
        &&& staged == 1 ==> {
            &&& after.commits@[self.commits@.len() as int].diff.0@ == self.staging_area.entries@
            &&& after.commits@[self.commits@.len() as int].revision == self.revision_counter + 1
        }
        &&& after.commits@.last().diff.0@ == reversed_entries(self.current.cell_map(), s)
        &&& after.commits@.last().revision == self.revision_counter + staged + 1
        &&& after.revision_counter == self.revision_counter + staged + 1
        &&& after.commits_unapplied@.len() == 0
        &&& after.staging_area.entries@.len() == 0
    }

    /// `undo` took `self` to `after`.
    pub closed spec fn undo_step(&self, after: Self) -> bool {
        &&& same_canvas(after.initial, self.initial)
        &&& after.staging_area.entries@ == self.staging_area.entries@
        &&& after.revision_counter == self.revision_counter
        &&& if self.commits@.len() == 0 {
            &&& same_canvas(after.current, self.current)
            &&& after.commits@ == self.commits@
            &&& after.commits_unapplied@ == self.commits_unapplied@
        } else {
            let c = self.commits@.last();
            &&& after.commits@ == self.commits@.drop_last()
            &&& after.current.cell_map() == apply_entries(self.current.cell_map(), c.diff.0@)
            &&& after.current.area == area_after(self.current.area, diff_writes(c.diff.0@))
            &&& after.commits_unapplied@.len() == self.commits_unapplied@.len() + 1
            &&& after.commits_unapplied@.drop_last() == self.commits_unapplied@
            &&& after.commits_unapplied@.last().revision == c.revision
            &&& after.commits_unapplied@.last().diff.0@ == reversed_entries(
                self.current.cell_map(),
                c.diff.0@,
            )
        }
    }

    /// `redo` took `self` to `after`.
    pub closed spec fn redo_step(&self, after: Self) -> bool {
        &&& same_canvas(after.initial, self.initial)
        &&& after.staging_area.entries@ == self.staging_area.entries@
        &&& after.revision_counter == self.revision_counter
        &&& if self.commits_unapplied@.len() == 0 {
            &&& same_canvas(after.current, self.current)
            &&& after.commits@ == self.commits@
            &&& after.commits_unapplied@ == self.commits_unapplied@
        } else {
            let c = self.commits_unapplied@.last();
            &&& after.commits_unapplied@ == self.commits_unapplied@.drop_last()
            &&& after.current.cell_map() == apply_entries(self.current.cell_map(), c.diff.0@)
            &&& after.current.area == area_after(self.current.area, diff_writes(c.diff.0@))
            &&& after.commits@.len() == self.commits@.len() + 1
            &&& after.commits@.drop_last() == self.commits@
            &&& after.commits@.last().revision == c.revision
            &&& after.commits@.last().diff.0@ == reversed_entries(
                self.current.cell_map(),
                c.diff.0@,
            )
        }
    }

    /// The diff that staging `modification` applies to the current canvas.
    pub open spec fn stage_diff(&self, modification: CanvasModification) -> Seq<
        (CanvasIndex, CanvasDiffUnit),
    > {
        self.commit_diff(seq![modification])
    }

    /// `stage(modification)` took `self` to `after`.
    pub closed spec fn stage_step(&self, after: Self, modification: CanvasModification) -> bool {
        let s = self.stage_diff(modification);
        &&& sorted_keys(s)
        &&& same_canvas(after.initial, self.initial)
        &&& after.current.cell_map() == apply_entries(self.current.cell_map(), s)
        &&& after.current.area == area_after(self.current.area, diff_writes(s))
        &&& after.staging_area.unit_map() == builder_add_entries(
            self.staging_area.unit_map(),
            reversed_entries(self.current.cell_map(), s),
            false,
        )
        &&& after.commits@ == self.commits@
        &&& after.commits_unapplied@ == self.commits_unapplied@
        &&& after.revision_counter == self.revision_counter
    }

    /// `clear_staged` took `self` to `after`.
    pub closed spec fn clear_staged_step(&self, after: Self) -> bool {
        &&& same_canvas(after.initial, self.initial)
        &&& after.current.cell_map() == apply_entries(
            self.current.cell_map(),
            self.staging_area.entries@,
        )
        &&& after.current.area == area_after(
            self.current.area,
            diff_writes(self.staging_area.entries@),
        )
        &&& after.staging_area.entries@.len() == 0
        &&& after.commits@ == self.commits@
        &&& after.commits_unapplied@ == self.commits_unapplied@
        &&& after.revision_counter == self.revision_counter
    }
}

impl Default for Canvas {
    fn default() -> (c: Self)
        ensures
            c.wf(),
            c.cell_map() == Map::<CanvasIndex, CanvasCell>::empty(),
            c.cells@.len() == 0,
            c.area.rows == 0 && c.area.columns == 0 && c.area.row == 0 && c.area.column == 0,
    {
        let c = Canvas::new();
        proof {
            if c.cells@.len() > 0 {
                crate::index_map::lemma_entries_map_at(c.cells@, 0);
            }
        }
        c
    }
}

impl Default for VersionControlledCanvas {
    fn default() -> (v: Self)
        ensures
            v.wf(),
            v.current.cells@.len() == 0,
            v.initial.cells@.len() == 0,
            v.commits@.len() == 0,
            v.commits_unapplied@.len() == 0,
            v.staging_area.entries@.len() == 0,
            v.revision_counter == 0,
    {
        VersionControlledCanvas {
            initial: Canvas::default(),
            current: Canvas::default(),
            commits: Vec::new(),
            commits_unapplied: Vec::new(),
            staging_area: CanvasDiffBuilder::default(),
            revision_counter: 0,
        }
    }
}

impl VersionControlledCanvas {
    /// Forgets every commit: the current canvas becomes the initial one.
    pub fn delete_history(&mut self)
        requires
            old(self).wf(),
        ensures
            final(self).wf(),
            same_canvas(final(self).initial, old(self).current),
            same_canvas(final(self).current, old(self).current),
            final(self).commits@.len() == 0,
            final(self).commits_unapplied@.len() == 0,
            final(self).staging_area.entries@ == old(self).staging_area.entries@,
            final(self).revision_counter == 0,
    {
        self.initial = self.current.clone();
        self.commits = Vec::new();
        self.commits_unapplied = Vec::new();
        self.revision_counter = 0;
    }

    /// Records `diff` as the newest commit, taken as already applied; undone commits are
    /// dropped.
    fn create_applied_commit(&mut self, diff: CanvasDiff)
        requires
            old(self).wf(),
            sorted_keys(diff.0@),
            old(self).revision_counter < u64::MAX,
        ensures
            final(self).wf(),
            same_canvas(final(self).current, old(self).current),
            same_canvas(final(self).initial, old(self).initial),
            final(self).staging_area.entries@ == old(self).staging_area.entries@,
            final(self).revision_counter == old(self).revision_counter + 1,
            final(self).commits@.len() == old(self).commits@.len() + 1,
            final(self).commits@.drop_last() == old(self).commits@,
            final(self).commits@.last().revision == final(self).revision_counter,
            final(self).commits@.last().diff.0@ == diff.0@,
            final(self).commits_unapplied@.len() == 0,
    {
        let ghost dv = diff.0@;
        self.revision_counter = self.revision_counter + 1;
        let commit = CanvasCommit { revision: self.revision_counter, diff };
        self.commits.push(commit);
        self.commits_unapplied = Vec::new();
        proof {
            assert(self.commits@.drop_last() =~= old(self).commits@);
            assert forall|i: int| 0 <= i < self.commits@.len() implies sorted_keys(
                #[trigger] self.commits@[i].diff.0@,
            ) by {
                if i < old(self).commits@.len() {
                    assert(self.commits@[i] == old(self).commits@[i]);
                    assert(sorted_keys(old(self).commits@[i].diff.0@));
                } else {
                    assert(self.commits@[i].diff.0@ == dv);
                }
            }
        }
    }

    /// Commits what is staged, if anything is.
    pub fn commit_staged(&mut self)
        requires
            old(self).wf(),
            old(self).staging_area.entries@.len() > 0 ==> old(self).revision_counter < u64::MAX,
        ensures
            final(self).wf(),
            old(self).commit_staged_step(*final(self)),
    {
        if self.staging_area.entries.len() > 0 {
            let mut staged = CanvasDiffBuilder::default();
            std::mem::swap(&mut staged, &mut self.staging_area);
            let diff = staged.serialize();
            self.create_applied_commit(diff);
        }
    }

    /// Applies the modifications and commits them; what is staged is committed first. Where
    /// two modifications set the same aspect of a cell, the later one wins.
    pub fn create_commit(&mut self, modifications: Vec<CanvasModification>)
        requires
            old(self).wf(),
            old(self).can_commit(modifications@),
        ensures
            final(self).wf(),
            old(self).create_commit_step(*final(self), modifications@),
    {
        let ghost start = *self;
        self.commit_staged();
        let ghost mid = *self;
        let mut diff = CanvasDiffBuilder::from_modifications(&modifications, &self.current).serialize();
        proof {
            lemma_sorted_listing(diff.0@);
            assert(self.current.cell_map() == start.current.cell_map());
            assert(diff.0@ == start.commit_diff(modifications@));
        }
        self.current.apply_diff(&mut diff);
        proof {
            crate::operations::lemma_reversed_keys(mid.current.cell_map(), start.commit_diff(modifications@));
        }
        self.create_applied_commit(diff);
        proof {
            let n = start.commits@.len();
            if start.staging_area.entries@.len() > 0 {
                assert(self.commits@.drop_last() == mid.commits@);
                assert(self.commits@.subrange(0, n as int) =~= mid.commits@.drop_last());
                assert(self.commits@[n as int] == mid.commits@.last());
            } else {
                assert(self.commits@.subrange(0, n as int) =~= mid.commits@);
            }
        }
    }

    /// Applies `modification` to the current canvas and adds what sets it back to the staging
    /// area.
    pub fn stage(&mut self, modification: CanvasModification)
        requires
            old(self).wf(),
            modification_fits(modification),
            includes_fit(old(self).current.area, diff_writes(old(self).stage_diff(modification))),
        ensures
            final(self).wf(),
            old(self).stage_step(*final(self), modification),
    {
        let ghost start = *self;
        let ghost m = modification;
        let mut mods: Vec<CanvasModification> = Vec::new();
        mods.push(modification);
        proof {
            assert(mods@ =~= seq![m]);
        }
        let mut diff = CanvasDiffBuilder::from_modifications(&mods, &self.current);
        proof {
            lemma_sorted_listing(diff.entries@);
        }
        self.current.apply_diff_builder(&mut diff);
        self.staging_area.add_diff(diff, false);
    }

    /// Sets back everything staged and empties the staging area.
    pub fn clear_staged(&mut self)
        requires
            old(self).wf(),
            includes_fit(old(self).current.area, diff_writes(old(self).staging_area.entries@)),
        ensures
            final(self).wf(),
            old(self).clear_staged_step(*final(self)),
    {
        self.current.apply_diff_builder(&mut self.staging_area);
        self.staging_area = CanvasDiffBuilder::default();
    }

    /// Undoes the newest commit, if there is one.
    pub fn undo(&mut self)
        requires
            old(self).wf(),
            old(self).can_undo(),
        ensures
            final(self).wf(),
            old(self).undo_step(*final(self)),
    {
        let ghost start = *self;
        match self.commits.pop() {
            Some(last) => {
                let mut last_commit = last;
                proof {
                    assert(sorted_keys(start.commits@[start.commits@.len() - 1].diff.0@));
                    crate::operations::lemma_reversed_keys(self.current.cell_map(), last_commit.diff.0@);
                }
                self.current.apply_diff(&mut last_commit.diff);
                let ghost dv = last_commit.diff.0@;
                assert(sorted_keys(dv));
                self.commits_unapplied.push(last_commit);
                proof {
                    assert(self.commits_unapplied@.drop_last() =~= start.commits_unapplied@);
                    assert forall|i: int| 0 <= i < self.commits_unapplied@.len() implies sorted_keys(
                        #[trigger] self.commits_unapplied@[i].diff.0@,
                    ) by {
                        if i < start.commits_unapplied@.len() {
                            assert(self.commits_unapplied@[i] == start.commits_unapplied@[i]);
                            assert(sorted_keys(start.commits_unapplied@[i].diff.0@));
                        } else {
                            assert(self.commits_unapplied@[i].diff.0@ == dv);
                        }
                    }
                    assert forall|i: int| 0 <= i < self.commits@.len() implies sorted_keys(
                        #[trigger] self.commits@[i].diff.0@,
                    ) by {
                        assert(self.commits@[i] == start.commits@[i]);
                        assert(sorted_keys(start.commits@[i].diff.0@));
                    }
                }
            },
            None => {},
        }
    }

    /// Redoes the newest undone commit, if there is one.
    pub fn redo(&mut self)
        requires
            old(self).wf(),
            old(self).can_redo(),
        ensures
            final(self).wf(),
            old(self).redo_step(*final(self)),
    {
        let ghost start = *self;
        match self.commits_unapplied.pop() {
            Some(next) => {
                let mut next_commit = next;
                proof {
                    assert(sorted_keys(
                        start.commits_unapplied@[start.commits_unapplied@.len() - 1].diff.0@,
                    ));
                    crate::operations::lemma_reversed_keys(self.current.cell_map(), next_commit.diff.0@);
                }
                self.current.apply_diff(&mut next_commit.diff);
                let ghost dv = next_commit.diff.0@;
                assert(sorted_keys(dv));
                self.commits.push(next_commit);
                proof {
                    assert(self.commits@.drop_last() =~= start.commits@);
                    assert forall|i: int| 0 <= i < self.commits@.len() implies sorted_keys(
                        #[trigger] self.commits@[i].diff.0@,
                    ) by {
                        if i < start.commits@.len() {
                            assert(self.commits@[i] == start.commits@[i]);
                            assert(sorted_keys(start.commits@[i].diff.0@));
                        } else {
                            assert(self.commits@[i].diff.0@ == dv);
                        }
                    }
                    assert forall|i: int| 0 <= i < self.commits_unapplied@.len() implies sorted_keys(
                        #[trigger] self.commits_unapplied@[i].diff.0@,
                    ) by {
                        assert(self.commits_unapplied@[i] == start.commits_unapplied@[i]);
                        assert(sorted_keys(start.commits_unapplied@[i].diff.0@));
                    }
                }
            },
            None => {},
        }
    }

    /// The revision of the newest commit, or 0 where there is none.
    pub fn get_current_revision(&self) -> (r: u64)
        ensures
            r == (if self.commits@.len() > 0 {
                self.commits@.last().revision
            } else {
                0
            }),
    {
        let n = self.commits.len();
        if n > 0 {
            self.commits[n - 1].revision
        } else {
            0
        }
    }

    /// A history that starts from the canvas that `ansi` holds.
    pub fn from_ansi(ansi: String) -> (r: Result<Self, AnsiImportError>)
        requires
            !(spec_import(ansi@, true) is Overflow),
        ensures
            match spec_import(ansi@, true) {
                ImportOutcome::Done(st) => r matches Ok(v) && v.wf() && v.current.cell_map()
                    == st.cells && v.current.area == st.area && same_canvas(v.initial, v.current)
                    && v.commits@.len() == 0 && v.commits_unapplied@.len() == 0
                    && v.staging_area.entries@.len() == 0 && v.revision_counter == 0,
                ImportOutcome::Failed(e) => r matches Err(x) && x@ == e,
                ImportOutcome::Overflow => false,
            },
    {
        match Canvas::from_ansi(ansi) {
            Ok(canvas) => {
                let mut result = VersionControlledCanvas::default();
                result.initial = canvas.clone();
                result.current = canvas;
                Ok(result)
            },
            Err(e) => Err(e),
        }
    }

    /// `from_ansi`, where the import stays in range; `None` where an index or an SGR number of
    /// the text leaves its range.
    pub fn try_from_ansi(ansi: String) -> (r: Option<Result<Self, AnsiImportError>>)
        ensures
            match spec_import(ansi@, true) {
                ImportOutcome::Done(st) => r matches Some(Ok(v)) && v.wf() && v.current.cell_map()
                    == st.cells && v.current.area == st.area && same_canvas(v.initial, v.current)
                    && v.commits@.len() == 0 && v.commits_unapplied@.len() == 0
                    && v.staging_area.entries@.len() == 0 && v.revision_counter == 0,
                ImportOutcome::Failed(e) => r matches Some(Err(x)) && x@ == e,
                ImportOutcome::Overflow => r is None,
            },
    {
        match Canvas::try_from_ansi_or_txt(ansi, true) {
            Some(Ok(canvas)) => {
                let mut result = VersionControlledCanvas::default();
                result.initial = canvas.clone();
                result.current = canvas;
                Some(Ok(result))
            },
            Some(Err(e)) => Some(Err(e)),
            None => None,
        }
    }

    /// The current canvas.
    pub fn raw(&self) -> (c: &Canvas)
        ensures
            c == &self.current,
    {
        &self.current
    }
}

/// What Committing the staged modifications does, spelled out.
pub proof fn lemma_commit_staged_step(a: VersionControlledCanvas, b: VersionControlledCanvas)
    requires
        a.commit_staged_step(b),
    ensures
        ({
            &&& same_canvas(b.current, a.current)
            &&& same_canvas(b.initial, a.initial)
            &&& if a.staging_area.entries@.len() > 0 {
                &&& b.commits@.len() == a.commits@.len() + 1
                &&& b.commits@.drop_last() == a.commits@
                &&& b.commits@.last().revision == a.revision_counter + 1
                &&& b.commits@.last().diff.0@ == a.staging_area.entries@
                &&& b.commits_unapplied@.len() == 0
                &&& b.revision_counter == a.revision_counter + 1
                &&& b.staging_area.entries@.len() == 0
            } else {
                &&& b.commits@ == a.commits@
                &&& b.commits_unapplied@ == a.commits_unapplied@
                &&& b.revision_counter == a.revision_counter
                &&& b.staging_area.entries@ == a.staging_area.entries@
            }
        }),
{
}

/// What Committing `modifications` does, spelled out.
pub proof fn lemma_create_commit_step(a: VersionControlledCanvas, b: VersionControlledCanvas, modifications: Seq<CanvasModification>)
    requires
        a.create_commit_step(b, modifications),
    ensures
        ({
            let s = a.commit_diff(modifications);
            let staged: nat = if a.staging_area.entries@.len() > 0 {
                1
            } else {
                0
            };
            &&& sorted_keys(s)
            &&& entries_map(s) == builder_add_modifications(
                Map::empty(),
                modifications,
                a.current.cell_map(),
                true,
            )
            &&& same_canvas(b.initial, a.initial)
            &&& b.current.cell_map() == apply_entries(a.current.cell_map(), s)
            &&& b.current.area == area_after(a.current.area, diff_writes(s))
            &&& b.commits@.len() == a.commits@.len() + staged + 1
            &&& b.commits@.subrange(0, a.commits@.len() as int) == a.commits@
            &&& staged == 1 ==> {
                &&& b.commits@[a.commits@.len() as int].diff.0@ == a.staging_area.entries@
                &&& b.commits@[a.commits@.len() as int].revision == a.revision_counter + 1
            }
            &&& b.commits@.last().diff.0@ == reversed_entries(a.current.cell_map(), s)
            &&& b.commits@.last().revision == a.revision_counter + staged + 1
            &&& b.revision_counter == a.revision_counter + staged + 1
            &&& b.commits_unapplied@.len() == 0
            &&& b.staging_area.entries@.len() == 0
        }),
{
}

/// What `undo` does, spelled out.
pub proof fn lemma_undo_step(a: VersionControlledCanvas, b: VersionControlledCanvas)
    requires
        a.undo_step(b),
    ensures
        ({
            &&& same_canvas(b.initial, a.initial)
            &&& b.staging_area.entries@ == a.staging_area.entries@
            &&& b.revision_counter == a.revision_counter
            &&& if a.commits@.len() == 0 {
                &&& same_canvas(b.current, a.current)
                &&& b.commits@ == a.commits@
                &&& b.commits_unapplied@ == a.commits_unapplied@
            } else {
                let c = a.commits@.last();
                &&& b.commits@ == a.commits@.drop_last()
                &&& b.current.cell_map() == apply_entries(a.current.cell_map(), c.diff.0@)
                &&& b.current.area == area_after(a.current.area, diff_writes(c.diff.0@))
                &&& b.commits_unapplied@.len() == a.commits_unapplied@.len() + 1
                &&& b.commits_unapplied@.drop_last() == a.commits_unapplied@
                &&& b.commits_unapplied@.last().revision == c.revision
                &&& b.commits_unapplied@.last().diff.0@ == reversed_entries(
                    a.current.cell_map(),
                    c.diff.0@,
                )
            }
        }),
{
}

/// What `redo` does, spelled out.
pub proof fn lemma_redo_step(a: VersionControlledCanvas, b: VersionControlledCanvas)
    requires
        a.redo_step(b),
    ensures
        ({
            &&& same_canvas(b.initial, a.initial)
            &&& b.staging_area.entries@ == a.staging_area.entries@
            &&& b.revision_counter == a.revision_counter
            &&& if a.commits_unapplied@.len() == 0 {
                &&& same_canvas(b.current, a.current)
                &&& b.commits@ == a.commits@
                &&& b.commits_unapplied@ == a.commits_unapplied@
            } else {
                let c = a.commits_unapplied@.last();
                &&& b.commits_unapplied@ == a.commits_unapplied@.drop_last()
                &&& b.current.cell_map() == apply_entries(a.current.cell_map(), c.diff.0@)
                &&& b.current.area == area_after(a.current.area, diff_writes(c.diff.0@))
                &&& b.commits@.len() == a.commits@.len() + 1
                &&& b.commits@.drop_last() == a.commits@
                &&& b.commits@.last().revision == c.revision
                &&& b.commits@.last().diff.0@ == reversed_entries(
                    a.current.cell_map(),
                    c.diff.0@,
                )
            }
        }),
{
}

/// What one `stage` does, in terms of the diff it applies.
pub proof fn lemma_stage_step(
    a: VersionControlledCanvas,
    b: VersionControlledCanvas,
    modification: CanvasModification,
)
    requires
        a.stage_step(b, modification),
    ensures
        same_canvas(b.initial, a.initial),
        b.current.cell_map() == apply_entries(a.current.cell_map(), a.stage_diff(modification)),
        b.current.area == area_after(a.current.area, diff_writes(a.stage_diff(modification))),
        b.staging_area.unit_map() == builder_add_entries(
            a.staging_area.unit_map(),
            reversed_entries(a.current.cell_map(), a.stage_diff(modification)),
            false,
        ),
        b.commits@ == a.commits@,
        b.commits_unapplied@ == a.commits_unapplied@,
        b.revision_counter == a.revision_counter,
{
}

/// What `clear_staged` does, in terms of the staged diff it applies.
pub proof fn lemma_clear_staged_step(a: VersionControlledCanvas, b: VersionControlledCanvas)
    requires
        a.clear_staged_step(b),
    ensures
        same_canvas(b.initial, a.initial),
        b.current.cell_map() == apply_entries(a.current.cell_map(), a.staging_area.entries@),
        b.current.area == area_after(a.current.area, diff_writes(a.staging_area.entries@)),
        b.staging_area.entries@.len() == 0,
        b.commits@ == a.commits@,
        b.commits_unapplied@ == a.commits_unapplied@,
        b.revision_counter == a.revision_counter,
{
}

/// Undoing a commit makes every index read what it read before the commit; where nothing was
/// staged, the current revision is again what it was before the commit.
pub proof fn law_undo_after_commit(
    a: VersionControlledCanvas,
    b: VersionControlledCanvas,
    c: VersionControlledCanvas,
    modifications: Seq<CanvasModification>,
)
    requires
        a.wf(),
        a.create_commit_step(b, modifications),
        b.undo_step(c),
    ensures
        same_reads(c.current, a.current),
        a.staging_area.entries@.len() == 0 ==> c.spec_current_revision() == a.spec_current_revision(),
{
    if a.staging_area.entries@.len() == 0 {
        assert(b.commits@.subrange(0, a.commits@.len() as int) == a.commits@);
        assert(c.commits@ =~= a.commits@);
    }
    let s = a.commit_diff(modifications);
    law_apply_then_reversed_restores(a.current.cell_map(), s);
}

/// The modification sets an aspect at `i`: its diff against `cells` has an entry there.
pub open spec fn modification_touches(
    m: CanvasModification,
    cells: Map<CanvasIndex, CanvasCell>,
    i: CanvasIndex,
) -> bool {
    exists|k: int| 0 <= k < modification_diff(m, cells).len() && #[trigger] modification_diff(m, cells)[k].0 == i
}

/// Adding entries none of which is at `i` leaves the builder's unit at `i` as it was.
proof fn lemma_add_entries_elsewhere(
    m: Map<CanvasIndex, CanvasDiffUnit>,
    s: Seq<(CanvasIndex, CanvasDiffUnit)>,
    overwrite: bool,
    i: CanvasIndex,
)
    requires
        forall|k: int| 0 <= k < s.len() ==> #[trigger] s[k].0 != i,
    ensures
        builder_add_entries(m, s, overwrite).contains_key(i) == m.contains_key(i),
        m.contains_key(i) ==> builder_add_entries(m, s, overwrite)[i] == m[i],
    decreases s.len(),
{
    if s.len() > 0 {
        assert(s[0].0 != i);
        let rest = s.drop_first();
        assert forall|k: int| 0 <= k < rest.len() implies #[trigger] rest[k].0 != i by {
            assert(rest[k] == s[k + 1]);
        }
        lemma_add_entries_elsewhere(builder_add_entry(m, s[0], overwrite), rest, overwrite, i);
    }
}

/// Adding modifications none of which touches `i` leaves the builder's unit at `i` as it was.
proof fn lemma_add_modifications_elsewhere(
    m: Map<CanvasIndex, CanvasDiffUnit>,
    mods: Seq<CanvasModification>,
    cells: Map<CanvasIndex, CanvasCell>,
    overwrite: bool,
    i: CanvasIndex,
)
    requires
        forall|k: int| 0 <= k < mods.len() ==> !modification_touches(#[trigger] mods[k], cells, i),
    ensures
        builder_add_modifications(m, mods, cells, overwrite).contains_key(i) == m.contains_key(i),
        m.contains_key(i) ==> builder_add_modifications(m, mods, cells, overwrite)[i] == m[i],
    decreases mods.len(),
{
    if mods.len() > 0 {
        let d = modification_diff(mods[0], cells);
        assert(!modification_touches(mods[0], cells, i));
        assert forall|k: int| 0 <= k < d.len() implies #[trigger] d[k].0 != i by {
            if d[k].0 == i {
                assert(modification_touches(mods[0], cells, i));
            }
        }
        lemma_add_entries_elsewhere(m, d, overwrite, i);
        let rest = mods.drop_first();
        assert forall|k: int| 0 <= k < rest.len() implies !modification_touches(#[trigger] rest[k], cells, i) by {
            assert(rest[k] == mods[k + 1]);
        }
        lemma_add_modifications_elsewhere(builder_add_entries(m, d, overwrite), rest, cells, overwrite, i);
    }
}

/// Where exactly one of the modifications touches `i`, and sets its character to `ch`, the
/// builder sets the character at `i` to `ch`.
proof fn lemma_builder_sets_character(
    m: Map<CanvasIndex, CanvasDiffUnit>,
    mods: Seq<CanvasModification>,
    cells: Map<CanvasIndex, CanvasCell>,
    j: int,
    i: CanvasIndex,
    ch: char,
)
    requires
        0 <= j < mods.len(),
        mods[j] == CanvasModification::SetCharacter(i, ch),
        forall|k: int| 0 <= k < mods.len() && k != j ==> !modification_touches(#[trigger] mods[k], cells, i),
    ensures
        builder_add_modifications(m, mods, cells, true).contains_key(i),
        builder_add_modifications(m, mods, cells, true)[i].ch == Some(ch),
    decreases mods.len(),
{
    let d = modification_diff(mods[0], cells);
    let m1 = builder_add_entries(m, d, true);
    let rest = mods.drop_first();
    if j == 0 {
        let u = CanvasDiffUnit { ch: Some(ch), ..empty_unit() };
        assert(d == seq![(i, u)]);
        assert(d.drop_first() =~= Seq::<(CanvasIndex, CanvasDiffUnit)>::empty());
        let one = builder_add_entry(m, (i, u), true);
        assert(builder_add_entries(one, d.drop_first(), true) == one);
        assert(m1 == one);
        assert(m1[i].ch == Some(ch));
        assert forall|k: int| 0 <= k < rest.len() implies !modification_touches(#[trigger] rest[k], cells, i) by {
            assert(rest[k] == mods[k + 1]);
        }
        lemma_add_modifications_elsewhere(m1, rest, cells, true, i);
    } else {
        assert forall|k: int| 0 <= k < rest.len() && k != j - 1 implies !modification_touches(#[trigger] rest[k], cells, i) by {
            assert(rest[k] == mods[k + 1]);
        }
        assert(rest[j - 1] == mods[j]);
        lemma_builder_sets_character(m1, rest, cells, j - 1, i, ch);
    }
}

/// A commit writes the character that one of its modifications sets at an index no other one
/// of them touches.
pub proof fn law_commit_writes_character(
    a: VersionControlledCanvas,
    b: VersionControlledCanvas,
    modifications: Seq<CanvasModification>,
    j: int,
    i: CanvasIndex,
    ch: char,
)
    requires
        a.wf(),
        a.create_commit_step(b, modifications),
        0 <= j < modifications.len(),
        modifications[j] == CanvasModification::SetCharacter(i, ch),
        forall|k: int|
            0 <= k < modifications.len() && k != j ==> !modification_touches(
                #[trigger] modifications[k],
                a.current.cell_map(),
                i,
            ),
    ensures
        read_cell(b.current.cell_map(), i).character == ch,
{
    lemma_create_commit_step(a, b, modifications);
    let s = a.commit_diff(modifications);
    lemma_builder_sets_character(Map::empty(), modifications, a.current.cell_map(), j, i, ch);
    assert(entries_map(s).contains_key(i));
    let k = choose|k: int| 0 <= k < s.len() && #[trigger] s[k].0 == i;
    crate::index_map::lemma_entries_map_at(s, k);
    lemma_apply_entries_read(a.current.cell_map(), s, i);
}

/// A commit's revision is new: it is above the revision counter before the commit, and so above
/// every revision the canvas held, applied or undone.
pub proof fn law_commit_revision_is_new(
    a: VersionControlledCanvas,
    b: VersionControlledCanvas,
    modifications: Seq<CanvasModification>,
)
    requires
        a.wf(),
        a.create_commit_step(b, modifications),
    ensures
        b.spec_current_revision() == b.revision_counter,
        b.spec_current_revision() > a.revision_counter,
        forall|k: int| 0 <= k < a.commits@.len() ==> #[trigger] a.commits@[k].revision < b.spec_current_revision(),
        forall|k: int|
            0 <= k < a.commits_unapplied@.len() ==> #[trigger] a.commits_unapplied@[k].revision
                < b.spec_current_revision(),
{
    lemma_create_commit_step(a, b, modifications);
}

/// Redoing right after a commit changes nothing: the commit dropped what was undone.
pub proof fn law_redo_after_commit(
    a: VersionControlledCanvas,
    b: VersionControlledCanvas,
    c: VersionControlledCanvas,
    modifications: Seq<CanvasModification>,
)
    requires
        a.wf(),
        a.create_commit_step(b, modifications),
        b.redo_step(c),
    ensures
        same_canvas(c.current, b.current),
        c.commits@ == b.commits@,
        c.commits_unapplied@ == b.commits_unapplied@,
        c.spec_current_revision() == b.spec_current_revision(),
{
    lemma_create_commit_step(a, b, modifications);
    lemma_redo_step(b, c);
}

/// The staged unit at `k`, or the empty unit where nothing is staged there.
pub open spec fn staged_unit(staged: Map<CanvasIndex, CanvasDiffUnit>, k: CanvasIndex) -> CanvasDiffUnit {
    if staged.contains_key(k) {
        staged[k]
    } else {
        empty_unit()
    }
}

/// `cell` differs from `original` only in the aspects that `u` sets, and `u` sets each of them
/// to what `original` holds.
pub open spec fn sets_back(cell: CanvasCell, original: CanvasCell, u: CanvasDiffUnit) -> bool {
    &&& match u.ch {
        Some(x) => x == original.character,
        None => cell.character == original.character,
    }
    &&& match u.fg {
        Some(x) => x == original.fg,
        None => cell.fg == original.fg,
    }
    &&& match u.bg {
        Some(x) => x == original.bg,
        None => cell.bg == original.bg,
    }
    &&& match u.modifier {
        Some(x) => x == original.modifiers,
        None => cell.modifiers == original.modifiers,
    }
}

/// What is staged on `v` sets every index back to what it reads in `original`.
pub open spec fn staged_sets_back(original: Map<CanvasIndex, CanvasCell>, v: VersionControlledCanvas) -> bool {
    forall|k: CanvasIndex|
        #[trigger] sets_back(
            read_cell(v.current.cell_map(), k),
            read_cell(original, k),
            staged_unit(v.staging_area.unit_map(), k),
        )
}

/// Adding sorted entries: the unit at `k` is the one entry at `k` merged into what was there.
proof fn lemma_add_sorted_entries_at(
    m: Map<CanvasIndex, CanvasDiffUnit>,
    r: Seq<(CanvasIndex, CanvasDiffUnit)>,
    overwrite: bool,
    k: CanvasIndex,
)
    requires
        sorted_keys(r),
    ensures
        forall|j: int|
            0 <= j < r.len() && #[trigger] r[j].0 == k ==> staged_unit(builder_add_entries(m, r, overwrite), k)
                == merge_unit(staged_unit(m, k), r[j].1, overwrite) && builder_add_entries(
                m,
                r,
                overwrite,
            ).contains_key(k),
        (forall|j: int| 0 <= j < r.len() ==> #[trigger] r[j].0 != k) ==> staged_unit(
            builder_add_entries(m, r, overwrite),
            k,
        ) == staged_unit(m, k) && builder_add_entries(m, r, overwrite).contains_key(k)
            == m.contains_key(k),
    decreases r.len(),
{
    if r.len() > 0 {
        let m1 = builder_add_entry(m, r[0], overwrite);
        let rest = r.drop_first();
        assert(sorted_keys(rest)) by {
            assert forall|a: int, b: int| 0 <= a < b < rest.len() implies crate::index_map::idx_lt(
                #[trigger] rest[a].0,
                #[trigger] rest[b].0,
            ) by {
                assert(rest[a] == r[a + 1]);
                assert(rest[b] == r[b + 1]);
            }
        }
        lemma_add_sorted_entries_at(m1, rest, overwrite, k);
        if r[0].0 == k {
            assert forall|j: int| 0 <= j < rest.len() implies #[trigger] rest[j].0 != k by {
                assert(rest[j] == r[j + 1]);
                assert(crate::index_map::idx_lt(r[0].0, r[j + 1].0));
            }
            assert forall|j: int| 0 <= j < r.len() && #[trigger] r[j].0 == k implies j == 0 by {
                if j > 0 {
                    assert(crate::index_map::idx_lt(r[0].0, r[j].0));
                }
            }
            assert(m1.contains_key(k));
            assert(staged_unit(m1, k) == merge_unit(staged_unit(m, k), r[0].1, overwrite));
        } else {
            assert(staged_unit(m1, k) == staged_unit(m, k));
            assert forall|j: int| 0 <= j < r.len() && #[trigger] r[j].0 == k implies staged_unit(
                builder_add_entries(m, r, overwrite),
                k,
            ) == merge_unit(staged_unit(m, k), r[j].1, overwrite) && builder_add_entries(
                m,
                r,
                overwrite,
            ).contains_key(k) by {
                assert(rest[j - 1] == r[j]);
            }
            assert((forall|j: int| 0 <= j < r.len() ==> #[trigger] r[j].0 != k) ==> (forall|j: int|
                0 <= j < rest.len() ==> #[trigger] rest[j].0 != k)) by {
                if forall|j: int| 0 <= j < r.len() ==> #[trigger] r[j].0 != k {
                    assert forall|j: int| 0 <= j < rest.len() implies #[trigger] rest[j].0 != k by {
                        assert(rest[j] == r[j + 1]);
                    }
                }
            }
        }
    }
}

/// With nothing staged, what is staged sets every index back to what it reads.
pub proof fn lemma_nothing_staged_sets_back(v: VersionControlledCanvas)
    requires
        v.staging_area.entries@.len() == 0,
    ensures
        staged_sets_back(v.current.cell_map(), v),
{
    assert(v.staging_area.unit_map() =~= Map::<CanvasIndex, CanvasDiffUnit>::empty());
}

/// Staging keeps what is staged setting every index back to what it read before the first
/// staged modification: the staging area keeps the first unit that sets back each aspect.
pub proof fn law_stage_keeps_set_back(
    original: Map<CanvasIndex, CanvasCell>,
    a: VersionControlledCanvas,
    b: VersionControlledCanvas,
    modification: CanvasModification,
)
    requires
        a.wf(),
        staged_sets_back(original, a),
        a.stage_step(b, modification),
    ensures
        staged_sets_back(original, b),
{
    lemma_stage_step(a, b, modification);
    let s = a.stage_diff(modification);
    let cur = a.current.cell_map();
    let r = reversed_entries(cur, s);
    lemma_reversed_keys(cur, s);
    assert forall|k: CanvasIndex|
        #[trigger] sets_back(
            read_cell(b.current.cell_map(), k),
            read_cell(original, k),
            staged_unit(b.staging_area.unit_map(), k),
        ) by {
        assert(sets_back(read_cell(cur, k), read_cell(original, k), staged_unit(a.staging_area.unit_map(), k)));
        crate::operations::lemma_apply_entries_read(cur, s, k);
        lemma_add_sorted_entries_at(a.staging_area.unit_map(), r, false, k);
        if exists|j: int| 0 <= j < s.len() && #[trigger] s[j].0 == k {
            let j = choose|j: int| 0 <= j < s.len() && #[trigger] s[j].0 == k;
            crate::operations::lemma_reversed_entry(cur, s, j);
            assert(r[j].0 == k);
        } else {
            assert forall|j: int| 0 <= j < r.len() implies #[trigger] r[j].0 != k by {
                assert(r[j].0 == s[j].0);
            }
        }
    }
}

/// Clearing what is staged, where it sets every index back to what it reads in `original`,
/// makes every index read what it reads in `original`.
pub proof fn law_clear_staged_sets_back(
    original: Map<CanvasIndex, CanvasCell>,
    a: VersionControlledCanvas,
    c: VersionControlledCanvas,
)
    requires
        a.wf(),
        staged_sets_back(original, a),
        a.clear_staged_step(c),
    ensures
        forall|k: CanvasIndex| #[trigger] read_cell(c.current.cell_map(), k) == read_cell(original, k),
{
    lemma_clear_staged_step(a, c);
    let e = a.staging_area.entries@;
    let cur = a.current.cell_map();
    assert forall|k: CanvasIndex| #[trigger] read_cell(c.current.cell_map(), k) == read_cell(original, k) by {
        assert(sets_back(read_cell(cur, k), read_cell(original, k), staged_unit(a.staging_area.unit_map(), k)));
        crate::operations::lemma_apply_entries_read(cur, e, k);
        if exists|j: int| 0 <= j < e.len() && #[trigger] e[j].0 == k {
            let j = choose|j: int| 0 <= j < e.len() && #[trigger] e[j].0 == k;
            crate::index_map::lemma_entries_map_at(e, j);
        } else {
            assert(!a.staging_area.unit_map().contains_key(k));
        }
    }
}

/// Redoing an undone commit makes every index read what it read before the undo.
pub proof fn law_redo_after_undo(
    a: VersionControlledCanvas,
    b: VersionControlledCanvas,
    c: VersionControlledCanvas,
)
    requires
        a.wf(),
        a.commits@.len() > 0,
        a.undo_step(b),
        b.redo_step(c),
    ensures
        same_reads(c.current, a.current),
        c.commits@.len() == a.commits@.len(),
        c.spec_current_revision() == a.spec_current_revision(),
{
    let d = a.commits@.last().diff.0@;
    assert(sorted_keys(a.commits@[a.commits@.len() - 1].diff.0@));
    law_apply_then_reversed_restores(a.current.cell_map(), d);
}

/// Undoing a redone commit makes every index read what it read before the redo.
pub proof fn law_undo_after_redo(
    a: VersionControlledCanvas,
    b: VersionControlledCanvas,
    c: VersionControlledCanvas,
)
    requires
        a.wf(),
        a.commits_unapplied@.len() > 0,
        a.redo_step(b),
        b.undo_step(c),
    ensures
        same_reads(c.current, a.current),
        c.commits@ == a.commits@,
        c.spec_current_revision() == a.spec_current_revision(),
{
    let d = a.commits_unapplied@.last().diff.0@;
    assert(sorted_keys(a.commits_unapplied@[a.commits_unapplied@.len() - 1].diff.0@));
    law_apply_then_reversed_restores(a.current.cell_map(), d);
}

/// Adding sorted entries whose indices the builder does not hold yet, without `overwrite`,
/// stores each of them as it is.
pub proof fn lemma_add_fresh_entries(
    m: Map<CanvasIndex, CanvasDiffUnit>,
    r: Seq<(CanvasIndex, CanvasDiffUnit)>,
)
    requires
        sorted_keys(r),
        forall|j: int| 0 <= j < r.len() ==> !m.contains_key(#[trigger] r[j].0),
    ensures
        builder_add_entries(m, r, false) == m.union_prefer_right(entries_map(r)),
    decreases r.len(),
{
    if r.len() == 0 {
        assert(m.union_prefer_right(entries_map(r)) =~= m);
    } else {
        let e = r[0];
        assert(merge_unit(empty_unit(), e.1, false) == e.1);
        let m1 = builder_add_entry(m, e, false);
        assert(m1 == m.insert(e.0, e.1));
        lemma_drop_first_map(r);
        let rest = r.drop_first();
        assert forall|j: int| 0 <= j < rest.len() implies !m1.contains_key(#[trigger] rest[j].0) by {
            assert(rest[j] == r[j + 1]);
            assert(crate::index_map::idx_lt(r[0].0, r[j + 1].0));
        }
        lemma_add_fresh_entries(m1, rest);
        crate::index_map::lemma_entries_map_at(r, 0);
        assert(m1.union_prefer_right(entries_map(rest)) =~= m.union_prefer_right(entries_map(r)));
    }
}

/// Staging one modification on an empty staging area and then clearing what is staged makes
/// every index read what it read before.
pub proof fn law_clear_staged_after_stage(
    a: VersionControlledCanvas,
    b: VersionControlledCanvas,
    c: VersionControlledCanvas,
    modification: CanvasModification,
)
    requires
        a.wf(),
        a.staging_area.entries@.len() == 0,
        a.stage_step(b, modification),
        b.wf(),
        b.clear_staged_step(c),
    ensures
        same_reads(c.current, a.current),
{
    let s = a.stage_diff(modification);
    let r = reversed_entries(a.current.cell_map(), s);
    lemma_reversed_keys(a.current.cell_map(), s);
    assert(a.staging_area.unit_map() =~= Map::<CanvasIndex, CanvasDiffUnit>::empty());
    lemma_add_fresh_entries(Map::empty(), r);
    assert(Map::<CanvasIndex, CanvasDiffUnit>::empty().union_prefer_right(entries_map(r)) =~= entries_map(r));
    lemma_sorted_listing_unique(b.staging_area.entries@, r);
    law_apply_then_reversed_restores(a.current.cell_map(), s);
}

/// A commit step depends on the modifications only through the diff units they make.
pub proof fn lemma_commit_step_same_diff(
    a: VersionControlledCanvas,
    b: VersionControlledCanvas,
    m1: Seq<CanvasModification>,
    m2: Seq<CanvasModification>,
)
    requires
        builder_add_modifications(Map::empty(), m1, a.current.cell_map(), true)
            == builder_add_modifications(Map::empty(), m2, a.current.cell_map(), true),
    ensures
        a.create_commit_step(b, m1) == a.create_commit_step(b, m2),
{
}

impl VersionControlledCanvas {
    /// Whether `undo` runs without overflow.
    pub fn can_undo_exec(&self) -> (b: bool)
        ensures
            b == self.can_undo(),
    {
        let n = self.commits.len();
        if n == 0 {
            true
        } else {
            crate::operations::diff_fits(self.current.area, &self.commits[n - 1].diff.0)
        }
    }

    /// Whether `redo` runs without overflow.
    pub fn can_redo_exec(&self) -> (b: bool)
        ensures
            b == self.can_redo(),
    {
        let n = self.commits_unapplied.len();
        if n == 0 {
            true
        } else {
            crate::operations::diff_fits(self.current.area, &self.commits_unapplied[n - 1].diff.0)
        }
    }

    /// Whether committing `modifications` runs without overflow.
    pub fn can_commit_exec(&self, modifications: &Vec<CanvasModification>) -> (b: bool)
        requires
            self.wf(),
        ensures
            b == self.can_commit(modifications@),
    {
        let mut i: usize = 0;
        while i < modifications.len()
            invariant
                0 <= i <= modifications@.len(),
                forall|j: int| 0 <= j < i ==> modification_fits(#[trigger] modifications@[j]),
            decreases modifications@.len() - i,
        {
            if !crate::operations::modification_fits_exec(&modifications[i]) {
                return false;
            }
            i += 1;
        }
        let needed: u64 = if self.staging_area.entries.len() > 0 { 2 } else { 1 };
        if self.revision_counter > u64::MAX - needed {
            return false;
        }
        let builder = CanvasDiffBuilder::from_modifications(modifications, &self.current);
        proof {
            lemma_sorted_listing(builder.entries@);
        }
        crate::operations::diff_fits(self.current.area, &builder.entries)
    }
}

} // verus!
