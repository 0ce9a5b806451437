//! What is left to do once a group is merged: write the skybox, then remove
//! the source files, one after the other.
//!
//! The caller does the work. It asks for the next action, performs it, and
//! records whether it succeeded, until nothing is left.

use crate::error::SkyboxError;
use crate::group::spec_paths;
use vstd::prelude::*;

verus! {

/// How far the completion of one skybox has come.
#[derive(Clone, Copy, Debug, PartialEq, Eq, Structural)]
pub enum Stage {
    /// The skybox is yet to be written.
    Writing,
    /// The skybox is written; source files are being removed.
    Removing,
    /// The skybox is written and the removal of every source file was
    /// attempted.
    Merged,
    /// The skybox could not be written; no source file was touched.
    Failed,
}

/// What the caller is to do next.
#[derive(Clone, Debug, PartialEq, Eq)]
pub enum Action {
    /// Write the skybox to its file.
    Write,
    /// Remove the source file at this path.
    Remove(String),
    /// Nothing: the skybox is merged, or it failed.
    Done,
}

/// The progress of writing one skybox and removing its source files.
#[derive(Clone, Debug, PartialEq, Eq)]
pub struct Completion {
    sources: Vec<String>,
    written: Option<bool>,
    attempted: usize,
    warnings: Vec<String>,
}

/// What a [`Completion`] holds, as mathematical values.
pub struct CompletionView {
    /// The paths that are to be removed once the skybox is written.
    pub sources: Seq<Seq<char>>,
    /// Whether the skybox was written; nothing while that is yet to be
    /// tried.
    pub written: Option<bool>,
    /// How many of the paths were tried, in their order.
    pub attempted: nat,
    /// The paths that could not be removed, in their order.
    pub warnings: Seq<Seq<char>>,
}

impl CompletionView {
    /// The state before anything was done.
    pub open spec fn start(sources: Seq<Seq<char>>) -> CompletionView {
        CompletionView { sources, written: None, attempted: 0, warnings: Seq::empty() }
    }

    /// How far the completion has come.
    pub open spec fn stage(self) -> Stage {
        match self.written {
            None => Stage::Writing,
            Some(false) => Stage::Failed,
            Some(true) => if self.attempted < self.sources.len() {
                Stage::Removing
            } else {
                Stage::Merged
            },
        }
    }

    /// The state after the action that was due has succeeded or failed. A
    /// skybox that could not be written fails, and none of its paths is
    /// tried. A path that could not be removed is noted, and the next path
    /// is due all the same. Once nothing is due, nothing changes.
    pub open spec fn record(self, succeeded: bool) -> CompletionView {
        match self.stage() {
            Stage::Writing => CompletionView { written: Some(succeeded), ..self },
            Stage::Removing => CompletionView {
                attempted: self.attempted + 1,
                warnings: if succeeded {
                    self.warnings
                } else {
                    self.warnings.push(self.sources[self.attempted as int])
                },
                ..self
            },
            Stage::Merged => self,
            Stage::Failed => self,
        }
    }

    /// The state after one result was recorded for each of `results`, in
    /// their order.
    pub open spec fn record_all(self, results: Seq<bool>) -> CompletionView
        decreases results.len(),
    {
        if results.len() == 0 {
            self
        } else {
            self.record_all(results.drop_last()).record(results.last())
        }
    }

    /// The paths among the first `upto` whose removal failed, `results[k]`
    /// being the result for the path at place `k`.
    pub open spec fn failures(self, results: Seq<bool>, upto: int) -> Seq<Seq<char>>
        decreases upto,
    {
        if upto <= 0 {
            Seq::empty()
        } else if results[upto - 1] {
            self.failures(results, upto - 1)
        } else {
            self.failures(results, upto - 1).push(self.sources[upto - 1])
        }
    }

    /// The write is due once: whatever is recorded, in whatever state, the
    /// write is not due again afterwards.
    pub proof fn lemma_write_is_due_once(self, succeeded: bool)
        ensures
            self.record(succeeded).stage() != Stage::Writing,
    {
    }

    /// A skybox that could not be written fails for good: whatever is
    /// recorded afterwards, none of its paths is tried or noted.
    pub proof fn lemma_failed_write_removes_nothing(sources: Seq<Seq<char>>, later: Seq<bool>)
        ensures
            Self::start(sources).record(false).record_all(later) == (CompletionView {
                written: Some(false),
                ..Self::start(sources)
            }),
            Self::start(sources).record(false).record_all(later).stage() == Stage::Failed,
        decreases later.len(),
    {
        if later.len() > 0 {
            Self::lemma_failed_write_removes_nothing(sources, later.drop_last());
        }
    }

    /// After a successful write, the removal of the paths proceeds by one
    /// path for each result recorded, whether it succeeded or failed, and
    /// the paths noted are exactly those whose removal failed.
    pub proof fn lemma_removal_proceeds(sources: Seq<Seq<char>>, results: Seq<bool>)
        requires
            results.len() <= sources.len(),
        ensures
            Self::start(sources).record(true).record_all(results) == (CompletionView {
                sources,
                written: Some(true),
                attempted: results.len(),
                warnings: Self::start(sources).failures(results, results.len() as int),
            }),
        decreases results.len(),
    {
        let written = Self::start(sources).record(true);
        if results.len() > 0 {
            let head = results.drop_last();
            Self::lemma_removal_proceeds(sources, head);
            Self::lemma_failures_of_head(sources, results, head.len() as int);
        } else {
            assert(written.record_all(results) == written);
        }
    }

    /// The failures among the first paths depend on the first results only.
    proof fn lemma_failures_of_head(sources: Seq<Seq<char>>, results: Seq<bool>, upto: int)
        requires
            0 <= upto < results.len(),
        ensures
            Self::start(sources).failures(results.drop_last(), upto) == Self::start(
                sources,
            ).failures(results, upto),
        decreases upto,
    {
        if upto > 0 {
            Self::lemma_failures_of_head(sources, results, upto - 1);
            assert(results.drop_last()[upto - 1] == results[upto - 1]);
        }
    }

    /// Once the skybox is written, the removal of every path is attempted,
    /// however many of the removals fail, and the skybox counts as merged.
    pub proof fn lemma_every_source_is_attempted(sources: Seq<Seq<char>>, results: Seq<bool>)
        requires
            results.len() == sources.len(),
        ensures
            Self::start(sources).record(true).record_all(results).stage() == Stage::Merged,
            Self::start(sources).record(true).record_all(results).attempted == sources.len(),
    {
        Self::lemma_removal_proceeds(sources, results);
    }
}

impl View for Completion {
    type V = CompletionView;

    closed spec fn view(&self) -> CompletionView {
        CompletionView {
            sources: spec_paths(self.sources@),
            written: self.written,
            attempted: self.attempted as nat,
            warnings: spec_paths(self.warnings@),
        }
    }
}

impl Completion {
    /// The completion of a skybox whose source files at `sources` are to be
    /// removed once it is written.
    pub fn new(sources: Vec<String>) -> (completion: Completion)
        ensures
            completion@ == CompletionView::start(spec_paths(sources@)),
    {
        let warnings: Vec<String> = Vec::new();
        proof {
            assert(spec_paths(warnings@) =~= Seq::empty());
        }
        Completion { sources, written: None, attempted: 0, warnings }
    }

    /// How far the completion has come.
    pub fn stage(&self) -> (stage: Stage)
        ensures
            stage == self@.stage(),
    {
        match self.written {
            None => Stage::Writing,
            Some(false) => Stage::Failed,
            Some(true) => if self.attempted < self.sources.len() {
                Stage::Removing
            } else {
                Stage::Merged
            },
        }
    }

    /// What is to be done next: write the skybox; remove the next source
    /// file; or nothing more.
    pub fn next(&self) -> (action: Action)
        ensures
            match action {
                Action::Write => self@.stage() == Stage::Writing,
                Action::Remove(path) => self@.stage() == Stage::Removing && path@
                    == self@.sources[self@.attempted as int],
                Action::Done => self@.stage() == Stage::Merged || self@.stage() == Stage::Failed,
            },
    {
        match self.stage() {
            Stage::Writing => Action::Write,
            Stage::Removing => Action::Remove(self.sources[self.attempted].clone()),
            Stage::Merged => Action::Done,
            Stage::Failed => Action::Done,
        }
    }

    /// Records whether the action that was due succeeded.
    pub fn record(&mut self, succeeded: bool)
        ensures
            final(self)@ == old(self)@.record(succeeded),
    {
        match self.stage() {
            Stage::Writing => {
                self.written = Some(succeeded);
            },
            Stage::Removing => {
                let ghost before = spec_paths(self.warnings@);
                if !succeeded {
                    self.warnings.push(self.sources[self.attempted].clone());
                    proof {
                        assert(spec_paths(self.warnings@) =~= before.push(
                            spec_paths(self.sources@)[self.attempted as int],
                        ));
                    }
                }
                assert(self.attempted < self.sources.len());
                self.attempted = self.attempted + 1;
            },
            Stage::Merged => {},
            Stage::Failed => {},
        }
    }

    /// The outcome for the group: nothing yet while work is left; success
    /// once the skybox is written and every removal was attempted, whether
    /// or not the removals succeeded; the error when it could not be
    /// written.
    pub fn outcome(&self) -> (outcome: Option<Result<(), SkyboxError>>)
        ensures
            outcome == (match self@.stage() {
                Stage::Writing => None,
                Stage::Removing => None,
                Stage::Merged => Some(Ok::<(), SkyboxError>(())),
                Stage::Failed => Some(Err::<(), SkyboxError>(SkyboxError::Encode)),
            }),
    {
        match self.stage() {
            Stage::Writing => None,
            Stage::Removing => None,
            Stage::Merged => Some(Ok(())),
            Stage::Failed => Some(Err(SkyboxError::Encode)),
        }
    }

    /// The source files that could not be removed, in the order in which
    /// they were tried.
    pub fn warnings(&self) -> (warnings: &Vec<String>)
        ensures
            spec_paths(warnings@) == self@.warnings,
    {
        &self.warnings
    }
}

} // verus!
