//! Copying a finished proxy beside its source.
//!
//! The files are handled outside the library, which says what is to be done next and is told
//! whether it worked.

use crate::paths::{parent_dir, parent_directory};
use crate::text::{owned, same};
use vstd::prelude::*;
use vstd::string::*;

verus! {

/// How far a copy has come.
#[derive(Debug, Clone, Copy, PartialEq, Eq, Structural)]
pub enum MirrorStage {
    /// The directory is made.
    MakingDirectory,
    /// The proxy is copied under a passing name.
    Copying,
    /// The copy is tried.
    Checking,
    /// The copy gets its name.
    Renaming,
    /// Whether a file with its name is in the way.
    Looking,
    /// That file is removed and the copy gets its name.
    Replacing,
    /// The passing copy is removed.
    Discarding,
    /// The record of the source is written.
    Recording,
    /// The copy is in place, or was given up.
    Done,
}

/// What is to be done.
#[derive(Debug)]
pub enum MirrorAction {
    MakeDirectory { dir: String },
    Copy { from: String, to: String },
    Check { path: String },
    Rename { from: String, to: String },
    LookFor { path: String },
    Replace { from: String, to: String },
    Discard { path: String },
    WriteRecord { path: String },
    Finish,
}

/// What is to be done, as text.
pub enum MirrorActionView {
    MakeDirectory { dir: Seq<char> },
    Copy { from: Seq<char>, to: Seq<char> },
    Check { path: Seq<char> },
    Rename { from: Seq<char>, to: Seq<char> },
    LookFor { path: Seq<char> },
    Replace { from: Seq<char>, to: Seq<char> },
    Discard { path: Seq<char> },
    WriteRecord { path: Seq<char> },
    Finish,
}

impl MirrorAction {
    pub open spec fn view(&self) -> MirrorActionView {
        match *self {
            MirrorAction::MakeDirectory { dir } => MirrorActionView::MakeDirectory { dir: dir@ },
            MirrorAction::Copy { from, to } => MirrorActionView::Copy { from: from@, to: to@ },
            MirrorAction::Check { path } => MirrorActionView::Check { path: path@ },
            MirrorAction::Rename { from, to } => MirrorActionView::Rename { from: from@, to: to@ },
            MirrorAction::LookFor { path } => MirrorActionView::LookFor { path: path@ },
            MirrorAction::Replace { from, to } => MirrorActionView::Replace {
                from: from@,
                to: to@,
            },
            MirrorAction::Discard { path } => MirrorActionView::Discard { path: path@ },
            MirrorAction::WriteRecord { path } => MirrorActionView::WriteRecord { path: path@ },
            MirrorAction::Finish => MirrorActionView::Finish,
        }
    }
}

/// The stage after one that worked or did not.
pub open spec fn stage_after(s: MirrorStage, ok: bool) -> MirrorStage {
    match s {
        MirrorStage::MakingDirectory => if ok {
            MirrorStage::Copying
        } else {
            MirrorStage::Done
        },
        MirrorStage::Copying => if ok {
            MirrorStage::Checking
        } else {
            MirrorStage::Discarding
        },
        MirrorStage::Checking => if ok {
            MirrorStage::Renaming
        } else {
            MirrorStage::Discarding
        },
        MirrorStage::Renaming => if ok {
            MirrorStage::Recording
        } else {
            MirrorStage::Looking
        },
        MirrorStage::Looking => if ok {
            MirrorStage::Replacing
        } else {
            MirrorStage::Discarding
        },
        MirrorStage::Replacing => if ok {
            MirrorStage::Recording
        } else {
            MirrorStage::Discarding
        },
        _ => MirrorStage::Done,
    }
}

/// The name that a copy has until it is complete.
pub open spec fn passing_name(sidecar: Seq<char>) -> Seq<char> {
    sidecar + ".partial"@
}

/// What a stage does.
pub open spec fn action_of(s: MirrorStage, local: Seq<char>, sidecar: Seq<char>) -> MirrorActionView {
    match s {
        MirrorStage::MakingDirectory => MirrorActionView::MakeDirectory {
            dir: match parent_dir(sidecar) {
                Some(d) => d,
                None => "."@,
            },
        },
        MirrorStage::Copying => MirrorActionView::Copy { from: local, to: passing_name(sidecar) },
        MirrorStage::Checking => MirrorActionView::Check { path: passing_name(sidecar) },
        MirrorStage::Renaming => MirrorActionView::Rename {
            from: passing_name(sidecar),
            to: sidecar,
        },
        MirrorStage::Looking => MirrorActionView::LookFor { path: sidecar },
        MirrorStage::Replacing => MirrorActionView::Replace {
            from: passing_name(sidecar),
            to: sidecar,
        },
        MirrorStage::Discarding => MirrorActionView::Discard { path: passing_name(sidecar) },
        MirrorStage::Recording => MirrorActionView::WriteRecord { path: sidecar },
        MirrorStage::Done => MirrorActionView::Finish,
    }
}

/// A copy that is being made.
#[derive(Debug)]
pub struct Mirror {
    pub local_path: String,
    pub sidecar_path: String,
    pub stage: MirrorStage,
}

impl Mirror {
    /// Begins to copy a proxy beside its source. A proxy that lies there needs no copy.
    pub fn begin(local_path: &str, sidecar_path: &str) -> (r: Option<Mirror>)
        ensures
            r is Some <==> local_path@ != sidecar_path@,
            r matches Some(m) ==> m.local_path@ == local_path@ && m.sidecar_path@ == sidecar_path@
                && m.stage == MirrorStage::MakingDirectory,
    {
        if same(local_path, sidecar_path) {
            return None;
        }
        Some(
            Mirror {
                local_path: owned(local_path),
                sidecar_path: owned(sidecar_path),
                stage: MirrorStage::MakingDirectory,
            },
        )
    }

    fn passing(&self) -> (r: String)
        ensures
            r@ == passing_name(self.sidecar_path@),
    {
        let mut r = self.sidecar_path.clone();
        r.append(".partial");
        r
    }

    /// What is to be done now.
    pub fn action(&self) -> (r: MirrorAction)
        ensures
            r@ == action_of(self.stage, self.local_path@, self.sidecar_path@),
    {
        match self.stage {
            MirrorStage::MakingDirectory => {
                let dir = match parent_directory(&self.sidecar_path) {
                    Some(d) => d,
                    None => owned("."),
                };
                MirrorAction::MakeDirectory { dir }
            },
            MirrorStage::Copying => MirrorAction::Copy {
                from: self.local_path.clone(),
                to: self.passing(),
            },
            MirrorStage::Checking => MirrorAction::Check { path: self.passing() },
            MirrorStage::Renaming => MirrorAction::Rename {
                from: self.passing(),
                to: self.sidecar_path.clone(),
            },
            MirrorStage::Looking => MirrorAction::LookFor { path: self.sidecar_path.clone() },
            MirrorStage::Replacing => MirrorAction::Replace {
                from: self.passing(),
                to: self.sidecar_path.clone(),
            },
            MirrorStage::Discarding => MirrorAction::Discard { path: self.passing() },
            MirrorStage::Recording => MirrorAction::WriteRecord { path: self.sidecar_path.clone() },
            MirrorStage::Done => MirrorAction::Finish,
        }
    }

    /// Notes whether what was to be done worked. Returns what is to be done next.
    pub fn step(&mut self, ok: bool) -> (r: MirrorAction)
        ensures
            final(self).local_path == old(self).local_path,
            final(self).sidecar_path == old(self).sidecar_path,
            final(self).stage == stage_after(old(self).stage, ok),
            r@ == action_of(final(self).stage, old(self).local_path@, old(self).sidecar_path@),
    {
        self.stage =
        match self.stage {
            MirrorStage::MakingDirectory => if ok {
                MirrorStage::Copying
            } else {
                MirrorStage::Done
            },
            MirrorStage::Copying => if ok {
                MirrorStage::Checking
            } else {
                MirrorStage::Discarding
            },
            MirrorStage::Checking => if ok {
                MirrorStage::Renaming
            } else {
                MirrorStage::Discarding
            },
            MirrorStage::Renaming => if ok {
                MirrorStage::Recording
            } else {
                MirrorStage::Looking
            },
            MirrorStage::Looking => if ok {
                MirrorStage::Replacing
            } else {
                MirrorStage::Discarding
            },
            MirrorStage::Replacing => if ok {
                MirrorStage::Recording
            } else {
                MirrorStage::Discarding
            },
            _ => MirrorStage::Done,
        };
        self.action()
    }
}

/// The stage after a number of answers.
pub open spec fn stage_after_all(s: MirrorStage, answers: Seq<bool>) -> MirrorStage
    decreases answers.len(),
{
    if answers.len() == 0 {
        s
    } else {
        stage_after(stage_after_all(s, answers.drop_last()), answers.last())
    }
}

/// How many steps are left at most.
pub open spec fn steps_left(s: MirrorStage) -> nat {
    match s {
        MirrorStage::MakingDirectory => 7,
        MirrorStage::Copying => 6,
        MirrorStage::Checking => 5,
        MirrorStage::Renaming => 4,
        MirrorStage::Looking => 3,
        MirrorStage::Replacing => 2,
        MirrorStage::Discarding => 1,
        MirrorStage::Recording => 1,
        MirrorStage::Done => 0,
    }
}

/// A copy comes to an end, whatever works and whatever does not.
pub proof fn lemma_mirror_ends(answers: Seq<bool>)
    requires
        answers.len() >= 7,
    ensures
        stage_after_all(MirrorStage::MakingDirectory, answers) == MirrorStage::Done,
    decreases answers.len(),
{
    lemma_steps_left(answers);
}

proof fn lemma_steps_left(answers: Seq<bool>)
    ensures
        steps_left(stage_after_all(MirrorStage::MakingDirectory, answers)) + answers.len() <= 7
            || stage_after_all(MirrorStage::MakingDirectory, answers) == MirrorStage::Done,
    decreases answers.len(),
{
    if answers.len() > 0 {
        lemma_steps_left(answers.drop_last());
    }
}

/// The record of a source is written only once a copy that was found complete has its name, and a
/// copy that was begun and did not get its name is discarded.
pub proof fn lemma_recorded_copy_is_complete(s: MirrorStage, ok: bool)
    ensures
        stage_after(s, ok) == MirrorStage::Recording ==> ok && (s == MirrorStage::Renaming || s
            == MirrorStage::Replacing),
        stage_after(s, ok) == MirrorStage::Renaming ==> ok && s == MirrorStage::Checking,
        s == MirrorStage::Copying || s == MirrorStage::Checking || s == MirrorStage::Looking || s
            == MirrorStage::Replacing ==> !ok ==> stage_after(s, ok) == MirrorStage::Discarding,
{
}

/// Where all works, the proxy is copied under a passing name, checked, given its name and recorded,
/// in this order.
pub proof fn lemma_good_copy(local: Seq<char>, sidecar: Seq<char>)
    ensures
        ({
            let s0 = MirrorStage::MakingDirectory;
            let s1 = stage_after(s0, true);
            let s2 = stage_after(s1, true);
            let s3 = stage_after(s2, true);
            let s4 = stage_after(s3, true);
            let s5 = stage_after(s4, true);
            let passing = sidecar + ".partial"@;
            &&& action_of(s0, local, sidecar) is MakeDirectory
            &&& action_of(s1, local, sidecar) == (MirrorActionView::Copy {
                from: local,
                to: passing,
            })
            &&& action_of(s2, local, sidecar) == (MirrorActionView::Check { path: passing })
            &&& action_of(s3, local, sidecar) == (MirrorActionView::Rename {
                from: passing,
                to: sidecar,
            })
            &&& action_of(s4, local, sidecar) == (MirrorActionView::WriteRecord { path: sidecar })
            &&& action_of(s5, local, sidecar) == MirrorActionView::Finish
        }),
{
}

/// A copy that does not work, is not whole, or cannot get its name is discarded; the proxy under the
/// name is replaced only where there is one. Without a directory nothing is tried.
pub proof fn lemma_bad_copy(local: Seq<char>, sidecar: Seq<char>)
    ensures
        stage_after(MirrorStage::MakingDirectory, false) == MirrorStage::Done,
        ({
            let discard = MirrorActionView::Discard { path: sidecar + ".partial"@ };
            &&& action_of(stage_after(MirrorStage::Copying, false), local, sidecar) == discard
            &&& action_of(stage_after(MirrorStage::Checking, false), local, sidecar) == discard
            &&& action_of(stage_after(MirrorStage::Looking, false), local, sidecar) == discard
            &&& action_of(stage_after(MirrorStage::Replacing, false), local, sidecar) == discard
        }),
        action_of(stage_after(MirrorStage::Renaming, false), local, sidecar) == (
        MirrorActionView::LookFor { path: sidecar }),
        action_of(stage_after(MirrorStage::Looking, true), local, sidecar) == (
        MirrorActionView::Replace { from: sidecar + ".partial"@, to: sidecar }),
{
}

} // verus!
