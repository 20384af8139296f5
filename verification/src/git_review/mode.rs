//! What a diff is taken against.
use crate::text;
use vstd::prelude::*;

verus! {

/// What the working tree is compared with.
#[derive(Clone, Debug, PartialEq, Eq, Hash)]
pub enum DiffMode {
    Branch(String),
    MergeBase(String),
    WorkingTree,
}

/// What a [`DiffMode`] says.
#[verifier::ext_equal]
pub enum ModeModel {
    Branch(Seq<char>),
    MergeBase(Seq<char>),
    WorkingTree,
}

impl View for DiffMode {
    type V = ModeModel;

    open spec fn view(&self) -> ModeModel {
        match self {
            DiffMode::Branch(b) => ModeModel::Branch(b@),
            DiffMode::MergeBase(b) => ModeModel::MergeBase(b@),
            DiffMode::WorkingTree => ModeModel::WorkingTree,
        }
    }
}

impl Default for DiffMode {
    fn default() -> (r: DiffMode)
        ensures
            r@ == ModeModel::WorkingTree,
    {
        DiffMode::WorkingTree
    }
}

/// The mode that follows `mode` when the reader asks for the next one.
pub open spec fn next_mode(mode: ModeModel, parent: Option<Seq<char>>) -> ModeModel {
    match mode {
        ModeModel::MergeBase(_) => ModeModel::WorkingTree,
        ModeModel::WorkingTree => match parent {
            Some(parent) => ModeModel::MergeBase(parent),
            None => ModeModel::WorkingTree,
        },
        ModeModel::Branch(b) => ModeModel::Branch(b),
    }
}

impl DiffMode {
    /// The mode in a few words.
    pub fn label(&self) -> (r: String)
        ensures
            r@ == (match self@ {
                ModeModel::Branch(b) => "vs "@ + b,
                ModeModel::MergeBase(b) => "uncommitted + "@ + b,
                ModeModel::WorkingTree => "uncommitted"@,
            }),
    {
        match self {
            DiffMode::Branch(b) => text::concat("vs ", b.as_str()),
            DiffMode::MergeBase(b) => text::concat("uncommitted + ", b.as_str()),
            DiffMode::WorkingTree => "uncommitted".to_owned(),
        }
    }

    /// The next mode: the working tree alternates with the merge base of `parent`, where there is a
    /// parent; a fixed branch stays.
    pub fn cycle(&self, parent: Option<&str>) -> (r: DiffMode)
        ensures
            r@ == next_mode(
                self@,
                match parent {
                    Some(p) => Some(p@),
                    None => None,
                },
            ),
    {
        match self {
            DiffMode::MergeBase(_) => DiffMode::WorkingTree,
            DiffMode::WorkingTree => match parent {
                Some(parent) => DiffMode::MergeBase(parent.to_owned()),
                None => DiffMode::WorkingTree,
            },
            DiffMode::Branch(b) => DiffMode::Branch(b.clone()),
        }
    }
}

/// From the working tree, cycling twice comes back to it, whatever the parents.
pub proof fn cycling_twice_returns(parent: Option<Seq<char>>, other: Option<Seq<char>>)
    ensures
        parent is Some ==> next_mode(next_mode(ModeModel::WorkingTree, parent), other)
            == ModeModel::WorkingTree,
{
}

/// From a base the working tree comes next, and from the working tree the parent branch where there is
/// one. A branch that was asked for is kept.
pub proof fn modes_follow_each_other(branch: Seq<char>, parent: Option<Seq<char>>, other: Seq<char>)
    ensures
        next_mode(ModeModel::MergeBase(branch), parent) == ModeModel::WorkingTree,
        next_mode(ModeModel::WorkingTree, Some(other)) == ModeModel::MergeBase(other),
        next_mode(ModeModel::WorkingTree, None) == ModeModel::WorkingTree,
        next_mode(ModeModel::Branch(branch), parent) == ModeModel::Branch(branch),
{
}

} // verus!
