use crate::color::Color;
use crate::text::texts;
use vstd::prelude::*;

verus! {

/// The value of a switch that is on unless the configuration turns it off.
pub fn default_true() -> (value: bool)
    ensures
        value,
{
    true
}

/// How changes of single watched paths are treated.
#[derive(Clone, Debug, PartialEq)]
pub struct WatchPathOptions {
    /// The watched paths whose changes cause no new build of a built target.
    pub non_incremental_list: Vec<String>,
}

impl Default for WatchPathOptions {
    fn default() -> (options: Self)
        ensures
            options.non_incremental_list@.len() == 0,
    {
        WatchPathOptions { non_incremental_list: Vec::new() }
    }
}

/// How a target is built again.
#[derive(Clone, Debug, PartialEq)]
pub struct RunOptions {
    /// Whether the target is built again when its files change.
    pub incremental: bool,
    pub watch_path_options: WatchPathOptions,
}

impl Default for RunOptions {
    fn default() -> (options: Self)
        ensures
            options.incremental,
            options.watch_path_options.non_incremental_list@.len() == 0,
    {
        RunOptions {
            incremental: default_true(),
            watch_path_options: WatchPathOptions::default(),
        }
    }
}

/// Something to build: what it needs, which files it is made from, how it is built and run.
#[derive(Clone, Debug, PartialEq)]
pub struct Target {
    /// The targets that have to be built before.
    pub depends_on: Vec<String>,
    /// The paths whose changes cause a new build.
    pub watch_list: Vec<String>,
    /// The commands that build the target, in order.
    pub build_list: Vec<String>,
    /// The commands that run it once it is built, in order.
    pub run_list: Vec<String>,
    pub run_options: RunOptions,
    /// The name under which the target writes its output.
    pub name: Option<String>,
    /// The colour in which the target writes its output.
    pub color: Option<Color>,
}

/// A target, with its texts as sequences of characters.
pub struct TargetModel {
    pub depends_on: Seq<Seq<char>>,
    pub watch_list: Seq<Seq<char>>,
    pub build_list: Seq<Seq<char>>,
    pub run_list: Seq<Seq<char>>,
    pub incremental: bool,
    pub non_incremental_list: Seq<Seq<char>>,
    pub name: Option<Seq<char>>,
    pub color: Option<Color>,
}

impl View for Target {
    type V = TargetModel;

    open spec fn view(&self) -> TargetModel {
        TargetModel {
            depends_on: texts(self.depends_on@),
            watch_list: texts(self.watch_list@),
            build_list: texts(self.build_list@),
            run_list: texts(self.run_list@),
            incremental: self.run_options.incremental,
            non_incremental_list: texts(self.run_options.watch_path_options.non_incremental_list@),
            name: match self.name {
                Some(name) => Some(name@),
                None => None,
            },
            color: self.color,
        }
    }
}

} // verus!
