//! Nightly finetuning with agent-muscle on the dataset agent-brain builds.

use vstd::prelude::*;
use vstd::string::*;

use crate::text::{join_path, path_join};

verus! {

/// The merged dataset to train on: the path the dataset pipeline reported, else
/// `datasets/spine.merged.jsonl` in the memory directory.
pub open spec fn merged_dataset(reported: Option<Seq<char>>, memory_dir: Seq<char>) -> Seq<char> {
    match reported {
        Some(p) => p,
        None => path_join(path_join(memory_dir, "datasets"@), "spine.merged.jsonl"@),
    }
}

/// The merged dataset to train on.
pub fn merged_dataset_path(reported: Option<&str>, memory_dir: &str) -> (p: String)
    ensures
        p@ == merged_dataset(
            match reported {
                Some(r) => Some(r@),
                None => None,
            },
            memory_dir@,
        ),
{
    match reported {
        Some(r) => String::from_str(r),
        None => {
            let datasets = join_path(memory_dir, "datasets");
            join_path(datasets.as_str(), "spine.merged.jsonl")
        },
    }
}

/// The arguments of the training run: `train --data <dataset>`.
pub fn train_arguments(dataset: &str) -> (args: Vec<String>)
    ensures
        args@.len() == 3,
        args@[0]@ == "train"@,
        args@[1]@ == "--data"@,
        args@[2]@ == dataset@,
{
    let mut args: Vec<String> = Vec::new();
    args.push(String::from_str("train"));
    args.push(String::from_str("--data"));
    args.push(String::from_str(dataset));
    args
}

} // verus!
