//! Reading helpers around the model: the directory-backed file handler
//! whose files a caller opens, and the assembly of the configuration
//! records into their stores.

use vstd::prelude::*;

use crate::collection::{CollectionWithId, WithId};
use crate::error::Error;
use crate::objects::{Contributor, Dataset, Date};

verus! {

#[verifier::external_type_specification]
#[verifier::external_body]
/// The path type of the standard library, carried through opaquely.
pub struct ExPathBuf(std::path::PathBuf);

/// Reads files relative to one base directory; opening a file is the
/// caller's concern, so only the base path is held here.
pub struct PathFileHandler {
    base_path: std::path::PathBuf,
}

impl PathFileHandler {
    /// The directory the handler reads from.
    pub closed spec fn base(&self) -> std::path::PathBuf {
        self.base_path
    }

    /// A handler over this base directory.
    pub fn new(path: std::path::PathBuf) -> (r: Self)
        ensures
            r.base() == path,
    {
        PathFileHandler { base_path: path }
    }

    /// The base directory, for the caller that opens the files.
    pub fn base_path(&self) -> (r: &std::path::PathBuf)
        ensures
            *r == self.base(),
    {
        &self.base_path
    }
}

/// Builds the contributor and dataset stores from one configured pair, or
/// from the defaults when no configuration was given; a single record per
/// store cannot collide, so this always succeeds.
pub fn read_config_collections(config: Option<(Contributor, String)>) -> (r: (
    CollectionWithId<Contributor>,
    CollectionWithId<Dataset>,
))
    ensures
        r.0.wf() && r.1.wf(),
        r.0.records().len() == 1 && r.1.records().len() == 1,
        match config {
            Some(cfg) => {
                &&& r.0.records()[0] == cfg.0
                &&& r.1.records()[0].id@ == cfg.1@
                &&& r.1.records()[0].contributor_id@ == cfg.0.id@
            },
            None => {
                &&& r.0.records()[0].id@ == "default_contributor"@
                &&& r.1.records()[0].id@ == "default_dataset"@
                &&& r.1.records()[0].contributor_id@ == "default_contributor"@
            },
        },
{
    let (contributor, dataset) = match config {
        Some((contributor, dataset_id)) => {
            let dataset = Dataset {
                id: dataset_id,
                contributor_id: contributor.id.clone(),
                start_date: Date::new(1970, 1, 1),
                end_date: Date::new(1970, 1, 1),
            };
            (contributor, dataset)
        },
        None => (Contributor::default(), Dataset::default()),
    };
    let mut cs: Vec<Contributor> = Vec::new();
    cs.push(contributor);
    let mut ds: Vec<Dataset> = Vec::new();
    ds.push(dataset);
    let contributors = CollectionWithId::from_vec_unique(cs);
    let datasets = CollectionWithId::from_vec_unique(ds);
    (contributors, datasets)
}

} // verus!
