//! Run configuration: the builder and the read-only parameter set handed
//! to the classifier.

use vstd::prelude::*;

use crate::cut_site::CutSites;
use crate::strategy::Strategy;

verus! {

/// Prefix used for output file names when none is given.
pub const DEFAULT_PREFIX: &'static str = "ont_demult";

/// Builder for [`Param`]; unset options keep their defaults.
pub struct ParamBuilder {
    pub paf_file: Option<String>,
    pub fastq_file: Option<String>,
    pub cut_sites: Option<CutSites>,
    pub prefix: Option<String>,
    pub compress: bool,
    pub matched_only: bool,
    pub select: Strategy,
    pub mapq_thresh: u8,
    pub max_distance: usize,
    pub max_unmatched: usize,
    pub margin: usize,
}

impl ParamBuilder {
    /// A builder with every option unset: no files, no catalog, strategy
    /// `Start`, all numeric settings zero.
    pub fn new() -> (r: Self)
        ensures
            r.paf_file is None,
            r.fastq_file is None,
            r.cut_sites is None,
            r.prefix is None,
            !r.compress,
            !r.matched_only,
            r.select == Strategy::Start,
            r.mapq_thresh == 0,
            r.max_distance == 0,
            r.max_unmatched == 0,
            r.margin == 0,
    {
        ParamBuilder {
            paf_file: None,
            fastq_file: None,
            cut_sites: None,
            prefix: None,
            compress: false,
            matched_only: false,
            select: Strategy::Start,
            mapq_thresh: 0,
            max_distance: 0,
            max_unmatched: 0,
            margin: 0,
        }
    }

    /// Freeze the builder into a parameter set; a missing prefix becomes
    /// the default.
    pub fn build(self) -> (r: Param)
        ensures
            r.paf_file == self.paf_file,
            r.fastq_file == self.fastq_file,
            r.cut_sites == self.cut_sites,
            match self.prefix {
                Some(p) => r.prefix == p,
                None => r.prefix@ == DEFAULT_PREFIX@,
            },
            r.compress == self.compress,
            r.matched_only == self.matched_only,
            r.select == self.select,
            r.mapq_thresh == self.mapq_thresh,
            r.max_distance == self.max_distance,
            r.max_unmatched == self.max_unmatched,
            r.margin == self.margin,
    {
        let prefix = match self.prefix {
            Some(p) => p,
            None => DEFAULT_PREFIX.to_owned(),
        };
        Param {
            paf_file: self.paf_file,
            fastq_file: self.fastq_file,
            cut_sites: self.cut_sites,
            prefix,
            compress: self.compress,
            matched_only: self.matched_only,
            select: self.select,
            mapq_thresh: self.mapq_thresh,
            max_distance: self.max_distance,
            max_unmatched: self.max_unmatched,
            margin: self.margin,
        }
    }

    pub fn paf_file(&mut self, file: &str)
        ensures
            *final(self) == (ParamBuilder { paf_file: final(self).paf_file, ..*old(self) }),
            final(self).paf_file matches Some(f) && f@ == file@,
    {
        self.paf_file = Some(file.to_owned());
    }

    pub fn fastq_file(&mut self, file: &str)
        ensures
            *final(self) == (ParamBuilder { fastq_file: final(self).fastq_file, ..*old(self) }),
            final(self).fastq_file matches Some(f) && f@ == file@,
    {
        self.fastq_file = Some(file.to_owned());
    }

    pub fn cut_sites(&mut self, csites: CutSites)
        ensures
            *final(self) == (ParamBuilder { cut_sites: Some(csites), ..*old(self) }),
    {
        self.cut_sites = Some(csites);
    }

    pub fn select(&mut self, select: Strategy)
        ensures
            *final(self) == (ParamBuilder { select: select, ..*old(self) }),
    {
        self.select = select;
    }

    pub fn prefix(&mut self, prefix: &str)
        ensures
            *final(self) == (ParamBuilder { prefix: final(self).prefix, ..*old(self) }),
            final(self).prefix matches Some(p) && p@ == prefix@,
    {
        self.prefix = Some(prefix.to_owned());
    }

    pub fn compress(&mut self, yes: bool)
        ensures
            *final(self) == (ParamBuilder { compress: yes, ..*old(self) }),
    {
        self.compress = yes;
    }

    pub fn matched_only(&mut self, yes: bool)
        ensures
            *final(self) == (ParamBuilder { matched_only: yes, ..*old(self) }),
    {
        self.matched_only = yes;
    }

    pub fn mapq_thresh(&mut self, x: u8)
        ensures
            *final(self) == (ParamBuilder { mapq_thresh: x, ..*old(self) }),
    {
        self.mapq_thresh = x;
    }

    pub fn max_distance(&mut self, x: usize)
        ensures
            *final(self) == (ParamBuilder { max_distance: x, ..*old(self) }),
    {
        self.max_distance = x;
    }

    pub fn max_unmatched(&mut self, x: usize)
        ensures
            *final(self) == (ParamBuilder { max_unmatched: x, ..*old(self) }),
    {
        self.max_unmatched = x;
    }

    pub fn margin(&mut self, x: usize)
        ensures
            *final(self) == (ParamBuilder { margin: x, ..*old(self) }),
    {
        self.margin = x;
    }
}

/// Parameters of one run.
pub struct Param {
    /// Alignment input; absent means standard input.
    pub paf_file: Option<String>,
    /// Read file to demultiplex; absent means report only.
    pub fastq_file: Option<String>,
    /// Cut-site catalog; absent means no site matching.
    pub cut_sites: Option<CutSites>,
    /// Prefix for output file names.
    pub prefix: String,
    /// Compress output files.
    pub compress: bool,
    /// Only write matched reads when demultiplexing.
    pub matched_only: bool,
    /// Selection strategy.
    pub select: Strategy,
    /// Minimum accepted mapping quality.
    pub mapq_thresh: u8,
    /// Maximum distance allowed to the nearest cut site.
    pub max_distance: usize,
    /// Maximum tolerated unmatched bases per read.
    pub max_unmatched: usize,
    /// Margin allowed past a cut site on the far side.
    pub margin: usize,
}

impl Param {
    pub fn paf_file(&self) -> (r: Option<&String>)
        ensures
            r is Some <==> self.paf_file is Some,
            r is Some ==> r->0 == self.paf_file->0,
    {
        self.paf_file.as_ref()
    }

    pub fn fastq_file(&self) -> (r: Option<&String>)
        ensures
            r is Some <==> self.fastq_file is Some,
            r is Some ==> r->0 == self.fastq_file->0,
    {
        self.fastq_file.as_ref()
    }

    pub fn select(&self) -> (r: Strategy)
        ensures
            r == self.select,
    {
        self.select
    }

    pub fn cut_sites(&self) -> (r: Option<&CutSites>)
        ensures
            r is Some <==> self.cut_sites is Some,
            r is Some ==> r->0 == self.cut_sites->0,
    {
        self.cut_sites.as_ref()
    }

    pub fn prefix(&self) -> (r: &String)
        ensures
            r == self.prefix,
    {
        &self.prefix
    }

    pub fn compress(&self) -> (r: bool)
        ensures
            r == self.compress,
    {
        self.compress
    }

    pub fn matched_only(&self) -> (r: bool)
        ensures
            r == self.matched_only,
    {
        self.matched_only
    }

    pub fn mapq_thresh(&self) -> (r: u8)
        ensures
            r == self.mapq_thresh,
    {
        self.mapq_thresh
    }

    pub fn max_distance(&self) -> (r: usize)
        ensures
            r == self.max_distance,
    {
        self.max_distance
    }

    pub fn margin(&self) -> (r: usize)
        ensures
            r == self.margin,
    {
        self.margin
    }

    pub fn max_unmatched(&self) -> (r: usize)
        ensures
            r == self.max_unmatched,
    {
        self.max_unmatched
    }
}

} // verus!
