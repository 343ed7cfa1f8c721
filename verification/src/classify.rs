//! Per-read classification: the pre-checks and the mapping of the site
//! matcher's outcome onto the reported result.

use vstd::prelude::*;

use crate::cut_site::ContigV;
use crate::paf::{
    anchor_ix, find_read_site_spec, is_mapped_spec, is_unique_spec, lemma_anchor_in_group,
    margin_ok, select_recs, FindMatch, FindMatchV, Location, LocationV, Match, MatchV, PafRead,
    PafReadV,
};
use crate::params::Param;
use crate::strategy::Strategy;

verus! {

/// The reported classification of one read.
#[derive(Debug)]
pub enum MapResult {
    /// Some record targets the unmapped sentinel.
    Unmapped(usize),
    /// No record reaches the quality threshold, or no usable group.
    LowMapq(usize),
    /// No cut-site catalog was supplied (or it is empty).
    NoCutSites(usize),
    /// Neither end matched a site.
    Unmatched(Location),
    /// Matched a site within the unused-base budget.
    Matched(Match),
    /// Matched a site but with too many unused bases.
    ExcessUnmatched(Match),
    /// Both ends matched the same site, under the `Xor` strategy.
    MatchBoth(Location),
    /// Only the start matched, under the `Both` strategy.
    MatchStart(Location),
    /// Only the end matched, outside the `Either`/`Xor` strategies.
    MatchEnd(Location),
    /// Start and end resolved to different sites.
    MisMatch(Location),
}

#[verifier::ext_equal]
pub enum MapResultV {
    Unmapped(int),
    LowMapq(int),
    NoCutSites(int),
    Unmatched(LocationV),
    Matched(MatchV),
    ExcessUnmatched(MatchV),
    MatchBoth(LocationV),
    MatchStart(LocationV),
    MatchEnd(LocationV),
    MisMatch(LocationV),
}

impl View for MapResult {
    type V = MapResultV;

    open spec fn view(&self) -> MapResultV {
        match self {
            MapResult::Unmapped(x) => MapResultV::Unmapped(*x as int),
            MapResult::LowMapq(x) => MapResultV::LowMapq(*x as int),
            MapResult::NoCutSites(x) => MapResultV::NoCutSites(*x as int),
            MapResult::Unmatched(l) => MapResultV::Unmatched(l@),
            MapResult::Matched(m) => MapResultV::Matched(m@),
            MapResult::ExcessUnmatched(m) => MapResultV::ExcessUnmatched(m@),
            MapResult::MatchBoth(l) => MapResultV::MatchBoth(l@),
            MapResult::MatchStart(l) => MapResultV::MatchStart(l@),
            MapResult::MatchEnd(l) => MapResultV::MatchEnd(l@),
            MapResult::MisMatch(l) => MapResultV::MisMatch(l@),
        }
    }
}

/// What `classify_read` reports for one read: unmapped reads, then reads
/// without a high-quality record, then runs without a catalog (absent or
/// empty), are short-circuited; otherwise the site matcher decides, a
/// dropped group counting as low quality.
pub open spec fn classify_spec(
    rd: PafReadV,
    cat: Option<Seq<ContigV>>,
    thresh: int,
    max_dist: int,
    max_unmatched: int,
    margin: int,
    select: Strategy,
) -> MapResultV {
    if !is_mapped_spec(rd) {
        MapResultV::Unmapped(rd.qlen)
    } else if !is_unique_spec(rd, thresh) {
        MapResultV::LowMapq(rd.qlen)
    } else {
        match cat {
            None => MapResultV::NoCutSites(rd.qlen),
            Some(cs) => {
                if cs.len() == 0 {
                    MapResultV::NoCutSites(rd.qlen)
                } else {
                    match find_read_site_spec(
                        rd,
                        cs,
                        thresh,
                        max_dist,
                        max_unmatched,
                        margin,
                        select,
                    ) {
                        None => MapResultV::LowMapq(rd.qlen),
                        Some(fm) => match fm {
                            FindMatchV::Match(m) => MapResultV::Matched(m),
                            FindMatchV::ExcessUnmatched(m) => MapResultV::ExcessUnmatched(m),
                            FindMatchV::MisMatch(l) => MapResultV::MisMatch(l),
                            FindMatchV::MatchStart(l) => MapResultV::MatchStart(l),
                            FindMatchV::MatchBoth(l) => MapResultV::MatchBoth(l),
                            FindMatchV::MatchEnd(l) => MapResultV::MatchEnd(l),
                            FindMatchV::Location(l) => MapResultV::Unmatched(l),
                        },
                    }
                }
            },
        }
    }
}

/// Classify one read under the run's parameters and catalog.
pub fn classify_read(read: &PafRead, param: &Param) -> (r: MapResult)
    requires
        read.wf(),
        param.cut_sites matches Some(cs) ==> cs.wf(),
        forall|i: int|
            0 <= i < read@.records.len() ==> margin_ok(
                #[trigger] read@.records[i],
                param.margin as int,
            ),
        param.mapq_thresh >= 1 || (anchor_ix(read@.records, read@.qlen, param.mapq_thresh as int)
            matches Some(a) ==> select_recs(read@.records, read@.records[a]).len() > 0),
    ensures
        r@ == classify_spec(
            read@,
            match param.cut_sites {
                Some(cs) => Some(cs@),
                None => None,
            },
            param.mapq_thresh as int,
            param.max_distance as int,
            param.max_unmatched as int,
            param.margin as int,
            param.select,
        ),
{
    if !read.is_mapped() {
        return MapResult::Unmapped(read.qlen);
    }
    if !read.is_unique(param.mapq_thresh) {
        return MapResult::LowMapq(read.qlen);
    }
    match param.cut_sites.as_ref() {
        None => MapResult::NoCutSites(read.qlen),
        Some(cs) => {
            if cs.contigs.len() == 0 {
                return MapResult::NoCutSites(read.qlen);
            }
            proof {
                if param.mapq_thresh >= 1 && anchor_ix(
                    read@.records,
                    read@.qlen,
                    param.mapq_thresh as int,
                ) is Some {
                    lemma_anchor_in_group(read@.records, read@.qlen, param.mapq_thresh as int);
                }
            }
            match read.find_site(cs, param) {
                None => MapResult::LowMapq(read.qlen),
                Some(fm) => match fm {
                    FindMatch::Match(m) => MapResult::Matched(m),
                    FindMatch::ExcessUnmatched(m) => MapResult::ExcessUnmatched(m),
                    FindMatch::MisMatch(l) => MapResult::MisMatch(l),
                    FindMatch::MatchStart(l) => MapResult::MatchStart(l),
                    FindMatch::MatchBoth(l) => MapResult::MatchBoth(l),
                    FindMatch::MatchEnd(l) => MapResult::MatchEnd(l),
                    FindMatch::Location(l) => MapResult::Unmatched(l),
                },
            }
        },
    }
}

} // verus!
