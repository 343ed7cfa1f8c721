//! Alignment records: parsing of tab-separated alignment rows, grouping of
//! consecutive rows into one read, and the read classifier.

use vstd::prelude::*;

use crate::cut_site::{ContigV, CutSites, SiteId};
use crate::params::Param;
use crate::strategy::Strategy;
use crate::text::{fields_view, lines_view, parse_u8, parse_uint, parse_usize, split_fields,
    split_tabs, str_eq, trim, trim_spec};

verus! {

/// Orientation of a mapping.
#[derive(Debug, Clone, Copy, PartialEq, Eq, Structural)]
pub enum Strand {
    Plus,
    Minus,
}

/// Which numeric field of an alignment row failed to parse.
#[derive(Debug, Clone, Copy, PartialEq, Eq, Structural)]
pub enum PafField {
    QueryLength,
    QueryStart,
    QueryEnd,
    TargetLength,
    TargetStart,
    TargetEnd,
    MatchingBases,
    Mapq,
}

/// A fatal error in the alignment input, with the 1-based line it was
/// found on.
#[derive(Debug, Clone, Copy, PartialEq, Eq, Structural)]
pub enum PafError {
    /// Fewer than twelve tab-separated columns.
    ShortLine { line: usize },
    /// A numeric field is not a non-negative integer in range.
    BadNumber { field: PafField, line: usize },
    /// The strand field is neither `+` nor `-`.
    BadStrand { line: usize },
    /// The query span is empty or reversed.
    InvalidQuerySpan { line: usize },
    /// The query end lies past the declared query length.
    QueryEndPastLength { line: usize },
}

/// One aligner-reported mapping of part of a read onto a contig.
#[derive(Debug)]
pub struct PafRecord {
    pub qstart: usize,
    pub qend: usize,
    pub strand: Strand,
    pub target_name: String,
    pub target_length: usize,
    pub target_start: usize,
    pub target_end: usize,
    pub matching_bases: usize,
    pub mapq: u8,
}

#[verifier::ext_equal]
pub struct PafRecordV {
    pub qstart: int,
    pub qend: int,
    pub strand: Strand,
    pub target_name: Seq<char>,
    pub target_length: int,
    pub target_start: int,
    pub target_end: int,
    pub matching_bases: int,
    pub mapq: int,
}

impl View for PafRecord {
    type V = PafRecordV;

    open spec fn view(&self) -> PafRecordV {
        PafRecordV {
            qstart: self.qstart as int,
            qend: self.qend as int,
            strand: self.strand,
            target_name: self.target_name@,
            target_length: self.target_length as int,
            target_start: self.target_start as int,
            target_end: self.target_end as int,
            matching_bases: self.matching_bases as int,
            mapq: self.mapq as int,
        }
    }
}

/// All alignment records sharing one read identifier, in input order.
#[derive(Debug)]
pub struct PafRead {
    pub qname: String,
    pub qlen: usize,
    pub records: Vec<PafRecord>,
}

#[verifier::ext_equal]
pub struct PafReadV {
    pub qname: Seq<char>,
    pub qlen: int,
    pub records: Seq<PafRecordV>,
}

impl View for PafRead {
    type V = PafReadV;

    open spec fn view(&self) -> PafReadV {
        PafReadV {
            qname: self.qname@,
            qlen: self.qlen as int,
            records: Seq::new(self.records@.len(), |i: int| self.records@[i]@),
        }
    }
}

/// A record's spans are consistent with the read length.
pub open spec fn rec_wf(r: PafRecordV, qlen: int) -> bool {
    0 <= r.qstart < r.qend <= qlen
}

/// Every record targets a real contig rather than the unmapped sentinel.
pub open spec fn is_mapped_spec(rd: PafReadV) -> bool {
    forall|i: int| 0 <= i < rd.records.len() ==> (#[trigger] rd.records[i]).target_name != "*"@
}

/// Some record reaches the mapping-quality threshold.
pub open spec fn is_unique_spec(rd: PafReadV, threshold: int) -> bool {
    exists|i: int| 0 <= i < rd.records.len() && (#[trigger] rd.records[i]).mapq >= threshold
}

impl PafRead {
    /// A parsed read holds at least one record and every record's query
    /// span is non-empty and within the read.
    pub open spec fn wf(&self) -> bool {
        &&& self@.records.len() >= 1
        &&& forall|i: int| 0 <= i < self@.records.len() ==> rec_wf(#[trigger] self@.records[i], self@.qlen)
    }
}

// ---------------------------------------------------------------------------
// Parsing
// ---------------------------------------------------------------------------

/// A numeric field that must fit in `usize`.
pub open spec fn usize_field(s: Seq<char>) -> Option<int> {
    let p = parse_uint(s);
    if p is Some && p->0 <= usize::MAX as int {
        p
    } else {
        None
    }
}

/// A numeric field that must fit in `u8`.
pub open spec fn u8_field(s: Seq<char>) -> Option<int> {
    let p = parse_uint(s);
    if p is Some && p->0 <= u8::MAX as int {
        p
    } else {
        None
    }
}

/// What one alignment row (split into at least 12 fields) parses to:
/// query span from fields 2 and 3, strand from field 4, target name from
/// field 5, target data from fields 6 to 8, matching bases from field 9
/// and mapping quality from field 11, with the first malformed field
/// reported in this order.
pub open spec fn parse_record_spec(f: Seq<Seq<char>>, line: usize) -> Result<PafRecordV, PafError>
    recommends
        f.len() >= 12,
{
    if usize_field(f[2]) is None {
        Err(PafError::BadNumber { field: PafField::QueryStart, line })
    } else if usize_field(f[3]) is None {
        Err(PafError::BadNumber { field: PafField::QueryEnd, line })
    } else if f[4] != "+"@ && f[4] != "-"@ {
        Err(PafError::BadStrand { line })
    } else if usize_field(f[3])->0 <= usize_field(f[2])->0 {
        Err(PafError::InvalidQuerySpan { line })
    } else if usize_field(f[6]) is None {
        Err(PafError::BadNumber { field: PafField::TargetLength, line })
    } else if usize_field(f[7]) is None {
        Err(PafError::BadNumber { field: PafField::TargetStart, line })
    } else if usize_field(f[8]) is None {
        Err(PafError::BadNumber { field: PafField::TargetEnd, line })
    } else if usize_field(f[9]) is None {
        Err(PafError::BadNumber { field: PafField::MatchingBases, line })
    } else if u8_field(f[11]) is None {
        Err(PafError::BadNumber { field: PafField::Mapq, line })
    } else {
        Ok(
            PafRecordV {
                qstart: usize_field(f[2])->0,
                qend: usize_field(f[3])->0,
                strand: if f[4] == "+"@ {
                    Strand::Plus
                } else {
                    Strand::Minus
                },
                target_name: f[5],
                target_length: usize_field(f[6])->0,
                target_start: usize_field(f[7])->0,
                target_end: usize_field(f[8])->0,
                matching_bases: usize_field(f[9])->0,
                mapq: u8_field(f[11])->0,
            },
        )
    }
}

/// What the first row of a read parses to: the identifier from field 0,
/// the query length from field 1, and the row's record, whose query end
/// may not exceed the query length.
pub open spec fn parse_read_spec(f: Seq<Seq<char>>, line: usize) -> Result<PafReadV, PafError>
    recommends
        f.len() >= 12,
{
    if usize_field(f[1]) is None {
        Err(PafError::BadNumber { field: PafField::QueryLength, line })
    } else {
        match parse_record_spec(f, line) {
            Err(e) => Err(e),
            Ok(rec) => {
                if rec.qend > usize_field(f[1])->0 {
                    Err(PafError::QueryEndPastLength { line })
                } else {
                    Ok(PafReadV { qname: f[0], qlen: usize_field(f[1])->0, records: seq![rec] })
                }
            },
        }
    }
}

/// Effect of one further row on a read being assembled.
pub open spec fn add_record_spec(rd: PafReadV, f: Seq<Seq<char>>, line: usize) -> Result<
    PafReadV,
    PafError,
>
    recommends
        f.len() >= 12,
{
    match parse_record_spec(f, line) {
        Err(e) => Err(e),
        Ok(rec) => {
            if rec.qend > rd.qlen {
                Err(PafError::QueryEndPastLength { line })
            } else {
                Ok(PafReadV { records: rd.records.push(rec), ..rd })
            }
        },
    }
}

impl PafRecord {
    /// Parse one alignment row, already split into its fields.
    pub fn from_str_slice(v: &Vec<String>, line: usize) -> (r: Result<PafRecord, PafError>)
        requires
            v@.len() >= 12,
        ensures
            match r {
                Ok(rec) => parse_record_spec(fields_view(v), line) == Ok::<PafRecordV, PafError>(
                    rec@,
                ) && rec.qstart < rec.qend,
                Err(e) => parse_record_spec(fields_view(v), line) == Err::<PafRecordV, PafError>(
                    e,
                ),
            },
    {
        let qstart = match parse_usize(v[2].as_str()) {
            Some(x) => x,
            None => {
                return Err(PafError::BadNumber { field: PafField::QueryStart, line });
            },
        };
        let qend = match parse_usize(v[3].as_str()) {
            Some(x) => x,
            None => {
                return Err(PafError::BadNumber { field: PafField::QueryEnd, line });
            },
        };
        let strand = if str_eq(v[4].as_str(), "+") {
            Strand::Plus
        } else if str_eq(v[4].as_str(), "-") {
            Strand::Minus
        } else {
            return Err(PafError::BadStrand { line });
        };
        if qend <= qstart {
            return Err(PafError::InvalidQuerySpan { line });
        }
        let target_length = match parse_usize(v[6].as_str()) {
            Some(x) => x,
            None => {
                return Err(PafError::BadNumber { field: PafField::TargetLength, line });
            },
        };
        let target_start = match parse_usize(v[7].as_str()) {
            Some(x) => x,
            None => {
                return Err(PafError::BadNumber { field: PafField::TargetStart, line });
            },
        };
        let target_end = match parse_usize(v[8].as_str()) {
            Some(x) => x,
            None => {
                return Err(PafError::BadNumber { field: PafField::TargetEnd, line });
            },
        };
        let matching_bases = match parse_usize(v[9].as_str()) {
            Some(x) => x,
            None => {
                return Err(PafError::BadNumber { field: PafField::MatchingBases, line });
            },
        };
        let mapq = match parse_u8(v[11].as_str()) {
            Some(x) => x,
            None => {
                return Err(PafError::BadNumber { field: PafField::Mapq, line });
            },
        };
        Ok(
            PafRecord {
                qstart,
                qend,
                strand,
                target_name: v[5].clone(),
                target_length,
                target_start,
                target_end,
                matching_bases,
                mapq,
            },
        )
    }
}

impl PafRead {
    /// Start a read from its first alignment row, already split into
    /// fields.
    pub fn from_str_slice(v: &Vec<String>, line: usize) -> (r: Result<PafRead, PafError>)
        requires
            v@.len() >= 12,
        ensures
            match r {
                Ok(rd) => rd.wf() && parse_read_spec(fields_view(v), line) == Ok::<
                    PafReadV,
                    PafError,
                >(rd@),
                Err(e) => parse_read_spec(fields_view(v), line) == Err::<PafReadV, PafError>(e),
            },
    {
        let qlen = match parse_usize(v[1].as_str()) {
            Some(x) => x,
            None => {
                return Err(PafError::BadNumber { field: PafField::QueryLength, line });
            },
        };
        let rec = match PafRecord::from_str_slice(v, line) {
            Ok(rec) => rec,
            Err(e) => {
                return Err(e);
            },
        };
        if rec.qend > qlen {
            return Err(PafError::QueryEndPastLength { line });
        }
        let records = vec![rec];
        let rd = PafRead { qname: v[0].clone(), qlen, records };
        proof {
            assert(rd@.records =~= seq![rd.records@[0]@]);
            assert(parse_read_spec(fields_view(v), line) matches Ok(x) && x =~~= rd@);
        }
        Ok(rd)
    }

    /// Add a further alignment row (sharing this read's identifier) to the
    /// read.
    pub fn add_record(&mut self, v: &Vec<String>, line: usize) -> (r: Result<(), PafError>)
        requires
            v@.len() >= 12,
            old(self).wf(),
            old(self)@.qname == fields_view(v)[0],
        ensures
            match r {
                Ok(_) => final(self).wf() && add_record_spec(old(self)@, fields_view(v), line)
                    == Ok::<PafReadV, PafError>(final(self)@),
                Err(e) => *final(self) == *old(self) && add_record_spec(
                    old(self)@,
                    fields_view(v),
                    line,
                ) == Err::<PafReadV, PafError>(e),
            },
    {
        let rec = match PafRecord::from_str_slice(v, line) {
            Ok(rec) => rec,
            Err(e) => {
                return Err(e);
            },
        };
        if rec.qend > self.qlen {
            return Err(PafError::QueryEndPastLength { line });
        }
        self.records.push(rec);
        proof {
            assert(self@.records =~= old(self)@.records.push(rec@));
            assert(add_record_spec(old(self)@, fields_view(v), line) matches Ok(x) && x =~~= self@);
        }
        Ok(())
    }

    /// The read identifier.
    pub fn qname(&self) -> (r: &str)
        ensures
            r@ == self@.qname,
    {
        self.qname.as_str()
    }

    /// Whether every record targets a real contig rather than the
    /// unmapped sentinel `*`.
    pub fn is_mapped(&self) -> (r: bool)
        ensures
            r == is_mapped_spec(self@),
    {
        let n = self.records.len();
        let mut i: usize = 0;
        while i < n
            invariant
                0 <= i <= n,
                n == self.records@.len(),
                forall|j: int| 0 <= j < i ==> (#[trigger] self@.records[j]).target_name != "*"@,
            decreases n - i,
        {
            if str_eq(self.records[i].target_name.as_str(), "*") {
                proof {
                    assert(self@.records[i as int].target_name == "*"@);
                }
                return false;
            }
            i += 1;
        }
        true
    }

    /// Whether some record reaches the mapping-quality threshold.
    pub fn is_unique(&self, threshold: u8) -> (r: bool)
        ensures
            r == is_unique_spec(self@, threshold as int),
    {
        let n = self.records.len();
        let mut i: usize = 0;
        while i < n
            invariant
                0 <= i <= n,
                n == self.records@.len(),
                forall|j: int| 0 <= j < i ==> (#[trigger] self@.records[j]).mapq < threshold,
            decreases n - i,
        {
            if self.records[i].mapq >= threshold {
                proof {
                    assert(self@.records[i as int].mapq >= threshold);
                }
                return true;
            }
            i += 1;
        }
        false
    }
}

// ---------------------------------------------------------------------------
// Classification outcomes
// ---------------------------------------------------------------------------

/// A gap between two consecutive mapped segments, in target coordinates.
#[derive(Debug)]
pub struct InteriorSplit {
    pub from: usize,
    pub to: usize,
}

#[verifier::ext_equal]
pub struct InteriorSplitV {
    pub from: int,
    pub to: int,
}

impl View for InteriorSplit {
    type V = InteriorSplitV;

    open spec fn view(&self) -> InteriorSplitV {
        InteriorSplitV { from: self.from as int, to: self.to as int }
    }
}

/// Position data shared by all location-bearing outcomes: the inferred
/// genomic boundaries (raw and margin-adjusted), the read length, the
/// unused-base count and the interior splits.
#[derive(Debug)]
pub struct CommonLoc {
    pub strand: Strand,
    pub start: usize,
    pub start_adj: usize,
    pub end: usize,
    pub end_adj: usize,
    pub length: usize,
    pub unused: usize,
    pub splits: Vec<InteriorSplit>,
}

#[verifier::ext_equal]
pub struct CommonLocV {
    pub strand: Strand,
    pub start: int,
    pub start_adj: int,
    pub end: int,
    pub end_adj: int,
    pub length: int,
    pub unused: int,
    pub splits: Seq<InteriorSplitV>,
}

impl View for CommonLoc {
    type V = CommonLocV;

    open spec fn view(&self) -> CommonLocV {
        CommonLocV {
            strand: self.strand,
            start: self.start as int,
            start_adj: self.start_adj as int,
            end: self.end as int,
            end_adj: self.end_adj as int,
            length: self.length as int,
            unused: self.unused as int,
            splits: Seq::new(self.splits@.len(), |i: int| self.splits@[i]@),
        }
    }
}

/// A location without a resolved site: the contig name and the common
/// position data.
#[derive(Debug)]
pub struct Location {
    pub contig: String,
    pub inner: CommonLoc,
}

#[verifier::ext_equal]
pub struct LocationV {
    pub contig: Seq<char>,
    pub inner: CommonLocV,
}

impl View for Location {
    type V = LocationV;

    open spec fn view(&self) -> LocationV {
        LocationV { contig: self.contig@, inner: self.inner@ }
    }
}

/// A location with the resolved cut site.
#[derive(Debug)]
pub struct Match {
    pub site: SiteId,
    pub inner: CommonLoc,
}

#[verifier::ext_equal]
pub struct MatchV {
    pub site: SiteId,
    pub inner: CommonLocV,
}

impl View for Match {
    type V = MatchV;

    open spec fn view(&self) -> MatchV {
        MatchV { site: self.site, inner: self.inner@ }
    }
}

/// The outcome of matching one read against the catalog.
#[derive(Debug)]
pub enum FindMatch {
    /// Matched a site within the unused-base budget.
    Match(Match),
    /// Matched a site but with too many unused bases.
    ExcessUnmatched(Match),
    /// Start and end resolved to different sites.
    MisMatch(Location),
    /// Only the start matched, under the `Both` strategy.
    MatchStart(Location),
    /// Both ends matched the same site, under the `Xor` strategy.
    MatchBoth(Location),
    /// Only the end matched, outside the `Either`/`Xor` strategies.
    MatchEnd(Location),
    /// Neither end matched a site.
    Location(Location),
}

#[verifier::ext_equal]
pub enum FindMatchV {
    Match(MatchV),
    ExcessUnmatched(MatchV),
    MisMatch(LocationV),
    MatchStart(LocationV),
    MatchBoth(LocationV),
    MatchEnd(LocationV),
    Location(LocationV),
}

impl View for FindMatch {
    type V = FindMatchV;

    open spec fn view(&self) -> FindMatchV {
        match self {
            FindMatch::Match(m) => FindMatchV::Match(m@),
            FindMatch::ExcessUnmatched(m) => FindMatchV::ExcessUnmatched(m@),
            FindMatch::MisMatch(l) => FindMatchV::MisMatch(l@),
            FindMatch::MatchStart(l) => FindMatchV::MatchStart(l@),
            FindMatch::MatchBoth(l) => FindMatchV::MatchBoth(l@),
            FindMatch::MatchEnd(l) => FindMatchV::MatchEnd(l@),
            FindMatch::Location(l) => FindMatchV::Location(l@),
        }
    }
}

/// A successful site match, demoted to `ExcessUnmatched` when the read's
/// unused bases exceed the budget. This is the only point where the
/// unused-base budget gates an otherwise successful match.
pub open spec fn gate_spec(m: MatchV, unused: int, max_unmatched: int) -> FindMatchV {
    if unused > max_unmatched {
        FindMatchV::ExcessUnmatched(m)
    } else {
        FindMatchV::Match(m)
    }
}

/// The strategy table: how the pair of site matches at the read's start
/// and end, together with the selection strategy, resolves to an outcome.
/// Site identity is compared by catalog handle, not by name.
pub open spec fn resolve_match_spec(
    start_site: Option<SiteId>,
    end_site: Option<SiteId>,
    select: Strategy,
    max_unmatched: int,
    loc: LocationV,
) -> FindMatchV {
    let unused = loc.inner.unused;
    match (start_site, end_site) {
        (Some(m1), Some(m2)) => {
            if m1 == m2 {
                if select == Strategy::Xor {
                    FindMatchV::MatchBoth(loc)
                } else {
                    gate_spec(MatchV { site: m1, inner: loc.inner }, unused, max_unmatched)
                }
            } else {
                FindMatchV::MisMatch(loc)
            }
        },
        (Some(m), None) => {
            if select == Strategy::Both {
                FindMatchV::MatchStart(loc)
            } else {
                gate_spec(MatchV { site: m, inner: loc.inner }, unused, max_unmatched)
            }
        },
        (None, Some(m)) => {
            if select == Strategy::Either || select == Strategy::Xor {
                gate_spec(MatchV { site: m, inner: loc.inner }, unused, max_unmatched)
            } else {
                FindMatchV::MatchEnd(loc)
            }
        },
        (None, None) => FindMatchV::Location(loc),
    }
}

/// Resolve the outcome for a read from its two site lookups, the
/// strategy, and the unused-base budget.
pub fn resolve_match(
    start_site: Option<SiteId>,
    end_site: Option<SiteId>,
    select: Strategy,
    max_unmatched: usize,
    loc: Location,
) -> (r: FindMatch)
    ensures
        r@ == resolve_match_spec(start_site, end_site, select, max_unmatched as int, loc@),
{
    let excess = loc.inner.unused > max_unmatched;
    match (start_site, end_site) {
        (Some(m1), Some(m2)) => {
            if m1 == m2 {
                if select == Strategy::Xor {
                    FindMatch::MatchBoth(loc)
                } else if excess {
                    FindMatch::ExcessUnmatched(Match { site: m1, inner: loc.inner })
                } else {
                    FindMatch::Match(Match { site: m1, inner: loc.inner })
                }
            } else {
                FindMatch::MisMatch(loc)
            }
        },
        (Some(m), None) => {
            if select == Strategy::Both {
                FindMatch::MatchStart(loc)
            } else if excess {
                FindMatch::ExcessUnmatched(Match { site: m, inner: loc.inner })
            } else {
                FindMatch::Match(Match { site: m, inner: loc.inner })
            }
        },
        (None, Some(m)) => {
            if select == Strategy::Either || select == Strategy::Xor {
                if excess {
                    FindMatch::ExcessUnmatched(Match { site: m, inner: loc.inner })
                } else {
                    FindMatch::Match(Match { site: m, inner: loc.inner })
                }
            } else {
                FindMatch::MatchEnd(loc)
            }
        },
        (None, None) => FindMatch::Location(loc),
    }
}

/// The strategy table is exhaustive: every shape of the match pair
/// resolves, under every strategy, to exactly the listed outcome tag.
pub proof fn lemma_strategy_table(
    start_site: Option<SiteId>,
    end_site: Option<SiteId>,
    select: Strategy,
    max_unmatched: int,
    loc: LocationV,
)
    ensures
        ({
            let r = resolve_match_spec(start_site, end_site, select, max_unmatched, loc);
            &&& (start_site is Some && end_site is Some && start_site->0 == end_site->0
                && select == Strategy::Xor) ==> (r matches FindMatchV::MatchBoth(_))
            &&& (start_site is Some && end_site is Some && start_site->0 == end_site->0
                && select != Strategy::Xor) ==> ((r matches FindMatchV::Match(_)) || (r matches FindMatchV::ExcessUnmatched(_)))
            &&& (start_site is Some && end_site is Some && start_site->0 != end_site->0)
                ==> (r matches FindMatchV::MisMatch(_))
            &&& (start_site is Some && end_site is None && select == Strategy::Both)
                ==> (r matches FindMatchV::MatchStart(_))
            &&& (start_site is Some && end_site is None && select != Strategy::Both) ==> ((r matches FindMatchV::Match(_)) || (r matches FindMatchV::ExcessUnmatched(_)))
            &&& (start_site is None && end_site is Some && (select == Strategy::Either || select
                == Strategy::Xor)) ==> ((r matches FindMatchV::Match(_)) || (r matches FindMatchV::ExcessUnmatched(_)))
            &&& (start_site is None && end_site is Some && select != Strategy::Either && select
                != Strategy::Xor) ==> (r matches FindMatchV::MatchEnd(_))
            &&& (start_site is None && end_site is None) ==> (r matches FindMatchV::Location(_))
        }),
{
}

/// Wherever the table yields the gated cell, the unused-base count alone
/// decides between `Match` and `ExcessUnmatched`: above the budget the
/// outcome is `ExcessUnmatched`, at or below it is `Match`, with the same
/// payload site either way.
pub proof fn lemma_unused_budget(
    start_site: Option<SiteId>,
    end_site: Option<SiteId>,
    select: Strategy,
    max_unmatched: int,
    over: LocationV,
    under: LocationV,
)
    requires
        (start_site is Some && end_site is Some && start_site->0 == end_site->0 && select
            != Strategy::Xor) || (start_site is Some && end_site is None && select
            != Strategy::Both) || (start_site is None && end_site is Some && (select
            == Strategy::Either || select == Strategy::Xor)),
        over.inner.unused > max_unmatched,
        under.inner.unused <= max_unmatched,
    ensures
        resolve_match_spec(start_site, end_site, select, max_unmatched, over)
            matches FindMatchV::ExcessUnmatched(_),
        resolve_match_spec(start_site, end_site, select, max_unmatched, under)
            matches FindMatchV::Match(_),
{
}

/// Parsing is deterministic: two successful parses of the same fields
/// yield identical records.
pub proof fn lemma_parse_idempotent(r1: PafRecord, r2: PafRecord, f: Seq<Seq<char>>, line: usize)
    requires
        parse_record_spec(f, line) == Ok::<PafRecordV, PafError>(r1@),
        parse_record_spec(f, line) == Ok::<PafRecordV, PafError>(r2@),
    ensures
        r1@ == r2@,
{
}

// ---------------------------------------------------------------------------
// The classifier pipeline
// ---------------------------------------------------------------------------

/// A record may anchor the read: it reaches the quality threshold and the
/// read is not implausibly longer than its target (slack of 150 bases).
pub open spec fn anchor_ok(r: PafRecordV, qlen: int, thresh: int) -> bool {
    r.mapq >= thresh && qlen < r.target_length + 150
}

/// Index of the anchor: among acceptable records, the last one with the
/// greatest matching-base count.
pub open spec fn anchor_ix(recs: Seq<PafRecordV>, qlen: int, thresh: int) -> Option<int>
    decreases recs.len(),
{
    if recs.len() == 0 {
        None
    } else {
        let rest = anchor_ix(recs.drop_last(), qlen, thresh);
        if anchor_ok(recs.last(), qlen, thresh) {
            match rest {
                None => Some(recs.len() - 1),
                Some(j) => if recs.last().matching_bases >= recs[j].matching_bases {
                    Some(recs.len() - 1)
                } else {
                    Some(j)
                },
            }
        } else {
            rest
        }
    }
}

/// A record joins the anchor's group: same contig, same strand, non-zero
/// mapping quality.
pub open spec fn in_group(r: PafRecordV, a: PafRecordV) -> bool {
    r.target_name == a.target_name && r.strand == a.strand && r.mapq > 0
}

/// The anchor's group, in input order.
pub open spec fn select_recs(recs: Seq<PafRecordV>, a: PafRecordV) -> Seq<PafRecordV>
    decreases recs.len(),
{
    if recs.len() == 0 {
        Seq::empty()
    } else {
        let pre = select_recs(recs.drop_last(), a);
        if in_group(recs.last(), a) {
            pre.push(recs.last())
        } else {
            pre
        }
    }
}

pub open spec fn recs_sorted(s: Seq<PafRecordV>) -> bool {
    forall|i: int, j: int| 0 <= i <= j < s.len() ==> s[i].qstart <= s[j].qstart
}

/// Stable insertion by query start, after any record with the same start.
pub open spec fn insert_rec(s: Seq<PafRecordV>, x: PafRecordV) -> Seq<PafRecordV>
    decreases s.len(),
{
    if s.len() == 0 {
        seq![x]
    } else if s[0].qstart <= x.qstart {
        seq![s[0]] + insert_rec(s.drop_first(), x)
    } else {
        seq![x] + s
    }
}

/// Stable sort of the group by query start.
pub open spec fn sort_recs(s: Seq<PafRecordV>) -> Seq<PafRecordV>
    decreases s.len(),
{
    if s.len() == 0 {
        Seq::empty()
    } else {
        insert_rec(sort_recs(s.drop_last()), s.last())
    }
}

/// Two consecutive segments in query order overlap on the read.
pub open spec fn has_overlap(s: Seq<PafRecordV>) -> bool {
    exists|i: int| 0 <= i < s.len() - 1 && s[i].qend >= s[i + 1].qstart
}

/// Total query bases covered by the segments.
pub open spec fn used_bases(s: Seq<PafRecordV>) -> int
    decreases s.len(),
{
    if s.len() == 0 {
        0
    } else {
        used_bases(s.drop_last()) + (s.last().qend - s.last().qstart)
    }
}

/// Index of the last record with the greatest query end.
pub open spec fn last_max_qend_ix(s: Seq<PafRecordV>) -> int
    recommends
        s.len() > 0,
    decreases s.len(),
{
    if s.len() <= 1 {
        0
    } else {
        let j = last_max_qend_ix(s.drop_last());
        if s.last().qend >= s[j].qend {
            s.len() - 1
        } else {
            j
        }
    }
}

pub open spec fn sat_sub(a: int, b: int) -> int {
    if a >= b {
        a - b
    } else {
        0
    }
}

/// The interior splits: the target-coordinate gap between each adjacent
/// pair of segments, with the boundary choice following the strand.
pub open spec fn splits_of(s: Seq<PafRecordV>, strand: Strand) -> Seq<InteriorSplitV> {
    if s.len() == 0 {
        Seq::empty()
    } else {
        Seq::new(
            (s.len() - 1) as nat,
            |i: int|
                if strand == Strand::Plus {
                    InteriorSplitV { from: s[i].target_end, to: s[i + 1].target_start }
                } else {
                    InteriorSplitV { from: s[i].target_start, to: s[i + 1].target_end }
                },
        )
    }
}

/// Applying the margin to a record's target boundaries stays within
/// machine range.
pub open spec fn margin_ok(r: PafRecordV, margin: int) -> bool {
    r.target_start + margin <= usize::MAX as int && r.target_end + margin <= usize::MAX as int
}

/// What `PafRead::find_site` returns: the anchor is chosen, its group
/// collected and sorted by query start; an overlapping group yields no
/// outcome; otherwise the margin-adjusted start and end positions are
/// looked up in the catalog (the start only for plus-strand anchors, the
/// end only for minus-strand ones) and the strategy table resolves the
/// outcome.
pub open spec fn find_read_site_spec(
    rd: PafReadV,
    cat: Seq<ContigV>,
    thresh: int,
    max_dist: int,
    max_unmatched: int,
    margin: int,
    select: Strategy,
) -> Option<FindMatchV> {
    match anchor_ix(rd.records, rd.qlen, thresh) {
        None => None,
        Some(a) => {
            let anchor = rd.records[a];
            let recs = sort_recs(select_recs(rd.records, anchor));
            if has_overlap(recs) {
                None
            } else {
                let s = recs[0];
                let unused = rd.qlen - used_bases(recs);
                let start = if s.strand == Strand::Plus {
                    s.target_start
                } else {
                    s.target_end
                };
                let start_adj = if s.strand == Strand::Plus {
                    s.target_start + margin
                } else {
                    sat_sub(s.target_end, margin)
                };
                let s1 = recs[last_max_qend_ix(recs)];
                let end = if s1.strand == Strand::Plus {
                    s1.target_end
                } else {
                    s1.target_start
                };
                let end_adj = if s1.strand == Strand::Plus {
                    sat_sub(s1.target_end, margin)
                } else {
                    s1.target_start + margin
                };
                let start_site = if anchor.strand == Strand::Plus {
                    crate::cut_site::find_site_spec(
                        cat,
                        s.target_name,
                        start_adj,
                        max_dist,
                        s.target_length,
                    )
                } else {
                    None
                };
                let end_site = if anchor.strand == Strand::Minus {
                    crate::cut_site::find_site_spec(
                        cat,
                        s.target_name,
                        end_adj,
                        max_dist,
                        s.target_length,
                    )
                } else {
                    None
                };
                let cloc = CommonLocV {
                    strand: s.strand,
                    start,
                    start_adj,
                    end,
                    end_adj,
                    length: rd.qlen,
                    unused,
                    splits: splits_of(recs, anchor.strand),
                };
                Some(
                    resolve_match_spec(
                        start_site,
                        end_site,
                        select,
                        max_unmatched,
                        LocationV { contig: s.target_name, inner: cloc },
                    ),
                )
            }
        },
    }
}

/// A group whose sorted segments overlap on the read produces no outcome.
pub proof fn lemma_overlap_guard(
    rd: PafReadV,
    cat: Seq<ContigV>,
    thresh: int,
    max_dist: int,
    max_unmatched: int,
    margin: int,
    select: Strategy,
)
    requires
        anchor_ix(rd.records, rd.qlen, thresh) is Some,
        has_overlap(
            sort_recs(
                select_recs(rd.records, rd.records[anchor_ix(rd.records, rd.qlen, thresh)->0]),
            ),
        ),
    ensures
        find_read_site_spec(rd, cat, thresh, max_dist, max_unmatched, margin, select) is None,
{
}

proof fn lemma_anchor_ix_props(recs: Seq<PafRecordV>, qlen: int, thresh: int)
    requires
        anchor_ix(recs, qlen, thresh) is Some,
    ensures
        0 <= anchor_ix(recs, qlen, thresh)->0 < recs.len(),
        anchor_ok(recs[anchor_ix(recs, qlen, thresh)->0], qlen, thresh),
    decreases recs.len(),
{
    if recs.len() > 0 {
        if anchor_ix(recs.drop_last(), qlen, thresh) is Some {
            lemma_anchor_ix_props(recs.drop_last(), qlen, thresh);
        }
    }
}

proof fn lemma_select_contains(recs: Seq<PafRecordV>, a: PafRecordV, i: int)
    requires
        0 <= i < recs.len(),
        in_group(recs[i], a),
    ensures
        select_recs(recs, a).len() > 0,
    decreases recs.len(),
{
    if i < recs.len() - 1 {
        lemma_select_contains(recs.drop_last(), a, i);
    }
}

/// With a threshold of at least one, the anchor always belongs to its own
/// group, so the group is never empty.
pub proof fn lemma_anchor_in_group(recs: Seq<PafRecordV>, qlen: int, thresh: int)
    requires
        thresh >= 1,
        anchor_ix(recs, qlen, thresh) is Some,
    ensures
        select_recs(recs, recs[anchor_ix(recs, qlen, thresh)->0]).len() > 0,
{
    let a = anchor_ix(recs, qlen, thresh)->0;
    lemma_anchor_ix_props(recs, qlen, thresh);
    assert(in_group(recs[a], recs[a]));
    lemma_select_contains(recs, recs[a], a);
}

proof fn lemma_select_all(recs: Seq<PafRecordV>, a: PafRecordV, p: spec_fn(PafRecordV) -> bool)
    requires
        forall|i: int| 0 <= i < recs.len() ==> p(#[trigger] recs[i]),
    ensures
        forall|i: int| 0 <= i < select_recs(recs, a).len() ==> p(#[trigger] select_recs(recs, a)[i]),
    decreases recs.len(),
{
    if recs.len() > 0 {
        let t = recs.drop_last();
        assert forall|i: int| 0 <= i < t.len() implies p(#[trigger] t[i]) by {
            assert(t[i] == recs[i]);
        }
        lemma_select_all(t, a, p);
        let r = select_recs(recs, a);
        if in_group(recs.last(), a) {
            assert forall|i: int| 0 <= i < r.len() implies p(#[trigger] r[i]) by {
                if i < r.len() - 1 {
                    assert(r[i] == select_recs(t, a)[i]);
                } else {
                    assert(r[i] == recs[recs.len() - 1]);
                }
            }
        }
    }
}

proof fn lemma_insert_all(s: Seq<PafRecordV>, x: PafRecordV, p: spec_fn(PafRecordV) -> bool)
    requires
        forall|i: int| 0 <= i < s.len() ==> p(#[trigger] s[i]),
        p(x),
    ensures
        insert_rec(s, x).len() == s.len() + 1,
        forall|i: int| 0 <= i < insert_rec(s, x).len() ==> p(#[trigger] insert_rec(s, x)[i]),
    decreases s.len(),
{
    if s.len() == 0 {
    } else if s[0].qstart <= x.qstart {
        let t = s.drop_first();
        lemma_insert_all(t, x, p);
        let r = insert_rec(s, x);
        assert forall|i: int| 0 <= i < r.len() implies p(r[i]) by {
            if i == 0 {
            } else {
                assert(r[i] == insert_rec(t, x)[i - 1]);
            }
        }
    }
}

proof fn lemma_sort_all(s: Seq<PafRecordV>, p: spec_fn(PafRecordV) -> bool)
    requires
        forall|i: int| 0 <= i < s.len() ==> p(#[trigger] s[i]),
    ensures
        sort_recs(s).len() == s.len(),
        forall|i: int| 0 <= i < sort_recs(s).len() ==> p(#[trigger] sort_recs(s)[i]),
    decreases s.len(),
{
    if s.len() > 0 {
        lemma_sort_all(s.drop_last(), p);
        lemma_insert_all(sort_recs(s.drop_last()), s.last(), p);
    }
}

pub open spec fn recs_view(v: &Vec<&PafRecord>) -> Seq<PafRecordV> {
    Seq::new(v@.len(), |i: int| v@[i]@)
}

/// Where `insert_rec` puts the new element: at the first index whose
/// query start is strictly greater.
proof fn lemma_insert_rec_at(s: Seq<PafRecordV>, x: PafRecordV, j: int)
    requires
        0 <= j <= s.len(),
        forall|k: int| 0 <= k < j ==> s[k].qstart <= x.qstart,
        j == s.len() || s[j].qstart > x.qstart,
    ensures
        insert_rec(s, x) == s.take(j) + seq![x] + s.skip(j),
    decreases j,
{
    if j == 0 {
        if s.len() == 0 {
            assert(insert_rec(s, x) =~= s.take(0) + seq![x] + s.skip(0));
        } else {
            assert(insert_rec(s, x) =~= s.take(0) + seq![x] + s.skip(0));
        }
    } else {
        let t = s.drop_first();
        lemma_insert_rec_at(t, x, j - 1);
        assert(insert_rec(s, x) == seq![s[0]] + insert_rec(t, x));
        assert(seq![s[0]] + (t.take(j - 1) + seq![x] + t.skip(j - 1)) =~= s.take(j) + seq![x]
            + s.skip(j));
    }
}

fn insert_rec_vec<'a>(out: &mut Vec<&'a PafRecord>, x: &'a PafRecord)
    ensures
        recs_view(final(out)) == insert_rec(recs_view(old(out)), x@),
        final(out)@.len() == old(out)@.len() + 1,
        recs_sorted(recs_view(old(out))) ==> recs_sorted(recs_view(final(out))),
{
    let ghost s0 = recs_view(old(out));
    let n = out.len();
    let mut j: usize = 0;
    while j < n && out[j].qstart <= x.qstart
        invariant
            0 <= j <= n,
            n == out@.len(),
            out@ == old(out)@,
            forall|k: int| 0 <= k < j ==> recs_view(out)[k].qstart <= x@.qstart,
        decreases n - j,
    {
        j += 1;
    }
    proof {
        lemma_insert_rec_at(s0, x@, j as int);
    }
    out.insert(j, x);
    proof {
        assert(recs_view(out) =~= s0.take(j as int) + seq![x@] + s0.skip(j as int));
        if recs_sorted(s0) {
            let r = recs_view(out);
            assert forall|a: int, b: int| 0 <= a <= b < r.len() implies r[a].qstart
                <= r[b].qstart by {
                if a < j && b == j {
                    assert(r[a] == s0[a]);
                } else if a == j && b > j {
                    assert(r[b] == s0[b - 1]);
                } else if a < j && b > j {
                    assert(r[a] == s0[a] && r[b] == s0[b - 1]);
                } else if a > j && b > j {
                    assert(r[a] == s0[a - 1] && r[b] == s0[b - 1]);
                }
            }
        }
    }
}

/// Sort the group by query start with a stable insertion sort.
fn sort_recs_vec<'a>(v: Vec<&'a PafRecord>) -> (r: Vec<&'a PafRecord>)
    ensures
        recs_view(&r) == sort_recs(recs_view(&v)),
        r@.len() == v@.len(),
        recs_sorted(recs_view(&r)),
{
    let ghost orig = recs_view(&v);
    let mut rest = v;
    let mut out: Vec<&'a PafRecord> = Vec::new();
    let ghost mut i: int = 0;
    proof {
        assert(recs_view(&out) =~= sort_recs(orig.take(0)));
    }
    while rest.len() > 0
        invariant
            0 <= i,
            i + rest@.len() == orig.len(),
            out@.len() == i,
            recs_view(&out) == sort_recs(orig.take(i)),
            recs_sorted(recs_view(&out)),
            forall|k: int| 0 <= k < rest@.len() ==> rest@[k]@ == orig[i + k],
        decreases rest@.len(),
    {
        let ghost restv = rest@;
        let x = rest.remove(0);
        proof {
            assert(x == restv[0]);
            assert(x@ == orig[i]);
            assert(rest@ =~= restv.drop_first());
            assert forall|k: int| 0 <= k < rest@.len() implies rest@[k]@ == orig[i + 1 + k] by {
                assert(rest@[k] == restv[k + 1]);
            }
            assert(orig.take(i + 1).drop_last() =~= orig.take(i));
            assert(orig.take(i + 1).last() == orig[i]);
        }
        insert_rec_vec(&mut out, x);
        proof {
            i = i + 1;
            assert(recs_view(&out) == sort_recs(orig.take(i)));
        }
    }
    proof {
        assert(orig.take(orig.len() as int) =~= orig);
    }
    out
}

impl PafRead {
    /// The anchor record's index: the last acceptable record with the
    /// greatest matching-base count.
    fn pick_anchor(&self, threshold: u8) -> (r: Option<usize>)
        ensures
            match r {
                None => anchor_ix(self@.records, self@.qlen, threshold as int) is None,
                Some(a) => a < self.records@.len() && anchor_ix(
                    self@.records,
                    self@.qlen,
                    threshold as int,
                ) == Some(a as int),
            },
    {
        let ghost rv = self@.records;
        let ghost qlenv = self@.qlen;
        let n = self.records.len();
        let mut best: Option<usize> = None;
        let mut i: usize = 0;
        proof {
            assert(rv.take(0) =~= Seq::<PafRecordV>::empty());
        }
        while i < n
            invariant
                0 <= i <= n,
                n == self.records@.len(),
                rv == self@.records,
                qlenv == self@.qlen,
                match best {
                    None => anchor_ix(rv.take(i as int), qlenv, threshold as int) is None,
                    Some(b) => b < i && anchor_ix(rv.take(i as int), qlenv, threshold as int)
                        == Some(b as int),
                },
            decreases n - i,
        {
            let ok_q = self.records[i].mapq >= threshold;
            let ok_len = self.qlen <= self.records[i].target_length || self.qlen
                - self.records[i].target_length < 150;
            proof {
                assert(rv.take(i + 1).drop_last() =~= rv.take(i as int));
                assert(rv.take(i + 1).last() == rv[i as int]);
            }
            if ok_q && ok_len {
                match best {
                    None => {
                        best = Some(i);
                    },
                    Some(b) => {
                        if self.records[i].matching_bases >= self.records[b].matching_bases {
                            best = Some(i);
                        }
                    },
                }
            }
            i += 1;
        }
        proof {
            assert(rv.take(n as int) =~= rv);
        }
        best
    }

    /// The anchor's group: records on the same contig and strand with
    /// non-zero mapping quality, in input order.
    fn collect_group<'a>(&'a self, anchor: &PafRecord) -> (r: Vec<&'a PafRecord>)
        ensures
            recs_view(&r) == select_recs(self@.records, anchor@),
    {
        let ghost rv = self@.records;
        let ghost anchorv = anchor@;
        let n = self.records.len();
        let mut sel: Vec<&PafRecord> = Vec::new();
        let mut i: usize = 0;
        proof {
            assert(rv.take(0) =~= Seq::<PafRecordV>::empty());
            assert(recs_view(&sel) =~= select_recs(rv.take(0), anchorv));
        }
        while i < n
            invariant
                0 <= i <= n,
                n == self.records@.len(),
                rv == self@.records,
                anchorv == anchor@,
                recs_view(&sel) == select_recs(rv.take(i as int), anchorv),
            decreases n - i,
        {
            proof {
                assert(rv.take(i + 1).drop_last() =~= rv.take(i as int));
                assert(rv.take(i + 1).last() == rv[i as int]);
            }
            let r = &self.records[i];
            let same = str_eq(r.target_name.as_str(), anchor.target_name.as_str()) && r.strand
                == anchor.strand && r.mapq > 0;
            if same {
                sel.push(r);
                proof {
                    assert(recs_view(&sel) =~= select_recs(rv.take(i as int), anchorv).push(
                        rv[i as int],
                    ));
                }
            }
            i += 1;
        }
        proof {
            assert(rv.take(n as int) =~= rv);
        }
        sel
    }
}

/// Whether two consecutive segments of the sorted group overlap on the
/// read.
fn group_overlaps(recs: &Vec<&PafRecord>) -> (r: bool)
    ensures
        r == has_overlap(recs_view(recs)),
{
    let ghost srv = recs_view(recs);
    let m = recs.len();
    if m == 0 {
        return false;
    }
    let mut k: usize = 0;
    while k < m - 1
        invariant
            0 <= k <= m - 1,
            m == recs@.len(),
            m > 0,
            srv == recs_view(recs),
            forall|t: int| 0 <= t < k ==> srv[t].qend < srv[t + 1].qstart,
        decreases m - k,
    {
        if recs[k].qend >= recs[k + 1].qstart {
            proof {
                assert(srv[k as int].qend >= srv[k as int + 1].qstart);
                assert(has_overlap(srv));
            }
            return true;
        }
        k += 1;
    }
    proof {
        assert(!has_overlap(srv)) by {
            if has_overlap(srv) {
                let t = choose|t: int| 0 <= t < srv.len() - 1 && srv[t].qend >= srv[t + 1].qstart;
                assert(srv[t].qend < srv[t + 1].qstart);
            }
        }
    }
    false
}

/// Query bases covered by the sorted, non-overlapping group; never more
/// than the read length.
fn group_used(recs: &Vec<&PafRecord>, Ghost(qlen): Ghost<int>) -> (used: usize)
    requires
        forall|t: int| 0 <= t < recs@.len() ==> rec_wf(#[trigger] recs_view(recs)[t], qlen),
        forall|t: int|
            0 <= t < recs@.len() - 1 ==> (#[trigger] recs_view(recs)[t]).qend < recs_view(
                recs,
            )[t + 1].qstart,
        qlen <= usize::MAX as int,
    ensures
        used as int == used_bases(recs_view(recs)),
        recs@.len() > 0 ==> used as int <= qlen,
        recs@.len() == 0 ==> used == 0,
{
    let ghost srv = recs_view(recs);
    let m = recs.len();
    let mut used: usize = 0;
    let mut k: usize = 0;
    proof {
        assert(srv.take(0) =~= Seq::<PafRecordV>::empty());
    }
    while k < m
        invariant
            0 <= k <= m,
            m == recs@.len(),
            srv == recs_view(recs),
            qlen <= usize::MAX as int,
            forall|t: int| 0 <= t < m ==> rec_wf(#[trigger] srv[t], qlen),
            forall|t: int| 0 <= t < m - 1 ==> (#[trigger] srv[t]).qend < srv[t + 1].qstart,
            used as int == used_bases(srv.take(k as int)),
            k == 0 ==> used == 0,
            k > 0 ==> used as int <= srv[k - 1].qend,
        decreases m - k,
    {
        proof {
            assert(srv.take(k + 1).drop_last() =~= srv.take(k as int));
            assert(srv.take(k + 1).last() == srv[k as int]);
            assert(rec_wf(srv[k as int], qlen));
            if k > 0 {
                assert(srv[k - 1].qend < srv[k as int].qstart);
            }
        }
        used = used + (recs[k].qend - recs[k].qstart);
        k += 1;
    }
    proof {
        assert(srv.take(m as int) =~= srv);
        if m > 0 {
            assert(rec_wf(srv[m - 1], qlen));
        }
    }
    used
}

/// Index of the last segment with the greatest query end.
fn latest_end_ix(recs: &Vec<&PafRecord>) -> (b: usize)
    requires
        recs@.len() > 0,
    ensures
        b < recs@.len(),
        b as int == last_max_qend_ix(recs_view(recs)),
{
    let ghost srv = recs_view(recs);
    let m = recs.len();
    let mut b: usize = 0;
    let mut k: usize = 1;
    proof {
        assert(last_max_qend_ix(srv.take(1)) == 0);
    }
    while k < m
        invariant
            1 <= k <= m,
            m == recs@.len(),
            srv == recs_view(recs),
            b < k,
            b as int == last_max_qend_ix(srv.take(k as int)),
        decreases m - k,
    {
        proof {
            assert(srv.take(k + 1).drop_last() =~= srv.take(k as int));
            assert(srv.take(k + 1).last() == srv[k as int]);
        }
        if recs[k].qend >= recs[b].qend {
            b = k;
        }
        k += 1;
    }
    proof {
        assert(srv.take(m as int) =~= srv);
    }
    b
}

/// The interior splits of the sorted group, with the boundary choice
/// following the anchor's strand.
fn group_splits(recs: &Vec<&PafRecord>, strand: Strand) -> (r: Vec<InteriorSplit>)
    requires
        recs@.len() > 0,
    ensures
        Seq::new(r@.len(), |i: int| r@[i]@) == splits_of(recs_view(recs), strand),
{
    let ghost srv = recs_view(recs);
    let m = recs.len();
    let mut splits: Vec<InteriorSplit> = Vec::new();
    let mut k: usize = 0;
    while k < m - 1
        invariant
            0 <= k <= m - 1,
            m == recs@.len(),
            m > 0,
            srv == recs_view(recs),
            splits@.len() == k,
            forall|t: int| 0 <= t < k ==> splits@[t]@ == splits_of(srv, strand)[t],
        decreases m - k,
    {
        let sp = if strand == Strand::Plus {
            InteriorSplit { from: recs[k].target_end, to: recs[k + 1].target_start }
        } else {
            InteriorSplit { from: recs[k].target_start, to: recs[k + 1].target_end }
        };
        splits.push(sp);
        k += 1;
    }
    proof {
        assert(Seq::new(splits@.len(), |i: int| splits@[i]@) =~= splits_of(srv, strand));
    }
    splits
}

impl PafRead {
    /// Classify the read against the catalog.
    ///
    /// The longest plausible high-quality record anchors the read; the
    /// records on its contig and strand with non-zero quality form the
    /// group, sorted by query start. A group with overlapping query spans
    /// yields no outcome. Otherwise the read's start and end positions are
    /// inferred from the outermost segments (with the margin applied), the
    /// catalog is consulted at the start for plus-strand anchors and at the
    /// end for minus-strand ones, and the strategy table resolves the
    /// outcome, with the unused-base budget deciding `Match` versus
    /// `ExcessUnmatched`.
    #[verifier::rlimit(60)]
    pub fn find_site(&self, cut_sites: &CutSites, param: &Param) -> (r: Option<FindMatch>)
        requires
            self.wf(),
            cut_sites.wf(),
            forall|i: int|
                0 <= i < self@.records.len() ==> margin_ok(
                    #[trigger] self@.records[i],
                    param.margin as int,
                ),
            anchor_ix(self@.records, self@.qlen, param.mapq_thresh as int) matches Some(a)
                ==> select_recs(self@.records, self@.records[a]).len() > 0,
        ensures
            (match r {
                Some(fm) => Some(fm@),
                None => None::<FindMatchV>,
            }) == find_read_site_spec(
                self@,
                cut_sites@,
                param.mapq_thresh as int,
                param.max_distance as int,
                param.max_unmatched as int,
                param.margin as int,
                param.select,
            ),
    {
        let ghost rv = self@.records;
        let ghost qlenv = self@.qlen;
        let margin = param.margin;

        let a = match self.pick_anchor(param.mapq_thresh) {
            Some(a) => a,
            None => {
                return None;
            },
        };
        let anchor = &self.records[a];
        let ghost anchorv = rv[a as int];

        let sel = self.collect_group(anchor);
        let ghost selv = select_recs(rv, anchorv);
        let recs = sort_recs_vec(sel);
        let ghost srv = sort_recs(selv);
        let m = recs.len();
        proof {
            assert(m > 0);
            lemma_select_all(rv, anchorv, |r: PafRecordV| rec_wf(r, qlenv));
            lemma_sort_all(selv, |r: PafRecordV| rec_wf(r, qlenv));
            lemma_select_all(rv, anchorv, |r: PafRecordV| margin_ok(r, param.margin as int));
            lemma_sort_all(selv, |r: PafRecordV| margin_ok(r, param.margin as int));
            assert(forall|k: int| 0 <= k < m ==> rec_wf(#[trigger] srv[k], qlenv));
            assert(forall|k: int|
                0 <= k < m ==> margin_ok(#[trigger] srv[k], param.margin as int));
        }

        if group_overlaps(&recs) {
            return None;
        }

        let used = group_used(&recs, Ghost(qlenv));
        let unused = self.qlen - used;

        let s = recs[0];
        proof {
            assert(s@ == srv[0]);
            assert(margin_ok(srv[0], param.margin as int));
        }
        let (start, start_adj) = match s.strand {
            Strand::Plus => (s.target_start, s.target_start + margin),
            Strand::Minus => (
                s.target_end,
                if s.target_end >= margin {
                    s.target_end - margin
                } else {
                    0
                },
            ),
        };

        let b = latest_end_ix(&recs);
        let s1 = recs[b];
        proof {
            assert(s1@ == srv[b as int]);
            assert(margin_ok(srv[b as int], param.margin as int));
        }
        let (end, end_adj) = match s1.strand {
            Strand::Plus => (
                s1.target_end,
                if s1.target_end >= margin {
                    s1.target_end - margin
                } else {
                    0
                },
            ),
            Strand::Minus => (s1.target_start, s1.target_start + margin),
        };

        let start_site = if anchor.strand == Strand::Plus {
            cut_sites.find_site(s.target_name.as_str(), start_adj, param.max_distance,
                s.target_length)
        } else {
            None
        };
        let end_site = if anchor.strand == Strand::Minus {
            cut_sites.find_site(s.target_name.as_str(), end_adj, param.max_distance,
                s.target_length)
        } else {
            None
        };

        let splits = group_splits(&recs, anchor.strand);
        let cloc = CommonLoc {
            strand: s.strand,
            start,
            start_adj,
            end,
            end_adj,
            length: self.qlen,
            unused,
            splits,
        };
        let loc = Location { contig: s.target_name.clone(), inner: cloc };
        let fm = resolve_match(start_site, end_site, param.select, param.max_unmatched, loc);
        proof {
            assert(loc@.inner.splits =~= splits_of(srv, anchorv.strand));
            assert(loc@ =~~= (LocationV {
                contig: srv[0].target_name,
                inner: CommonLocV {
                    strand: srv[0].strand,
                    start: if srv[0].strand == Strand::Plus {
                        srv[0].target_start
                    } else {
                        srv[0].target_end
                    },
                    start_adj: if srv[0].strand == Strand::Plus {
                        srv[0].target_start + param.margin as int
                    } else {
                        sat_sub(srv[0].target_end, param.margin as int)
                    },
                    end: if srv[b as int].strand == Strand::Plus {
                        srv[b as int].target_end
                    } else {
                        srv[b as int].target_start
                    },
                    end_adj: if srv[b as int].strand == Strand::Plus {
                        sat_sub(srv[b as int].target_end, param.margin as int)
                    } else {
                        srv[b as int].target_start + param.margin as int
                    },
                    length: qlenv,
                    unused: qlenv - used_bases(srv),
                    splits: splits_of(srv, anchorv.strand),
                },
            }));
            assert(find_read_site_spec(
                self@,
                cut_sites@,
                param.mapq_thresh as int,
                param.max_distance as int,
                param.max_unmatched as int,
                param.margin as int,
                param.select,
            ) == Some(fm@));
        }
        Some(fm)
    }
}

// ---------------------------------------------------------------------------
// Grouping consecutive rows into reads
// ---------------------------------------------------------------------------

/// A cursor over the lines of an alignment input, handing out one read
/// (all consecutive rows sharing an identifier) at a time.
pub struct PafFile {
    pub lines: Vec<String>,
    pub next: usize,
}

/// Fold rows from line index `j` into the read while they share its
/// identifier; returns the finished read and the index of the first
/// unconsumed line.
pub open spec fn extend_group(rd: PafReadV, lines: Seq<Seq<char>>, j: int) -> Result<
    (PafReadV, int),
    PafError,
>
    decreases lines.len() - j,
{
    if j < 0 || j >= lines.len() {
        Ok((rd, j))
    } else {
        let f = split_tabs(trim_spec(lines[j]));
        if f.len() < 12 {
            Err(PafError::ShortLine { line: (j + 1) as usize })
        } else if f[0] == rd.qname {
            match add_record_spec(rd, f, (j + 1) as usize) {
                Err(e) => Err(e),
                Ok(rd2) => extend_group(rd2, lines, j + 1),
            }
        } else {
            Ok((rd, j))
        }
    }
}

/// What one call of `next_read` starting at line index `i` produces.
pub open spec fn read_group_spec(lines: Seq<Seq<char>>, i: int) -> Result<
    (PafReadV, int),
    PafError,
>
    recommends
        0 <= i < lines.len(),
{
    let f = split_tabs(trim_spec(lines[i]));
    if f.len() < 12 {
        Err(PafError::ShortLine { line: (i + 1) as usize })
    } else {
        match parse_read_spec(f, (i + 1) as usize) {
            Err(e) => Err(e),
            Ok(rd) => extend_group(rd, lines, i + 1),
        }
    }
}

impl PafFile {
    /// A cursor at the start of the given lines.
    pub fn open(lines: Vec<String>) -> (r: Self)
        ensures
            r.lines == lines,
            r.next == 0,
    {
        PafFile { lines, next: 0 }
    }

    /// The next read: the rows from the cursor onward that share the first
    /// row's identifier. `Ok(None)` at the end of the input.
    pub fn next_read(&mut self) -> (r: Result<Option<PafRead>, PafError>)
        ensures
            final(self).lines == old(self).lines,
            match r {
                Ok(opt) => match opt {
                    None => old(self).next >= old(self).lines@.len() && *final(self) == *old(
                        self,
                    ),
                    Some(rd) => rd.wf() && old(self).next < old(self).lines@.len()
                        && read_group_spec(lines_view(&old(self).lines), old(self).next as int)
                        == Ok::<(PafReadV, int), PafError>((rd@, final(self).next as int)),
                },
                Err(e) => read_group_spec(lines_view(&old(self).lines), old(self).next as int)
                    == Err::<(PafReadV, int), PafError>(e),
            },
    {
        let ghost lv = lines_view(&self.lines);
        let n = self.lines.len();
        if self.next >= n {
            return Ok(None);
        }
        let i0 = self.next;
        let first = trim(self.lines[i0].as_str());
        let fields = split_fields(first);
        proof {
            assert(fields_view(&fields) =~= split_tabs(trim_spec(lv[i0 as int])));
        }
        if fields.len() < 12 {
            return Err(PafError::ShortLine { line: i0 + 1 });
        }
        let mut rd = match PafRead::from_str_slice(&fields, i0 + 1) {
            Ok(rd) => rd,
            Err(e) => {
                return Err(e);
            },
        };
        let mut j = i0 + 1;
        while j < n
            invariant
                *self == *old(self),
                i0 == old(self).next,
                i0 < j <= n,
                n == self.lines@.len(),
                lv == lines_view(&self.lines),
                rd.wf(),
                read_group_spec(lv, i0 as int) == extend_group(rd@, lv, j as int),
            decreases n - j,
        {
            let line = trim(self.lines[j].as_str());
            let fields = split_fields(line);
            proof {
                assert(fields_view(&fields) =~= split_tabs(trim_spec(lv[j as int])));
            }
            if fields.len() < 12 {
                return Err(PafError::ShortLine { line: j + 1 });
            }
            if str_eq(fields[0].as_str(), rd.qname.as_str()) {
                match rd.add_record(&fields, j + 1) {
                    Ok(_) => {},
                    Err(e) => {
                        return Err(e);
                    },
                }
                j += 1;
            } else {
                proof {
                    assert(extend_group(rd@, lv, j as int) == Ok::<(PafReadV, int), PafError>(
                        (rd@, j as int),
                    ));
                }
                self.next = j;
                return Ok(Some(rd));
            }
        }
        self.next = j;
        Ok(Some(rd))
    }
}

} // verus!
