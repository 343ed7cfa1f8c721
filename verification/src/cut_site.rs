//! The cut-site catalog: named sites on contigs, and the nearest-site
//! locator with circular-contig wraparound.

use vstd::prelude::*;

use crate::text::{
    eq_ignore_case, fields_view, lines_view, parse_uint, parse_usize, split_fields, split_tabs,
    str_eq_ic, trim, trim_spec,
};

verus! {

/// One cut site: a label, a 1-based position on its contig, and the barcode
/// that matching reads are assigned to.
#[derive(Debug)]
pub struct Site {
    pub name: String,
    pub pos: usize,
    pub barcode: String,
}

/// A contig with its (position-sorted) cut sites and optional circularity
/// flag; a missing flag is treated as linear.
#[derive(Debug)]
pub struct Contig {
    pub name: String,
    pub circular: Option<bool>,
    pub cut_sites: Vec<Site>,
}

/// The read-only collection of contigs with cut sites.
#[derive(Debug)]
pub struct CutSites {
    pub contigs: Vec<Contig>,
}

/// A stable handle for a site in a catalog: the contig's index and the
/// site's index within that contig.
#[derive(Debug, Clone, Copy, PartialEq, Eq, Structural)]
pub struct SiteId {
    pub ctg: usize,
    pub site: usize,
}

// ---------------------------------------------------------------------------
// Mathematical model
// ---------------------------------------------------------------------------

#[verifier::ext_equal]
pub struct SiteV {
    pub name: Seq<char>,
    pub pos: int,
    pub barcode: Seq<char>,
}

#[verifier::ext_equal]
pub struct ContigV {
    pub name: Seq<char>,
    pub circular: Option<bool>,
    pub sites: Seq<SiteV>,
}

impl View for Site {
    type V = SiteV;

    open spec fn view(&self) -> SiteV {
        SiteV { name: self.name@, pos: self.pos as int, barcode: self.barcode@ }
    }
}

impl View for Contig {
    type V = ContigV;

    open spec fn view(&self) -> ContigV {
        ContigV {
            name: self.name@,
            circular: self.circular,
            sites: Seq::new(self.cut_sites@.len(), |i: int| self.cut_sites@[i]@),
        }
    }
}

impl View for CutSites {
    type V = Seq<ContigV>;

    open spec fn view(&self) -> Seq<ContigV> {
        Seq::new(self.contigs@.len(), |i: int| self.contigs@[i]@)
    }
}

pub open spec fn sites_sorted(s: Seq<SiteV>) -> bool {
    forall|i: int, j: int| 0 <= i <= j < s.len() ==> s[i].pos <= s[j].pos
}

pub open spec fn names_unique(cs: Seq<ContigV>) -> bool {
    forall|i: int, j: int| 0 <= i < j < cs.len() ==> cs[i].name != cs[j].name
}

impl CutSites {
    /// Catalog well-formedness: contig names are unique and each contig's
    /// sites are sorted by position.
    pub open spec fn wf(&self) -> bool {
        &&& names_unique(self@)
        &&& forall|c: int| 0 <= c < self@.len() ==> sites_sorted(#[trigger] self@[c].sites)
    }
}

/// Number of sites with a position strictly below `pos`; on a sorted
/// sequence this is the index where `pos` would be inserted.
pub open spec fn count_lt(s: Seq<SiteV>, pos: int) -> int
    decreases s.len(),
{
    if s.len() == 0 {
        0
    } else {
        count_lt(s.drop_last(), pos) + if s.last().pos < pos {
            1int
        } else {
            0int
        }
    }
}

pub open spec fn has_site_at(s: Seq<SiteV>, pos: int) -> bool {
    exists|i: int| 0 <= i < s.len() && s[i].pos == pos
}

/// Distance from `lo` up to `hi` going the long way round a ring of size
/// `l` (for `hi` within the ring), or back from beyond it.
pub open spec fn wrap_dist(lo: int, hi: int, l: int) -> int {
    if lo + l >= hi {
        lo + l - hi
    } else {
        hi - l - lo
    }
}

/// The candidate nearest site (index and distance) for a query position
/// that does not fall exactly on a site, on a non-empty sorted sequence.
/// Between two sites the closer one wins, the predecessor on a tie; past
/// either end of a circular contig the wraparound to the opposite end is
/// also considered.
pub open spec fn near_candidate(s: Seq<SiteV>, pos: int, circ: bool, l: int) -> (int, int)
    recommends
        s.len() > 0,
{
    let k = count_lt(s, pos);
    if 0 < k && k < s.len() {
        let dp = pos - s[k - 1].pos;
        let ds = s[k].pos - pos;
        if dp <= ds {
            (k - 1, dp)
        } else {
            (k, ds)
        }
    } else if k == s.len() {
        let dp = pos - s[k - 1].pos;
        if circ {
            let y = wrap_dist(s[0].pos, pos, l);
            if dp < y {
                (k - 1, dp)
            } else {
                (0int, y)
            }
        } else {
            (k - 1, dp)
        }
    } else {
        let ds = s[0].pos - pos;
        if circ {
            let x = wrap_dist(pos, s[s.len() - 1].pos, l);
            if x < ds {
                (s.len() - 1, x)
            } else {
                (0int, ds)
            }
        } else {
            (0int, ds)
        }
    }
}

/// Index of the site returned for a query on one contig: the first site at
/// the exact position if there is one, else the nearest candidate when its
/// distance is within `max_dist`.
pub open spec fn find_in_contig(
    s: Seq<SiteV>,
    pos: int,
    max_dist: int,
    circ: bool,
    l: int,
) -> Option<int> {
    if s.len() == 0 {
        None
    } else if has_site_at(s, pos) {
        Some(count_lt(s, pos))
    } else {
        let (i, d) = near_candidate(s, pos, circ, l);
        if d <= max_dist {
            Some(i)
        } else {
            None
        }
    }
}

/// Index of the first contig with the given name.
pub open spec fn contig_index(cs: Seq<ContigV>, name: Seq<char>) -> Option<int>
    decreases cs.len(),
{
    if cs.len() == 0 {
        None
    } else if cs[0].name == name {
        Some(0int)
    } else {
        match contig_index(cs.drop_first(), name) {
            Some(i) => Some(i + 1),
            None => None,
        }
    }
}

/// What `CutSites::find_site` returns.
pub open spec fn find_site_spec(
    cs: Seq<ContigV>,
    name: Seq<char>,
    pos: int,
    max_dist: int,
    l: int,
) -> Option<SiteId> {
    match contig_index(cs, name) {
        None => None,
        Some(c) => match find_in_contig(
            cs[c].sites,
            pos,
            max_dist,
            cs[c].circular == Some(true),
            l,
        ) {
            Some(i) => Some(SiteId { ctg: c as usize, site: i as usize }),
            None => None,
        },
    }
}

// ---------------------------------------------------------------------------
// Lemmas about the model
// ---------------------------------------------------------------------------

pub proof fn lemma_count_lt_bounds(s: Seq<SiteV>, pos: int)
    ensures
        0 <= count_lt(s, pos) <= s.len(),
    decreases s.len(),
{
    if s.len() > 0 {
        lemma_count_lt_bounds(s.drop_last(), pos);
    }
}

/// On a sorted sequence, `count_lt` is the partition point: everything
/// before it is strictly below `pos`, everything from it on is at least
/// `pos`.
pub proof fn lemma_count_lt_partition(s: Seq<SiteV>, pos: int)
    requires
        sites_sorted(s),
    ensures
        0 <= count_lt(s, pos) <= s.len(),
        forall|j: int| 0 <= j < count_lt(s, pos) ==> s[j].pos < pos,
        forall|j: int| count_lt(s, pos) <= j < s.len() ==> s[j].pos >= pos,
    decreases s.len(),
{
    lemma_count_lt_bounds(s, pos);
    if s.len() > 0 {
        let t = s.drop_last();
        assert(sites_sorted(t));
        lemma_count_lt_partition(t, pos);
        assert(forall|j: int| 0 <= j < t.len() ==> t[j] == s[j]);
        if s.last().pos < pos {
            assert forall|j: int| 0 <= j < s.len() implies s[j].pos < pos by {
                assert(s[j].pos <= s[s.len() - 1].pos);
            }
            if count_lt(t, pos) < s.len() - 1 {
                assert(t[count_lt(t, pos)].pos >= pos);
                assert(false);
            }
            assert(count_lt(s, pos) == s.len());
        } else {
            assert(count_lt(s, pos) == count_lt(t, pos));
        }
    }
}

/// The converse: a partition point determines `count_lt`.
pub proof fn lemma_partition_count_lt(s: Seq<SiteV>, pos: int, k: int)
    requires
        0 <= k <= s.len(),
        forall|j: int| 0 <= j < k ==> s[j].pos < pos,
        forall|j: int| k <= j < s.len() ==> s[j].pos >= pos,
    ensures
        count_lt(s, pos) == k,
    decreases s.len(),
{
    if s.len() > 0 {
        let t = s.drop_last();
        if k == s.len() {
            lemma_partition_count_lt(t, pos, k - 1);
        } else {
            lemma_partition_count_lt(t, pos, k);
        }
    }
}

/// On a sorted sequence with a site at `pos`, `count_lt` indexes the first
/// such site.
pub proof fn lemma_count_lt_exact(s: Seq<SiteV>, pos: int)
    requires
        sites_sorted(s),
        has_site_at(s, pos),
    ensures
        0 <= count_lt(s, pos) < s.len(),
        s[count_lt(s, pos)].pos == pos,
{
    lemma_count_lt_partition(s, pos);
    let i = choose|i: int| 0 <= i < s.len() && s[i].pos == pos;
    let k = count_lt(s, pos);
    assert(i >= k);
    assert(s[k].pos <= s[i].pos);
}

// ---------------------------------------------------------------------------
// The locator
// ---------------------------------------------------------------------------

impl CutSites {
    /// Find the cut site on `contig` closest to `pos`, if its distance is
    /// at most `max_dist`; `l` is the contig length, used for the
    /// wraparound distance on circular contigs. A site exactly at `pos`
    /// always wins; otherwise the nearer of the two flanking sites is
    /// chosen (the predecessor on a tie), considering the wraparound
    /// candidate when the position lies past either end of a circular
    /// contig.
    pub fn find_site(&self, contig: &str, pos: usize, max_dist: usize, l: usize) -> (r: Option<
        SiteId,
    >)
        requires
            self.wf(),
        ensures
            r == find_site_spec(self@, contig@, pos as int, max_dist as int, l as int),
    {
        let nc = self.contigs.len();
        let mut c: usize = 0;
        while c < nc
            invariant
                self.wf(),
                0 <= c <= nc,
                nc == self.contigs@.len(),
                self@.len() == nc,
                forall|j: int| 0 <= j < c ==> self@[j].name != contig@,
            decreases nc - c,
        {
            if crate::text::str_eq(self.contigs[c].name.as_str(), contig) {
                proof {
                    assert(self@[c as int].name == contig@);
                    lemma_contig_index_first(self@, contig@, c as int);
                }
                return self.find_in_contig_exec(c, pos, max_dist, l, Ghost(contig@));
            }
            c += 1;
        }
        proof {
            lemma_contig_index_none(self@, contig@);
        }
        None
    }

    /// Search within contig `c`, which is known to be the one `find_site`
    /// resolved the name to.
    fn find_in_contig_exec(
        &self,
        c: usize,
        pos: usize,
        max_dist: usize,
        l: usize,
        Ghost(name): Ghost<Seq<char>>,
    ) -> (r: Option<SiteId>)
        requires
            self.wf(),
            c < self.contigs@.len(),
            contig_index(self@, name) == Some(c as int),
        ensures
            r == find_site_spec(self@, name, pos as int, max_dist as int, l as int),
    {
        let ctg = &self.contigs[c];
        let m = ctg.cut_sites.len();
        let ghost sv = self@[c as int].sites;
        proof {
            assert(sv.len() == m);
            assert(forall|i: int| 0 <= i < m ==> sv[i] == ctg.cut_sites@[i]@);
            assert(sites_sorted(sv));
        }
        if m == 0 {
            return None;
        }
        // Binary search for the partition point: the index of the first
        // site at or above pos.
        let mut lo: usize = 0;
        let mut hi: usize = m;
        while lo < hi
            invariant
                0 <= lo <= hi <= m,
                m == sv.len(),
                m == ctg.cut_sites@.len(),
                forall|i: int| 0 <= i < m ==> sv[i] == ctg.cut_sites@[i]@,
                sites_sorted(sv),
                forall|i: int| 0 <= i < lo ==> sv[i].pos < pos,
                forall|i: int| hi <= i < m ==> sv[i].pos >= pos,
            decreases hi - lo,
        {
            let mid = lo + (hi - lo) / 2;
            if ctg.cut_sites[mid].pos < pos {
                proof {
                    assert forall|i: int| 0 <= i < mid + 1 implies sv[i].pos < pos by {
                        assert(sv[i].pos <= sv[mid as int].pos);
                    }
                }
                lo = mid + 1;
            } else {
                proof {
                    assert forall|i: int| mid <= i < m implies sv[i].pos >= pos by {
                        assert(sv[i].pos >= sv[mid as int].pos);
                    }
                }
                hi = mid;
            }
        }
        let k = lo;
        proof {
            lemma_partition_count_lt(sv, pos as int, k as int);
        }
        if k < m && ctg.cut_sites[k].pos == pos {
            proof {
                assert(has_site_at(sv, pos as int));
            }
            return Some(SiteId { ctg: c, site: k });
        }
        proof {
            if has_site_at(sv, pos as int) {
                lemma_count_lt_exact(sv, pos as int);
                assert(false);
            }
        }
        let circ = match ctg.circular {
            Some(true) => true,
            _ => false,
        };
        let cand: (usize, usize) = if 0 < k && k < m {
            let dp = pos - ctg.cut_sites[k - 1].pos;
            let ds = ctg.cut_sites[k].pos - pos;
            if dp <= ds {
                (k - 1, dp)
            } else {
                (k, ds)
            }
        } else if k == m {
            let dp = pos - ctg.cut_sites[k - 1].pos;
            if circ {
                let x0 = ctg.cut_sites[0].pos;
                let y = if l >= pos - x0 {
                    l - (pos - x0)
                } else {
                    (pos - x0) - l
                };
                if dp < y {
                    (k - 1, dp)
                } else {
                    (0, y)
                }
            } else {
                (k - 1, dp)
            }
        } else {
            let ds = ctg.cut_sites[0].pos - pos;
            if circ {
                let xn = ctg.cut_sites[m - 1].pos;
                let x = if l >= xn - pos {
                    l - (xn - pos)
                } else {
                    (xn - pos) - l
                };
                if x < ds {
                    (m - 1, x)
                } else {
                    (0, ds)
                }
            } else {
                (0, ds)
            }
        };
        proof {
            assert(cand.0 as int == near_candidate(sv, pos as int, circ, l as int).0);
            assert(cand.1 as int == near_candidate(sv, pos as int, circ, l as int).1);
        }
        if cand.1 <= max_dist {
            Some(SiteId { ctg: c, site: cand.0 })
        } else {
            None
        }
    }
}

proof fn lemma_contig_index_first(cs: Seq<ContigV>, name: Seq<char>, c: int)
    requires
        0 <= c < cs.len(),
        forall|j: int| 0 <= j < c ==> cs[j].name != name,
        cs[c].name == name,
    ensures
        contig_index(cs, name) == Some(c),
    decreases cs.len(),
{
    if c > 0 {
        lemma_contig_index_first(cs.drop_first(), name, c - 1);
    }
}

proof fn lemma_contig_index_none(cs: Seq<ContigV>, name: Seq<char>)
    requires
        forall|j: int| 0 <= j < cs.len() ==> cs[j].name != name,
    ensures
        contig_index(cs, name) is None,
    decreases cs.len(),
{
    if cs.len() > 0 {
        lemma_contig_index_none(cs.drop_first(), name);
    }
}

/// `contig_index` returns an index of a contig with the given name.
pub proof fn lemma_contig_index_valid(cs: Seq<ContigV>, name: Seq<char>)
    requires
        contig_index(cs, name) is Some,
    ensures
        0 <= contig_index(cs, name)->0 < cs.len(),
        cs[contig_index(cs, name)->0].name == name,
    decreases cs.len(),
{
    if cs.len() > 0 && cs[0].name != name {
        lemma_contig_index_valid(cs.drop_first(), name);
    }
}

// ---------------------------------------------------------------------------
// Stated properties of the locator
// ---------------------------------------------------------------------------

/// A query exactly on a site's position returns a site at that position,
/// whatever the maximum distance (even zero).
pub proof fn lemma_exact_position_wins(
    cs: Seq<ContigV>,
    name: Seq<char>,
    pos: int,
    max_dist: int,
    l: int,
)
    requires
        names_unique(cs),
        cs.len() <= usize::MAX as int,
        forall|c: int| 0 <= c < cs.len() ==> sites_sorted(#[trigger] cs[c].sites),
        contig_index(cs, name) is Some,
        cs[contig_index(cs, name)->0].sites.len() <= usize::MAX as int,
        has_site_at(cs[contig_index(cs, name)->0].sites, pos),
        max_dist >= 0,
    ensures
        find_site_spec(cs, name, pos, max_dist, l) is Some,
        ({
            let id = find_site_spec(cs, name, pos, max_dist, l)->0;
            &&& id.ctg as int == contig_index(cs, name)->0
            &&& cs[id.ctg as int].sites[id.site as int].pos == pos
        }),
{
    let c = contig_index(cs, name)->0;
    lemma_contig_index_valid(cs, name);
    lemma_count_lt_exact(cs[c].sites, pos);
}

/// Strictly between two adjacent sites the locator picks whichever is
/// closer, and the predecessor on an exact midpoint tie, subject to the
/// maximum distance.
pub proof fn lemma_between_adjacent_sites(
    s: Seq<SiteV>,
    pos: int,
    i: int,
    max_dist: int,
    circ: bool,
    l: int,
)
    requires
        sites_sorted(s),
        0 <= i < s.len() - 1,
        s[i].pos < pos < s[i + 1].pos,
    ensures
        ({
            let dp = pos - s[i].pos;
            let ds = s[i + 1].pos - pos;
            &&& (dp <= ds && dp <= max_dist ==> find_in_contig(s, pos, max_dist, circ, l) == Some(
                i,
            ))
            &&& (ds < dp && ds <= max_dist ==> find_in_contig(s, pos, max_dist, circ, l) == Some(
                i + 1,
            ))
            &&& (ds > max_dist && dp > max_dist ==> find_in_contig(s, pos, max_dist, circ, l)
                is None)
        }),
{
    assert forall|j: int| 0 <= j < i + 1 implies s[j].pos < pos by {
        assert(s[j].pos <= s[i].pos);
    }
    assert forall|j: int| i + 1 <= j < s.len() implies s[j].pos >= pos by {
        assert(s[j].pos >= s[i + 1].pos);
    }
    lemma_partition_count_lt(s, pos, i + 1);
    if has_site_at(s, pos) {
        lemma_count_lt_exact(s, pos);
        assert(false);
    }
}

/// Wraparound on a circular contig of length `l` with sites at 5 and 95
/// only: a query at `l - 2` is 7 away from the site at 5 going over the
/// origin, and matches it whenever that beats the predecessor; the same
/// query without the circular flag only has the predecessor, and reports
/// no match when that is too far.
pub proof fn lemma_circular_wraparound(s: Seq<SiteV>, l: int, max_dist: int)
    requires
        s.len() == 2,
        s[0].pos == 5,
        s[1].pos == 95,
        max_dist >= 7,
        l >= 104,
    ensures
        find_in_contig(s, l - 2, max_dist, true, l) == Some(0int),
        l - 97 > max_dist ==> find_in_contig(s, l - 2, max_dist, false, l) is None,
{
    let pos = l - 2;
    assert(sites_sorted(s));
    assert forall|j: int| 0 <= j < 2 implies s[j].pos < pos by {}
    lemma_partition_count_lt(s, pos, 2);
    if has_site_at(s, pos) {
        lemma_count_lt_exact(s, pos);
        assert(false);
    }
    assert(count_lt(s, pos) == 2);
    assert(wrap_dist(s[0].pos, pos, l) == 7);
}

// ---------------------------------------------------------------------------
// Building the catalog from a cut-site table
// ---------------------------------------------------------------------------

/// A fatal error in the cut-site table, with the 1-based line it was found
/// on.
#[derive(Debug, Clone, Copy, PartialEq, Eq, Structural)]
pub enum CutFileError {
    /// The circular-flag field holds an unrecognized literal.
    BadCircularFlag { line: usize },
    /// A contig's circular flag disagrees with an earlier row.
    InconsistentCircular { line: usize },
    /// The position field is not a non-negative integer that fits.
    BadPosition { line: usize },
}

/// The circular flag denoted by a field: true/yes/1 or false/no/0, ASCII
/// case-insensitive; anything else is unrecognized.
pub open spec fn flag_of(s: Seq<char>) -> Option<bool> {
    if str_eq_ic(s, "true"@) || str_eq_ic(s, "yes"@) || str_eq_ic(s, "1"@) {
        Some(true)
    } else if str_eq_ic(s, "false"@) || str_eq_ic(s, "no"@) || str_eq_ic(s, "0"@) {
        Some(false)
    } else {
        None
    }
}

fn parse_flag(s: &str) -> (r: Option<bool>)
    ensures
        r == flag_of(s@),
{
    if eq_ignore_case(s, "true") || eq_ignore_case(s, "yes") || eq_ignore_case(s, "1") {
        Some(true)
    } else if eq_ignore_case(s, "false") || eq_ignore_case(s, "no") || eq_ignore_case(s, "0") {
        Some(false)
    } else {
        None
    }
}

/// Effect of one table row (already split into at least 5 fields) on the
/// catalog being built: the row's contig is found or appended, its
/// circular flag checked against any earlier one, and the site appended to
/// that contig.
pub open spec fn add_row_spec(cat: Seq<ContigV>, f: Seq<Seq<char>>, line: usize) -> Result<
    Seq<ContigV>,
    CutFileError,
>
    recommends
        f.len() >= 5,
{
    match flag_of(f[4]) {
        None => Err(CutFileError::BadCircularFlag { line }),
        Some(fg) => {
            let (cat1, c) = match contig_index(cat, f[0]) {
                Some(c) => (cat, c),
                None => (
                    cat.push(ContigV { name: f[0], circular: None, sites: Seq::empty() }),
                    cat.len() as int,
                ),
            };
            if cat1[c].circular is Some && cat1[c].circular != Some(fg) {
                Err(CutFileError::InconsistentCircular { line })
            } else {
                let pv = parse_uint(f[1]);
                if pv is Some && pv->0 <= usize::MAX as int {
                    Ok(
                        cat1.update(
                            c,
                            (ContigV {
                                name: cat1[c].name,
                                circular: Some(fg),
                                sites: cat1[c].sites.push(
                                    (SiteV { name: f[2], pos: pv->0, barcode: f[3] }),
                                ),
                            }),
                        ),
                    )
                } else {
                    Err(CutFileError::BadPosition { line })
                }
            }
        },
    }
}

/// Fold the remaining lines (1-based numbering starting at `ln`) into the
/// catalog; rows with fewer than five fields are skipped.
pub open spec fn build_from(cat: Seq<ContigV>, lines: Seq<Seq<char>>, ln: int) -> Result<
    Seq<ContigV>,
    CutFileError,
>
    decreases lines.len(),
{
    if lines.len() == 0 {
        Ok(cat)
    } else {
        let f = split_tabs(trim_spec(lines[0]));
        if f.len() >= 5 {
            match add_row_spec(cat, f, ln as usize) {
                Ok(c2) => build_from(c2, lines.drop_first(), ln + 1),
                Err(e) => Err(e),
            }
        } else {
            build_from(cat, lines.drop_first(), ln + 1)
        }
    }
}

/// Stable insertion of a site into a position-sorted sequence, after any
/// site with the same position.
pub open spec fn insert_site(s: Seq<SiteV>, x: SiteV) -> Seq<SiteV>
    decreases s.len(),
{
    if s.len() == 0 {
        seq![x]
    } else if s[0].pos <= x.pos {
        seq![s[0]] + insert_site(s.drop_first(), x)
    } else {
        seq![x] + s
    }
}

/// Stable sort of a contig's sites by position.
pub open spec fn sort_sites(s: Seq<SiteV>) -> Seq<SiteV>
    decreases s.len(),
{
    if s.len() == 0 {
        Seq::empty()
    } else {
        insert_site(sort_sites(s.drop_last()), s.last())
    }
}

pub open spec fn sorted_catalog(cat: Seq<ContigV>) -> Seq<ContigV> {
    Seq::new(
        cat.len(),
        |i: int|
            ContigV {
                name: cat[i].name,
                circular: cat[i].circular,
                sites: sort_sites(cat[i].sites),
            },
    )
}

/// What `read_cut_file` produces from the lines of a cut-site table.
pub open spec fn read_cut_file_spec(lines: Seq<Seq<char>>) -> Result<Seq<ContigV>, CutFileError> {
    match build_from(Seq::empty(), lines, 1) {
        Ok(cat) => Ok(sorted_catalog(cat)),
        Err(e) => Err(e),
    }
}

pub open spec fn cat_view(v: &Vec<Contig>) -> Seq<ContigV> {
    Seq::new(v@.len(), |i: int| v@[i]@)
}

pub open spec fn sites_view(v: &Vec<Site>) -> Seq<SiteV> {
    Seq::new(v@.len(), |i: int| v@[i]@)
}

fn find_contig_ix(cat: &Vec<Contig>, name: &str) -> (r: Option<usize>)
    ensures
        match r {
            Some(c) => c < cat@.len() && contig_index(cat_view(cat), name@) == Some(c as int),
            None => contig_index(cat_view(cat), name@) is None && (forall|j: int|
                0 <= j < cat@.len() ==> cat_view(cat)[j].name != name@),
        },
{
    let n = cat.len();
    let mut c: usize = 0;
    while c < n
        invariant
            0 <= c <= n,
            n == cat@.len(),
            forall|j: int| 0 <= j < c ==> cat_view(cat)[j].name != name@,
        decreases n - c,
    {
        if crate::text::str_eq(cat[c].name.as_str(), name) {
            proof {
                lemma_contig_index_first(cat_view(cat), name@, c as int);
            }
            return Some(c);
        }
        c += 1;
    }
    proof {
        lemma_contig_index_none(cat_view(cat), name@);
    }
    None
}

/// Apply one row with at least five fields to the catalog; on an error the
/// catalog is abandoned by the caller.
fn add_row_exec(cat: &mut Vec<Contig>, fields: &Vec<String>, line: usize) -> (r: Option<
    CutFileError,
>)
    requires
        fields@.len() >= 5,
        names_unique(cat_view(old(cat))),
    ensures
        match r {
            None => add_row_spec(cat_view(old(cat)), fields_view(fields), line) == Ok::<
                Seq<ContigV>,
                CutFileError,
            >(cat_view(final(cat))) && names_unique(cat_view(final(cat))),
            Some(e) => add_row_spec(cat_view(old(cat)), fields_view(fields), line) == Err::<
                Seq<ContigV>,
                CutFileError,
            >(e),
        },
{
    let ghost cat0 = cat_view(old(cat));
    let ghost f = fields_view(fields);
    let fg = match parse_flag(fields[4].as_str()) {
        Some(b) => b,
        None => {
            return Some(CutFileError::BadCircularFlag { line });
        },
    };
    let c: usize = match find_contig_ix(cat, fields[0].as_str()) {
        Some(c) => c,
        None => {
            let ctg = Contig {
                name: fields[0].clone(),
                circular: None,
                cut_sites: Vec::new(),
            };
            cat.push(ctg);
            proof {
                assert(cat_view(cat) =~~= cat0.push(
                    (ContigV { name: f[0], circular: None, sites: Seq::empty() }),
                ));
            }
            cat.len() - 1
        },
    };
    let ghost cat1 = cat_view(cat);
    proof {
        assert(names_unique(cat1));
        assert(cat1[c as int].circular == cat@[c as int].circular);
    }
    let cur = cat[c].circular;
    if let Some(old_fg) = cur {
        if old_fg != fg {
            return Some(CutFileError::InconsistentCircular { line });
        }
    }
    let pos = match parse_usize(fields[1].as_str()) {
        Some(p) => p,
        None => {
            return Some(CutFileError::BadPosition { line });
        },
    };
    let mut ctg = cat.remove(c);
    let ghost old_ctg = cat1[c as int];
    ctg.circular = Some(fg);
    ctg.cut_sites.push(Site { name: fields[2].clone(), pos, barcode: fields[3].clone() });
    cat.insert(c, ctg);
    proof {
        let newv = ContigV {
            name: old_ctg.name,
            circular: Some(fg),
            sites: old_ctg.sites.push((SiteV { name: f[2], pos: pos as int, barcode: f[3] })),
        };
        assert(cat_view(cat)[c as int].sites =~= newv.sites);
        assert(cat_view(cat)[c as int] =~~= newv);
        assert(cat_view(cat) =~= cat1.update(c as int, newv));
        assert(names_unique(cat_view(cat)));
    }
    None
}

/// Where `insert_site` puts the new element: at the first index whose
/// position is strictly greater.
proof fn lemma_insert_site_at(s: Seq<SiteV>, x: SiteV, j: int)
    requires
        0 <= j <= s.len(),
        forall|k: int| 0 <= k < j ==> s[k].pos <= x.pos,
        j == s.len() || s[j].pos > x.pos,
    ensures
        insert_site(s, x) == s.take(j) + seq![x] + s.skip(j),
    decreases j,
{
    if j == 0 {
        if s.len() == 0 {
            assert(insert_site(s, x) =~= s.take(0) + seq![x] + s.skip(0));
        } else {
            assert(insert_site(s, x) =~= s.take(0) + seq![x] + s.skip(0));
        }
    } else {
        let t = s.drop_first();
        lemma_insert_site_at(t, x, j - 1);
        assert(insert_site(s, x) == seq![s[0]] + insert_site(t, x));
        assert(seq![s[0]] + (t.take(j - 1) + seq![x] + t.skip(j - 1)) =~= s.take(j) + seq![x]
            + s.skip(j));
    }
}

/// Insert a site into a sorted vector, keeping it sorted and matching
/// `insert_site` on views.
fn insert_site_vec(out: &mut Vec<Site>, x: Site)
    ensures
        sites_view(final(out)) == insert_site(sites_view(old(out)), x@),
        sites_sorted(sites_view(old(out))) ==> sites_sorted(sites_view(final(out))),
{
    let ghost s0 = sites_view(old(out));
    let n = out.len();
    let mut j: usize = 0;
    while j < n && out[j].pos <= x.pos
        invariant
            0 <= j <= n,
            n == out@.len(),
            out@ == old(out)@,
            forall|k: int| 0 <= k < j ==> sites_view(out)[k].pos <= x@.pos,
        decreases n - j,
    {
        j += 1;
    }
    proof {
        lemma_insert_site_at(s0, x@, j as int);
    }
    out.insert(j, x);
    proof {
        assert(sites_view(out) =~= s0.take(j as int) + seq![x@] + s0.skip(j as int));
        if sites_sorted(s0) {
            let r = sites_view(out);
            assert forall|a: int, b: int| 0 <= a <= b < r.len() implies r[a].pos <= r[b].pos by {
                if a < j && b == j {
                    assert(r[a] == s0[a]);
                } else if a == j && b > j {
                    assert(r[b] == s0[b - 1]);
                } else if a < j && b > j {
                    assert(r[a] == s0[a] && r[b] == s0[b - 1]);
                } else if a > j && b > j {
                    assert(r[a] == s0[a - 1] && r[b] == s0[b - 1]);
                }
            }
        }
    }
}

/// Sort a contig's sites by position with a stable insertion sort.
fn sort_sites_vec(v: Vec<Site>) -> (r: Vec<Site>)
    ensures
        sites_view(&r) == sort_sites(sites_view(&v)),
        sites_sorted(sites_view(&r)),
{
    let ghost orig = sites_view(&v);
    let mut rest = v;
    let mut out: Vec<Site> = Vec::new();
    let ghost mut i: int = 0;
    proof {
        assert(sites_view(&out) =~= sort_sites(orig.take(0)));
    }
    while rest.len() > 0
        invariant
            0 <= i,
            i + rest@.len() == orig.len(),
            sites_view(&out) == sort_sites(orig.take(i)),
            sites_sorted(sites_view(&out)),
            forall|k: int| 0 <= k < rest@.len() ==> rest@[k]@ == orig[i + k],
        decreases rest@.len(),
    {
        let ghost restv = rest@;
        let x = rest.remove(0);
        proof {
            assert(x == restv[0]);
            assert(x@ == orig[i]);
            assert(rest@ =~= restv.drop_first());
            assert forall|k: int| 0 <= k < rest@.len() implies rest@[k]@ == orig[i + 1 + k] by {
                assert(rest@[k] == restv[k + 1]);
            }
            assert(orig.take(i + 1).drop_last() =~= orig.take(i));
            assert(orig.take(i + 1).last() == orig[i]);
        }
        insert_site_vec(&mut out, x);
        proof {
            i = i + 1;
            assert(sites_view(&out) == sort_sites(orig.take(i)));
        }
    }
    proof {
        assert(orig.take(orig.len() as int) =~= orig);
    }
    out
}

/// Build the catalog from the lines of a cut-site table.
///
/// Each row with at least five tab-separated fields contributes one site:
/// contig name, 1-based position, site name, barcode, circular flag
/// (true/yes/1 or false/no/0, case-insensitive); shorter rows are skipped.
/// A contig's circular flag must agree across all its rows. After all rows
/// are read, each contig's sites are sorted by position.
pub fn read_cut_file(lines: &Vec<String>) -> (r: Result<CutSites, CutFileError>)
    ensures
        match r {
            Ok(cs) => cs.wf() && read_cut_file_spec(lines_view(lines)) == Ok::<
                Seq<ContigV>,
                CutFileError,
            >(cs@),
            Err(e) => read_cut_file_spec(lines_view(lines)) == Err::<Seq<ContigV>, CutFileError>(
                e,
            ),
        },
{
    let ghost lv = lines_view(lines);
    let mut cat: Vec<Contig> = Vec::new();
    let n = lines.len();
    let mut i: usize = 0;
    proof {
        assert(lv.skip(0) =~= lv);
        assert(cat_view(&cat) =~= Seq::<ContigV>::empty());
    }
    while i < n
        invariant
            0 <= i <= n,
            n == lines@.len(),
            lv == lines_view(lines),
            names_unique(cat_view(&cat)),
            build_from(Seq::empty(), lv, 1) == build_from(cat_view(&cat), lv.skip(i as int), i + 1),
        decreases n - i,
    {
        let ghost cat0 = cat_view(&cat);
        let line = trim(lines[i].as_str());
        let fields = split_fields(line);
        let ghost f = split_tabs(trim_spec(lv[i as int]));
        proof {
            assert(lv.skip(i as int)[0] == lv[i as int]);
            assert(fields_view(&fields) =~= f);
        }
        if fields.len() >= 5 {
            if let Some(e) = add_row_exec(&mut cat, &fields, i + 1) {
                proof {
                    assert(build_from(cat0, lv.skip(i as int), i + 1) == Err::<
                        Seq<ContigV>,
                        CutFileError,
                    >(e));
                }
                return Err(e);
            }
        }
        i += 1;
        proof {
            assert(lv.skip(i - 1).drop_first() =~= lv.skip(i as int));
        }
    }
    proof {
        assert(lv.skip(n as int) =~= Seq::<Seq<char>>::empty());
        assert(build_from(Seq::empty(), lv, 1) == Ok::<Seq<ContigV>, CutFileError>(
            cat_view(&cat),
        ));
    }
    // Sort each contig's sites by position.
    let ghost built = cat_view(&cat);
    let m = cat.len();
    let mut c: usize = 0;
    while c < m
        invariant
            0 <= c <= m,
            m == cat@.len(),
            built.len() == m,
            forall|j: int| c <= j < m ==> cat_view(&cat)[j] == built[j],
            forall|j: int| 0 <= j < c ==> cat_view(&cat)[j] == sorted_catalog(built)[j],
            forall|j: int| 0 <= j < c ==> sites_sorted(#[trigger] cat_view(&cat)[j].sites),
        decreases m - c,
    {
        let mut ctg = cat.remove(c);
        let ghost before = cat_view(&cat);
        ctg.cut_sites = sort_sites_vec(ctg.cut_sites);
        proof {
            assert(ctg@.sites == sort_sites(built[c as int].sites));
        }
        cat.insert(c, ctg);
        proof {
            assert forall|j: int| 0 <= j < m implies cat_view(&cat)[j] == (if j < c + 1 {
                sorted_catalog(built)[j]
            } else {
                built[j]
            }) by {
                if j < c {
                    assert(cat_view(&cat)[j] == before[j]);
                } else if j > c {
                    assert(cat_view(&cat)[j] == before[j - 1]);
                }
            }
        }
        c += 1;
    }
    let cs = CutSites { contigs: cat };
    proof {
        assert(cs@ =~= sorted_catalog(built));
        assert(names_unique(cs@)) by {
            assert(forall|j: int| 0 <= j < m ==> cs@[j].name == built[j].name);
        }
        assert(cs.wf());
    }
    Ok(cs)
}

} // verus!
