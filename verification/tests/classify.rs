use ont_demult::classify::{classify_read, MapResult};
use ont_demult::cut_site::{read_cut_file, CutSites, SiteId};
use ont_demult::paf::{
    resolve_match, CommonLoc, FindMatch, Location, PafError, PafField, PafFile, PafRecord,
    PafRead, Strand,
};
use ont_demult::params::{Param, ParamBuilder};
use ont_demult::strategy::Strategy;

fn lines(rows: &[&str]) -> Vec<String> {
    rows.iter().map(|s| s.to_string()).collect()
}

fn make_param(select: Strategy, cs: Option<CutSites>) -> Param {
    let mut pb = ParamBuilder::new();
    pb.mapq_thresh(10);
    pb.max_distance(50);
    pb.max_unmatched(200);
    pb.margin(0);
    pb.select(select);
    if let Some(c) = cs {
        pb.cut_sites(c);
    }
    pb.build()
}

fn rec(
    qstart: usize,
    qend: usize,
    strand: Strand,
    target_name: &str,
    target_start: usize,
    target_end: usize,
    matching_bases: usize,
    mapq: u8,
) -> PafRecord {
    PafRecord {
        qstart,
        qend,
        strand,
        target_name: target_name.to_string(),
        target_length: 1000,
        target_start,
        target_end,
        matching_bases,
        mapq,
    }
}

fn test_loc(unused: usize) -> Location {
    Location {
        contig: "chrA".to_string(),
        inner: CommonLoc {
            strand: Strand::Plus,
            start: 100,
            start_adj: 100,
            end: 200,
            end_adj: 200,
            length: 1000,
            unused,
            splits: Vec::new(),
        },
    }
}

fn tag(fm: &FindMatch) -> &'static str {
    match fm {
        FindMatch::Match(_) => "Matched",
        FindMatch::ExcessUnmatched(_) => "ExcessUnmatched",
        FindMatch::MisMatch(_) => "MisMatch",
        FindMatch::MatchStart(_) => "MatchStart",
        FindMatch::MatchBoth(_) => "MatchBoth",
        FindMatch::MatchEnd(_) => "MatchEnd",
        FindMatch::Location(_) => "Unmatched",
    }
}

#[test]
fn strategy_table_is_exhaustive() {
    let a = SiteId { ctg: 0, site: 0 };
    let b = SiteId { ctg: 0, site: 1 };
    let strategies = [Strategy::Start, Strategy::Both, Strategy::Either, Strategy::Xor];
    // (start, end, expected tag per strategy in the order above)
    let cases: [(Option<SiteId>, Option<SiteId>, [&str; 4]); 4] = [
        (Some(a), Some(a), ["Matched", "Matched", "Matched", "MatchBoth"]),
        (Some(a), Some(b), ["MisMatch", "MisMatch", "MisMatch", "MisMatch"]),
        (Some(a), None, ["Matched", "MatchStart", "Matched", "Matched"]),
        (None, Some(b), ["MatchEnd", "MatchEnd", "Matched", "Matched"]),
    ];
    for (start, end, expect) in cases.iter() {
        for (k, sel) in strategies.iter().enumerate() {
            let fm = resolve_match(*start, *end, *sel, 200, test_loc(0));
            assert_eq!(tag(&fm), expect[k], "start {:?} end {:?} sel {:?}", start, end, sel);
        }
    }
    // The absent/absent shape yields a plain location under every strategy.
    for sel in strategies.iter() {
        let fm = resolve_match(None, None, *sel, 200, test_loc(0));
        assert_eq!(tag(&fm), "Unmatched");
    }
}

#[test]
fn unused_budget_gates_matched() {
    let a = SiteId { ctg: 0, site: 0 };
    let at_budget = resolve_match(Some(a), None, Strategy::Start, 200, test_loc(200));
    assert_eq!(tag(&at_budget), "Matched");
    let over_budget = resolve_match(Some(a), None, Strategy::Start, 200, test_loc(201));
    assert_eq!(tag(&over_budget), "ExcessUnmatched");
    match over_budget {
        FindMatch::ExcessUnmatched(m) => assert_eq!(m.site, a),
        _ => unreachable!(),
    }
}

#[test]
fn overlap_guard_drops_the_read() {
    let cs = read_cut_file(&lines(&["chrA\t500\tsiteA\tbcA\tfalse"])).unwrap();
    let read = PafRead {
        qname: "r1".to_string(),
        qlen: 1000,
        records: vec![
            rec(0, 600, Strand::Plus, "chrA", 0, 600, 550, 60),
            rec(550, 1000, Strand::Plus, "chrA", 600, 1000, 400, 60),
        ],
    };
    let param = make_param(Strategy::Start, None);
    assert!(read.find_site(&cs, &param).is_none());
    // One base of clearance avoids the guard.
    let read2 = PafRead {
        qname: "r1".to_string(),
        qlen: 1000,
        records: vec![
            rec(0, 549, Strand::Plus, "chrA", 0, 600, 500, 60),
            rec(550, 1000, Strand::Plus, "chrA", 600, 1000, 400, 60),
        ],
    };
    assert!(read2.find_site(&cs, &param).is_some());
}

#[test]
fn parse_round_trip_preserves_fields() {
    let row = "read1\t1000\t10\t900\t-\tchrA\t4000\t100\t950\t800\t850\t42";
    let mut pf = PafFile::open(lines(&[row]));
    let read = pf.next_read().unwrap().unwrap();
    assert_eq!(read.qname(), "read1");
    assert_eq!(read.qlen, 1000);
    assert_eq!(read.records.len(), 1);
    let r = &read.records[0];
    assert_eq!(r.qstart, 10);
    assert_eq!(r.qend, 900);
    assert_eq!(r.strand, Strand::Minus);
    assert_eq!(r.target_name, "chrA");
    assert_eq!(r.target_length, 4000);
    assert_eq!(r.target_start, 100);
    assert_eq!(r.target_end, 950);
    assert_eq!(r.matching_bases, 800);
    assert_eq!(r.mapq, 42);
    // Parsing the same row again reproduces the same values.
    let mut pf2 = PafFile::open(lines(&[row]));
    let read2 = pf2.next_read().unwrap().unwrap();
    let r2 = &read2.records[0];
    assert_eq!(read2.qname(), read.qname());
    assert_eq!(read2.qlen, read.qlen);
    assert_eq!(r2.qstart, r.qstart);
    assert_eq!(r2.qend, r.qend);
    assert_eq!(r2.strand, r.strand);
    assert_eq!(r2.target_name, r.target_name);
    assert_eq!(r2.target_length, r.target_length);
    assert_eq!(r2.target_start, r.target_start);
    assert_eq!(r2.target_end, r.target_end);
    assert_eq!(r2.matching_bases, r.matching_bases);
    assert_eq!(r2.mapq, r.mapq);
}

#[test]
fn end_to_end_matched_read() {
    // One linear contig with one site; one fully mapped plus-strand read
    // spanning target 480-600 with high quality and no unused bases.
    let cs = read_cut_file(&lines(&["chrA\t500\tsiteA\tbcA\tfalse"])).unwrap();
    let paf_row = "read1\t120\t0\t120\t+\tchrA\t1000\t480\t600\t115\t120\t60";
    let mut pf = PafFile::open(lines(&[paf_row]));
    let read = pf.next_read().unwrap().unwrap();
    let param = make_param(Strategy::Start, Some(cs));
    let result = classify_read(&read, &param);
    match result {
        MapResult::Matched(m) => {
            let cat = param.cut_sites.as_ref().unwrap();
            let site = &cat.contigs[m.site.ctg].cut_sites[m.site.site];
            assert_eq!(site.name, "siteA");
            assert_eq!(site.barcode, "bcA");
            assert_eq!(m.inner.unused, 0);
        },
        other => panic!("expected Matched, got {:?}", other),
    }
}

#[test]
fn unmapped_read_short_circuits() {
    let read = PafRead {
        qname: "r".to_string(),
        qlen: 500,
        records: vec![rec(0, 500, Strand::Plus, "*", 0, 500, 400, 0)],
    };
    let cs = read_cut_file(&lines(&["chrA\t500\tsiteA\tbcA\tfalse"])).unwrap();
    let param = make_param(Strategy::Start, Some(cs));
    match classify_read(&read, &param) {
        MapResult::Unmapped(len) => assert_eq!(len, 500),
        other => panic!("expected Unmapped, got {:?}", other),
    }
}

#[test]
fn low_quality_read_short_circuits() {
    let read = PafRead {
        qname: "r".to_string(),
        qlen: 500,
        records: vec![rec(0, 500, Strand::Plus, "chrA", 0, 500, 400, 9)],
    };
    let cs = read_cut_file(&lines(&["chrA\t500\tsiteA\tbcA\tfalse"])).unwrap();
    let param = make_param(Strategy::Start, Some(cs));
    match classify_read(&read, &param) {
        MapResult::LowMapq(len) => assert_eq!(len, 500),
        other => panic!("expected LowMapq, got {:?}", other),
    }
}

#[test]
fn missing_catalog_gives_no_cut_sites() {
    let read = PafRead {
        qname: "r".to_string(),
        qlen: 500,
        records: vec![rec(0, 500, Strand::Plus, "chrA", 0, 500, 400, 60)],
    };
    let param = make_param(Strategy::Start, None);
    match classify_read(&read, &param) {
        MapResult::NoCutSites(len) => assert_eq!(len, 500),
        other => panic!("expected NoCutSites, got {:?}", other),
    }
    // An empty catalog counts as absent.
    let empty = read_cut_file(&lines(&[])).unwrap();
    let param = make_param(Strategy::Start, Some(empty));
    match classify_read(&read, &param) {
        MapResult::NoCutSites(len) => assert_eq!(len, 500),
        other => panic!("expected NoCutSites, got {:?}", other),
    }
}

#[test]
fn minus_strand_anchor_matches_at_end() {
    // A minus-strand read whose inferred end position (target start of the
    // latest segment) lies near the site; only the end lookup is honored.
    let cs = read_cut_file(&lines(&["chrA\t500\tsiteA\tbcA\tfalse"])).unwrap();
    let read = PafRead {
        qname: "r".to_string(),
        qlen: 120,
        records: vec![rec(0, 120, Strand::Minus, "chrA", 480, 600, 115, 60)],
    };
    // Under Either, an end-side match resolves to Matched.
    let param = make_param(Strategy::Either, None);
    match read.find_site(&cs, &param).expect("an outcome") {
        FindMatch::Match(m) => {
            assert_eq!(cs.contigs[m.site.ctg].cut_sites[m.site.site].name, "siteA");
        },
        other => panic!("expected Match, got {:?}", other),
    }
    // Under Start, the same end-side match is only reported as MatchEnd.
    let param = make_param(Strategy::Start, None);
    match read.find_site(&cs, &param).expect("an outcome") {
        FindMatch::MatchEnd(l) => assert_eq!(l.contig, "chrA"),
        other => panic!("expected MatchEnd, got {:?}", other),
    }
}

#[test]
fn groups_split_on_identifier_change() {
    let rows = [
        "r1\t1000\t0\t400\t+\tchrA\t5000\t100\t500\t390\t400\t60",
        "r1\t1000\t500\t900\t+\tchrA\t5000\t600\t1000\t380\t400\t60",
        "r2\t800\t0\t800\t-\tchrB\t3000\t200\t990\t700\t800\t50",
    ];
    let mut pf = PafFile::open(lines(&rows));
    let g1 = pf.next_read().unwrap().unwrap();
    assert_eq!(g1.qname(), "r1");
    assert_eq!(g1.records.len(), 2);
    let g2 = pf.next_read().unwrap().unwrap();
    assert_eq!(g2.qname(), "r2");
    assert_eq!(g2.records.len(), 1);
    assert!(pf.next_read().unwrap().is_none());
}

#[test]
fn short_line_is_fatal() {
    let mut pf = PafFile::open(lines(&["r1\t1000\t0\t400\t+\tchrA\t5000\t100\t500\t390\t400"]));
    assert_eq!(pf.next_read().unwrap_err(), PafError::ShortLine { line: 1 });
}

#[test]
fn bad_numeric_fields_are_fatal() {
    let row = "r1\t1000\tx\t400\t+\tchrA\t5000\t100\t500\t390\t400\t60";
    let mut pf = PafFile::open(lines(&[row]));
    assert_eq!(
        pf.next_read().unwrap_err(),
        PafError::BadNumber { field: PafField::QueryStart, line: 1 }
    );
    let row = "r1\t1000\t0\t400\t+\tchrA\t5000\t100\t500\t390\t400\t256";
    let mut pf = PafFile::open(lines(&[row]));
    assert_eq!(
        pf.next_read().unwrap_err(),
        PafError::BadNumber { field: PafField::Mapq, line: 1 }
    );
    let row = "r1\tlong\t0\t400\t+\tchrA\t5000\t100\t500\t390\t400\t60";
    let mut pf = PafFile::open(lines(&[row]));
    assert_eq!(
        pf.next_read().unwrap_err(),
        PafError::BadNumber { field: PafField::QueryLength, line: 1 }
    );
}

#[test]
fn bad_strand_is_fatal() {
    let row = "r1\t1000\t0\t400\t?\tchrA\t5000\t100\t500\t390\t400\t60";
    let mut pf = PafFile::open(lines(&[row]));
    assert_eq!(pf.next_read().unwrap_err(), PafError::BadStrand { line: 1 });
}

#[test]
fn reversed_query_span_is_fatal() {
    let row = "r1\t1000\t400\t400\t+\tchrA\t5000\t100\t500\t390\t400\t60";
    let mut pf = PafFile::open(lines(&[row]));
    assert_eq!(pf.next_read().unwrap_err(), PafError::InvalidQuerySpan { line: 1 });
}

#[test]
fn query_end_past_length_is_fatal() {
    let row = "r1\t300\t0\t400\t+\tchrA\t5000\t100\t500\t390\t400\t60";
    let mut pf = PafFile::open(lines(&[row]));
    assert_eq!(pf.next_read().unwrap_err(), PafError::QueryEndPastLength { line: 1 });
}

#[test]
fn interior_splits_are_recorded() {
    let cs = read_cut_file(&lines(&["chrA\t100\tsiteA\tbcA\tfalse"])).unwrap();
    let read = PafRead {
        qname: "r".to_string(),
        qlen: 1000,
        records: vec![
            rec(0, 400, Strand::Plus, "chrA", 100, 500, 390, 60),
            rec(500, 1000, Strand::Plus, "chrA", 700, 1200, 480, 60),
        ],
    };
    let param = make_param(Strategy::Start, None);
    match read.find_site(&cs, &param).expect("an outcome") {
        FindMatch::Match(m) => {
            assert_eq!(m.inner.splits.len(), 1);
            assert_eq!(m.inner.splits[0].from, 500);
            assert_eq!(m.inner.splits[0].to, 700);
            assert_eq!(m.inner.unused, 100);
            assert_eq!(m.inner.start, 100);
            assert_eq!(m.inner.end, 1200);
        },
        other => panic!("expected Match, got {:?}", other),
    }
}

#[test]
fn implausibly_long_reads_cannot_anchor() {
    // The read is over 150 bases longer than its target, so the only
    // record is not anchor material and the read drops to LowMapq.
    let cs = read_cut_file(&lines(&["chrA\t500\tsiteA\tbcA\tfalse"])).unwrap();
    let mut r = rec(0, 1000, Strand::Plus, "chrA", 480, 600, 900, 60);
    r.target_length = 700;
    let read = PafRead { qname: "r".to_string(), qlen: 1000, records: vec![r] };
    let param = make_param(Strategy::Start, Some(cs));
    match classify_read(&read, &param) {
        MapResult::LowMapq(len) => assert_eq!(len, 1000),
        other => panic!("expected LowMapq, got {:?}", other),
    }
}
