use ont_demult::cut_site::{read_cut_file, CutFileError, CutSites, Site, SiteId};

fn lines(rows: &[&str]) -> Vec<String> {
    rows.iter().map(|s| s.to_string()).collect()
}

fn catalog(rows: &[&str]) -> CutSites {
    read_cut_file(&lines(rows)).expect("catalog should build")
}

fn site<'a>(cs: &'a CutSites, id: SiteId) -> &'a Site {
    &cs.contigs[id.ctg].cut_sites[id.site]
}

#[test]
fn exact_position_always_matches() {
    let cs = catalog(&["chrA\t500\tsiteA\tbcA\tfalse"]);
    // A site exactly at the query position wins even with max_dist 0.
    let r = cs.find_site("chrA", 500, 0, 1000).expect("exact hit");
    assert_eq!(site(&cs, r).name, "siteA");
    assert_eq!(site(&cs, r).pos, 500);
}

#[test]
fn unknown_contig_has_no_match() {
    let cs = catalog(&["chrA\t500\tsiteA\tbcA\tfalse"]);
    assert!(cs.find_site("chrB", 500, 1000, 1000).is_none());
}

#[test]
fn nearest_of_two_flanking_sites_wins() {
    let cs = catalog(&[
        "chrA\t100\tleft\tbc1\tfalse",
        "chrA\t200\tright\tbc2\tfalse",
    ]);
    let r = cs.find_site("chrA", 130, 50, 1000).expect("left is closer");
    assert_eq!(site(&cs, r).name, "left");
    let r = cs.find_site("chrA", 180, 50, 1000).expect("right is closer");
    assert_eq!(site(&cs, r).name, "right");
}

#[test]
fn midpoint_tie_goes_to_predecessor() {
    let cs = catalog(&[
        "chrA\t100\tleft\tbc1\tfalse",
        "chrA\t200\tright\tbc2\tfalse",
    ]);
    let r = cs.find_site("chrA", 150, 50, 1000).expect("tie");
    assert_eq!(site(&cs, r).name, "left");
}

#[test]
fn match_beyond_max_dist_is_rejected() {
    let cs = catalog(&["chrA\t500\tsiteA\tbcA\tfalse"]);
    assert!(cs.find_site("chrA", 560, 59, 1000).is_none());
    assert!(cs.find_site("chrA", 560, 60, 1000).is_some());
}

#[test]
fn circular_wraparound_reaches_first_site() {
    // Sites at 5 and 95 on a circular contig of length 1000: position 998
    // is 7 away from the site at 5 over the origin, but 903 away from the
    // site at 95.
    let cs = catalog(&[
        "ring\t5\tnear_origin\tbc1\ttrue",
        "ring\t95\tfar\tbc2\ttrue",
    ]);
    let r = cs.find_site("ring", 998, 7, 1000).expect("wraparound hit");
    assert_eq!(site(&cs, r).name, "near_origin");
    assert_eq!(site(&cs, r).pos, 5);
}

#[test]
fn linear_contig_does_not_wrap() {
    let cs = catalog(&[
        "lin\t5\tnear_origin\tbc1\tfalse",
        "lin\t95\tfar\tbc2\tfalse",
    ]);
    // Without circularity the only candidate is the predecessor at 95,
    // 903 bases away.
    assert!(cs.find_site("lin", 998, 7, 1000).is_none());
    assert!(cs.find_site("lin", 998, 902, 1000).is_none());
    let r = cs.find_site("lin", 998, 903, 1000).expect("predecessor in range");
    assert_eq!(site(&cs, r).name, "far");
}

#[test]
fn circular_wraparound_before_first_site() {
    // Position 2 is 3 away from the site at 5 ahead of it, and 7 away
    // from the site at 995 over the origin; the successor wins.
    let cs = catalog(&[
        "ring\t5\ta\tbc1\ttrue",
        "ring\t995\tb\tbc2\ttrue",
    ]);
    let r = cs.find_site("ring", 2, 10, 1000).expect("successor");
    assert_eq!(site(&cs, r).name, "a");
    // Position 1 is 4 away from the site at 5 and 6 away from 995.
    let r = cs.find_site("ring", 1, 10, 1000).expect("still successor");
    assert_eq!(site(&cs, r).name, "a");
    // From position 0 the site at 995 is 5 away over the origin, the site
    // at 5 is 5 ahead; the wraparound candidate wins a strict comparison
    // only when closer, so the tie goes to the successor.
    let r = cs.find_site("ring", 0, 10, 1000).expect("tie to successor");
    assert_eq!(site(&cs, r).name, "a");
}

#[test]
fn sites_are_sorted_after_build() {
    let cs = catalog(&[
        "chrA\t300\tc\tbc3\tfalse",
        "chrA\t100\ta\tbc1\tfalse",
        "chrA\t200\tb\tbc2\tfalse",
    ]);
    let positions: Vec<usize> = cs.contigs[0].cut_sites.iter().map(|s| s.pos).collect();
    assert_eq!(positions, vec![100, 200, 300]);
    let r = cs.find_site("chrA", 199, 10, 1000).expect("middle site");
    assert_eq!(site(&cs, r).name, "b");
}

#[test]
fn short_rows_are_skipped() {
    let cs = catalog(&[
        "",
        "chrA\t500\tsiteA\tbcA",
        "chrA\t600\tsiteB\tbcB\tfalse",
    ]);
    assert_eq!(cs.contigs.len(), 1);
    assert_eq!(cs.contigs[0].cut_sites.len(), 1);
    assert_eq!(cs.contigs[0].cut_sites[0].name, "siteB");
}

#[test]
fn circular_flag_literals() {
    for lit in ["true", "YES", "1", "True"] {
        let row = format!("c\t10\ts\tb\t{}", lit);
        let cs = read_cut_file(&vec![row]).expect("recognized literal");
        assert_eq!(cs.contigs[0].circular, Some(true), "literal {}", lit);
    }
    for lit in ["false", "NO", "0", "False"] {
        let row = format!("c\t10\ts\tb\t{}", lit);
        let cs = read_cut_file(&vec![row]).expect("recognized literal");
        assert_eq!(cs.contigs[0].circular, Some(false), "literal {}", lit);
    }
}

#[test]
fn unknown_circular_flag_is_fatal() {
    let r = read_cut_file(&lines(&["c\t10\ts\tb\tmaybe"]));
    assert_eq!(r.unwrap_err(), CutFileError::BadCircularFlag { line: 1 });
}

#[test]
fn inconsistent_circular_flag_is_fatal() {
    let r = read_cut_file(&lines(&[
        "c\t10\ts1\tb1\ttrue",
        "c\t20\ts2\tb2\tfalse",
    ]));
    assert_eq!(r.unwrap_err(), CutFileError::InconsistentCircular { line: 2 });
}

#[test]
fn bad_position_is_fatal() {
    let r = read_cut_file(&lines(&["c\tten\ts\tb\ttrue"]));
    assert_eq!(r.unwrap_err(), CutFileError::BadPosition { line: 1 });
}

#[test]
fn duplicate_positions_resolved_by_exact_match() {
    let cs = catalog(&[
        "c\t100\tfirst\tb1\tfalse",
        "c\t100\tsecond\tb2\tfalse",
    ]);
    let r = cs.find_site("c", 100, 0, 1000).expect("exact");
    assert_eq!(site(&cs, r).pos, 100);
}

#[test]
fn empty_catalog_has_no_match() {
    let cs = catalog(&[]);
    assert!(cs.find_site("c", 1, 1000, 1000).is_none());
}
