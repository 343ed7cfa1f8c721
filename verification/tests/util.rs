use ont_demult::compress::{CompressError, CompressPaths, CompressType};
use ont_demult::fastq::{FastqError, FastqFile};
use ont_demult::log_level::LogLevel;
use ont_demult::params::{ParamBuilder, DEFAULT_PREFIX};
use ont_demult::strategy::Strategy;
use ont_demult::text::{eq_ignore_case, parse_u8, parse_usize, split_fields, str_eq, trim};

fn lines(rows: &[&str]) -> Vec<String> {
    rows.iter().map(|s| s.to_string()).collect()
}

#[test]
fn parse_usize_accepts_plain_and_signed_plus() {
    assert_eq!(parse_usize("0"), Some(0));
    assert_eq!(parse_usize("12345"), Some(12345));
    assert_eq!(parse_usize("+7"), Some(7));
    assert_eq!(parse_usize(""), None);
    assert_eq!(parse_usize("+"), None);
    assert_eq!(parse_usize("-1"), None);
    assert_eq!(parse_usize("12x"), None);
    assert_eq!(parse_usize(" 12"), None);
}

#[test]
fn parse_usize_detects_overflow() {
    assert_eq!(parse_usize("18446744073709551615"), Some(usize::MAX));
    assert_eq!(parse_usize("18446744073709551616"), None);
    assert_eq!(parse_usize("99999999999999999999999999"), None);
}

#[test]
fn parse_u8_bounds() {
    assert_eq!(parse_u8("255"), Some(255));
    assert_eq!(parse_u8("256"), None);
    assert_eq!(parse_u8("0"), Some(0));
}

#[test]
fn trim_strips_both_ends() {
    assert_eq!(trim("  a b \t\n"), "a b");
    assert_eq!(trim(""), "");
    assert_eq!(trim(" \t "), "");
    assert_eq!(trim("x"), "x");
}

#[test]
fn split_fields_keeps_empty_fields() {
    let f = split_fields("a\tb\tc");
    assert_eq!(f, vec!["a", "b", "c"]);
    let f = split_fields("");
    assert_eq!(f, vec![""]);
    let f = split_fields("\t");
    assert_eq!(f, vec!["", ""]);
    let f = split_fields("a\t\tb");
    assert_eq!(f, vec!["a", "", "b"]);
}

#[test]
fn string_comparisons() {
    assert!(str_eq("abc", "abc"));
    assert!(!str_eq("abc", "abd"));
    assert!(!str_eq("abc", "ab"));
    assert!(eq_ignore_case("TRUE", "true"));
    assert!(eq_ignore_case("TrUe", "tRuE"));
    assert!(!eq_ignore_case("true", "truth"));
    assert!(!eq_ignore_case("1", "l"));
}

#[test]
fn log_level_parsing_and_projection() {
    assert_eq!(LogLevel::from_str("error").unwrap().level, 0);
    assert_eq!(LogLevel::from_str("WARN").unwrap().level, 1);
    assert_eq!(LogLevel::from_str("Info").unwrap().level, 2);
    assert_eq!(LogLevel::from_str("debug").unwrap().level, 3);
    assert_eq!(LogLevel::from_str("trace").unwrap().level, 4);
    assert_eq!(LogLevel::from_str("none").unwrap().level, 5);
    assert!(LogLevel::from_str("verbose").is_none());
    let none = LogLevel { level: 5 };
    assert!(none.is_none());
    assert_eq!(none.get_level(), 0);
    let info = LogLevel { level: 2 };
    assert!(!info.is_none());
    assert_eq!(info.get_level(), 2);
    assert_eq!(info.name(), "info");
    assert_eq!(LogLevel { level: 9 }.name(), "unknown");
}

#[test]
fn compress_type_from_magic_bytes() {
    let cases: [(&[u8], CompressType); 8] = [
        (&[0x1f, 0x8b, 0x08, 0, 0, 0], CompressType::GZIP),
        (&[0x1f, 0x9d, 0, 0, 0, 0], CompressType::COMPRESS),
        (b"BZh9\x00\x00", CompressType::BZIP2),
        (&[0xfd, b'7', b'z', b'X', b'Z', 0x00], CompressType::XZ),
        (&[0x28, 0xb5, 0x2f, 0xfd, 0, 0], CompressType::ZSTD),
        (&[0x04, 0x22, 0x4d, 0x18, 0, 0], CompressType::LZ4),
        (&[0x5d, 0x00, 0x00, 1, 2, 3], CompressType::LZMA),
        (b"@read1", CompressType::UNCOMPRESSED),
    ];
    for (bytes, expect) in cases.iter() {
        let v: Vec<u8> = bytes.to_vec();
        assert_eq!(
            ont_demult::compress::get_compress_type(&v),
            *expect,
            "bytes {:?}",
            bytes
        );
    }
    // Short reads are never taken as compressed.
    let v: Vec<u8> = vec![0x1f, 0x8b, 0x08];
    assert_eq!(ont_demult::compress::get_compress_type(&v), CompressType::UNCOMPRESSED);
}

#[test]
fn exec_path_fallback_order() {
    let paths = CompressPaths {
        gzip: Some("/usr/bin/gzip".to_string()),
        pigz: None,
        xz: None,
        bzip2: None,
        zstd: Some("/usr/bin/zstd".to_string()),
        lz4: None,
        lzma: None,
    };
    assert_eq!(CompressType::GZIP.get_exec_path(&paths).unwrap(), "/usr/bin/gzip");
    assert_eq!(CompressType::XZ.get_exec_path(&paths).unwrap(), "/usr/bin/zstd");
    assert_eq!(
        CompressType::BZIP2.get_exec_path(&paths).unwrap_err(),
        CompressError::MissingExecutable
    );
    assert_eq!(
        CompressType::UNCOMPRESSED.get_exec_path(&paths).unwrap_err(),
        CompressError::NoFilterForUncompressed
    );
    let with_pigz = CompressPaths { pigz: Some("/opt/pigz".to_string()), ..paths };
    assert_eq!(CompressType::GZIP.get_exec_path(&with_pigz).unwrap(), "/opt/pigz");
}

#[test]
fn builder_defaults_and_overrides() {
    let p = ParamBuilder::new().build();
    assert_eq!(p.prefix, DEFAULT_PREFIX);
    assert_eq!(p.select, Strategy::Start);
    assert_eq!(p.mapq_thresh, 0);
    assert_eq!(p.max_distance, 0);
    assert_eq!(p.max_unmatched, 0);
    assert_eq!(p.margin, 0);
    assert!(!p.compress);
    assert!(!p.matched_only);
    assert!(p.paf_file.is_none());
    assert!(p.fastq_file.is_none());
    assert!(p.cut_sites.is_none());

    let mut pb = ParamBuilder::new();
    pb.paf_file("in.paf");
    pb.fastq_file("in.fastq");
    pb.prefix("run1");
    pb.compress(true);
    pb.matched_only(true);
    pb.mapq_thresh(10);
    pb.max_distance(50);
    pb.max_unmatched(200);
    pb.margin(5);
    pb.select(Strategy::Xor);
    let p = pb.build();
    assert_eq!(p.paf_file().unwrap(), "in.paf");
    assert_eq!(p.fastq_file().unwrap(), "in.fastq");
    assert_eq!(p.prefix(), "run1");
    assert!(p.compress());
    assert!(p.matched_only());
    assert_eq!(p.mapq_thresh(), 10);
    assert_eq!(p.max_distance(), 50);
    assert_eq!(p.max_unmatched(), 200);
    assert_eq!(p.margin(), 5);
    assert_eq!(p.select(), Strategy::Xor);
}

#[test]
fn fastq_cursor_reads_records() {
    let mut fq = FastqFile::open(lines(&[
        "@read1 extra info",
        "ACGT",
        "+",
        "IIII",
        "@read2/1",
        "GGCC",
        "+read2",
        "JJJJ",
    ]));
    assert!(fq.next_read().unwrap());
    assert_eq!(fq.hdr, "@read1 extra info");
    assert_eq!(fq.seq, "ACGT");
    assert_eq!(fq.qual, "IIII");
    assert_eq!(fq.read_id(), "read1");
    assert!(fq.next_read().unwrap());
    assert_eq!(fq.read_id(), "read2");
    assert!(!fq.next_read().unwrap());
}

#[test]
fn fastq_read_id_edge_cases() {
    let mut fq = FastqFile::open(lines(&["@abc/2", "A", "+", "I"]));
    assert!(fq.next_read().unwrap());
    assert_eq!(fq.read_id(), "abc");
    let mut fq = FastqFile::open(lines(&["@a/b/3", "A", "+", "I"]));
    assert!(fq.next_read().unwrap());
    assert_eq!(fq.read_id(), "a/b/3");
    let mut fq = FastqFile::open(lines(&["@x/1 trail", "A", "+", "I"]));
    assert!(fq.next_read().unwrap());
    assert_eq!(fq.read_id(), "x");
}

#[test]
fn fastq_validation_errors() {
    // Each error cites the offending line: the header itself, the line
    // past a truncated input, the separator line, or the quality line.
    let mut fq = FastqFile::open(lines(&["read1", "ACGT", "+", "IIII"]));
    assert_eq!(fq.next_read().unwrap_err(), FastqError::BadHeader { line: 1 });
    let mut fq = FastqFile::open(lines(&["@read1", "ACGT"]));
    assert_eq!(fq.next_read().unwrap_err(), FastqError::Incomplete { line: 3 });
    let mut fq = FastqFile::open(lines(&["@read1", "ACGT", "x", "IIII"]));
    assert_eq!(fq.next_read().unwrap_err(), FastqError::BadSeparator { line: 3 });
    let mut fq = FastqFile::open(lines(&["@read1", "ACGT", "+", "III"]));
    assert_eq!(fq.next_read().unwrap_err(), FastqError::LengthMismatch { line: 4 });
    // A second record cut short is cited past the input's last line.
    let mut fq = FastqFile::open(lines(&["@r1", "A", "+", "I", "@r2", "AC"]));
    assert!(fq.next_read().unwrap());
    assert_eq!(fq.next_read().unwrap_err(), FastqError::Incomplete { line: 7 });
}
