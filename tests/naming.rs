use cokacenc::naming::{
    chunk_file_name, filename_md5_prefix, final_chunk_name, group_chunk_names, parse_chunk_file_name,
    parse_enc_filename, single_file_enc_name, temp_chunk_name, temp_single_name,
};
use cokacenc::seq::{parse_seq_label, seq_label};

#[test]
fn test_seq_label() {
    assert_eq!(seq_label(0).unwrap(), b"aaaa");
    assert_eq!(seq_label(1).unwrap(), b"aaab");
    assert_eq!(seq_label(25).unwrap(), b"aaaz");
    assert_eq!(seq_label(26).unwrap(), b"aaba");
    assert_eq!(seq_label(675).unwrap(), b"aazz");
    assert_eq!(seq_label(676).unwrap(), b"abaa");
    assert_eq!(seq_label(456_975).unwrap(), b"zzzz");
    assert!(seq_label(456_976).is_err());
}

#[test]
fn test_parse_seq_label() {
    assert_eq!(parse_seq_label(b"aaaa"), Some(0));
    assert_eq!(parse_seq_label(b"aaaz"), Some(25));
    assert_eq!(parse_seq_label(b"aaba"), Some(26));
    assert_eq!(parse_seq_label(b"aazz"), Some(675));
    assert_eq!(parse_seq_label(b"zzzz"), Some(456_975));
    assert_eq!(parse_seq_label(b"a"), None);
    assert_eq!(parse_seq_label(b"aa"), None);
    assert_eq!(parse_seq_label(b"aaa"), None);
}

#[test]
fn test_filename_md5_prefix() {
    let prefix = filename_md5_prefix(b"myfile.txt");
    assert_eq!(prefix.len(), 5);
    assert!(prefix.iter().all(|c| c.is_ascii_hexdigit()));
}

#[test]
fn test_parse_split_filename() {
    let fnmd5 = String::from_utf8(filename_md5_prefix(b"myfile.txt")).unwrap();
    let name = format!("/tmp/{}.SPLTD.abcd1234.aaaa.myfile.txt.cokacenc", fnmd5);
    let info = parse_enc_filename(name.as_bytes()).unwrap();
    assert_eq!(info.original_name, b"myfile.txt");
    assert!(info.is_split);
    assert_eq!(info.md5_fragment, b"abcd1234");
    assert_eq!(info.seq_index, Some(0));
}

#[test]
fn test_parse_single_filename() {
    let fnmd5 = String::from_utf8(filename_md5_prefix(b"myfile.txt")).unwrap();
    let name = format!("/tmp/{}.abcd1234.myfile.txt.cokacenc", fnmd5);
    let info = parse_enc_filename(name.as_bytes()).unwrap();
    assert_eq!(info.original_name, b"myfile.txt");
    assert!(!info.is_split);
    assert_eq!(info.md5_fragment, b"abcd1234");
    assert_eq!(info.seq_index, None);
}

#[test]
fn test_roundtrip_single_name() {
    let dir = b"/tmp";
    let original = b"my document.pdf";
    let md5 = b"abcdef0123456789abcdef0123456789";
    let path = single_file_enc_name(dir, original, md5);
    let info = parse_enc_filename(&path).unwrap();
    assert_eq!(info.original_name, original);
    assert_eq!(info.md5_fragment, &md5[..8]);
    assert!(!info.is_split);
}

#[test]
fn test_roundtrip_split_name() {
    let dir = b"/tmp";
    let original = b"archive.tar.gz";
    let md5 = b"abcdef0123456789abcdef0123456789";
    let path = final_chunk_name(dir, original, md5, 0).unwrap();
    let info = parse_enc_filename(&path).unwrap();
    assert_eq!(info.original_name, original);
    assert_eq!(info.md5_fragment, &md5[..8]);
    assert!(info.is_split);
    assert_eq!(info.seq_index, Some(0));
}

#[test]
fn md5_prefix_of_known_name() {
    assert_eq!(filename_md5_prefix(b""), b"d41d8");
    assert_eq!(filename_md5_prefix(b"abc"), b"90015");
}

#[test]
fn seq_label_round_trips_over_whole_range() {
    for i in [0usize, 1, 17, 675, 676, 17_575, 17_576, 300_000, 456_975] {
        let l = seq_label(i).unwrap();
        assert_eq!(parse_seq_label(&l), Some(i));
    }
    assert_eq!(parse_seq_label(b"aaaA"), None);
    assert_eq!(parse_seq_label(b"aaaaa"), None);
}

#[test]
fn temp_names_have_their_layout() {
    let p = String::from_utf8(filename_md5_prefix(b"f.bin")).unwrap();
    let t = temp_chunk_name(b"/d", b"f.bin", 27).unwrap();
    assert_eq!(t, format!("/d/{}.SPLTD.TEMP.aabb.f.bin.cokacenc", p).into_bytes());
    let s = temp_single_name(b"/d/", b"f.bin");
    assert_eq!(s, format!("/d/{}.TEMP.f.bin.cokacenc", p).into_bytes());
    assert!(temp_chunk_name(b"/d", b"f.bin", 456_976).is_err());
    let short = single_file_enc_name(b"", b"f.bin", b"abc");
    assert_eq!(short, format!("{}.abc.f.bin.cokacenc", p).into_bytes());
}

#[test]
fn parse_rejects_names_off_the_grammar() {
    assert!(parse_enc_filename(b"/tmp/readme.txt").is_none());
    assert!(parse_enc_filename(b"/tmp/00000.abcd1234.myfile.txt.cokacenc").is_none());
    let p = String::from_utf8(filename_md5_prefix(b"x")).unwrap();
    let bad_hash = format!("{}.abcd12z4.x.cokacenc", p);
    assert!(parse_enc_filename(bad_hash.as_bytes()).is_none());
    let bad_seq = format!("{}.SPLTD.abcd1234.aaAa.x.cokacenc", p);
    assert!(parse_enc_filename(bad_seq.as_bytes()).is_none());
    let ok = format!("dir/{}.SPLTD.abcd1234.aabz.x.cokacenc", p);
    let info = parse_enc_filename(ok.as_bytes()).unwrap();
    assert_eq!(info.seq_index, Some(51));
    assert_eq!(info.path, ok.as_bytes());
}

#[test]
fn chunk_file_name_round_trip() {
    let g = b"0123456789abcdef";
    let n = chunk_file_name(g, 2).unwrap();
    assert_eq!(n, b"0123456789abcdef_aaac.cokacenc");
    assert_eq!(parse_chunk_file_name(&n), Some((g.to_vec(), 2)));
    assert!(chunk_file_name(g, 456_976).is_err());
    assert_eq!(parse_chunk_file_name(b"0123456789ABCDEF_aaac.cokacenc"), None);
    assert_eq!(parse_chunk_file_name(b"0123456789abcdef-aaac.cokacenc"), None);
    assert_eq!(parse_chunk_file_name(b"0123456789abcdef_aaac.cokacen"), None);
}

#[test]
fn grouping_buckets_and_orders_chunks() {
    let names: Vec<Vec<u8>> = vec![
        b"aaaaaaaaaaaaaaaa_aaac.cokacenc".to_vec(),
        b"readme.txt".to_vec(),
        b"bbbbbbbbbbbbbbbb_aaaa.cokacenc".to_vec(),
        b"aaaaaaaaaaaaaaaa_aaaa.cokacenc".to_vec(),
        b"aaaaaaaaaaaaaaaa_aaab.cokacenc".to_vec(),
    ];
    let groups = group_chunk_names(&names);
    assert_eq!(groups.len(), 2);
    let a = groups.iter().find(|g| g.group_id == b"aaaaaaaaaaaaaaaa").unwrap();
    assert_eq!(a.members, vec![(0, 3), (1, 4), (2, 0)]);
    let b = groups.iter().find(|g| g.group_id == b"bbbbbbbbbbbbbbbb").unwrap();
    assert_eq!(b.members, vec![(0, 2)]);
    assert!(group_chunk_names(&vec![b"x".to_vec()]).is_empty());
}

#[test]
fn packable_names_skip_hidden_and_chunks() {
    assert!(cokacenc::naming::is_packable_name(b"report.pdf"));
    assert!(!cokacenc::naming::is_packable_name(b".hidden"));
    assert!(!cokacenc::naming::is_packable_name(b"0123456789abcdef_aaaa.cokacenc"));
    assert!(!cokacenc::naming::is_packable_name(b".cokacenc"));
    assert!(cokacenc::naming::is_packable_name(b"cokacenc"));
}

#[test]
fn parse_ignores_trailing_slashes() {
    let p = String::from_utf8(filename_md5_prefix(b"x")).unwrap();
    let with_slash = format!("/tmp/{}.abcd1234.x.cokacenc//", p);
    let info = parse_enc_filename(with_slash.as_bytes()).unwrap();
    assert_eq!(info.original_name, b"x");
    assert!(parse_enc_filename(b"/").is_none());
}

#[test]
fn packable_selection_is_sorted_by_name() {
    let names: Vec<Vec<u8>> = vec![
        b"zeta.txt".to_vec(),
        b".hidden".to_vec(),
        b"alpha".to_vec(),
        b"0123456789abcdef_aaaa.cokacenc".to_vec(),
        b"Beta".to_vec(),
        b"alpha2".to_vec(),
    ];
    assert_eq!(cokacenc::naming::select_packable(&names), vec![4, 2, 5, 0]);
    assert!(cokacenc::naming::select_packable(&Vec::new()).is_empty());
}
