use cokacenc::stream::{ChunkOpener, ChunkSealer};
use cokacenc::chunk::{derive_key, frame_plaintext, open_chunk, seal_chunk};
use cokacenc::error::CokacencError;
use cokacenc::framer::MetadataSplitWriter;
use cokacenc::header::{read_header, write_header};
use cokacenc::hex::hex_lower;
use cokacenc::keygen::base64_encode;
use cokacenc::naming::generate_group_id;
use cokacenc::plan::{chunk_span, plan_chunks, split_size_bytes, total_chunks, FileInfo};
use cokacenc::unpack::{check_chunk_metadata, check_sequence, verify_merged};
use md5::{Digest, Md5};

fn md5_hex(data: &[u8]) -> Vec<u8> {
    hex_lower(&Md5::digest(data))
}

fn info(size: u64, md5: &[u8]) -> FileInfo {
    FileInfo { size, md5: md5.to_vec(), modified: 1_700_000_000, permissions: 0o644 }
}

#[test]
fn base64_known_values() {
    assert_eq!(base64_encode(b""), b"");
    assert_eq!(base64_encode(b"M"), b"TQ");
    assert_eq!(base64_encode(b"Ma"), b"TWE");
    assert_eq!(base64_encode(b"Man"), b"TWFu");
    assert_eq!(base64_encode(&[0xfb, 0xff, 0xbf]), b"+/+/");
    assert_eq!(base64_encode(b"hello world"), b"aGVsbG8gd29ybGQ");
}

#[test]
fn hex_of_bytes() {
    assert_eq!(hex_lower(&[0x00, 0x9f, 0xab, 0x10]), b"009fab10");
    assert_eq!(hex_lower(&[]), b"");
}

#[test]
fn header_round_trip_and_rejections() {
    let salt = [7u8; 16];
    let iv = [9u8; 16];
    let h = write_header(&salt, &iv);
    assert_eq!(h.len(), 44);
    assert_eq!(&h[..8], b"COKACENC");
    assert_eq!(&h[8..12], &[2, 0, 0, 0]);
    assert_eq!(read_header(&h), Ok((salt.to_vec(), iv.to_vec())));
    let mut bad = h.clone();
    bad[0] = b'X';
    assert_eq!(read_header(&bad), Err(CokacencError::Format));
    let mut v3 = h.clone();
    v3[8] = 3;
    assert_eq!(read_header(&v3), Err(CokacencError::Format));
    assert_eq!(read_header(&h[..43]), Err(CokacencError::Format));
}

#[test]
fn derive_key_is_deterministic_and_salted() {
    let a = derive_key(b"secret", &[1u8; 16]);
    let b = derive_key(b"secret", &[1u8; 16]);
    let c = derive_key(b"secret", &[2u8; 16]);
    assert_eq!(a.len(), 32);
    assert_eq!(a, b);
    assert_ne!(a, c);
}

#[test]
fn seal_then_open_gives_record_and_data() {
    let c = seal_chunk(b"pw", &[3u8; 16], &[4u8; 16], b"{\"v\":2}", b"file bytes");
    assert_eq!(&c[..8], b"COKACENC");
    assert_eq!((c.len() - 44) % 16, 0);
    assert!(!c.windows(10).any(|w| w == b"file bytes"));
    let (m, d) = open_chunk(b"pw", &c).unwrap();
    assert_eq!(m, b"{\"v\":2}");
    assert_eq!(d, b"file bytes");
}

#[test]
fn open_rejects_bad_header_and_bad_ciphertext() {
    let c = seal_chunk(b"pw", &[3u8; 16], &[4u8; 16], b"meta", b"");
    assert_eq!(open_chunk(b"pw", &c[..20]), Err(CokacencError::Format));
    let mut cut = c.clone();
    cut.truncate(c.len() - 1);
    assert_eq!(open_chunk(b"pw", &cut), Err(CokacencError::Crypto));
}

#[test]
fn tampered_chunk_never_opens_to_the_same_content_silently() {
    let data: Vec<u8> = (0u8..40).collect();
    let c = seal_chunk(b"pw", &[5u8; 16], &[6u8; 16], b"m", &data);
    for pos in [44usize, 60, c.len() - 1] {
        let mut t = c.clone();
        t[pos] ^= 0x01;
        match open_chunk(b"pw", &t) {
            Err(_) => {}
            Ok((_, d)) => {
                let declared = md5_hex(&data);
                let r = verify_merged(&declared, &md5_hex(&d), data.len() as u64, d.len() as u64);
                assert!(r.is_err());
            }
        }
    }
}

#[test]
fn framer_accepts_any_span_sizes() {
    let plain = frame_plaintext(b"abcde", b"0123456789");
    let mut whole = MetadataSplitWriter::new();
    let mut sink_whole = Vec::new();
    whole.write(&plain, &mut sink_whole);
    let mut bytewise = MetadataSplitWriter::new();
    let mut sink_bytes = Vec::new();
    for b in &plain {
        bytewise.write(std::slice::from_ref(b), &mut sink_bytes);
    }
    assert_eq!(sink_whole, b"0123456789");
    assert_eq!(sink_bytes, b"0123456789");
    assert_eq!(whole.take_metadata_bytes().unwrap(), b"abcde");
    assert_eq!(bytewise.take_metadata_bytes().unwrap(), b"abcde");
}

#[test]
fn framer_reports_incomplete_record() {
    let mut w = MetadataSplitWriter::new();
    let mut sink = Vec::new();
    w.write(&[10, 0, 0, 0, b'a'], &mut sink);
    assert!(sink.is_empty());
    assert_eq!(w.take_metadata_bytes(), Err(CokacencError::IncompleteMetadata));
    let mut e = MetadataSplitWriter::new();
    e.write(&[0, 0], &mut sink);
    assert_eq!(e.take_metadata_bytes(), Err(CokacencError::IncompleteMetadata));
}

#[test]
fn split_boundary_ten_of_twenty_five() {
    let plan = plan_chunks(&b"g".to_vec(), &b"f".to_vec(), &info(25, b""), 10).unwrap();
    let sizes: Vec<u64> = plan.iter().map(|m| m.chunk_data_size).collect();
    let offsets: Vec<u64> = plan.iter().map(|m| m.chunk_offset).collect();
    assert_eq!(sizes, vec![10, 10, 5]);
    assert_eq!(offsets, vec![0, 10, 20]);
    assert!(plan.iter().enumerate().all(|(i, m)| m.chunk_index == i && m.total_chunks == 3));
}

#[test]
fn zero_byte_file_is_one_empty_chunk() {
    let plan = plan_chunks(&b"g".to_vec(), &b"f".to_vec(), &info(0, b""), 10).unwrap();
    assert_eq!(plan.len(), 1);
    assert_eq!(plan[0].total_chunks, 1);
    assert_eq!(plan[0].chunk_data_size, 0);
    assert_eq!(plan[0].chunk_offset, 0);
}

#[test]
fn exact_multiple_boundary() {
    assert_eq!(total_chunks(10, 10), 1);
    assert_eq!(total_chunks(11, 10), 2);
    assert_eq!(chunk_span(0, 10, 11), (0, 10));
    assert_eq!(chunk_span(1, 10, 11), (10, 1));
    assert_eq!(total_chunks(u64::MAX, u64::MAX), 1);
    assert_eq!(total_chunks(5, u64::MAX), 1);
}

#[test]
fn too_many_chunks_is_seq_overflow() {
    let r = plan_chunks(&b"g".to_vec(), &b"f".to_vec(), &info(456_977, b""), 1);
    assert_eq!(r, Err(CokacencError::SeqOverflow(456_976)));
}

#[test]
fn split_size_in_mebibytes() {
    assert_eq!(split_size_bytes(0), u64::MAX);
    assert_eq!(split_size_bytes(1), 1_048_576);
    assert_eq!(split_size_bytes(1800), 1800 * 1_048_576);
    assert_eq!(split_size_bytes(u64::MAX), u64::MAX);
}

#[test]
fn missing_middle_chunk_names_its_label() {
    assert_eq!(check_sequence(&vec![0, 2]), Err(CokacencError::MissingChunk(b"aaab".to_vec())));
    assert_eq!(check_sequence(&vec![1, 2]), Err(CokacencError::MissingChunk(b"aaaa".to_vec())));
    assert_eq!(check_sequence(&vec![]), Err(CokacencError::NoEncFiles));
    assert_eq!(check_sequence(&vec![0, 1, 2]), Ok(()));
}

#[test]
fn inconsistent_records_are_refused() {
    let plan = plan_chunks(&b"g".to_vec(), &b"f".to_vec(), &info(25, b"abcd"), 10).unwrap();
    assert_eq!(check_chunk_metadata(0, &plan[0], &plan[0]), Ok(()));
    assert_eq!(check_chunk_metadata(1, &plan[0], &plan[1]), Ok(()));
    assert_eq!(check_chunk_metadata(2, &plan[0], &plan[1]), Err(CokacencError::MetadataInconsistency));
    let mut renamed = plan[1].clone();
    renamed.filename = b"other".to_vec();
    assert_eq!(check_chunk_metadata(1, &plan[0], &renamed), Err(CokacencError::MetadataInconsistency));
    let mut rehashed = plan[1].clone();
    rehashed.file_md5 = b"ffff".to_vec();
    assert_eq!(check_chunk_metadata(1, &plan[0], &rehashed), Err(CokacencError::MetadataInconsistency));
}

#[test]
fn merged_content_checks() {
    let d = md5_hex(b"abc");
    let good = b"900150983cd24fb0d6963f7d28e17f72".to_vec();
    assert_eq!(verify_merged(&good, &d, 3, 3), Ok(()));
    assert_eq!(verify_merged(&Vec::new(), &d, 3, 3), Ok(()));
    assert_eq!(
        verify_merged(&b"00".to_vec(), &d, 3, 3),
        Err(CokacencError::HashMismatch(b"00".to_vec(), good.clone()))
    );
    assert_eq!(verify_merged(&good, &d, 4, 3), Err(CokacencError::SizeMismatch(4, 3)));
}

#[test]
fn group_ids_are_fresh_hex() {
    let existing = vec![b"0000000000000000".to_vec()];
    let g = generate_group_id(&existing, 8).unwrap();
    assert_eq!(g.len(), 16);
    assert!(g.iter().all(|c| c.is_ascii_digit() || (b'a'..=b'f').contains(c)));
    assert!(!existing.contains(&g));
    assert_eq!(generate_group_id(&existing, 0), None);
}

#[test]
fn pack_then_unpack_twenty_five_bytes() {
    let data: Vec<u8> = (0u8..25).map(|b| b.wrapping_mul(37)).collect();
    let declared = md5_hex(&data);
    let plan = plan_chunks(&b"0011223344556677".to_vec(), &b"f.bin".to_vec(), &info(25, &declared), 10)
        .unwrap();
    let mut chunks = Vec::new();
    for m in &plan {
        let s = m.chunk_offset as usize;
        let e = s + m.chunk_data_size as usize;
        let meta = format!("{}", m.chunk_index).into_bytes();
        chunks.push(seal_chunk(b"pw", &[m.chunk_index as u8; 16], &[1u8; 16], &meta, &data[s..e]));
    }
    assert_eq!(check_sequence(&vec![0, 1, 2]), Ok(()));
    let mut merged = Vec::new();
    for (i, c) in chunks.iter().enumerate() {
        let (meta, d) = open_chunk(b"pw", c).unwrap();
        assert_eq!(meta, format!("{}", i).into_bytes());
        merged.extend_from_slice(&d);
    }
    assert_eq!(merged, data);
    assert_eq!(verify_merged(&declared, &md5_hex(&merged), 25, merged.len() as u64), Ok(()));
}

#[test]
fn random_blocks_are_sixteen_bytes() {
    let a = cokacenc::chunk::random_block();
    let b = cokacenc::chunk::random_block();
    assert_eq!(a.len(), 16);
    assert_eq!(b.len(), 16);
    assert_ne!(a, b);
}

#[test]
fn unpack_session_accepts_in_order_and_validates() {
    let data: Vec<u8> = (0u8..25).collect();
    let declared = md5_hex(&data);
    let plan = plan_chunks(&b"g".to_vec(), &b"f".to_vec(), &info(25, &declared), 10).unwrap();
    let mut s = cokacenc::unpack::UnpackSession::new();
    assert_eq!(s.accept(plan[1].clone()), Err(CokacencError::MetadataInconsistency));
    s.feed(&data[0..10]);
    assert_eq!(s.accept(plan[0].clone()), Ok(()));
    s.feed(&data[10..20]);
    assert_eq!(s.accept(plan[1].clone()), Ok(()));
    s.feed(&data[20..25]);
    assert_eq!(s.accept(plan[2].clone()), Ok(()));
    assert_eq!(s.finish(25), Ok(plan[0].clone()));

    let mut t = cokacenc::unpack::UnpackSession::new();
    t.feed(b"other");
    assert_eq!(t.accept(plan[0].clone()), Ok(()));
    assert!(matches!(t.finish(25), Err(CokacencError::HashMismatch(_, _))));
    let mut u = cokacenc::unpack::UnpackSession::new();
    u.feed(&data);
    assert_eq!(u.accept(plan[0].clone()), Ok(()));
    assert_eq!(u.finish(24), Err(CokacencError::SizeMismatch(25, 24)));
    let empty = cokacenc::unpack::UnpackSession::new();
    assert_eq!(empty.finish(0), Err(CokacencError::NoEncFiles));
}

#[test]
fn content_hasher_matches_one_shot_md5() {
    let mut h = cokacenc::hasher::ContentHasher::new();
    h.update(b"a");
    h.update(b"");
    h.update(b"bc");
    assert_eq!(h.finish(), b"900150983cd24fb0d6963f7d28e17f72");
    assert_eq!(cokacenc::hasher::ContentHasher::new().finish(), b"d41d8cd98f00b204e9800998ecf8427e");
}

#[test]
fn group_id_candidate_is_hex_of_the_draw_when_fresh() {
    let raw = [0x01u8, 0x23, 0x45, 0x67, 0x89, 0xab, 0xcd, 0xef];
    let none: Vec<Vec<u8>> = Vec::new();
    assert_eq!(
        cokacenc::naming::group_id_candidate(&raw, &none),
        Some(b"0123456789abcdef".to_vec())
    );
    let taken = vec![b"0123456789abcdef".to_vec()];
    assert_eq!(cokacenc::naming::group_id_candidate(&raw, &taken), None);
    assert!(generate_group_id(&none, 1).is_some());
}

#[test]
fn streamed_chunk_equals_whole_chunk_and_opens_in_pieces() {
    let data: Vec<u8> = (0u8..=200).collect();
    let whole = seal_chunk(b"pw", &[8u8; 16], &[9u8; 16], b"record", &data);
    let (mut s, mut out) = ChunkSealer::new(b"pw", &[8u8; 16], &[9u8; 16], b"record");
    for piece in data.chunks(7) {
        out.extend(s.update(piece));
    }
    out.extend(s.finish());
    assert_eq!(out, whole);

    let mut o = ChunkOpener::new(b"pw", &out[..44]).unwrap();
    let mut sink = Vec::new();
    for piece in out[44..].chunks(5) {
        o.update(piece, &mut sink);
    }
    assert_eq!(o.finish(&mut sink).unwrap(), b"record");
    assert_eq!(sink, data);

    let mut bad = ChunkOpener::new(b"pw", &out[..44]).unwrap();
    bad.update(&out[44..out.len() - 1], &mut Vec::new());
    assert_eq!(bad.finish(&mut Vec::new()), Err(CokacencError::Crypto));
    assert!(matches!(ChunkOpener::new(b"pw", &out[..43]), Err(CokacencError::Format)));
}

fn stream_round_trip(data: &[u8], split: u64) {
    let declared = md5_hex(data);
    let plan = plan_chunks(&b"0011223344556677".to_vec(), &b"n".to_vec(), &info(data.len() as u64, &declared), split)
        .unwrap();
    let mut files = Vec::new();
    let mut pos = 0usize;
    for m in &plan {
        let (mut s, mut out) = ChunkSealer::new(b"pw", &[2u8; 16], &[7u8; 16], &m.chunk_index.to_le_bytes());
        let end = pos + m.chunk_data_size as usize;
        out.extend(s.update(&data[pos..end]));
        pos = end;
        out.extend(s.finish());
        files.push(out);
    }
    let mut session = cokacenc::unpack::UnpackSession::new();
    let mut merged = Vec::new();
    for (i, f) in files.iter().enumerate() {
        let mut o = ChunkOpener::new(b"pw", &f[..44]).unwrap();
        let mut sink = Vec::new();
        o.update(&f[44..], &mut sink);
        let meta = o.finish(&mut sink).unwrap();
        assert_eq!(meta, i.to_le_bytes());
        session.feed(&sink);
        merged.extend_from_slice(&sink);
        assert_eq!(session.accept(plan[i].clone()), Ok(()));
    }
    assert_eq!(merged, data);
    assert_eq!(session.finish(merged.len() as u64), Ok(plan[0].clone()));
}

#[test]
fn streamed_pack_unpack_twenty_five_bytes_in_three_chunks() {
    let data: Vec<u8> = (0u8..25).map(|b| b.wrapping_mul(11)).collect();
    stream_round_trip(&data, 10);
}

#[test]
fn streamed_pack_unpack_zero_byte_file() {
    stream_round_trip(&[], 10);
}
