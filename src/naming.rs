use vstd::prelude::*;

use md5::{Digest, Md5};

use crate::bytes::{append_all, bytes_eq, copy_range, matches_at};
use crate::order::{bytes_le, lemma_lex_total, lemma_lex_trans, lex_le};
use crate::error::CokacencError;
use crate::hex::{
    all_hex, hex_lower, hex_of, is_hex_char, is_lower_hex_char, lemma_hex_len, lemma_hex_lower,
};
use crate::seq::{index_of_label, is_label, label_of, parse_seq_label, seq_label, SEQ_CAPACITY};

verus! {

/// The MD5 digest of some bytes.
pub uninterp spec fn md5_of(data: Seq<u8>) -> Seq<u8>;

/// Relies on md5::Md5::digest (RustCrypto md-5): the 16-byte digest of its input.
#[verifier::external_body]
fn md5_digest(data: &[u8]) -> (r: Vec<u8>)
    ensures
        r@ == md5_of(data@),
        r@.len() == 16,
{
    Md5::digest(data).to_vec()
}

/// Relies on rand::random (thread-local CSPRNG) for group ids, salts and IVs:
/// nothing is promised of the value drawn.
pub assume_specification<T>[ rand::random::<T> ]() -> (r: T)
    where
        rand::distributions::Standard: rand::distributions::Distribution<T>,
;

/// The extension of every chunk file: ".cokacenc".
pub open spec fn ext() -> Seq<u8> {
    seq![46u8, 99u8, 111u8, 107u8, 97u8, 99u8, 101u8, 110u8, 99u8]
}

/// The marker of a split name: "SPLTD.".
pub open spec fn spltd() -> Seq<u8> {
    seq![83u8, 80u8, 76u8, 84u8, 68u8, 46u8]
}

/// The marker of a temporary name: "TEMP.".
pub open spec fn temp() -> Seq<u8> {
    seq![84u8, 69u8, 77u8, 80u8, 46u8]
}

/// A one-byte sequence.
pub open spec fn one(b: u8) -> Seq<u8> {
    seq![b]
}

fn lit_ext() -> (r: Vec<u8>)
    ensures
        r@ == ext(),
{
    let mut v: Vec<u8> = Vec::new();
    v.push(46);
    v.push(99);
    v.push(111);
    v.push(107);
    v.push(97);
    v.push(99);
    v.push(101);
    v.push(110);
    v.push(99);
    assert(v@ =~= ext());
    v
}

fn lit_spltd() -> (r: Vec<u8>)
    ensures
        r@ == spltd(),
{
    let mut v: Vec<u8> = Vec::new();
    v.push(83);
    v.push(80);
    v.push(76);
    v.push(84);
    v.push(68);
    v.push(46);
    assert(v@ =~= spltd());
    v
}

fn lit_temp() -> (r: Vec<u8>)
    ensures
        r@ == temp(),
{
    let mut v: Vec<u8> = Vec::new();
    v.push(84);
    v.push(69);
    v.push(77);
    v.push(80);
    v.push(46);
    assert(v@ =~= temp());
    v
}

/// First five hex digits of the MD5 of a file name.
pub open spec fn name_prefix_of(name: Seq<u8>) -> Seq<u8> {
    hex_of(md5_of(name)).subrange(0, 5)
}

/// The first five lowercase hex digits of MD5(`name`).
pub fn filename_md5_prefix(name: &[u8]) -> (r: Vec<u8>)
    ensures
        r@ == name_prefix_of(name@),
        r@.len() == 5,
        forall|k: int| 0 <= k < 5 ==> #[trigger] is_lower_hex_char(r@[k]),
{
    let d = md5_digest(name);
    let h = hex_lower(d.as_slice());
    proof {
        lemma_hex_lower(d@);
    }
    copy_range(h.as_slice(), 0, 5)
}

/// `name` placed in the directory `dir`.
pub open spec fn join_path(dir: Seq<u8>, name: Seq<u8>) -> Seq<u8> {
    if dir.len() == 0 {
        name
    } else if dir.last() == 47 {
        dir + name
    } else {
        dir + one(47) + name
    }
}

fn join(dir: &[u8], name: &Vec<u8>) -> (r: Vec<u8>)
    ensures
        r@ == join_path(dir@, name@),
{
    let mut out: Vec<u8> = Vec::new();
    append_all(&mut out, dir);
    if dir.len() > 0 && dir[dir.len() - 1] != 47 {
        out.push(47);
    }
    append_all(&mut out, name.as_slice());
    assert(out@ =~= join_path(dir@, name@));
    out
}

/// The first eight characters of a content hash, or all of a shorter one.
pub open spec fn hash_prefix(h: Seq<u8>) -> Seq<u8> {
    if h.len() < 8 {
        h
    } else {
        h.subrange(0, 8)
    }
}

fn copy_hash_prefix(h: &[u8]) -> (r: Vec<u8>)
    ensures
        r@ == hash_prefix(h@),
{
    if h.len() < 8 {
        let r = copy_range(h, 0, h.len());
        assert(h@.subrange(0, h@.len() as int) =~= h@);
        r
    } else {
        copy_range(h, 0, 8)
    }
}

/// `<prefix>.SPLTD.TEMP.<seq>.<name>.cokacenc`
pub open spec fn temp_chunk_base(name: Seq<u8>, i: int) -> Seq<u8> {
    name_prefix_of(name) + one(46) + spltd() + temp() + label_of(i) + one(46) + name + ext()
}

/// `<prefix>.TEMP.<name>.cokacenc`
pub open spec fn temp_single_base(name: Seq<u8>) -> Seq<u8> {
    name_prefix_of(name) + one(46) + temp() + name + ext()
}

/// `<prefix>.SPLTD.<hash8>.<seq>.<name>.cokacenc`
pub open spec fn final_chunk_base(name: Seq<u8>, h: Seq<u8>, i: int) -> Seq<u8> {
    name_prefix_of(name) + one(46) + spltd() + hash_prefix(h) + one(46) + label_of(i) + one(46)
        + name + ext()
}

/// `<prefix>.<hash8>.<name>.cokacenc`
pub open spec fn single_enc_base(name: Seq<u8>, h: Seq<u8>) -> Seq<u8> {
    name_prefix_of(name) + one(46) + hash_prefix(h) + one(46) + name + ext()
}

/// Temporary name of chunk `seq` of `original_name` while it is being packed.
pub fn temp_chunk_name(dir: &[u8], original_name: &[u8], seq: usize) -> (r: Result<
    Vec<u8>,
    CokacencError,
>)
    ensures
        seq < SEQ_CAPACITY ==> r is Ok && r->Ok_0@ == join_path(
            dir@,
            temp_chunk_base(original_name@, seq as int),
        ),
        seq >= SEQ_CAPACITY ==> r == Err::<Vec<u8>, CokacencError>(CokacencError::SeqOverflow(seq)),
{
    let label = match seq_label(seq) {
        Ok(l) => l,
        Err(e) => {
            return Err(e);
        },
    };
    let mut b = filename_md5_prefix(original_name);
    b.push(46);
    append_all(&mut b, lit_spltd().as_slice());
    append_all(&mut b, lit_temp().as_slice());
    append_all(&mut b, label.as_slice());
    b.push(46);
    append_all(&mut b, original_name);
    append_all(&mut b, lit_ext().as_slice());
    assert(b@ =~= temp_chunk_base(original_name@, seq as int));
    Ok(join(dir, &b))
}

/// Temporary name of an unsplit file while it is being packed.
pub fn temp_single_name(dir: &[u8], original_name: &[u8]) -> (r: Vec<u8>)
    ensures
        r@ == join_path(dir@, temp_single_base(original_name@)),
{
    let mut b = filename_md5_prefix(original_name);
    b.push(46);
    append_all(&mut b, lit_temp().as_slice());
    append_all(&mut b, original_name);
    append_all(&mut b, lit_ext().as_slice());
    assert(b@ =~= temp_single_base(original_name@));
    join(dir, &b)
}

/// Name of chunk `seq` of `original_name`, tagged with its content hash.
pub fn final_chunk_name(dir: &[u8], original_name: &[u8], md5_hex: &[u8], seq: usize) -> (r:
    Result<Vec<u8>, CokacencError>)
    ensures
        seq < SEQ_CAPACITY ==> r is Ok && r->Ok_0@ == join_path(
            dir@,
            final_chunk_base(original_name@, md5_hex@, seq as int),
        ),
        seq >= SEQ_CAPACITY ==> r == Err::<Vec<u8>, CokacencError>(CokacencError::SeqOverflow(seq)),
{
    let label = match seq_label(seq) {
        Ok(l) => l,
        Err(e) => {
            return Err(e);
        },
    };
    let mut b = filename_md5_prefix(original_name);
    b.push(46);
    append_all(&mut b, lit_spltd().as_slice());
    append_all(&mut b, copy_hash_prefix(md5_hex).as_slice());
    b.push(46);
    append_all(&mut b, label.as_slice());
    b.push(46);
    append_all(&mut b, original_name);
    append_all(&mut b, lit_ext().as_slice());
    assert(b@ =~= final_chunk_base(original_name@, md5_hex@, seq as int));
    Ok(join(dir, &b))
}

/// Name of an unsplit file, tagged with its content hash.
pub fn single_file_enc_name(dir: &[u8], original_name: &[u8], md5_hex: &[u8]) -> (r: Vec<u8>)
    ensures
        r@ == join_path(dir@, single_enc_base(original_name@, md5_hex@)),
{
    let mut b = filename_md5_prefix(original_name);
    b.push(46);
    append_all(&mut b, copy_hash_prefix(md5_hex).as_slice());
    b.push(46);
    append_all(&mut b, original_name);
    append_all(&mut b, lit_ext().as_slice());
    assert(b@ =~= single_enc_base(original_name@, md5_hex@));
    join(dir, &b)
}

/// Whether every byte of `s` is a hex digit of either case.
pub open spec fn all_hex_spec(s: Seq<u8>) -> bool {
    forall|k: int| 0 <= k < s.len() ==> #[trigger] is_hex_char(s[k])
}

/// What follows the last '/' of a path.
pub open spec fn last_component_of(path: Seq<u8>) -> Seq<u8>
    decreases path.len(),
{
    if path.len() == 0 {
        Seq::empty()
    } else if path.last() == 47 {
        Seq::empty()
    } else {
        last_component_of(path.drop_last()).push(path.last())
    }
}

/// The file name of a path: its last component, trailing '/' ignored.
pub open spec fn file_name_of(path: Seq<u8>) -> Seq<u8>
    decreases path.len(),
{
    if path.len() > 0 && path.last() == 47 {
        file_name_of(path.drop_last())
    } else {
        last_component_of(path)
    }
}

/// What a chunk name says: original name, whether split, hash fragment, sequence index.
pub type NameParts = (Seq<u8>, bool, Seq<u8>, Option<int>);

/// `<hash8>.<seq>.<name>` after `<prefix>.SPLTD.`
pub open spec fn split_parts(prefix: Seq<u8>, rest: Seq<u8>) -> Option<NameParts> {
    if rest.len() >= 15 && all_hex_spec(rest.subrange(0, 8)) && rest[8] == 46 && is_label(
        rest.subrange(9, 13),
    ) && rest[13] == 46 && prefix == name_prefix_of(rest.subrange(14, rest.len() as int)) {
        Some(
            (
                rest.subrange(14, rest.len() as int),
                true,
                rest.subrange(0, 8),
                Some(index_of_label(rest.subrange(9, 13))),
            ),
        )
    } else {
        None
    }
}

/// `<hash8>.<name>` after `<prefix>.`
pub open spec fn single_parts(prefix: Seq<u8>, rest: Seq<u8>) -> Option<NameParts> {
    if rest.len() >= 10 && all_hex_spec(rest.subrange(0, 8)) && rest[8] == 46 && prefix
        == name_prefix_of(rest.subrange(9, rest.len() as int)) {
        Some((rest.subrange(9, rest.len() as int), false, rest.subrange(0, 8), None))
    } else {
        None
    }
}

/// The grammar of chunk file names:
/// `<prefix>.<hash8>.<name>.cokacenc` or `<prefix>.SPLTD.<hash8>.<seq>.<name>.cokacenc`,
/// where the prefix is the first five hex digits of MD5(name).
pub open spec fn name_parts(f: Seq<u8>) -> Option<NameParts> {
    if f.len() >= 9 && f.subrange(f.len() - 9, f.len() as int) == ext() {
        let base = f.subrange(0, f.len() - 9);
        if base.len() >= 6 && all_hex_spec(base.subrange(0, 5)) && base[5] == 46 {
            let a = base.subrange(6, base.len() as int);
            if a.len() >= 6 && a.subrange(0, 6) == spltd() {
                split_parts(base.subrange(0, 5), a.subrange(6, a.len() as int))
            } else {
                single_parts(base.subrange(0, 5), a)
            }
        } else {
            None
        }
    } else {
        None
    }
}

/// What a chunk file name says.
#[derive(Debug, Clone, PartialEq, Eq)]
pub struct EncFileInfo {
    pub original_name: Vec<u8>,
    pub is_split: bool,
    /// The eight-character content hash prefix.
    pub md5_fragment: Vec<u8>,
    pub seq_index: Option<usize>,
    pub path: Vec<u8>,
}

impl EncFileInfo {
    pub open spec fn parts(&self) -> NameParts {
        (
            self.original_name@,
            self.is_split,
            self.md5_fragment@,
            match self.seq_index {
                Some(i) => Some(i as int),
                None => None,
            },
        )
    }
}

fn last_component(path: &[u8]) -> (r: Vec<u8>)
    ensures
        r@ == last_component_of(path@),
{
    let mut i: usize = path.len();
    assert(path@.subrange(0, i as int) =~= path@);
    assert(last_component_of(path@) =~= last_component_of(path@) + path@.subrange(i as int, i as int));
    while i > 0 && path[i - 1] != 47
        invariant
            0 <= i <= path@.len(),
            last_component_of(path@) == last_component_of(path@.subrange(0, i as int)) + path@.subrange(
                i as int,
                path@.len() as int,
            ),
        decreases i,
    {
        let ghost pre = path@.subrange(0, i as int);
        assert(pre.drop_last() =~= path@.subrange(0, i - 1));
        assert(path@.subrange(i - 1, path@.len() as int) =~= seq![pre.last()] + path@.subrange(
            i as int,
            path@.len() as int,
        ));
        assert(last_component_of(pre) =~= last_component_of(pre.drop_last()) + seq![pre.last()]);
        assert(last_component_of(path@) =~= last_component_of(path@.subrange(0, i - 1)) + path@.subrange(
            i - 1,
            path@.len() as int,
        ));
        i = i - 1;
    }
    assert(last_component_of(path@.subrange(0, i as int)) =~= Seq::<u8>::empty());
    assert(Seq::<u8>::empty() + path@.subrange(i as int, path@.len() as int) =~= path@.subrange(
        i as int,
        path@.len() as int,
    ));
    copy_range(path, i, path.len())
}

fn file_name(path: &[u8]) -> (r: Vec<u8>)
    ensures
        r@ == file_name_of(path@),
{
    let mut e: usize = path.len();
    assert(path@.subrange(0, e as int) =~= path@);
    while e > 0 && path[e - 1] == 47
        invariant
            0 <= e <= path@.len(),
            file_name_of(path@) == file_name_of(path@.subrange(0, e as int)),
        decreases e,
    {
        assert(path@.subrange(0, e as int).drop_last() =~= path@.subrange(0, e - 1));
        e = e - 1;
    }
    let trimmed = copy_range(path, 0, e);
    last_component(trimmed.as_slice())
}

fn parse_split_rest(f: &[u8], at: usize, end: usize, path: &[u8]) -> (r: Option<EncFileInfo>)
    requires
        at <= end <= f@.len(),
        at >= 12,
    ensures
        r is None <==> split_parts(f@.subrange(0, 5), f@.subrange(at as int, end as int)) is None,
        r is Some ==> Some(r->Some_0.parts()) == split_parts(
            f@.subrange(0, 5),
            f@.subrange(at as int, end as int),
        ) && r->Some_0.path@ == path@,
{
    let ghost rest = f@.subrange(at as int, end as int);
    if end - at < 15 {
        return None;
    }
    if !all_hex(f, at, at + 8) {
        assert(!all_hex_spec(rest.subrange(0, 8))) by {
            let k = choose|k: int| at <= k < at + 8 && !is_hex_char(f@[k]);
            assert(rest.subrange(0, 8)[k - at] == f@[k]);
        }
        return None;
    }
    assert(all_hex_spec(rest.subrange(0, 8))) by {
        assert forall|k: int| 0 <= k < 8 implies #[trigger] is_hex_char(rest.subrange(0, 8)[k]) by {
            assert(rest.subrange(0, 8)[k] == f@[at + k]);
        }
    }
    if f[at + 8] != 46 || f[at + 13] != 46 {
        return None;
    }
    let label = copy_range(f, at + 9, at + 13);
    assert(label@ =~= rest.subrange(9, 13));
    let idx = match parse_seq_label(label.as_slice()) {
        Some(i) => i,
        None => {
            return None;
        },
    };
    let name = copy_range(f, at + 14, end);
    assert(name@ =~= rest.subrange(14, rest.len() as int));
    let expected = filename_md5_prefix(name.as_slice());
    let actual = copy_range(f, 0, 5);
    if !(matches_at(actual.as_slice(), 0, expected.as_slice())) {
        assert(actual@.subrange(0, 5) =~= actual@);
        return None;
    }
    assert(actual@.subrange(0, 5) =~= actual@);
    let frag = copy_range(f, at, at + 8);
    assert(frag@ =~= rest.subrange(0, 8));
    Some(
        EncFileInfo {
            original_name: name,
            is_split: true,
            md5_fragment: frag,
            seq_index: Some(idx),
            path: copy_range(path, 0, path.len()),
        },
    )
}

fn parse_single_rest(f: &[u8], at: usize, end: usize, path: &[u8]) -> (r: Option<EncFileInfo>)
    requires
        at <= end <= f@.len(),
        at >= 6,
    ensures
        r is None <==> single_parts(f@.subrange(0, 5), f@.subrange(at as int, end as int)) is None,
        r is Some ==> Some(r->Some_0.parts()) == single_parts(
            f@.subrange(0, 5),
            f@.subrange(at as int, end as int),
        ) && r->Some_0.path@ == path@,
{
    let ghost rest = f@.subrange(at as int, end as int);
    if end - at < 10 {
        return None;
    }
    if !all_hex(f, at, at + 8) {
        assert(!all_hex_spec(rest.subrange(0, 8))) by {
            let k = choose|k: int| at <= k < at + 8 && !is_hex_char(f@[k]);
            assert(rest.subrange(0, 8)[k - at] == f@[k]);
        }
        return None;
    }
    assert(all_hex_spec(rest.subrange(0, 8))) by {
        assert forall|k: int| 0 <= k < 8 implies #[trigger] is_hex_char(rest.subrange(0, 8)[k]) by {
            assert(rest.subrange(0, 8)[k] == f@[at + k]);
        }
    }
    if f[at + 8] != 46 {
        return None;
    }
    let name = copy_range(f, at + 9, end);
    assert(name@ =~= rest.subrange(9, rest.len() as int));
    let expected = filename_md5_prefix(name.as_slice());
    let actual = copy_range(f, 0, 5);
    if !(matches_at(actual.as_slice(), 0, expected.as_slice())) {
        assert(actual@.subrange(0, 5) =~= actual@);
        return None;
    }
    assert(actual@.subrange(0, 5) =~= actual@);
    let frag = copy_range(f, at, at + 8);
    assert(frag@ =~= rest.subrange(0, 8));
    Some(
        EncFileInfo {
            original_name: name,
            is_split: false,
            md5_fragment: frag,
            seq_index: None,
            path: copy_range(path, 0, path.len()),
        },
    )
}

/// Parses the last component of `path` against the chunk name grammar; names
/// that do not match it give `None`.
pub fn parse_enc_filename(path: &[u8]) -> (r: Option<EncFileInfo>)
    ensures
        r is None <==> name_parts(file_name_of(path@)) is None,
        r is Some ==> Some(r->Some_0.parts()) == name_parts(file_name_of(path@))
            && r->Some_0.path@ == path@,
{
    let f = file_name(path);
    let n = f.len();
    let e = lit_ext();
    if n < 9 || !matches_at(f.as_slice(), n - 9, e.as_slice()) {
        return None;
    }
    let end = n - 9;
    let ghost base = f@.subrange(0, end as int);
    if end < 6 {
        return None;
    }
    if !all_hex(f.as_slice(), 0, 5) {
        assert(!all_hex_spec(base.subrange(0, 5))) by {
            let k = choose|k: int| 0 <= k < 5 && !is_hex_char(f@[k]);
            assert(base.subrange(0, 5)[k] == f@[k]);
        }
        return None;
    }
    assert(all_hex_spec(base.subrange(0, 5))) by {
        assert forall|k: int| 0 <= k < 5 implies #[trigger] is_hex_char(base.subrange(0, 5)[k]) by {
            assert(base.subrange(0, 5)[k] == f@[k]);
        }
    }
    if f[5] != 46 {
        return None;
    }
    let ghost a = base.subrange(6, base.len() as int);
    assert(base.subrange(0, 5) =~= f@.subrange(0, 5));
    let s = lit_spltd();
    if end - 6 >= 6 && matches_at(f.as_slice(), 6, s.as_slice()) {
        assert(a.subrange(0, 6) =~= f@.subrange(6, 12));
        assert(a.subrange(6, a.len() as int) =~= f@.subrange(12, end as int));
        parse_split_rest(f.as_slice(), 12, end, path)
    } else {
        assert(a =~= f@.subrange(6, end as int));
        assert(a.len() >= 6 ==> a.subrange(0, 6) =~= f@.subrange(6, 12));
        parse_single_rest(f.as_slice(), 6, end, path)
    }
}

/// Whether `g` is a group id: sixteen lowercase hex digits.
pub open spec fn is_group_id(g: Seq<u8>) -> bool {
    g.len() == 16 && forall|k: int| 0 <= k < 16 ==> #[trigger] is_lower_hex_char(g[k])
}

/// `<group_id>_<seq>.cokacenc`
pub open spec fn chunk_name_of(group_id: Seq<u8>, i: int) -> Seq<u8> {
    group_id + one(95) + label_of(i) + ext()
}

/// The file name of chunk `seq` of the group `group_id`.
pub fn chunk_file_name(group_id: &[u8], seq: usize) -> (r: Result<Vec<u8>, CokacencError>)
    ensures
        seq < SEQ_CAPACITY ==> r is Ok && r->Ok_0@ == chunk_name_of(group_id@, seq as int),
        seq >= SEQ_CAPACITY ==> r == Err::<Vec<u8>, CokacencError>(CokacencError::SeqOverflow(seq)),
{
    let label = match seq_label(seq) {
        Ok(l) => l,
        Err(e) => {
            return Err(e);
        },
    };
    let mut b: Vec<u8> = Vec::new();
    append_all(&mut b, group_id);
    b.push(95);
    append_all(&mut b, label.as_slice());
    append_all(&mut b, lit_ext().as_slice());
    assert(b@ =~= chunk_name_of(group_id@, seq as int));
    Ok(b)
}

/// Whether `f` is the name of a chunk file of some group.
pub open spec fn is_chunk_name(f: Seq<u8>) -> bool {
    &&& f.len() == 30
    &&& is_group_id(f.subrange(0, 16))
    &&& f[16] == 95
    &&& is_label(f.subrange(17, 21))
    &&& f.subrange(21, 30) == ext()
}

fn all_lower_hex(s: &[u8], from: usize, to: usize) -> (r: bool)
    requires
        from <= to <= s@.len(),
    ensures
        r == (forall|k: int| from <= k < to ==> #[trigger] is_lower_hex_char(s@[k])),
{
    let mut k: usize = from;
    while k < to
        invariant
            from <= k <= to <= s@.len(),
            forall|j: int| from <= j < k ==> #[trigger] is_lower_hex_char(s@[j]),
        decreases to - k,
    {
        let c = s[k];
        if !((48 <= c && c <= 57) || (97 <= c && c <= 102)) {
            assert(!is_lower_hex_char(s@[k as int]));
            return false;
        }
        k = k + 1;
    }
    true
}

/// Splits a chunk file name into its group id and sequence index; other names give `None`.
pub fn parse_chunk_file_name(f: &[u8]) -> (r: Option<(Vec<u8>, usize)>)
    ensures
        r is Some <==> is_chunk_name(f@),
        r is Some ==> r->Some_0.0@ == f@.subrange(0, 16) && r->Some_0.1 == index_of_label(
            f@.subrange(17, 21),
        ),
{
    if f.len() != 30 {
        return None;
    }
    let ok_hex = all_lower_hex(f, 0, 16);
    assert(ok_hex == is_group_id(f@.subrange(0, 16))) by {
        if !ok_hex {
            let k = choose|k: int| 0 <= k < 16 && !is_lower_hex_char(f@[k]);
            assert(f@.subrange(0, 16)[k] == f@[k]);
        } else {
            assert forall|k: int| 0 <= k < 16 implies #[trigger] is_lower_hex_char(
                f@.subrange(0, 16)[k],
            ) by {
                assert(f@.subrange(0, 16)[k] == f@[k]);
            }
        }
    }
    if !ok_hex || f[16] != 95 {
        return None;
    }
    let e = lit_ext();
    if !matches_at(f, 21, e.as_slice()) {
        return None;
    }
    let label = copy_range(f, 17, 21);
    match parse_seq_label(label.as_slice()) {
        Some(i) => Some((copy_range(f, 0, 16), i)),
        None => None,
    }
}

/// A chunk name parses back to the group id and index it was made from.
pub proof fn lemma_chunk_name_round_trip(group_id: Seq<u8>, i: int)
    requires
        is_group_id(group_id),
        0 <= i < SEQ_CAPACITY,
    ensures
        is_chunk_name(chunk_name_of(group_id, i)),
        chunk_name_of(group_id, i).subrange(0, 16) == group_id,
        index_of_label(chunk_name_of(group_id, i).subrange(17, 21)) == i,
{
    let f = chunk_name_of(group_id, i);
    crate::seq::lemma_seq_label_round_trip(i, label_of(i));
    assert(f.subrange(0, 16) =~= group_id);
    assert(f.subrange(17, 21) =~= label_of(i));
    assert(f.subrange(21, 30) =~= ext());
}

/// Whether `g` equals none of `existing`.
pub open spec fn is_fresh(g: Seq<u8>, existing: Seq<Vec<u8>>) -> bool {
    forall|k: int| 0 <= k < existing.len() ==> #[trigger] existing[k]@ != g
}

/// The group id that eight drawn bytes stand for, if it differs from every id in `existing`.
pub fn group_id_candidate(raw: &[u8], existing: &Vec<Vec<u8>>) -> (r: Option<Vec<u8>>)
    requires
        raw@.len() == 8,
    ensures
        r is Some <==> is_fresh(hex_of(raw@), existing@),
        r is Some ==> r->Some_0@ == hex_of(raw@),
        is_group_id(hex_of(raw@)),
{
    let id = hex_lower(raw);
    proof {
        lemma_hex_lower(raw@);
    }
    let mut fresh = true;
    let mut k: usize = 0;
    while k < existing.len()
        invariant
            0 <= k <= existing@.len(),
            id@ == hex_of(raw@),
            fresh == (forall|j: int| 0 <= j < k ==> #[trigger] existing@[j]@ != id@),
        decreases existing@.len() - k,
    {
        if bytes_eq(existing[k].as_slice(), id.as_slice()) {
            fresh = false;
        }
        k = k + 1;
    }
    if fresh {
        Some(id)
    } else {
        None
    }
}

/// Draws random group ids until one differs from every id in `existing`, trying
/// at most `max_attempts` times. Where no entry of `existing` is a group id at
/// all, the first draw is new.
pub fn generate_group_id(existing: &Vec<Vec<u8>>, max_attempts: u32) -> (r: Option<Vec<u8>>)
    ensures
        r is Some ==> is_group_id(r->Some_0@) && is_fresh(r->Some_0@, existing@),
        max_attempts == 0 ==> r is None,
        max_attempts > 0 && (forall|k: int|
            0 <= k < existing@.len() ==> !is_group_id(#[trigger] existing@[k]@)) ==> r is Some,
{
    let mut attempt: u32 = 0;
    while attempt < max_attempts
        invariant
            attempt <= max_attempts,
            (forall|k: int| 0 <= k < existing@.len() ==> !is_group_id(#[trigger] existing@[k]@))
                ==> attempt == 0,
        decreases max_attempts - attempt,
    {
        let raw: [u8; 8] = rand::random::<[u8; 8]>();
        let cand = group_id_candidate(raw.as_slice(), existing);
        if cand.is_some() {
            return cand;
        }
        attempt = attempt + 1;
    }
    None
}

/// The chunks of one group: (sequence index, position in the scanned list) of
/// each, by ascending sequence index.
#[derive(Debug, Clone, PartialEq, Eq)]
pub struct ChunkGroup {
    pub group_id: Vec<u8>,
    pub members: Vec<(usize, usize)>,
}

/// The group id that the chunk name `f` carries.
pub open spec fn group_of(f: Seq<u8>) -> Seq<u8> {
    f.subrange(0, 16)
}

/// The sequence index that the chunk name `f` carries.
pub open spec fn index_of(f: Seq<u8>) -> int {
    index_of_label(f.subrange(17, 21))
}

/// Whether `s` is ordered by sequence index.
pub open spec fn sorted_by_index(s: Seq<(usize, usize)>) -> bool {
    forall|a: int, b: int| 0 <= a < b < s.len() ==> #[trigger] s[a].0 <= #[trigger] s[b].0
}

/// Whether every member of `grp` is a chunk name of `names` of that group, at that index.
pub open spec fn members_match(grp: ChunkGroup, names: Seq<Vec<u8>>) -> bool {
    forall|m: int|
        0 <= m < grp.members@.len() ==> {
            let e = #[trigger] grp.members@[m];
            &&& e.1 < names.len()
            &&& is_chunk_name(names[e.1 as int]@)
            &&& group_of(names[e.1 as int]@) == grp.group_id@
            &&& index_of(names[e.1 as int]@) == e.0
        }
}

fn insert_sorted(s: &mut Vec<(usize, usize)>, e: (usize, usize)) -> (q: usize)
    requires
        sorted_by_index(old(s)@),
    ensures
        q <= old(s)@.len(),
        final(s)@ == old(s)@.insert(q as int, e),
        sorted_by_index(final(s)@),
{
    let mut q: usize = 0;
    while q < s.len() && s[q].0 <= e.0
        invariant
            0 <= q <= s@.len(),
            s@ == old(s)@,
            forall|j: int| 0 <= j < q ==> #[trigger] s@[j].0 <= e.0,
        decreases s@.len() - q,
    {
        q = q + 1;
    }
    let ghost before = s@;
    s.insert(q, e);
    assert(sorted_by_index(s@)) by {
        assert forall|a: int, b: int| 0 <= a < b < s@.len() implies #[trigger] s@[a].0
            <= #[trigger] s@[b].0 by {
            if b < q {
                assert(s@[a] == before[a] && s@[b] == before[b]);
            } else if b == q {
                assert(s@[a] == before[a]);
            } else if a < q {
                assert(s@[a] == before[a] && s@[b] == before[b - 1]);
            } else if a == q {
                assert(s@[b] == before[b - 1]);
                assert(before[q as int].0 > e.0);
                if b - 1 > q {
                    assert(before[q as int].0 <= before[b - 1].0);
                }
            } else {
                assert(s@[a] == before[a - 1] && s@[b] == before[b - 1]);
            }
        }
    }
    q
}

/// Buckets the chunk names among `names` by group id, each bucket by ascending
/// sequence index; names off the chunk grammar are left out.
#[verifier::rlimit(40)]
pub fn group_chunk_names(names: &Vec<Vec<u8>>) -> (r: Vec<ChunkGroup>)
    ensures
        forall|g: int| 0 <= g < r@.len() ==> #[trigger] r@[g].members@.len() > 0,
        forall|g: int| 0 <= g < r@.len() ==> sorted_by_index(#[trigger] r@[g].members@),
        forall|g: int| 0 <= g < r@.len() ==> members_match(#[trigger] r@[g], names@),
        forall|g: int, h: int|
            0 <= g < h < r@.len() ==> #[trigger] r@[g].group_id@ != #[trigger] r@[h].group_id@,
        forall|g: int, a: int, b: int|
            0 <= g < r@.len() && 0 <= a < b < r@[g].members@.len() ==> #[trigger] r@[g].members@[a].1
                != #[trigger] r@[g].members@[b].1,
        forall|k: int|
            0 <= k < names@.len() && is_chunk_name(#[trigger] names@[k]@) ==> exists|g: int|
                0 <= g < r@.len() && r@[g].group_id@ == group_of(names@[k]@) && r@[g].members@.contains(
                    (index_of(names@[k]@) as usize, k as usize),
                ),
{
    let mut groups: Vec<ChunkGroup> = Vec::new();
    let mut k: usize = 0;
    while k < names.len()
        invariant
            0 <= k <= names@.len(),
            forall|g: int| 0 <= g < groups@.len() ==> #[trigger] groups@[g].members@.len() > 0,
            forall|g: int| 0 <= g < groups@.len() ==> sorted_by_index(#[trigger] groups@[g].members@),
            forall|g: int| 0 <= g < groups@.len() ==> members_match(#[trigger] groups@[g], names@),
            forall|g: int, m: int|
                0 <= g < groups@.len() && 0 <= m < groups@[g].members@.len() ==> #[trigger] groups@[g].members@[m].1
                    < k,
            forall|g: int, h: int|
                0 <= g < h < groups@.len() ==> #[trigger] groups@[g].group_id@
                    != #[trigger] groups@[h].group_id@,
            forall|g: int, a: int, b: int|
                0 <= g < groups@.len() && 0 <= a < b < groups@[g].members@.len() ==> #[trigger] groups@[g].members@[a].1
                    != #[trigger] groups@[g].members@[b].1,
            forall|j: int|
                0 <= j < k && is_chunk_name(#[trigger] names@[j]@) ==> exists|g: int|
                    0 <= g < groups@.len() && groups@[g].group_id@ == group_of(names@[j]@)
                        && groups@[g].members@.contains((index_of(names@[j]@) as usize, j as usize)),
        decreases names@.len() - k,
    {
        let ghost old_groups = groups@;
        match parse_chunk_file_name(names[k].as_slice()) {
            None => {},
            Some((gid, i)) => {
                let e = (i, k);
                let mut p: usize = 0;
                while p < groups.len() && !bytes_eq(groups[p].group_id.as_slice(), gid.as_slice())
                    invariant
                        0 <= p <= groups@.len(),
                        groups@ == old_groups,
                        forall|j: int| 0 <= j < p ==> #[trigger] groups@[j].group_id@ != gid@,
                    decreases groups@.len() - p,
                {
                    p = p + 1;
                }
                if p < groups.len() {
                    assert(gid@ == group_of(names@[k as int]@));
                    assert(i == index_of(names@[k as int]@));
                    let mut grp = groups.remove(p);
                    assert(grp.group_id@ == gid@);
                    let ghost old_members = grp.members@;
                    let q = insert_sorted(&mut grp.members, e);
                    groups.insert(p, grp);
                    assert(grp.group_id@ == gid@);
                    assert(groups@ =~= old_groups.update(p as int, grp));
                    assert(members_match(grp, names@)) by {
                        assert forall|m: int| 0 <= m < grp.members@.len() implies {
                            let x = #[trigger] grp.members@[m];
                            &&& x.1 < names@.len()
                            &&& is_chunk_name(names@[x.1 as int]@)
                            &&& group_of(names@[x.1 as int]@) == grp.group_id@
                            &&& index_of(names@[x.1 as int]@) == x.0
                        } by {
                            if m < q {
                                assert(grp.members@[m] == old_members[m]);
                            } else if m > q {
                                assert(grp.members@[m] == old_members[m - 1]);
                            }
                        }
                    }
                    assert forall|a: int, b: int|
                        0 <= a < b < grp.members@.len() implies #[trigger] grp.members@[a].1
                        != #[trigger] grp.members@[b].1 by {
                        if a != q && b != q {
                            let a0 = if a < q { a } else { a - 1 };
                            let b0 = if b < q { b } else { b - 1 };
                            assert(grp.members@[a] == old_members[a0]);
                            assert(grp.members@[b] == old_members[b0]);
                        } else if a == q {
                            assert(grp.members@[b] == old_members[b - 1]);
                        } else {
                            assert(grp.members@[a] == old_members[a]);
                        }
                    }
                    assert forall|j: int|
                        0 <= j <= k && is_chunk_name(#[trigger] names@[j]@) implies exists|g: int|
                        0 <= g < groups@.len() && groups@[g].group_id@ == group_of(names@[j]@)
                            && groups@[g].members@.contains(
                            (index_of(names@[j]@) as usize, j as usize),
                        ) by {
                        let x = (index_of(names@[j]@) as usize, j as usize);
                        if j == k {
                            assert(x == e);
                            assert(grp.members@[q as int] == e);
                            assert(groups@[p as int] == grp);
                            assert(groups@[p as int].members@.contains(x));
                            assert(groups@[p as int].group_id@ == group_of(names@[j]@));
                        } else {
                            let g = choose|g: int|
                                0 <= g < old_groups.len() && old_groups[g].group_id@ == group_of(
                                    names@[j]@,
                                ) && old_groups[g].members@.contains(x);
                            if g != p {
                                assert(groups@[g] == old_groups[g]);
                                assert(groups@[g].members@.contains(x));
                            } else {
                                let m = choose|m: int|
                                    0 <= m < old_members.len() && old_members[m] == x;
                                if m < q {
                                    assert(grp.members@[m] == x);
                                } else {
                                    assert(grp.members@[m + 1] == x);
                                }
                                assert(groups@[g] == grp);
                                assert(groups@[g].members@.contains(x));
                            }
                        }
                    }
                } else {
                    let mut members: Vec<(usize, usize)> = Vec::new();
                    members.push(e);
                    let grp = ChunkGroup { group_id: gid, members };
                    groups.push(grp);
                    assert(groups@ =~= old_groups.push(grp));
                    assert(grp.members@[0] == e);
                    assert forall|j: int|
                        0 <= j <= k && is_chunk_name(#[trigger] names@[j]@) implies exists|g: int|
                        0 <= g < groups@.len() && groups@[g].group_id@ == group_of(names@[j]@)
                            && groups@[g].members@.contains(
                            (index_of(names@[j]@) as usize, j as usize),
                        ) by {
                        if j == k {
                            assert(groups@[p as int] == grp);
                        } else {
                            let g = choose|g: int|
                                0 <= g < old_groups.len() && old_groups[g].group_id@ == group_of(
                                    names@[j]@,
                                ) && old_groups[g].members@.contains(
                                    (index_of(names@[j]@) as usize, j as usize),
                                );
                            assert(groups@[g] == old_groups[g]);
                        }
                    }
                }
            },
        }
        k = k + 1;
    }
    groups
}

/// Whether a directory entry of this name is a source file to pack: it is not
/// hidden (leading '.') and does not carry the chunk extension.
pub open spec fn is_packable(name: Seq<u8>) -> bool {
    !(name.len() > 0 && name[0] == 46) && !(name.len() >= 9 && name.subrange(
        name.len() - 9,
        name.len() as int,
    ) == ext())
}

/// Decides whether a regular file named `name` is packed.
pub fn is_packable_name(name: &[u8]) -> (r: bool)
    ensures
        r == is_packable(name@),
{
    if name.len() > 0 && name[0] == 46 {
        return false;
    }
    let e = lit_ext();
    !(name.len() >= 9 && matches_at(name, name.len() - 9, e.as_slice()))
}

/// Whether the positions `r` list names of `names` in sorted order.
pub open spec fn sorted_by_name(r: Seq<usize>, names: Seq<Vec<u8>>) -> bool {
    forall|x: int, y: int|
        0 <= x < y < r.len() ==> lex_le(names[#[trigger] r[x] as int]@, names[#[trigger] r[y] as int]@)
}

/// The positions of the entries of `names` that are packed, ordered by name
/// byte for byte, each once.
pub fn select_packable(names: &Vec<Vec<u8>>) -> (r: Vec<usize>)
    ensures
        forall|x: int| 0 <= x < r@.len() ==> #[trigger] r@[x] < names@.len() && is_packable(names@[r@[x] as int]@),
        forall|k: int|
            0 <= k < names@.len() && is_packable(#[trigger] names@[k]@) ==> r@.contains(k as usize),
        forall|x: int, y: int| 0 <= x < y < r@.len() ==> #[trigger] r@[x] != #[trigger] r@[y],
        sorted_by_name(r@, names@),
{
    let mut r: Vec<usize> = Vec::new();
    let mut k: usize = 0;
    while k < names.len()
        invariant
            0 <= k <= names@.len(),
            forall|x: int| 0 <= x < r@.len() ==> #[trigger] r@[x] < k && is_packable(names@[r@[x] as int]@),
            forall|j: int| 0 <= j < k && is_packable(#[trigger] names@[j]@) ==> r@.contains(j as usize),
            forall|x: int, y: int| 0 <= x < y < r@.len() ==> #[trigger] r@[x] != #[trigger] r@[y],
            sorted_by_name(r@, names@),
        decreases names@.len() - k,
    {
        if is_packable_name(names[k].as_slice()) {
            let mut q: usize = 0;
            while q < r.len() && bytes_le(names[r[q]].as_slice(), names[k].as_slice())
                invariant
                    0 <= q <= r@.len(),
                    k < names@.len(),
                    forall|x: int| 0 <= x < r@.len() ==> #[trigger] r@[x] < k,
                    forall|j: int| 0 <= j < q ==> lex_le(names@[#[trigger] r@[j] as int]@, names@[k as int]@),
                decreases r@.len() - q,
            {
                q = q + 1;
            }
            let ghost old_r = r@;
            let ghost nk = names@[k as int]@;
            proof {
                if q < old_r.len() {
                    lemma_lex_total(names@[old_r[q as int] as int]@, nk);
                }
            }
            r.insert(q, k);
            assert(sorted_by_name(r@, names@)) by {
                assert forall|x: int, y: int| 0 <= x < y < r@.len() implies lex_le(
                    names@[#[trigger] r@[x] as int]@,
                    names@[#[trigger] r@[y] as int]@,
                ) by {
                    if y < q {
                        assert(r@[x] == old_r[x] && r@[y] == old_r[y]);
                    } else if y == q {
                        assert(r@[x] == old_r[x]);
                    } else if x < q {
                        assert(r@[x] == old_r[x] && r@[y] == old_r[y - 1]);
                    } else if x == q {
                        assert(r@[y] == old_r[y - 1]);
                        let sq = names@[old_r[q as int] as int]@;
                        assert(lex_le(nk, sq));
                        if y - 1 > q {
                            assert(lex_le(sq, names@[old_r[y - 1] as int]@));
                            lemma_lex_trans(nk, sq, names@[old_r[y - 1] as int]@);
                        }
                    } else {
                        assert(r@[x] == old_r[x - 1] && r@[y] == old_r[y - 1]);
                    }
                }
            }
            assert forall|x: int, y: int| 0 <= x < y < r@.len() implies #[trigger] r@[x]
                != #[trigger] r@[y] by {
                let x0 = if x < q { x } else { x - 1 };
                let y0 = if y < q { y } else { y - 1 };
                if x != q && y != q {
                    assert(r@[x] == old_r[x0] && r@[y] == old_r[y0]);
                } else if x == q {
                    assert(r@[y] == old_r[y0]);
                } else {
                    assert(r@[x] == old_r[x0]);
                }
            }
            assert forall|x: int| 0 <= x < r@.len() implies #[trigger] r@[x] < k + 1 && is_packable(
                names@[r@[x] as int]@,
            ) by {
                if x < q {
                    assert(r@[x] == old_r[x]);
                } else if x > q {
                    assert(r@[x] == old_r[x - 1]);
                }
            }
            assert forall|j: int| 0 <= j < k + 1 && is_packable(#[trigger] names@[j]@) implies r@.contains(
                j as usize,
            ) by {
                if j == k {
                    assert(r@[q as int] == k);
                } else {
                    let m = choose|m: int| 0 <= m < old_r.len() && old_r[m] == j as usize;
                    if m < q {
                        assert(r@[m] == j as usize);
                    } else {
                        assert(r@[m + 1] == j as usize);
                    }
                }
            }
        }
        k = k + 1;
    }
    r
}

} // verus!
