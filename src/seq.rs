use vstd::prelude::*;

use crate::error::CokacencError;

verus! {

/// Number of distinct four-letter labels.
pub const SEQ_CAPACITY: usize = 456976;

/// The letter for a digit in 0..26.
pub open spec fn letter(d: int) -> u8 {
    (97 + d) as u8
}

/// The four-letter label of `i`, most significant letter first.
pub open spec fn label_of(i: int) -> Seq<u8> {
    seq![letter(i / 17576), letter((i / 676) % 26), letter((i / 26) % 26), letter(i % 26)]
}

/// Whether `b` is a lowercase ASCII letter.
pub open spec fn is_lower(b: u8) -> bool {
    97 <= b <= 122
}

/// Whether `s` is a well-formed label.
pub open spec fn is_label(s: Seq<u8>) -> bool {
    s.len() == 4 && is_lower(s[0]) && is_lower(s[1]) && is_lower(s[2]) && is_lower(s[3])
}

/// The index that a well-formed label stands for.
pub open spec fn index_of_label(s: Seq<u8>) -> int {
    (s[0] - 97) * 17576 + (s[1] - 97) * 676 + (s[2] - 97) * 26 + (s[3] - 97)
}

proof fn lemma_digits(i: int)
    requires
        0 <= i < 456976,
    ensures
        0 <= i / 17576 < 26,
        0 <= (i / 676) % 26 < 26,
        0 <= (i / 26) % 26 < 26,
        0 <= i % 26 < 26,
        (i / 17576) * 17576 + ((i / 676) % 26) * 676 + ((i / 26) % 26) * 26 + i % 26 == i,
{
    assert((i / 17576) * 17576 + ((i / 676) % 26) * 676 + ((i / 26) % 26) * 26 + i % 26 == i)
        by (nonlinear_arith)
        requires
            0 <= i < 456976,
    ;
}

/// Encodes `index` as its four-letter label: 0 is "aaaa", 456975 is "zzzz".
pub fn seq_label(index: usize) -> (r: Result<Vec<u8>, CokacencError>)
    ensures
        index < SEQ_CAPACITY ==> r is Ok && r->Ok_0@ == label_of(index as int),
        index >= SEQ_CAPACITY ==> r == Err::<Vec<u8>, CokacencError>(
            CokacencError::SeqOverflow(index),
        ),
{
    if index >= SEQ_CAPACITY {
        return Err(CokacencError::SeqOverflow(index));
    }
    proof {
        lemma_digits(index as int);
    }
    let mut out: Vec<u8> = Vec::new();
    out.push(97u8 + (index / 17576) as u8);
    out.push(97u8 + ((index / 676) % 26) as u8);
    out.push(97u8 + ((index / 26) % 26) as u8);
    out.push(97u8 + (index % 26) as u8);
    assert(out@ =~= label_of(index as int));
    Ok(out)
}

/// Decodes a four-letter label; anything else is `None`.
pub fn parse_seq_label(s: &[u8]) -> (r: Option<usize>)
    ensures
        r == (if is_label(s@) {
            Some(index_of_label(s@) as usize)
        } else {
            None::<usize>
        }),
{
    if s.len() != 4 {
        return None;
    }
    let a = s[0];
    let b = s[1];
    let c = s[2];
    let d = s[3];
    if a < 97 || a > 122 || b < 97 || b > 122 || c < 97 || c > 122 || d < 97 || d > 122 {
        return None;
    }
    let v: usize = (a - 97) as usize * 17576 + (b - 97) as usize * 676 + (c - 97) as usize * 26
        + (d - 97) as usize;
    Some(v)
}

/// Encoding an index below the capacity and decoding the label gives the index back;
/// every label decodes to an index below the capacity, whose label it is.
pub proof fn lemma_seq_label_round_trip(i: int, s: Seq<u8>)
    ensures
        0 <= i < SEQ_CAPACITY ==> is_label(label_of(i)) && index_of_label(label_of(i)) == i,
        is_label(s) ==> 0 <= index_of_label(s) < SEQ_CAPACITY && label_of(index_of_label(s))
            =~= s,
{
    if 0 <= i < SEQ_CAPACITY {
        lemma_digits(i);
    }
    if is_label(s) {
        let a = s[0] - 97;
        let b = s[1] - 97;
        let c = s[2] - 97;
        let d = s[3] - 97;
        let v = a * 17576 + b * 676 + c * 26 + d;
        assert(v / 17576 == a && (v / 676) % 26 == b && (v / 26) % 26 == c && v % 26 == d)
            by (nonlinear_arith)
            requires
                0 <= a < 26,
                0 <= b < 26,
                0 <= c < 26,
                0 <= d < 26,
                v == a * 17576 + b * 676 + c * 26 + d,
        ;
    }
}

} // verus!
