use vstd::prelude::*;

verus! {

/// The character of the standard Base64 alphabet for a value in 0..64.
pub open spec fn b64_char(v: int) -> u8 {
    if v < 26 {
        (65 + v) as u8
    } else if v < 52 {
        (71 + v) as u8
    } else if v < 62 {
        (v - 4) as u8
    } else if v == 62 {
        43
    } else {
        47
    }
}

/// Base64 of one group of up to three bytes, without padding: 2, 3 or 4 characters.
pub open spec fn b64_group(g: Seq<u8>) -> Seq<u8> {
    let b0 = g[0] as int;
    let b1 = if g.len() > 1 { g[1] as int } else { 0 };
    let b2 = if g.len() > 2 { g[2] as int } else { 0 };
    let c0 = b64_char(b0 / 4);
    let c1 = b64_char((b0 % 4) * 16 + b1 / 16);
    let c2 = b64_char((b1 % 16) * 4 + b2 / 64);
    let c3 = b64_char(b2 % 64);
    if g.len() == 1 {
        seq![c0, c1]
    } else if g.len() == 2 {
        seq![c0, c1, c2]
    } else {
        seq![c0, c1, c2, c3]
    }
}

/// Standard-alphabet Base64 without padding.
pub open spec fn b64_of(d: Seq<u8>) -> Seq<u8>
    decreases d.len(),
{
    if d.len() == 0 {
        Seq::empty()
    } else if d.len() <= 3 {
        b64_group(d)
    } else {
        b64_group(d.subrange(0, 3)) + b64_of(d.subrange(3, d.len() as int))
    }
}

/// Whether `c` belongs to the standard Base64 alphabet.
pub open spec fn is_b64_char(c: u8) -> bool {
    (65 <= c <= 90) || (97 <= c <= 122) || (48 <= c <= 57) || c == 43 || c == 47
}

/// Unpadded Base64 length: four characters per three bytes, and two or three
/// for a trailing group of one or two bytes.
pub open spec fn b64_len(n: int) -> int {
    4 * (n / 3) + if n % 3 == 0 {
        0
    } else {
        n % 3 + 1
    }
}

/// Base64 output has the unpadded length and uses only the Base64 alphabet.
pub proof fn lemma_b64_shape(d: Seq<u8>)
    ensures
        b64_of(d).len() == b64_len(d.len() as int),
        forall|k: int| 0 <= k < b64_of(d).len() ==> #[trigger] is_b64_char(b64_of(d)[k]),
    decreases d.len(),
{
    if d.len() == 0 {
    } else if d.len() <= 3 {
        lemma_group_shape(d);
    } else {
        let g = d.subrange(0, 3);
        let rest = d.subrange(3, d.len() as int);
        lemma_group_shape(g);
        lemma_b64_shape(rest);
        let s = b64_of(d);
        assert(s == b64_group(g) + b64_of(rest));
        assert forall|k: int| 0 <= k < s.len() implies #[trigger] is_b64_char(s[k]) by {
            if k < 4 {
                assert(s[k] == b64_group(g)[k]);
            } else {
                assert(s[k] == b64_of(rest)[k - 4]);
            }
        }
    }
}

proof fn lemma_group_shape(g: Seq<u8>)
    requires
        1 <= g.len() <= 3,
    ensures
        b64_group(g).len() == g.len() + 1,
        forall|k: int| 0 <= k < b64_group(g).len() ==> #[trigger] is_b64_char(b64_group(g)[k]),
{
    let b0 = g[0] as int;
    let b1 = if g.len() > 1 { g[1] as int } else { 0 };
    let b2 = if g.len() > 2 { g[2] as int } else { 0 };
    lemma_char_in_alphabet(b0 / 4);
    lemma_char_in_alphabet((b0 % 4) * 16 + b1 / 16);
    lemma_char_in_alphabet((b1 % 16) * 4 + b2 / 64);
    lemma_char_in_alphabet(b2 % 64);
}

proof fn lemma_char_in_alphabet(v: int)
    requires
        0 <= v < 64,
    ensures
        is_b64_char(b64_char(v)),
{
}

/// The value of a Base64 character.
pub open spec fn b64_val(c: u8) -> int {
    if 65 <= c <= 90 {
        c - 65
    } else if 97 <= c <= 122 {
        c - 71
    } else if 48 <= c <= 57 {
        c + 4
    } else if c == 43 {
        62
    } else {
        63
    }
}

/// The bytes that a group of two, three or four Base64 characters stands for.
pub open spec fn b64_decode_group(s: Seq<u8>) -> Seq<u8> {
    let v0 = b64_val(s[0]);
    let v1 = b64_val(s[1]);
    let v2 = if s.len() > 2 { b64_val(s[2]) } else { 0 };
    let v3 = if s.len() > 3 { b64_val(s[3]) } else { 0 };
    let b0 = (v0 * 4 + v1 / 16) as u8;
    let b1 = ((v1 % 16) * 16 + v2 / 4) as u8;
    let b2 = ((v2 % 4) * 64 + v3) as u8;
    if s.len() == 2 {
        seq![b0]
    } else if s.len() == 3 {
        seq![b0, b1]
    } else {
        seq![b0, b1, b2]
    }
}

/// Unpadded Base64 decoding, four characters at a time.
pub open spec fn b64_decode(s: Seq<u8>) -> Seq<u8>
    decreases s.len(),
{
    if s.len() <= 4 {
        if s.len() < 2 {
            Seq::empty()
        } else {
            b64_decode_group(s)
        }
    } else {
        b64_decode_group(s.subrange(0, 4)) + b64_decode(s.subrange(4, s.len() as int))
    }
}

proof fn lemma_group_decodes(g: Seq<u8>)
    requires
        1 <= g.len() <= 3,
    ensures
        b64_decode_group(b64_group(g)) == g,
{
    let b0 = g[0] as int;
    let b1 = if g.len() > 1 { g[1] as int } else { 0 };
    let b2 = if g.len() > 2 { g[2] as int } else { 0 };
    let v0 = b0 / 4;
    let v1 = (b0 % 4) * 16 + b1 / 16;
    let v2 = (b1 % 16) * 4 + b2 / 64;
    let v3 = b2 % 64;
    lemma_char_value(v0);
    lemma_char_value(v1);
    lemma_char_value(v2);
    lemma_char_value(v3);
    assert(v0 * 4 + v1 / 16 == b0);
    assert((v1 % 16) * 16 + v2 / 4 == b1);
    assert((v2 % 4) * 64 + v3 == b2);
    assert(b64_decode_group(b64_group(g)) =~= g);
}

proof fn lemma_char_value(v: int)
    requires
        0 <= v < 64,
    ensures
        b64_val(b64_char(v)) == v,
{
}

/// Decoding Base64 output gives back the bytes encoded.
pub proof fn lemma_b64_decodes(d: Seq<u8>)
    ensures
        b64_decode(b64_of(d)) == d,
    decreases d.len(),
{
    if d.len() == 0 {
        assert(b64_decode(b64_of(d)) =~= d);
    } else if d.len() <= 3 {
        lemma_group_shape(d);
        lemma_group_decodes(d);
    } else {
        let g = d.subrange(0, 3);
        let rest = d.subrange(3, d.len() as int);
        lemma_group_shape(g);
        lemma_group_decodes(g);
        lemma_b64_decodes(rest);
        lemma_b64_shape(rest);
        let s = b64_of(d);
        assert(s == b64_group(g) + b64_of(rest));
        assert(s.subrange(0, 4) =~= b64_group(g));
        assert(s.subrange(4, s.len() as int) =~= b64_of(rest));
        assert(g + rest =~= d);
    }
}

fn b64_char_exec(v: u8) -> (r: u8)
    requires
        v < 64,
    ensures
        r == b64_char(v as int),
{
    if v < 26 {
        65 + v
    } else if v < 52 {
        71 + v
    } else if v < 62 {
        v - 4
    } else if v == 62 {
        43
    } else {
        47
    }
}

proof fn lemma_b64_split(d: Seq<u8>, i: int)
    requires
        0 <= i <= d.len(),
        i % 3 == 0,
    ensures
        b64_of(d) == b64_of(d.subrange(0, i)) + b64_of(d.subrange(i, d.len() as int)),
    decreases i,
{
    if i > 0 {
        lemma_b64_split(d, i - 3);
        let a = d.subrange(0, i);
        assert(a.subrange(0, i - 3) =~= d.subrange(0, i - 3));
        assert(a.subrange(i - 3, i) =~= d.subrange(i - 3, i));
        lemma_b64_split(a, i - 3);
        let t = d.subrange(i - 3, d.len() as int);
        assert(t.subrange(0, 3) =~= d.subrange(i - 3, i));
        assert(t.subrange(3, t.len() as int) =~= d.subrange(i, d.len() as int));
        if d.len() - i == 0 {
            assert(d.subrange(i, d.len() as int) =~= Seq::<u8>::empty());
            assert(b64_of(t) == b64_group(t));
            assert(t =~= d.subrange(i - 3, i));
        }
        let x = b64_of(d.subrange(0, i - 3));
        let y = b64_of(d.subrange(i - 3, i));
        let z = b64_of(d.subrange(i, d.len() as int));
        assert(b64_of(a.subrange(i - 3, i)) == y);
        assert(b64_of(a.subrange(i - 3, a.len() as int)) == y) by {
            assert(a.subrange(i - 3, a.len() as int) =~= d.subrange(i - 3, i));
        }
        assert(b64_of(d) == x + b64_of(t));
        if d.len() - i > 0 {
            assert(b64_of(t) == b64_group(t.subrange(0, 3)) + b64_of(t.subrange(3, t.len() as int)));
            assert(b64_group(t.subrange(0, 3)) == y);
        }
        assert(b64_of(t) == y + z);
        assert(b64_of(a) == x + y);
        assert(b64_of(d) =~= (x + y) + z);
    } else {
        assert(d.subrange(0, 0) =~= Seq::<u8>::empty());
        assert(d.subrange(0, d.len() as int) =~= d);
    }
}

/// Standard-alphabet Base64 of `data`, without padding.
pub fn base64_encode(data: &[u8]) -> (r: Vec<u8>)
    ensures
        r@ == b64_of(data@),
{
    let mut out: Vec<u8> = Vec::new();
    let mut i: usize = 0;
    let n = data.len();
    while i < n
        invariant
            n == data@.len(),
            0 <= i <= n,
            i % 3 == 0 || i == n,
            out@ == b64_of(data@.subrange(0, i as int)),
        decreases n - i,
    {
        let end = if n - i < 3 {
            n
        } else {
            i + 3
        };
        let b0 = data[i];
        let b1: u8 = if end - i > 1 {
            data[i + 1]
        } else {
            0
        };
        let b2: u8 = if end - i > 2 {
            data[i + 2]
        } else {
            0
        };
        let ghost g = data@.subrange(i as int, end as int);
        let ghost before = out@;
        out.push(b64_char_exec(b0 / 4));
        out.push(b64_char_exec((b0 % 4) * 16 + b1 / 16));
        if end - i > 1 {
            out.push(b64_char_exec((b1 % 16) * 4 + b2 / 64));
        }
        if end - i > 2 {
            out.push(b64_char_exec(b2 % 64));
        }
        assert(out@ =~= before + b64_group(g));
        proof {
            let e = data@.subrange(0, end as int);
            assert(e.subrange(0, i as int) =~= data@.subrange(0, i as int));
            assert(e.subrange(i as int, e.len() as int) =~= g);
            assert(b64_of(g) == b64_group(g));
            lemma_b64_split(e, i as int);
        }
        i = end;
    }
    assert(data@.subrange(0, n as int) =~= data@);
    out
}

} // verus!
