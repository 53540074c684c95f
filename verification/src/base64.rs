//! Base64 over byte sequences whose length is a multiple of three, as the
//! genome text encoding needs: no padding ever arises, and encoding and
//! decoding are exact inverses.

use vstd::prelude::*;

verus! {

use vstd::arithmetic::div_mod::{
    lemma_fundamental_div_mod, lemma_fundamental_div_mod_converse_div,
    lemma_fundamental_div_mod_converse_mod,
};

/// The character standing for a six-bit value.
pub open spec fn b64_char_of(v: int) -> u8 {
    if 0 <= v < 26 {
        (65 + v) as u8
    } else if 26 <= v < 52 {
        (97 + v - 26) as u8
    } else if 52 <= v < 62 {
        (48 + v - 52) as u8
    } else if v == 62 {
        43
    } else {
        47
    }
}

/// The six-bit value of a character, or -1 where the character is not part
/// of the alphabet.
pub open spec fn b64_val_of(c: u8) -> int {
    if 65 <= c <= 90 {
        c - 65
    } else if 97 <= c <= 122 {
        c - 97 + 26
    } else if 48 <= c <= 57 {
        c - 48 + 52
    } else if c == 43 {
        62
    } else if c == 47 {
        63
    } else {
        -1
    }
}

/// Four characters encoding three bytes.
pub open spec fn encode_group(b0: u8, b1: u8, b2: u8) -> Seq<u8> {
    seq![
        b64_char_of((b0 as int) / 4),
        b64_char_of((b0 as int) % 4 * 16 + (b1 as int) / 16),
        b64_char_of((b1 as int) % 16 * 4 + (b2 as int) / 64),
        b64_char_of((b2 as int) % 64),
    ]
}

/// Three bytes decoded from four characters.
pub open spec fn decode_group(c0: u8, c1: u8, c2: u8, c3: u8) -> Seq<u8> {
    let v0 = b64_val_of(c0);
    let v1 = b64_val_of(c1);
    let v2 = b64_val_of(c2);
    let v3 = b64_val_of(c3);
    seq![
        (v0 * 4 + v1 / 16) as u8,
        (v1 % 16 * 16 + v2 / 4) as u8,
        (v2 % 4 * 64 + v3) as u8,
    ]
}

pub open spec fn b64_encode_spec(s: Seq<u8>) -> Seq<u8>
    decreases s.len(),
{
    if s.len() < 3 {
        Seq::empty()
    } else {
        encode_group(s[0], s[1], s[2]) + b64_encode_spec(s.skip(3))
    }
}

pub open spec fn b64_decode_spec(s: Seq<u8>) -> Seq<u8>
    decreases s.len(),
{
    if s.len() < 4 {
        Seq::empty()
    } else {
        decode_group(s[0], s[1], s[2], s[3]) + b64_decode_spec(s.skip(4))
    }
}

/// Every character belongs to the alphabet.
pub open spec fn b64_valid(s: Seq<u8>) -> bool {
    forall|i: int| 0 <= i < s.len() ==> b64_val_of(#[trigger] s[i]) >= 0
}

proof fn lemma_char_val(v: int)
    requires
        0 <= v < 64,
    ensures
        b64_val_of(b64_char_of(v)) == v,
{
}

proof fn lemma_encode_len(s: Seq<u8>)
    ensures
        s.len() % 3 == 0 ==> 3 * b64_encode_spec(s).len() == 4 * s.len(),
    decreases s.len(),
{
    if s.len() >= 3 {
        lemma_encode_len(s.skip(3));
    }
}

proof fn lemma_decode_len(s: Seq<u8>)
    ensures
        s.len() % 4 == 0 ==> 4 * b64_decode_spec(s).len() == 3 * s.len(),
    decreases s.len(),
{
    if s.len() >= 4 {
        lemma_decode_len(s.skip(4));
    }
}

proof fn lemma_encode_snoc(s: Seq<u8>, i: int)
    requires
        0 <= i,
        i % 3 == 0,
        i + 3 <= s.len(),
    ensures
        b64_encode_spec(s.take(i + 3)) == b64_encode_spec(s.take(i)) + encode_group(
            s[i],
            s[i + 1],
            s[i + 2],
        ),
    decreases i,
{
    if i == 0 {
        assert(s.take(3).skip(3) =~= s.take(0));
        assert(b64_encode_spec(s.take(3)) =~= b64_encode_spec(s.take(0)) + encode_group(
            s[0],
            s[1],
            s[2],
        ));
    } else {
        let t = s.skip(3);
        lemma_encode_snoc(t, i - 3);
        assert(s.take(i + 3).skip(3) =~= t.take(i));
        assert(s.take(i).skip(3) =~= t.take(i - 3));
        assert(b64_encode_spec(s.take(i + 3)) =~= b64_encode_spec(s.take(i)) + encode_group(
            s[i],
            s[i + 1],
            s[i + 2],
        ));
    }
}

proof fn lemma_decode_snoc(s: Seq<u8>, i: int)
    requires
        0 <= i,
        i % 4 == 0,
        i + 4 <= s.len(),
    ensures
        b64_decode_spec(s.take(i + 4)) == b64_decode_spec(s.take(i)) + decode_group(
            s[i],
            s[i + 1],
            s[i + 2],
            s[i + 3],
        ),
    decreases i,
{
    if i == 0 {
        assert(s.take(4).skip(4) =~= s.take(0));
        assert(b64_decode_spec(s.take(4)) =~= b64_decode_spec(s.take(0)) + decode_group(
            s[0],
            s[1],
            s[2],
            s[3],
        ));
    } else {
        let t = s.skip(4);
        lemma_decode_snoc(t, i - 4);
        assert(s.take(i + 4).skip(4) =~= t.take(i));
        assert(s.take(i).skip(4) =~= t.take(i - 4));
        assert(b64_decode_spec(s.take(i + 4)) =~= b64_decode_spec(s.take(i)) + decode_group(
            s[i],
            s[i + 1],
            s[i + 2],
            s[i + 3],
        ));
    }
}

fn b64_char(v: u8) -> (c: u8)
    requires
        v < 64,
    ensures
        c == b64_char_of(v as int),
{
    if v < 26 {
        65 + v
    } else if v < 52 {
        97 + (v - 26)
    } else if v < 62 {
        48 + (v - 52)
    } else if v == 62 {
        43
    } else {
        47
    }
}

fn b64_val(c: u8) -> (r: Option<u8>)
    ensures
        match r {
            Some(v) => b64_val_of(c) == v && v < 64,
            None => b64_val_of(c) == -1,
        },
{
    if 65 <= c && c <= 90 {
        Some(c - 65)
    } else if 97 <= c && c <= 122 {
        Some(c - 97 + 26)
    } else if 48 <= c && c <= 57 {
        Some(c - 48 + 52)
    } else if c == 43 {
        Some(62)
    } else if c == 47 {
        Some(63)
    } else {
        None
    }
}

/// Whether a character belongs to the alphabet.
pub fn b64_val_probe(c: u8) -> (ok: bool)
    ensures
        ok == (b64_val_of(c) >= 0),
{
    b64_val(c).is_some()
}

/// Encodes a byte sequence whose length is a multiple of three.
pub fn b64_encode(data: &Vec<u8>) -> (out: Vec<u8>)
    requires
        data@.len() % 3 == 0,
    ensures
        out@ == b64_encode_spec(data@),
        3 * out@.len() == 4 * data@.len(),
        b64_valid(out@),
{
    let mut out: Vec<u8> = Vec::new();
    let mut i: usize = 0;
    proof {
        assert(data@.take(0) =~= Seq::<u8>::empty());
    }
    while data.len() - i >= 3
        invariant
            i <= data@.len(),
            i % 3 == 0,
            data@.len() % 3 == 0,
            out@ == b64_encode_spec(data@.take(i as int)),
            3 * out@.len() == 4 * i,
            b64_valid(out@),
        decreases data@.len() - i,
    {
        let b0 = data[i];
        let b1 = data[i + 1];
        let b2 = data[i + 2];
        proof {
            lemma_encode_snoc(data@, i as int);
            lemma_char_val((b0 as int) / 4);
            lemma_char_val((b0 as int) % 4 * 16 + (b1 as int) / 16);
            lemma_char_val((b1 as int) % 16 * 4 + (b2 as int) / 64);
            lemma_char_val((b2 as int) % 64);
        }
        out.push(b64_char(b0 / 4));
        out.push(b64_char(b0 % 4 * 16 + b1 / 16));
        out.push(b64_char(b1 % 16 * 4 + b2 / 64));
        out.push(b64_char(b2 % 64));
        i = i + 3;
        proof {
            assert(b64_valid(out@));
        }
    }
    proof {
        assert(data@.take(data@.len() as int) =~= data@);
    }
    out
}

/// Decodes a valid character sequence whose length is a multiple of four.
pub fn b64_decode(text: &Vec<u8>) -> (out: Vec<u8>)
    requires
        text@.len() % 4 == 0,
        b64_valid(text@),
    ensures
        out@ == b64_decode_spec(text@),
        4 * out@.len() == 3 * text@.len(),
{
    let mut out: Vec<u8> = Vec::new();
    let mut i: usize = 0;
    proof {
        assert(text@.take(0) =~= Seq::<u8>::empty());
    }
    while text.len() - i >= 4
        invariant
            i <= text@.len(),
            i % 4 == 0,
            text@.len() % 4 == 0,
            b64_valid(text@),
            out@ == b64_decode_spec(text@.take(i as int)),
            4 * out@.len() == 3 * i,
        decreases text@.len() - i,
    {
        let v0 = b64_val(text[i]).unwrap();
        let v1 = b64_val(text[i + 1]).unwrap();
        let v2 = b64_val(text[i + 2]).unwrap();
        let v3 = b64_val(text[i + 3]).unwrap();
        proof {
            lemma_decode_snoc(text@, i as int);
        }
        out.push(v0 * 4 + v1 / 16);
        out.push(v1 % 16 * 16 + v2 / 4);
        out.push(v2 % 4 * 64 + v3);
        i = i + 4;
    }
    proof {
        assert(text@.take(text@.len() as int) =~= text@);
    }
    out
}

proof fn lemma_group_roundtrip(b0: u8, b1: u8, b2: u8)
    ensures
        decode_group(
            b64_char_of((b0 as int) / 4),
            b64_char_of((b0 as int) % 4 * 16 + (b1 as int) / 16),
            b64_char_of((b1 as int) % 16 * 4 + (b2 as int) / 64),
            b64_char_of((b2 as int) % 64),
        ) == seq![b0, b1, b2],
{
    let v0 = (b0 as int) / 4;
    let v1 = (b0 as int) % 4 * 16 + (b1 as int) / 16;
    let v2 = (b1 as int) % 16 * 4 + (b2 as int) / 64;
    let v3 = (b2 as int) % 64;
    lemma_char_val(v0);
    lemma_char_val(v1);
    lemma_char_val(v2);
    lemma_char_val(v3);
    lemma_fundamental_div_mod(b0 as int, 4);
    lemma_fundamental_div_mod(b1 as int, 16);
    lemma_fundamental_div_mod(b2 as int, 64);
    lemma_fundamental_div_mod_converse_div(v1, 16, (b0 as int) % 4, (b1 as int) / 16);
    lemma_fundamental_div_mod_converse_mod(v1, 16, (b0 as int) % 4, (b1 as int) / 16);
    lemma_fundamental_div_mod_converse_div(v2, 4, (b1 as int) % 16, (b2 as int) / 64);
    lemma_fundamental_div_mod_converse_mod(v2, 4, (b1 as int) % 16, (b2 as int) / 64);
    assert(decode_group(
        b64_char_of(v0),
        b64_char_of(v1),
        b64_char_of(v2),
        b64_char_of(v3),
    ) =~= seq![b0, b1, b2]);
}

/// Law: decoding inverts encoding — for any byte sequence of
/// triple-multiple length, the encoded text is valid and decodes back to
/// exactly the original bytes.
pub proof fn lemma_b64_roundtrip(s: Seq<u8>)
    requires
        s.len() % 3 == 0,
    ensures
        b64_valid(b64_encode_spec(s)),
        b64_decode_spec(b64_encode_spec(s)) == s,
    decreases s.len(),
{
    if s.len() == 0 {
        assert(b64_decode_spec(b64_encode_spec(s)) =~= s);
    } else {
        let g = encode_group(s[0], s[1], s[2]);
        let rest = b64_encode_spec(s.skip(3));
        lemma_b64_roundtrip(s.skip(3));
        lemma_char_val((s[0] as int) / 4);
        lemma_char_val((s[0] as int) % 4 * 16 + (s[1] as int) / 16);
        lemma_char_val((s[1] as int) % 16 * 4 + (s[2] as int) / 64);
        lemma_char_val((s[2] as int) % 64);
        assert(b64_valid(g + rest));
        lemma_group_roundtrip(s[0], s[1], s[2]);
        lemma_encode_len(s.skip(3));
        let whole = g + rest;
        assert(whole.len() >= 4);
        assert(whole.skip(4) =~= rest);
        assert(whole[0] == g[0] && whole[1] == g[1] && whole[2] == g[2] && whole[3] == g[3]);
        assert(decode_group(whole[0], whole[1], whole[2], whole[3]) == seq![s[0], s[1], s[2]]);
        assert(b64_decode_spec(whole) =~= s);
    }
}

} // verus!
