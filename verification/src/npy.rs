//! The header of a version 1.0 `.npy` file for a two-dimensional array.

use vstd::prelude::*;

use crate::text::{chars_of, dec_digits, push_dec};
use vstd::string::StringSliceAdditionalSpecFns;

verus! {

/// Bytes of text made of ASCII characters.
pub open spec fn ascii(s: Seq<char>) -> Seq<u8> {
    s.map_values(|c: char| c as u8)
}

/// The header dictionary: `{'descr': '<descr>', 'fortran_order': False,
/// 'shape': (<rows>, <cols>), }`.
pub open spec fn npy_dict(descr: Seq<u8>, rows: usize, cols: usize) -> Seq<u8> {
    ascii("{'descr': '"@) + descr + ascii("', 'fortran_order': False, 'shape': ("@) + ascii(
        dec_digits(rows as nat),
    ) + ascii(", "@) + ascii(dec_digits(cols as nat)) + ascii("), }"@)
}

/// Spaces that bring the whole header (magic, version, length and newline
/// included) to a multiple of 64 bytes.
pub open spec fn npy_pad(dict_len: int) -> int {
    (64 - (10 + dict_len + 1) % 64) % 64
}

/// The header text: the dictionary, the padding spaces and a newline.
pub open spec fn npy_header(descr: Seq<u8>, rows: usize, cols: usize) -> Seq<u8> {
    let d = npy_dict(descr, rows, cols);
    d + Seq::new(npy_pad(d.len() as int) as nat, |i: int| 32u8) + seq![10u8]
}

/// The file's leading bytes: magic `\x93NUMPY`, version 1.0, the header's
/// length as a little-endian `u16` (its low 16 bits), then the header.
pub open spec fn npy_bytes_spec(descr: Seq<u8>, rows: usize, cols: usize) -> Seq<u8> {
    let h = npy_header(descr, rows, cols);
    seq![0x93u8, 78u8, 85u8, 77u8, 80u8, 89u8, 1u8, 0u8] + seq![(h.len() % 256) as u8, (h.len() / 256 % 256) as u8]
        + h
}

fn push_ascii(out: &mut Vec<u8>, s: &str)
    ensures
        final(out)@ == old(out)@ + ascii(s@),
{
    let cs = chars_of(s);
    let mut k: usize = 0;
    while k < cs.len()
        invariant
            k <= cs@.len(),
            out@ == old(out)@ + ascii(cs@.take(k as int)),
        decreases cs@.len() - k,
    {
        out.push(cs[k] as u8);
        assert(ascii(cs@.take(k + 1)) =~= ascii(cs@.take(k as int)).push(cs@[k as int] as u8));
        k = k + 1;
    }
    assert(cs@.take(cs@.len() as int) =~= cs@);
}

fn push_number(out: &mut Vec<u8>, n: usize)
    ensures
        final(out)@ == old(out)@ + ascii(dec_digits(n as nat)),
{
    let mut digits: Vec<char> = Vec::new();
    push_dec(&mut digits, n as u64);
    assert(digits@ =~= dec_digits(n as nat));
    let mut k: usize = 0;
    while k < digits.len()
        invariant
            k <= digits@.len(),
            out@ == old(out)@ + ascii(digits@.take(k as int)),
        decreases digits@.len() - k,
    {
        out.push(digits[k] as u8);
        assert(ascii(digits@.take(k + 1)) =~= ascii(digits@.take(k as int)).push(digits@[k as int] as u8));
        k = k + 1;
    }
    assert(digits@.take(digits@.len() as int) =~= digits@);
}

/// The leading bytes of a `.npy` file holding a `rows` x `cols` array of
/// element type `descr` (see [`npy_bytes_spec`]).
pub fn npy_bytes(descr: &str, rows: usize, cols: usize) -> (out: Vec<u8>)
    ensures
        out@ == npy_bytes_spec(descr.spec_bytes(), rows, cols),
{
    let mut dict: Vec<u8> = Vec::new();
    push_ascii(&mut dict, "{'descr': '");
    let db = descr.as_bytes();
    let mut k: usize = 0;
    let ghost base = dict@;
    while k < db.len()
        invariant
            k <= db@.len(),
            dict@ == base + db@.take(k as int),
        decreases db@.len() - k,
    {
        dict.push(db[k]);
        assert(db@.take(k + 1) =~= db@.take(k as int).push(db@[k as int]));
        k = k + 1;
    }
    assert(db@.take(db@.len() as int) =~= db@);
    push_ascii(&mut dict, "', 'fortran_order': False, 'shape': (");
    push_number(&mut dict, rows);
    push_ascii(&mut dict, ", ");
    push_number(&mut dict, cols);
    push_ascii(&mut dict, "), }");
    let ghost d = npy_dict(descr.spec_bytes(), rows, cols);
    assert(dict@ =~= d);
    let rem = dict.len() % 64;
    let pad = (64 - (rem + 11) % 64) % 64;
    assert(pad == npy_pad(d.len() as int)) by {
        assert((10 + d.len() + 1) % 64 == (rem + 11) % 64);
    }
    let mut header = dict;
    let mut p: usize = 0;
    while p < pad
        invariant
            p <= pad,
            header@ == d + Seq::new(p as nat, |i: int| 32u8),
        decreases pad - p,
    {
        header.push(32u8);
        assert(Seq::new((p + 1) as nat, |i: int| 32u8) =~= Seq::new(p as nat, |i: int| 32u8).push(32u8));
        p = p + 1;
    }
    header.push(10u8);
    let ghost h = npy_header(descr.spec_bytes(), rows, cols);
    assert(header@ =~= h);
    let hl = header.len();
    let mut out: Vec<u8> = Vec::new();
    out.push(0x93u8);
    out.push(78u8);
    out.push(85u8);
    out.push(77u8);
    out.push(80u8);
    out.push(89u8);
    out.push(1u8);
    out.push(0u8);
    out.push((hl % 256) as u8);
    out.push((hl / 256 % 256) as u8);
    let mut q: usize = 0;
    let ghost base2 = out@;
    while q < header.len()
        invariant
            q <= header@.len(),
            out@ == base2 + header@.take(q as int),
        decreases header@.len() - q,
    {
        out.push(header[q]);
        assert(header@.take(q + 1) =~= header@.take(q as int).push(header@[q as int]));
        q = q + 1;
    }
    assert(header@.take(header@.len() as int) =~= header@);
    assert(out@ =~= npy_bytes_spec(descr.spec_bytes(), rows, cols));
    out
}

} // verus!
