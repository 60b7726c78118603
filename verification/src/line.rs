//! The line formatter: renders one chunk of bytes as a fixed-layout text
//! line, as a vector of ASCII bytes.
//!
//! A line is: the chunk's starting offset in uppercase hexadecimal,
//! right-aligned to at least six digits with zero fill, then `" |"`, then one
//! hex column per configured byte slot (short chunks padded with spaces, an
//! extra space before every fourth column past the first), then `" | "`, then
//! one printable-ASCII character per actual byte, then a newline.

use vstd::prelude::*;

verus! {

/// ASCII code of the uppercase hexadecimal digit for a value below 16.
pub open spec fn hex_digit(n: nat) -> u8
    recommends
        n < 16,
{
    if n < 10 {
        (48 + n) as u8
    } else {
        (55 + n) as u8
    }
}

/// Uppercase hexadecimal digits of `n`, most significant first, without
/// leading zeros (`0` itself is the single digit `'0'`).
pub open spec fn hex_digits(n: nat) -> Seq<u8>
    decreases n,
{
    if n < 16 {
        seq![hex_digit(n)]
    } else {
        hex_digits(n / 16).push(hex_digit(n % 16))
    }
}

fn hex_digit_byte(n: u8) -> (r: u8)
    requires
        n < 16,
    ensures
        r == hex_digit(n as nat),
{
    if n < 10 {
        48 + n
    } else {
        55 + n
    }
}

/// Appends the uppercase hexadecimal digits of `n` to `out`.
fn push_hex_digits(out: &mut Vec<u8>, n: u64)
    ensures
        final(out)@ == old(out)@ + hex_digits(n as nat),
    decreases n,
{
    if n < 16 {
        out.push(hex_digit_byte(n as u8));
        assert(out@ =~= old(out)@ + hex_digits(n as nat));
    } else {
        push_hex_digits(out, n / 16);
        out.push(hex_digit_byte((n % 16) as u8));
        assert(out@ =~= old(out)@ + hex_digits(n as nat));
    }
}

/// A run of `k` ASCII `'0'` characters.
pub open spec fn zero_fill(k: nat) -> Seq<u8> {
    Seq::new(k, |i: int| 48u8)
}

/// The offset column: the offset in uppercase hexadecimal, right-aligned to
/// at least six digits with zero fill (wider offsets simply widen the column).
pub open spec fn offset_column(n: nat) -> Seq<u8> {
    if hex_digits(n).len() >= 6 {
        hex_digits(n)
    } else {
        zero_fill((6 - hex_digits(n).len()) as nat) + hex_digits(n)
    }
}

/// Appends the offset column for `n` to `out`.
#[verifier::loop_isolation(false)]
fn push_offset_column(out: &mut Vec<u8>, n: u64)
    ensures
        final(out)@ == old(out)@ + offset_column(n as nat),
{
    let mut digits: Vec<u8> = Vec::new();
    push_hex_digits(&mut digits, n);
    assert(digits@ =~= hex_digits(n as nat));
    let pad_total: usize = if digits.len() >= 6 {
        0
    } else {
        6 - digits.len()
    };
    let mut pad: usize = 0;
    let ghost base = out@;
    assert(out@ =~= base + zero_fill(0));
    while pad < pad_total
        invariant
            pad <= pad_total,
            out@ == base + zero_fill(pad as nat),
        decreases pad_total - pad,
    {
        out.push(48);
        assert(out@ =~= base + zero_fill((pad + 1) as nat));
        pad = pad + 1;
    }
    out.append(&mut digits);
    assert(out@ =~= old(out)@ + offset_column(n as nat));
}

/// One filled hex column: a space and the byte's two uppercase hex digits.
pub open spec fn hex_cell(b: u8) -> Seq<u8> {
    seq![32u8, hex_digit((b / 16) as nat), hex_digit((b % 16) as nat)]
}

/// One padded hex column: three spaces, the width of a filled column.
pub open spec fn pad_cell() -> Seq<u8> {
    seq![32u8, 32u8, 32u8]
}

/// The extra grouping space that precedes every fourth column past the first.
pub open spec fn group_gap(i: int) -> Seq<u8> {
    if i > 0 && i % 4 == 0 {
        seq![32u8]
    } else {
        Seq::empty()
    }
}

/// The hex region from column `i` up to width `w`: every column up to the
/// configured width appears, filled for the chunk's bytes and padded past
/// them, with a grouping space before every fourth column past the first.
pub open spec fn hex_region(data: Seq<u8>, w: int, i: int) -> Seq<u8>
    recommends
        0 <= i <= w,
    decreases w - i,
{
    if i >= w {
        Seq::empty()
    } else {
        group_gap(i) + (if i < data.len() {
            hex_cell(data[i])
        } else {
            pad_cell()
        }) + hex_region(data, w, i + 1)
    }
}

/// The printable rendering of one byte: the byte itself for printable 7-bit
/// ASCII (strictly between 31 and 127), a dot otherwise.
pub open spec fn ascii_cell(b: u8) -> u8 {
    if 31 < b && b < 127 {
        b
    } else {
        46u8
    }
}

/// The ASCII column: one printable character per actual byte, not padded.
pub open spec fn ascii_region(data: Seq<u8>) -> Seq<u8> {
    Seq::new(data.len(), |i: int| ascii_cell(data[i]))
}

/// One whole output line for the chunk `data` starting at `offset`, with
/// `w` byte columns per line.
pub open spec fn line_spec(data: Seq<u8>, offset: nat, w: int) -> Seq<u8>
    recommends
        data.len() <= w,
        0 < w,
{
    offset_column(offset) + seq![32u8, 124u8] + hex_region(data, w, 0) + seq![
        32u8,
        124u8,
        32u8,
    ] + ascii_region(data) + seq![10u8]
}

/// The hex region always spans the full configured width: its length depends
/// only on the width `w`, never on how many bytes the chunk holds — padding
/// always brings a short chunk's region to the same width.
pub proof fn lemma_hex_region_full_width(data: Seq<u8>, other: Seq<u8>, w: int, i: int)
    requires
        0 <= i <= w,
    ensures
        hex_region(data, w, i).len() == hex_region(other, w, i).len(),
    decreases w - i,
{
    if i < w {
        lemma_hex_region_full_width(data, other, w, i + 1);
    }
}

/// Renders one output line for the first `num_bytes` bytes of `bytes`,
/// starting at stream position `offset`, with `bytes_per_line` columns.
#[verifier::loop_isolation(false)]
pub fn format_line(bytes: &[u8], num_bytes: usize, offset: i64, bytes_per_line: i64) -> (r: Vec<
    u8,
>)
    requires
        num_bytes <= bytes@.len(),
        0 <= offset,
        0 < bytes_per_line <= usize::MAX,
        num_bytes <= bytes_per_line,
    ensures
        r@ == line_spec(bytes@.take(num_bytes as int), offset as nat, bytes_per_line as int),
{
    let ghost data = bytes@.take(num_bytes as int);
    let w: usize = bytes_per_line as usize;
    let mut out: Vec<u8> = Vec::new();
    push_offset_column(&mut out, offset as u64);
    out.push(32);
    out.push(124);
    let ghost head = out@;
    assert(head =~= offset_column(offset as nat) + seq![32u8, 124u8]);
    let mut i: usize = 0;
    while i < w
        invariant
            i <= w,
            out@ + hex_region(data, w as int, i as int) == head + hex_region(data, w as int, 0),
        decreases w - i,
    {
        let ghost before = out@;
        if i > 0 && i % 4 == 0 {
            out.push(32);
        }
        if i < num_bytes {
            let b: u8 = *vstd::slice::slice_index_get(bytes, i);
            out.push(32);
            out.push(hex_digit_byte(b / 16));
            out.push(hex_digit_byte(b % 16));
            assert(out@ =~= before + group_gap(i as int) + hex_cell(data[i as int]));
        } else {
            out.push(32);
            out.push(32);
            out.push(32);
            assert(out@ =~= before + group_gap(i as int) + pad_cell());
        }
        proof {
            assert(hex_region(data, w as int, i as int) == group_gap(i as int) + (if i
                < data.len() {
                hex_cell(data[i as int])
            } else {
                pad_cell()
            }) + hex_region(data, w as int, i + 1));
            assert(out@ + hex_region(data, w as int, i + 1) =~= before + hex_region(
                data,
                w as int,
                i as int,
            ));
        }
        i = i + 1;
    }
    proof {
        assert(out@ + hex_region(data, w as int, w as int) =~= out@);
    }
    out.push(32);
    out.push(124);
    out.push(32);
    let ghost head2 = out@;
    let mut j: usize = 0;
    while j < num_bytes
        invariant
            j <= num_bytes,
            num_bytes <= bytes@.len(),
            data == bytes@.take(num_bytes as int),
            out@ == head2 + ascii_region(data).take(j as int),
        decreases num_bytes - j,
    {
        let b: u8 = *vstd::slice::slice_index_get(bytes, j);
        if 31 < b && b < 127 {
            out.push(b);
        } else {
            out.push(46);
        }
        assert(out@ =~= head2 + ascii_region(data).take(j + 1));
        j = j + 1;
    }
    proof {
        assert(ascii_region(data).take(num_bytes as int) =~= ascii_region(data));
    }
    out.push(10);
    proof {
        assert(out@ =~= line_spec(data, offset as nat, bytes_per_line as int));
    }
    out
}

} // verus!
