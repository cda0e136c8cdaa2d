//! Byte-level comparison: differing positions, hex dump lines, chunk plans
//! and hexadecimal encoding.

use crate::text::string_push;
use vstd::prelude::*;

verus! {

/// The hexadecimal digit for `d` (below sixteen), uppercase or lowercase.
pub open spec fn hex_digit(d: nat, upper: bool) -> char {
    if d < 10 {
        ((d + 48) as u8) as char
    } else if upper {
        ((d + 55) as u8) as char
    } else {
        ((d + 87) as u8) as char
    }
}

/// The two hexadecimal digits of byte `b`.
pub open spec fn byte_hex(b: u8, upper: bool) -> Seq<char> {
    seq![hex_digit((b / 16) as nat, upper), hex_digit((b % 16) as nat, upper)]
}

/// The bytes as lowercase hexadecimal, two digits each.
pub open spec fn hex_of(bytes: Seq<u8>) -> Seq<char>
    decreases bytes.len(),
{
    if bytes.len() == 0 {
        Seq::empty()
    } else {
        hex_of(bytes.drop_last()) + byte_hex(bytes.last(), false)
    }
}

/// Encodes bytes as lowercase hexadecimal, two digits per byte, as
/// `hex::encode` does.
pub fn hex_encode(bytes: &[u8]) -> (res: String)
    ensures
        res@ == hex_of(bytes@),
{
    let mut out = String::new();
    let n = bytes.len();
    for i in 0..n
        invariant
            n == bytes@.len(),
            out@ == hex_of(bytes@.take(i as int)),
    {
        let b = bytes[i];
        crate::text::string_push(&mut out, hex_digit_char(b / 16, false));
        crate::text::string_push(&mut out, hex_digit_char(b % 16, false));
        assert(bytes@.take(i + 1).drop_last() =~= bytes@.take(i as int));
        assert(bytes@.take(i + 1).last() == b);
        assert(out@ =~= hex_of(bytes@.take(i as int)) + byte_hex(b, false));
    }
    assert(bytes@.take(n as int) =~= bytes@);
    out
}

/// The uppercase hexadecimal digits of `n`, most significant first.
pub open spec fn hex_digits(n: nat) -> Seq<char>
    decreases n,
{
    if n < 16 {
        seq![hex_digit(n, true)]
    } else {
        hex_digits(n / 16).push(hex_digit(n % 16, true))
    }
}

/// `s` with zeros in front up to `width` characters.
pub open spec fn zero_padded(s: Seq<char>, width: nat) -> Seq<char> {
    if s.len() >= width {
        s
    } else {
        Seq::new((width - s.len()) as nat, |i: int| '0') + s
    }
}

/// How a byte shows in the text column: itself when it is a printable ASCII
/// character or a space, else a dot.
pub open spec fn shown_byte(b: u8) -> char {
    if 0x20 <= b <= 0x7e {
        b as char
    } else {
        '.'
    }
}

/// The hex column cell of position `i` holding byte `b`: an extra space
/// before position 8, then the two uppercase digits and a space.
pub open spec fn hex_cell(i: int, b: u8) -> Seq<char> {
    (if i == 8 {
        seq![' ']
    } else {
        Seq::empty()
    }) + byte_hex(b, true) + seq![' ']
}

/// The empty cell of position `i` past the data: an extra space before
/// position 8, then three spaces.
pub open spec fn pad_cell(i: int) -> Seq<char> {
    (if i == 8 {
        seq![' ']
    } else {
        Seq::empty()
    }) + seq![' ', ' ', ' ']
}

/// The hex cells of the first `n` bytes.
pub open spec fn hex_cells(data: Seq<u8>, n: int) -> Seq<char>
    decreases n,
{
    if n <= 0 {
        Seq::empty()
    } else {
        hex_cells(data, n - 1) + hex_cell(n - 1, data[n - 1])
    }
}

/// The empty cells of positions `from..to`.
pub open spec fn pad_cells(from: int, to: int) -> Seq<char>
    decreases to - from,
{
    if to <= from {
        Seq::empty()
    } else {
        pad_cells(from, to - 1) + pad_cell(to - 1)
    }
}

/// The text column of the first `n` bytes.
pub open spec fn shown_bytes(data: Seq<u8>, n: int) -> Seq<char>
    decreases n,
{
    if n <= 0 {
        Seq::empty()
    } else {
        shown_bytes(data, n - 1).push(shown_byte(data[n - 1]))
    }
}

/// One hex dump line: the offset as eight or more uppercase hexadecimal
/// digits and two spaces, a cell for each of sixteen positions, then ` |`,
/// the text column and `|`.
pub open spec fn hex_line(offset: u64, data: Seq<u8>) -> Seq<char> {
    zero_padded(hex_digits(offset as nat), 8) + seq![' ', ' '] + hex_cells(data, data.len() as int)
        + pad_cells(data.len() as int, 16) + seq![' ', '|'] + shown_bytes(data, data.len() as int)
        + seq!['|']
}

/// Positions where `left` and `right` differ: the differing positions they
/// share, then every position past the shorter one.
pub open spec fn differing_positions(left: Seq<u8>, right: Seq<u8>) -> Seq<usize> {
    let m = if left.len() <= right.len() {
        left.len()
    } else {
        right.len()
    };
    let mx = if left.len() <= right.len() {
        right.len()
    } else {
        left.len()
    };
    Seq::new(m, |i: int| i as usize).filter(|i: usize| left[i as int] != right[i as int]) + Seq::new(
        (mx - m) as nat,
        |k: int| (m + k) as usize,
    )
}

/// A chunk of binary data for hex viewing.
#[derive(Debug, Clone)]
pub struct HexChunk {
    pub offset: u64,
    pub left_data: Vec<u8>,
    pub right_data: Vec<u8>,
    /// Indices where the bytes differ.
    pub differences: Vec<usize>,
}

/// Binary comparison engine.
pub struct BinaryDiffEngine {
    pub chunk_size: usize,
}

/// The hexadecimal digit for `d`.
fn hex_digit_char(d: u8, upper: bool) -> (res: char)
    requires
        d < 16,
    ensures
        res == hex_digit(d as nat, upper),
{
    if d < 10 {
        (d + 48) as char
    } else if upper {
        (d + 55) as char
    } else {
        (d + 87) as char
    }
}

/// Appends the two hexadecimal digits of `b`.
fn push_byte_hex(s: &mut String, b: u8, upper: bool)
    ensures
        final(s)@ == old(s)@ + byte_hex(b, upper),
{
    string_push(s, hex_digit_char(b / 16, upper));
    string_push(s, hex_digit_char(b % 16, upper));
    assert(final(s)@ =~= old(s)@ + byte_hex(b, upper));
}

/// The uppercase hexadecimal digits of `n`.
fn hex_digit_chars(n: u64) -> (res: Vec<char>)
    ensures
        res@ == hex_digits(n as nat),
    decreases n,
{
    let c = hex_digit_char((n % 16) as u8, true);
    if n < 16 {
        vec![c]
    } else {
        let mut v = hex_digit_chars(n / 16);
        v.push(c);
        v
    }
}

impl BinaryDiffEngine {
    pub fn new(chunk_size: usize) -> (res: Self)
        ensures
            res.chunk_size == chunk_size,
    {
        BinaryDiffEngine { chunk_size }
    }

    /// Positions where the two byte strings differ.
    pub fn find_differences(&self, left: &[u8], right: &[u8]) -> (res: Vec<usize>)
        ensures
            res@ == differing_positions(left@, right@),
    {
        let min_len = if left.len() <= right.len() {
            left.len()
        } else {
            right.len()
        };
        let max_len = if left.len() <= right.len() {
            right.len()
        } else {
            left.len()
        };
        let ghost all = Seq::new(min_len as nat, |i: int| i as usize);
        let ghost keep = |i: usize| left@[i as int] != right@[i as int];
        let mut diffs: Vec<usize> = Vec::new();
        for i in 0..min_len
            invariant
                min_len <= left@.len(),
                min_len <= right@.len(),
                all == Seq::new(min_len as nat, |i: int| i as usize),
                keep == (|i: usize| left@[i as int] != right@[i as int]),
                diffs@ == all.take(i as int).filter(keep),
        {
            proof {
                assert(all.take(i + 1).drop_last() =~= all.take(i as int));
                assert(all.take(i + 1).last() == i);
                reveal(Seq::filter);
            }
            if left[i] != right[i] {
                diffs.push(i);
            }
        }
        assert(all.take(min_len as int) =~= all);
        let ghost head = diffs@;
        let mut i = min_len;
        while i < max_len
            invariant
                min_len <= i <= max_len,
                diffs@ == head + Seq::new((i - min_len) as nat, |k: int| (min_len + k) as usize),
            decreases max_len - i,
        {
            diffs.push(i);
            i += 1;
            assert(diffs@ =~= head + Seq::new((i - min_len) as nat, |k: int| (min_len + k) as usize));
        }
        assert(Seq::new(min_len as nat, |i: int| i as usize) =~= all);
        diffs
    }

    /// Format a hex dump line: offset, hex cells and text column.
    pub fn format_hex_line(&self, offset: u64, data: &[u8]) -> (res: String)
        ensures
            res@ == hex_line(offset, data@),
    {
        let mut result = String::new();
        let digits = hex_digit_chars(offset);
        let mut p = digits.len();
        while p < 8
            invariant
                digits.len() <= p <= 8 || (p == digits.len() && p >= 8),
                result@ == Seq::new((p - digits.len()) as nat, |i: int| '0'),
            decreases 8 - p,
        {
            string_push(&mut result, '0');
            p += 1;
            assert(result@ =~= Seq::new((p - digits.len()) as nat, |i: int| '0'));
        }
        crate::text::push_chars(&mut result, digits.as_slice());
        assert(result@ =~= zero_padded(hex_digits(offset as nat), 8));
        string_push(&mut result, ' ');
        string_push(&mut result, ' ');
        let ghost head = result@;
        let n = data.len();
        for i in 0..n
            invariant
                n == data@.len(),
                result@ == head + hex_cells(data@, i as int),
        {
            if i == 8 {
                string_push(&mut result, ' ');
            }
            push_byte_hex(&mut result, data[i], true);
            string_push(&mut result, ' ');
            assert(result@ =~= head + hex_cells(data@, i + 1));
        }
        let ghost head2 = result@;
        let mut i = n;
        while i < 16
            invariant
                n <= i,
                i <= 16 || i == n,
                result@ == head2 + pad_cells(n as int, i as int),
            decreases 16 - i,
        {
            if i == 8 {
                string_push(&mut result, ' ');
            }
            string_push(&mut result, ' ');
            string_push(&mut result, ' ');
            string_push(&mut result, ' ');
            assert(result@ =~= head2 + pad_cells(n as int, i + 1));
            i += 1;
        }
        assert(pad_cells(n as int, i as int) == pad_cells(n as int, 16)) by {
            if n >= 16 {
                assert(pad_cells(n as int, 16) == Seq::<char>::empty());
                assert(pad_cells(n as int, n as int) == Seq::<char>::empty());
            }
        }
        string_push(&mut result, ' ');
        string_push(&mut result, '|');
        let ghost head3 = result@;
        for i in 0..n
            invariant
                n == data@.len(),
                result@ == head3 + shown_bytes(data@, i as int),
        {
            let b = data[i];
            let ch = if 0x20 <= b && b <= 0x7e {
                b as char
            } else {
                '.'
            };
            string_push(&mut result, ch);
            assert(result@ =~= head3 + shown_bytes(data@, i + 1));
        }
        string_push(&mut result, '|');
        assert(result@ =~= hex_line(offset, data@));
        result
    }

    /// The chunk at `offset` holding the two sides' bytes read there, with
    /// the positions where they differ.
    pub fn chunk_from_data(&self, offset: u64, left_data: Vec<u8>, right_data: Vec<u8>) -> (res: HexChunk)
        ensures
            res.offset == offset,
            res.left_data@ == left_data@,
            res.right_data@ == right_data@,
            res.differences@ == differing_positions(left_data@, right_data@),
    {
        let differences = self.find_differences(left_data.as_slice(), right_data.as_slice());
        HexChunk { offset, left_data, right_data, differences }
    }

    /// Offsets of the chunks that cover `max_len` bytes: every multiple of
    /// the chunk size below `max_len`.
    pub fn chunk_offsets(&self, max_len: u64) -> (res: Vec<u64>)
        requires
            self.chunk_size > 0,
        ensures
            res@.len() == (if max_len == 0 {
                0
            } else {
                (max_len - 1) / (self.chunk_size as int) + 1
            }),
            forall|k: int| 0 <= k < res@.len() ==> #[trigger] res@[k] == k * self.chunk_size,
    {
        let cs = self.chunk_size as u64;
        let mut offsets: Vec<u64> = Vec::new();
        let mut offset: u64 = 0;
        assert(0int * cs == 0) by (nonlinear_arith);
        loop
            invariant_except_break
                offset == offsets@.len() * cs,
                offsets@.len() == 0 || offset - cs < max_len,
            invariant
                cs == self.chunk_size,
                cs > 0,
                forall|k: int| 0 <= k < offsets@.len() ==> #[trigger] offsets@[k] == k * cs,
            ensures
                offsets@.len() == (if max_len == 0 {
                    0
                } else {
                    (max_len - 1) / (cs as int) + 1
                }),
                forall|k: int| 0 <= k < offsets@.len() ==> #[trigger] offsets@[k] == k * cs,
            decreases max_len - offset,
        {
            if offset >= max_len {
                proof {
                    if offsets@.len() > 0 {
                        let n = offsets@.len() as int;
                        assert((n - 1) * cs == n * cs - cs) by (nonlinear_arith);
                        assert(n == (max_len - 1) / (cs as int) + 1) by (nonlinear_arith)
                            requires
                                (n - 1) * cs < max_len,
                                max_len <= n * cs,
                                cs > 0,
                                max_len > 0,
                        ;
                    }
                }
                break;
            }
            let ghost n = offsets@.len() as int;
            offsets.push(offset);
            assert((n + 1) * cs == n * cs + cs) by (nonlinear_arith);
            if max_len - offset <= cs {
                proof {
                    assert(n == (max_len - 1) / (cs as int)) by (nonlinear_arith)
                        requires
                            n * cs < max_len,
                            max_len <= n * cs + cs,
                            cs > 0,
                    ;
                }
                break;
            }
            offset = offset + cs;
        }
        offsets
    }
}

impl Default for BinaryDiffEngine {
    fn default() -> (res: Self)
        ensures
            res.chunk_size == 256,
    {
        Self::new(256)
    }
}

} // verus!
