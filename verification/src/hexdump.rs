//! A formatting aid for pretty-printing a byte buffer, not unlike the
//! `hexdump` utility.
//!
//! Output format: each byte becomes a two-digit lowercase hex token; tokens
//! within a row are separated by single spaces, rows by single newlines, and
//! (optionally) each row is prefixed with the zero-padded eight-digit
//! lowercase hex offset of its first byte followed by a tab. No leading or
//! trailing separators are ever emitted; an empty buffer renders to the
//! empty string.

use vstd::arithmetic::div_mod::lemma_add_mod_noop;
use vstd::arithmetic::div_mod::lemma_mod_multiples_basic;
use vstd::arithmetic::div_mod::lemma_multiply_divide_lt;
use vstd::arithmetic::div_mod::lemma_small_mod;
use vstd::prelude::*;
use vstd::string::StrSliceExecFns;
use vstd::string::StringExecFns;

verus! {

/// The lowercase hexadecimal digit for a value below 16.
pub open spec fn hex_digit(n: int) -> char {
    if n == 0 {
        '0'
    } else if n == 1 {
        '1'
    } else if n == 2 {
        '2'
    } else if n == 3 {
        '3'
    } else if n == 4 {
        '4'
    } else if n == 5 {
        '5'
    } else if n == 6 {
        '6'
    } else if n == 7 {
        '7'
    } else if n == 8 {
        '8'
    } else if n == 9 {
        '9'
    } else if n == 10 {
        'a'
    } else if n == 11 {
        'b'
    } else if n == 12 {
        'c'
    } else if n == 13 {
        'd'
    } else if n == 14 {
        'e'
    } else {
        'f'
    }
}

/// The two-digit lowercase hex token of one byte.
pub open spec fn byte_token(b: u8) -> Seq<char> {
    seq![hex_digit(b as int / 16), hex_digit(b as int % 16)]
}

/// The lowercase hexadecimal digits of `n`, zero-padded on the left to at
/// least `width` digits (more digits appear only when `n` needs them).
pub open spec fn hex_index(n: nat, width: nat) -> Seq<char>
    decreases n, width,
{
    if n < 16 && width <= 1 {
        seq![hex_digit(n as int)]
    } else {
        hex_index(n / 16, if width <= 1 {
            0
        } else {
            (width - 1) as nat
        }).push(hex_digit(n as int % 16))
    }
}

/// The index column at byte offset `i`: eight (or more) hex digits and a tab.
pub open spec fn index_field(i: nat) -> Seq<char> {
    hex_index(i, 8).push('\t')
}

/// What precedes the token of byte `i`: the index column at the start of a
/// row when indices are shown, nothing otherwise.
pub open spec fn row_prefix(i: nat, show: bool, w: nat) -> Seq<char> {
    if show && i % w == 0 {
        index_field(i)
    } else {
        Seq::empty()
    }
}

/// What follows the token of byte `i` in a buffer of length `len`: nothing
/// after the final byte, a newline at the end of a row, a space otherwise.
pub open spec fn separator(i: nat, len: nat, w: nat) -> Seq<char> {
    if i + 1 == len {
        Seq::empty()
    } else if i % w == (w - 1) {
        seq!['\n']
    } else {
        seq![' ']
    }
}

/// The rendering of `data` from byte `i` on.
pub open spec fn render_from(data: Seq<u8>, i: nat, show: bool, w: nat) -> Seq<char>
    decreases data.len() - i,
{
    if i >= data.len() {
        Seq::empty()
    } else {
        row_prefix(i, show, w) + byte_token(data[i as int]) + separator(i, data.len(), w)
            + render_from(data, (i + 1) as nat, show, w)
    }
}

/// The complete rendering of `data` with row width `w`, with the index
/// column shown iff `show`.
pub open spec fn spec_render(data: Seq<u8>, show: bool, w: nat) -> Seq<char> {
    render_from(data, 0, show, w)
}

/// The one-character string holding the lowercase hex digit for `d`.
fn hex_digit_str(d: u8) -> (s: &'static str)
    requires
        d < 16,
    ensures
        s@ == seq![hex_digit(d as int)],
{
    proof {
        reveal_strlit("0");
        reveal_strlit("1");
        reveal_strlit("2");
        reveal_strlit("3");
        reveal_strlit("4");
        reveal_strlit("5");
        reveal_strlit("6");
        reveal_strlit("7");
        reveal_strlit("8");
        reveal_strlit("9");
        reveal_strlit("a");
        reveal_strlit("b");
        reveal_strlit("c");
        reveal_strlit("d");
        reveal_strlit("e");
        reveal_strlit("f");
    }
    if d == 0 {
        "0"
    } else if d == 1 {
        "1"
    } else if d == 2 {
        "2"
    } else if d == 3 {
        "3"
    } else if d == 4 {
        "4"
    } else if d == 5 {
        "5"
    } else if d == 6 {
        "6"
    } else if d == 7 {
        "7"
    } else if d == 8 {
        "8"
    } else if d == 9 {
        "9"
    } else if d == 10 {
        "a"
    } else if d == 11 {
        "b"
    } else if d == 12 {
        "c"
    } else if d == 13 {
        "d"
    } else if d == 14 {
        "e"
    } else {
        "f"
    }
}

/// Renders `n` as lowercase hex digits, zero-padded to at least `width`.
fn hex_index_string(n: usize, width: usize) -> (s: String)
    ensures
        s@ == hex_index(n as nat, width as nat),
    decreases n, width,
{
    if n < 16 && width <= 1 {
        let s = String::from_str(hex_digit_str(n as u8));
        proof {
            assert(s@ =~= hex_index(n as nat, width as nat));
        }
        s
    } else {
        let rest_width: usize = if width <= 1 {
            0
        } else {
            width - 1
        };
        let mut s = hex_index_string(n / 16, rest_width);
        s.append(hex_digit_str((n % 16) as u8));
        proof {
            assert(s@ =~= hex_index(n as nat, width as nat));
        }
        s
    }
}

/// A formatting aid for pretty-printing a byte buffer.
pub struct Hexdump {
    data: Vec<u8>,
    show_index: bool,
    items_per_row: usize,
}

impl Hexdump {
    /// The bytes to be rendered.
    pub closed spec fn bytes(&self) -> Seq<u8> {
        self.data@
    }

    /// Whether each row is prefixed with the offset of its first byte.
    pub closed spec fn index_shown(&self) -> bool {
        self.show_index
    }

    /// How many bytes are rendered per row.
    pub closed spec fn row_width(&self) -> usize {
        self.items_per_row
    }

    /// Creates a new Hexdump instance from a byte slice.
    ///
    /// Defaults: the index column is shown, sixteen bytes per row.
    pub fn new(data: &[u8]) -> (d: Hexdump)
        ensures
            d.bytes() == data@,
            d.index_shown(),
            d.row_width() == 16,
    {
        Hexdump { data: vstd::slice::slice_to_vec(data), show_index: true, items_per_row: 16 }
    }

    /// Controls whether or not to show the current index at the beginning of
    /// each row.
    ///
    /// Default: true
    pub fn show_index(self, value: bool) -> (d: Hexdump)
        ensures
            d.bytes() == self.bytes(),
            d.index_shown() == value,
            d.row_width() == self.row_width(),
    {
        Hexdump { show_index: value, ..self }
    }

    /// Controls the amount of bytes to print in each row. A width of zero is
    /// never rendered: `render` demands a width of at least one.
    ///
    /// Default: 16
    pub fn items_per_row(self, value: usize) -> (d: Hexdump)
        ensures
            d.bytes() == self.bytes(),
            d.index_shown() == self.index_shown(),
            d.row_width() == value,
    {
        Hexdump { items_per_row: value, ..self }
    }

    /// Renders the buffer: two-digit lowercase hex tokens, single spaces
    /// within a row, single newlines between rows, and, when the index is
    /// shown, each row prefixed with the zero-padded eight-digit lowercase
    /// hex offset of its first byte followed by a tab. No leading or
    /// trailing separators; an empty buffer gives the empty string.
    pub fn render(&self) -> (r: String)
        requires
            self.row_width() >= 1,
        ensures
            r@ == spec_render(self.bytes(), self.index_shown(), self.row_width() as nat),
    {
        let len: usize = self.data.len();
        let w: usize = self.items_per_row;
        let mut out = String::from_str("");
        proof {
            reveal_strlit("");
            assert(out@ + render_from(self.data@, 0, self.show_index, w as nat) =~= spec_render(
                self.data@,
                self.show_index,
                w as nat,
            ));
        }
        let mut i: usize = 0;
        while i < len
            invariant
                len == self.data.len(),
                w == self.items_per_row,
                w >= 1,
                i <= len,
                out@ + render_from(self.data@, i as nat, self.show_index, w as nat)
                    == spec_render(self.data@, self.show_index, w as nat),
            decreases len - i,
        {
            proof {
                reveal_strlit("\t");
                reveal_strlit("\n");
                reveal_strlit(" ");
            }
            let ghost pre = out@;
            if self.show_index && i % w == 0 {
                let idx = hex_index_string(i, 8);
                out.append(idx.as_str());
                out.append("\t");
            }
            proof {
                assert(out@ =~= pre + row_prefix(i as nat, self.show_index, w as nat));
            }
            let b: u8 = self.data[i];
            out.append(hex_digit_str(b / 16));
            out.append(hex_digit_str(b % 16));
            let ghost with_token = pre + row_prefix(i as nat, self.show_index, w as nat)
                + byte_token(b);
            proof {
                assert(out@ =~= with_token);
            }
            if i != len - 1 {
                if i % w == w - 1 {
                    out.append("\n");
                } else {
                    out.append(" ");
                }
            }
            proof {
                assert(out@ =~= with_token + separator(i as nat, len as nat, w as nat));
                assert(out@ + render_from(self.data@, (i + 1) as nat, self.show_index, w as nat)
                    =~= pre + render_from(self.data@, i as nat, self.show_index, w as nat));
            }
            i = i + 1;
        }
        proof {
            assert(out@ + render_from(self.data@, i as nat, self.show_index, w as nat) =~= out@);
        }
        out
    }
}

/// An empty buffer renders to the empty string, whatever the options.
pub proof fn lemma_render_empty(data: Seq<u8>, show: bool, w: nat)
    requires
        data.len() == 0,
    ensures
        spec_render(data, show, w) == Seq::<char>::empty(),
{
}

proof fn lemma_tokens_only_from(data: Seq<u8>, i: nat, w: nat)
    requires
        w >= 1,
        i <= data.len(),
    ensures
        render_from(data, i, false, w).len() == if i == data.len() {
            0int
        } else {
            3 * (data.len() - i) - 1
        },
        forall|k: int|
            i <= k < data.len() ==> render_from(data, i, false, w).subrange(
                3 * (k - i),
                3 * (k - i) + 2,
            ) == byte_token(#[trigger] data[k]),
        forall|k: int|
            i <= k && k + 1 < data.len() ==> render_from(data, i, false, w)[3 * (k - i) + 2] == (
            #[trigger] separator(k as nat, data.len(), w))[0],
    decreases data.len() - i,
{
    if i < data.len() {
        lemma_tokens_only_from(data, (i + 1) as nat, w);
        let r_i = render_from(data, i, false, w);
        let r_next = render_from(data, (i + 1) as nat, false, w);
        let head = byte_token(data[i as int]) + separator(i, data.len(), w);
        assert(r_i =~= head + r_next);
        assert forall|k: int| i <= k < data.len() implies r_i.subrange(
            3 * (k - i),
            3 * (k - i) + 2,
        ) == byte_token(#[trigger] data[k]) by {
            if k == i {
                assert(r_i.subrange(0, 2) =~= byte_token(data[k]));
            } else {
                assert(r_i.subrange(3 * (k - i), 3 * (k - i) + 2) =~= r_next.subrange(
                    3 * (k - i - 1),
                    3 * (k - i - 1) + 2,
                ));
            }
        }
        assert forall|k: int| i <= k && k + 1 < data.len() implies r_i[3 * (k - i) + 2] == (
        #[trigger] separator(k as nat, data.len(), w))[0] by {
            if k == i {
                assert(r_i[2] == separator(i, data.len(), w)[0]);
            } else {
                assert(r_i[3 * (k - i) + 2] == r_next[3 * (k - i - 1) + 2]);
            }
        }
    }
}

/// With the index column off, a rendering consists of exactly one two-digit
/// lowercase hex token per byte and single one-character separators: token
/// `k` occupies positions `3k` and `3k+1`, position `3k+2` holds a newline
/// at the end of a row and a space elsewhere, and the total length is
/// `3*len - 1` (so there is no leading or trailing separator and no other
/// character at all).
pub proof fn lemma_tokens_only(data: Seq<u8>, w: nat)
    requires
        w >= 1,
    ensures
        spec_render(data, false, w).len() == if data.len() == 0 {
            0int
        } else {
            3 * data.len() - 1
        },
        forall|k: int|
            0 <= k < data.len() ==> spec_render(data, false, w).subrange(3 * k, 3 * k + 2)
                == byte_token(#[trigger] data[k]),
        forall|k: int|
            0 <= k && k + 1 < data.len() ==> spec_render(data, false, w)[3 * k + 2] == (
            #[trigger] separator(k as nat, data.len(), w))[0],
{
    lemma_tokens_only_from(data, 0, w);
}

/// The value of a lowercase hexadecimal digit.
pub open spec fn hex_val(c: char) -> int {
    if c == '0' {
        0
    } else if c == '1' {
        1
    } else if c == '2' {
        2
    } else if c == '3' {
        3
    } else if c == '4' {
        4
    } else if c == '5' {
        5
    } else if c == '6' {
        6
    } else if c == '7' {
        7
    } else if c == '8' {
        8
    } else if c == '9' {
        9
    } else if c == 'a' {
        10
    } else if c == 'b' {
        11
    } else if c == 'c' {
        12
    } else if c == 'd' {
        13
    } else if c == 'e' {
        14
    } else {
        15
    }
}

/// The byte a two-digit hex token stands for.
pub open spec fn token_byte(s: Seq<char>) -> u8 {
    (16 * hex_val(s[0]) + hex_val(s[1])) as u8
}

/// Parsing the token of a byte gives the byte back.
pub proof fn lemma_token_byte_inverse(b: u8)
    ensures
        token_byte(byte_token(b)) == b,
{
}

/// Round trip: with the index column off, reading the two-digit token at
/// positions `3k` and `3k+1` of the rendering and parsing it as a hex pair
/// reconstructs byte `k`, so the whole buffer is reconstructed exactly.
pub proof fn lemma_round_trip(data: Seq<u8>, w: nat)
    requires
        w >= 1,
    ensures
        Seq::new(
            data.len(),
            |k: int| token_byte(spec_render(data, false, w).subrange(3 * k, 3 * k + 2)),
        ) == data,
{
    lemma_tokens_only(data, w);
    assert(Seq::new(
        data.len(),
        |k: int| token_byte(spec_render(data, false, w).subrange(3 * k, 3 * k + 2)),
    ) =~= data);
}

/// Sixteen to the power `e`.
pub open spec fn sixteen_pow(e: nat) -> nat
    decreases e,
{
    if e == 0 {
        1
    } else {
        16 * sixteen_pow((e - 1) as nat)
    }
}

proof fn lemma_hex_index_len(n: nat, width: nat)
    requires
        1 <= width,
        n < sixteen_pow(width),
    ensures
        hex_index(n, width).len() == width,
    decreases width,
{
    if width == 1 {
        assert(sixteen_pow(0) == 1);
        assert(n < 16);
    } else {
        assert(sixteen_pow(width) == 16 * sixteen_pow((width - 1) as nat));
        lemma_multiply_divide_lt(n as int, 16, sixteen_pow((width - 1) as nat) as int);
        lemma_hex_index_len(n / 16, (width - 1) as nat);
    }
}

proof fn lemma_sixteen_pow_8()
    ensures
        sixteen_pow(8) == 0x100000000,
{
    assert(sixteen_pow(0) == 1);
    assert(sixteen_pow(1) == 16);
    assert(sixteen_pow(2) == 0x100);
    assert(sixteen_pow(3) == 0x1000);
    assert(sixteen_pow(4) == 0x10000);
    assert(sixteen_pow(5) == 0x100000);
    assert(sixteen_pow(6) == 0x1000000);
    assert(sixteen_pow(7) == 0x10000000);
}

/// Offsets below 2^32 always take exactly eight hex digits, so the index
/// column is nine characters wide, tab included.
pub proof fn lemma_index_field_len(i: nat)
    requires
        i < 0x100000000,
    ensures
        index_field(i).len() == 9,
{
    lemma_sixteen_pow_8();
    lemma_hex_index_len(i, 8);
}

proof fn lemma_offset_mod(i: nat, t: nat, w: nat)
    requires
        w >= 1,
        i % w == 0,
        t < w,
    ensures
        (i + t) % w == t,
{
    lemma_add_mod_noop(i as int, t as int, w as int);
    lemma_small_mod(t, w);
}

proof fn lemma_row_tail(data: Seq<u8>, i: nat, t: nat, w: nat)
    requires
        w >= 1,
        i % w == 0,
        1 <= t <= w,
        i + w < data.len(),
    ensures
        render_from(data, (i + t) as nat, true, w).skip(3 * (w - t)) == render_from(
            data,
            (i + w) as nat,
            true,
            w,
        ),
        render_from(data, (i + t) as nat, true, w).len() == 3 * (w - t) + render_from(
            data,
            (i + w) as nat,
            true,
            w,
        ).len(),
    decreases w - t,
{
    if t == w {
        assert(render_from(data, (i + t) as nat, true, w).skip(0) =~= render_from(
            data,
            (i + w) as nat,
            true,
            w,
        ));
    } else {
        let j = (i + t) as nat;
        lemma_offset_mod(i, t, w);
        lemma_row_tail(data, i, (t + 1) as nat, w);
        let head = byte_token(data[j as int]) + separator(j, data.len(), w);
        assert(render_from(data, j, true, w) =~= head + render_from(
            data,
            (j + 1) as nat,
            true,
            w,
        ));
        assert(head.len() == 3);
        assert(render_from(data, j, true, w).skip(3 * (w - t)) =~= render_from(
            data,
            (j + 1) as nat,
            true,
            w,
        ).skip(3 * (w - (t + 1))));
    }
}

proof fn lemma_row_skip(data: Seq<u8>, i: nat, w: nat)
    requires
        w >= 1,
        i % w == 0,
        i + w < data.len(),
        i < 0x100000000,
    ensures
        render_from(data, i, true, w).skip(9 + 3 * (w as int)) == render_from(
            data,
            (i + w) as nat,
            true,
            w,
        ),
        render_from(data, i, true, w).len() == 9 + 3 * w + render_from(
            data,
            (i + w) as nat,
            true,
            w,
        ).len(),
{
    lemma_index_field_len(i);
    let head = index_field(i) + byte_token(data[i as int]) + separator(i, data.len(), w);
    assert(render_from(data, i, true, w) =~= head + render_from(data, (i + 1) as nat, true, w));
    assert(head.len() == 12);
    if w == 1 {
        assert(render_from(data, i, true, w).skip(12) =~= render_from(
            data,
            (i + 1) as nat,
            true,
            w,
        ));
    } else {
        lemma_row_tail(data, i, 1, w);
        assert(render_from(data, i, true, w).skip(9 + 3 * (w as int)) =~= render_from(
            data,
            (i + 1) as nat,
            true,
            w,
        ).skip(3 * (w - 1)));
    }
}

proof fn lemma_rows(data: Seq<u8>, k: int, w: nat)
    requires
        w >= 1,
        0 <= k,
        k * w < data.len(),
        data.len() <= 0x100000000,
    ensures
        spec_render(data, true, w).skip(k * (9 + 3 * (w as int))) == render_from(
            data,
            (k * w) as nat,
            true,
            w,
        ),
        spec_render(data, true, w).len() == k * (9 + 3 * (w as int)) + render_from(
            data,
            (k * w) as nat,
            true,
            w,
        ).len(),
    decreases k,
{
    let s = spec_render(data, true, w);
    let r: int = 9 + 3 * (w as int);
    if k == 0 {
        assert(k * r == 0 && k * w == 0) by (nonlinear_arith)
            requires
                k == 0,
        ;
        assert(s.skip(0) =~= render_from(data, 0, true, w));
    } else {
        assert((k - 1) * w >= 0 && (k - 1) * w + w == k * w && (k - 1) * r + r == k * r) by (nonlinear_arith)
            requires
                k >= 1,
                w >= 1,
                r == 9 + 3 * (w as int),
        ;
        let i = ((k - 1) * w) as nat;
        lemma_rows(data, k - 1, w);
        lemma_mod_multiples_basic(k - 1, w as int);
        lemma_row_skip(data, i, w);
        assert(i + w == k * w);
        assert(s.skip(k * r) =~= s.skip((k - 1) * r).skip(r));
    }
}

/// With the index column on, row `k` of the rendering starts at character
/// position `k * (9 + 3w)` and begins with the zero-padded eight-digit
/// lowercase hex value of `k * w` (the offset of its first byte) followed
/// by a tab. Stated for buffers whose offsets fit in eight digits.
pub proof fn lemma_row_offsets(data: Seq<u8>, w: nat, k: int)
    requires
        w >= 1,
        data.len() <= 0x100000000,
        0 <= k,
        k * w < data.len(),
    ensures
        spec_render(data, true, w).subrange(
            k * (9 + 3 * (w as int)),
            k * (9 + 3 * (w as int)) + 9,
        ) == index_field((k * w) as nat),
{
    let s = spec_render(data, true, w);
    let r: int = 9 + 3 * (w as int);
    lemma_rows(data, k, w);
    assert(k * w >= 0) by (nonlinear_arith)
        requires
            k >= 0,
            w >= 1,
    ;
    lemma_mod_multiples_basic(k, w as int);
    let i = (k * w) as nat;
    lemma_index_field_len(i);
    let rest = byte_token(data[i as int]) + separator(i, data.len(), w) + render_from(
        data,
        (i + 1) as nat,
        true,
        w,
    );
    assert(render_from(data, i, true, w) =~= index_field(i) + rest);
    assert(render_from(data, i, true, w).len() >= 11);
    assert(s.subrange(k * r, k * r + 9) =~= render_from(data, i, true, w).subrange(0, 9));
    assert(render_from(data, i, true, w).subrange(0, 9) =~= index_field(i));
}

/// The `n`-byte little-endian representation of a nonnegative value.
pub open spec fn le_bytes(v: int, n: nat) -> Seq<u8>
    decreases n,
{
    if n == 0 {
        Seq::empty()
    } else {
        seq![(v % 256) as u8] + le_bytes(v / 256, (n - 1) as nat)
    }
}

/// The two's-complement bits of an `i8`.
pub open spec fn i8_bits(v: i8) -> u8 {
    if v >= 0 {
        v as u8
    } else {
        (v + 0x100) as u8
    }
}

/// The two's-complement bits of an `i16`.
pub open spec fn i16_bits(v: i16) -> u16 {
    if v >= 0 {
        v as u16
    } else {
        (v + 0x10000) as u16
    }
}

/// The two's-complement bits of an `i32`.
pub open spec fn i32_bits(v: i32) -> u32 {
    if v >= 0 {
        v as u32
    } else {
        (v + 0x100000000) as u32
    }
}

/// The two's-complement bits of an `i64`.
pub open spec fn i64_bits(v: i64) -> u64 {
    if v >= 0 {
        v as u64
    } else {
        (v + 0x10000000000000000) as u64
    }
}

/// The first `n` little-endian bytes of `v`.
fn le_bytes_vec(v: u64, n: usize) -> (b: Vec<u8>)
    ensures
        b@ == le_bytes(v as int, n as nat),
    decreases n,
{
    if n == 0 {
        let b: Vec<u8> = Vec::new();
        proof {
            assert(b@ =~= le_bytes(v as int, 0));
        }
        b
    } else {
        let mut rest = le_bytes_vec(v / 256, n - 1);
        let mut b: Vec<u8> = Vec::new();
        b.push((v % 256) as u8);
        b.append(&mut rest);
        proof {
            assert(b@ =~= le_bytes(v as int, n as nat));
        }
        b
    }
}

/// A utility trait used to create Hexdump objects.
///
/// It is implemented for `[u8]` (dumping the bytes themselves) and for the
/// fixed-width primitive integers, whose dumped bytes are the value's
/// little-endian representation, negative values contributing their
/// two's-complement bits.
pub trait AsHexdump {
    /// The bytes the dump shows.
    spec fn hex_bytes(&self) -> Seq<u8>;

    /// A Hexdump over `hex_bytes`, with the default options.
    fn as_hexdump(&self) -> (d: Hexdump)
        ensures
            d.bytes() == self.hex_bytes(),
            d.index_shown(),
            d.row_width() == 16,
    ;
}

impl AsHexdump for [u8] {
    open spec fn hex_bytes(&self) -> Seq<u8> {
        self@
    }

    fn as_hexdump(&self) -> (d: Hexdump) {
        Hexdump::new(self)
    }
}

impl AsHexdump for u8 {
    open spec fn hex_bytes(&self) -> Seq<u8> {
        le_bytes(*self as int, 1)
    }

    fn as_hexdump(&self) -> (d: Hexdump) {
        let b = le_bytes_vec(*self as u64, 1);
        Hexdump::new(b.as_slice())
    }
}

impl AsHexdump for u16 {
    open spec fn hex_bytes(&self) -> Seq<u8> {
        le_bytes(*self as int, 2)
    }

    fn as_hexdump(&self) -> (d: Hexdump) {
        let b = le_bytes_vec(*self as u64, 2);
        Hexdump::new(b.as_slice())
    }
}

impl AsHexdump for u32 {
    open spec fn hex_bytes(&self) -> Seq<u8> {
        le_bytes(*self as int, 4)
    }

    fn as_hexdump(&self) -> (d: Hexdump) {
        let b = le_bytes_vec(*self as u64, 4);
        Hexdump::new(b.as_slice())
    }
}

impl AsHexdump for u64 {
    open spec fn hex_bytes(&self) -> Seq<u8> {
        le_bytes(*self as int, 8)
    }

    fn as_hexdump(&self) -> (d: Hexdump) {
        let b = le_bytes_vec(*self, 8);
        Hexdump::new(b.as_slice())
    }
}

impl AsHexdump for i8 {
    open spec fn hex_bytes(&self) -> Seq<u8> {
        le_bytes(i8_bits(*self) as int, 1)
    }

    fn as_hexdump(&self) -> (d: Hexdump) {
        let bits: u8 = if *self >= 0 {
            *self as u8
        } else {
            ((*self as i16) + 0x100) as u8
        };
        let b = le_bytes_vec(bits as u64, 1);
        Hexdump::new(b.as_slice())
    }
}

impl AsHexdump for i16 {
    open spec fn hex_bytes(&self) -> Seq<u8> {
        le_bytes(i16_bits(*self) as int, 2)
    }

    fn as_hexdump(&self) -> (d: Hexdump) {
        let bits: u16 = if *self >= 0 {
            *self as u16
        } else {
            ((*self as i32) + 0x10000) as u16
        };
        let b = le_bytes_vec(bits as u64, 2);
        Hexdump::new(b.as_slice())
    }
}

impl AsHexdump for i32 {
    open spec fn hex_bytes(&self) -> Seq<u8> {
        le_bytes(i32_bits(*self) as int, 4)
    }

    fn as_hexdump(&self) -> (d: Hexdump) {
        let bits: u32 = if *self >= 0 {
            *self as u32
        } else {
            ((*self as i64) + 0x100000000) as u32
        };
        let b = le_bytes_vec(bits as u64, 4);
        Hexdump::new(b.as_slice())
    }
}

impl AsHexdump for i64 {
    open spec fn hex_bytes(&self) -> Seq<u8> {
        le_bytes(i64_bits(*self) as int, 8)
    }

    fn as_hexdump(&self) -> (d: Hexdump) {
        let bits: u64 = if *self >= 0 {
            *self as u64
        } else {
            ((*self as i128) + 0x10000000000000000) as u64
        };
        let b = le_bytes_vec(bits, 8);
        Hexdump::new(b.as_slice())
    }
}

} // verus!
