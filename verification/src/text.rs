use vstd::prelude::*;

use crate::board_printer::chars_to_string;
use crate::groups::{C2, D3, D6, K4};
use crate::onoro_impl::OnoroImpl;
use crate::packed_idx::PackedIdx;
use crate::tile_hash::HashGroup;

verus! {

/// The character of the digit `d`, lower case past 9.
pub open spec fn digit_char(d: nat) -> char {
    if d < 10 {
        (48 + d) as char
    } else {
        (87 + d) as char
    }
}

/// The decimal digits of `n`, most significant first.
pub open spec fn dec_digits(n: nat) -> Seq<char>
    decreases n,
{
    if n < 10 {
        seq![digit_char(n)]
    } else {
        dec_digits(n / 10).push(digit_char(n % 10))
    }
}

/// The hexadecimal digits of `n`, most significant first.
pub open spec fn hex_digits(n: nat) -> Seq<char>
    decreases n,
{
    if n < 16 {
        seq![digit_char(n)]
    } else {
        hex_digits(n / 16).push(digit_char(n % 16))
    }
}

/// `s` with zeros in front, up to `w` characters.
pub open spec fn zero_pad(s: Seq<char>, w: nat) -> Seq<char> {
    if s.len() >= w {
        s
    } else {
        Seq::new((w - s.len()) as nat, |i: int| '0') + s
    }
}

/// `n` in hexadecimal with a `0x` prefix, its digits padded with zeros to
/// `width` characters in all.
pub open spec fn hex_text(n: nat, width: nat) -> Seq<char> {
    seq!['0', 'x'] + zero_pad(hex_digits(n), (width - 2) as nat)
}

/// The character of the digit `d`.
fn digit(d: u64) -> (c: char)
    requires
        d < 16,
    ensures
        c == digit_char(d as nat),
{
    let b: u8 = d as u8;
    if b < 10 {
        (48u8 + b) as char
    } else {
        (87u8 + b) as char
    }
}

/// Appends the decimal digits of `n`.
pub fn push_decimal(out: &mut Vec<char>, n: u64)
    ensures
        final(out)@ == old(out)@ + dec_digits(n as nat),
    decreases n,
{
    if n >= 10 {
        push_decimal(out, n / 10);
    }
    out.push(digit(n % 10));
    proof {
        if n >= 10 {
            assert(dec_digits(n as nat) == dec_digits((n / 10) as nat).push(digit_char((n % 10) as nat)));
        }
    }
}

/// Appends the hexadecimal digits of `n`.
fn push_hex_digits(out: &mut Vec<char>, n: u64)
    ensures
        final(out)@ == old(out)@ + hex_digits(n as nat),
    decreases n,
{
    if n >= 16 {
        push_hex_digits(out, n / 16);
    }
    out.push(digit(n % 16));
}

/// Appends `n` in hexadecimal with a `0x` prefix, padded with zeros to
/// `width` characters in all.
pub fn push_hex(out: &mut Vec<char>, n: u64, width: usize)
    requires
        2 <= width <= 64,
    ensures
        final(out)@ == old(out)@ + hex_text(n as nat, width as nat),
{
    let mut digits: Vec<char> = Vec::new();
    push_hex_digits(&mut digits, n);
    assert(digits@ == hex_digits(n as nat));
    out.push('0');
    out.push('x');
    let ghost start = out@;
    let mut k: usize = digits.len();
    while k < width - 2
        invariant
            digits.len() <= k <= width - 2 || (k == digits.len() && digits.len() > width - 2),
            2 <= width <= 64,
            out@ == start + Seq::new((k - digits.len()) as nat, |i: int| '0'),
        decreases width - 2 - k,
    {
        out.push('0');
        k += 1;
        proof {
            assert(out@ =~= start + Seq::new((k - digits.len()) as nat, |i: int| '0'));
        }
    }
    let ghost padded = out@;
    let mut j: usize = 0;
    while j < digits.len()
        invariant
            j <= digits.len(),
            out@ == padded + digits@.take(j as int),
        decreases digits.len() - j,
    {
        out.push(digits[j]);
        j += 1;
        proof {
            assert(out@ =~= padded + digits@.take(j as int));
        }
    }
    proof {
        assert(digits@.take(digits.len() as int) =~= digits@);
        if digits.len() >= width - 2 {
            assert(padded =~= start);
        }
        assert(out@ =~= old(out)@ + hex_text(n as nat, width as nat));
    }
}

/// `(x, y)`.
pub open spec fn pos_text(x: nat, y: nat) -> Seq<char> {
    seq!['('] + dec_digits(x) + seq![',', ' '] + dec_digits(y) + seq![')']
}

impl PackedIdx {
    /// The position as `(x, y)`.
    pub fn to_string(&self) -> (r: String)
        ensures
            r@ == pos_text(self.sx() as nat, self.sy() as nat),
    {
        let mut out: Vec<char> = Vec::new();
        out.push('(');
        push_decimal(&mut out, self.x() as u64);
        out.push(',');
        out.push(' ');
        push_decimal(&mut out, self.y() as u64);
        out.push(')');
        proof {
            assert(out@ =~= pos_text(self.sx() as nat, self.sy() as nat));
        }
        chars_to_string(&out)
    }
}

/// The `k` lowest segments of `bits` bits of `h`, lowest first, each in
/// hexadecimal as `hex_text` with the given width, separated by spaces.
pub open spec fn segments_text(h: u64, bits: u64, mask: u64, k: nat, width: nat) -> Seq<char>
    decreases k,
{
    if k == 0 {
        Seq::empty()
    } else {
        let seg = hex_text(((h >> ((bits * (k - 1)) as u64)) & mask) as nat, width);
        if k == 1 {
            seg
        } else {
            segments_text(h, bits, mask, (k - 1) as nat, width) + seq![' '] + seg
        }
    }
}

/// Appends the `k` lowest segments of `bits` bits of `h`.
fn push_segments(out: &mut Vec<char>, h: u64, bits: u64, mask: u64, k: u64, width: usize)
    requires
        bits * k <= 64,
        2 <= width <= 64,
    ensures
        final(out)@ == old(out)@ + segments_text(h, bits, mask, k as nat, width as nat),
{
    let ghost start = out@;
    let mut i: u64 = 0;
    while i < k
        invariant
            i <= k,
            bits * k <= 64,
            2 <= width <= 64,
            out@ == start + segments_text(h, bits, mask, i as nat, width as nat),
        decreases k - i,
    {
        if i > 0 {
            out.push(' ');
        }
        assert(bits * i < 64) by (nonlinear_arith)
            requires
                bits * k <= 64,
                i < k,
        ;
        push_hex(out, (h >> (bits * i)) & mask, width);
        i += 1;
        proof {
            assert(out@ =~= start + segments_text(h, bits, mask, i as nat, width as nat));
        }
    }
}

impl HashGroup<D6> {
    /// The six segments of ten bits, lowest first, in hexadecimal.
    pub fn to_string(&self) -> (r: String)
        ensures
            r@ == segments_text(self.view_hash(), 10, 0x3ff, 6, 5),
    {
        let mut out: Vec<char> = Vec::new();
        push_segments(&mut out, self.hash(), 10, 0x3ff, 6, 5);
        chars_to_string(&out)
    }
}

impl HashGroup<D3> {
    /// The three segments of twenty bits, lowest first, in hexadecimal.
    pub fn to_string(&self) -> (r: String)
        ensures
            r@ == segments_text(self.view_hash(), 20, 0xfffff, 3, 7),
    {
        let mut out: Vec<char> = Vec::new();
        push_segments(&mut out, self.hash(), 20, 0xfffff, 3, 7);
        chars_to_string(&out)
    }
}

impl HashGroup<K4> {
    /// The four segments of sixteen bits, lowest first, in hexadecimal.
    pub fn to_string(&self) -> (r: String)
        ensures
            r@ == segments_text(self.view_hash(), 16, 0xffff, 4, 6),
    {
        let mut out: Vec<char> = Vec::new();
        push_segments(&mut out, self.hash(), 16, 0xffff, 4, 6);
        chars_to_string(&out)
    }
}

impl HashGroup<C2> {
    /// The two halves of 32 bits, lowest first, in hexadecimal.
    pub fn to_string(&self) -> (r: String)
        ensures
            r@ == segments_text(self.view_hash(), 32, 0xffff_ffff, 2, 10),
    {
        let mut out: Vec<char> = Vec::new();
        push_segments(&mut out, self.hash(), 32, 0xffff_ffff, 2, 10);
        chars_to_string(&out)
    }
}

/// The positions of the first `k` of `s`, each as `{x,y}`, separated by
/// commas.
pub open spec fn positions_list(s: Seq<PackedIdx>, k: nat) -> Seq<char>
    decreases k,
{
    if k == 0 {
        Seq::empty()
    } else {
        let item = seq!['{'] + dec_digits(s[k - 1].sx() as nat) + seq![','] + dec_digits(s[k - 1].sy() as nat)
            + seq!['}'];
        if k == 1 {
            item
        } else {
            positions_list(s, (k - 1) as nat) + seq![','] + item
        }
    }
}

impl<const N: usize> OnoroImpl<N> {
    /// The positions of the pawns as a list of Mathematica: `{{x,y},...}`.
    pub fn pawns_mathematica_list(&self) -> (r: String)
        requires
            self.wf(),
        ensures
            r@ == seq!['{'] + positions_list(self.poses(), self.n_spec() as nat) + seq!['}'],
    {
        let pawns = self.pawns();
        let mut out: Vec<char> = Vec::new();
        out.push('{');
        let ghost start = out@;
        let mut k: usize = 0;
        while k < pawns.len()
            invariant
                k <= pawns.len(),
                pawns.len() == self.n_spec(),
                forall|j: int| 0 <= j < pawns.len() ==> (#[trigger] pawns[j]).pos == self.poses()[j],
                out@ == start + positions_list(self.poses(), k as nat),
            decreases pawns.len() - k,
        {
            if k > 0 {
                out.push(',');
            }
            out.push('{');
            push_decimal(&mut out, pawns[k].pos.x() as u64);
            out.push(',');
            push_decimal(&mut out, pawns[k].pos.y() as u64);
            out.push('}');
            k += 1;
            proof {
                assert(out@ =~= start + positions_list(self.poses(), k as nat));
            }
        }
        out.push('}');
        proof {
            assert(out@ =~= seq!['{'] + positions_list(self.poses(), self.n_spec() as nat) + seq!['}']);
        }
        chars_to_string(&out)
    }
}

} // verus!
