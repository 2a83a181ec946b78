//! What holds of reads and writes of memory, whatever the cells hold.
//!
//! Memory is seen here bit by bit: the bit at bit address `g` is bit
//! `g % 64` of cell `g / 64`, and byte `a` starts at bit address `8 * a`.
//! Bit addresses wrap at the end of the address space.

use crate::memory::{
    cell_of, cell_write, cells_of, offset_of, piece_addr, piece_bits, piece_count, read_value,
    write_value, written,
};
use crate::term::{lemma_cell_len, lemma_eval_len, ArrayTerm, Interp, Term};
use vstd::prelude::*;

verus! {

/// The number of bit addresses.
pub open spec fn bit_space() -> nat {
    0x8_0000_0000_0000_0000
}

/// Every cell is there and has 64 bits.
pub open spec fn cells_wf(cells: Map<nat, Seq<bool>>) -> bool {
    forall|idx: nat|
        #![trigger cells[idx]]
        #![trigger cells.contains_key(idx)]
        cells.contains_key(idx) && cells[idx].len() == 64
}

/// An access of `w` bits at address `a` that memory serves as a whole: one
/// of at most 64 bits that stays within its cell, or a wider one that
/// starts at the start of a cell.
pub open spec fn valid_access(a: nat, w: nat) -> bool {
    &&& 0 < w <= u32::MAX
    &&& a < 0x1_0000_0000_0000_0000
    &&& w <= 64 ==> offset_of(a) + w <= 64
    &&& w > 64 ==> a % 8 == 0
}

/// The bit address of bit `k` of an access at address `a`.
pub open spec fn bit_address(a: nat, k: int) -> nat {
    ((8 * a + k) % (bit_space() as int)) as nat
}

/// The bit at a bit address.
pub open spec fn bit_at(cells: Map<nat, Seq<bool>>, g: nat) -> bool {
    cells[g / 64][(g % 64) as int]
}

/// Whether bit address `g` is one of an access of `w` bits at address `a`.
pub open spec fn in_access(a: nat, w: nat, g: nat) -> bool {
    exists|k: int| 0 <= k < w && #[trigger] bit_address(a, k) == g
}

/// Where the pieces of an aligned access lie.
proof fn lemma_piece(a: nat, j: nat)
    requires
        a < 0x1_0000_0000_0000_0000,
        a % 8 == 0,
        j < 0x1_0000_0000,
    ensures
        offset_of(piece_addr(a, j)) == 0,
        cell_of(piece_addr(a, j)) == (a / 8 + j) % 0x2000_0000_0000_0000,
{
    let big: int = (a / 8 + j) as int;
    let m: int = 0x2000_0000_0000_0000;
    assert(a + 8 * j == 8 * big);
    assert((8 * big) % (8 * m) == 8 * (big % m)) by {
        vstd::arithmetic::div_mod::lemma_truncate_middle(big, 8, m);
    }
    assert(8 * m == 0x1_0000_0000_0000_0000);
}

/// Where the bits of an aligned access lie.
proof fn lemma_bit_address_aligned(a: nat, k: int)
    requires
        a < 0x1_0000_0000_0000_0000,
        a % 8 == 0,
        0 <= k < 0x1_0000_0000,
    ensures
        bit_address(a, k) / 64 == (a / 8 + k / 64) % 0x2000_0000_0000_0000,
        bit_address(a, k) % 64 == k % 64,
{
    let big: int = (a / 8) as int + k / 64;
    let m: int = 0x2000_0000_0000_0000;
    let r = k % 64;
    assert(8 * a + k == 64 * big + r);
    assert(64 * m == bit_space());
    let q = big / m;
    assert(big == m * q + big % m) by {
        vstd::arithmetic::div_mod::lemma_fundamental_div_mod(big, m);
    }
    assert(0 <= big % m < m);
    let low = 64 * (big % m) + r;
    assert(64 * big + r == q * (64 * m) + low) by (nonlinear_arith)
        requires
            big == m * q + big % m,
            low == 64 * (big % m) + r,
    ;
    assert(0 <= low < 64 * m);
    vstd::arithmetic::div_mod::lemma_fundamental_div_mod_converse(64 * big + r, 64 * m, q, low);
    assert(bit_address(a, k) == low);
}

/// Where the bits of an access within one cell lie.
proof fn lemma_bit_address_within(a: nat, w: nat, k: int)
    requires
        a < 0x1_0000_0000_0000_0000,
        w <= 64,
        offset_of(a) + w <= 64,
        0 <= k < w,
    ensures
        bit_address(a, k) == 8 * a + k,
        bit_address(a, k) / 64 == cell_of(a),
        bit_address(a, k) % 64 == offset_of(a) + k,
{
    assert(8 * a + k < bit_space());
    vstd::arithmetic::div_mod::lemma_small_mod((8 * a + k) as nat, bit_space());
    assert(8 * a + k == 64 * (a / 8) + (8 * (a % 8) + k));
}

/// Two pieces of one access lie in two cells.
proof fn lemma_pieces_apart(base: nat, j: nat, i: nat)
    requires
        j < 0x1_0000_0000,
        i < 0x1_0000_0000,
        j != i,
    ensures
        (base + j) % 0x2000_0000_0000_0000 != (base + i) % 0x2000_0000_0000_0000,
{
    let m: int = 0x2000_0000_0000_0000;
    if (base + j) % (m as nat) == (base + i) % (m as nat) {
        let x = (base + j) as int;
        let y = (base + i) as int;
        vstd::arithmetic::div_mod::lemma_fundamental_div_mod(x, m);
        vstd::arithmetic::div_mod::lemma_fundamental_div_mod(y, m);
        let d = x / m - y / m;
        assert(x - y == m * (x / m) - m * (y / m));
        assert(m * (x / m) - m * (y / m) == m * d) by (nonlinear_arith)
            requires
                d == x / m - y / m,
        ;
        assert(j - i == m * d);
        assert(d != 0);
        assert(m * d >= m || m * d <= -m) by (nonlinear_arith)
            requires
                d != 0,
                m > 0,
        ;
    }
}

/// A read sees the bits at its bit addresses.
pub proof fn lemma_read_bits(cells: Map<nat, Seq<bool>>, a: nat, n: nat, k: int)
    requires
        valid_access(a, n),
        0 <= k < n,
    ensures
        read_value(cells, a, n)[k] == bit_at(cells, bit_address(a, k)),
{
    let j = (k / 64) as nat;
    if n <= 64 {
        assert(j == 0);
        assert(piece_addr(a, 0) == a);
        assert(piece_count(n) == 1);
        lemma_bit_address_within(a, n, k);
    } else {
        lemma_piece(a, j);
        lemma_bit_address_aligned(a, k);
        assert(k % 64 < piece_bits(n, j));
    }
}

/// The cells after some pieces of a write are all there with 64 bits.
proof fn lemma_written_wf(cells: Map<nat, Seq<bool>>, a: nat, v: Seq<bool>, n: nat)
    requires
        cells_wf(cells),
        valid_access(a, v.len()),
        n <= piece_count(v.len()),
    ensures
        cells_wf(written(cells, a, v, n)),
    decreases n,
{
    if n > 0 {
        let j = (n - 1) as nat;
        lemma_written_wf(cells, a, v, j);
        let before = written(cells, a, v, j);
        let aj = piece_addr(a, j);
        let piece = v.subrange(64 * j as int, 64 * j + piece_bits(v.len(), j) as int);
        let after = written(cells, a, v, n);
        assert(cells_wf(before));
        assert(after == before.insert(
            cell_of(aj),
            cell_write(before[cell_of(aj)], offset_of(aj), piece),
        ));
        assert(before[cell_of(aj)].len() == 64);
        assert forall|idx: nat|
            #![trigger after[idx]]
            #![trigger after.contains_key(idx)]
            after.contains_key(idx) && after[idx].len() == 64 by {
            assert(before.contains_key(idx));
            assert(before[idx].len() == 64);
        }
        assert(cells_wf(after));
    } else {
        assert(written(cells, a, v, 0) == cells);
    }
}

/// The bits of the first pieces of a write of more than 64 bits hold the
/// value, and all other bits are as before.
proof fn lemma_written_wide(cells: Map<nat, Seq<bool>>, a: nat, v: Seq<bool>, n: nat)
    requires
        cells_wf(cells),
        valid_access(a, v.len()),
        v.len() > 64,
        n <= piece_count(v.len()),
    ensures
        forall|k: int|
            0 <= k < v.len() && k < 64 * n ==> bit_at(
                written(cells, a, v, n),
                #[trigger] bit_address(a, k),
            ) == v[k],
        forall|g: nat|
            g < bit_space() && (forall|k: int|
                0 <= k < v.len() && k < 64 * n ==> #[trigger] bit_address(a, k) != g) ==> bit_at(
                written(cells, a, v, n),
                g,
            ) == #[trigger] bit_at(cells, g),
    decreases n,
{
    if n > 0 {
        let j = (n - 1) as nat;
        let w = v.len();
        lemma_written_wide(cells, a, v, j);
        lemma_written_wf(cells, a, v, j);
        let before = written(cells, a, v, j);
        let after = written(cells, a, v, n);
        let aj = piece_addr(a, j);
        let sz = piece_bits(w, j);
        let piece = v.subrange(64 * j as int, 64 * j + sz as int);
        lemma_piece(a, j);
        let cj = cell_of(aj);
        assert(before[cj].len() == 64);
        assert(after == before.insert(cj, cell_write(before[cj], 0, piece)));
        assert(64 * j + sz <= w);
        assert forall|k: int| 0 <= k < w && k < 64 * n implies bit_at(
            after,
            #[trigger] bit_address(a, k),
        ) == v[k] by {
            lemma_bit_address_aligned(a, k);
            if k < 64 * j {
                lemma_pieces_apart(a / 8, (k / 64) as nat, j);
                assert(bit_address(a, k) / 64 != cj);
            } else {
                assert(k / 64 == j);
                assert(k % 64 == k - 64 * j);
                assert(k % 64 < sz);
                assert(piece[k % 64] == v[k]);
            }
        }
        assert forall|g: nat|
            g < bit_space() && (forall|k: int|
                0 <= k < w && k < 64 * n ==> #[trigger] bit_address(a, k) != g) implies bit_at(
            after,
            g,
        ) == #[trigger] bit_at(cells, g) by {
            assert forall|k: int| 0 <= k < w && k < 64 * j implies #[trigger] bit_address(a, k)
                != g by {}
            assert(bit_at(before, g) == bit_at(cells, g));
            if g / 64 == cj {
                let t = (g % 64) as int;
                if t < sz {
                    let k = 64 * j + t;
                    lemma_bit_address_aligned(a, k);
                    assert(bit_address(a, k) == g);
                    assert(false);
                }
            }
        }
    }
}

/// After a write, the bits of the access hold the value, and all other
/// bits are as before.
pub proof fn lemma_write_bits(cells: Map<nat, Seq<bool>>, a: nat, v: Seq<bool>)
    requires
        cells_wf(cells),
        valid_access(a, v.len()),
    ensures
        cells_wf(write_value(cells, a, v)),
        forall|k: int|
            0 <= k < v.len() ==> bit_at(write_value(cells, a, v), #[trigger] bit_address(a, k))
                == v[k],
        forall|g: nat|
            g < bit_space() && !in_access(a, v.len(), g) ==> bit_at(write_value(cells, a, v), g)
                == #[trigger] bit_at(cells, g),
{
    let w = v.len();
    let after = write_value(cells, a, v);
    lemma_written_wf(cells, a, v, piece_count(w));
    if w <= 64 {
        assert(piece_count(w) == 1);
        assert(piece_addr(a, 0) == a);
        let piece = v.subrange(0, piece_bits(w, 0) as int);
        assert(piece =~= v);
        assert(written(cells, a, v, 0) == cells);
        assert(after == cells.insert(cell_of(a), cell_write(cells[cell_of(a)], offset_of(a), v)));
        assert(cells[cell_of(a)].len() == 64);
        assert forall|k: int| 0 <= k < w implies bit_at(after, #[trigger] bit_address(a, k))
            == v[k] by {
            lemma_bit_address_within(a, w, k);
        }
        assert forall|g: nat| g < bit_space() && !in_access(a, w, g) implies bit_at(after, g)
            == #[trigger] bit_at(cells, g) by {
            if g / 64 == cell_of(a) {
                let t = (g % 64) as int;
                if offset_of(a) <= t < offset_of(a) + w {
                    let k = t - offset_of(a);
                    lemma_bit_address_within(a, w, k);
                    assert(bit_address(a, k) == g);
                    assert(false);
                }
            }
        }
    } else {
        lemma_written_wide(cells, a, v, piece_count(w));
        assert forall|g: nat| g < bit_space() && !in_access(a, w, g) implies bit_at(after, g)
            == #[trigger] bit_at(cells, g) by {
            assert forall|k: int| 0 <= k < w && k < 64 * piece_count(w) implies #[trigger] bit_address(
                a,
                k,
            ) != g by {}
        }
    }
}

/// Reading back what was written gives the value: for every address and
/// every value, a write followed by a read of the value's width at the
/// same address gives the value.
pub proof fn lemma_read_after_write(cells: Map<nat, Seq<bool>>, a: nat, v: Seq<bool>)
    requires
        cells_wf(cells),
        valid_access(a, v.len()),
    ensures
        read_value(write_value(cells, a, v), a, v.len()) == v,
{
    let after = write_value(cells, a, v);
    lemma_write_bits(cells, a, v);
    assert forall|k: int| 0 <= k < v.len() implies read_value(after, a, v.len())[k] == v[k] by {
        lemma_read_bits(after, a, v.len(), k);
    }
    assert(read_value(after, a, v.len()) =~= v);
}

/// After a write, bit `k` of the access holds bit `k` of the value.
proof fn lemma_written_bit(cells: Map<nat, Seq<bool>>, a: nat, v: Seq<bool>, k: int)
    requires
        cells_wf(cells),
        valid_access(a, v.len()),
        0 <= k < v.len(),
    ensures
        bit_at(write_value(cells, a, v), bit_address(a, k)) == v[k],
{
    lemma_write_bits(cells, a, v);
}

/// A byte that lies `b` bytes on in the same cell.
proof fn lemma_bytes_on(a: nat, b: nat)
    requires
        a % 8 + b < 8,
    ensures
        cell_of(a + b) == cell_of(a),
        offset_of(a + b) == offset_of(a) + 8 * b,
{
    vstd::arithmetic::div_mod::lemma_fundamental_div_mod_converse(
        (a + b) as int,
        8,
        (a / 8) as int,
        (a % 8 + b) as int,
    );
}

/// A read that lies within a write of at most 64 bits is one that memory
/// serves as a whole.
pub proof fn lemma_read_within_write(a: nat, w: nat, b: nat, k: nat)
    requires
        valid_access(a, w),
        w <= 64,
        k > 0,
        8 * b + k <= w,
    ensures
        valid_access(a + b, k),
{
    lemma_bytes_on(a, b);
}

/// Values lie in memory with the least significant byte first: after a
/// write of `v` at address `a`, a read of `k` bits that starts `b` bytes
/// on and lies within what was written gives bits `8 * b` to
/// `8 * b + k - 1` of `v`.
pub proof fn lemma_little_endian(cells: Map<nat, Seq<bool>>, a: nat, v: Seq<bool>, b: nat, k: nat)
    requires
        cells_wf(cells),
        valid_access(a, v.len()),
        valid_access(a + b, k),
        8 * b + k <= v.len(),
    ensures
        read_value(write_value(cells, a, v), a + b, k) == v.subrange(8 * b as int, 8 * b + k as int),
{
    let after = write_value(cells, a, v);
    let part = v.subrange(8 * b as int, 8 * b + k as int);
    assert forall|t: int| 0 <= t < k implies #[trigger] read_value(after, a + b, k)[t] == part[t] by {
        lemma_read_bits(after, a + b, k, t);
        lemma_written_bit(cells, a, v, 8 * b + t);
        assert(8 * (a + b) + t == 8 * a + (8 * b + t));
        assert(bit_address(a + b, t) == bit_address(a, 8 * b + t));
    }
    assert(read_value(after, a + b, k) =~= part);
}

/// A write does not change what a read sees of which no bit lies within
/// what was written.
pub proof fn lemma_write_elsewhere(
    cells: Map<nat, Seq<bool>>,
    a: nat,
    v: Seq<bool>,
    r: nat,
    n: nat,
)
    requires
        cells_wf(cells),
        valid_access(a, v.len()),
        valid_access(r, n),
        forall|k: int| 0 <= k < n ==> !in_access(a, v.len(), #[trigger] bit_address(r, k)),
    ensures
        read_value(write_value(cells, a, v), r, n) == read_value(cells, r, n),
{
    let after = write_value(cells, a, v);
    lemma_write_bits(cells, a, v);
    assert forall|k: int| 0 <= k < n implies read_value(after, r, n)[k] == read_value(
        cells,
        r,
        n,
    )[k] by {
        lemma_read_bits(after, r, n, k);
        lemma_read_bits(cells, r, n, k);
        let g = bit_address(r, k);
        assert(g < bit_space());
        assert(!in_access(a, v.len(), g));
    }
    assert(read_value(after, r, n) =~= read_value(cells, r, n));
}

/// The number of bytes that hold `w` bits.
pub open spec fn bytes_for(w: nat) -> nat {
    ((w + 7) / 8) as nat
}

/// A write does not change what a read sees that lies in other bytes,
/// where neither access goes past the end of the address space.
pub proof fn lemma_write_other_bytes(
    cells: Map<nat, Seq<bool>>,
    a: nat,
    v: Seq<bool>,
    r: nat,
    n: nat,
)
    requires
        cells_wf(cells),
        valid_access(a, v.len()),
        valid_access(r, n),
        a + bytes_for(v.len()) <= 0x1_0000_0000_0000_0000,
        r + bytes_for(n) <= 0x1_0000_0000_0000_0000,
        r + bytes_for(n) <= a || a + bytes_for(v.len()) <= r,
    ensures
        read_value(write_value(cells, a, v), r, n) == read_value(cells, r, n),
{
    let w = v.len();
    assert forall|k: int| 0 <= k < n implies !in_access(a, w, #[trigger] bit_address(r, k)) by {
        let g = bit_address(r, k);
        assert(8 * r + k < bit_space());
        vstd::arithmetic::div_mod::lemma_small_mod((8 * r + k) as nat, bit_space());
        assert(g == 8 * r + k);
        assert forall|t: int| 0 <= t < w implies #[trigger] bit_address(a, t) != g by {
            assert(8 * a + t < bit_space());
            vstd::arithmetic::div_mod::lemma_small_mod((8 * a + t) as nat, bit_space());
        }
    }
    lemma_write_elsewhere(cells, a, v, r, n);
}

/// The cells of an array of cells of 64 bits are all there with 64 bits.
pub proof fn lemma_cells_of_wf(mem: ArrayTerm, i: Interp)
    requires
        mem.cell_bits() == 64,
    ensures
        cells_wf(cells_of(mem, i)),
{
    assert forall|idx: nat|
        #![trigger cells_of(mem, i)[idx]]
        #![trigger cells_of(mem, i).contains_key(idx)]
        cells_of(mem, i).contains_key(idx) && cells_of(mem, i)[idx].len() == 64 by {
        lemma_cell_len(mem, i, idx);
    }
}

/// Memory round trip, in terms: where `after` is the memory `before` with
/// the value `v` written at `addr`, and `r` is what a read of the width of
/// `v` at `addr` sees in `after`, then `r` has the value of `v`, under
/// every interpretation under which memory serves the access as a whole.
pub proof fn lemma_round_trip(
    before: ArrayTerm,
    after: ArrayTerm,
    addr: Term,
    v: Term,
    r: Term,
    i: Interp,
)
    requires
        before.cell_bits() == 64,
        cells_of(after, i) == write_value(cells_of(before, i), addr.number(i), v.eval(i)),
        r.eval(i) == read_value(cells_of(after, i), addr.number(i), v.width()),
        valid_access(addr.number(i), v.width()),
    ensures
        r.eval(i) == v.eval(i),
{
    lemma_eval_len(v, i);
    lemma_cells_of_wf(before, i);
    lemma_read_after_write(cells_of(before, i), addr.number(i), v.eval(i));
}

} // verus!
