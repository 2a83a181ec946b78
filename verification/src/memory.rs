//! Symbolic memory: one solver array from cell numbers to cells of 64 bits,
//! read and written at any width and any byte address.
//!
//! An address has 64 bits and counts bytes. Its low three bits give the
//! place within a cell, the others the cell. Values lie in memory with the
//! least significant byte at the lowest address.

use crate::bits::{fill, fit, shift_up, to_nat};
use crate::bv::BitVec;
use crate::smt::{
    array_clone, array_home, array_new_const, array_select, array_store, array_term, bv_term,
    context_id, solver_divides,
};
use crate::term::{lemma_cell_len, lemma_eval_len, ArrayTerm, BinOp, Interp, Term};
use vstd::arithmetic::power2::{lemma2_to64, lemma2_to64_rest, pow2};
use vstd::prelude::*;

verus! {

/// The number of bits of an address.
pub const INDEX_BITS: u32 = 64;

/// The number of bits of a memory cell.
pub const CELL_BITS: u32 = 64;

/// The bits of one byte.
pub const BITS_IN_BYTE: u32 = 8;

/// The logarithm to base two of `BITS_IN_BYTE`.
pub const LOG_BITS_IN_BYTE: u32 = 3;

/// The number of bytes of a memory cell.
pub const CELL_BYTES: u32 = 8;

/// The logarithm to base two of `CELL_BYTES`: so many of the low bits of an
/// address give the place within the cell.
pub const LOG_CELL_BYTES: u32 = 3;

/// What a read of `bits` bits sees of a cell, starting `off` bits into it.
/// A read of a whole cell sees the cell; a narrower one sees zero bits past
/// the end of the cell.
pub open spec fn cell_read(cell: Seq<bool>, off: nat, bits: nat) -> Seq<bool> {
    if bits == 64 {
        cell
    } else {
        Seq::new(bits, |k: int| off + k < 64 && cell[off + k])
    }
}

/// A cell after a write of `v`, starting `off` bits into it. A write of a
/// whole cell replaces the cell; of a narrower one, what would lie past the
/// end of the cell is dropped.
pub open spec fn cell_write(cell: Seq<bool>, off: nat, v: Seq<bool>) -> Seq<bool> {
    if v.len() == 64 {
        v
    } else {
        Seq::new(
            64,
            |k: int|
                if off <= k < off + v.len() {
                    v[k - off]
                } else {
                    cell[k]
                },
        )
    }
}

/// The number of the cell that holds the byte at address `a`.
pub open spec fn cell_of(a: nat) -> nat {
    a / 8
}

/// How many bits into its cell the byte at address `a` starts.
pub open spec fn offset_of(a: nat) -> nat {
    (a % 8) * 8
}

/// The address of the `j`-th piece of an access at `a`: eight bytes on for
/// each piece, wrapping at the end of the address space.
pub open spec fn piece_addr(a: nat, j: nat) -> nat {
    (a + 8 * j) % 0x1_0000_0000_0000_0000
}

/// The number of pieces of an access of `bits` bits, for `bits > 0`.
pub open spec fn piece_count(bits: nat) -> nat {
    ((bits - 1) / 64 + 1) as nat
}

/// The width of the `j`-th piece of an access of `bits` bits: 64 for all
/// but the last, which takes what is left.
pub open spec fn piece_bits(bits: nat, j: nat) -> nat {
    if j + 1 < piece_count(bits) {
        64
    } else {
        ((bits - 1) % 64 + 1) as nat
    }
}

/// Bit `k` of what a read of `bits` bits at address `a` sees in `cells`.
pub open spec fn read_bit(cells: Map<nat, Seq<bool>>, a: nat, bits: nat, k: int) -> bool {
    let j = (k / 64) as nat;
    let aj = piece_addr(a, j);
    cell_read(cells[cell_of(aj)], offset_of(aj), piece_bits(bits, j))[k % 64]
}

/// What a read of `bits` bits at address `a` sees in `cells`: piece after
/// piece, the first piece lowest.
pub open spec fn read_value(cells: Map<nat, Seq<bool>>, a: nat, bits: nat) -> Seq<bool> {
    Seq::new(bits, |k: int| read_bit(cells, a, bits, k))
}

/// The cells of an array term under an interpretation, by cell number.
pub open spec fn cells_of(mem: ArrayTerm, i: Interp) -> Map<nat, Seq<bool>> {
    Map::new(|idx: nat| true, |idx: nat| mem.cell(i, idx))
}

/// The cells after the first `n` pieces of a write of `v` at address `a`.
pub open spec fn written(cells: Map<nat, Seq<bool>>, a: nat, v: Seq<bool>, n: nat) -> Map<
    nat,
    Seq<bool>,
>
    decreases n,
{
    if n == 0 {
        cells
    } else {
        let j = (n - 1) as nat;
        let before = written(cells, a, v, j);
        let aj = piece_addr(a, j);
        let piece = v.subrange(64 * j as int, 64 * j + piece_bits(v.len(), j) as int);
        before.insert(cell_of(aj), cell_write(before[cell_of(aj)], offset_of(aj), piece))
    }
}

/// The cells after a write of `v` at address `a`.
pub open spec fn write_value(cells: Map<nat, Seq<bool>>, a: nat, v: Seq<bool>) -> Map<
    nat,
    Seq<bool>,
> {
    written(cells, a, v, piece_count(v.len()))
}

/// Whether the array term `held` can stand for the array term `t`: it has
/// the same widths and the same cells under every interpretation that
/// divides by zero as the solver does.
pub open spec fn array_stands_for(held: ArrayTerm, t: ArrayTerm) -> bool {
    &&& held.index_bits() == t.index_bits()
    &&& held.cell_bits() == t.cell_bits()
    &&& forall|i: Interp, index: nat|
        solver_divides(i) ==> #[trigger] held.cell(i, index) == t.cell(i, index)
}

/// The symbolic memory of one execution state. Its view is the array term
/// as the writes made it; the solver holds one that stands for it.
pub struct Memory<'ctx> {
    ctx: &'ctx z3::Context,
    mem: z3::ast::Array<'ctx>,
    term: Ghost<ArrayTerm>,
    log_bits_in_byte_as_bv: BitVec<'ctx>,
}

impl<'ctx> Memory<'ctx> {
    #[verifier::type_invariant]
    spec fn inv(self) -> bool {
        &&& array_home(self.mem) == context_id(*self.ctx)
        &&& self.term@.index_bits() == 61
        &&& self.term@.cell_bits() == 64
        &&& array_stands_for(array_term(self.mem), self.term@)
        &&& self.log_bits_in_byte_as_bv.home() == context_id(*self.ctx)
        &&& self.log_bits_in_byte_as_bv@ == (Term::Const { value: 3, width: 64 })
    }

    /// The array term that holds the cells, as the writes made it.
    pub closed spec fn view(&self) -> ArrayTerm {
        self.term@
    }

    /// The context that this memory belongs to.
    pub closed spec fn home(&self) -> int {
        context_id(*self.ctx)
    }

    /// The cells under an interpretation, by cell number.
    pub open spec fn cells(&self, i: Interp) -> Map<nat, Seq<bool>> {
        cells_of(self@, i)
    }

    /// A memory whose cells are all unknown: the array called `mem`.
    pub fn new(ctx: &'ctx z3::Context) -> (r: Memory<'ctx>)
        ensures
            r.home() == context_id(*ctx),
            r@ == (ArrayTerm::Var { name: "mem"@, index_bits: 61, cell_bits: 64 }),
            r@.cell_bits() == 64,
    {
        let log_num_cells = INDEX_BITS - LOG_CELL_BYTES;
        proof {
            reveal_strlit("mem");
            lemma2_to64();
            lemma2_to64_rest();
            vstd::arithmetic::div_mod::lemma_small_mod(3, pow2(64));
        }
        Memory {
            ctx,
            mem: array_new_const(ctx, "mem", log_num_cells, CELL_BITS),
            term: Ghost(ArrayTerm::Var { name: "mem"@, index_bits: 61, cell_bits: 64 }),
            log_bits_in_byte_as_bv: BitVec::from_u64(ctx, LOG_BITS_IN_BYTE as u64, INDEX_BITS),
        }
    }

    /// A memory whose cells all hold zero.
    pub fn new_zero_initialized(ctx: &'ctx z3::Context) -> (r: Memory<'ctx>)
        ensures
            r.home() == context_id(*ctx),
            r@ == ArrayTerm::fill(61, Term::Const { value: 0, width: 64 }),
            r@.cell_bits() == 64,
    {
        let log_num_cells = INDEX_BITS - LOG_CELL_BYTES;
        proof {
            lemma2_to64();
            lemma2_to64_rest();
            vstd::arithmetic::div_mod::lemma_small_mod(3, pow2(64));
        }
        let zero = BitVec::zero(ctx, CELL_BITS);
        Memory {
            ctx,
            mem: crate::smt::array_fill(ctx, log_num_cells, zero.handle()),
            term: Ghost(ArrayTerm::fill(61, Term::Const { value: 0, width: 64 })),
            log_bits_in_byte_as_bv: BitVec::from_u64(ctx, LOG_BITS_IN_BYTE as u64, INDEX_BITS),
        }
    }

    /// A memory of its own with the same contents.
    pub fn duplicate(&self) -> (r: Memory<'ctx>)
        ensures
            r.home() == self.home(),
            r@ == self@,
    {
        proof {
            use_type_invariant(self);
        }
        Memory {
            ctx: self.ctx,
            mem: array_clone(&self.mem),
            term: Ghost(self.term@),
            log_bits_in_byte_as_bv: self.log_bits_in_byte_as_bv.clone(),
        }
    }

    /// The whole cell that holds the byte at `addr`.
    fn read_cell(&self, addr: &BitVec<'ctx>) -> (r: BitVec<'ctx>)
        requires
            addr.home() == self.home(),
            addr.width() == 64,
        ensures
            r.home() == self.home(),
            r@ == Term::select(self@, Term::extract(63, 3, addr@)),
            r.width() == 64,
            forall|i: Interp| #[trigger] r.eval(i) == self@.cell(i, cell_of(addr.number(i))),
    {
        proof {
            use_type_invariant(self);
        }
        let cell_num = addr.slice(INDEX_BITS - 1, LOG_CELL_BYTES);
        let held = cell_num.handle();
        let handle = array_select(&self.mem, held);
        proof {
            let was = Term::select(array_term(self.mem), bv_term(*held));
            let made = Term::select(self@, cell_num@);
            assert forall|i: Interp| solver_divides(i) implies #[trigger] was.eval(i) == made.eval(
                i,
            ) by {
                assert(bv_term(*held).eval(i) == cell_num@.eval(i));
                assert(array_term(self.mem).cell(i, to_nat(cell_num@.eval(i))) == self@.cell(
                    i,
                    to_nat(cell_num@.eval(i)),
                ));
            }
        }
        let r = BitVec::from_handle(self.ctx, handle, Ghost(Term::select(self@, cell_num@)));
        proof {
            assert forall|i: Interp| #[trigger] r.eval(i) == self@.cell(i, cell_of(addr.number(i))) by {
                lemma_cell_number(addr@, i);
            }
        }
        r
    }

    /// Replaces the whole cell that holds the byte at `addr`.
    fn write_cell(&mut self, addr: &BitVec<'ctx>, val: BitVec<'ctx>)
        requires
            addr.home() == old(self).home(),
            val.home() == old(self).home(),
            addr.width() == 64,
            val.width() == 64,
        ensures
            final(self).home() == old(self).home(),
            final(self)@ == ArrayTerm::store(old(self)@, Term::extract(63, 3, addr@), val@),
            forall|i: Interp| #[trigger]
                final(self).cells(i) == old(self).cells(i).insert(
                    cell_of(addr.number(i)),
                    val.eval(i),
                ),
    {
        proof {
            use_type_invariant(&*self);
        }
        let cell_num = addr.slice(INDEX_BITS - 1, LOG_CELL_BYTES);
        let at = cell_num.handle();
        let value = val.handle();
        let mem = array_store(&self.mem, at, value);
        let ghost before = self@;
        let ghost was = array_term(self.mem);
        let ghost made = ArrayTerm::store(before, cell_num@, val@);
        proof {
            let held = ArrayTerm::store(was, bv_term(*at), bv_term(*value));
            assert forall|i: Interp, index: nat| solver_divides(i) implies #[trigger] held.cell(
                i,
                index,
            ) == made.cell(i, index) by {
                assert(bv_term(*at).eval(i) == cell_num@.eval(i));
                assert(bv_term(*value).eval(i) == val@.eval(i));
                assert(was.cell(i, index) == before.cell(i, index));
            }
        }
        *self = Memory {
            ctx: self.ctx,
            mem,
            term: Ghost(made),
            log_bits_in_byte_as_bv: self.log_bits_in_byte_as_bv.clone(),
        };
        proof {
            assert forall|i: Interp| #[trigger]
                self.cells(i) == old(self).cells(i).insert(
                    cell_of(addr.number(i)),
                    val.eval(i),
                ) by {
                lemma_cell_number(addr@, i);
                lemma_eval_len(val@, i);
                assert(fit(val.eval(i), 64) =~= val.eval(i));
                assert(self.cells(i) =~= old(self).cells(i).insert(
                    cell_of(addr.number(i)),
                    val.eval(i),
                ));
            }
        }
    }

    /// How many bits into its cell the byte at `addr` starts, as a vector
    /// of 64 bits.
    fn bit_offset(&self, addr: &BitVec<'ctx>) -> (r: BitVec<'ctx>)
        requires
            addr.home() == self.home(),
            addr.width() == 64,
        ensures
            r.home() == self.home(),
            r.width() == 64,
            forall|i: Interp| #[trigger] r.number(i) == offset_of(addr.number(i)),
    {
        proof {
            use_type_invariant(self);
        }
        let low = addr.slice(LOG_CELL_BYTES - 1, 0);
        let wide = low.zext(CELL_BITS - LOG_CELL_BYTES);
        let r = wide.sll(&self.log_bits_in_byte_as_bv);
        proof {
            assert forall|i: Interp| #[trigger] r.number(i) == offset_of(addr.number(i)) by {
                lemma_bit_offset(addr@, i);
            }
        }
        r
    }

    /// Reads `bits` bits from the cell that holds the byte at `addr`,
    /// starting at that byte.
    fn read_within_cell(&self, addr: &BitVec<'ctx>, bits: u32) -> (r: BitVec<'ctx>)
        requires
            addr.home() == self.home(),
            addr.width() == 64,
            0 < bits <= 64,
        ensures
            r.home() == self.home(),
            r.width() == bits,
            forall|i: Interp| #[trigger]
                r.eval(i) == cell_read(
                    self@.cell(i, cell_of(addr.number(i))),
                    offset_of(addr.number(i)),
                    bits as nat,
                ),
    {
        let cell_contents = self.read_cell(addr);
        if bits == CELL_BITS {
            cell_contents
        } else {
            let offset = self.bit_offset(addr);
            let shifted = cell_contents.srl(&offset);
            let low = shifted.slice(bits - 1, 0);
            let r = low.simplify();
            proof {
                assert forall|i: Interp| #[trigger]
                    r.eval(i) == cell_read(
                        self@.cell(i, cell_of(addr.number(i))),
                        offset_of(addr.number(i)),
                        bits as nat,
                    ) by {
                    let c = cell_contents.eval(i);
                    let o = offset.number(i);
                    assert(shifted.eval(i) == crate::term::bin_value(
                        BinOp::LShr,
                        c,
                        offset.eval(i),
                        64,
                    ));
                    assert(low.eval(i) =~= Seq::new(bits as nat, |k: int| o + k < 64 && c[o + k]));
                }
            }
            r
        }
    }

    /// Writes `val` into the cell that holds the byte at `addr`, starting
    /// at that byte.
    fn write_within_cell(&mut self, addr: &BitVec<'ctx>, val: BitVec<'ctx>)
        requires
            addr.home() == old(self).home(),
            val.home() == old(self).home(),
            addr.width() == 64,
            val.width() <= 64,
        ensures
            final(self).home() == old(self).home(),
            forall|i: Interp| #[trigger]
                final(self).cells(i) == old(self).cells(i).insert(
                    cell_of(addr.number(i)),
                    cell_write(
                        old(self)@.cell(i, cell_of(addr.number(i))),
                        offset_of(addr.number(i)),
                        val.eval(i),
                    ),
                ),
    {
        let write_size = val.get_width();
        if write_size == CELL_BITS {
            proof {
                assert forall|i: Interp|
                    val.eval(i) == cell_write(
                        old(self)@.cell(i, cell_of(addr.number(i))),
                        offset_of(addr.number(i)),
                        #[trigger] val.eval(i),
                    ) by {
                    lemma_eval_len(val@, i);
                }
            }
            self.write_cell(addr, val);
        } else {
            proof {
                use_type_invariant(&*self);
            }
            let offset = self.bit_offset(addr);
            let zeroes = BitVec::zero(self.ctx, write_size);
            let ones = zeroes.not();
            let ones_wide = ones.zext(CELL_BITS - write_size);
            let mask_set = ones_wide.sll(&offset);
            let mask_clear = mask_set.not();
            let val_wide = val.zext(CELL_BITS - write_size);
            let mask_write = val_wide.sll(&offset);
            let cell = self.read_cell(addr);
            let cleared = cell.and(&mask_clear);
            let merged = cleared.or(&mask_write);
            let data_to_write = merged.simplify();
            proof {
                assert forall|i: Interp|
                    data_to_write.eval(i) == cell_write(
                        old(self)@.cell(i, cell_of(addr.number(i))),
                        offset_of(addr.number(i)),
                        #[trigger] val.eval(i),
                    ) by {
                    let c = cell.eval(i);
                    let o = offset.number(i);
                    let v = val.eval(i);
                    let w = write_size as nat;
                    lemma_eval_len(val@, i);
                    lemma_eval_len(cell@, i);
                    crate::bits::lemma_from_nat_zero(w);
                    assert(zeroes.eval(i) == fill(false, w));
                    assert(ones.eval(i) =~= fill(true, w));
                    assert(ones_wide.eval(i) =~= Seq::new(64, |k: int| k < w));
                    assert(mask_set.eval(i) == crate::term::bin_value(
                        BinOp::Shl,
                        ones_wide.eval(i),
                        offset.eval(i),
                        64,
                    ));
                    assert(mask_set.eval(i) =~= Seq::new(64, |k: int| o <= k < o + w));
                    assert(mask_clear.eval(i) =~= Seq::new(64, |k: int| !(o <= k < o + w)));
                    assert(val_wide.eval(i) =~= fit(v, 64));
                    assert(mask_write.eval(i) == crate::term::bin_value(
                        BinOp::Shl,
                        val_wide.eval(i),
                        offset.eval(i),
                        64,
                    ));
                    assert(mask_write.eval(i) =~= Seq::new(
                        64,
                        |k: int| o <= k < o + w && v[k - o],
                    ));
                    assert(cleared.eval(i) == crate::term::bin_value(
                        BinOp::And,
                        c,
                        mask_clear.eval(i),
                        64,
                    ));
                    assert(merged.eval(i) == crate::term::bin_value(
                        BinOp::Or,
                        cleared.eval(i),
                        mask_write.eval(i),
                        64,
                    ));
                    assert(merged.eval(i) =~= cell_write(c, o, v));
                }
            }
            self.write_cell(addr, data_to_write);
        }
    }

    /// The address of the `j`-th piece of an access at `addr`.
    fn piece_address(&self, addr: &BitVec<'ctx>, j: u32) -> (r: BitVec<'ctx>)
        requires
            addr.home() == self.home(),
            addr.width() == 64,
        ensures
            r.home() == self.home(),
            r.width() == 64,
            forall|i: Interp| #[trigger] r.number(i) == piece_addr(addr.number(i), j as nat),
    {
        proof {
            use_type_invariant(self);
        }
        let offset_bytes: u64 = (j as u64) * 8;
        let offset = BitVec::from_u64(self.ctx, offset_bytes, INDEX_BITS);
        let r = addr.add(&offset);
        proof {
            lemma2_to64_rest();
            assert forall|i: Interp| #[trigger] r.number(i) == piece_addr(addr.number(i), j as nat) by {
                vstd::arithmetic::div_mod::lemma_small_mod(offset_bytes as nat, pow2(64));
                crate::bits::lemma_to_nat_from_nat_small(offset_bytes as nat, 64);
                assert(to_nat(offset.eval(i)) == offset_bytes);
                assert(r.eval(i) == crate::term::bin_value(
                    BinOp::Add,
                    addr.eval(i),
                    offset.eval(i),
                    64,
                ));
                crate::bits::lemma_to_nat_from_nat(addr.number(i) + offset_bytes as nat, 64);
            }
        }
        r
    }

    /// Reads `bits` bits of memory starting at the byte at `addr`. A read of
    /// up to 64 bits takes them from the one cell that holds that byte; a
    /// wider one goes on cell by cell.
    pub fn read(&self, addr: &BitVec<'ctx>, bits: u32) -> (r: BitVec<'ctx>)
        requires
            addr.home() == self.home(),
            addr.width() == 64,
            bits > 0,
        ensures
            r.home() == self.home(),
            r.width() == bits,
            self@.cell_bits() == 64,
            forall|i: Interp| #[trigger]
                r.eval(i) == read_value(self.cells(i), addr.number(i), bits as nat),
    {
        proof {
            use_type_invariant(self);
        }
        let num_full_cells: u32 = (bits - 1) / CELL_BITS;
        let bits_in_last_cell: u32 = (bits - 1) % CELL_BITS + 1;
        let first: u32 = if num_full_cells == 0 {
            bits_in_last_cell
        } else {
            CELL_BITS
        };
        let first_addr = self.piece_address(addr, 0);
        let mut acc = self.read_within_cell(&first_addr, first);
        proof {
            assert forall|i: Interp|
                #[trigger] acc.eval(i) == Seq::new(
                    acc.width(),
                    |k: int| read_bit(self.cells(i), addr.number(i), bits as nat, k),
                ) by {
                lemma_eval_len(acc@, i);
                lemma_cell_len(self@, i, cell_of(piece_addr(addr.number(i), 0)));
                assert(acc.eval(i) =~= Seq::new(
                    acc.width(),
                    |k: int| read_bit(self.cells(i), addr.number(i), bits as nat, k),
                ));
            }
        }
        let mut j: u32 = 1;
        while j <= num_full_cells
            invariant
                1 <= j <= num_full_cells + 1,
                num_full_cells == (bits - 1) / 64,
                bits_in_last_cell == (bits - 1) % 64 + 1,
                bits > 0,
                addr.home() == self.home(),
                addr.width() == 64,
                acc.home() == self.home(),
                acc.width() == if j <= num_full_cells {
                    64 * j
                } else {
                    bits as int
                },
                forall|i: Interp|
                    #[trigger] acc.eval(i) == Seq::new(
                        acc.width(),
                        |k: int| read_bit(self.cells(i), addr.number(i), bits as nat, k),
                    ),
            decreases num_full_cells + 1 - j,
        {
            let sz: u32 = if j < num_full_cells {
                CELL_BITS
            } else {
                bits_in_last_cell
            };
            let piece_at = self.piece_address(addr, j);
            let piece = self.read_within_cell(&piece_at, sz);
            let wider = piece.concat(&acc);
            proof {
                assert forall|i: Interp|
                    #[trigger] wider.eval(i) == Seq::new(
                        wider.width(),
                        |k: int| read_bit(self.cells(i), addr.number(i), bits as nat, k),
                    ) by {
                    lemma_eval_len(acc@, i);
                    lemma_eval_len(piece@, i);
                    lemma_cell_len(self@, i, cell_of(piece_addr(addr.number(i), j as nat)));
                    let low = acc.eval(i);
                    let high = piece.eval(i);
                    assert(wider.eval(i) =~= Seq::new(
                        wider.width(),
                        |k: int| read_bit(self.cells(i), addr.number(i), bits as nat, k),
                    )) by {
                        assert forall|k: int| 0 <= k < wider.width() implies wider.eval(i)[k]
                            == read_bit(self.cells(i), addr.number(i), bits as nat, k) by {
                            if k < low.len() {
                                assert(wider.eval(i)[k] == low[k]);
                            } else {
                                assert(wider.eval(i)[k] == high[k - low.len()]);
                                assert(k / 64 == j);
                                assert(k % 64 == k - low.len());
                            }
                        }
                    }
                }
            }
            acc = wider;
            j = j + 1;
        }
        acc.simplify()
    }

    /// Writes `val` into memory starting at the byte at `addr`. A value of
    /// up to 64 bits goes into the one cell that holds that byte; a wider
    /// one goes on cell by cell, its lowest 64 bits first.
    pub fn write(&mut self, addr: &BitVec<'ctx>, val: BitVec<'ctx>)
        requires
            addr.home() == old(self).home(),
            val.home() == old(self).home(),
            addr.width() == 64,
        ensures
            final(self).home() == old(self).home(),
            old(self)@.cell_bits() == 64,
            final(self)@.cell_bits() == 64,
            forall|i: Interp| #[trigger]
                final(self).cells(i) == write_value(
                    old(self).cells(i),
                    addr.number(i),
                    val.eval(i),
                ),
    {
        proof {
            use_type_invariant(&*self);
        }
        let write_size: u32 = val.get_width();
        let num_full_cells: u32 = (write_size - 1) / CELL_BITS;
        let bits_in_last_cell: u32 = (write_size - 1) % CELL_BITS + 1;
        let ghost start = self@;
        let mut j: u32 = 0;
        while j <= num_full_cells
            invariant
                0 <= j <= num_full_cells + 1,
                num_full_cells == (write_size - 1) / 64,
                bits_in_last_cell == (write_size - 1) % 64 + 1,
                write_size == val.width(),
                write_size > 0,
                addr.home() == self.home(),
                val.home() == self.home(),
                addr.width() == 64,
                self.home() == old(self).home(),
                forall|i: Interp|
                    #[trigger] cells_of(self@, i) == written(
                        cells_of(start, i),
                        addr.number(i),
                        val.eval(i),
                        j as nat,
                    ),
            decreases num_full_cells + 1 - j,
        {
            let sz: u32 = if j < num_full_cells {
                CELL_BITS
            } else {
                bits_in_last_cell
            };
            let offset_bits: u32 = j * CELL_BITS;
            let write_data = val.slice(sz + offset_bits - 1, offset_bits);
            let piece_at = self.piece_address(addr, j);
            let ghost before = self@;
            self.write_within_cell(&piece_at, write_data);
            proof {
                assert forall|i: Interp|
                    #[trigger] cells_of(self@, i) == written(
                        cells_of(start, i),
                        addr.number(i),
                        val.eval(i),
                        (j + 1) as nat,
                    ) by {
                    assert(self.cells(i) == cells_of(self@, i));
                    lemma_eval_len(val@, i);
                    let v = val.eval(i);
                    assert(write_data.eval(i) =~= v.subrange(
                        64 * j as int,
                        64 * j + piece_bits(v.len(), j as nat) as int,
                    ));
                    assert(cells_of(before, i) == written(
                        cells_of(start, i),
                        addr.number(i),
                        val.eval(i),
                        j as nat,
                    ));
                }
            }
            j = j + 1;
        }
        proof {
            use_type_invariant(&*self);
            assert forall|i: Interp| #[trigger]
                self.cells(i) == write_value(
                    old(self).cells(i),
                    addr.number(i),
                    val.eval(i),
                ) by {
                lemma_eval_len(val@, i);
                assert(self.cells(i) == cells_of(self@, i));
            }
        }
    }
}

/// The bits of an address above the low three stand for its cell number.
proof fn lemma_cell_number(addr: Term, i: Interp)
    requires
        addr.width() == 64,
    ensures
        to_nat(Term::extract(63, 3, addr).eval(i)) == cell_of(addr.number(i)),
{
    let a = addr.eval(i);
    lemma_eval_len(addr, i);
    assert(Term::extract(63, 3, addr).eval(i) =~= a.subrange(3, 64));
    crate::bits::lemma_to_nat_split(a, 3);
    lemma2_to64();
}

/// The low three bits of an address, widened and moved up by three places,
/// stand for the bit offset of its byte within the cell.
proof fn lemma_bit_offset(addr: Term, i: Interp)
    requires
        addr.width() == 64,
    ensures
        to_nat(
            Term::bin(
                BinOp::Shl,
                Term::zero_ext(61, Term::extract(2, 0, addr)),
                Term::Const { value: 3, width: 64 },
            ).eval(i),
        ) == offset_of(addr.number(i)),
{
    let a = addr.eval(i);
    lemma_eval_len(addr, i);
    let low = Term::extract(2, 0, addr);
    let wide = Term::zero_ext(61, low);
    let three = Term::Const { value: 3, width: 64 };
    let shifted = Term::bin(BinOp::Shl, wide, three);
    lemma2_to64();
    lemma2_to64_rest();
    assert(low.eval(i) =~= a.subrange(0, 3));
    crate::bits::lemma_to_nat_split(a, 3);
    assert(wide.eval(i) == fit(low.eval(i), 64));
    crate::bits::lemma_to_nat_fit(low.eval(i), 64);
    crate::bits::lemma_to_nat_from_nat_small(3, 64);
    assert(to_nat(three.eval(i)) == 3);
    assert(shifted.eval(i) == crate::term::bin_value(BinOp::Shl, wide.eval(i), three.eval(i), 64));
    assert(shifted.eval(i) =~= shift_up(wide.eval(i), 3));
    crate::bits::lemma_shift_up_small(wide.eval(i), 3);
}

/// Whether `steps` are the values that a fold of `items` from the left
/// with `f` goes through: the first item, then each result of `f` on the
/// value before and the next item.
pub open spec fn fold_steps<T, F: Fn(T, T) -> T>(f: F, items: Seq<T>, steps: Seq<T>) -> bool {
    &&& steps.len() == items.len()
    &&& items.len() > 0
    &&& steps[0] == items[0]
    &&& forall|k: int| 1 <= k < items.len() ==> f.ensures((steps[k - 1], items[k]), #[trigger] steps[k])
}

/// Whether `r` can come out when `f` folds `items` from the left, starting
/// with the first item.
pub open spec fn folds_to<T, F: Fn(T, T) -> T>(f: F, items: Seq<T>, r: T) -> bool {
    exists|steps: Seq<T>| fold_steps(f, items, steps) && steps.last() == r
}

/// Folds the items from the left with `f`, starting with the first item.
/// There must be an item.
pub fn fold_from_first<T, F: Fn(T, T) -> T>(items: Vec<T>, f: F) -> (r: T)
    requires
        items@.len() > 0,
        forall|a: T, b: T| f.requires((a, b)),
    ensures
        folds_to(f, items@, r),
{
    let mut rest = items;
    let ghost all = rest@;
    let mut acc = rest.remove(0);
    let ghost mut steps: Seq<T> = seq![acc];
    while rest.len() > 0
        invariant
            1 <= steps.len() <= all.len(),
            rest@ == all.subrange(steps.len() as int, all.len() as int),
            fold_steps(f, all.subrange(0, steps.len() as int), steps),
            steps.last() == acc,
            forall|a: T, b: T| f.requires((a, b)),
        decreases rest@.len(),
    {
        let next = rest.remove(0);
        let ghost before = steps;
        acc = f(acc, next);
        proof {
            steps = steps.push(acc);
            let upto = all.subrange(0, steps.len() as int);
            assert forall|k: int| 1 <= k < upto.len() implies f.ensures(
                (steps[k - 1], upto[k]),
                #[trigger] steps[k],
            ) by {
                if k < before.len() {
                    assert(steps[k] == before[k]);
                    assert(all.subrange(0, before.len() as int)[k] == upto[k]);
                }
            }
        }
    }
    proof {
        assert(all.subrange(0, steps.len() as int) =~= all);
    }
    acc
}

} // verus!
