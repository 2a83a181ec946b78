use symstate::bv::BitVec;
use symstate::memory::{Memory, CELL_BITS, CELL_BYTES, INDEX_BITS};
use symstate::solver::Facade;
use symstate::solver::new_context;

fn value<'a>(solver: &mut Facade<'a>, bv: &BitVec<'a>) -> u64 {
    solver
        .get_a_solution_for_bv(bv)
        .unwrap()
        .unwrap()
        .as_u64()
        .unwrap()
}

#[test]
fn cells_have_eight_bytes() {
    assert_eq!(CELL_BITS, 64);
    assert_eq!(INDEX_BITS, 64);
    assert_eq!(CELL_BYTES * 8, CELL_BITS);
}

#[test]
fn every_width_within_a_cell_reads_back() {
    let ctx = new_context();
    let mut solver = Facade::new(&ctx);
    for offset in 0..8u64 {
        for width in [1u32, 3, 8, 13, 16, 24, 32, 48, 56, 63, 64] {
            if offset * 8 + width as u64 > 64 {
                continue;
            }
            let mut mem = Memory::new(&ctx);
            let addr = BitVec::from_u64(&ctx, 0x4000 + offset, 64);
            let pattern = 0xA5C3_F00F_1234_8765u64 >> (64 - width);
            mem.write(&addr, BitVec::from_u64(&ctx, pattern, width));
            let back = mem.read(&addr, width);
            assert_eq!(back.get_width(), width);
            assert_eq!(value(&mut solver, &back), pattern);
        }
    }
}

#[test]
fn narrow_writes_leave_their_neighbours() {
    let ctx = new_context();
    let mut solver = Facade::new(&ctx);
    let mut mem = Memory::new_zero_initialized(&ctx);
    let cell = BitVec::from_u64(&ctx, 0x100, 64);
    mem.write(&cell, BitVec::from_u64(&ctx, u64::MAX, 64));
    // one bit at the start of byte 3, five bits at the start of byte 6
    mem.write(&BitVec::from_u64(&ctx, 0x103, 64), BitVec::zero(&ctx, 1));
    mem.write(&BitVec::from_u64(&ctx, 0x106, 64), BitVec::zero(&ctx, 5));
    let back = mem.read(&cell, 64);
    assert_eq!(value(&mut solver, &back), 0xFFE0_FFFF_FEFF_FFFF);
    // the cells next to it are as they were
    let before = mem.read(&BitVec::from_u64(&ctx, 0xF8, 64), 64);
    let after = mem.read(&BitVec::from_u64(&ctx, 0x108, 64), 64);
    assert_eq!(value(&mut solver, &before), 0);
    assert_eq!(value(&mut solver, &after), 0);
}

#[test]
fn wide_writes_fill_cell_after_cell() {
    let ctx = new_context();
    let mut solver = Facade::new(&ctx);
    let mut mem = Memory::new_zero_initialized(&ctx);
    let addr = BitVec::from_u64(&ctx, 0x200, 64);
    let next = BitVec::from_u64(&ctx, 0x220, 64);
    mem.write(&next, BitVec::from_u64(&ctx, 0x7777, 64));
    // 3 whole cells and 9 bits
    let wide = BitVec::from_u64(&ctx, 0x1FF, 9)
        .concat(&BitVec::from_u64(&ctx, 3, 64))
        .concat(&BitVec::from_u64(&ctx, 2, 64))
        .concat(&BitVec::from_u64(&ctx, 1, 64));
    assert_eq!(wide.get_width(), 201);
    mem.write(&addr, wide);
    for (k, expected) in [(0u64, 1u64), (1, 2), (2, 3)] {
        let cell = mem.read(&BitVec::from_u64(&ctx, 0x200 + 8 * k, 64), 64);
        assert_eq!(value(&mut solver, &cell), expected);
    }
    // the last piece takes nine bits of its cell and leaves the others
    let last = mem.read(&BitVec::from_u64(&ctx, 0x218, 64), 64);
    assert_eq!(value(&mut solver, &last), 0x1FF);
    let after = mem.read(&next, 64);
    assert_eq!(value(&mut solver, &after), 0x7777);
    // bytes of the wide value, by address
    let byte = mem.read(&BitVec::from_u64(&ctx, 0x208, 64), 8);
    assert_eq!(value(&mut solver, &byte), 2);
    let high = mem.read(&BitVec::from_u64(&ctx, 0x219, 64), 8);
    assert_eq!(value(&mut solver, &high), 1);
    // and all of it again
    let all = mem.read(&addr, 201);
    assert_eq!(
        solver.get_a_solution_for_specified_bits_of_bv(&all, 200, 192),
        Ok(Some(0x1FF))
    );
    assert_eq!(
        solver.get_a_solution_for_specified_bits_of_bv(&all, 191, 128),
        Ok(Some(3))
    );
}

#[test]
fn a_multiple_of_the_cell_size_has_no_empty_last_piece() {
    let ctx = new_context();
    let mut solver = Facade::new(&ctx);
    let mut mem = Memory::new_zero_initialized(&ctx);
    let addr = BitVec::from_u64(&ctx, 0x300, 64);
    let guard = BitVec::from_u64(&ctx, 0x310, 64);
    mem.write(&guard, BitVec::from_u64(&ctx, 0xABCD, 64));
    let two = BitVec::from_u64(&ctx, 6, 64).concat(&BitVec::from_u64(&ctx, 5, 64));
    mem.write(&addr, two);
    let back = mem.read(&addr, 128);
    assert_eq!(back.get_width(), 128);
    assert_eq!(
        solver.get_a_solution_for_specified_bits_of_bv(&back, 127, 64),
        Ok(Some(6))
    );
    let kept = mem.read(&guard, 64);
    assert_eq!(value(&mut solver, &kept), 0xABCD);
}

#[test]
fn symbolic_values_and_addresses_read_back() {
    let ctx = new_context();
    let mut solver = Facade::new(&ctx);
    let mut mem = Memory::new(&ctx);
    let v = BitVec::new(&ctx, "v", 32);
    let base = BitVec::new(&ctx, "base", 64);
    // an address that starts a cell, whatever it is
    let addr = base.and(&BitVec::from_u64(&ctx, !7u64, 64));
    mem.write(&addr, v.clone());
    let back = mem.read(&addr, 32);
    assert_eq!(solver.bvs_must_be_equal(&back, &v), Ok(true));
    let low = mem.read(&addr, 8);
    assert_eq!(solver.bvs_must_be_equal(&low, &v.slice(7, 0)), Ok(true));
    let two_on = addr.add(&BitVec::from_u64(&ctx, 2, 64));
    let high = mem.read(&two_on, 16);
    assert_eq!(solver.bvs_must_be_equal(&high, &v.slice(31, 16)), Ok(true));
    // another cell is not touched
    let other = addr.add(&BitVec::from_u64(&ctx, 8, 64));
    let before = Memory::new(&ctx).read(&other, 64);
    let after = mem.read(&other, 64);
    assert_eq!(solver.bvs_must_be_equal(&before, &after), Ok(true));
}

#[test]
fn the_end_of_the_address_space_wraps_to_its_start() {
    let ctx = new_context();
    let mut solver = Facade::new(&ctx);
    let mut mem = Memory::new_zero_initialized(&ctx);
    let last = BitVec::from_u64(&ctx, u64::MAX - 7, 64);
    let two = BitVec::from_u64(&ctx, 0x22, 64).concat(&BitVec::from_u64(&ctx, 0x11, 64));
    mem.write(&last, two);
    let first = mem.read(&BitVec::zero(&ctx, 64), 64);
    assert_eq!(value(&mut solver, &first), 0x22);
    let back = mem.read(&last, 128);
    assert_eq!(
        solver.get_a_solution_for_specified_bits_of_bv(&back, 127, 64),
        Ok(Some(0x22))
    );
    assert_eq!(
        solver.get_a_solution_for_specified_bits_of_bv(&back, 63, 0),
        Ok(Some(0x11))
    );
}

#[test]
fn a_copy_of_memory_is_its_own() {
    let ctx = new_context();
    let mut solver = Facade::new(&ctx);
    let mut mem = Memory::new(&ctx);
    let addr = BitVec::from_u64(&ctx, 0x40, 64);
    mem.write(&addr, BitVec::from_u64(&ctx, 1, 8));
    let mut copy = mem.duplicate();
    copy.write(&addr, BitVec::from_u64(&ctx, 2, 8));
    assert_eq!(value(&mut solver, &mem.read(&addr, 8)), 1);
    assert_eq!(value(&mut solver, &copy.read(&addr, 8)), 2);
}
