use symstate::bv::BitVec;
use symstate::memory::{Memory, CELL_BITS, INDEX_BITS};
use symstate::solver::Facade;
use symstate::solver::new_context;

fn solve<'a>(solver: &mut Facade<'a>, bv: &BitVec<'a>) -> u64 {
    solver
        .get_a_solution_for_bv(bv)
        .unwrap()
        .expect("Expected a solution")
        .as_u64()
        .unwrap()
}

fn solve_bits<'a>(solver: &mut Facade<'a>, bv: &BitVec<'a>, high: u32, low: u32) -> u64 {
    solver
        .get_a_solution_for_specified_bits_of_bv(bv, high, low)
        .unwrap()
        .expect("Expected a solution")
}

#[test]
fn read_and_write_to_cell_zero() {
    let ctx = new_context();
    let mut mem = Memory::new(&ctx);
    let mut solver = Facade::new(&ctx);

    // Store data to address 0
    let data_val = 0x12345678;
    let data = BitVec::from_u64(&ctx, data_val, CELL_BITS);
    let zero = BitVec::from_u64(&ctx, 0, INDEX_BITS);
    mem.write(&zero, data);

    // Ensure that we can read it back again
    let read_bv = mem.read(&zero, CELL_BITS);
    let read_val = solve(&mut solver, &read_bv);
    assert_eq!(read_val, data_val);
}

#[test]
fn read_and_write_cell_aligned() {
    let ctx = new_context();
    let mut mem = Memory::new(&ctx);
    let mut solver = Facade::new(&ctx);

    // Store data to a nonzero, but aligned, address
    let data_val = 0x12345678;
    let data = BitVec::from_u64(&ctx, data_val, CELL_BITS);
    let aligned = BitVec::from_u64(&ctx, 0x10000, INDEX_BITS);
    mem.write(&aligned, data);

    // Ensure that we can read it back again
    let read_bv = mem.read(&aligned, CELL_BITS);
    let read_val = solve(&mut solver, &read_bv);
    assert_eq!(read_val, data_val);
}

#[test]
fn read_and_write_small() {
    let ctx = new_context();
    let mut mem = Memory::new(&ctx);
    let mut solver = Facade::new(&ctx);

    // Store 8 bits of data
    let data_val = 0x4F;
    let data = BitVec::from_u64(&ctx, data_val, 8);
    let addr = BitVec::from_u64(&ctx, 0x10000, INDEX_BITS);
    mem.write(&addr, data);

    // Ensure that we can read it back again
    let read_bv = mem.read(&addr, 8);
    let read_val = solve(&mut solver, &read_bv);
    assert_eq!(read_val, data_val);
}

#[test]
fn read_and_write_unaligned() {
    let ctx = new_context();
    let mut mem = Memory::new(&ctx);
    let mut solver = Facade::new(&ctx);

    // Store 8 bits of data to offset 1 in a cell
    let data_val = 0x4F;
    let data = BitVec::from_u64(&ctx, data_val, 8);
    let unaligned = BitVec::from_u64(&ctx, 0x10001, INDEX_BITS);
    mem.write(&unaligned, data.clone());

    // Ensure that we can read it back again
    let read_bv = mem.read(&unaligned, 8);
    let read_val = solve(&mut solver, &read_bv);
    assert_eq!(read_val, data_val);
}

#[test]
fn read_and_write_twocells() {
    let ctx = new_context();
    let mut mem = Memory::new(&ctx);
    let mut solver = Facade::new(&ctx);

    // Store two cells' worth of data
    let data_val_0: u64 = 0x12345678_9abcdef0;
    let data_val_1: u64 = 0x2468ace0_13579bdf;
    let write_val =
        BitVec::from_u64(&ctx, data_val_1, 64).concat(&BitVec::from_u64(&ctx, data_val_0, 64));
    assert_eq!(write_val.get_width(), 2 * CELL_BITS);
    let addr = BitVec::from_u64(&ctx, 0x10000, INDEX_BITS);
    mem.write(&addr, write_val);

    // Ensure that we can read it back again
    let read_bv = mem.read(&addr, 128);
    let read_val_0 = solve_bits(&mut solver, &read_bv, 63, 0);
    assert_eq!(
        read_val_0, data_val_0,
        "\nGot value 0x{:x}, expected 0x{:x}",
        read_val_0, data_val_0
    );
    let read_val_1 = solve_bits(&mut solver, &read_bv, 127, 64);
    assert_eq!(read_val_1, data_val_1);
}

#[test]
fn read_and_write_200bits() {
    let ctx = new_context();
    let mut mem = Memory::new(&ctx);
    let mut solver = Facade::new(&ctx);

    // Store 200 bits of data
    let data_val_0: u64 = 0x12345678_9abcdef0;
    let data_val_1: u64 = 0x2468ace0_13579bdf;
    let data_val_2: u64 = 0xfedcba98_76543210;
    let data_val_3: u64 = 0xef;
    let write_val = BitVec::from_u64(&ctx, data_val_3, 8)
        .concat(&BitVec::from_u64(&ctx, data_val_2, 64))
        .concat(&BitVec::from_u64(&ctx, data_val_1, 64))
        .concat(&BitVec::from_u64(&ctx, data_val_0, 64));
    assert_eq!(write_val.get_width(), 200);
    let addr = BitVec::from_u64(&ctx, 0x10000, INDEX_BITS);
    mem.write(&addr, write_val);

    // Ensure that we can read it back again
    let read_bv = mem.read(&addr, 200);
    let read_val_0 = solve_bits(&mut solver, &read_bv, 63, 0);
    assert_eq!(read_val_0, data_val_0);
    let read_val_1 = solve_bits(&mut solver, &read_bv, 127, 64);
    assert_eq!(read_val_1, data_val_1);
    let read_val_2 = solve_bits(&mut solver, &read_bv, 191, 128);
    assert_eq!(read_val_2, data_val_2);
    let read_val_3 = solve_bits(&mut solver, &read_bv, 199, 192);
    assert_eq!(read_val_3, data_val_3);
}

#[test]
fn write_small_read_big() {
    let ctx = new_context();
    let mut mem = Memory::new(&ctx);
    let mut solver = Facade::new(&ctx);

    // Store 8 bits of data to offset 1 in a cell
    let data_val = 0x4F;
    let data = BitVec::from_u64(&ctx, data_val, 8);
    let unaligned = BitVec::from_u64(&ctx, 0x10001, INDEX_BITS);
    mem.write(&unaligned, data.clone());

    // Ensure that reading from beginning of the cell adds zeroed low-order bits
    // (we are little-endian)
    let aligned = BitVec::from_u64(&ctx, 0x10000, INDEX_BITS);
    let read_bv = mem.read(&aligned, 16);
    let read_val = solve(&mut solver, &read_bv);
    assert_eq!(read_val, 0x4F00);

    // Ensure that reading extra bits adds zeroed high-order bits
    let read_bv = mem.read(&unaligned, 16);
    let read_val = solve(&mut solver, &read_bv);
    assert_eq!(read_val, 0x004F);

    // Ensure that reading elsewhere gives all zeroes
    let garbage_addr_1 = BitVec::from_u64(&ctx, 0x10004, INDEX_BITS);
    let garbage_addr_2 = BitVec::from_u64(&ctx, 0x10008, INDEX_BITS);
    let read_bv_1 = mem.read(&garbage_addr_1, 8);
    let read_bv_2 = mem.read(&garbage_addr_2, 8);
    let read_val_1 = solve(&mut solver, &read_bv_1);
    let read_val_2 = solve(&mut solver, &read_bv_2);
    assert_eq!(read_val_1, 0);
    assert_eq!(read_val_2, 0);
}

#[test]
fn write_big_read_small() {
    let ctx = new_context();
    let mut mem = Memory::new(&ctx);
    let mut solver = Facade::new(&ctx);

    // Store 32 bits of data to offset 2 in a cell
    let data_val = 0x12345678;
    let data = BitVec::from_u64(&ctx, data_val, 32);
    let offset_2 = BitVec::from_u64(&ctx, 0x10002, INDEX_BITS);
    mem.write(&offset_2, data.clone());

    // Ensure that reading 8 bits from offset 2 gives the low-order byte
    // (we are little-endian)
    let read_bv = mem.read(&offset_2, 8);
    let read_val = solve(&mut solver, &read_bv);
    assert_eq!(read_val, 0x78);

    // Ensure that reading 8 bits from offset 5 gives the high-order byte
    // (we are little-endian)
    let offset_5 = BitVec::from_u64(&ctx, 0x10005, INDEX_BITS);
    let read_bv = mem.read(&offset_5, 8);
    let read_val = solve(&mut solver, &read_bv);
    assert_eq!(read_val, 0x12);

    // Ensure that reading 16 bits from offset 3 gives the middle two bytes
    let offset_3 = BitVec::from_u64(&ctx, 0x10003, INDEX_BITS);
    let read_bv = mem.read(&offset_3, 16);
    let read_val = solve(&mut solver, &read_bv);
    assert_eq!(read_val, 0x3456);
}

#[test]
fn partial_overwrite_aligned() {
    let ctx = new_context();
    let mut mem = Memory::new(&ctx);
    let mut solver = Facade::new(&ctx);

    // Write an entire cell
    let data = BitVec::from_u64(&ctx, 0x12345678_12345678, CELL_BITS);
    let addr = BitVec::from_u64(&ctx, 0x10000, INDEX_BITS);
    mem.write(&addr, data);

    // Write over just the first part
    let overwrite_data_val = 0xdcba;
    let overwrite_data = BitVec::from_u64(&ctx, overwrite_data_val, 16);
    mem.write(&addr, overwrite_data);

    // Ensure that we can read the smaller overwrite back
    let read_bv = mem.read(&addr, 16);
    let read_val = solve(&mut solver, &read_bv);
    assert_eq!(read_val, overwrite_data_val);

    // Ensure that reading the whole cell back reflects the partial overwrite
    let read_bv = mem.read(&addr, CELL_BITS);
    let read_val = solve(&mut solver, &read_bv);
    assert_eq!(read_val, 0x12345678_1234dcba);
}

#[test]
fn partial_overwrite_unaligned() {
    let ctx = new_context();
    let mut mem = Memory::new(&ctx);
    let mut solver = Facade::new(&ctx);

    // Write an entire cell
    let data = BitVec::from_u64(&ctx, 0x12345678_12345678, CELL_BITS);
    let addr = BitVec::from_u64(&ctx, 0x10000, INDEX_BITS);
    mem.write(&addr, data);

    // Write over just part of the middle
    let overwrite_addr = BitVec::from_u64(&ctx, 0x10002, INDEX_BITS);
    let overwrite_data_val = 0xdcba;
    let overwrite_data = BitVec::from_u64(&ctx, overwrite_data_val, 16);
    mem.write(&overwrite_addr, overwrite_data);

    // Ensure that we can read the smaller overwrite back
    let read_bv = mem.read(&overwrite_addr, 16);
    let read_val = solve(&mut solver, &read_bv);
    assert_eq!(read_val, overwrite_data_val);

    // Ensure that reading the whole cell back reflects the partial overwrite
    let read_bv = mem.read(&addr, CELL_BITS);
    let read_val = solve(&mut solver, &read_bv);
    assert_eq!(read_val, 0x12345678_dcba5678);

    // Now a different partial read with some earlier data and some overwritten
    let new_addr = BitVec::from_u64(&ctx, 0x10003, INDEX_BITS);
    let read_bv = mem.read(&new_addr, 16);
    let read_val = solve(&mut solver, &read_bv);
    assert_eq!(read_val, 0x78dc);
}
