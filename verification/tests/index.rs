use bitvec::order::Lsb0;
use bitvec::vec::BitVec;
use succinct_bv::bv::{BuildError, BV};
use succinct_bv::model::LARGE;

fn repeat(bit: bool, len: usize) -> BitVec<Lsb0, u16> {
    BitVec::repeat(bit, len)
}

fn from_bools(bits: &[bool]) -> BitVec<Lsb0, u16> {
    let mut v: BitVec<Lsb0, u16> = BitVec::new();
    for &b in bits {
        v.push(b);
    }
    v
}

#[test]
fn new_l_size_1() {
    let v = repeat(false, 1);
    assert_eq!(BV::new(v.as_slice(), v.len()).unwrap().large_sum().len(), 1);
}

#[test]
fn new_l_size_large() {
    let v = repeat(false, LARGE);
    assert_eq!(BV::new(v.as_slice(), v.len()).unwrap().large_sum().len(), 1);
}

#[test]
fn new_l_size_large_plus_1() {
    let v = repeat(true, LARGE + 1);
    assert_eq!(BV::new(v.as_slice(), v.len()).unwrap().large_sum().len(), 2);
}

#[test]
fn new_large_sum() {
    let v = repeat(true, LARGE + 1);
    assert_eq!(*BV::new(v.as_slice(), v.len()).unwrap().large_sum(), vec![0, 1024]);
}

#[test]
fn new_small_sum() {
    let bools: Vec<bool> = (0..50).map(|i| i < 20).collect();
    let v = from_bools(&bools);
    let bv = BV::new(v.as_slice(), v.len()).unwrap();
    assert_eq!(*bv.small_sum(), vec![0, 16, 20, 20]);
}

#[test]
fn rank() {
    let v = repeat(true, LARGE + 1);
    let bv = BV::new(v.as_slice(), v.len()).unwrap();
    assert_eq!(bv.rank1(10), 10);
    assert_eq!(bv.rank1(1000), 1000);
}

#[test]
fn rank_with_table() {
    let v = repeat(true, LARGE + 1);
    let bv = BV::new(v.as_slice(), v.len()).unwrap();
    let table = BV::rank_lookup_table();
    assert_eq!(bv.rank1_with_table(10, &table), 10);
    assert_eq!(bv.rank1_with_table(1000, &table), 1000);
}

#[test]
fn empty_vector() {
    let words: [u16; 0] = [];
    let bv = BV::new(&words, 0).unwrap();
    assert_eq!(*bv.large_sum(), vec![0]);
    assert!(bv.small_sum().is_empty());
    assert_eq!(bv.len(), 0);
    assert_eq!(bv.rank1(0), 0);
    assert_eq!(bv.rank0(0), 0);
    assert_eq!(bv.get(0), None);
    let table = BV::rank_lookup_table();
    assert_eq!(bv.rank1_with_table(0, &table), 0);
}

#[test]
fn all_ones_one_block() {
    let v = repeat(true, LARGE);
    let bv = BV::new(v.as_slice(), v.len()).unwrap();
    assert_eq!(*bv.large_sum(), vec![0]);
    assert_eq!(bv.small_sum().len(), 64);
    assert_eq!(bv.rank1(10), 10);
}

#[test]
fn rank_at_the_length_on_a_word_boundary() {
    let v = repeat(true, LARGE);
    let bv = BV::new(v.as_slice(), v.len()).unwrap();
    let table = BV::rank_lookup_table();
    assert_eq!(bv.rank1(LARGE), 1024);
    assert_eq!(bv.rank1_with_table(LARGE, &table), 1024);
    assert_eq!(bv.rank0(LARGE), 0);
    let words = [0x8001u16, 0x0003];
    let bv = BV::new(&words, 32).unwrap();
    assert_eq!(bv.rank1(16), 2);
    assert_eq!(bv.rank1_with_table(16, &table), 2);
    assert_eq!(bv.rank1(32), 4);
    assert_eq!(bv.rank1_with_table(32, &table), 4);
    assert_eq!(bv.rank0(32), 28);
    assert_eq!(bv.rank0_with_table(32, &table), 28);
}

#[test]
fn rank_at_zero_is_zero() {
    let words = [0xffffu16, 0x0001];
    let bv = BV::new(&words, 17).unwrap();
    let table = BV::rank_lookup_table();
    assert_eq!(bv.rank1(0), 0);
    assert_eq!(bv.rank1_with_table(0, &table), 0);
}

#[test]
fn rank_counts_the_bits_that_get_returns() {
    let words = [0xa5c3u16, 0x0000, 0xffff, 0x1234, 0x0f0f];
    let len = 77;
    let bv = BV::new(&words, len).unwrap();
    let table = BV::rank_lookup_table();
    let mut seen: u32 = 0;
    for i in 0..=len {
        assert_eq!(bv.rank1(i), seen);
        assert_eq!(bv.rank1_with_table(i, &table), seen);
        assert_eq!(bv.rank1(i) + bv.rank0(i), i as u32);
        assert_eq!(bv.rank0_with_table(i, &table), bv.rank0(i));
        if i < len {
            let bit = *bv.get(i).unwrap();
            assert_eq!(bit, (words[i / 16] >> (i % 16)) & 1 == 1);
            assert_eq!(*bv.index(i), bit);
            let step = bv.rank1(i + 1) - bv.rank1(i);
            assert_eq!(step, if bit { 1 } else { 0 });
            if bit {
                seen += 1;
            }
        }
    }
    assert_eq!(seen, 8 + 0 + 16 + 5 + 8);
}

#[test]
fn rank_across_large_blocks() {
    let mut words = vec![0u16; 130];
    for (w, word) in words.iter_mut().enumerate() {
        *word = if w % 2 == 0 { 0x00ff } else { 0x0001 };
    }
    let len = 130 * 16 - 5;
    let bv = BV::new(&words, len).unwrap();
    let table = BV::rank_lookup_table();
    assert_eq!(*bv.large_sum(), vec![0, 32 * 9, 64 * 9]);
    assert_eq!(bv.small_sum()[0], 0);
    assert_eq!(bv.small_sum()[1], 8);
    assert_eq!(bv.small_sum()[63], 31 * 9 + 8);
    assert_eq!(bv.small_sum()[64], 0);
    assert_eq!(bv.small_sum()[128], 0);
    assert_eq!(bv.small_sum()[129], 8);
    assert_eq!(bv.rank1(1024), 288);
    assert_eq!(bv.rank1(1024 + 4), 292);
    assert_eq!(bv.rank1_with_table(1024 + 4, &table), 292);
    assert_eq!(bv.rank1(2048 + 16 + 1), 576 + 8 + 1);
    assert_eq!(bv.rank1_with_table(2048 + 16 + 1, &table), 585);
    assert_eq!(bv.rank1(len), 585);
    assert_eq!(bv.rank0(len), len as u32 - 585);
}

#[test]
fn bits_past_the_length_are_not_counted() {
    let words = [0xffffu16];
    let bv = BV::new(&words, 3).unwrap();
    let table = BV::rank_lookup_table();
    assert_eq!(bv.len(), 3);
    assert_eq!(bv.rank1(3), 3);
    assert_eq!(bv.rank1_with_table(3, &table), 3);
    assert_eq!(bv.get(2), Some(&true));
    assert_eq!(bv.get(3), None);
    assert_eq!(*bv.large_sum(), vec![0]);
    assert_eq!(*bv.small_sum(), vec![0]);
}

#[test]
fn get_out_of_range_is_none() {
    let v = from_bools(&[true, false, true]);
    let bv = BV::new(v.as_slice(), v.len()).unwrap();
    assert_eq!(bv.get(0), Some(&true));
    assert_eq!(bv.get(1), Some(&false));
    assert_eq!(bv.get(2), Some(&true));
    assert_eq!(bv.get(3), None);
    assert_eq!(bv.get(16), None);
    assert_eq!(bv.get(usize::MAX), None);
}

#[test]
fn new_rejects_a_wrong_word_count() {
    let words = [0u16; 3];
    assert_eq!(BV::new(&words, 16).err(), Some(BuildError::LengthMismatch));
    assert_eq!(BV::new(&words, 32).err(), Some(BuildError::LengthMismatch));
    assert_eq!(BV::new(&words, 49).err(), Some(BuildError::LengthMismatch));
    assert_eq!(BV::new(&words, 0).err(), Some(BuildError::LengthMismatch));
    assert!(BV::new(&words, 33).is_ok());
    assert!(BV::new(&words, 48).is_ok());
    assert_eq!(BV::new(&words[..0], 1).err(), Some(BuildError::LengthMismatch));
}

#[test]
fn new_rejects_too_many_bits() {
    let words: [u16; 0] = [];
    assert_eq!(BV::new(&words, usize::MAX).err(), Some(BuildError::TooLong));
    assert_eq!(BV::new(&words, (u32::MAX as usize).saturating_add(1)).err(), Some(BuildError::TooLong));
}

#[test]
fn large_sum_has_one_entry_per_block() {
    for (len, blocks) in [(0usize, 1usize), (1, 1), (1024, 1), (1025, 2), (2048, 2), (2049, 3), (4096, 4)] {
        let v = repeat(false, len);
        let bv = BV::new(v.as_slice(), v.len()).unwrap();
        assert_eq!(bv.large_sum().len(), blocks);
        assert_eq!(bv.small_sum().len(), (len + 15) / 16);
        assert_eq!(bv.large_sum()[0], 0);
    }
}

#[test]
fn lookup_table_cells() {
    let table = BV::rank_lookup_table();
    assert_eq!(table.len(), 65536);
    for row in table.iter() {
        assert_eq!(row.len(), 16);
        assert_eq!(row[0], 0);
    }
    for p in 0..16 {
        assert_eq!(table[0][p], 0);
        assert_eq!(table[0xffff][p], p as u8);
    }
    assert_eq!(table[0b1011][0], 0);
    assert_eq!(table[0b1011][1], 1);
    assert_eq!(table[0b1011][2], 2);
    assert_eq!(table[0b1011][3], 2);
    assert_eq!(table[0b1011][4], 3);
    assert_eq!(table[0x8000][15], 0);
}

#[test]
fn a_clone_answers_as_the_index_it_came_from() {
    let words = [0x00ffu16, 0xf000, 0x0001];
    let bv = BV::new(&words, 33).unwrap();
    let copy = bv.clone();
    assert_eq!(copy, bv);
    assert_eq!(copy.len(), 33);
    assert_eq!(copy.rank1(33), 13);
    assert_eq!(copy.rank0(33), 20);
    assert_eq!(*copy.small_sum(), vec![0, 8, 12]);
    assert_eq!(copy.get(32), Some(&true));
}

#[test]
fn all_ones_past_one_block() {
    let v = repeat(true, LARGE + 1);
    let bv = BV::new(v.as_slice(), v.len()).unwrap();
    let table = BV::rank_lookup_table();
    assert_eq!(*bv.large_sum(), vec![0, 1024]);
    assert_eq!(bv.small_sum()[64], 0);
    assert_eq!(bv.rank1(LARGE + 1), 1025);
    assert_eq!(bv.rank1_with_table(LARGE + 1, &table), 1025);
    assert_eq!(bv.rank0(LARGE + 1), 0);
}
