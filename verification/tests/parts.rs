use succinct_bv::bv::{bit_of_word, popcount, table_row, tail_from_table, BV};

#[test]
fn popcount_counts_set_bits() {
    assert_eq!(popcount(0), 0);
    assert_eq!(popcount(0xffff), 16);
    assert_eq!(popcount(0x8001), 2);
    assert_eq!(popcount(0x1234), 5);
}

#[test]
fn bit_of_word_reads_from_the_low_end() {
    assert!(bit_of_word(1, 0));
    assert!(!bit_of_word(1, 1));
    assert!(bit_of_word(0x8000, 15));
    assert!(!bit_of_word(0x7fff, 15));
}

#[test]
fn table_row_counts_before_each_position() {
    assert_eq!(table_row(0b0110), vec![0, 0, 1, 2, 2, 2, 2, 2, 2, 2, 2, 2, 2, 2, 2, 2]);
    assert_eq!(table_row(0), vec![0; 16]);
}

#[test]
fn tail_from_table_covers_a_whole_word() {
    let table = BV::rank_lookup_table();
    assert_eq!(tail_from_table(&table, 0xffff, 16), 16);
    assert_eq!(tail_from_table(&table, 0x7fff, 16), 15);
    assert_eq!(tail_from_table(&table, 0x8000, 16), 1);
    assert_eq!(tail_from_table(&table, 0x8000, 15), 0);
    assert_eq!(tail_from_table(&table, 0x00f0, 6), 2);
}
