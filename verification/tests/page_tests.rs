use hnsw_build::page::Page;
use hnsw_build::page::unfit_tail;

#[test]
fn write_then_read_round_trips_when_it_fits() {
    let mut page = Page::new(64);
    let value = vec![1u8, 2, 3, 4, 5];
    let unwritten = page.write_value(2, &value, 4);
    assert_eq!(unwritten, 0);
    let (bytes, unread) = page.read_value(2, 5, 4);
    assert_eq!(unread, 0);
    assert_eq!(bytes, value);
}

#[test]
fn write_past_page_end_reports_unwritten_tail() {
    let mut page = Page::new(16);
    let value = vec![9u8; 10];
    // value_start = 3 * 4 = 12, value_end = 22, page holds 16 bytes
    let unwritten = page.write_value(3, &value, 4);
    assert_eq!(unwritten, 22 - 16);
    let (bytes, unread) = page.read_value(3, 10, 4);
    assert_eq!(unread, 22 - 16);
    assert_eq!(bytes, vec![9u8; 4]);
}

#[test]
fn write_overwrites_previous_blocks() {
    let mut page = Page::new(8);
    assert_eq!(page.write_value(0, &vec![1, 1, 1, 1], 2), 0);
    assert_eq!(page.write_value(1, &vec![7, 8], 2), 0);
    let (bytes, unread) = page.read_value(0, 4, 2);
    assert_eq!(unread, 0);
    assert_eq!(bytes, vec![1, 1, 7, 8]);
}

#[test]
fn fresh_page_is_zeroed_and_sized() {
    let page = Page::new(10);
    assert_eq!(page.len(), 10);
    let (bytes, unread) = page.read_value(0, 10, 1);
    assert_eq!(unread, 0);
    assert_eq!(bytes, vec![0u8; 10]);
}

#[test]
fn open_keeps_bytes_and_to_bytes_hands_them_back() {
    let page = Page::open(vec![3, 1, 4, 1, 5]);
    assert_eq!(page.to_bytes(), vec![3, 1, 4, 1, 5]);
    let (bytes, unread) = page.read_value(1, 3, 1);
    assert_eq!(unread, 0);
    assert_eq!(bytes, vec![1, 4, 1]);
}

#[test]
fn unfit_tail_matches_the_write_and_read_counts() {
    assert_eq!(unfit_tail(16, 3, 10, 4), 22 - 16);
    assert_eq!(unfit_tail(64, 2, 5, 4), 0);
    assert_eq!(unfit_tail(8, 2, 0, 4), 0);
    let mut page = Page::new(16);
    let value = vec![9u8; 10];
    assert_eq!(page.write_value(3, &value, 4), unfit_tail(16, 3, 10, 4));
}
