use libyml::{WriteToPtr, YamlBufferT};

#[test]
fn write_fmt_pads_with_zeros() {
    let mut w = WriteToPtr::new();
    w.write_str(b"id");
    w.write_fmt(7, 3);
    assert_eq!(w.buffer, b"id007".to_vec());
    w.write_fmt(12345, 3);
    assert_eq!(w.buffer, b"id00712345".to_vec());
    w.write_fmt(0, 0);
    assert_eq!(w.buffer, b"id007123450".to_vec());
}

#[test]
fn buffer_reads_in_order() {
    let mut b = YamlBufferT { items: std::collections::VecDeque::from(vec![1, 2]) };
    assert!(!b.is_empty());
    assert_eq!(b.next(), Some(1));
    assert_eq!(b.next(), Some(2));
    assert!(b.is_empty());
    assert_eq!(b.next(), None);
}
