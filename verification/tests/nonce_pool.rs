use block_chat::account::{NoncePool, BUF_LEN};

#[test]
fn test_nonce_impl() {
    let mut pool = NoncePool::new();
    assert_eq!(pool.next(), 0);
    assert!(!pool.is_marked_used(0));
    assert!(!pool.is_marked_used(1));
    assert!(!pool.is_marked_used(2));
    assert!(!pool.is_marked_used(3));
    assert!(!pool.is_marked_used(BUF_LEN as u64 - 1));
    assert!(!pool.is_marked_used(BUF_LEN as u64));
    assert!(!pool.is_marked_used(2 * BUF_LEN as u64));

    pool.mark_used(0);
    assert_eq!(pool.next(), 1);
    assert!(pool.is_marked_used(0));
    assert!(!pool.is_marked_used(1));
    assert!(!pool.is_marked_used(2));
    assert!(!pool.is_marked_used(3));
    assert!(!pool.is_marked_used(BUF_LEN as u64 - 1));
    assert!(!pool.is_marked_used(BUF_LEN as u64));
    assert!(!pool.is_marked_used(BUF_LEN as u64 + 1));
    assert!(!pool.is_marked_used(2 * BUF_LEN as u64));

    pool.mark_used(2);
    assert_eq!(pool.next(), 3);
    assert!(pool.is_marked_used(0));
    assert!(!pool.is_marked_used(1));
    assert!(pool.is_marked_used(2));
    assert!(!pool.is_marked_used(3));
    assert!(!pool.is_marked_used(BUF_LEN as u64 - 1));
    assert!(!pool.is_marked_used(BUF_LEN as u64));
    assert!(!pool.is_marked_used(BUF_LEN as u64 + 1));
    assert!(!pool.is_marked_used(2 * BUF_LEN as u64));

    pool.mark_used(BUF_LEN as u64);
    assert_eq!(pool.next(), BUF_LEN as u64 + 1);
    assert!(pool.is_marked_used(0));
    assert!(!pool.is_marked_used(1));
    assert!(pool.is_marked_used(2));
    assert!(!pool.is_marked_used(3));
    assert!(!pool.is_marked_used(BUF_LEN as u64 - 1));
    assert!(pool.is_marked_used(BUF_LEN as u64));
    assert!(!pool.is_marked_used(BUF_LEN as u64 + 1));
    assert!(!pool.is_marked_used(2 * BUF_LEN as u64));

    pool.mark_used(BUF_LEN as u64 + 1);
    assert_eq!(pool.next(), BUF_LEN as u64 + 2);
    assert!(pool.is_marked_used(0));
    assert!(pool.is_marked_used(1));
    assert!(pool.is_marked_used(2));
    assert!(!pool.is_marked_used(3));
    assert!(!pool.is_marked_used(BUF_LEN as u64 - 1));
    assert!(pool.is_marked_used(BUF_LEN as u64));
    assert!(pool.is_marked_used(BUF_LEN as u64 + 1));
    assert!(!pool.is_marked_used(2 * BUF_LEN as u64));

    pool.mark_used(2 * BUF_LEN as u64);
    assert_eq!(pool.next(), (2 * BUF_LEN) as u64 + 1);
    assert!(pool.is_marked_used(0));
    assert!(pool.is_marked_used(1));
    assert!(pool.is_marked_used(2));
    assert!(pool.is_marked_used(3));
    assert!(pool.is_marked_used(BUF_LEN as u64 - 1));
    assert!(pool.is_marked_used(BUF_LEN as u64));
    assert!(pool.is_marked_used(BUF_LEN as u64 + 1));
    assert!(pool.is_marked_used(2 * BUF_LEN as u64));
}

#[test]
fn mark_far_ahead_resets_window() {
    let mut pool = NoncePool::new();
    pool.mark_used(5);
    pool.mark_used(200);
    assert_eq!(pool.next(), 201);
    // Everything below the new window counts as used by default.
    for n in 0..169 {
        assert!(pool.is_marked_used(n));
    }
    // Inside the fresh window only 200 itself is used.
    for n in 169..200 {
        assert!(!pool.is_marked_used(n));
    }
    assert!(pool.is_marked_used(200));
    assert!(!pool.is_marked_used(201));
}
