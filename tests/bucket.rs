use yammer_tools::bucket::TokenBucket;

#[test]
fn burst_of_capacity_then_refill() {
    let mut b = TokenBucket::new(10, 30);
    for _ in 0..10 {
        assert!(b.take_at(0));
    }
    assert!(!b.take_at(0));
    assert_eq!(b.tokens(), 0);
    assert!(b.take_at(1000));
    // 30 tokens accrued, capped at 10, one taken.
    assert_eq!(b.tokens(), 9);
}

#[test]
fn tokens_never_exceed_capacity() {
    let mut b = TokenBucket::new(3, 5);
    let times = [0u64, 100, 5000, 5000, 7999, 8000, 1_000_000, 1_000_500, u64::MAX];
    for t in times {
        b.take_at(t);
        assert!(b.tokens() <= b.capacity());
    }
}

#[test]
fn under_a_second_accrues_nothing() {
    let mut b = TokenBucket::new(1, 100);
    assert!(b.take_at(0));
    assert!(!b.take_at(999));
    // The last refill moved to 999, so 1998 is still under a second later.
    assert!(!b.take_at(1998));
    assert!(b.take_at(2998));
}

#[test]
fn zero_capacity_never_grants() {
    let mut b = TokenBucket::new(0, 10);
    assert!(!b.take_at(0));
    assert!(!b.take_at(10_000));
    assert!(!b.take());
}

#[test]
fn take_uses_the_clock() {
    let mut b = TokenBucket::new(2, 1);
    assert!(b.take());
    assert!(b.take());
    assert_eq!(b.tokens(), 0);
    assert_eq!(b.rate(), 1);
}
