use yammer_tools::backoff::{RateLimitBackoff, BACKOFF_CEILING_SECS};

#[test]
fn waits_grow_by_five_until_the_ceiling() {
    let mut b = RateLimitBackoff::new();
    let mut waits = Vec::new();
    while let Ok(d) = b.on_rate_limited() {
        waits.push(d);
    }
    assert_eq!(waits, vec![5, 10, 15, 20, 25, 30, 35, 40, 45, 50]);
    assert_eq!(b.waited(), 275);
    assert!(b.waited() <= BACKOFF_CEILING_SECS);
    assert!(b.on_rate_limited().is_err());
    assert_eq!(b.waited(), 275);
}
