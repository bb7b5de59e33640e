use oss_uploader::progress::Progress;

#[test]
fn counter_starts_at_zero() {
    let p = Progress::new(25);
    assert_eq!(p.position(), 0);
    assert_eq!(p.total(), 25);
    assert_eq!(p.remaining(), 25);
    assert!(!p.is_finished());
}

#[test]
fn counter_grows_by_what_is_counted() {
    let mut p = Progress::new(25);
    p.inc(10);
    assert_eq!(p.position(), 10);
    p.inc(10);
    p.inc(5);
    assert_eq!(p.position(), 25);
    assert_eq!(p.remaining(), 0);
    assert_eq!(p.total(), 25);
    p.inc(0);
    assert_eq!(p.position(), 25);
}

#[test]
fn finishing_is_apart_from_reaching_the_total() {
    let mut p = Progress::new(25);
    p.inc(25);
    assert!(!p.is_finished());
    p.finish();
    assert!(p.is_finished());
    assert_eq!(p.position(), 25);

    let mut q = Progress::new(25);
    q.inc(3);
    q.finish();
    assert!(q.is_finished());
    assert_eq!(q.position(), 3);
}
