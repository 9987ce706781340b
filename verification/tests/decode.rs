use ui::decode::{PageDecode, Scheduler, Tier};

fn pages(n: usize) -> Vec<PageDecode<u32>> {
    (0..n).map(|_| PageDecode::default()).collect()
}

/// A scheduler whose settled range is `range`, over `len` pages.
fn settled_on(range: std::ops::Range<usize>, len: usize) -> Scheduler {
    let mut scheduler = Scheduler::new();
    scheduler.schedule(range);
    let mut decodes = pages(len);
    scheduler.settle(&mut decodes);
    scheduler
}

#[test]
fn full_window_expands_and_clamps_at_both_ends() {
    assert_eq!(Scheduler::full_window(10, &(3..4)), 1..6);
    assert_eq!(Scheduler::full_window(10, &(0..2)), 0..4);
    assert_eq!(Scheduler::full_window(10, &(8..10)), 6..10);
    assert_eq!(Scheduler::full_window(3, &(0..3)), 0..3);
}

#[test]
fn needs_settle_checks_the_settled_window() {
    let scheduler = Scheduler::new();
    assert!(scheduler.needs_settle(3, 10));
    let scheduler = settled_on(2..5, 10);
    assert!(!scheduler.needs_settle(3, 10));
    assert!(!scheduler.needs_settle(2, 10));
    assert!(scheduler.needs_settle(1, 10));
    assert!(scheduler.needs_settle(5, 10));
}

#[test]
fn keep_full_holds_the_settled_window_plus_preload() {
    let scheduler = settled_on(3..6, 10);
    assert!(scheduler.keep_full(10, 4));
    assert!(scheduler.keep_full(10, 1));
    assert!(scheduler.keep_full(10, 7));
    assert!(!scheduler.keep_full(10, 0));
    assert!(!scheduler.keep_full(10, 8));
    let none = Scheduler::new();
    assert!(!none.keep_full(10, 4));
}

#[test]
fn accept_elapsed_accepts_only_the_pending_generation() {
    let mut scheduler = Scheduler::new();
    assert!(!scheduler.accept_elapsed(0));
    let mut last = 0;
    for _ in 0..5 {
        last = scheduler.schedule(2..4);
    }
    assert_eq!(last, 5);
    assert!(!scheduler.accept_elapsed(4));
    assert!(scheduler.accept_elapsed(5));
}

#[test]
fn settle_takes_the_pending_range_and_records_it() {
    let mut scheduler = Scheduler::new();
    let mut images = pages(10);
    let seq = scheduler.schedule(2..4);
    assert_eq!(seq, 1);
    let _order = scheduler.settle(&mut images);
    assert_eq!(scheduler.settled(), Some(&(2..4)));
    assert!(!scheduler.accept_elapsed(1));
    // Full decodes were requested for the window around 2..4 (0..6);
    // pages beyond the keep range (0..8) stay absent.
    assert!(matches!(images[1].full, Tier::Decoding));
    assert!(matches!(images[5].full, Tier::Decoding));
    assert!(matches!(images[9].full, Tier::Absent));
    // No pending settle left: a second settle is a no-op.
    let again = scheduler.settle(&mut images);
    assert!(again.is_empty());
    assert_eq!(scheduler.settled(), Some(&(2..4)));
}

#[test]
fn settle_orders_decodes_from_the_visible_centre_outwards() {
    let mut scheduler = Scheduler::new();
    let mut images = pages(10);
    scheduler.schedule(2..4);
    let order = scheduler.settle(&mut images);
    // Centre of 2..4 is 3: page 3 first, then 2 and 4 at distance 1
    // (lower first), 1 and 5, then 0.
    assert_eq!(order, vec![3, 2, 4, 1, 5, 0]);
}

#[test]
fn settle_skips_failed_thumbs_and_existing_full_decodes() {
    let mut scheduler = Scheduler::new();
    let mut images = pages(10);
    images[3].thumb = Tier::Failed;
    images[4].full = Tier::Ready(44);
    images[5].full = Tier::Decoding;
    scheduler.schedule(3..5);
    let order = scheduler.settle(&mut images);
    assert_eq!(order, vec![2, 6, 1]);
    assert!(matches!(images[3].full, Tier::Absent));
    assert!(matches!(images[4].full, Tier::Ready(44)));
    assert!(matches!(images[5].full, Tier::Decoding));
}

#[test]
fn settle_evicts_full_decodes_outside_the_keep_window() {
    let mut scheduler = Scheduler::new();
    let mut images = pages(20);
    for image in images.iter_mut() {
        image.full = Tier::Ready(1);
    }
    scheduler.schedule(10..12);
    let order = scheduler.settle(&mut images);
    assert!(order.is_empty());
    // Keep window: 4..18.
    assert!(matches!(images[3].full, Tier::Absent));
    assert!(matches!(images[4].full, Tier::Ready(1)));
    assert!(matches!(images[17].full, Tier::Ready(1)));
    assert!(matches!(images[18].full, Tier::Absent));
    assert!(matches!(images[0].thumb, Tier::Absent));
}

#[test]
fn settle_without_pending_changes_nothing() {
    let mut scheduler = Scheduler::new();
    let mut images = pages(4);
    images[0].full = Tier::Ready(7);
    let order = scheduler.settle(&mut images);
    assert!(order.is_empty());
    assert!(scheduler.settled().is_none());
    assert!(matches!(images[0].full, Tier::Ready(7)));
}

#[test]
fn newer_schedule_makes_older_debounce_stale() {
    let mut scheduler = Scheduler::new();
    let first = scheduler.schedule(0..2);
    let second = scheduler.schedule(5..7);
    assert_eq!(scheduler.generation(), 2);
    assert!(!scheduler.accept_elapsed(first));
    assert!(scheduler.accept_elapsed(second));
    let mut images = pages(10);
    scheduler.settle(&mut images);
    assert_eq!(scheduler.settled(), Some(&(5..7)));
}

#[test]
fn decode_thumbs_marks_only_undecoded_thumbs() {
    let mut scheduler = Scheduler::new();
    let mut images = pages(5);
    images[1].full = Tier::Ready(9);
    images[2].thumb = Tier::Ready(3);
    images[3].thumb = Tier::Failed;
    images[4].thumb = Tier::Decoding;
    let wanted = scheduler.decode_thumbs(&mut images);
    assert_eq!(wanted, vec![0, 1]);
    assert!(matches!(images[0].thumb, Tier::Decoding));
    assert!(matches!(images[1].thumb, Tier::Decoding));
    assert!(matches!(images[2].thumb, Tier::Ready(3)));
    assert!(matches!(images[3].thumb, Tier::Failed));
    assert!(matches!(images[4].thumb, Tier::Decoding));
    assert!(matches!(images[1].full, Tier::Ready(9)));
    // A second call finds nothing left to decode.
    assert!(scheduler.decode_thumbs(&mut images).is_empty());
}

#[test]
fn image_prefers_the_full_tier() {
    let mut page: PageDecode<u32> = PageDecode::default();
    assert_eq!(page.image(), None);
    page.thumb = Tier::Ready(1);
    assert_eq!(page.image(), Some(&1));
    page.full = Tier::Ready(2);
    assert_eq!(page.image(), Some(&2));
    page.full = Tier::Decoding;
    assert_eq!(page.image(), Some(&1));
}

#[test]
fn thumb_failed_reports_a_broken_page() {
    let mut page: PageDecode<u32> = PageDecode::default();
    assert!(!page.thumb_failed());
    page.thumb = Tier::Failed;
    assert!(page.thumb_failed());
}

#[test]
fn full_window_is_empty_past_the_end() {
    assert_eq!(Scheduler::full_window(3, &(10..12)), 8..3);
    assert_eq!(Scheduler::full_window(usize::MAX, &(0..usize::MAX)), 0..usize::MAX);
}
