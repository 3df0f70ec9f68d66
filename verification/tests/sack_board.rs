use tcp_sender::sack::{SackBoard, MAX_RANGES};
use tcp_sender::seq_number::TcpSeqNumber;

fn num(n: i32) -> TcpSeqNumber {
    TcpSeqNumber(n)
}

fn board(ranges: &[(i32, i32)]) -> SackBoard {
    let mut b = SackBoard::default();
    for &(s, e) in ranges {
        b.add(num(s), num(e));
    }
    b
}

#[test]
fn numbers_compare_by_the_shorter_way() {
    assert!(num(i32::MAX) < num(i32::MIN));
    assert!(num(i32::MIN) > num(i32::MAX));
    assert!(num(-1) < num(0));
    assert!(num(5) <= num(5));
    // Of two opposite numbers each is below the other.
    assert!(num(0) < num(i32::MIN));
    assert!(num(i32::MIN) < num(0));
    assert_eq!(num(i32::MAX).max(num(i32::MIN)), num(i32::MIN));
    assert_eq!(num(i32::MAX).min(num(i32::MIN)), num(i32::MAX));
    assert_eq!(num(0).max(num(i32::MIN)), num(i32::MIN));
    assert_eq!(num(0).min(num(i32::MIN)), num(0));
    assert_eq!(num(i32::MIN + 4).octets_since(num(i32::MAX - 4)), 9);
    assert_eq!(TcpSeqNumber::default(), num(0));
}

#[test]
fn ranges_run_across_the_wrap() {
    let mut b = board(&[(i32::MIN + 10, i32::MIN + 20), (i32::MAX - 9, i32::MAX)]);
    assert_eq!(
        b.slice(),
        &[(num(i32::MAX - 9), num(i32::MAX)), (num(i32::MIN + 10), num(i32::MIN + 20))]
    );
    assert_eq!(b.sacked_bytes(), 19);
    assert_eq!(b.highest(), Some(num(i32::MIN + 20)));
    assert_eq!(
        b.next_hole(num(i32::MAX - 20), num(i32::MIN + 20)),
        Some((num(i32::MAX - 20), num(i32::MAX - 9)))
    );
    assert_eq!(
        b.next_hole(num(i32::MAX - 5), num(i32::MIN + 20)),
        Some((num(i32::MAX), num(i32::MIN + 10)))
    );
    assert_eq!(b.sacked_in(num(i32::MAX - 2), num(i32::MIN + 12)), 4);
    b.add(num(i32::MAX), num(i32::MIN + 10));
    assert_eq!(b.slice(), &[(num(i32::MAX - 9), num(i32::MIN + 20))]);
    b.prune(num(i32::MIN + 5));
    assert_eq!(b.slice(), &[(num(i32::MIN + 5), num(i32::MIN + 20))]);
}

#[test]
fn empty_and_backward_ranges_are_ignored() {
    let mut b = board(&[(10, 20)]);
    b.add(num(30), num(30));
    b.add(num(50), num(40));
    assert_eq!(b.slice(), &[(num(10), num(20))]);
}

#[test]
fn clear_forgets_everything() {
    let mut b = board(&[(10, 20), (30, 40)]);
    assert!(!b.is_empty());
    b.clear();
    assert!(b.is_empty());
    assert_eq!(b.slice(), &[]);
    assert_eq!(b.sacked_bytes(), 0);
    assert_eq!(b.highest(), None);
    assert_eq!(b.next_hole(num(0), num(5)), Some((num(0), num(5))));
    assert_eq!(b.next_hole(num(5), num(5)), None);
}

#[test]
fn adding_again_changes_nothing() {
    let mut b = board(&[(10, 20), (30, 40), (15, 32)]);
    let once = b.slice().to_vec();
    b.add(num(15), num(32));
    b.add(num(11), num(12));
    assert_eq!(b.slice(), &once[..]);
}

#[test]
fn order_of_adding_does_not_matter() {
    let ranges = [(10, 20), (30, 40), (18, 25), (25, 28), (60, 61), (40, 45)];
    let expected = vec![(num(10), num(28)), (num(30), num(45)), (num(60), num(61))];
    for first in 0..ranges.len() {
        let mut turned = ranges;
        turned.rotate_left(first);
        assert_eq!(board(&turned).slice(), &expected[..]);
        turned.reverse();
        assert_eq!(board(&turned).slice(), &expected[..]);
    }
}

#[test]
fn pruning_in_steps_is_pruning_at_once() {
    for middle in 0..50 {
        for last in middle..50 {
            let mut b = board(&[(10, 20), (30, 40)]);
            let mut c = b;
            b.prune(num(middle));
            b.prune(num(last));
            c.prune(num(last));
            assert_eq!(b.slice(), c.slice());
        }
    }
}

#[test]
fn a_full_board_still_merges() {
    let mut b = SackBoard::default();
    for i in 0..MAX_RANGES as i32 {
        b.add(num(i * 10), num(i * 10 + 5));
    }
    // Extending a range keeps the count, dropping leaves all as it is.
    b.add(num(5), num(7));
    assert_eq!(b.slice().len(), MAX_RANGES);
    assert_eq!(b.slice()[0], (num(0), num(7)));
    b.add(num(-20), num(-10));
    assert_eq!(b.slice()[0], (num(0), num(7)));
    // One range over all of them takes them all in.
    b.add(num(-5), num(500));
    assert_eq!(b.slice(), &[(num(-5), num(500))]);
}

#[test]
fn octets_are_counted_number_by_number() {
    let b = board(&[(10, 20), (30, 40), (35, 50)]);
    let held = |x: i32| (10..20).contains(&x) || (30..50).contains(&x);
    assert_eq!(b.sacked_bytes(), (0..100).filter(|&x| held(x)).count());
    for from in 0..60 {
        for to in from..60 {
            let expected = (from..to).filter(|&x| held(x)).count();
            assert_eq!(b.sacked_in(num(from), num(to)), expected);
            // The first hole is the first run of numbers that are not held.
            let start = (from..to).find(|&x| !held(x));
            let hole = start.map(|a| (num(a), num((a..to).find(|&x| held(x)).unwrap_or(to))));
            assert_eq!(b.next_hole(num(from), num(to)), hole);
        }
    }
}
