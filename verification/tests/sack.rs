use tcp_sender::sack::{SackBoard, MAX_RANGES};
use tcp_sender::seq_number::TcpSeqNumber;

fn seq(n: i32) -> TcpSeqNumber {
    TcpSeqNumber(n)
}

#[test]
fn add_merges_and_orders() {
    let mut b = SackBoard::default();
    b.add(seq(30), seq(40));
    b.add(seq(10), seq(20));
    b.add(seq(20), seq(25)); // adjacent to [10,20)
    assert_eq!(b.slice(), &[(seq(10), seq(25)), (seq(30), seq(40))]);
    b.add(seq(24), seq(31)); // bridges both
    assert_eq!(b.slice(), &[(seq(10), seq(40))]);
    assert_eq!(b.sacked_bytes(), 30);
    assert_eq!(b.highest(), Some(seq(40)));
}

#[test]
fn prune_trims_below_snd_una() {
    let mut b = SackBoard::default();
    b.add(seq(10), seq(20));
    b.add(seq(30), seq(40));
    b.prune(seq(15));
    assert_eq!(b.slice(), &[(seq(15), seq(20)), (seq(30), seq(40))]);
    b.prune(seq(35));
    assert_eq!(b.slice(), &[(seq(35), seq(40))]);
    b.prune(seq(40));
    assert!(b.is_empty());
}

#[test]
fn next_hole_walks_gaps() {
    let mut b = SackBoard::default();
    b.add(seq(10), seq(20));
    b.add(seq(30), seq(40));
    // holes below highest SACK: [0,10) and [20,30)
    assert_eq!(b.next_hole(seq(0), seq(40)), Some((seq(0), seq(10))));
    assert_eq!(b.next_hole(seq(10), seq(40)), Some((seq(20), seq(30))));
    assert_eq!(b.next_hole(seq(25), seq(40)), Some((seq(25), seq(30))));
    assert_eq!(b.next_hole(seq(30), seq(40)), None);
    // after RTO everything un-SACKed up to the send frontier is lost
    assert_eq!(b.next_hole(seq(30), seq(50)), Some((seq(40), seq(50))));
}

#[test]
fn sacked_in_clips_to_window() {
    let mut b = SackBoard::default();
    b.add(seq(10), seq(20));
    b.add(seq(30), seq(40));
    assert_eq!(b.sacked_in(seq(0), seq(100)), 20);
    assert_eq!(b.sacked_in(seq(15), seq(35)), 10);
    assert_eq!(b.sacked_in(seq(20), seq(30)), 0);
    assert_eq!(b.sacked_in(seq(35), seq(15)), 0);
}

#[test]
fn full_board_drops_unmergeable_range() {
    let mut b = SackBoard::default();
    for i in 0..MAX_RANGES as i32 {
        b.add(seq(i * 10), seq(i * 10 + 5));
    }
    b.add(seq(1000), seq(1005));
    assert_eq!(b.slice().len(), MAX_RANGES);
    assert_eq!(b.highest(), Some(seq((MAX_RANGES as i32 - 1) * 10 + 5)));
    // A mergeable range is still accepted.
    b.add(seq(5), seq(10));
    assert_eq!(b.slice().len(), MAX_RANGES - 1);
}
