use btcdk::coins::Hash256;
use btcdk::download::{BlockRequest, RequestWindow, BLOCK_TIMEOUT};

fn h(n: u64) -> Hash256 {
    Hash256 { w0: n, w1: 0, w2: 0, w3: 0 }
}

fn req(height: usize, peer: u64, at: u64) -> BlockRequest {
    BlockRequest { height, hash: h(height as u64), peer, deadline: at + BLOCK_TIMEOUT }
}

#[test]
fn plan_fills_the_window_with_unrequested_heights() {
    let mut w = RequestWindow::new(4);
    assert!(w.add(req(3, 1, 0)));
    assert_eq!(w.plan(2, 10), vec![2, 4, 5]);
    assert_eq!(w.plan(8, 10), vec![8, 9]);
    assert!(w.add(req(2, 1, 0)));
    assert!(w.add(req(4, 2, 0)));
    assert!(w.add(req(5, 2, 0)));
    assert!(!w.add(req(6, 2, 0)));
    assert!(w.plan(0, 10).is_empty());
}

#[test]
fn timed_out_and_disconnected_requests_are_reassigned() {
    let mut w = RequestWindow::new(8);
    w.add(req(1, 1, 0));
    w.add(req(2, 2, 30));
    w.add(req(3, 3, 50));
    let late = w.reassign(80, None);
    assert_eq!(late.iter().map(|q| q.height).collect::<Vec<_>>(), vec![1]);
    let gone = w.reassign(80, Some(3));
    assert_eq!(gone.iter().map(|q| q.height).collect::<Vec<_>>(), vec![3]);
    assert_eq!(w.requests.len(), 1);
    assert_eq!(w.complete(&h(2)).map(|q| q.height), Some(2));
    assert_eq!(w.complete(&h(2)), None);
    assert!(w.requests.is_empty());
}
