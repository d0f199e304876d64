// With a budget of 3: three consecutive starts each raise the begin signal
// and return 1, the fourth is suppressed, and a stop at counter 4 is a no-op.
// While the counter stays within budget, every stop raises the end signal.

use std::sync::atomic::{AtomicBool, Ordering};
use std::sync::Arc;

use energy_signal::SignalMarker;

#[test]
fn budget_three_raises_three_begin_markers() {
    let begin = Arc::new(AtomicBool::new(false));
    let end = Arc::new(AtomicBool::new(false));
    signal_hook::flag::register(signal_hook::consts::SIGUSR1, Arc::clone(&begin)).unwrap();
    signal_hook::flag::register(signal_hook::consts::SIGUSR2, Arc::clone(&end)).unwrap();

    let mut m = SignalMarker::new(3);
    assert!(m.claim_install());

    for _ in 0..3 {
        assert_eq!(m.start_signal(), 1);
        assert!(begin.load(Ordering::SeqCst));
        begin.store(false, Ordering::SeqCst);
    }
    assert_eq!(m.start_signal(), 0);
    assert!(!begin.load(Ordering::SeqCst));

    m.stop_signal();
    assert!(!end.load(Ordering::SeqCst));
    assert_eq!(m.count(), 4);

    let mut w = SignalMarker::new(3);
    assert!(w.claim_install());
    assert_eq!(w.start_signal(), 1);
    begin.store(false, Ordering::SeqCst);
    w.stop_signal();
    assert!(end.load(Ordering::SeqCst));
    end.store(false, Ordering::SeqCst);
    w.stop_signal();
    assert!(end.load(Ordering::SeqCst));
}
