// With the default budget of 1: the first start raises the begin signal and
// returns 1, a stop at counter 1 raises the end signal, the second start is
// suppressed, and a stop at counter 2 is a no-op.
//
// The test installs flag-setting handlers for the two signals, standing in
// for the external observer; they double as the installation the latch asks
// for, and let the test see which signals were actually delivered.

use std::sync::atomic::{AtomicBool, Ordering};
use std::sync::Arc;

use energy_signal::SignalMarker;

#[test]
fn default_budget_raises_once_then_suppresses() {
    let begin = Arc::new(AtomicBool::new(false));
    let end = Arc::new(AtomicBool::new(false));
    signal_hook::flag::register(signal_hook::consts::SIGUSR1, Arc::clone(&begin)).unwrap();
    signal_hook::flag::register(signal_hook::consts::SIGUSR2, Arc::clone(&end)).unwrap();

    let mut m = SignalMarker::new(1);
    assert!(m.claim_install());

    assert_eq!(m.start_signal(), 1);
    assert!(begin.load(Ordering::SeqCst));
    begin.store(false, Ordering::SeqCst);

    m.stop_signal();
    assert!(end.load(Ordering::SeqCst));
    end.store(false, Ordering::SeqCst);

    assert_eq!(m.start_signal(), 0);
    assert!(!begin.load(Ordering::SeqCst));

    m.stop_signal();
    assert!(!end.load(Ordering::SeqCst));
    assert_eq!(m.count(), 2);
}
