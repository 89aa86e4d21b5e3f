use rerust::combinators::CombinedMap;
use rerust::signal::{new_lock, Signal};

#[derive(Clone, PartialEq)]
struct Constant(i32);

impl Signal for Constant {
    type Item = i32;
    fn poll(&mut self, _uuid: u32) -> i32 {
        self.0
    }
    fn transaction_end(&mut self, _uuid: u32) {}
    fn value(&self) -> i32 {
        self.0
    }
}

#[test]
fn combined_map_keeps_its_parts() {
    let m = CombinedMap::new(Constant(2), Constant(3), |a: i32, b: i32| a * b);
    assert_eq!(m.signal_a.value(), 2);
    assert_eq!(m.signal_b.value(), 3);
    assert_eq!((m.callback)(m.signal_a.value(), m.signal_b.value()), 6);
}

#[test]
fn locks_get_successive_ids() {
    let mut last = 0u32;
    let a = new_lock(&mut last);
    let b = new_lock(&mut last);
    assert_eq!(a.id, 1);
    assert_eq!(b.id, 2);
    assert_eq!(last, 2);
    assert!(!a.locked.load(std::sync::atomic::Ordering::SeqCst));
}
