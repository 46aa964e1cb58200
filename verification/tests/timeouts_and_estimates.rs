use std::mem::size_of;
use std::time::{Duration, Instant};

use vietnamese_input::composer::{estimate_from_capacities, BufferCapacities};
use vietnamese_input::{CompositionBuffer, CompositionState, InputMethod, VietnameseComposer};

#[test]
fn timed_out_after_compares_elapsed_with_timeout() {
    let mut b = CompositionBuffer::new("s".to_string());
    assert!(!b.is_timed_out_after(10, 5));
    b.push_key('a');
    assert!(!b.is_timed_out_after(10, 5));
    b.last_keystroke = Some(Instant::now());
    assert!(b.is_timed_out_after(10, 5));
    assert!(b.is_timed_out_after(5, 5));
    assert!(!b.is_timed_out_after(4, 5));
}

#[test]
fn flush_after_flushes_exactly_when_idle_long_enough() {
    let mut c = VietnameseComposer::with_method(InputMethod::Telex);
    for ch in "dd".chars() {
        c.process_key("s", ch);
    }
    let limit = Duration::from_millis(500).as_nanos();
    assert_eq!(c.flush_if_timed_out_after("s", limit - 1, limit), None);
    assert_eq!(c.get_buffer_content("s"), Some("đ"));
    assert_eq!(c.flush_if_timed_out_after("other", limit, limit), None);
    assert_eq!(c.flush_if_timed_out_after("s", limit, limit), Some("dd".to_string()));
    assert!(!c.has_session("s"));
}

#[test]
fn sweep_with_idle_times_flushes_the_stale_sessions_only() {
    let mut c = VietnameseComposer::with_method(InputMethod::Telex);
    for (sid, seq) in [("a", "vi"), ("b", "ng"), ("c", "uw")] {
        for ch in seq.chars() {
            c.process_key(sid, ch);
        }
    }
    let idle = vec![("a".to_string(), 900u128), ("b".to_string(), 100u128), ("b".to_string(), 700u128)];
    let mut flushed = c.flush_timed_out_sessions_with(&idle, 600);
    flushed.sort();
    assert_eq!(flushed, vec![("a".to_string(), "vi".to_string()), ("b".to_string(), "ng".to_string())]);
    assert_eq!(c.get_buffer_content("c"), Some("ư"));
    assert_eq!(c.session_count(), 1);
}

#[test]
fn estimate_sums_capacities_with_saturation() {
    let caps = vec![BufferCapacities { key: 3, id: 3, current: 5, raw: 2, history: vec![(4, 1)] }];
    let expected = size_of::<VietnameseComposer>()
        + 3
        + (size_of::<CompositionBuffer>() + 3 + 5 + 2 * 4 + size_of::<CompositionState>() + 4 + 4);
    assert_eq!(estimate_from_capacities(&caps), expected);
    assert_eq!(estimate_from_capacities(&Vec::new()), size_of::<VietnameseComposer>());
    let huge = vec![BufferCapacities { key: usize::MAX, id: 0, current: 0, raw: 0, history: Vec::new() }];
    assert_eq!(estimate_from_capacities(&huge), usize::MAX);
}

#[test]
fn estimate_counts_raw_input_of_live_sessions() {
    let mut c = VietnameseComposer::with_method(InputMethod::Telex);
    let base = c.estimated_memory_bytes();
    c.process_key("s", 'a');
    assert!(c.estimated_memory_bytes() >= base + size_of::<CompositionBuffer>() + size_of::<char>());
}
