use degen_music_library::visualizer::{SampleWindow, SAMPLE_CAPACITY};

#[test]
fn window_keeps_the_newest_samples() {
    let mut window: SampleWindow<u32> = SampleWindow::new();
    window.configure(44_100);
    assert_eq!(window.sample_rate, 44_100);
    assert_eq!(window.generation, 1);
    let mut pending: Vec<u32> = (0..3000).collect();
    window.push(&mut pending);
    assert!(pending.is_empty());
    let mut more: Vec<u32> = (3000..5000).collect();
    window.push(&mut more);
    assert_eq!(window.values.len(), SAMPLE_CAPACITY);
    assert_eq!(window.values.front(), Some(&904));
    assert_eq!(window.values.back(), Some(&4999));
    assert_eq!(window.generation, 3);
    window.clear();
    assert!(window.values.is_empty());
    assert_eq!(window.sample_rate, 44_100);
}
