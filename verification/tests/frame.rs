use wstm::frame::{pipeline_slot, sample_window, surface_extent, FrameCycle, SAMPLE_COUNT};

#[test]
fn empty_samples_give_a_silent_window() {
    let window = sample_window::<f32>(&[], 0.0);
    assert_eq!(window.len(), SAMPLE_COUNT);
    assert!(window.iter().all(|x| *x == 0.0));
}

#[test]
fn few_samples_are_right_aligned() {
    let samples = [1.0f32, 2.0, 3.0];
    let window = sample_window(&samples, 0.0);
    assert_eq!(window.len(), SAMPLE_COUNT);
    assert_eq!(&window[SAMPLE_COUNT - 3..], &samples);
    assert!(window[..SAMPLE_COUNT - 3].iter().all(|x| *x == 0.0));
}

#[test]
fn many_samples_keep_the_latest() {
    let samples: Vec<u32> = (0..3000).collect();
    let window = sample_window(&samples, 7);
    assert_eq!(window, (1976..3000).collect::<Vec<u32>>());
}

#[test]
fn exactly_a_window_of_samples_is_kept_whole() {
    let samples: Vec<u32> = (0..SAMPLE_COUNT as u32).collect();
    assert_eq!(sample_window(&samples, 9), samples);
}

#[test]
fn surface_sides_are_at_least_one() {
    assert_eq!(surface_extent(0, 0), (1, 1));
    assert_eq!(surface_extent(1280, 0), (1280, 1));
    assert_eq!(surface_extent(0, 720), (1, 720));
    assert_eq!(surface_extent(1920, 1080), (1920, 1080));
}

#[test]
fn pipelines_wrap_around() {
    assert_eq!(pipeline_slot(0, 1), 0);
    assert_eq!(pipeline_slot(19, 1), 0);
    assert_eq!(pipeline_slot(7, 5), 2);
    assert_eq!(pipeline_slot(3, 20), 3);
}

#[test]
fn feedback_textures_alternate() {
    let mut cycle = FrameCycle::new();
    let first = cycle.advance();
    assert_eq!((first.read, first.write), (0, 1));
    assert_eq!(cycle.frame, 1);
    let second = cycle.advance();
    assert_eq!((second.read, second.write), (1, 0));
    assert_eq!(second.read, first.write);
    assert_eq!(cycle.frame, 2);
    assert_eq!(cycle.current_feedback, 0);
}
