use wstm::ring::{SampleRing, ANALYSIS_FRAME, MIN_ANALYSIS_SAMPLES, RING_CAPACITY};

#[test]
fn small_buffers_are_not_analysed() {
    let mut ring: SampleRing<f32> = SampleRing::new();
    let block: Vec<f32> = (0..255).map(|i| i as f32).collect();
    ring.push_block(&block);
    assert_eq!(ring.len(), 255);
    assert!(ring.take_frame(ANALYSIS_FRAME).is_none());
    assert_eq!(ring.len(), 255);
}

#[test]
fn frames_come_from_the_front_in_order() {
    let mut ring: SampleRing<u32> = SampleRing::new();
    let block: Vec<u32> = (0..300).collect();
    ring.push_block(&block);
    let frame = ring.take_frame(ANALYSIS_FRAME).unwrap();
    assert_eq!(frame, block);
    assert_eq!(ring.len(), 0);

    let block: Vec<u32> = (0..1000).collect();
    ring.push_block(&block);
    let frame = ring.take_frame(ANALYSIS_FRAME).unwrap();
    assert_eq!(frame, (0..512).collect::<Vec<u32>>());
    assert_eq!(ring.len(), 488);
    assert!(ring.take_frame(ANALYSIS_FRAME).is_some());
    assert_eq!(ring.len(), 0);
}

#[test]
fn the_buffer_keeps_the_newest_samples() {
    let mut ring: SampleRing<u32> = SampleRing::new();
    let first: Vec<u32> = (0..3000).collect();
    let second: Vec<u32> = (3000..5000).collect();
    ring.push_block(&first);
    ring.push_block(&second);
    assert_eq!(ring.len(), RING_CAPACITY);
    let frame = ring.take_frame(100).unwrap();
    assert_eq!(frame, (904..1004).collect::<Vec<u32>>());
}

#[test]
fn a_block_larger_than_the_buffer_keeps_its_tail() {
    let mut ring: SampleRing<u32> = SampleRing::new();
    let block: Vec<u32> = (0..10_000).collect();
    ring.push_block(&block);
    assert_eq!(ring.len(), RING_CAPACITY);
    let mut all = Vec::new();
    while let Some(frame) = ring.take_frame(ANALYSIS_FRAME) {
        all.extend(frame);
    }
    assert_eq!(all, (5904..10_000).collect::<Vec<u32>>());
    assert_eq!(ring.len(), 0);
}

#[test]
fn the_threshold_is_inclusive() {
    let mut ring: SampleRing<u8> = SampleRing::new();
    ring.push_block(&vec![1u8; MIN_ANALYSIS_SAMPLES]);
    assert_eq!(ring.take_frame(ANALYSIS_FRAME).unwrap().len(), MIN_ANALYSIS_SAMPLES);
}
