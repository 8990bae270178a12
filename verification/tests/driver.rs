use fsk_modem::driver::{capture, Driver, CHANNELS};
use fsk_modem::window::{add_to_buf, newest};

fn tables() -> Vec<Vec<f32>> {
    vec![vec![0.0, 0.25, 0.5, 0.75, 1.0], vec![-0.0, -0.25, -0.5, -0.75, -1.0]]
}

#[test]
fn output_carries_the_same_sample_on_both_channels() {
    let mut driver = Driver::new();
    let mut output = [9.0f32; 6];
    driver.synthesize(&tables(), &mut output);
    assert_eq!(CHANNELS, 2);
    assert_eq!(output, [0.0, 0.0, 0.25, 0.25, 0.5, 0.5]);
}

#[test]
fn phase_carries_over_and_wraps_at_the_table_end() {
    let mut driver = Driver::new();
    let mut output = [9.0f32; 6];
    driver.synthesize(&tables(), &mut output);
    driver.synthesize(&tables(), &mut output);
    assert_eq!(output, [0.75, 0.75, 1.0, 1.0, 0.0, 0.0]);
    driver.synthesize(&tables(), &mut output);
    assert_eq!(output, [0.25, 0.25, 0.5, 0.5, 0.75, 0.75]);
}

#[test]
fn a_buffer_longer_than_the_table_wraps_inside() {
    let mut driver = Driver::new();
    let mut output = [9.0f32; 14];
    driver.synthesize(&tables(), &mut output);
    assert_eq!(
        output,
        [0.0, 0.0, 0.25, 0.25, 0.5, 0.5, 0.75, 0.75, 1.0, 1.0, 0.0, 0.0, 0.25, 0.25]
    );
}

#[test]
fn posted_symbol_is_adopted_and_kept() {
    let mut driver = Driver::new();
    let input = [0.0f32; 4];
    let mut output = [9.0f32; 4];
    driver.step(&tables(), Some(1), &input, &mut output);
    assert_eq!(output, [-0.0, -0.0, -0.25, -0.25]);
    driver.step(&tables(), None, &input, &mut output);
    assert_eq!(output, [-0.5, -0.5, -0.75, -0.75]);
    driver.step(&tables(), Some(0), &input, &mut output);
    assert_eq!(output, [1.0, 1.0, 0.0, 0.0]);
}

#[test]
fn switching_symbols_keeps_the_phase() {
    let mut driver = Driver::new();
    let mut output = [9.0f32; 4];
    driver.synthesize(&tables(), &mut output);
    driver.adopt(Some(1));
    driver.synthesize(&tables(), &mut output);
    assert_eq!(output, [-0.5, -0.5, -0.75, -0.75]);
}

#[test]
fn capture_copies_the_first_channel() {
    assert_eq!(capture(&[0.1f32, 0.9, 0.2, 0.8, 0.3, 0.7]), vec![0.1, 0.2, 0.3]);
    assert_eq!(capture::<f32>(&[]), Vec::<f32>::new());
}

#[test]
fn step_returns_the_captured_channel() {
    let mut driver = Driver::new();
    let input = [0.5f32, -0.5, 0.25, -0.25];
    let mut output = [0.0f32; 4];
    assert_eq!(driver.step(&tables(), None, &input, &mut output), vec![0.5, 0.25]);
}

#[test]
fn window_fills_block_by_block() {
    let mut window = [0i16; 6];
    let mut pos: usize = 0;
    add_to_buf(&mut window, &mut pos, &[1, 2]);
    assert_eq!((window, pos), ([1, 2, 0, 0, 0, 0], 1));
    add_to_buf(&mut window, &mut pos, &[3, 4]);
    add_to_buf(&mut window, &mut pos, &[5, 6]);
    assert_eq!((window, pos), ([1, 2, 3, 4, 5, 6], 3));
}

#[test]
fn full_window_drops_its_oldest_block() {
    let mut window = [1i16, 2, 3, 4, 5, 6];
    let mut pos: usize = 3;
    add_to_buf(&mut window, &mut pos, &[7, 8]);
    assert_eq!((window, pos), ([3, 4, 5, 6, 7, 8], 3));
    add_to_buf(&mut window, &mut pos, &[9, 10]);
    assert_eq!((window, pos), ([5, 6, 7, 8, 9, 10], 3));
}

#[test]
fn window_of_floats_slides_too() {
    let mut window = [0.0f32; 4];
    let mut pos: usize = 0;
    add_to_buf(&mut window, &mut pos, &[0.5, 0.25]);
    add_to_buf(&mut window, &mut pos, &[-0.5, -0.25]);
    add_to_buf(&mut window, &mut pos, &[1.0, -1.0]);
    assert_eq!((window, pos), ([-0.5, -0.25, 1.0, -1.0], 2));
}

#[test]
fn newest_samples_come_from_the_filled_end() {
    let window = [1i16, 2, 3, 4, 0, 0];
    assert_eq!(newest(&window, 2, 2, 4), Some(vec![1, 2, 3, 4]));
    assert_eq!(newest(&window, 2, 2, 2), Some(vec![3, 4]));
    assert_eq!(newest(&window, 2, 2, 0), Some(vec![]));
    assert_eq!(newest(&window, 2, 2, 5), None);
    assert_eq!(newest(&window, 0, 2, 2), None);
}
