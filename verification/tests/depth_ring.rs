use qbz_qt::depth_ring::{push_newest, LINEBED_BANDS, LINEBED_LINES};

#[test]
fn each_new_line_goes_first_and_pushes_the_others_one_line_deeper() {
    let mut ring = vec![0.0f32; LINEBED_LINES * LINEBED_BANDS];
    let mut spike = vec![0.1f32; LINEBED_BANDS];
    spike[78] = 80.0;
    push_newest(&mut ring, &spike);
    assert_eq!(&ring[0..LINEBED_BANDS], spike.as_slice());
    assert!(ring[LINEBED_BANDS..].iter().all(|&h| h == 0.0));
    let floor = vec![0.1f32; LINEBED_BANDS];
    push_newest(&mut ring, &floor);
    assert_eq!(&ring[0..LINEBED_BANDS], floor.as_slice());
    assert_eq!(&ring[LINEBED_BANDS..2 * LINEBED_BANDS], spike.as_slice());
    assert_eq!(ring.len(), LINEBED_LINES * LINEBED_BANDS);
    for _ in 0..LINEBED_LINES {
        push_newest(&mut ring, &floor);
    }
    assert!(ring.iter().all(|&h| h == 0.1), "the spike fell off the deepest line");
}

#[test]
fn a_short_ring_shifts_by_the_line_width() {
    let mut ring = vec![1, 2, 3, 4, 5, 6];
    push_newest(&mut ring, &vec![9, 8]);
    assert_eq!(ring, vec![9, 8, 1, 2, 3, 4]);
    push_newest(&mut ring, &Vec::new());
    assert_eq!(ring, vec![9, 8, 1, 2, 3, 4]);
}
