use obs_glitch::frame::{copy_lines_in, copy_lines_out, swap_red_blue};

#[test]
fn swap_exchanges_first_and_third_component() {
    let mut frame = vec![1, 2, 3, 4, 5, 6, 7, 8];
    swap_red_blue(&mut frame);
    assert_eq!(frame, vec![3, 2, 1, 4, 7, 6, 5, 8]);
}

#[test]
fn swapping_twice_gives_the_frame_back() {
    let mut frame: Vec<u8> = (0..40).collect();
    swap_red_blue(&mut frame);
    swap_red_blue(&mut frame);
    assert_eq!(frame, (0..40).collect::<Vec<u8>>());
}

#[test]
fn lines_are_packed_without_their_padding() {
    let data = vec![1, 2, 3, 4, 90, 91, 5, 6, 7, 8, 92, 93];
    let mut frame = vec![200; 3];
    copy_lines_in(&mut frame, &data, 6, 1, 2);
    assert_eq!(frame, vec![1, 2, 3, 4, 5, 6, 7, 8]);
}

#[test]
fn the_last_line_needs_no_padding() {
    let data = vec![1, 2, 3, 4, 90, 91, 5, 6, 7, 8];
    let mut frame = Vec::new();
    copy_lines_in(&mut frame, &data, 6, 1, 2);
    assert_eq!(frame, vec![1, 2, 3, 4, 5, 6, 7, 8]);
}

#[test]
fn a_longer_buffer_is_cut_to_the_frame() {
    let data = vec![1, 2, 3, 4];
    let mut frame = vec![7; 100];
    copy_lines_in(&mut frame, &data, 4, 1, 1);
    assert_eq!(frame, vec![1, 2, 3, 4]);
}

#[test]
fn lines_closer_than_a_row_are_read_as_they_overlap() {
    let data = vec![1, 2, 3, 4, 5, 6];
    let mut frame = Vec::new();
    copy_lines_in(&mut frame, &data, 2, 1, 2);
    assert_eq!(frame, vec![1, 2, 3, 4, 3, 4, 5, 6]);
}

#[test]
fn writing_leaves_the_padding_alone() {
    let mut data = vec![0, 0, 0, 0, 90, 91, 0, 0, 0, 0, 92, 93];
    copy_lines_out(&mut data, &vec![1, 2, 3, 4, 5, 6, 7, 8], 6, 1, 2);
    assert_eq!(data, vec![1, 2, 3, 4, 90, 91, 5, 6, 7, 8, 92, 93]);
}

#[test]
fn later_lines_win_where_lines_overlap() {
    let mut data = vec![0; 6];
    copy_lines_out(&mut data, &vec![1, 2, 3, 4, 5, 6, 7, 8], 2, 1, 2);
    assert_eq!(data, vec![1, 2, 5, 6, 7, 8]);
}

#[test]
fn a_written_frame_is_read_back() {
    let frame: Vec<u8> = (10..34).collect();
    let mut data = vec![0; 60];
    copy_lines_out(&mut data, &frame, 20, 2, 3);
    let mut back = Vec::new();
    copy_lines_in(&mut back, &data, 20, 2, 3);
    assert_eq!(back, frame);
}

#[test]
fn writing_a_surfaces_own_pixels_changes_nothing() {
    let data: Vec<u8> = (0..60).collect();
    let mut frame = Vec::new();
    copy_lines_in(&mut frame, &data, 20, 2, 3);
    let mut again = data.clone();
    copy_lines_out(&mut again, &frame, 20, 2, 3);
    assert_eq!(again, data);
}
