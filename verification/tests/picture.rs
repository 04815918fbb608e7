use rt_plot::picture::Picture;
use rt_plot::text::Orientation;

#[test]
fn blank_picture_is_the_letters_and_the_padding_without_coverage() {
    let picture = Picture::blank(2, 1).unwrap();
    let texture = picture.finish(Orientation::Horizontal);
    assert_eq!(texture.width, 42);
    assert_eq!(texture.height, 41);
    assert_eq!(texture.bytes.len(), 42 * 41);
    assert!(texture.bytes.iter().all(|b| *b == 0));
}

#[test]
fn picture_that_a_vector_cannot_hold_is_not_made() {
    assert!(Picture::blank(u32::MAX, u32::MAX).is_none());
    assert!(Picture::blank(0, 0).is_some());
}

#[test]
fn pixel_of_an_upright_label_keeps_its_line() {
    let mut picture = Picture::blank(10, 5).unwrap();
    picture.draw(3, 4, 20, 25, 5, Orientation::Vertical, 200);
    let texture = picture.finish(Orientation::Vertical);
    assert_eq!(texture.width, 45);
    assert_eq!(texture.height, 50);
    assert_eq!(texture.bytes.len(), 45 * 50);
    for (k, b) in texture.bytes.iter().enumerate() {
        assert_eq!(*b, if k == 29 + 23 * 45 { 200 } else { 0 });
    }
}

#[test]
fn pixel_of_a_level_label_is_put_in_upside_down() {
    let mut picture = Picture::blank(10, 5).unwrap();
    picture.draw(3, 4, 20, 25, 5, Orientation::Horizontal, 77);
    let texture = picture.finish(Orientation::Horizontal);
    assert_eq!(texture.width, 50);
    assert_eq!(texture.height, 45);
    for (k, b) in texture.bytes.iter().enumerate() {
        assert_eq!(*b, if k == 23 + 16 * 50 { 77 } else { 0 });
    }
}

#[test]
fn upright_texture_is_the_level_one_with_lines_and_columns_changed_over() {
    let mut picture = Picture::blank(3, 2).unwrap();
    let mut value = 1u8;
    for y in 0..4 {
        for x in 0..5 {
            picture.draw(x, y, 0, 0, 2, Orientation::Vertical, value);
            value += 1;
        }
    }
    let level = picture.finish(Orientation::Horizontal);
    let upright = picture.finish(Orientation::Vertical);
    assert_eq!((level.width, level.height), (43, 42));
    assert_eq!((upright.width, upright.height), (42, 43));
    for y in 0..42usize {
        for x in 0..43usize {
            assert_eq!(level.bytes[x + y * 43], upright.bytes[y + x * 42]);
        }
    }
    assert_eq!(level.bytes[0], 1);
    assert_eq!(level.bytes[4], 5);
    assert_eq!(level.bytes[43], 6);
    assert_eq!(upright.bytes[1], 6);
    assert_eq!(upright.bytes[42], 2);
}

#[test]
fn later_coverage_takes_the_place_of_earlier() {
    let mut picture = Picture::blank(1, 1).unwrap();
    picture.draw(0, 0, 1, 1, 1, Orientation::Vertical, 9);
    picture.draw(0, 0, 1, 1, 1, Orientation::Vertical, 10);
    let texture = picture.finish(Orientation::Horizontal);
    assert_eq!(texture.bytes[1 + 41], 10);
    assert_eq!(texture.bytes.iter().filter(|b| **b != 0).count(), 1);
}

#[test]
fn pixel_outside_the_picture_is_left_out() {
    let mut picture = Picture::blank(1, 1).unwrap();
    picture.draw(0, 0, -1, 0, 1, Orientation::Vertical, 9);
    picture.draw(0, 0, 0, -1, 1, Orientation::Vertical, 9);
    picture.draw(41, 0, 0, 0, 1, Orientation::Vertical, 9);
    picture.draw(0, 41, 0, 0, 1, Orientation::Vertical, 9);
    picture.draw(0, 0, 0, 0, 1, Orientation::Horizontal, 9);
    picture.draw(0, 42, 0, 0, 1, Orientation::Horizontal, 9);
    let texture = picture.finish(Orientation::Horizontal);
    assert!(texture.bytes.iter().all(|b| *b == 0));
    picture.draw(40, 40, 0, 0, 1, Orientation::Vertical, 9);
    picture.draw(0, 41, 0, 0, 1, Orientation::Horizontal, 8);
    let texture = picture.finish(Orientation::Horizontal);
    assert_eq!(texture.bytes[40 + 40 * 41], 9);
    assert_eq!(texture.bytes[0], 8);
}
