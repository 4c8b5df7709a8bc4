use hosteld::picture::{
    avatar_picture, avatar_texture_size, crop, crop_transparent, find_bounds, load_png_cropped,
    open_picture, try_load_png_cropped, Area, Picture,
};

fn picture(width: u32, height: u32, visible: &[(u32, u32)]) -> Picture {
    let mut rgba = vec![0u8; (4 * width * height) as usize];
    for (x, y) in visible {
        let at = (4 * (y * width + x)) as usize;
        rgba[at] = 10 + *x as u8;
        rgba[at + 1] = 20 + *y as u8;
        rgba[at + 3] = 255;
    }
    Picture { rgba, width, height }
}

fn png(p: &Picture) -> Vec<u8> {
    let mut file = std::io::Cursor::new(Vec::new());
    image::RgbaImage::from_raw(p.width, p.height, p.rgba.clone())
        .unwrap()
        .write_to(&mut file, image::ImageFormat::Png)
        .unwrap();
    file.into_inner()
}

#[test]
fn the_border_is_found() {
    let a = find_bounds(&picture(5, 4, &[(1, 2), (3, 1)])).unwrap();
    assert_eq!((a.left, a.top, a.right, a.bottom), (1, 1, 3, 2));
    assert!(find_bounds(&picture(3, 3, &[])).is_none());
}

#[test]
fn the_border_is_cut_off() {
    let p = crop_transparent(picture(5, 4, &[(1, 2), (3, 1)]));
    assert_eq!((p.width, p.height), (3, 2));
    assert_eq!(p.rgba.len(), 24);
    assert_eq!(&p.rgba[8..12], &[13, 21, 0, 255]);
    assert_eq!(&p.rgba[12..16], &[11, 22, 0, 255]);
}

#[test]
fn an_invisible_picture_stays_whole() {
    let p = crop_transparent(picture(3, 2, &[]));
    assert_eq!((p.width, p.height), (3, 2));
    let nothing = crop_transparent(picture(0, 0, &[]));
    assert_eq!((nothing.width, nothing.height, nothing.rgba.len()), (0, 0, 0));
}

#[test]
fn a_picture_is_opened_whole() {
    let p = picture(6, 4, &[(2, 3), (5, 0)]);
    let opened = open_picture(&png(&p)).unwrap();
    assert_eq!((opened.width, opened.height), (6, 4));
    assert_eq!(opened.rgba, p.rgba);
    assert!(open_picture(b"no picture").is_none());
}

#[test]
fn an_avatar_is_opened_with_its_side() {
    let p = picture(6, 4, &[(2, 3)]);
    let (opened, side) = avatar_picture(&png(&p), 1).unwrap();
    assert_eq!(opened.rgba, p.rgba);
    assert_eq!(side, 2);
    assert_eq!(avatar_picture(&png(&p), 48).unwrap().1, 4);
    assert!(avatar_picture(&[], 48).is_none());
}

#[test]
fn a_square_is_cut_out() {
    let square = crop(
        &picture(6, 4, &[(2, 3), (3, 2)]),
        &Area { left: 2, top: 2, right: 3, bottom: 3 },
    );
    assert_eq!((square.width, square.height), (2, 2));
    assert_eq!(
        square.rgba,
        vec![0, 0, 0, 0, 13, 22, 0, 255, 12, 23, 0, 255, 0, 0, 0, 0]
    );
}

#[test]
fn a_file_is_decoded_and_cut() {
    let file = png(&picture(6, 6, &[(2, 3)]));
    let (rgba, width, height) = try_load_png_cropped(&file).unwrap();
    assert_eq!((width, height), (1, 1));
    assert_eq!(rgba, vec![12, 23, 0, 255]);
    assert_eq!(load_png_cropped(&file).0.len(), 4);
}

#[test]
fn other_files_hold_no_picture() {
    assert!(try_load_png_cropped(b"no picture").is_none());
    assert!(try_load_png_cropped(&[]).is_none());
}

#[test]
fn avatars_are_scaled_to_twice_their_size() {
    assert_eq!(avatar_texture_size(96, 1000, 1000), 192);
    assert_eq!(avatar_texture_size(96, 100, 1000), 100);
    assert_eq!(avatar_texture_size(96, 1000, 50), 50);
    assert_eq!(avatar_texture_size(96, 0, 50), 1);
    assert_eq!(avatar_texture_size(0, 10, 10), 1);
}
