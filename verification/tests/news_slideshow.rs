use umbral::news::Slideshow;

#[test]
fn no_images_no_slideshow() {
    assert!(Slideshow::new(0).is_none());
}

#[test]
fn slideshow_cycles() {
    let mut s = Slideshow::new(3).unwrap();
    assert_eq!(s.current(), 0);
    s.advance();
    assert_eq!(s.current(), 1);
    s.advance();
    assert_eq!(s.current(), 2);
    s.advance();
    assert_eq!(s.current(), 0);
}

#[test]
fn single_image_stays() {
    let mut s = Slideshow::new(1).unwrap();
    s.advance();
    assert_eq!(s.current(), 0);
}
