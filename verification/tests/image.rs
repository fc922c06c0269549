use raytracer::image::Image;

#[test]
fn image_keeps_what_it_was_made_with() {
    let image = Image::new(1000, 562, 100, 25);
    assert_eq!(image.width(), 1000);
    assert_eq!(image.height(), 562);
    assert_eq!(image.samples_per_pixel(), 100);
    assert_eq!(image.max_depth(), 25);
}

#[test]
fn smallest_image_is_one_pixel() {
    let image = Image::new(1, 1, 1, 1);
    assert_eq!(image.width(), 1);
    assert_eq!(image.height(), 1);
    assert_eq!(image.samples_per_pixel(), 1);
    assert_eq!(image.max_depth(), 1);
}

#[test]
fn image_is_copied_whole() {
    let image = Image::new(16, 9, 4, 2);
    let copy = image;
    assert_eq!(copy.width(), image.width());
    assert_eq!(copy.height(), image.height());
    assert_eq!(copy.samples_per_pixel(), image.samples_per_pixel());
    assert_eq!(copy.max_depth(), image.max_depth());
}
