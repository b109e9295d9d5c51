use anbennar_wiki::imagemagick::ImageMagick;

#[test]
fn test_convert() {
    let magick = ImageMagick::new("convert");
    assert_eq!(magick.path, "convert");
}

#[test]
fn conversion_writes_png_beside_source() {
    let magick = ImageMagick::new("convert");
    let c = magick.convert_to_png("./anbennar/gfx/flags/A03.tga").unwrap();
    assert_eq!(c.program, "convert");
    assert_eq!(c.source, "./anbennar/gfx/flags/A03.tga");
    assert_eq!(c.target, "./anbennar/gfx/flags/A03.png");
}

#[test]
fn no_conversion_without_file_name() {
    let magick = ImageMagick::new("convert");
    assert!(magick.convert_to_png("/").is_none());
    assert!(magick.convert_to_png("").is_none());
}

#[test]
fn outcome_depends_on_converter_output() {
    let magick = ImageMagick::new("convert");
    let c = magick.convert_to_png("flags/B01.tga").unwrap();
    assert_eq!(c.finish(""), Some("flags/B01.png".to_string()));
    let c = magick.convert_to_png("flags/B01.tga").unwrap();
    assert_eq!(c.finish("bad input"), None);
}

#[test]
fn test_convert_to_png() {
    let magick = ImageMagick::new("convert");
    let source = "./anbennar/gfx/flags/A03.tga";
    assert!(!magick.convert_to_png(source).is_none());
}
