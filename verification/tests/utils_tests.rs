use asciify::utils::{
    build_output_file_name, chars_of, get_file_extension, is_supported_format, supports_truecolor,
    AsciiArgs, AsciiError, LINE_BREAK,
};

#[test]
fn supported_format_test() {
    let dummy: String = String::from("dummy_file.png");
    assert!(is_supported_format(&dummy));
}

#[test]
fn supported_format_test_2() {
    let dummy: String = String::from("dummy_file.wav");
    assert_ne!(true, is_supported_format(&dummy));
}

#[test]
fn get_file_extension_test() {
    let dummy: String = String::from("dummy_file22.gif");
    let expected: &str = "gif";
    let actual: &str = get_file_extension(&dummy).unwrap();
    assert_eq!(actual, expected);
}

#[test]
fn get_file_extension_test_2() {
    let dummy: String = String::from("dummy_file22.pong.gif");
    let expected: &str = "gif";
    let actual: &str = get_file_extension(&dummy).unwrap();
    assert_eq!(actual, expected);
}

#[test]
fn build_file_name_test() {
    let dummy: String = String::from("ferris.png");
    let expected: String = String::from("asciify-ferris.png");
    let actual: String = build_output_file_name(&dummy).unwrap();
    assert_eq!(expected, actual);
}

#[test]
fn build_file_name_test_2() {
    let dummy: String = String::from("../../assets/mario.png");
    let expected: String = String::from("asciify-mario.png");
    let actual: String = build_output_file_name(&dummy).unwrap();
    assert_eq!(expected, actual);
}

#[test]
fn extension_is_what_follows_the_last_dot() {
    assert_eq!(get_file_extension(&String::from("noext")), None);
    assert_eq!(get_file_extension(&String::new()), None);
    assert_eq!(get_file_extension(&String::from("trailing.")), Some(""));
    assert_eq!(get_file_extension(&String::from(".hidden")), Some("hidden"));
    assert_eq!(get_file_extension(&String::from("dir.d/file")), Some("d/file"));
    assert_eq!(get_file_extension(&String::from("给.图片.png")), Some("png"));
    assert_eq!(get_file_extension(&String::from("a.émoji")), Some("émoji"));
}

#[test]
fn supported_formats_are_jpg_png_and_gif() {
    for name in ["a.jpg", "a.png", "a.gif", "x/y.z.gif", ".png"] {
        assert!(is_supported_format(&String::from(name)));
    }
    for name in ["a.jpeg", "a.PNG", "a.gi", "a.gifs", "gif", "a.png.", "", "a.bmp", "png/a"] {
        assert!(!is_supported_format(&String::from(name)));
    }
}

#[test]
fn output_name_prefixes_the_file_name() {
    assert_eq!(
        build_output_file_name(&String::from("a/b.c/photo.v2.png")),
        Ok(String::from("asciify-photo.v2.png"))
    );
    assert_eq!(build_output_file_name(&String::from(".png")), Ok(String::from("asciify-.png")));
    assert_eq!(build_output_file_name(&String::from("/x.gif")), Ok(String::from("asciify-x.gif")));
}

#[test]
fn output_name_needs_a_dot_in_the_file_name() {
    for path in ["ferris", "", "dir.d/ferris", "a.png/"] {
        assert_eq!(build_output_file_name(&String::from(path)), Err("Not a parsable file!"));
    }
}

#[test]
fn truecolor_is_announced_by_the_exact_value() {
    assert!(supports_truecolor(Some(String::from("truecolor"))));
    assert!(!supports_truecolor(Some(String::from("24bit"))));
    assert!(!supports_truecolor(Some(String::from("Truecolor"))));
    assert!(!supports_truecolor(Some(String::new())));
    assert!(!supports_truecolor(None));
}

#[test]
fn error_reasons() {
    assert_eq!(AsciiError::UnsupportedFormat.message(), "File format not supported for file");
    assert_eq!(AsciiError::DecodeFailure.message(), "Decoder could not decode file");
    assert_eq!(AsciiError::EncodeFailure.message(), "Could not save to file");
    assert_eq!(AsciiError::InvalidPath.message(), "Could not parse file extension");
}

#[test]
fn characters_of_a_text() {
    assert_eq!(chars_of("a b\n"), vec!['a', ' ', 'b', '\n']);
    assert!(chars_of("").is_empty());
    assert_eq!(LINE_BREAK, '\n');
}

#[test]
fn default_arguments() {
    let args: AsciiArgs = AsciiArgs::default();
    assert!(args.files.is_empty());
    assert!(!args.save && !args.color && !args.detailed);
    assert_eq!(args.mapping, None);
    assert_eq!(args.pixel_scale, None);
}
