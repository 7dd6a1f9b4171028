use asciify::convert_img::{
    asciify_intensity, can_normalize, can_process, convert_gif_to_ascii_tokens,
    convert_img_to_ascii_tokens, decode_request, normalize_img, pixel_intensity, process_file,
    select_ramp, ConvertedFile, DecodeRequest, DecodedSource, SourceFrame, ASCII_DETAILED,
    ASCII_SIMPLE, DEFAULT_SCALE,
};
use asciify::pixels::{can_resample, PixelMatrix};
use asciify::utils::{AsciiError, AsciiFrame, AsciiToken};

fn matrix(width: u32, height: u32, pixels: &[(u8, u8, u8, u8)]) -> PixelMatrix {
    let mut samples: Vec<u8> = Vec::new();
    for p in pixels {
        samples.push(p.0);
        samples.push(p.1);
        samples.push(p.2);
        samples.push(p.3);
    }
    PixelMatrix::new(width, height, samples).unwrap()
}

fn uniform(width: u32, height: u32, pixel: (u8, u8, u8, u8)) -> PixelMatrix {
    let count: usize = (width as usize) * (height as usize);
    matrix(width, height, &vec![pixel; count])
}

fn text_of(tokens: &[AsciiToken]) -> String {
    tokens.iter().map(|ascii_token| ascii_token.token).collect()
}

fn wide_ramp() -> Vec<char> {
    (0..256u32).map(|i| char::from_u32(0x100 + i).unwrap()).collect()
}

#[test]
fn asciify_img() {
    let expected: char = '.';
    let actual: char = asciify_intensity(38, &ASCII_SIMPLE.to_vec());
    assert_eq!(expected, actual);

    let expected_2: char = '@';
    let actual_2: char = asciify_intensity(255, &ASCII_SIMPLE.to_vec());
    assert_eq!(expected_2, actual_2);

    let expected_3: char = '%';
    let actual_3: char = asciify_intensity(245, &ASCII_DETAILED.to_vec());
    assert_eq!(expected_3, actual_3);
}

#[test]
fn ramp_ends_are_reached() {
    for table in [ASCII_SIMPLE.to_vec(), ASCII_DETAILED.to_vec(), vec!['-', '}'], vec!['x']] {
        assert_eq!(asciify_intensity(0, &table), table[0]);
        assert_eq!(asciify_intensity(255, &table), table[table.len() - 1]);
    }
}

#[test]
fn ramp_mapping_never_steps_back() {
    let table: Vec<char> = wide_ramp();
    for ramp_len in [1usize, 2, 10, 52, 70, 256] {
        let ramp: Vec<char> = table[..ramp_len].to_vec();
        let mut previous: usize = 0;
        for intensity in 0..=255u32 {
            let token: char = asciify_intensity(intensity, &ramp);
            let index: usize = ramp.iter().position(|c| *c == token).unwrap();
            assert_eq!(index, (intensity as usize) * (ramp_len - 1) / 255);
            assert!(previous <= index);
            previous = index;
        }
    }
}

#[test]
fn ramp_of_one_character_always_selects_it() {
    let ramp: Vec<char> = vec!['#'];
    for intensity in 0..=255u32 {
        assert_eq!(asciify_intensity(intensity, &ramp), '#');
    }
}

#[test]
fn intensity_truncates_each_channel() {
    assert_eq!(pixel_intensity((2, 2, 2, 255)), 0);
    assert_eq!(pixel_intensity((5, 5, 5, 255)), 3);
    assert_eq!(pixel_intensity((255, 255, 254, 255)), 254);
    assert_eq!(pixel_intensity((255, 255, 255, 255)), 255);
    assert_eq!(pixel_intensity((200, 100, 50, 1)), 115);
    assert_eq!(pixel_intensity((200, 100, 50, 0)), 0);
}

#[test]
fn ramp_selection_by_priority() {
    assert_eq!(select_ramp(&None, false), ASCII_SIMPLE.to_vec());
    assert_eq!(select_ramp(&None, true), ASCII_DETAILED.to_vec());
    assert_eq!(select_ramp(&None, true).len(), 70);
    assert_eq!(select_ramp(&Some(String::from("-}")), false), vec!['-', '}']);
    assert_eq!(select_ramp(&Some(String::from("a a ")), true), vec!['a', ' ', 'a', ' ']);
}

#[test]
fn tokenizer_samples_every_second_row() {
    let img: PixelMatrix = matrix(
        3,
        3,
        &[
            (0, 0, 0, 255),
            (255, 255, 255, 255),
            (128, 128, 128, 255),
            (255, 255, 255, 255),
            (255, 255, 255, 255),
            (255, 255, 255, 255),
            (255, 0, 0, 255),
            (30, 30, 30, 255),
            (60, 60, 60, 255),
        ],
    );
    let tokens: Vec<AsciiToken> = convert_img_to_ascii_tokens(img, &ASCII_SIMPLE.to_vec());
    assert_eq!(text_of(&tokens), " @=\n-.:\n");
    assert_eq!(tokens.len(), 2 * (3 + 1));
    assert_eq!(
        tokens[2],
        AsciiToken { token: '=', rgb: (128, 128, 128), parent_img_width: 3, parent_img_height: 3 }
    );
    assert_eq!(
        tokens[3],
        AsciiToken { token: '\n', rgb: (0, 0, 0), parent_img_width: 3, parent_img_height: 3 }
    );
    assert_eq!(tokens[4].rgb, (255, 0, 0));
}

#[test]
fn tokenizer_row_count_is_half_the_height_rounded_up() {
    for height in 0..9u32 {
        let tokens: Vec<AsciiToken> =
            convert_img_to_ascii_tokens(uniform(4, height, (9, 9, 9, 255)), &ASCII_SIMPLE.to_vec());
        let line_breaks: usize = tokens.iter().filter(|t| t.token == '\n').count();
        assert_eq!(line_breaks as u32, (height + 1) / 2);
        assert_eq!(tokens.len() as u32, ((height + 1) / 2) * 5);
    }
}

#[test]
fn tokenizer_uses_each_channel_third() {
    let img: PixelMatrix = matrix(3, 1, &[(2, 2, 2, 255), (5, 5, 5, 255), (255, 255, 254, 255)]);
    let ramp: Vec<char> = wide_ramp();
    let tokens: Vec<AsciiToken> = convert_img_to_ascii_tokens(img, &ramp);
    assert_eq!(tokens[0].token, ramp[0]);
    assert_eq!(tokens[1].token, ramp[3]);
    assert_eq!(tokens[2].token, ramp[254]);
}

#[test]
fn transparent_pixel_maps_to_first_character_and_keeps_colour() {
    let img: PixelMatrix = matrix(2, 1, &[(255, 255, 255, 0), (255, 255, 255, 1)]);
    let tokens: Vec<AsciiToken> = convert_img_to_ascii_tokens(img, &ASCII_SIMPLE.to_vec());
    assert_eq!(tokens[0].token, ' ');
    assert_eq!(tokens[0].rgb, (255, 255, 255));
    assert_eq!(tokens[1].token, '@');
}

#[test]
fn tokenizer_is_deterministic() {
    let pixels: Vec<(u8, u8, u8, u8)> =
        (0..35u32).map(|i| ((i * 7) as u8, (i * 5) as u8, (255 - i) as u8, (i % 3) as u8)).collect();
    let first: Vec<AsciiToken> =
        convert_img_to_ascii_tokens(matrix(7, 5, &pixels), &ASCII_DETAILED.to_vec());
    let second: Vec<AsciiToken> =
        convert_img_to_ascii_tokens(matrix(7, 5, &pixels), &ASCII_DETAILED.to_vec());
    assert_eq!(text_of(&first).into_bytes(), text_of(&second).into_bytes());
    assert_eq!(first, second);
}

#[test]
fn degenerate_matrices_yield_no_tokens() {
    let table: Vec<char> = ASCII_SIMPLE.to_vec();
    assert!(convert_img_to_ascii_tokens(uniform(0, 0, (0, 0, 0, 0)), &table).is_empty());
    assert!(convert_img_to_ascii_tokens(uniform(0, 5, (0, 0, 0, 0)), &table).is_empty());
    assert!(convert_img_to_ascii_tokens(uniform(5, 0, (0, 0, 0, 0)), &table).is_empty());
}

#[test]
fn custom_ramp_of_two_glyphs_yields_only_those() {
    let pixels: Vec<(u8, u8, u8, u8)> =
        (0..48u32).map(|i| ((i * 5) as u8, (i * 5) as u8, (i * 5) as u8, 255)).collect();
    let mapping: Vec<char> = vec!['-', '}'];
    let tokens: Vec<AsciiToken> = convert_img_to_ascii_tokens(matrix(8, 6, &pixels), &mapping);
    let actual: String = text_of(&tokens);
    assert!(actual.chars().all(|c| c == '-' || c == '}' || c == '\n'));
    assert_eq!(actual, "--------\n--------\n--------\n");
    let white: Vec<AsciiToken> =
        convert_img_to_ascii_tokens(uniform(2, 1, (255, 255, 255, 255)), &mapping);
    assert_eq!(text_of(&white), "}}\n");
}

#[test]
fn pixel_matrix_checks_its_size() {
    assert!(PixelMatrix::new(2, 2, vec![0; 16]).is_some());
    assert!(PixelMatrix::new(2, 2, vec![0; 15]).is_none());
    assert!(PixelMatrix::new(2, 2, vec![0; 17]).is_none());
    assert!(PixelMatrix::new(0, 7, Vec::new()).is_some());
    let img: PixelMatrix = matrix(2, 1, &[(1, 2, 3, 4), (5, 6, 7, 8)]);
    assert_eq!(img.width(), 2);
    assert_eq!(img.height(), 1);
    assert_eq!(img.get_pixel(1, 0), (5, 6, 7, 8));
    assert_eq!(img.samples(), &vec![1, 2, 3, 4, 5, 6, 7, 8]);
}

#[test]
fn normalizer_forces_the_bound_on_wide_images() {
    let img: PixelMatrix = uniform(40, 30, (100, 150, 200, 255));
    assert!(can_normalize(&img, 20));
    let out: PixelMatrix = normalize_img(img, 20);
    assert_eq!((out.width(), out.height()), (20, 20));
    assert_eq!(out.samples().len(), 4 * 20 * 20);
    for y in 0..20 {
        for x in 0..20 {
            assert_eq!(out.get_pixel(x, y), (100, 150, 200, 255));
        }
    }
    let square: PixelMatrix = normalize_img(uniform(20, 3, (1, 2, 3, 255)), 20);
    assert_eq!((square.width(), square.height()), (20, 20));
}

#[test]
fn normalizer_keeps_the_dimensions_of_narrow_images() {
    let out: PixelMatrix = normalize_img(uniform(10, 7, (10, 20, 30, 255)), 20);
    assert_eq!((out.width(), out.height()), (10, 7));
    let tall: PixelMatrix = normalize_img(uniform(19, 300, (10, 20, 30, 255)), 20);
    assert_eq!((tall.width(), tall.height()), (19, 300));
}

#[test]
fn normalizer_resamples_the_pixels() {
    let mut pixels: Vec<(u8, u8, u8, u8)> = Vec::new();
    for _ in 0..8 {
        for x in 0..40u32 {
            pixels.push(if x < 20 { (0, 0, 0, 255) } else { (255, 255, 255, 255) });
        }
    }
    let out: PixelMatrix = normalize_img(matrix(40, 8, &pixels), 10);
    assert_eq!((out.width(), out.height()), (10, 10));
    assert_eq!(out.get_pixel(0, 0), (0, 0, 0, 255));
    assert_eq!(out.get_pixel(9, 9), (255, 255, 255, 255));
}

#[test]
fn resampling_limits() {
    assert!(can_resample(730, 72, 72));
    assert!(!can_resample(u32::MAX, u32::MAX, u32::MAX));
    assert!(!can_resample(1, u32::MAX, u32::MAX));
    assert!(can_resample(0, u32::MAX, 0));
    assert!(can_normalize(&uniform(1, 1, (0, 0, 0, 0)), u32::MAX));
}

#[test]
fn source_frame_refuses_a_zero_denominator() {
    assert!(SourceFrame::new(uniform(1, 1, (0, 0, 0, 0)), (30, 0)).is_none());
    let frame: SourceFrame = SourceFrame::new(uniform(1, 1, (0, 0, 0, 0)), (30, 1)).unwrap();
    assert_eq!(frame.delay(), (30, 1));
    assert_eq!(frame.pixels().width(), 1);
}

#[test]
fn animation_of_three_frames_keeps_order_and_delays() {
    let gif: Vec<SourceFrame> = vec![
        SourceFrame::new(uniform(30, 30, (0, 0, 0, 255)), (30, 1)).unwrap(),
        SourceFrame::new(uniform(30, 30, (128, 128, 128, 255)), (30, 1)).unwrap(),
        SourceFrame::new(uniform(30, 30, (255, 255, 255, 255)), (30, 1)).unwrap(),
    ];
    let frames: Vec<AsciiFrame> = convert_gif_to_ascii_tokens(gif, &ASCII_SIMPLE.to_vec(), 20);
    assert_eq!(frames.len(), 3);
    let expected: [char; 3] = [' ', '=', '@'];
    for (frame, glyph) in frames.iter().zip(expected) {
        assert_eq!(frame.delay, (30, 1));
        assert_eq!(frame.delay.0 / frame.delay.1, 30);
        assert_eq!(frame.frame_tokens.len(), 10 * 21);
        assert_eq!(frame.frame_tokens[0].token, glyph);
        assert_eq!(frame.frame_tokens[0].parent_img_width, 20);
        assert_eq!(frame.frame_tokens[0].parent_img_height, 20);
    }
}

#[test]
fn animation_decoded_from_a_container() {
    let mut bytes: Vec<u8> = Vec::new();
    {
        let mut encoder = image::codecs::gif::GifEncoder::new(&mut bytes);
        let mut frames: Vec<image::Frame> = Vec::new();
        for shade in [0u8, 128, 255] {
            let canvas = image::RgbaImage::from_pixel(24, 24, image::Rgba([shade, shade, shade, 255]));
            frames.push(image::Frame::from_parts(
                canvas,
                0,
                0,
                image::Delay::from_numer_denom_ms(30, 1),
            ));
        }
        encoder.encode_frames(frames).unwrap();
    }
    let decoder = image::codecs::gif::GifDecoder::new(std::io::Cursor::new(bytes)).unwrap();
    let decoded: Vec<image::Frame> =
        image::AnimationDecoder::into_frames(decoder).collect_frames().unwrap();
    let mut gif: Vec<SourceFrame> = Vec::new();
    for frame in decoded {
        let delay: (u32, u32) = frame.delay().numer_denom_ms();
        let buffer = frame.into_buffer();
        let pixels: PixelMatrix =
            PixelMatrix::new(buffer.width(), buffer.height(), buffer.into_raw()).unwrap();
        gif.push(SourceFrame::new(pixels, delay).unwrap());
    }
    let frames: Vec<AsciiFrame> = convert_gif_to_ascii_tokens(gif, &ASCII_SIMPLE.to_vec(), 20);
    assert_eq!(frames.len(), 3);
    for frame in frames.iter() {
        assert_eq!(frame.delay.0 / frame.delay.1, 30);
        assert_eq!(frame.frame_tokens.len(), 10 * 21);
    }
    assert_eq!(frames[0].frame_tokens[0].token, ' ');
    assert_eq!(frames[2].frame_tokens[0].token, '@');
}

#[test]
fn decode_request_follows_the_extension() {
    assert_eq!(decode_request(&String::from("a/b/cat.gif")), Ok(DecodeRequest::Animated));
    assert_eq!(decode_request(&String::from("cat.png")), Ok(DecodeRequest::Still));
    assert_eq!(decode_request(&String::from("cat.v2.jpg")), Ok(DecodeRequest::Still));
    assert_eq!(decode_request(&String::from("cat.wav")), Err(AsciiError::UnsupportedFormat));
    assert_eq!(decode_request(&String::from("cat.PNG")), Err(AsciiError::UnsupportedFormat));
    assert_eq!(decode_request(&String::from("cat.jpeg")), Err(AsciiError::UnsupportedFormat));
    assert_eq!(decode_request(&String::from("cat")), Err(AsciiError::InvalidPath));
    assert_eq!(decode_request(&String::new()), Err(AsciiError::InvalidPath));
}

#[test]
fn process_file_converts_a_still_image() {
    let source: DecodedSource = DecodedSource::Still(uniform(2, 2, (255, 255, 255, 255)));
    assert!(can_process(&source, None));
    let out: ConvertedFile = process_file(Ok(source), None, false, None);
    match out {
        ConvertedFile::IMAGE(tokens) => {
            assert_eq!(text_of(&tokens), "@@\n");
            assert_eq!(tokens[0].parent_img_height, 2);
        }
        _ => panic!("expected an image"),
    }
    let source: DecodedSource = DecodedSource::Still(uniform(2, 2, (255, 255, 255, 255)));
    let out: ConvertedFile = process_file(Ok(source), Some(1), true, None);
    match out {
        ConvertedFile::IMAGE(tokens) => assert_eq!(text_of(&tokens), "$\n"),
        _ => panic!("expected an image"),
    }
    let source: DecodedSource = DecodedSource::Still(uniform(2, 2, (255, 255, 255, 255)));
    let out: ConvertedFile = process_file(Ok(source), Some(1), true, Some(String::from("ab")));
    match out {
        ConvertedFile::IMAGE(tokens) => assert_eq!(text_of(&tokens), "b\n"),
        _ => panic!("expected an image"),
    }
}

#[test]
fn process_file_uses_the_default_bound() {
    assert_eq!(DEFAULT_SCALE, 72);
    let source: DecodedSource = DecodedSource::Still(uniform(100, 10, (0, 0, 0, 255)));
    match process_file(Ok(source), None, false, None) {
        ConvertedFile::IMAGE(tokens) => {
            assert_eq!(tokens.len(), 36 * 73);
            assert_eq!(tokens[0].parent_img_width, 72);
            assert_eq!(tokens[0].parent_img_height, 72);
        }
        _ => panic!("expected an image"),
    }
}

#[test]
fn process_file_converts_an_animation() {
    let gif: Vec<SourceFrame> = vec![
        SourceFrame::new(uniform(2, 1, (0, 0, 0, 255)), (100, 3)).unwrap(),
        SourceFrame::new(uniform(2, 1, (255, 255, 255, 255)), (1, 30)).unwrap(),
    ];
    match process_file(Ok(DecodedSource::Animated(gif)), Some(5), false, None) {
        ConvertedFile::GIF(frames) => {
            assert_eq!(frames.len(), 2);
            assert_eq!(text_of(&frames[0].frame_tokens), "  \n");
            assert_eq!(frames[0].delay, (100, 3));
            assert_eq!(text_of(&frames[1].frame_tokens), "@@\n");
            assert_eq!(frames[1].delay, (1, 30));
        }
        _ => panic!("expected an animation"),
    }
}

#[test]
fn process_file_hands_a_failure_on() {
    assert_eq!(
        process_file(Err(AsciiError::UnsupportedFormat), None, false, None),
        ConvertedFile::ERROR(String::from("File format not supported for file"))
    );
    assert_eq!(
        process_file(Err(AsciiError::DecodeFailure), Some(3), true, None),
        ConvertedFile::ERROR(AsciiError::DecodeFailure.message())
    );
    assert_eq!(
        process_file(Err(AsciiError::InvalidPath), None, false, None),
        ConvertedFile::ERROR(String::from("Could not parse file extension"))
    );
}
