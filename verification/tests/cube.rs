use luty::cube::{number_words, CubeError, CubeLut};

fn numbers_for(text: &str) -> Vec<Vec<Option<u32>>> {
    number_words(text)
        .iter()
        .map(|line| {
            line.iter()
                .map(|word| word.parse::<f32>().ok().map(f32::to_bits))
                .collect()
        })
        .collect()
}

fn parse(text: &str) -> Result<CubeLut, CubeError> {
    CubeLut::parse_str(text, &numbers_for(text))
}

fn lerp(start: f32, end: f32, amount: f32) -> f32 {
    start + (end - start) * amount
}

fn sample(lut: &CubeLut, rgb: [f32; 3]) -> [f32; 3] {
    let max_index = (lut.size() - 1) as f32;
    let lo = lut.domain_min();
    let hi = lut.domain_max();
    let lo = [f32::from_bits(lo.0), f32::from_bits(lo.1), f32::from_bits(lo.2)];
    let hi = [f32::from_bits(hi.0), f32::from_bits(hi.1), f32::from_bits(hi.2)];
    let mut position = [0.0f32; 3];
    for channel in 0..3 {
        position[channel] =
            ((rgb[channel] - lo[channel]) / (hi[channel] - lo[channel])).clamp(0.0, 1.0) * max_index;
    }
    let lower = (
        position[0].floor() as usize,
        position[1].floor() as usize,
        position[2].floor() as usize,
    );
    let fraction = [
        position[0] - lower.0 as f32,
        position[1] - lower.1 as f32,
        position[2] - lower.2 as f32,
    ];
    let c = lut.corners(lower);
    let f = |v: (u32, u32, u32)| [f32::from_bits(v.0), f32::from_bits(v.1), f32::from_bits(v.2)];
    let c: Vec<[f32; 3]> = c.iter().map(|v| f(*v)).collect();
    let mut result = [0.0f32; 3];
    for channel in 0..3 {
        let x00 = lerp(c[0][channel], c[1][channel], fraction[0]);
        let x10 = lerp(c[2][channel], c[3][channel], fraction[0]);
        let x01 = lerp(c[4][channel], c[5][channel], fraction[0]);
        let x11 = lerp(c[6][channel], c[7][channel], fraction[0]);
        result[channel] = lerp(lerp(x00, x10, fraction[1]), lerp(x01, x11, fraction[1]), fraction[2]);
    }
    result
}

#[test]
fn parses_and_interpolates_identity_cube() {
    let lut = parse("LUT_3D_SIZE 2\n0 0 0\n1 0 0\n0 1 0\n1 1 0\n0 0 1\n1 0 1\n0 1 1\n1 1 1\n").unwrap();
    let sampled = sample(&lut, [0.25, 0.5, 0.75]);
    assert!((sampled[0] - 0.25).abs() < 0.0001);
    assert!((sampled[1] - 0.5).abs() < 0.0001);
    assert!((sampled[2] - 0.75).abs() < 0.0001);
}

#[test]
fn rejects_incomplete_cube() {
    assert!(parse("LUT_3D_SIZE 2\n0 0 0\n").is_err());
}

fn message_of(text: &str) -> String {
    match parse(text) {
        Ok(_) => String::from("ok"),
        Err(e) => e.message(),
    }
}

const IDENTITY: &str = "LUT_3D_SIZE 2\n0 0 0\n1 0 0\n0 1 0\n1 1 0\n0 0 1\n1 0 1\n0 1 1\n1 1 1\n";

#[test]
fn accepts_identity_cube_with_header_lines_and_crlf() {
    let text = "# comment\r\nTITLE \"Identity\"\r\n\r\nLUT_3D_SIZE 2\r\nDOMAIN_MIN 0 0 0\r\nDOMAIN_MAX 1 1 1\r\n0 0 0\r\n1 0 0\r\n0 1 0\r\n1 1 0\r\n0 0 1\r\n1 0 1\r\n0 1 1\r\n1 1 1";
    let lut = parse(text).unwrap();
    assert_eq!(lut.size(), 2);
    assert_eq!(lut.domain_min(), (0, 0, 0));
    let one = 1.0f32.to_bits();
    assert_eq!(lut.domain_max(), (one, one, one));
    assert_eq!(lut.at(1, 0, 0), (one, 0, 0));
    assert_eq!(lut.at(0, 1, 1), (0, one, one));
}

#[test]
fn corners_hold_at_the_last_index() {
    let lut = parse(IDENTITY).unwrap();
    let one = 1.0f32.to_bits();
    let c = lut.corners((1, 1, 0));
    assert_eq!(c[0], (one, one, 0));
    assert_eq!(c[1], (one, one, 0));
    assert_eq!(c[4], (one, one, one));
    assert_eq!(c[7], (one, one, one));
    let c = lut.corners((0, 0, 0));
    assert_eq!(c[0], (0, 0, 0));
    assert_eq!(c[1], (one, 0, 0));
    assert_eq!(c[2], (0, one, 0));
    assert_eq!(c[7], (one, one, one));
}

#[test]
fn size_three_grid_indexing() {
    let mut text = String::from("LUT_3D_SIZE 3\n");
    for b in 0..3 {
        for g in 0..3 {
            for r in 0..3 {
                text.push_str(&format!("{} {} {}\n", r, g, b));
            }
        }
    }
    let lut = parse(&text).unwrap();
    assert_eq!(lut.size(), 3);
    let two = 2.0f32.to_bits();
    let one = 1.0f32.to_bits();
    assert_eq!(lut.at(2, 1, 0), (two, one, 0));
    let c = lut.corners((1, 1, 1));
    assert_eq!(c[0], (one, one, one));
    assert_eq!(c[7], (two, two, two));
}

#[test]
fn reports_each_refusal() {
    assert_eq!(message_of("LUT_3D_SIZE\n"), "Missing LUT_3D_SIZE value on line 1");
    assert_eq!(message_of("# x\nLUT_3D_SIZE two\n"), "Invalid LUT_3D_SIZE on line 2");
    assert_eq!(message_of("LUT_3D_SIZE -2\n"), "Invalid LUT_3D_SIZE on line 1");
    assert_eq!(message_of("LUT_3D_SIZE 257\n"), "LUT_3D_SIZE must be between 2 and 256, got 257");
    assert_eq!(message_of("LUT_3D_SIZE 1\n"), "LUT_3D_SIZE must be between 2 and 256, got 1");
    assert_eq!(
        message_of("LUT_3D_SIZE 99999999999999999999999\n"),
        "Invalid LUT_3D_SIZE on line 1"
    );
    assert_eq!(message_of("LUT_1D_SIZE 16\n"), "1D .cube LUTs are not supported yet");
    assert_eq!(message_of("DOMAIN_MIN 0 0\n"), "Missing numeric component on line 1");
    assert_eq!(message_of("\n\nDOMAIN_MAX 1 x 1\n"), "Invalid number on line 3");
    assert_eq!(message_of("LUT_3D_SIZE 2\n0 0\n"), "Missing numeric component on line 2");
    assert_eq!(message_of("LUT_3D_SIZE 2\n0 inf 0\n"), "Non-finite LUT value on line 2");
    assert_eq!(message_of("LUT_3D_SIZE 2\n0 0 1e39\n"), "Non-finite LUT value on line 2");
    assert_eq!(message_of("LUT_3D_SIZE 2\nnan 0 0\n"), "Non-finite LUT value on line 2");
    assert_eq!(message_of("0 0 0\n"), "Missing LUT_3D_SIZE");
    assert_eq!(message_of("LUT_3D_SIZE 2\n0 0 0\n"), "Expected 8 LUT entries, found 1");
    let empty_domain = format!("DOMAIN_MIN 0 0 0\nDOMAIN_MAX 1 0 1\n{}", IDENTITY);
    assert_eq!(
        message_of(&empty_domain),
        "Each DOMAIN_MAX component must be greater than DOMAIN_MIN"
    );
    let nan_domain = format!("DOMAIN_MAX 1 nan 1\n{}", IDENTITY);
    assert_eq!(message_of(&nan_domain), "ok");
    let negative_domain = format!("DOMAIN_MIN -1 -2 -0.5\nDOMAIN_MAX -0.5 0 0\n{}", IDENTITY);
    assert_eq!(message_of(&negative_domain), "ok");
    let zero_domain = format!("DOMAIN_MIN 0 0 0\nDOMAIN_MAX 1 -0 1\n{}", IDENTITY);
    assert_eq!(message_of(&zero_domain), "Each DOMAIN_MAX component must be greater than DOMAIN_MIN");
}

#[test]
fn the_first_refusal_wins() {
    assert_eq!(message_of("LUT_3D_SIZE 2\n0 0 inf\nLUT_1D_SIZE 3\n"), "Non-finite LUT value on line 2");
    assert_eq!(message_of("LUT_1D_SIZE 3\nLUT_3D_SIZE 0\n"), "1D .cube LUTs are not supported yet");
}

#[test]
fn ignores_unknown_keywords_and_extra_numbers() {
    let text = "LUT_3D_INPUT_RANGE 0 1\nLUT_3D_SIZE 2\n0 0 0 9\n1 0 0\n0 1 0\n1 1 0\n0 0 1\n1 0 1\n0 1 1\n1 1 1\n";
    let lut = parse(text).unwrap();
    assert_eq!(lut.at(0, 0, 0), (0, 0, 0));
    let later_size = "LUT_3D_SIZE 3\nLUT_3D_SIZE 2\n0 0 0\n1 0 0\n0 1 0\n1 1 0\n0 0 1\n1 0 1\n0 1 1\n1 1 1\n";
    assert_eq!(parse(later_size).unwrap().size(), 2);
}

#[test]
fn lists_the_words_of_every_line() {
    let words = number_words("a  b\n\n\tc\u{00A0}d \r\nlast");
    assert_eq!(
        words,
        vec![
            vec![String::from("a"), String::from("b")],
            vec![],
            vec![String::from("c"), String::from("d")],
            vec![String::from("last")],
        ]
    );
    for text in ["", "\n", "x\n\ny", "a\r\nb\r", " \u{3000}q\u{2028}r ", "one\ntwo\n"] {
        let ours = number_words(text);
        let std_words: Vec<Vec<String>> = text
            .lines()
            .map(|l| l.split_whitespace().map(String::from).collect())
            .collect();
        assert_eq!(ours, std_words);
    }
}

#[test]
fn missing_numbers_table_reads_as_parse_errors() {
    let result = CubeLut::parse_str("LUT_3D_SIZE 2\nDOMAIN_MIN 0 0 0\n", &Vec::new());
    assert_eq!(result.err(), Some(CubeError::InvalidNumber { line: 2 }));
}

#[test]
fn accepted_tables_are_complete_and_finite() {
    let lut = parse(IDENTITY).unwrap();
    let n = lut.size();
    for b in 0..n {
        for g in 0..n {
            for r in 0..n {
                let v = lut.at(r, g, b);
                assert!(f32::from_bits(v.0).is_finite());
                assert!(f32::from_bits(v.1).is_finite());
                assert!(f32::from_bits(v.2).is_finite());
            }
        }
    }
}

#[test]
fn passed_over_lines_and_padding_change_nothing() {
    let padded = "# header\n\nTITLE \"x\"\nLUT_3D_INPUT_RANGE 0 1\n  LUT_3D_SIZE 2\t\n0 0 0\n# mid\n1 0 0\n 0 1 0 \n1 1 0\n\n0 0 1\n1 0 1\nTITLE y\n0 1 1\n\t1 1 1\n";
    let a = parse(IDENTITY).unwrap();
    let b = parse(padded).unwrap();
    assert_eq!(a.size(), b.size());
    assert_eq!(a.domain_min(), b.domain_min());
    assert_eq!(a.domain_max(), b.domain_max());
    for blue in 0..2 {
        for green in 0..2 {
            for red in 0..2 {
                assert_eq!(a.at(red, green, blue), b.at(red, green, blue));
            }
        }
    }
    assert!(parse("LUT_3D_SIZE 2\n0 0 0\n").is_err());
    assert!(parse("# c\n\nLUT_3D_SIZE 2\n  0 0 0\n").is_err());
}
