use fourier_gif::error::ReadingError;
use fourier_gif::text::{chars_of, coeff_fields, parse_coeffs, parse_points, point_fields, runs_of, Span};

fn field(chars: &[char], s: Span) -> String {
    chars[s.start..s.end].iter().collect()
}

#[test]
fn chars_keep_their_order() {
    assert_eq!(chars_of("aé b"), vec!['a', 'é', ' ', 'b']);
    assert_eq!(chars_of(""), Vec::<char>::new());
}

#[test]
fn runs_skip_empty_pieces() {
    let c = chars_of("\n\nab\n\ncd\n");
    assert_eq!(runs_of(&c, 0, c.len(), '\n'), vec![Span { start: 2, end: 4 }, Span { start: 6, end: 8 }]);
    let c = chars_of("&&");
    assert_eq!(runs_of(&c, 0, c.len(), '&'), vec![]);
}

#[test]
fn point_line_fields() {
    let c = chars_of(" 0.5 : ( 1e3 ,-2 ) ");
    let p = point_fields(&c, 0, c.len()).unwrap();
    assert_eq!(field(&c, p.t), "0.5");
    assert_eq!(field(&c, p.x), "1e3");
    assert_eq!(field(&c, p.y), "-2");
}

#[test]
fn point_line_needs_colon_and_comma() {
    let c = chars_of("1 (2, 3)");
    assert_eq!(point_fields(&c, 0, c.len()), None);
    let c = chars_of("1: (2 3)");
    assert_eq!(point_fields(&c, 0, c.len()), None);
}

#[test]
fn coefficient_line_fields() {
    let c = chars_of("(1.5,-2) & (3, 4e-1)");
    let f = coeff_fields(&c, 0, c.len()).unwrap();
    assert_eq!(field(&c, f.pos_re), "1.5");
    assert_eq!(field(&c, f.pos_im), "-2");
    assert_eq!(field(&c, f.neg_re), "3");
    assert_eq!(field(&c, f.neg_im), "4e-1");
}

#[test]
fn coefficient_line_needs_two_pairs() {
    let c = chars_of("(1,2) &");
    assert_eq!(coeff_fields(&c, 0, c.len()), None);
}

#[test]
fn points_file_fields() {
    let c = chars_of("0: (0, 0)\n\n1: (1, 0)\n2: (0, 1)\n");
    let v = parse_points(&c).ok().unwrap();
    assert_eq!(v.len(), 3);
    assert_eq!(field(&c, v[1].t), "1");
    assert_eq!(field(&c, v[2].y), "1");
}

#[test]
fn points_file_needs_two_points() {
    let c = chars_of("0: (0, 0)\n\n");
    assert!(matches!(parse_points(&c), Err(ReadingError::NotEnoughPoints)));
}

#[test]
fn points_file_with_a_bad_line() {
    let c = chars_of("0: (0, 0)\nnothing here\n");
    assert!(matches!(parse_points(&c), Err(ReadingError::IllFormedPoint)));
}

#[test]
fn coefficients_file_fields() {
    let c = chars_of("(0,0)&(0,0)\n(1,2)&(3,4)\n");
    let v = parse_coeffs(&c).ok().unwrap();
    assert_eq!(v.len(), 2);
    assert_eq!(field(&c, v[1].neg_im), "4");
}

#[test]
fn coefficients_file_with_a_bad_line() {
    let c = chars_of("(1,2)&(3,4)\n(1,2)\n");
    assert!(matches!(parse_coeffs(&c), Err(ReadingError::IllFormedCoeffs)));
}

#[test]
fn coefficients_round_trip_through_text() {
    let text = "(1.25,-0.5) & (3,0.001)\n(-7e-3,2.5) & (0,-1)\n";
    let read = |t: &str| -> Vec<[f64; 4]> {
        let c = chars_of(t);
        parse_coeffs(&c)
            .ok()
            .unwrap()
            .iter()
            .map(|f| {
                [f.pos_re, f.pos_im, f.neg_re, f.neg_im].map(|s| field(&c, s).parse::<f64>().unwrap())
            })
            .collect()
    };
    let first = read(text);
    let mut again = String::new();
    for v in &first {
        again.push_str(&format!("({},{}) & ({},{})\n", v[0], v[1], v[2], v[3]));
    }
    let second = read(&again);
    assert_eq!(first, second);
    assert_eq!(first[0], [1.25, -0.5, 3.0, 0.001]);
}
