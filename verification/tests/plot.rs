//! Tests of the graph pipeline: sampling, ranging and braille cells, and the
//! tokenizer round trip.

use exprplot::{
    parse, plot_cells, plot_range, render_tokens, sample_curve, tokenize, DotCell, OpType, Scalar,
    ScalarHost, Token,
};

struct F64Host {
    funs: Vec<fn(f64) -> f64>,
}

impl F64Host {
    fn standard() -> (Vec<String>, F64Host) {
        let names: Vec<String> = ["cos", "sin", "tan", "log2", "ln"]
            .iter()
            .map(|s| s.to_string())
            .collect();
        let funs: Vec<fn(f64) -> f64> = vec![f64::cos, f64::sin, f64::tan, f64::log2, f64::ln];
        (names, F64Host { funs })
    }
}

fn to_bits(x: f64) -> Scalar {
    Scalar { bits: x.to_bits() }
}

fn to_f64(s: Scalar) -> f64 {
    f64::from_bits(s.bits)
}

impl ScalarHost for F64Host {
    // At run time the erased model methods are plain functions: the host's
    // model and its arithmetic are one and the same.
    fn literal_model(&self, v: u64) -> Scalar {
        to_bits(v as f64)
    }

    fn op_model(&self, op: OpType, lhs: Scalar, rhs: Scalar) -> Scalar {
        let (l, r) = (to_f64(lhs), to_f64(rhs));
        to_bits(match op {
            OpType::Plus => l + r,
            OpType::Sub => l - r,
            OpType::Mul => l * r,
            OpType::Div => l / r,
        })
    }

    fn fun_model(&self, fun: usize, arg: Scalar) -> Scalar {
        to_bits((self.funs[fun])(to_f64(arg)))
    }

    fn finite_model(&self, a: Scalar) -> bool {
        to_f64(a).is_finite()
    }

    fn lt_model(&self, a: Scalar, b: Scalar) -> bool {
        to_f64(a) < to_f64(b)
    }

    fn literal(&self, v: u64) -> Scalar {
        self.literal_model(v)
    }

    fn apply_op(&self, op: OpType, lhs: Scalar, rhs: Scalar) -> Scalar {
        self.op_model(op, lhs, rhs)
    }

    fn apply_fun(&self, fun: usize, arg: Scalar) -> Scalar {
        self.fun_model(fun, arg)
    }

    fn is_finite(&self, a: Scalar) -> bool {
        self.finite_model(a)
    }

    fn lt(&self, a: Scalar, b: Scalar) -> bool {
        self.lt_model(a, b)
    }
}

fn lerp_map(x: f64, a1: f64, b1: f64, a2: f64, b2: f64) -> f64 {
    a2 + (b2 - a2) * ((x - a1) / (b1 - a1))
}

/// The 100 sample positions over the domain `[origin, origin + width)`.
fn domain_samples(origin: f64, width: f64) -> Vec<f64> {
    (0..100)
        .map(|i| lerp_map(i as f64, 0.0, 100.0, origin, origin + width))
        .collect()
}

#[test]
fn identity_sampling_is_monotonic() {
    let (names, host) = F64Host::standard();
    let tokens = tokenize("x").unwrap();
    let parsed = parse(&tokens, &names).unwrap();
    let xs_f: Vec<f64> = domain_samples(0.0, 10.0);
    let xs: Vec<Scalar> = xs_f.iter().map(|x| to_bits(*x)).collect();
    let points = sample_curve(&parsed, &xs, &host).unwrap();
    assert_eq!(points.len(), 100);
    // The samples of `x` are the domain values themselves, bit for bit.
    for (p, x) in points.iter().zip(xs.iter()) {
        assert_eq!(p.bits, x.bits);
    }
    assert_eq!(to_f64(points[0]), 0.0);
    assert!(to_f64(points[99]) < 10.0);
    for w in points.windows(2) {
        assert!(to_f64(w[0]) < to_f64(w[1]));
    }
    // Remapping into the 90 dot rows keeps the order.
    let (mn, mx) = plot_range(&points, &host);
    let rows: Vec<u16> = points
        .iter()
        .map(|p| lerp_map(to_f64(*p), to_f64(mn), to_f64(mx), 0.0, 90.0).floor() as u16)
        .collect();
    for w in rows.windows(2) {
        assert!(w[0] <= w[1]);
    }
    assert_eq!(rows[0], 0);
    assert_eq!(rows[99], 90);
}

#[test]
fn sampling_unknown_variable_aborts() {
    let (names, host) = F64Host::standard();
    let tokens = tokenize("y").unwrap();
    let parsed = parse(&tokens, &names).unwrap();
    let xs: Vec<Scalar> = vec![to_bits(0.0), to_bits(1.0)];
    let err = sample_curve(&parsed, &xs, &host).unwrap_err();
    assert_eq!(
        err,
        exprplot::InvalidExpressionError::UnknownVariable("y".to_string())
    );
}

#[test]
fn nonfinite_samples_do_not_corrupt_the_range() {
    let (names, host) = F64Host::standard();
    let tokens = tokenize("1/x").unwrap();
    let parsed = parse(&tokens, &names).unwrap();
    let xs_f = domain_samples(0.0, 10.0);
    let xs: Vec<Scalar> = xs_f.iter().map(|x| to_bits(*x)).collect();
    let points = sample_curve(&parsed, &xs, &host).unwrap();
    // The first sample is 1/0: an infinity flowing through as a value.
    assert!(to_f64(points[0]).is_infinite());
    let (mn, mx) = plot_range(&points, &host);
    // Finite samples alone determine the plotted range.
    assert!(to_f64(mn).is_finite());
    assert!(to_f64(mx).is_finite());
    assert_eq!(to_f64(mx), 1.0 / xs_f[1]);
    assert_eq!(to_f64(mn), 1.0 / xs_f[99]);
}

#[test]
fn range_of_plain_values() {
    let host = F64Host { funs: Vec::new() };
    let points: Vec<Scalar> = [3.0, 1.0, 2.0].iter().map(|x| to_bits(*x)).collect();
    let (mn, mx) = plot_range(&points, &host);
    assert_eq!(to_f64(mn), 1.0);
    assert_eq!(to_f64(mx), 3.0);
    let with_nan: Vec<Scalar> = [f64::NAN, 1.0, 2.0].iter().map(|x| to_bits(*x)).collect();
    let (mn, mx) = plot_range(&with_nan, &host);
    assert_eq!(to_f64(mn), 1.0);
    assert_eq!(to_f64(mx), 2.0);
}

#[test]
fn merged_cell_when_rows_share_a_cell() {
    // Both dots land in the bottom cell: one merged mask.
    let cells = plot_cells(&vec![0, 0]);
    assert_eq!(
        cells,
        vec![DotCell { col: 0, up: 0, mask: 4 + 32 }]
    );
}

#[test]
fn split_cells_when_rows_differ() {
    let cells = plot_cells(&vec![0, 5]);
    assert_eq!(
        cells,
        vec![
            DotCell { col: 0, up: 0, mask: 4 },
            DotCell { col: 0, up: 1, mask: 8 },
        ]
    );
}

#[test]
fn trailing_odd_row_is_dropped() {
    let cells = plot_cells(&vec![4, 5, 7]);
    assert_eq!(cells.len(), 1);
    assert_eq!(cells[0], DotCell { col: 0, up: 1, mask: 2 + 8 });
}

#[test]
fn hundred_rows_give_fifty_columns() {
    let rows: Vec<u16> = (0..100u16).map(|i| (i * 90) / 100).collect();
    let cells = plot_cells(&rows);
    assert!(cells.len() >= 50);
    let mut cols: Vec<usize> = cells.iter().map(|c| c.col).collect();
    cols.dedup();
    assert_eq!(cols, (0..50).collect::<Vec<usize>>());
}

#[test]
fn high_rows_use_high_cells() {
    let cells = plot_cells(&vec![89, 89]);
    assert_eq!(cells, vec![DotCell { col: 0, up: 29, mask: 1 + 8 }]);
}

#[test]
fn render_round_trip() {
    let tokens = vec![
        Token::Number(26),
        Token::Op(OpType::Plus),
        Token::Identifier("foo".to_string()),
        Token::LeftParen,
        Token::Number(0),
        Token::RightParen,
        Token::Op(OpType::Div),
        Token::Number(18446744073709551615),
    ];
    let text: String = render_tokens(&tokens).into_iter().collect();
    assert_eq!(text, "26 + foo ( 0 ) / 18446744073709551615 ");
    assert_eq!(tokenize(&text).unwrap(), tokens);
}

#[test]
fn render_round_trip_single_zero() {
    let tokens = vec![Token::Number(0)];
    let text: String = render_tokens(&tokens).into_iter().collect();
    assert_eq!(text, "0 ");
    assert_eq!(tokenize(&text).unwrap(), tokens);
}
