use othello_knowledge::analysis::OthelloAnalysis;
use othello_knowledge::parse::ParseError;
use othello_knowledge::validate::ValidationError;

/// A board signature with 28 occupied cells (14 `O`, 14 `X`) and 36 empty.
fn busy_sig() -> String {
    let mut s = String::new();
    for _ in 0..14 {
        s.push('O');
    }
    for _ in 0..14 {
        s.push('X');
    }
    for _ in 0..36 {
        s.push('-');
    }
    s
}

#[test]
fn test_from_str() {
    let s = "---------------------------OX------XO--------------------------- X;,0,0,0,0,10";
    let analysis = OthelloAnalysis::from_str(s).unwrap();
    assert_eq!(analysis.board[0], 0x0000_0010_0800_0000);
    assert_eq!(analysis.board[1], 0x0000_0008_1000_0000);
    assert_eq!(analysis.settings, [0, 0]);
    assert_eq!(analysis.bounds, [0, 0]);
    assert_eq!(analysis.nodes, 10);
}

#[test]
fn test_to_bytes() {
    let analysis = OthelloAnalysis {
        board: [0x0000_0010_0800_0000, 0x0000_0008_1000_0000],
        settings: [1, 2],
        bounds: [-3, 4],
        nodes: 12345,
    };

    let bytes = analysis.to_bytes();
    let expected_bytes: [u8; 18] = [
        0x00, 0x00, 0x00, 0x08, 0x10, 0x00, 0x00, 0x00, 0x00, 0x00, 0x00, 0x10, 0x08, 0x00,
        0x00, 0x00, 0xFD, 0x04,
    ];
    assert_eq!(bytes, expected_bytes);
}

#[test]
fn round_trip_recovers_boards() {
    let masks: [[u64; 2]; 4] = [
        [0, 0],
        [u64::MAX, 0],
        [0x0123_4567_89AB_CDEF, 0xFEDC_BA98_7654_3210],
        [1, 1 << 63],
    ];
    for m in masks {
        let rec = OthelloAnalysis { board: m, settings: [0, 0], bounds: [0, 0], nodes: 0 };
        let bytes = rec.to_bytes();
        let mut half0: [u8; 8] = [0; 8];
        let mut half1: [u8; 8] = [0; 8];
        half0.copy_from_slice(&bytes[0..8]);
        half1.copy_from_slice(&bytes[8..16]);
        assert_eq!(u64::from_le_bytes(half0), m[0]);
        assert_eq!(u64::from_le_bytes(half1), m[1]);
    }
}

#[test]
fn bound_bytes_keep_twos_complement() {
    let rec = OthelloAnalysis { board: [0, 0], settings: [0, 0], bounds: [-3, 4], nodes: 0 };
    let bytes = rec.to_bytes();
    assert_eq!(bytes[16], 0xFD);
    assert_eq!(bytes[17], 0x04);
    let rec = OthelloAnalysis { board: [0, 0], settings: [0, 0], bounds: [-64, 64], nodes: 0 };
    let bytes = rec.to_bytes();
    assert_eq!(bytes[16], 0xC0);
    assert_eq!(bytes[17], 0x40);
}

#[test]
fn bad_signature_char_is_malformed() {
    let mut line = String::new();
    line.push('Z');
    for _ in 0..63 {
        line.push('-');
    }
    line.push_str(" X;,0,0,0,0,10");
    assert_eq!(OthelloAnalysis::from_str(&line), Err(ParseError::MalformedRecord));
}

#[test]
fn grammar_rejections() {
    let sig = busy_sig();
    // Signature too short.
    let line = format!("{} X;,0,0,0,0,10", &sig[1..]);
    assert_eq!(OthelloAnalysis::from_str(&line), Err(ParseError::MalformedRecord));
    // Marker missing.
    let line = format!("{},0,0,0,0,10", sig);
    assert_eq!(OthelloAnalysis::from_str(&line), Err(ParseError::MalformedRecord));
    // Too few fields.
    let line = format!("{} X;,0,0,0,0", sig);
    assert_eq!(OthelloAnalysis::from_str(&line), Err(ParseError::MalformedRecord));
    // Too many fields.
    let line = format!("{} X;,0,0,0,0,10,7", sig);
    assert_eq!(OthelloAnalysis::from_str(&line), Err(ParseError::MalformedRecord));
    // Empty field.
    let line = format!("{} X;,0,,0,0,10", sig);
    assert_eq!(OthelloAnalysis::from_str(&line), Err(ParseError::MalformedRecord));
    // Sign on an unsigned field.
    let line = format!("{} X;,-1,0,0,0,10", sig);
    assert_eq!(OthelloAnalysis::from_str(&line), Err(ParseError::MalformedRecord));
    // A plus sign is not part of the grammar.
    let line = format!("{} X;,0,0,+4,0,10", sig);
    assert_eq!(OthelloAnalysis::from_str(&line), Err(ParseError::MalformedRecord));
    // Two minus signs.
    let line = format!("{} X;,0,0,--4,0,10", sig);
    assert_eq!(OthelloAnalysis::from_str(&line), Err(ParseError::MalformedRecord));
    // A bare minus sign.
    let line = format!("{} X;,0,0,0,0,-", sig);
    assert_eq!(OthelloAnalysis::from_str(&line), Err(ParseError::MalformedRecord));
    // Trailing content.
    let line = format!("{} X;,0,0,0,0,10 ", sig);
    assert_eq!(OthelloAnalysis::from_str(&line), Err(ParseError::MalformedRecord));
    // Non-digit inside a field.
    let line = format!("{} X;,3a,0,0,0,10", sig);
    assert_eq!(OthelloAnalysis::from_str(&line), Err(ParseError::MalformedRecord));
}

#[test]
fn numeric_overflow_rejections() {
    let sig = busy_sig();
    // Depth setting beyond eight unsigned bits.
    let line = format!("{} X;,256,0,0,0,10", sig);
    assert_eq!(OthelloAnalysis::from_str(&line), Err(ParseError::NumericOverflow));
    // Strength setting beyond eight unsigned bits.
    let line = format!("{} X;,0,1000,0,0,10", sig);
    assert_eq!(OthelloAnalysis::from_str(&line), Err(ParseError::NumericOverflow));
    // Bounds beyond eight signed bits, on both sides.
    let line = format!("{} X;,0,0,-129,0,10", sig);
    assert_eq!(OthelloAnalysis::from_str(&line), Err(ParseError::NumericOverflow));
    let line = format!("{} X;,0,0,0,128,10", sig);
    assert_eq!(OthelloAnalysis::from_str(&line), Err(ParseError::NumericOverflow));
    // Node count far beyond 64 signed bits.
    let line = format!("{} X;,0,0,0,0,99999999999999999999999999", sig);
    assert_eq!(OthelloAnalysis::from_str(&line), Err(ParseError::NumericOverflow));
    let line = format!("{} X;,0,0,0,0,9223372036854775808", sig);
    assert_eq!(OthelloAnalysis::from_str(&line), Err(ParseError::NumericOverflow));
    // The extreme values that still fit.
    let line = format!("{} X;,255,255,-128,127,-9223372036854775808", sig);
    let rec = OthelloAnalysis::from_str(&line).unwrap();
    assert_eq!(rec.settings, [255, 255]);
    assert_eq!(rec.bounds, [-128, 127]);
    assert_eq!(rec.nodes, i64::MIN);
}

#[test]
fn empty_board_fails_validation() {
    let rec = OthelloAnalysis { board: [0, 0], settings: [0, 0], bounds: [0, 0], nodes: 0 };
    assert_eq!(rec.validate(), Err(ValidationError::EmptyCellCount));
}

#[test]
fn validation_per_invariant() {
    let line = format!("{} X;,36,100,0,0,10", busy_sig());
    let good = OthelloAnalysis::from_str(&line).unwrap();
    assert_eq!(good.validate(), Ok(()));

    let board = good.board;
    let base = |settings: [u8; 2], bounds: [i8; 2], nodes: i64| OthelloAnalysis {
        board,
        settings,
        bounds,
        nodes,
    };
    assert_eq!(base([37, 0], [0, 0], 0).validate(), Err(ValidationError::DepthLimit));
    assert_eq!(base([0, 101], [0, 0], 0).validate(), Err(ValidationError::StrengthLimit));
    assert_eq!(base([0, 0], [-65, 0], 0).validate(), Err(ValidationError::BoundMagnitude));
    assert_eq!(base([0, 0], [0, 65], 0).validate(), Err(ValidationError::BoundMagnitude));
    assert_eq!(base([0, 0], [0, 1], 0).validate(), Err(ValidationError::BoundParity));
    assert_eq!(base([0, 0], [4, 2], 0).validate(), Err(ValidationError::BoundOrder));
    assert_eq!(
        base([0, 0], [0, 0], 140737488355328).validate(),
        Err(ValidationError::NodeMagnitude)
    );
    assert_eq!(
        base([0, 0], [0, 0], -140737488355328).validate(),
        Err(ValidationError::NodeMagnitude)
    );
    assert_eq!(base([0, 0], [0, 0], 140737488355327).validate(), Ok(()));
    // The interval straddles zero without being a single point.
    assert_eq!(base([0, 0], [-2, 2], 0).validate(), Err(ValidationError::BoundWindow));
    // A wholly negative interval passes the window rule.
    assert_eq!(base([0, 0], [-4, -2], 0).validate(), Ok(()));
    // A wholly positive one does too.
    assert_eq!(base([0, 0], [2, 4], 0).validate(), Ok(()));
}

#[test]
fn selection_needs_full_effort() {
    let line = format!("{} X;,36,100,0,0,10", busy_sig());
    let selected = OthelloAnalysis::from_str(&line).unwrap();
    assert_eq!(selected.validate(), Ok(()));
    assert!(selected.selected());

    let line = format!("{} X;,35,100,0,0,10", busy_sig());
    let skipped = OthelloAnalysis::from_str(&line).unwrap();
    assert_eq!(skipped.validate(), Ok(()));
    assert!(!skipped.selected());
}

#[test]
fn literal_line_and_encoding() {
    let s = "---------------------------OX------XO--------------------------- X;,0,0,0,0,10";
    let rec = OthelloAnalysis::from_str(s).unwrap();
    assert_eq!(rec.board[0], 0x0000_0010_0800_0000);
    assert_eq!(rec.board[1], 0x0000_0008_1000_0000);
    assert_eq!(rec.settings, [0, 0]);
    assert_eq!(rec.bounds, [0, 0]);
    assert_eq!(rec.nodes, 10);

    let enc = OthelloAnalysis {
        board: [0x0000_0010_0800_0000, 0x0000_0008_1000_0000],
        settings: [0, 0],
        bounds: [-3, 4],
        nodes: 0,
    };
    let expected: [u8; 18] = [
        0x00, 0x00, 0x00, 0x08, 0x10, 0x00, 0x00, 0x00, 0x00, 0x00, 0x00, 0x10, 0x08, 0x00,
        0x00, 0x00, 0xFD, 0x04,
    ];
    assert_eq!(enc.to_bytes(), expected);
}
