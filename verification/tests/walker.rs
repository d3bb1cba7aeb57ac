use othello_knowledge::parse::ParseError;
use othello_knowledge::validate::ValidationError;
use othello_knowledge::walker::check_entry_name;
use othello_knowledge::walker::process_line;
use othello_knowledge::walker::LineError;

/// A board signature for entry names: `placeholders` dashes, the rest split
/// between `O` and `X`.
fn name_sig(placeholders: usize) -> String {
    let mut s = String::new();
    for _ in 0..placeholders {
        s.push('-');
    }
    let occupied = 64 - placeholders;
    for i in 0..occupied {
        s.push(if i % 2 == 0 { 'O' } else { 'X' });
    }
    s
}

#[test]
fn entry_name_with_fifty_placeholders_accepted() {
    let name = format!("knowledge_archive/knowledge_{}.csv", name_sig(50));
    assert!(check_entry_name(&name));
}

#[test]
fn entry_name_placeholder_counts_rejected() {
    let name = format!("knowledge_archive/knowledge_{}.csv", name_sig(49));
    assert!(!check_entry_name(&name));
    let name = format!("knowledge_archive/knowledge_{}.csv", name_sig(51));
    assert!(!check_entry_name(&name));
}

#[test]
fn entry_name_grammar_rejected() {
    // Wrong directory prefix.
    let name = format!("other_archive/knowledge_{}.csv", name_sig(50));
    assert!(!check_entry_name(&name));
    // Wrong extension.
    let name = format!("knowledge_archive/knowledge_{}.txt", name_sig(50));
    assert!(!check_entry_name(&name));
    // Signature too short.
    let name = format!("knowledge_archive/knowledge_{}.csv", &name_sig(50)[1..]);
    assert!(!check_entry_name(&name));
    // A character outside the signature alphabet.
    let mut sig = name_sig(50);
    sig.replace_range(0..1, "Z");
    let name = format!("knowledge_archive/knowledge_{}.csv", sig);
    assert!(!check_entry_name(&name));
}

/// A line signature with 28 occupied cells and 36 empty.
fn busy_sig() -> String {
    let mut s = String::new();
    for _ in 0..14 {
        s.push('O');
    }
    for _ in 0..14 {
        s.push('X');
    }
    for _ in 0..36 {
        s.push('-');
    }
    s
}

#[test]
fn process_line_emits_selected_records() {
    let line = format!("{} X;,36,100,-4,-2,10", busy_sig());
    let out = process_line(&line).unwrap().expect("a selected record is encoded");
    assert_eq!(out.len(), 18);
    assert_eq!(out[0], 0xFF);
    assert_eq!(out[1], 0x3F);
    assert_eq!(out[8], 0x00);
    assert_eq!(out[9], 0xC0);
    assert_eq!(out[16], 0xFC);
    assert_eq!(out[17], 0xFE);
}

#[test]
fn process_line_skips_unselected_records() {
    let line = format!("{} X;,35,100,0,0,10", busy_sig());
    assert_eq!(process_line(&line), Ok(None));
    let line = format!("{} X;,36,99,0,0,10", busy_sig());
    assert_eq!(process_line(&line), Ok(None));
}

#[test]
fn process_line_reports_errors() {
    let line = "not a record at all";
    assert_eq!(
        process_line(line),
        Err(LineError::Parse(ParseError::MalformedRecord))
    );
    let line = format!("{} X;,256,100,0,0,10", busy_sig());
    assert_eq!(
        process_line(&line),
        Err(LineError::Parse(ParseError::NumericOverflow))
    );
    let line = format!("{} X;,36,100,0,1,10", busy_sig());
    assert_eq!(
        process_line(&line),
        Err(LineError::Validation(ValidationError::BoundParity))
    );
}
