//! Per-entry and per-line decisions of the archive walk: which entry names
//! are acceptable, and what one line of entry text yields.

use crate::analysis::NAME_PLACEHOLDERS;
use crate::analysis::OthelloAnalysis;
use crate::grammar::is_board_char;
use crate::grammar::line_matches;
use crate::parse::ParseError;
use crate::parse::fields_in_range;
use crate::validate::ValidationError;
use vstd::prelude::*;

verus! {

/// Dashes (placeholder cells) in a character sequence.
pub open spec fn dash_count(v: Seq<char>) -> int
    decreases v.len(),
{
    if v.len() == 0 {
        0
    } else {
        dash_count(v.drop_last()) + (if v.last() == '-' {
            1int
        } else {
            0int
        })
    }
}

/// The entry-name grammar: `knowledge_archive/knowledge_`, then a
/// 64-character board signature over `-`, `O` and `X`, then `.csv`.
pub open spec fn name_matches(nm: Seq<char>) -> bool {
    &&& nm.len() == 96
    &&& nm.subrange(0, 28) == "knowledge_archive/knowledge_"@
    &&& (forall|i: int| 28 <= i < 92 ==> is_board_char(nm[i]))
    &&& nm.subrange(92, 96) == ".csv"@
}

/// An entry is read only when its name matches the grammar and its board
/// signature has exactly 50 placeholder characters.
pub open spec fn entry_name_ok(nm: Seq<char>) -> bool {
    name_matches(nm) && dash_count(nm.subrange(28, 92)) == NAME_PLACEHOLDERS
}

/// Decides whether an archive entry's name is acceptable.
pub fn check_entry_name(name: &str) -> (r: bool)
    ensures
        r == entry_name_ok(name@),
{
    let pat = "knowledge_archive/knowledge_";
    let suffix = ".csv";
    proof {
        reveal_strlit("knowledge_archive/knowledge_");
        reveal_strlit(".csv");
    }
    let n = name.unicode_len();
    if n != 96 {
        return false;
    }
    let mut i: usize = 0;
    while i < 28
        invariant
            i <= 28,
            name@.len() == 96,
            pat@ == "knowledge_archive/knowledge_"@,
            pat@.len() == 28,
            forall|j: int| 0 <= j < i ==> name@[j] == pat@[j],
        decreases 28 - i,
    {
        if name.get_char(i) != pat.get_char(i) {
            proof {
                assert(name@.subrange(0, 28) != pat@);
            }
            return false;
        }
        i = i + 1;
    }
    proof {
        assert(name@.subrange(0, 28) =~= pat@);
    }
    let mut dashes: usize = 0;
    let mut i: usize = 28;
    while i < 92
        invariant
            28 <= i <= 92,
            name@.len() == 96,
            dashes <= i - 28,
            dashes == dash_count(name@.subrange(28, i as int)),
            forall|j: int| 28 <= j < i ==> is_board_char(name@[j]),
        decreases 92 - i,
    {
        let c = name.get_char(i);
        proof {
            let prev = name@.subrange(28, i as int);
            let cur = name@.subrange(28, i as int + 1);
            assert(cur.drop_last() =~= prev);
            assert(cur.last() == name@[i as int]);
        }
        if c == '-' {
            dashes = dashes + 1;
        } else if c != 'O' && c != 'X' {
            proof {
                assert(!is_board_char(name@[i as int]));
            }
            return false;
        }
        i = i + 1;
    }
    let mut i: usize = 92;
    while i < 96
        invariant
            92 <= i <= 96,
            name@.len() == 96,
            suffix@ == ".csv"@,
            suffix@.len() == 4,
            forall|j: int| 92 <= j < i ==> name@[j] == suffix@[j - 92],
        decreases 96 - i,
    {
        if name.get_char(i) != suffix.get_char(i - 92) {
            proof {
                assert(name@.subrange(92, 96) != suffix@);
            }
            return false;
        }
        i = i + 1;
    }
    proof {
        assert(name@.subrange(92, 96) =~= suffix@);
        assert(name_matches(name@));
    }
    dashes == NAME_PLACEHOLDERS
}

/// Why one line produced no output bytes.
#[derive(Debug, PartialEq, Eq, Clone, Copy)]
pub enum LineError {
    /// The line did not parse into a record.
    Parse(ParseError),
    /// The parsed record broke a domain invariant.
    Validation(ValidationError),
}

/// Runs one line through the codec: parse, validate, select, encode.
///
/// Yields the 18 encoded bytes for a valid selected record, nothing for a
/// valid record that is not selected, and the error otherwise.
pub fn process_line(line: &str) -> (r: Result<Option<[u8; 18]>, LineError>)
    ensures
        match r {
            Ok(out) => {
                &&& line_matches(line@)
                &&& fields_in_range(line@)
                &&& exists|rec: OthelloAnalysis| #[trigger] rec.matches_line(line@)
                &&& forall|rec: OthelloAnalysis| #[trigger]
                    rec.matches_line(line@) ==> rec.spec_valid() && (match out {
                        Some(bytes) => rec.spec_selected() && bytes@ == rec.spec_to_bytes(),
                        None => !rec.spec_selected(),
                    })
            },
            Err(LineError::Parse(ParseError::MalformedRecord)) => !line_matches(line@),
            Err(LineError::Parse(ParseError::NumericOverflow)) => line_matches(line@)
                && !fields_in_range(line@),
            Err(LineError::Validation(ve)) => {
                &&& line_matches(line@)
                &&& fields_in_range(line@)
                &&& exists|rec: OthelloAnalysis| #[trigger] rec.matches_line(line@)
                &&& forall|rec: OthelloAnalysis| #[trigger]
                    rec.matches_line(line@) ==> rec.spec_validate() == Err::<(),
                    ValidationError>(ve)
            },
        },
{
    let rec = match OthelloAnalysis::from_str(line) {
        Ok(rec) => rec,
        Err(e) => {
            return Err(LineError::Parse(e));
        },
    };
    match rec.validate() {
        Ok(()) => {},
        Err(e) => {
            proof {
                assert forall|rec2: OthelloAnalysis| #[trigger]
                    rec2.matches_line(line@) implies rec2.spec_validate() == Err::<(),
                    ValidationError>(e) by {
                    assert(rec2.board[0] == rec.board[0]);
                    assert(rec2.board[1] == rec.board[1]);
                    assert(rec2.settings[0] == rec.settings[0]);
                    assert(rec2.settings[1] == rec.settings[1]);
                    assert(rec2.bounds[0] == rec.bounds[0]);
                    assert(rec2.bounds[1] == rec.bounds[1]);
                    assert(rec2.nodes == rec.nodes);
                }
            }
            return Err(LineError::Validation(e));
        },
    }
    let out = if rec.selected() {
        Some(rec.to_bytes())
    } else {
        None
    };
    proof {
        assert forall|rec2: OthelloAnalysis| #[trigger] rec2.matches_line(line@) implies rec2.spec_valid()
            && (match out {
            Some(bytes) => rec2.spec_selected() && bytes@ == rec2.spec_to_bytes(),
            None => !rec2.spec_selected(),
        }) by {
            assert(rec2.board[0] == rec.board[0]);
            assert(rec2.board[1] == rec.board[1]);
            assert(rec2.settings[0] == rec.settings[0]);
            assert(rec2.settings[1] == rec.settings[1]);
            assert(rec2.bounds[0] == rec.bounds[0]);
            assert(rec2.bounds[1] == rec.bounds[1]);
            assert(rec2.nodes == rec.nodes);
        }
    }
    Ok(out)
}

} // verus!
