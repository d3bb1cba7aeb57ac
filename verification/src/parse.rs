//! Parsing one record line into an [`OthelloAnalysis`].

use crate::analysis::OthelloAnalysis;
use crate::grammar::cpos;
use crate::grammar::dec_val;
use crate::grammar::field;
use crate::grammar::field_end;
use crate::grammar::field_start;
use crate::grammar::find_comma;
use crate::grammar::is_board_char;
use crate::grammar::is_digit;
use crate::grammar::is_digits;
use crate::grammar::is_signed_digits;
use crate::grammar::lemma_dec_val_nonneg;
use crate::grammar::lemma_find_comma_props;
use crate::grammar::lemma_find_comma_skip;
use crate::grammar::line_matches;
use crate::grammar::parse_u64_digits;
use crate::grammar::scan_digits;
use crate::grammar::signed_val;
use crate::grammar::tail_matches;
use vstd::prelude::*;

verus! {

/// Why a line was not parsed into a record.
#[derive(Debug, PartialEq, Eq, Clone, Copy)]
pub enum ParseError {
    /// The line does not match the record grammar.
    MalformedRecord,
    /// The line matches the grammar but a numeric field does not fit its
    /// target width.
    NumericOverflow,
}

/// Bitmask of the cells among the first `n` whose signature character is
/// `side`: character `i` sets bit `i`.
pub open spec fn side_mask(t: Seq<char>, side: char, n: int) -> u64
    decreases n,
{
    if n <= 0 {
        0u64
    } else {
        side_mask(t, side, n - 1) | (if t[n - 1] == side {
            1u64 << ((n - 1) as u64)
        } else {
            0u64
        })
    }
}

/// All five numeric fields of a matching line fit their target widths.
pub open spec fn fields_in_range(t: Seq<char>) -> bool {
    let u = t.skip(68);
    &&& dec_val(field(u, 0)) <= u8::MAX
    &&& dec_val(field(u, 1)) <= u8::MAX
    &&& i8::MIN <= signed_val(field(u, 2)) <= i8::MAX
    &&& i8::MIN <= signed_val(field(u, 3)) <= i8::MAX
    &&& i64::MIN <= signed_val(field(u, 4)) <= i64::MAX
}

impl OthelloAnalysis {
    /// The record holds exactly what the line says: the two side masks read
    /// off the board signature, and the five numeric fields in order.
    pub open spec fn matches_line(self, t: Seq<char>) -> bool {
        let u = t.skip(68);
        &&& self.board[0] == side_mask(t, 'O', 64)
        &&& self.board[1] == side_mask(t, 'X', 64)
        &&& self.settings[0] == dec_val(field(u, 0))
        &&& self.settings[1] == dec_val(field(u, 1))
        &&& self.bounds[0] == signed_val(field(u, 2))
        &&& self.bounds[1] == signed_val(field(u, 3))
        &&& self.nodes == signed_val(field(u, 4))
    }
}

/// Law: a line whose board signature holds any character outside `-`, `O`
/// and `X` does not match the grammar, so parsing it reports a malformed
/// record rather than a board.
pub proof fn lemma_bad_signature_char_malformed(t: Seq<char>, i: int)
    requires
        0 <= i < 64,
        i < t.len(),
        !is_board_char(t[i]),
    ensures
        !line_matches(t),
{
}

/// Nothing is changed by folding a zero into a mask.
proof fn lemma_or_zero(x: u64)
    by (bit_vector)
    ensures
        x | 0u64 == x,
{
}

/// End of the numeric field that starts at tail position `q`: the next comma
/// for an inner field, the end of the tail for the last one.
pub open spec fn field_end_at(u: Seq<char>, q: int, last: bool) -> int {
    if last {
        u.len() as int
    } else {
        find_comma(u, q)
    }
}

/// The numeric field that starts at tail position `q`.
pub open spec fn field_at(u: Seq<char>, q: int, last: bool) -> Seq<char> {
    u.subrange(q, field_end_at(u, q, last))
}

/// Shape a field must have: an optionally minus-signed digit run where a
/// sign is allowed, a plain digit run where not.
pub open spec fn field_ok(f: Seq<char>, allow_sign: bool) -> bool {
    if allow_sign {
        is_signed_digits(f)
    } else {
        is_digits(f)
    }
}

/// What scanning one numeric field found.
enum FieldScan {
    /// The text from the start position is not a well-formed field (or an
    /// inner field is missing its closing comma).
    Bad,
    /// A well-formed field: its sign, whether its magnitude exceeds 64 bits,
    /// the magnitude when it does not, and the position after the field's
    /// closing comma.
    Found { neg: bool, big: bool, val: u64, next: usize },
}

/// Scans the numeric field starting at line position `p` (tail position
/// `p - 68`).
fn scan_field(s: &str, p: usize, allow_sign: bool, last: bool) -> (res: FieldScan)
    requires
        68 <= p,
        p as int <= s@.len(),
    ensures
        ({
            let u = s@.skip(68);
            let q = p as int - 68;
            let f = field_at(u, q, last);
            match res {
                FieldScan::Bad => !field_ok(f, allow_sign) || (!last && find_comma(u, q)
                    == u.len()),
                FieldScan::Found { neg, big, val, next } => {
                    &&& field_ok(f, allow_sign)
                    &&& neg == (f.len() > 0 && f[0] == '-')
                    &&& !big ==> signed_val(f) == if neg {
                        -(val as int)
                    } else {
                        val as int
                    }
                    &&& big ==> (signed_val(f) > u64::MAX || signed_val(f) < -(u64::MAX as int))
                    &&& !last ==> find_comma(u, q) < u.len() && next == find_comma(u, q) + 69
                    &&& next as int <= s@.len()
                },
            }
        }),
{
    let ghost t = s@;
    let ghost u = s@.skip(68);
    let ghost q = p as int - 68;
    proof {
        assert(u.len() == t.len() - 68);
        assert(forall|i: int| 0 <= i < u.len() ==> u[i] == t[i + 68]);
    }
    let n = s.unicode_len();
    let mut neg = false;
    let mut dstart = p;
    if allow_sign && p < n {
        if s.get_char(p) == '-' {
            neg = true;
            dstart = p + 1;
        }
    }
    let end = scan_digits(s, dstart);
    let ghost e = field_end_at(u, q, last);
    let ghost f = field_at(u, q, last);
    proof {
        // No comma stands anywhere in [q, end - 68): an optional minus sign,
        // then digits.
        assert(forall|i: int| q <= i < end - 68 ==> u[i] != ',') by {
            assert(forall|i: int|
                dstart <= i < end ==> is_digit(#[trigger] t[i]) && t[i] != ',');
            assert(neg ==> t[p as int] == '-' && t[p as int] != ',');
        }
        if !last {
            lemma_find_comma_skip(u, q, end - 68);
            lemma_find_comma_props(u, end - 68);
        }
    }
    if end == dstart {
        // Empty digit run: the field is malformed, whatever closes it.
        proof {
            if end < n {
                assert(!is_digit(t[end as int]));
                assert(f.len() > end - 68 - q ==> !field_ok(f, allow_sign)) by {
                    if neg {
                        assert(f.len() > 0 && f[0] == u[q] == '-');
                        if f.len() > end - 68 - q {
                            assert(f.skip(1)[0] == u[q + 1] == t[end as int]);
                        }
                    } else {
                        if f.len() > 0 {
                            assert(f[0] == u[q] == t[end as int]);
                        }
                    }
                }
                if !last {
                    if t.index(end as int) == ',' {
                        assert(find_comma(u, end - 68) == end - 68);
                        assert(f.len() == end - 68 - q);
                        assert(!field_ok(f, allow_sign));
                    } else {
                        assert(find_comma(u, end - 68) >= end - 68 + 1);
                        assert(f.len() > end - 68 - q);
                    }
                } else {
                    assert(f.len() == u.len() - q > end - 68 - q);
                }
            } else {
                // The line ends before any digit: an inner field has no
                // closing comma, the last field has no digits.
                if !last {
                    assert(find_comma(u, q) == find_comma(u, end - 68));
                    assert(find_comma(u, end - 68) == u.len());
                } else {
                    assert(f.len() == end - 68 - q);
                    assert(!field_ok(f, allow_sign)) by {
                        if neg {
                            assert(f[0] == '-');
                            assert(f.skip(1).len() == 0);
                        } else {
                            assert(f.len() == 0);
                        }
                    }
                }
            }
        }
        return FieldScan::Bad;
    }
    if !last {
        if end >= n {
            // Digits run to the end of the line: the closing comma is
            // missing.
            proof {
                assert(find_comma(u, q) == find_comma(u, end - 68));
                assert(find_comma(u, end - 68) == u.len());
            }
            return FieldScan::Bad;
        }
        if s.get_char(end) != ',' {
            // A non-digit other than a comma stands inside the field.
            proof {
                assert(!is_digit(t[end as int]));
                assert(find_comma(u, end - 68) >= end - 68 + 1);
                assert(f.len() > end - 68 - q);
                assert(!field_ok(f, allow_sign)) by {
                    if neg {
                        assert(f[0] == u[q] == '-');
                        assert(f.skip(1)[end - 68 - q - 1] == u[end - 68] == t[end as int]);
                    } else {
                        assert(f[end - 68 - q] == u[end - 68] == t[end as int]);
                    }
                }
            }
            return FieldScan::Bad;
        }
    } else {
        if end < n {
            // Trailing content after the digits of the last field.
            proof {
                assert(!is_digit(t[end as int]));
                assert(!field_ok(f, allow_sign)) by {
                    if neg {
                        assert(f[0] == u[q] == '-');
                        assert(f.skip(1)[end - 68 - q - 1] == u[end - 68] == t[end as int]);
                    } else {
                        assert(f[end - 68 - q] == u[end - 68] == t[end as int]);
                    }
                }
            }
            return FieldScan::Bad;
        }
    }
    proof {
        // The field closes exactly at `end`, so it is the sign plus the
        // scanned digit run.
        if !last {
            assert(u[end - 68] == t[end as int] == ',');
            assert(find_comma(u, end - 68) == end - 68);
            assert(e == end - 68);
        } else {
            assert(end == n);
            assert(e == u.len());
        }
        assert(f.skip(if neg { 1int } else { 0int }) =~= t.subrange(dstart as int, end as int));
        if neg {
            assert(f[0] == u[q] == '-');
        } else {
            assert(f.len() > 0 && is_digit(f[0]));
        }
        assert(field_ok(f, allow_sign)) by {
            assert(forall|i: int|
                0 <= i < end - dstart ==> is_digit(#[trigger] t.subrange(
                    dstart as int,
                    end as int,
                )[i]));
        }
        lemma_dec_val_nonneg(t.subrange(dstart as int, end as int));
    }
    let next = if end < n {
        end + 1
    } else {
        end
    };
    proof {
        let sub = t.subrange(dstart as int, end as int);
        if neg {
            assert(f.skip(1) == sub);
            assert(signed_val(f) == -dec_val(sub));
        } else {
            assert(f.skip(0) =~= f);
            assert(f == sub);
            assert(signed_val(f) == dec_val(sub));
        }
    }
    match parse_u64_digits(s, dstart, end) {
        Some(val) => FieldScan::Found { neg, big: false, val, next },
        None => FieldScan::Found { neg, big: true, val: 0, next },
    }
}

impl OthelloAnalysis {
    /// Parses one record line: a 64-character board signature over `-`, `O`
    /// and `X`, the literal marker ` X;,`, then depth setting, strength
    /// setting, lower bound, upper bound and node count as decimal fields.
    ///
    /// Returns `MalformedRecord` exactly when the line does not match that
    /// grammar, `NumericOverflow` exactly when it does but a numeric field
    /// does not fit its target width, and otherwise the record the line
    /// describes.
    pub fn from_str(s: &str) -> (r: Result<OthelloAnalysis, ParseError>)
        ensures
            match r {
                Ok(rec) => line_matches(s@) && fields_in_range(s@) && rec.matches_line(s@),
                Err(ParseError::MalformedRecord) => !line_matches(s@),
                Err(ParseError::NumericOverflow) => line_matches(s@) && !fields_in_range(s@),
            },
    {
        let ghost t = s@;
        let n = s.unicode_len();
        if n < 68 {
            return Err(ParseError::MalformedRecord);
        }
        let ghost u = t.skip(68);
        proof {
            assert(u.len() == t.len() - 68);
            assert(forall|i: int| 0 <= i < u.len() ==> u[i] == t[i + 68]);
        }
        let mut board0: u64 = 0;
        let mut board1: u64 = 0;
        let mut i: usize = 0;
        while i < 64
            invariant
                i <= 64,
                n == t.len(),
                n >= 68,
                t == s@,
                board0 == side_mask(t, 'O', i as int),
                board1 == side_mask(t, 'X', i as int),
                forall|j: int| 0 <= j < i ==> is_board_char(t[j]),
            decreases 64 - i,
        {
            let c = s.get_char(i);
            proof {
                let ii = i as int;
                assert(side_mask(t, 'O', ii + 1) == (side_mask(t, 'O', ii) | (if t[ii] == 'O' {
                    1u64 << (ii as u64)
                } else {
                    0u64
                })));
                assert(side_mask(t, 'X', ii + 1) == (side_mask(t, 'X', ii) | (if t[ii] == 'X' {
                    1u64 << (ii as u64)
                } else {
                    0u64
                })));
                lemma_or_zero(board0);
                lemma_or_zero(board1);
            }
            if c == 'O' {
                board0 = board0 | (1u64 << (i as u64));
            } else if c == 'X' {
                board1 = board1 | (1u64 << (i as u64));
            } else if c != '-' {
                proof {
                    assert(!is_board_char(t[i as int]));
                }
                return Err(ParseError::MalformedRecord);
            }
            i = i + 1;
        }
        if s.get_char(64) != ' ' || s.get_char(65) != 'X' || s.get_char(66) != ';' || s.get_char(
            67,
        ) != ',' {
            return Err(ParseError::MalformedRecord);
        }
        // Field 0: depth setting.
        proof {
            assert(field_start(u, 0) == 0);
            assert(field(u, 0) == field_at(u, 0, false));
        }
        let (big0, v0, pos1) = match scan_field(s, 68, false, false) {
            FieldScan::Bad => {
                proof {
                    assert(!tail_matches(u));
                }
                return Err(ParseError::MalformedRecord);
            },
            FieldScan::Found { neg, big, val, next } => { (big, val, next) },
        };
        // Field 1: strength setting.
        proof {
            lemma_find_comma_props(u, 0);
            assert(cpos(u, 0) == find_comma(u, 0));
            assert(field_start(u, 1) == cpos(u, 0) + 1 == pos1 - 68);
            assert(field_end(u, 1) == cpos(u, 1) == find_comma(u, pos1 - 68));
            assert(field(u, 1) == field_at(u, pos1 - 68, false));
        }
        let (big1, v1, pos2) = match scan_field(s, pos1, false, false) {
            FieldScan::Bad => {
                proof {
                    assert(!tail_matches(u));
                }
                return Err(ParseError::MalformedRecord);
            },
            FieldScan::Found { neg, big, val, next } => { (big, val, next) },
        };
        // Field 2: lower bound.
        proof {
            lemma_find_comma_props(u, pos1 - 68);
            assert(field_start(u, 2) == cpos(u, 1) + 1 == pos2 - 68);
            assert(field_end(u, 2) == cpos(u, 2) == find_comma(u, pos2 - 68));
            assert(field(u, 2) == field_at(u, pos2 - 68, false));
        }
        let (neg2, big2, v2, pos3) = match scan_field(s, pos2, true, false) {
            FieldScan::Bad => {
                proof {
                    assert(!tail_matches(u));
                }
                return Err(ParseError::MalformedRecord);
            },
            FieldScan::Found { neg, big, val, next } => { (neg, big, val, next) },
        };
        // Field 3: upper bound.
        proof {
            lemma_find_comma_props(u, pos2 - 68);
            assert(field_start(u, 3) == cpos(u, 2) + 1 == pos3 - 68);
            assert(field_end(u, 3) == cpos(u, 3) == find_comma(u, pos3 - 68));
            assert(field(u, 3) == field_at(u, pos3 - 68, false));
        }
        let (neg3, big3, v3, pos4) = match scan_field(s, pos3, true, false) {
            FieldScan::Bad => {
                proof {
                    assert(!tail_matches(u));
                }
                return Err(ParseError::MalformedRecord);
            },
            FieldScan::Found { neg, big, val, next } => { (neg, big, val, next) },
        };
        // Field 4: node count, running to the end of the line.
        proof {
            lemma_find_comma_props(u, pos3 - 68);
            assert(field_start(u, 4) == cpos(u, 3) + 1 == pos4 - 68);
            assert(field_end(u, 4) == u.len());
            assert(field(u, 4) == field_at(u, pos4 - 68, true));
        }
        let (neg4, big4, v4) = match scan_field(s, pos4, true, true) {
            FieldScan::Bad => {
                proof {
                    assert(!tail_matches(u));
                }
                return Err(ParseError::MalformedRecord);
            },
            FieldScan::Found { neg, big, val, next } => { (neg, big, val) },
        };
        proof {
            // No comma stands in the last field, so the line has no fifth
            // comma and the whole grammar is matched.
            let q4 = pos4 as int - 68;
            let f4 = field_at(u, q4, true);
            assert forall|k: int| q4 <= k < u.len() implies u[k] != ',' by {
                if f4.len() > 0 && f4[0] == '-' {
                    if k > q4 {
                        assert(is_digit(f4.skip(1)[k - q4 - 1]));
                        assert(f4.skip(1)[k - q4 - 1] == u[k]);
                    }
                } else {
                    assert(is_digit(f4[k - q4]));
                    assert(f4[k - q4] == u[k]);
                }
            }
            lemma_find_comma_skip(u, q4, u.len() as int);
            assert(find_comma(u, cpos(u, 3) + 1) == u.len());
            assert(tail_matches(u));
            assert(line_matches(t));
            lemma_dec_val_nonneg(field(u, 0));
            lemma_dec_val_nonneg(field(u, 1));
            assert(field(u, 0).len() > 0 && is_digit(field(u, 0)[0]));
            assert(signed_val(field(u, 0)) == dec_val(field(u, 0)));
            assert(field(u, 1).len() > 0 && is_digit(field(u, 1)[0]));
            assert(signed_val(field(u, 1)) == dec_val(field(u, 1)));
        }
        // Range checks, in field order.
        if big0 || v0 > 255 {
            return Err(ParseError::NumericOverflow);
        }
        if big1 || v1 > 255 {
            return Err(ParseError::NumericOverflow);
        }
        if big2 || (neg2 && v2 > 128) || (!neg2 && v2 > 127) {
            return Err(ParseError::NumericOverflow);
        }
        if big3 || (neg3 && v3 > 128) || (!neg3 && v3 > 127) {
            return Err(ParseError::NumericOverflow);
        }
        if big4 || (neg4 && v4 > 0x8000_0000_0000_0000u64) || (!neg4 && v4
            > 0x7FFF_FFFF_FFFF_FFFFu64) {
            return Err(ParseError::NumericOverflow);
        }
        let bound0: i8 = if neg2 {
            if v2 == 128 {
                -128i8
            } else {
                -(v2 as i8)
            }
        } else {
            v2 as i8
        };
        let bound1: i8 = if neg3 {
            if v3 == 128 {
                -128i8
            } else {
                -(v3 as i8)
            }
        } else {
            v3 as i8
        };
        let nodes: i64 = if neg4 {
            if v4 == 0x8000_0000_0000_0000u64 {
                i64::MIN
            } else {
                -(v4 as i64)
            }
        } else {
            v4 as i64
        };
        Ok(
            OthelloAnalysis {
                board: [board0, board1],
                settings: [v0 as u8, v1 as u8],
                bounds: [bound0, bound1],
                nodes,
            },
        )
    }
}

} // verus!
