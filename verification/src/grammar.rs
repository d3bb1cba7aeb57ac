//! The textual record grammar: a 64-character board signature, the literal
//! marker ` X;,`, then five comma-separated decimal fields (two unsigned,
//! three signed).

use vstd::prelude::*;

verus! {

/// Characters allowed in a board signature.
pub open spec fn is_board_char(c: char) -> bool {
    c == '-' || c == 'O' || c == 'X'
}

/// Decimal digit characters.
pub open spec fn is_digit(c: char) -> bool {
    48 <= c as u32 <= 57
}

/// Numeric value of a decimal digit character.
pub open spec fn digit_val(c: char) -> int {
    c as u32 - 48
}

/// A non-empty run of decimal digits.
pub open spec fn is_digits(v: Seq<char>) -> bool {
    v.len() > 0 && (forall|i: int| 0 <= i < v.len() ==> is_digit(v[i]))
}

/// A non-empty run of decimal digits, optionally preceded by one minus sign.
pub open spec fn is_signed_digits(v: Seq<char>) -> bool {
    if v.len() > 0 && v[0] == '-' {
        is_digits(v.skip(1))
    } else {
        is_digits(v)
    }
}

/// Value of a digit run read as a decimal numeral.
pub open spec fn dec_val(v: Seq<char>) -> int
    decreases v.len(),
{
    if v.len() == 0 {
        0
    } else {
        dec_val(v.drop_last()) * 10 + digit_val(v.last())
    }
}

/// Value of an optionally minus-signed decimal numeral.
pub open spec fn signed_val(v: Seq<char>) -> int {
    if v.len() > 0 && v[0] == '-' {
        -dec_val(v.skip(1))
    } else {
        dec_val(v)
    }
}

/// Index of the first comma at or after `from`, or the length when there is
/// none.
pub open spec fn find_comma(u: Seq<char>, from: int) -> int
    decreases u.len() - from,
{
    if from < 0 || from >= u.len() {
        u.len() as int
    } else if u[from] == ',' {
        from
    } else {
        find_comma(u, from + 1)
    }
}

/// Index of the comma that closes field `k` (the `k+1`-th comma) in a tail,
/// or the length when the commas run out.
pub open spec fn cpos(u: Seq<char>, k: int) -> int
    decreases k,
{
    if k <= 0 {
        find_comma(u, 0)
    } else {
        find_comma(u, cpos(u, k - 1) + 1)
    }
}

/// Where field `k` of a five-field tail starts.
pub open spec fn field_start(u: Seq<char>, k: int) -> int {
    if k <= 0 {
        0
    } else {
        cpos(u, k - 1) + 1
    }
}

/// Where field `k` of a five-field tail ends (exclusive).
pub open spec fn field_end(u: Seq<char>, k: int) -> int {
    if k >= 4 {
        u.len() as int
    } else {
        cpos(u, k)
    }
}

/// Field `k` of a five-field comma-separated tail.
pub open spec fn field(u: Seq<char>, k: int) -> Seq<char> {
    u.subrange(field_start(u, k), field_end(u, k))
}

/// The part after the marker: exactly five comma-separated fields, the first
/// two unsigned numerals, the last three optionally signed numerals.
pub open spec fn tail_matches(u: Seq<char>) -> bool {
    &&& cpos(u, 0) < u.len()
    &&& cpos(u, 1) < u.len()
    &&& cpos(u, 2) < u.len()
    &&& cpos(u, 3) < u.len()
    &&& find_comma(u, cpos(u, 3) + 1) == u.len()
    &&& is_digits(field(u, 0))
    &&& is_digits(field(u, 1))
    &&& is_signed_digits(field(u, 2))
    &&& is_signed_digits(field(u, 3))
    &&& is_signed_digits(field(u, 4))
}

/// The whole record line: 64 board-signature characters, the literal marker
/// ` X;,`, then the five numeric fields.
pub open spec fn line_matches(t: Seq<char>) -> bool {
    &&& t.len() >= 68
    &&& (forall|i: int| 0 <= i < 64 ==> is_board_char(t[i]))
    &&& t[64] == ' '
    &&& t[65] == 'X'
    &&& t[66] == ';'
    &&& t[67] == ','
    &&& tail_matches(t.skip(68))
}

/// A digit run's decimal value is never negative.
pub proof fn lemma_dec_val_nonneg(v: Seq<char>)
    requires
        forall|i: int| 0 <= i < v.len() ==> is_digit(v[i]),
    ensures
        dec_val(v) >= 0,
    decreases v.len(),
{
    if v.len() > 0 {
        lemma_dec_val_nonneg(v.drop_last());
    }
}

/// The first comma at or after `from` lies between `from` and the length,
/// sits on a comma when it is in range, and nothing before it is a comma.
pub proof fn lemma_find_comma_props(u: Seq<char>, from: int)
    requires
        0 <= from <= u.len(),
    ensures
        from <= find_comma(u, from) <= u.len(),
        find_comma(u, from) < u.len() ==> u[find_comma(u, from)] == ',',
        forall|i: int| from <= i < find_comma(u, from) ==> u[i] != ',',
    decreases u.len() - from,
{
    if from < u.len() && u[from] != ',' {
        lemma_find_comma_props(u, from + 1);
    }
}

/// Searching for a comma may start after any comma-free stretch.
pub proof fn lemma_find_comma_skip(u: Seq<char>, from: int, mid: int)
    requires
        0 <= from <= mid <= u.len(),
        forall|i: int| from <= i < mid ==> u[i] != ',',
    ensures
        find_comma(u, from) == find_comma(u, mid),
    decreases mid - from,
{
    if from < mid {
        lemma_find_comma_skip(u, from + 1, mid);
    }
}

/// Decides whether a character is a decimal digit.
pub fn is_digit_char(c: char) -> (r: bool)
    ensures
        r == is_digit(c),
{
    let u = c as u32;
    48 <= u && u <= 57
}

/// Index of the first non-digit character at or after `start`, or the length
/// when digits run to the end.
pub fn scan_digits(s: &str, start: usize) -> (end: usize)
    requires
        start <= s@.len(),
    ensures
        start <= end <= s@.len(),
        forall|i: int| start <= i < end ==> is_digit(s@[i]),
        end < s@.len() ==> !is_digit(s@[end as int]),
{
    let n = s.unicode_len();
    let mut j = start;
    while j < n
        invariant
            start <= j <= n,
            n == s@.len(),
            forall|i: int| start <= i < j ==> is_digit(s@[i]),
        decreases n - j,
    {
        let c = s.get_char(j);
        if !is_digit_char(c) {
            return j;
        }
        j = j + 1;
    }
    j
}

/// Reads the digit run `s[start..end]` as a decimal number, reporting `None`
/// when its value exceeds what 64 bits hold.
pub fn parse_u64_digits(s: &str, start: usize, end: usize) -> (r: Option<u64>)
    requires
        start <= end <= s@.len(),
        forall|i: int| start <= i < end ==> is_digit(s@[i]),
    ensures
        match r {
            Some(v) => v == dec_val(s@.subrange(start as int, end as int)),
            None => dec_val(s@.subrange(start as int, end as int)) > u64::MAX,
        },
{
    let mut acc: u64 = 0;
    let mut over = false;
    let mut j = start;
    while j < end
        invariant
            start <= j <= end <= s@.len(),
            forall|i: int| start <= i < end ==> is_digit(s@[i]),
            !over ==> acc == dec_val(s@.subrange(start as int, j as int)),
            over ==> dec_val(s@.subrange(start as int, j as int)) > u64::MAX,
        decreases end - j,
    {
        let c = s.get_char(j);
        let u = c as u32;
        proof {
            assert(is_digit(s@[j as int]));
        }
        let d = (u - 48) as u64;
        proof {
            let prev = s@.subrange(start as int, j as int);
            let cur = s@.subrange(start as int, j as int + 1);
            assert(cur.drop_last() =~= prev);
            assert(cur.last() == s@[j as int]);
            assert(dec_val(cur) == dec_val(prev) * 10 + digit_val(s@[j as int]));
            lemma_dec_val_nonneg(prev);
        }
        if over {
            proof {
                let prev = s@.subrange(start as int, j as int);
                let dv = dec_val(prev);
                let dd = digit_val(s@[j as int]);
                assert(dv * 10 + dd > u64::MAX) by (nonlinear_arith)
                    requires
                        dv > u64::MAX,
                        dd >= 0,
                ;
            }
        } else if acc > (u64::MAX - d) / 10 {
            proof {
                let dd = digit_val(s@[j as int]);
                assert(acc * 10 + dd > u64::MAX) by (nonlinear_arith)
                    requires
                        acc > (u64::MAX - dd) / 10,
                        0 <= dd <= 9,
                ;
            }
            over = true;
        } else {
            proof {
                let dd = digit_val(s@[j as int]);
                assert(acc * 10 + dd <= u64::MAX) by (nonlinear_arith)
                    requires
                        acc <= (u64::MAX - dd) / 10,
                        0 <= dd <= 9,
                ;
            }
            acc = acc * 10 + d;
        }
        j = j + 1;
    }
    if over {
        None
    } else {
        Some(acc)
    }
}

} // verus!
