//! Column types, and the canonical text of a cell.
use vstd::prelude::*;
use vstd::string::*;
use crate::text::{digit_char, int_text, nat_text, i64_text, u64_text};

verus! {

/// The declared type of a column, as far as its rendering depends on it.
#[derive(Clone, Copy, Debug, PartialEq, Eq, Structural)]
pub enum ColumnType {
    Decimal,
    SmallInt,
    Int,
    UnsignedInt,
    Text,
}

/// The column type that a type name of the source stands for. Names that are
/// not listed are text.
pub open spec fn column_type_of_tag(tag: Seq<char>) -> ColumnType {
    if tag == "DECIMAL"@ {
        ColumnType::Decimal
    } else if tag == "SMALLINT"@ || tag == "TINYINT"@ {
        ColumnType::SmallInt
    } else if tag == "INT"@ {
        ColumnType::Int
    } else if tag == "INT UNSIGNED"@ {
        ColumnType::UnsignedInt
    } else {
        ColumnType::Text
    }
}

/// Maps the type name that the source reports for a column to its type.
pub fn column_type_of(tag: &str) -> (r: ColumnType)
    ensures
        r == column_type_of_tag(tag@),
{
    let t = tag.to_owned();
    if t == String::from_str("DECIMAL") {
        ColumnType::Decimal
    } else if t == String::from_str("SMALLINT") || t == String::from_str("TINYINT") {
        ColumnType::SmallInt
    } else if t == String::from_str("INT") {
        ColumnType::Int
    } else if t == String::from_str("INT UNSIGNED") {
        ColumnType::UnsignedInt
    } else {
        ColumnType::Text
    }
}

/// The largest magnitude of a decimal mantissa: 96 bits.
pub const MAX_DECIMAL_MANTISSA: i128 = 79228162514264337593543950335;

/// The largest number of digits after the decimal point.
pub const MAX_DECIMAL_SCALE: u32 = 28;

/// A value read from a cell: a fixed-point decimal as its mantissa and its
/// number of fractional digits, a signed or unsigned integer, or text.
#[derive(Debug)]
pub enum CellValue {
    Decimal { mantissa: i128, scale: u32 },
    Signed(i64),
    Unsigned(u64),
    Text(String),
}

impl CellValue {
    /// A decimal fits the 96-bit mantissa and the scale of at most 28 digits.
    pub open spec fn wf(&self) -> bool {
        match self {
            CellValue::Decimal { mantissa, scale } => -MAX_DECIMAL_MANTISSA <= *mantissa
                <= MAX_DECIMAL_MANTISSA && *scale <= MAX_DECIMAL_SCALE,
            _ => true,
        }
    }
}

/// `n` zeros.
pub open spec fn zeros(n: nat) -> Seq<char> {
    Seq::new(n, |i: int| '0')
}

/// The digits of a mantissa's magnitude, padded with zeros on the left to at
/// least `scale` digits; zero has no digits of its own.
pub open spec fn padded_digits(m: nat, scale: nat) -> Seq<char> {
    let d = if m == 0 {
        Seq::<char>::empty()
    } else {
        nat_text(m)
    };
    if d.len() < scale {
        zeros((scale - d.len()) as nat) + d
    } else {
        d
    }
}

/// The full-precision text of the decimal `m / 10^scale`: no exponent, every
/// one of the `scale` fractional digits written, a `0` before a point with
/// no whole digits, and a minus sign before a negative value.
pub open spec fn decimal_text(m: int, scale: nat) -> Seq<char> {
    let magnitude = if m < 0 {
        -m
    } else {
        m
    };
    let d = padded_digits(magnitude as nat, scale);
    let whole = d.subrange(0, d.len() - scale);
    let body = if scale == 0 {
        if d.len() == 0 {
            seq!['0']
        } else {
            d
        }
    } else {
        (if whole.len() == 0 {
            seq!['0']
        } else {
            whole
        }) + seq!['.'] + d.subrange(d.len() - scale, d.len() as int)
    };
    if m < 0 {
        seq!['-'] + body
    } else {
        body
    }
}

/// Relies on rust_decimal's `Decimal::try_from_i128_with_scale`, which refuses
/// a scale over 28 and a mantissa beyond 96 bits, and on its `Display`, which
/// writes the mantissa's digits with the point `scale` digits from the right.
#[verifier::external_body]
fn render_decimal(mantissa: i128, scale: u32) -> (r: Option<String>)
    ensures
        r.is_some() <==> (-MAX_DECIMAL_MANTISSA <= mantissa <= MAX_DECIMAL_MANTISSA && scale
            <= MAX_DECIMAL_SCALE),
        r matches Some(t) ==> t@ == decimal_text(mantissa as int, scale as nat),
{
    match rust_decimal::Decimal::try_from_i128_with_scale(mantissa, scale) {
        Ok(d) => Some(d.to_string()),
        Err(_) => None,
    }
}

/// Holds of every character but `c`.
pub open spec fn other_than(c: char) -> spec_fn(char) -> bool {
    |y: char| y != c
}

/// `s` without any occurrence of `c`.
pub open spec fn without_char(s: Seq<char>, c: char) -> Seq<char> {
    s.filter(other_than(c))
}

/// Removes every occurrence of `c` from `s`.
pub fn remove_char(s: &str, c: char) -> (r: String)
    ensures
        r@ == without_char(s@, c),
{
    let len = s.unicode_len();
    let mut r = String::new();
    let mut i: usize = 0;
    while i < len
        invariant
            len == s@.len(),
            i <= len,
            r@ == without_char(s@.subrange(0, i as int), c),
        decreases len - i,
    {
        let x = s.get_char(i);
        proof {
            assert(s@.subrange(0, i + 1) =~= s@.subrange(0, i as int).push(x));
            s@.subrange(0, i as int).lemma_filter_push(x, other_than(c));
        }
        if x != c {
            let piece = s.substring_char(i, i + 1);
            assert(piece@ =~= seq![x]);
            let ghost before = r@;
            r.append(piece);
            assert(r@ =~= before.push(x));
        }
        i = i + 1;
    }
    assert(s@.subrange(0, len as int) =~= s@);
    r
}

/// The canonical text of a cell. A text cell of a column that is sanitized
/// loses every occurrence of the delimiter.
pub open spec fn rendered_cell(cell: CellValue, sanitize: bool, delimiter: char) -> Seq<char> {
    match cell {
        CellValue::Decimal { mantissa, scale } => decimal_text(mantissa as int, scale as nat),
        CellValue::Signed(v) => int_text(v as int),
        CellValue::Unsigned(v) => nat_text(v as nat),
        CellValue::Text(s) => if sanitize {
            without_char(s@, delimiter)
        } else {
            s@
        },
    }
}

/// Renders one cell in its canonical text. `sanitize` marks the designated
/// column of the ledger table, whose text may not hold the delimiter.
pub fn render_cell(cell: &CellValue, sanitize: bool, delimiter: char) -> (r: String)
    requires
        cell.wf(),
    ensures
        r@ == rendered_cell(*cell, sanitize, delimiter),
{
    match cell {
        CellValue::Decimal { mantissa, scale } => {
            match render_decimal(*mantissa, *scale) {
                Some(t) => t,
                None => String::new(),
            }
        },
        CellValue::Signed(v) => i64_text(*v),
        CellValue::Unsigned(v) => u64_text(*v),
        CellValue::Text(s) => if sanitize {
            remove_char(s.as_str(), delimiter)
        } else {
            s.clone()
        },
    }
}

/// Whether a column is sanitized: a column is designated, this is it, and
/// the table being extracted is the ledger table.
pub open spec fn is_sanitized(designated: Option<String>, column: Seq<char>, is_ledger_table: bool) -> bool {
    is_ledger_table && (designated matches Some(d) && d@ == column)
}

/// Decides whether a column is sanitized.
pub fn sanitizes_column(designated: &Option<String>, column: &str, is_ledger_table: bool) -> (r: bool)
    ensures
        r == is_sanitized(*designated, column@, is_ledger_table),
{
    match designated {
        Some(d) => is_ledger_table && d.clone() == column.to_owned(),
        None => false,
    }
}

/// The value of a decimal digit character; outside `0..10` for any other
/// character.
pub open spec fn digit_value(c: char) -> int {
    c as int - '0' as int
}

/// The number written by a string of decimal digits, most significant first.
pub open spec fn digits_value(d: Seq<char>) -> int
    decreases d.len(),
{
    if d.len() == 0 {
        0
    } else {
        digits_value(d.drop_last()) * 10 + digit_value(d.last())
    }
}

/// The position of the first point of `s` at or after `i`, or the length of
/// `s` where there is none.
pub open spec fn point_position(s: Seq<char>, i: int) -> int
    decreases s.len() - i,
{
    if i >= s.len() {
        s.len() as int
    } else if s[i] == '.' {
        i
    } else {
        point_position(s, i + 1)
    }
}

/// Reads a decimal text, an optional minus sign, whole digits and, after an
/// optional point, fractional digits, as its mantissa and its number of
/// fractional digits.
pub open spec fn read_decimal(s: Seq<char>) -> (int, nat) {
    let negative = s.len() > 0 && s[0] == '-';
    let body = if negative {
        s.drop_first()
    } else {
        s
    };
    let p = point_position(body, 0);
    let whole = body.subrange(0, p);
    let fraction = if p < body.len() {
        body.subrange(p + 1, body.len() as int)
    } else {
        Seq::empty()
    };
    let magnitude = digits_value(whole + fraction);
    (
        if negative {
            -magnitude
        } else {
            magnitude
        },
        fraction.len(),
    )
}

/// Every character of `s` is a decimal digit.
pub open spec fn all_digits(s: Seq<char>) -> bool {
    forall|i: int| 0 <= i < s.len() ==> 0 <= #[trigger] digit_value(s[i]) < 10
}

proof fn lemma_digit_char(d: int)
    requires
        0 <= d < 10,
    ensures
        digit_value(digit_char(d)) == d,
{
    let digits = seq!['0', '1', '2', '3', '4', '5', '6', '7', '8', '9'];
    assert(digit_char(d) == digits[d]);
    if d == 0 {
        assert(digits[0] == '0');
    } else if d == 1 {
        assert(digits[1] == '1');
    } else if d == 2 {
        assert(digits[2] == '2');
    } else if d == 3 {
        assert(digits[3] == '3');
    } else if d == 4 {
        assert(digits[4] == '4');
    } else if d == 5 {
        assert(digits[5] == '5');
    } else if d == 6 {
        assert(digits[6] == '6');
    } else if d == 7 {
        assert(digits[7] == '7');
    } else if d == 8 {
        assert(digits[8] == '8');
    } else {
        assert(digits[9] == '9');
    }
}

pub(crate) proof fn lemma_nat_text_value(n: nat)
    ensures
        digits_value(nat_text(n)) == n,
        all_digits(nat_text(n)),
        nat_text(n).len() > 0,
    decreases n,
{
    if n < 10 {
        lemma_digit_char(n as int);
        assert(nat_text(n).drop_last() =~= Seq::<char>::empty());
        assert(digits_value(Seq::<char>::empty()) == 0);
        assert(digits_value(nat_text(n)) == digits_value(nat_text(n).drop_last()) * 10 + digit_value(
            nat_text(n).last(),
        ));
    } else {
        lemma_nat_text_value(n / 10);
        lemma_digit_char((n % 10) as int);
        assert(nat_text(n).drop_last() =~= nat_text(n / 10));
        assert(nat_text(n).last() == digit_char((n % 10) as int));
        assert(digits_value(nat_text(n)) == digits_value(nat_text(n / 10)) * 10 + digit_value(
            digit_char((n % 10) as int),
        ));
        assert((n / 10) * 10 + n % 10 == n) by (nonlinear_arith);
        assert forall|i: int| 0 <= i < nat_text(n).len() implies 0 <= #[trigger] digit_value(
            nat_text(n)[i],
        ) < 10 by {
            if i < nat_text(n / 10).len() {
                assert(nat_text(n)[i] == nat_text(n / 10)[i]);
            }
        }
    }
}

proof fn lemma_leading_zeros(k: nat, d: Seq<char>)
    ensures
        digits_value(zeros(k) + d) == digits_value(d),
    decreases d.len(), k,
{
    if d.len() == 0 {
        assert(zeros(k) + d =~= zeros(k));
        if k > 0 {
            lemma_leading_zeros((k - 1) as nat, d);
            assert(zeros(k).drop_last() =~= zeros((k - 1) as nat) + d);
        }
    } else {
        lemma_leading_zeros(k, d.drop_last());
        assert((zeros(k) + d).drop_last() =~= zeros(k) + d.drop_last());
    }
}

proof fn lemma_point_after_digits(s: Seq<char>, i: int, j: int)
    requires
        0 <= i <= j < s.len(),
        s[j] == '.',
        forall|k: int| i <= k < j ==> 0 <= #[trigger] digit_value(s[k]) < 10,
    ensures
        point_position(s, i) == j,
    decreases j - i,
{
    if i < j {
        assert(0 <= digit_value(s[i]) < 10);
        lemma_point_after_digits(s, i + 1, j);
    }
}

proof fn lemma_no_point(s: Seq<char>, i: int)
    requires
        0 <= i <= s.len(),
        forall|k: int| i <= k < s.len() ==> 0 <= #[trigger] digit_value(s[k]) < 10,
    ensures
        point_position(s, i) == s.len(),
    decreases s.len() - i,
{
    if i < s.len() {
        assert(0 <= digit_value(s[i]) < 10);
        lemma_no_point(s, i + 1);
    }
}

proof fn lemma_padded_digits(m: nat, scale: nat)
    ensures
        digits_value(padded_digits(m, scale)) == m,
        all_digits(padded_digits(m, scale)),
        padded_digits(m, scale).len() >= scale,
        m > 0 ==> padded_digits(m, scale).len() > 0,
{
    let d = if m == 0 {
        Seq::<char>::empty()
    } else {
        nat_text(m)
    };
    if m > 0 {
        lemma_nat_text_value(m);
    }
    if d.len() < scale {
        let k = (scale - d.len()) as nat;
        lemma_leading_zeros(k, d);
        assert forall|i: int| 0 <= i < (zeros(k) + d).len() implies 0 <= #[trigger] digit_value(
            (zeros(k) + d)[i],
        ) < 10 by {
            if i >= k {
                assert((zeros(k) + d)[i] == d[i - k]);
            }
        }
    }
}

/// The text of a decimal reads back as the same decimal: the same mantissa
/// and the same number of fractional digits, so no precision is lost.
pub proof fn law_decimal_text_reads_back(m: int, scale: nat)
    ensures
        read_decimal(decimal_text(m, scale)) == (m, scale),
{
    let magnitude = if m < 0 {
        -m
    } else {
        m
    };
    let d = padded_digits(magnitude as nat, scale);
    lemma_padded_digits(magnitude as nat, scale);
    let whole = d.subrange(0, d.len() - scale);
    let fraction = d.subrange(d.len() - scale, d.len() as int);
    let lead = if whole.len() == 0 {
        seq!['0']
    } else {
        whole
    };
    assert(digit_value('0') == 0);
    let body = if scale == 0 {
        if d.len() == 0 {
            seq!['0']
        } else {
            d
        }
    } else {
        lead + seq!['.'] + fraction
    };
    assert(all_digits(lead)) by {
        if whole.len() > 0 {
            assert forall|i: int| 0 <= i < whole.len() implies 0 <= #[trigger] digit_value(whole[i]) < 10 by {
                assert(whole[i] == d[i]);
            }
        }
    }
    assert(digits_value(lead + fraction) == magnitude) by {
        assert(whole + fraction =~= d);
        if whole.len() == 0 {
            lemma_leading_zeros(1, fraction);
            assert(lead =~= zeros(1));
            assert(fraction =~= d);
        }
    }
    if scale == 0 {
        lemma_no_point(body, 0);
        assert(body.subrange(0, body.len() as int) =~= body);
        assert(body + Seq::<char>::empty() =~= body);
        if d.len() == 0 {
            assert(body.drop_last() =~= Seq::<char>::empty());
        }
        assert(0 <= digit_value(body[0]) < 10);
    } else {
        assert(body[lead.len() as int] == '.');
        assert forall|k: int| 0 <= k < lead.len() implies 0 <= #[trigger] digit_value(body[k]) < 10 by {
            assert(body[k] == lead[k]);
        }
        lemma_point_after_digits(body, 0, lead.len() as int);
        assert(body.subrange(0, lead.len() as int) =~= lead);
        assert(body.subrange(lead.len() as int + 1, body.len() as int) =~= fraction);
        assert(body[0] == lead[0]);
        assert(0 <= digit_value(lead[0]) < 10);
    }
    assert(decimal_text(m, scale) == if m < 0 {
        seq!['-'] + body
    } else {
        body
    });
    if m < 0 {
        assert((seq!['-'] + body).drop_first() =~= body);
    }
}

} // verus!
