//! Decimal renderings of integers, and small operations on text.
use vstd::prelude::*;
use vstd::string::*;

verus! {

/// The character of a decimal digit.
pub open spec fn digit_char(d: int) -> char {
    seq!['0', '1', '2', '3', '4', '5', '6', '7', '8', '9'][d]
}

/// The decimal digits of a natural number, most significant first, without
/// leading zeros (zero itself is `"0"`).
pub open spec fn nat_text(n: nat) -> Seq<char>
    decreases n,
{
    if n < 10 {
        seq![digit_char(n as int)]
    } else {
        nat_text(n / 10).push(digit_char((n % 10) as int))
    }
}

/// The decimal rendering of a signed integer: a minus sign before the digits
/// of a negative number.
pub open spec fn int_text(i: int) -> Seq<char> {
    if i < 0 {
        seq!['-'] + nat_text((-i) as nat)
    } else {
        nat_text(i as nat)
    }
}

fn digit_str(d: u64) -> (r: &'static str)
    requires
        d < 10,
    ensures
        r@ == seq![digit_char(d as int)],
{
    let digits = "0123456789";
    proof {
        reveal_strlit("0123456789");
    }
    let r = digits.substring_char(d as usize, d as usize + 1);
    assert(r@ =~= seq![digit_char(d as int)]);
    r
}

/// Renders an unsigned integer in decimal.
pub fn u64_text(n: u64) -> (r: String)
    ensures
        r@ == nat_text(n as nat),
    decreases n,
{
    if n < 10 {
        String::from_str(digit_str(n))
    } else {
        let mut s = u64_text(n / 10);
        s.append(digit_str(n % 10));
        s
    }
}

/// Renders a signed integer in decimal.
pub fn i64_text(n: i64) -> (r: String)
    ensures
        r@ == int_text(n as int),
{
    if n < 0 {
        let magnitude: u64 = (0i128 - n as i128) as u64;
        let digits = u64_text(magnitude);
        let mut s = String::from_str("-");
        proof {
            reveal_strlit("-");
        }
        s.append(digits.as_str());
        s
    } else {
        u64_text(n as u64)
    }
}

/// The views of a sequence of strings.
pub open spec fn views(v: Seq<String>) -> Seq<Seq<char>> {
    v.map_values(|s: String| s@)
}

/// Each item followed by a line break, in order.
pub open spec fn lines_of(items: Seq<Seq<char>>) -> Seq<char>
    decreases items.len(),
{
    if items.len() == 0 {
        Seq::empty()
    } else {
        lines_of(items.drop_last()) + items.last() + seq!['\n']
    }
}

/// Writes each item on a line of its own.
pub fn join_lines(items: &Vec<String>) -> (r: String)
    ensures
        r@ == lines_of(views(items@)),
{
    let newline = "\n";
    proof {
        reveal_strlit("\n");
    }
    let mut r = String::new();
    let mut i: usize = 0;
    while i < items.len()
        invariant
            i <= items@.len(),
            newline@ == seq!['\n'],
            r@ == lines_of(views(items@.subrange(0, i as int))),
        decreases items@.len() - i,
    {
        let ghost before = r@;
        r.append(items[i].as_str());
        r.append(newline);
        proof {
            let done = views(items@.subrange(0, i + 1));
            assert(done.drop_last() =~= views(items@.subrange(0, i as int)));
            assert(done.last() == items@[i as int]@);
            assert(r@ =~= lines_of(done));
        }
        i = i + 1;
    }
    assert(items@.subrange(0, items@.len() as int) =~= items@);
    r
}

} // verus!
