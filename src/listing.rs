//! The numbered listing that shows a note list or the notebooks.

use vstd::prelude::*;
use vstd::string::StringExecFns;

use crate::text::{push_char, views};

verus! {

/// The ASCII digit for `d`, which is below ten.
pub open spec fn digit_char(d: nat) -> char {
    if d == 0 {
        '0'
    } else if d == 1 {
        '1'
    } else if d == 2 {
        '2'
    } else if d == 3 {
        '3'
    } else if d == 4 {
        '4'
    } else if d == 5 {
        '5'
    } else if d == 6 {
        '6'
    } else if d == 7 {
        '7'
    } else if d == 8 {
        '8'
    } else {
        '9'
    }
}

/// The decimal digits of `n`, most significant first, without leading zeros.
pub open spec fn decimal(n: nat) -> Seq<char>
    decreases n,
{
    if n < 10 {
        seq![digit_char(n)]
    } else {
        decimal(n / 10).push(digit_char(n % 10))
    }
}

/// `s` with spaces in front to make it `width` characters long, or `s` alone
/// when it is that long already.
pub open spec fn right_aligned(s: Seq<char>, width: nat) -> Seq<char> {
    if s.len() >= width {
        s
    } else {
        Seq::new((width - s.len()) as nat, |i: int| ' ') + s
    }
}

/// The line that shows entry `text` at 1-based `number`, the number aligned
/// to `width` columns.
pub open spec fn listing_line(number: nat, width: nat, text: Seq<char>) -> Seq<char> {
    right_aligned(decimal(number), width) + seq![':', ' '] + text + seq!['\n']
}

/// The first `k` lines of the listing of `items`, numbered from 1, each
/// number aligned to the width of the largest.
pub open spec fn listing_prefix(items: Seq<Seq<char>>, k: nat) -> Seq<char>
    decreases k,
{
    if k == 0 {
        Seq::empty()
    } else {
        listing_prefix(items, (k - 1) as nat) + listing_line(
            k,
            decimal(items.len()).len(),
            items[k - 1],
        )
    }
}

/// The listing of `items`: one line each, numbered from 1, with every number
/// aligned to the width of the largest.
pub open spec fn listing(items: Seq<Seq<char>>) -> Seq<char> {
    listing_prefix(items, items.len())
}

fn digit(d: usize) -> (c: char)
    requires
        d < 10,
    ensures
        c == digit_char(d as nat),
{
    if d == 0 {
        '0'
    } else if d == 1 {
        '1'
    } else if d == 2 {
        '2'
    } else if d == 3 {
        '3'
    } else if d == 4 {
        '4'
    } else if d == 5 {
        '5'
    } else if d == 6 {
        '6'
    } else if d == 7 {
        '7'
    } else if d == 8 {
        '8'
    } else {
        '9'
    }
}

/// The decimal digits of `n`.
pub fn to_decimal(n: usize) -> (r: String)
    ensures
        r@ == decimal(n as nat),
    decreases n,
{
    if n < 10 {
        let mut r = String::new();
        push_char(&mut r, digit(n));
        assert(r@ =~= seq![digit_char(n as nat)]);
        r
    } else {
        let mut r = to_decimal(n / 10);
        push_char(&mut r, digit(n % 10));
        r
    }
}

/// Shows `items` one per line, numbered from 1, each number right-aligned to
/// the width of the largest, then a colon, a space and the item.
pub fn format_listing(items: &Vec<String>) -> (r: String)
    ensures
        r@ == listing(views(items@)),
{
    let ghost v = views(items@);
    let n = items.len();
    let width = to_decimal(n).as_str().unicode_len();
    let mut out = String::new();
    let mut k: usize = 0;
    while k < n
        invariant
            k <= n,
            n == items@.len(),
            v == views(items@),
            width == decimal(n as nat).len(),
            out@ == listing_prefix(v, k as nat),
        decreases n - k,
    {
        let number = to_decimal(k + 1);
        let digits = number.as_str().unicode_len();
        let ghost start = out@;
        let mut pad: usize = digits;
        while pad < width
            invariant
                digits <= pad <= width || (digits > width && pad == digits),
                out@ == start + Seq::new((pad - digits) as nat, |i: int| ' '),
            decreases width - pad,
        {
            push_char(&mut out, ' ');
            pad = pad + 1;
            assert(out@ =~= start + Seq::new((pad - digits) as nat, |i: int| ' '));
        }
        out.append(number.as_str());
        push_char(&mut out, ':');
        push_char(&mut out, ' ');
        out.append(items[k].as_str());
        push_char(&mut out, '\n');
        assert(v[k as int] == items@[k as int]@);
        assert(out@ =~= listing_prefix(v, (k + 1) as nat)) by {
            let line = listing_line((k + 1) as nat, width as nat, v[k as int]);
            assert(listing_prefix(v, (k + 1) as nat) == start + line);
            if digits >= width {
                assert(Seq::new((pad - digits) as nat, |i: int| ' ') =~= Seq::<char>::empty());
            }
        }
        k = k + 1;
    }
    out
}

} // verus!
