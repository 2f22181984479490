//! Message text.

use vstd::prelude::*;
use vstd::string::StringExecFns;

verus! {

/// A decimal digit.
pub open spec fn digit(d: nat) -> Seq<char> {
    seq![((48 + d) as u8) as char]
}

/// Decimal text of `n`, without leading zeros.
pub open spec fn decimal(n: nat) -> Seq<char>
    decreases n,
{
    if n < 10 { digit(n) } else { decimal(n / 10) + digit(n % 10) }
}

/// Decimal text of an integer, with a minus sign below zero.
pub open spec fn signed_decimal(n: int) -> Seq<char> {
    if n < 0 { "-"@ + decimal((-n) as nat) } else { decimal(n as nat) }
}

/// `items` separated by commas.
pub open spec fn listed(items: Seq<nat>) -> Seq<char>
    decreases items.len(),
{
    if items.len() == 0 {
        seq![]
    } else if items.len() == 1 {
        decimal(items[0])
    } else {
        listed(items.drop_last()) + ", "@ + decimal(items.last())
    }
}

/// `[a, b, c]`.
pub open spec fn bracketed(items: Seq<nat>) -> Seq<char> {
    "["@ + listed(items) + "]"@
}

pub open spec fn sizes(s: Seq<usize>) -> Seq<nat> {
    s.map_values(|n: usize| n as nat)
}

pub open spec fn byte_values(s: Seq<u8>) -> Seq<nat> {
    s.map_values(|n: u8| n as nat)
}

fn digit_text(d: u64) -> (r: &'static str)
    requires
        d < 10,
    ensures
        r@ == digit(d as nat),
{
    proof {
        reveal_strlit("0");
        reveal_strlit("1");
        reveal_strlit("2");
        reveal_strlit("3");
        reveal_strlit("4");
        reveal_strlit("5");
        reveal_strlit("6");
        reveal_strlit("7");
        reveal_strlit("8");
        reveal_strlit("9");
    }
    let r: &'static str = match d {
        0 => "0",
        1 => "1",
        2 => "2",
        3 => "3",
        4 => "4",
        5 => "5",
        6 => "6",
        7 => "7",
        8 => "8",
        _ => "9",
    };
    assert(r@ =~= digit(d as nat));
    r
}

pub fn decimal_text(n: u64) -> (r: String)
    ensures
        r@ == decimal(n as nat),
    decreases n,
{
    if n < 10 {
        return String::from_str(digit_text(n));
    }
    let mut s: String = decimal_text(n / 10);
    s.append(digit_text(n % 10));
    s
}

pub fn size_text(n: usize) -> (r: String)
    ensures
        r@ == decimal(n as nat),
{
    decimal_text(n as u64)
}

pub fn signed_text(n: i64) -> (r: String)
    ensures
        r@ == signed_decimal(n as int),
{
    if n >= 0 {
        return decimal_text(n as u64);
    }
    let m: u64 = ((-(n + 1)) as u64) + 1;
    let mut s: String = String::from_str("-");
    s.append(decimal_text(m).as_str());
    s
}

pub fn sizes_text(items: &[usize]) -> (r: String)
    ensures
        r@ == bracketed(sizes(items@)),
{
    let mut s: String = String::from_str("[");
    let ghost all = sizes(items@);
    let mut i: usize = 0;
    while i < items.len()
        invariant
            i <= items@.len(),
            all == sizes(items@),
            s@ == "["@ + listed(all.take(i as int)),
        decreases items@.len() - i,
    {
        if i > 0 {
            s.append(", ");
        }
        s.append(size_text(items[i]).as_str());
        proof {
            let longer = all.take(i + 1);
            assert(longer.drop_last() =~= all.take(i as int));
            if i == 0 {
                assert(all.take(0) =~= Seq::<nat>::empty());
                assert("["@ + listed(all.take(0)) =~= "["@);
                assert(s@ =~= "["@ + listed(longer));
            } else {
                assert(s@ =~= "["@ + listed(longer));
            }
        }
        i += 1;
    }
    assert(all.take(i as int) =~= all);
    s.append("]");
    s
}

pub fn bytes_text(items: &[u8]) -> (r: String)
    ensures
        r@ == bracketed(byte_values(items@)),
{
    let mut wide: Vec<usize> = Vec::new();
    let mut i: usize = 0;
    while i < items.len()
        invariant
            i <= items@.len(),
            wide@.len() == i,
            forall|j: int| 0 <= j < i ==> wide@[j] == items@[j],
        decreases items@.len() - i,
    {
        wide.push(items[i] as usize);
        i += 1;
    }
    assert(sizes(wide@) =~= byte_values(items@));
    sizes_text(wide.as_slice())
}

} // verus!
