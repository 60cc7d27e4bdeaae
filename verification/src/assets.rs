//! Names under which the processes of the fleet find each other and their
//! work items: the endpoint of the rendezvous directory and the files that
//! hold the serialized items.

use vstd::prelude::*;
use vstd::string::StringExecFns;

verus! {

/// The least number of digits in the number of an item's file.
pub const BATCH_NUMBER_WIDTH: usize = 6;

/// The character of the decimal digit `d`.
pub open spec fn digit(d: nat) -> char {
    if d == 0 {
        '0'
    } else if d == 1 {
        '1'
    } else if d == 2 {
        '2'
    } else if d == 3 {
        '3'
    } else if d == 4 {
        '4'
    } else if d == 5 {
        '5'
    } else if d == 6 {
        '6'
    } else if d == 7 {
        '7'
    } else if d == 8 {
        '8'
    } else {
        '9'
    }
}

/// The decimal numeral of `n`, without leading zeros.
pub open spec fn decimal(n: nat) -> Seq<char>
    decreases n,
{
    if n < 10 {
        seq![digit(n)]
    } else {
        decimal(n / 10).push(digit(n % 10))
    }
}

/// The decimal numeral of `n`, with zeros in front of it where it has fewer
/// than `width` digits.
pub open spec fn zero_padded(n: nat, width: nat) -> Seq<char> {
    if decimal(n).len() >= width {
        decimal(n)
    } else {
        Seq::new((width - decimal(n).len()) as nat, |i: int| '0') + decimal(n)
    }
}

/// The path of the file that holds the item with global index `index`.
pub open spec fn batch_file(index: nat) -> Seq<char> {
    "/home/ubuntu/assets/batches/"@ + zero_padded(index, BATCH_NUMBER_WIDTH as nat) + ".pod"@
}

/// The endpoint of the rendezvous directory on host `host`.
pub open spec fn endpoint_on(host: Seq<char>) -> Seq<char> {
    host + ":6000"@
}

/// The numeral that `digits` spells when read from its last entry to its
/// first.
spec fn spelled_backwards(digits: Seq<usize>) -> Seq<char> {
    Seq::new(digits.len(), |i: int| digit(digits[digits.len() - 1 - i] as nat))
}

/// The numeral of the part of a number that is still to be split into
/// digits: nothing once that part is zero.
spec fn numeral_left(rest: nat) -> Seq<char> {
    if rest == 0 {
        Seq::empty()
    } else {
        decimal(rest)
    }
}

proof fn lemma_split_last_digit(rest: nat, digits: Seq<usize>)
    requires
        rest > 0,
    ensures
        numeral_left(rest) + spelled_backwards(digits) == numeral_left(rest / 10)
            + spelled_backwards(digits.push((rest % 10) as usize)),
{
    let more = digits.push((rest % 10) as usize);
    assert(numeral_left(rest) =~= numeral_left(rest / 10).push(digit(rest % 10)));
    assert(spelled_backwards(more) =~= seq![digit(rest % 10)] + spelled_backwards(digits));
    assert(numeral_left(rest) + spelled_backwards(digits) =~= numeral_left(rest / 10)
        + spelled_backwards(more));
}

fn digit_text(d: usize) -> (text: &'static str)
    requires
        d < 10,
    ensures
        text@ == seq![digit(d as nat)],
{
    proof {
        reveal_strlit("0");
        reveal_strlit("1");
        reveal_strlit("2");
        reveal_strlit("3");
        reveal_strlit("4");
        reveal_strlit("5");
        reveal_strlit("6");
        reveal_strlit("7");
        reveal_strlit("8");
        reveal_strlit("9");
    }
    let text = if d == 0 {
        "0"
    } else if d == 1 {
        "1"
    } else if d == 2 {
        "2"
    } else if d == 3 {
        "3"
    } else if d == 4 {
        "4"
    } else if d == 5 {
        "5"
    } else if d == 6 {
        "6"
    } else if d == 7 {
        "7"
    } else if d == 8 {
        "8"
    } else {
        "9"
    };
    assert(text@ =~= seq![digit(d as nat)]);
    text
}

/// Writes `n` in decimal, with zeros in front where it has fewer than
/// `width` digits.
pub fn zero_padded_decimal(n: usize, width: usize) -> (text: String)
    ensures
        text@ == zero_padded(n as nat, width as nat),
{
    let mut digits: Vec<usize> = Vec::new();
    digits.push(n % 10);
    let mut rest: usize = n / 10;
    assert(decimal(n as nat) =~= numeral_left(rest as nat) + spelled_backwards(digits@));
    while rest > 0
        invariant
            decimal(n as nat) == numeral_left(rest as nat) + spelled_backwards(digits@),
            digits@.len() >= 1,
            forall|i: int| 0 <= i < digits@.len() ==> digits@[i] < 10,
        decreases rest,
    {
        proof {
            lemma_split_last_digit(rest as nat, digits@);
        }
        digits.push(rest % 10);
        rest = rest / 10;
    }
    assert(decimal(n as nat) =~= spelled_backwards(digits@));
    let mut text = String::new();
    let mut length: usize = digits.len();
    while length < width
        invariant
            digits@.len() <= length,
            length <= width || length == digits@.len(),
            text@ == Seq::new((length - digits@.len()) as nat, |i: int| '0'),
        decreases width - length,
    {
        proof {
            reveal_strlit("0");
        }
        text.append("0");
        length = length + 1;
        assert(text@ =~= Seq::new((length - digits@.len()) as nat, |i: int| '0'));
    }
    let ghost padding = text@;
    let mut left: usize = digits.len();
    while left > 0
        invariant
            left <= digits@.len(),
            forall|i: int| 0 <= i < digits@.len() ==> digits@[i] < 10,
            text@ == padding + spelled_backwards(digits@).subrange(0, digits@.len() - left),
        decreases left,
    {
        left = left - 1;
        text.append(digit_text(digits[left]));
        assert(text@ =~= padding + spelled_backwards(digits@).subrange(
            0,
            digits@.len() - left,
        ));
    }
    assert(text@ =~= padding + spelled_backwards(digits@));
    assert(text@ =~= zero_padded(n as nat, width as nat));
    text
}

/// The path of the file from which the item with global index `index` is
/// loaded: the directory of the batches, the index in at least six digits,
/// and the ending `.pod`.
pub fn batch_path(index: usize) -> (path: String)
    ensures
        path@ == batch_file(index as nat),
{
    let mut path = String::from_str("/home/ubuntu/assets/batches/");
    let number = zero_padded_decimal(index, BATCH_NUMBER_WIDTH);
    path.append(number.as_str());
    path.append(".pod");
    path
}

/// The endpoint at which the rendezvous directory on host `host` is reached:
/// the host, a colon and the directory's port.
pub fn rendezvous_endpoint(host: &str) -> (endpoint: String)
    ensures
        endpoint@ == endpoint_on(host@),
{
    let mut endpoint = String::from_str(host);
    endpoint.append(":6000");
    endpoint
}

} // verus!
