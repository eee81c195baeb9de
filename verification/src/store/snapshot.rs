use vstd::prelude::*;

use crate::store::log::LogId;

verus! {

/// A snapshot of the state machine: its metadata (of type `Meta`) and the
/// serialized state.
#[derive(Debug)]
pub struct Snapshot<Meta> {
    pub meta: Meta,
    pub data: Vec<u8>,
}

/// The character of a decimal digit.
pub open spec fn digit_char(d: nat) -> char {
    if d == 0 {
        '0'
    } else if d == 1 {
        '1'
    } else if d == 2 {
        '2'
    } else if d == 3 {
        '3'
    } else if d == 4 {
        '4'
    } else if d == 5 {
        '5'
    } else if d == 6 {
        '6'
    } else if d == 7 {
        '7'
    } else if d == 8 {
        '8'
    } else {
        '9'
    }
}

/// The decimal writing of `n`, without leading zeros.
pub open spec fn decimal(n: nat) -> Seq<char>
    decreases n,
{
    if n < 10 {
        seq![digit_char(n)]
    } else {
        decimal(n / 10).push(digit_char(n % 10))
    }
}

fn digit_str(d: u64) -> (res: &'static str)
    requires
        d < 10,
    ensures
        res@ == seq![digit_char(d as nat)],
{
    proof {
        reveal_strlit("0");
        reveal_strlit("1");
        reveal_strlit("2");
        reveal_strlit("3");
        reveal_strlit("4");
        reveal_strlit("5");
        reveal_strlit("6");
        reveal_strlit("7");
        reveal_strlit("8");
        reveal_strlit("9");
    }
    if d == 0 {
        "0"
    } else if d == 1 {
        "1"
    } else if d == 2 {
        "2"
    } else if d == 3 {
        "3"
    } else if d == 4 {
        "4"
    } else if d == 5 {
        "5"
    } else if d == 6 {
        "6"
    } else if d == 7 {
        "7"
    } else if d == 8 {
        "8"
    } else {
        "9"
    }
}

/// Appends the decimal writing of `n` to `out`.
pub fn push_decimal(out: &mut String, n: u64)
    ensures
        final(out)@ == old(out)@ + decimal(n as nat),
    decreases n,
{
    if n < 10 {
        out.append(digit_str(n));
    } else {
        push_decimal(out, n / 10);
        out.append(digit_str(n % 10));
        assert(decimal(n as nat) == decimal((n / 10) as nat).push(digit_char((n % 10) as nat)));
    }
}

/// The identifier of the `idx`-th snapshot built by a node: the leader term,
/// leader node and index of the last applied entry, and `idx`, joined by
/// `-`; the first three are empty when no entry was applied.
pub open spec fn spec_snapshot_id(last: Option<LogId>, idx: u64) -> Seq<char> {
    match last {
        Some(id) => decimal(id.term as nat) + seq!['-'] + decimal(id.node_id as nat) + seq!['-']
            + decimal(id.index as nat) + seq!['-'] + decimal(idx as nat),
        None => seq!['-', '-'] + decimal(idx as nat),
    }
}

/// The identifier of the `idx`-th snapshot built by a node.
pub fn snapshot_id(last: Option<LogId>, idx: u64) -> (res: String)
    ensures
        res@ == spec_snapshot_id(last, idx),
{
    proof {
        reveal_strlit("-");
        reveal_strlit("--");
    }
    let mut out = String::new();
    match last {
        Some(id) => {
            push_decimal(&mut out, id.term);
            out.append("-");
            push_decimal(&mut out, id.node_id);
            out.append("-");
            push_decimal(&mut out, id.index);
            out.append("-");
            push_decimal(&mut out, idx);
        },
        None => {
            out.append("--");
            push_decimal(&mut out, idx);
        },
    }
    assert(out@ =~= spec_snapshot_id(last, idx));
    out
}

} // verus!
