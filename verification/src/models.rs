//! Batch-insert plumbing shared by the persisted-row types: how many
//! columns a row has, and the `($1, $2), ($3, $4)` placeholder lists the
//! batched insert statements are built from.

use vstd::prelude::*;

use crate::types::{ExecutionOutcome, Receipt, Transaction};

verus! {

/// The number of columns a persisted row type carries.
pub trait FieldCount {
    /// Get the number of fields on a struct.
    fn field_count() -> usize;
}

impl FieldCount for Transaction {
    fn field_count() -> usize {
        4
    }
}

impl FieldCount for Receipt {
    fn field_count() -> usize {
        4
    }
}

impl FieldCount for ExecutionOutcome {
    fn field_count() -> usize {
        2
    }
}

/// Why a placeholder list could not be built.
#[derive(Debug)]
pub enum PlaceholderError {
    /// At least one item is expected.
    NoItems,
    /// At least one field is expected.
    NoFields,
}

/// The decimal digit characters.
pub open spec fn digit_char(d: nat) -> char {
    if d == 0 {
        '0'
    } else if d == 1 {
        '1'
    } else if d == 2 {
        '2'
    } else if d == 3 {
        '3'
    } else if d == 4 {
        '4'
    } else if d == 5 {
        '5'
    } else if d == 6 {
        '6'
    } else if d == 7 {
        '7'
    } else if d == 8 {
        '8'
    } else {
        '9'
    }
}

/// The decimal rendering of a number, most significant digit first.
pub open spec fn dec_digits(n: nat) -> Seq<char>
    decreases n,
{
    if n < 10 {
        seq![digit_char(n)]
    } else {
        dec_digits(n / 10).push(digit_char(n % 10))
    }
}

/// A numbered placeholder: a dollar sign followed by the number.
pub open spec fn dollar_num(n: nat) -> Seq<char> {
    seq!['$'] + dec_digits(n)
}

/// The `, $k` continuations of one placeholder group: the placeholders
/// `start + 1` up to `start + count`.
pub open spec fn placeholder_tail(start: nat, count: nat) -> Seq<char>
    decreases count,
{
    if count == 0 {
        Seq::empty()
    } else {
        placeholder_tail(start, (count - 1) as nat) + seq![',', ' '] + dollar_num(start + count)
    }
}

/// One placeholder group `($s, $s+1, ..., $s+fields-1)`.
pub open spec fn spec_placeholder(start: nat, fields: nat) -> Seq<char> {
    seq!['('] + dollar_num(start) + placeholder_tail(start, (fields - 1) as nat) + seq![')']
}

/// The placeholder groups of a whole batch insert, numbered from one:
/// `($1, ..., $f), ($f+1, ..., $2f), ...`.
pub open spec fn spec_placeholders(items: nat, fields: nat) -> Seq<char>
    decreases items,
{
    if items <= 1 {
        spec_placeholder(1, fields)
    } else {
        spec_placeholders((items - 1) as nat, fields) + seq![',', ' '] + spec_placeholder(
            (((items - 1) * fields + 1)) as nat,
            fields,
        )
    }
}

/// One decimal digit as a string.
fn digit_string(d: usize) -> (r: String)
    requires
        d < 10,
    ensures
        r@ == seq![digit_char(d as nat)],
{
    let s = if d == 0 {
        String::from_str("0")
    } else if d == 1 {
        String::from_str("1")
    } else if d == 2 {
        String::from_str("2")
    } else if d == 3 {
        String::from_str("3")
    } else if d == 4 {
        String::from_str("4")
    } else if d == 5 {
        String::from_str("5")
    } else if d == 6 {
        String::from_str("6")
    } else if d == 7 {
        String::from_str("7")
    } else if d == 8 {
        String::from_str("8")
    } else {
        String::from_str("9")
    };
    proof {
        reveal_strlit("0");
        reveal_strlit("1");
        reveal_strlit("2");
        reveal_strlit("3");
        reveal_strlit("4");
        reveal_strlit("5");
        reveal_strlit("6");
        reveal_strlit("7");
        reveal_strlit("8");
        reveal_strlit("9");
        assert(s@ =~= seq![digit_char(d as nat)]);
    }
    s
}

/// The decimal rendering of `n`.
fn usize_to_string(n: usize) -> (r: String)
    ensures
        r@ == dec_digits(n as nat),
    decreases n,
{
    if n < 10 {
        digit_string(n)
    } else {
        let mut s = usize_to_string(n / 10);
        let last = digit_string(n % 10);
        s.append(last.as_str());
        proof {
            assert(s@ =~= dec_digits((n / 10) as nat).push(digit_char((n % 10) as nat)));
        }
        s
    }
}

/// A dollar sign followed by the number.
fn dollar_num_string(n: usize) -> (r: String)
    ensures
        r@ == dollar_num(n as nat),
{
    let mut s = String::from_str("$");
    let num = usize_to_string(n);
    s.append(num.as_str());
    proof {
        reveal_strlit("$");
        assert(s@ =~= dollar_num(n as nat));
    }
    s
}

/// Generates one placeholder group, `($1, $2, $3)`: the placeholders
/// `*start_num` up to `*start_num + fields_count - 1`, advancing
/// `*start_num` past them.  At least one field is expected.
pub fn create_placeholder(start_num: &mut usize, fields_count: usize) -> (r: Result<
    String,
    PlaceholderError,
>)
    requires
        *old(start_num) + fields_count <= usize::MAX,
    ensures
        (r is Err) == (fields_count < 1),
        (match r {
            Err(e) => e is NoFields && *final(start_num) == *old(start_num),
            Ok(s) => {
                &&& s@ == spec_placeholder(*old(start_num) as nat, fields_count as nat)
                &&& *final(start_num) == *old(start_num) + fields_count
            },
        }),
{
    if fields_count < 1 {
        return Err(PlaceholderError::NoFields);
    }
    let start: usize = *start_num;
    let mut item = String::from_str("(");
    let first = dollar_num_string(start);
    item.append(first.as_str());
    proof {
        reveal_strlit("(");
        assert(item@ =~= seq!['('] + dollar_num(start as nat) + placeholder_tail(
            start as nat,
            0,
        ));
    }
    let mut offset: usize = 1;
    while offset < fields_count
        invariant
            1 <= offset <= fields_count,
            start + fields_count <= usize::MAX,
            item@ == seq!['('] + dollar_num(start as nat) + placeholder_tail(
                start as nat,
                (offset - 1) as nat,
            ),
        decreases fields_count - offset,
    {
        let sep = String::from_str(", ");
        item.append(sep.as_str());
        let num = dollar_num_string(start + offset);
        item.append(num.as_str());
        proof {
            reveal_strlit(", ");
            assert(item@ =~= seq!['('] + dollar_num(start as nat) + placeholder_tail(
                start as nat,
                offset as nat,
            ));
        }
        offset = offset + 1;
    }
    let close = String::from_str(")");
    item.append(close.as_str());
    proof {
        reveal_strlit(")");
        assert(item@ =~= spec_placeholder(start as nat, fields_count as nat));
    }
    *start_num = start + fields_count;
    Ok(item)
}

/// Generates the placeholder groups of a whole batch insert,
/// `($1, $2), ($3, $4)`: `items_count` groups of `fields_count`
/// placeholders each, numbered from one.  At least one item and one field
/// are expected.
pub fn create_placeholders(items_count: usize, fields_count: usize) -> (r: Result<
    String,
    PlaceholderError,
>)
    requires
        items_count * fields_count + 1 <= usize::MAX,
    ensures
        (r is Err) == (items_count < 1 || fields_count < 1),
        (match r {
            Err(e) => (if items_count < 1 {
                e is NoItems
            } else {
                e is NoFields
            }),
            Ok(s) => s@ == spec_placeholders(items_count as nat, fields_count as nat),
        }),
{
    if items_count < 1 {
        return Err(PlaceholderError::NoItems);
    }
    let mut start_num: usize = 1;
    proof {
        assert(1 * fields_count == fields_count) by (nonlinear_arith);
        assert(fields_count <= items_count * fields_count) by (nonlinear_arith)
            requires
                1 <= items_count,
        ;
    }
    let mut res = match create_placeholder(&mut start_num, fields_count) {
        Ok(s) => s,
        Err(e) => {
            return Err(e);
        },
    };
    let mut done: usize = 1;
    while done < items_count
        invariant
            1 <= fields_count,
            1 <= done <= items_count,
            items_count * fields_count + 1 <= usize::MAX,
            start_num == done * fields_count + 1,
            res@ == spec_placeholders(done as nat, fields_count as nat),
        decreases items_count - done,
    {
        proof {
            assert((done + 1) * fields_count == done * fields_count + fields_count)
                by (nonlinear_arith);
            assert((done + 1) * fields_count <= items_count * fields_count) by (nonlinear_arith)
                requires
                    done + 1 <= items_count,
                    1 <= fields_count,
            ;
        }
        let sep = String::from_str(", ");
        res.append(sep.as_str());
        let next = match create_placeholder(&mut start_num, fields_count) {
            Ok(s) => s,
            Err(e) => {
                return Err(e);
            },
        };
        res.append(next.as_str());
        done = done + 1;
        proof {
            reveal_strlit(", ");
            assert(res@ =~= spec_placeholders(done as nat, fields_count as nat));
        }
    }
    Ok(res)
}

} // verus!
