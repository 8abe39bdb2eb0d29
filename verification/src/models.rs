//! The text of the statements by which rows are stored.

use crate::contracts::Contract;
use crate::text::{nat_text, push_nat_text, push_text, string_from_chars};
use vstd::prelude::*;

verus! {

/// Why a statement cannot be written.
#[derive(Debug, Clone, Copy, PartialEq, Eq, Structural)]
pub enum QueryError {
    /// A statement stores one row at least.
    NoItems,
    /// A row has one field at least.
    NoFields,
    /// The fields of all rows are more than can be numbered.
    TooManyFields,
}

/// `count` numbered parameters, the first with the number `start`: a
/// dollar sign and the number each, a comma and a blank between them.
pub open spec fn numbered(start: nat, count: nat) -> Seq<char>
    decreases count,
{
    if count == 0 {
        Seq::empty()
    } else if count == 1 {
        seq!['$'] + nat_text(start)
    } else {
        numbered(start, (count - 1) as nat) + seq![',', ' ', '$'] + nat_text(
            (start + count - 1) as nat,
        )
    }
}

/// The parameters of one row in round brackets.
pub open spec fn placeholder(start: nat, fields: nat) -> Seq<char> {
    seq!['('] + numbered(start, fields) + seq![')']
}

/// The parameters of `items` rows of `fields` fields each, numbered from
/// one through all rows, a comma and a blank between the rows.
pub open spec fn placeholders(items: nat, fields: nat) -> Seq<char>
    decreases items,
{
    if items == 0 {
        Seq::empty()
    } else if items == 1 {
        placeholder(1, fields)
    } else {
        placeholders((items - 1) as nat, fields) + seq![',', ' '] + placeholder(
            ((items - 1) * fields + 1) as nat,
            fields,
        )
    }
}

/// Appends the parameters of one row.
fn push_placeholder(out: &mut Vec<char>, start: usize, fields: usize)
    requires
        fields >= 1,
        start + fields <= usize::MAX,
    ensures
        final(out)@ == old(out)@ + placeholder(start as nat, fields as nat),
{
    let ghost before = out@;
    out.push('(');
    out.push('$');
    push_nat_text(start as u128, out);
    assert(out@ =~= before + seq!['('] + numbered(start as nat, 1));
    let mut k: usize = 1;
    while k < fields
        invariant
            1 <= k <= fields,
            start + fields <= usize::MAX,
            out@ == before + seq!['('] + numbered(start as nat, k as nat),
        decreases fields - k,
    {
        let ghost so_far = out@;
        out.push(',');
        out.push(' ');
        out.push('$');
        push_nat_text((start + k) as u128, out);
        assert(out@ =~= so_far + seq![',', ' ', '$'] + nat_text((start + k) as nat));
        assert(out@ =~= before + seq!['('] + numbered(start as nat, (k + 1) as nat));
        k = k + 1;
    }
    out.push(')');
    assert(out@ =~= before + placeholder(start as nat, fields as nat));
}

/// Writes the parameters of `items_count` rows of `fields_count` fields.
pub fn create_placeholders(items_count: usize, fields_count: usize) -> (out: Result<
    String,
    QueryError,
>)
    ensures
        match out {
            Ok(text) => items_count >= 1 && fields_count >= 1 && items_count * fields_count
                < usize::MAX && text@ == placeholders(items_count as nat, fields_count as nat),
            Err(QueryError::NoItems) => items_count < 1,
            Err(QueryError::NoFields) => items_count >= 1 && fields_count < 1,
            Err(QueryError::TooManyFields) => items_count >= 1 && fields_count >= 1 && items_count
                * fields_count >= usize::MAX,
        },
{
    if items_count < 1 {
        return Err(QueryError::NoItems);
    }
    if fields_count < 1 {
        return Err(QueryError::NoFields);
    }
    let most = (usize::MAX - 1) / items_count;
    proof {
        let m = (usize::MAX - 1) as int;
        let i = items_count as int;
        let f = fields_count as int;
        assert(f <= m / i <==> i * f <= m) by (nonlinear_arith)
            requires
                i >= 1,
                f >= 0,
                m >= 0,
        ;
    }
    if fields_count > most {
        return Err(QueryError::TooManyFields);
    }
    let mut chars: Vec<char> = Vec::new();
    push_placeholder(&mut chars, 1, fields_count);
    let mut done: usize = 1;
    let mut next: usize = 1 + fields_count;
    assert(1 * fields_count == fields_count);
    while done < items_count
        invariant
            1 <= done <= items_count,
            fields_count >= 1,
            items_count * fields_count < usize::MAX,
            next == done * fields_count + 1,
            chars@ == placeholders(done as nat, fields_count as nat),
        decreases items_count - done,
    {
        proof {
            assert((done + 1) * fields_count == done * fields_count + fields_count)
                by (nonlinear_arith);
            assert(items_count * fields_count >= (done + 1) * fields_count) by (nonlinear_arith)
                requires
                    items_count >= done + 1,
                    fields_count >= 0,
            ;
        }
        push_text(&mut chars, ", ");
        proof {
            reveal_strlit(", ");
            assert(", "@ =~= seq![',', ' ']);
        }
        push_placeholder(&mut chars, next, fields_count);
        done = done + 1;
        next = next + fields_count;
    }
    Ok(string_from_chars(&chars))
}

impl Contract {
    /// The number of fields of a row, the marker for storage among them.
    pub fn field_count() -> (count: usize)
        ensures
            count == 7,
    {
        7
    }

    /// What stands ahead of the parameters in the statement that stores
    /// contract rows.
    pub open spec fn insert_head() -> Seq<char> {
        "INSERT INTO contracts VALUES "@
    }

    /// What stands behind the parameters: a row that is there takes the new
    /// finding.
    pub open spec fn insert_tail() -> Seq<char> {
        " ON CONFLICT (contract_account_id) DO UPDATE SET  inconsistency_found_at_timestamp = excluded.inconsistency_found_at_timestamp,  inconsistency_found_at_block_height = excluded.inconsistency_found_at_block_height"@
    }

    /// Writes the statement that stores `items_count` contract rows. The
    /// marker for storage is no stored field.
    pub fn insert_query(items_count: usize) -> (out: Result<String, QueryError>)
        ensures
            match out {
                Ok(text) => items_count >= 1 && text@ == Self::insert_head() + placeholders(
                    items_count as nat,
                    6,
                ) + Self::insert_tail(),
                Err(QueryError::NoItems) => items_count < 1,
                Err(QueryError::NoFields) => false,
                Err(QueryError::TooManyFields) => items_count * 6 >= usize::MAX,
            },
    {
        match create_placeholders(items_count, Contract::field_count() - 1) {
            Ok(parameters) => {
                let mut chars: Vec<char> = Vec::new();
                push_text(&mut chars, "INSERT INTO contracts VALUES ");
                push_text(&mut chars, parameters.as_str());
                push_text(
                    &mut chars,
                    " ON CONFLICT (contract_account_id) DO UPDATE SET  inconsistency_found_at_timestamp = excluded.inconsistency_found_at_timestamp,  inconsistency_found_at_block_height = excluded.inconsistency_found_at_block_height",
                );
                Ok(string_from_chars(&chars))
            },
            Err(e) => Err(e),
        }
    }
}

} // verus!
