//! Narrowing of sizes and addresses, with the refusals that go with it.

use vstd::prelude::*;
use crate::error;
use crate::error::Error;
use crate::text;

verus! {

/// Why `value` is no 32-bit word, with the value in decimal.
pub open spec fn u32_refusal(value: int, name: Seq<char>) -> Option<error::Refusal> {
    if value > u32::MAX {
        Some(error::invalid(name + " does not fit in u32: "@ + text::dec(value)))
    } else {
        None
    }
}

/// Why `value` is no 16-bit word.
pub open spec fn u16_refusal(value: int, name: Seq<char>) -> Option<error::Refusal> {
    if value > u16::MAX {
        Some(error::invalid(name + " does not fit in u16: "@ + text::dec(value)))
    } else {
        None
    }
}

/// Why `value` is no 32-bit word, with the value in hexadecimal.
pub open spec fn u32_hex_refusal(value: int, name: Seq<char>) -> Option<error::Refusal> {
    if value > u32::MAX {
        Some(error::invalid(name + " does not fit in u32: 0x"@ + text::hex(value)))
    } else {
        None
    }
}

pub fn to_u32(value: usize, name: &str) -> (r: Result<u32, Error>)
    ensures
        match r {
            Ok(v) => v == value && u32_refusal(value as int, name@) is None,
            Err(e) => u32_refusal(value as int, name@) == Some(e@),
        },
{
    if value as u64 > 0xffff_ffff {
        Err(
            error::invalid_input(
                text::cat3(name, " does not fit in u32: ", text::decimal_usize(value).as_str()),
            ),
        )
    } else {
        Ok(value as u32)
    }
}

pub fn to_u16(value: usize, name: &str) -> (r: Result<u16, Error>)
    ensures
        match r {
            Ok(v) => v == value && u16_refusal(value as int, name@) is None,
            Err(e) => u16_refusal(value as int, name@) == Some(e@),
        },
{
    if value > 0xffff {
        Err(
            error::invalid_input(
                text::cat3(name, " does not fit in u16: ", text::decimal_usize(value).as_str()),
            ),
        )
    } else {
        Ok(value as u16)
    }
}

/// Narrows an address; the refusal shows it in decimal.
pub fn address_u32(value: u64, name: &str) -> (r: Result<u32, Error>)
    ensures
        match r {
            Ok(v) => v == value && u32_refusal(value as int, name@) is None,
            Err(e) => u32_refusal(value as int, name@) == Some(e@),
        },
{
    if value > 0xffff_ffff {
        Err(
            error::invalid_input(
                text::cat3(name, " does not fit in u32: ", text::decimal(value).as_str()),
            ),
        )
    } else {
        Ok(value as u32)
    }
}

/// Narrows an address; the refusal shows it in hexadecimal.
pub fn address_u32_hex(value: u64, name: &str) -> (r: Result<u32, Error>)
    ensures
        match r {
            Ok(v) => v == value && u32_hex_refusal(value as int, name@) is None,
            Err(e) => u32_hex_refusal(value as int, name@) == Some(e@),
        },
{
    if value > 0xffff_ffff {
        Err(
            error::invalid_input(
                text::cat3(name, " does not fit in u32: 0x", text::hexadecimal(value).as_str()),
            ),
        )
    } else {
        Ok(value as u32)
    }
}

/// Narrows a size; the refusal shows it in hexadecimal.
pub fn to_u32_hex(value: usize, name: &str) -> (r: Result<u32, Error>)
    ensures
        match r {
            Ok(v) => v == value && u32_hex_refusal(value as int, name@) is None,
            Err(e) => u32_hex_refusal(value as int, name@) == Some(e@),
        },
{
    address_u32_hex(value as u64, name)
}

/// Why value `i` of a list of named values is no 32-bit word.
pub open spec fn field_checks(values: Seq<usize>, names: Seq<&str>) -> spec_fn(int) -> Option<
    error::Refusal,
> {
    |i: int| u32_refusal(values[i] as int, names[i]@)
}

/// Why a list of named values is no list of 32-bit words.
pub open spec fn fields_refusal(values: Seq<usize>, names: Seq<&str>) -> Option<error::Refusal> {
    error::first_refusal(0, values.len() as int, field_checks(values, names))
}

/// The values as 32-bit words.
pub open spec fn field_words(values: Seq<usize>) -> Seq<u32> {
    values.map_values(|v: usize| v as u32)
}

/// Narrows named values, in order.
pub fn narrow_fields(values: &Vec<usize>, names: &Vec<&str>) -> (r: Result<Vec<u32>, Error>)
    requires
        values@.len() == names@.len(),
    ensures
        match r {
            Ok(words) => {
                &&& fields_refusal(values@, names@) is None
                &&& words@ == field_words(values@)
            },
            Err(e) => fields_refusal(values@, names@) == Some(e@),
        },
{
    let n: usize = values.len();
    let mut out: Vec<u32> = Vec::new();
    for i in 0..n
        invariant
            n == values@.len() == names@.len(),
            out@ == field_words(values@).take(i as int),
            forall|j: int| 0 <= j < i ==> #[trigger] field_checks(values@, names@)(j) is None,
    {
        proof {
            error::lemma_first_refusal_skip(
                0,
                i as int,
                n as int,
                field_checks(values@, names@),
            );
        }
        let word: u32 = to_u32(values[i], names[i])?;
        out.push(word);
        assert(out@ =~= field_words(values@).take(i + 1));
        assert(field_checks(values@, names@)(i as int) is None);
    }
    proof {
        error::lemma_first_refusal_none(0, n as int, field_checks(values@, names@));
    }
    assert(out@ =~= field_words(values@));
    Ok(out)
}

/// Values that fit keep their value.
pub proof fn lemma_narrowed(values: Seq<usize>, names: Seq<&str>)
    requires
        fields_refusal(values, names) is None,
    ensures
        forall|i: int| 0 <= i < values.len() ==> #[trigger] field_words(values)[i] == values[i],
{
    let checks = field_checks(values, names);
    error::lemma_first_refusal_none(0, values.len() as int, checks);
    assert forall|i: int| 0 <= i < values.len() implies #[trigger] field_words(values)[i]
        == values[i] by {
        assert(checks(i) is None);
    }
}

} // verus!
