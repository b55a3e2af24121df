//! How kernels are told the types of elements.

use vstd::prelude::*;
use crate::dram::DType;
use crate::kernels::argmax;
use crate::kernels::binary_eltwise;
use crate::kernels::common;
use crate::kernels::defines;
use crate::kernels::fused::kinds;
use crate::kernels::iota;
use crate::numbers::{NumberClass, NumberFormat};
use crate::text;

verus! {

/// What a format is called in the sources of kernels.
pub open spec fn called(f: NumberFormat) -> Seq<char> {
    match f.class {
        NumberClass::Float => if f.mantissa == 23 {
            "FLOAT32"@
        } else {
            "BFLOAT16"@
        },
        NumberClass::Signed => "INT32"@,
        _ => "UINT32"@,
    }
}

proof fn lemma_names()
    ensures
        "IOTA_DTYPE_INT32"@ == "IOTA_DTYPE_"@ + "INT32"@,
        "IOTA_DTYPE_UINT32"@ == "IOTA_DTYPE_"@ + "UINT32"@,
        "IOTA_DTYPE_FLOAT32"@ == "IOTA_DTYPE_"@ + "FLOAT32"@,
        "IOTA_DTYPE_BFLOAT16"@ == "IOTA_DTYPE_"@ + "BFLOAT16"@,
        "ARGMAX_DTYPE_FLOAT32"@ == "ARGMAX_DTYPE_"@ + "FLOAT32"@,
        "ARGMAX_DTYPE_BFLOAT16"@ == "ARGMAX_DTYPE_"@ + "BFLOAT16"@,
{
    reveal_strlit("IOTA_DTYPE_");
    reveal_strlit("ARGMAX_DTYPE_");
    reveal_strlit("INT32");
    reveal_strlit("UINT32");
    reveal_strlit("FLOAT32");
    reveal_strlit("BFLOAT16");
    reveal_strlit("IOTA_DTYPE_INT32");
    reveal_strlit("IOTA_DTYPE_UINT32");
    reveal_strlit("IOTA_DTYPE_FLOAT32");
    reveal_strlit("IOTA_DTYPE_BFLOAT16");
    reveal_strlit("ARGMAX_DTYPE_FLOAT32");
    reveal_strlit("ARGMAX_DTYPE_BFLOAT16");
    assert("IOTA_DTYPE_INT32"@ =~= "IOTA_DTYPE_"@ + "INT32"@);
    assert("IOTA_DTYPE_UINT32"@ =~= "IOTA_DTYPE_"@ + "UINT32"@);
    assert("IOTA_DTYPE_FLOAT32"@ =~= "IOTA_DTYPE_"@ + "FLOAT32"@);
    assert("IOTA_DTYPE_BFLOAT16"@ =~= "IOTA_DTYPE_"@ + "BFLOAT16"@);
    assert("ARGMAX_DTYPE_FLOAT32"@ =~= "ARGMAX_DTYPE_"@ + "FLOAT32"@);
    assert("ARGMAX_DTYPE_BFLOAT16"@ =~= "ARGMAX_DTYPE_"@ + "BFLOAT16"@);
}

/// The writer of a counting tensor is told of each type that it knows whether it writes it: just
/// the one of the tensor is set.
pub proof fn lemma_iota_type(d: DType, e: DType)
    requires
        iota::counts(d),
        iota::counts(e),
    ensures
        defines::defines(
            iota::writer_definitions(d),
            "IOTA_DTYPE_"@ + called(e.format()),
            text::dec(
                if d.format() == e.format() {
                    1
                } else {
                    0
                },
            ),
        ),
{
    lemma_names();
    let flag = |x: DType| text::dec(common::flag(d == x));
    let a = common::definition("IOTA_DTYPE_INT32"@, flag(DType::Int32));
    let b = common::definition("IOTA_DTYPE_UINT32"@, flag(DType::UInt32));
    let c = common::definition("IOTA_DTYPE_FLOAT32"@, flag(DType::Float32));
    let f = common::definition("IOTA_DTYPE_BFLOAT16"@, flag(DType::Float16B));
    let all = iota::writer_definitions(d);
    let none = Seq::<char>::empty();
    assert(all == a + b + c + f);
    assert(all =~= none + a + (b + c + f));
    assert(all =~= a + b + (c + f));
    assert(all =~= (a + b) + c + f);
    assert(all =~= (a + b + c) + f + none);
}

/// The search for the largest element is told the type of the elements.
pub proof fn lemma_argmax_type(d: DType)
    requires
        argmax::source_refusal(d) is None,
    ensures
        argmax::dtype_word(d) == Some("ARGMAX_DTYPE_"@ + called(d.format())),
        d.format().class == NumberClass::Float,
{
    lemma_names();
}

/// The types for floating-point operations are those whose elements have exponents, and results
/// are collected in full registers just for elements of thirty-two bits.
pub proof fn lemma_type_classes(d: DType)
    ensures
        binary_eltwise::is_float(d) <==> d.format().class == NumberClass::Float,
        binary_eltwise::is_wide(d) <==> d.format().bits() == 32,
        kinds::is_wide(d) <==> d.format().bits() == 32,
        iota::counts(d) ==> d.format().bits() >= 16,
{
}

} // verus!
