//! What the plugin interface asks for: buffers filled from and read to the host,
//! with the codes of the failures that it reports.

use vstd::prelude::*;
use crate::arith;
use crate::dram::{DType, DramBuffer};
use crate::error::{Error, ErrorKind};
use crate::executable;
use crate::text;

verus! {

pub const PJRT_ERROR_CODE_INVALID_ARGUMENT: i32 = 3;

pub const PJRT_ERROR_CODE_RESOURCE_EXHAUSTED: i32 = 8;

pub const PJRT_ERROR_CODE_FAILED_PRECONDITION: i32 = 9;

pub const PJRT_ERROR_CODE_UNIMPLEMENTED: i32 = 12;

pub const PJRT_ERROR_CODE_INTERNAL: i32 = 13;

/// A failure as the interface reports it.
#[derive(Clone, Debug)]
pub struct Status {
    pub code: i32,
    pub message: String,
}

/// What a contract says of a failure.
pub type Report = (i32, Seq<char>);

impl View for Status {
    type V = Report;

    open spec fn view(&self) -> Report {
        (self.code, self.message@)
    }
}

/// A text in which no character is NUL: each becomes a question mark.
pub open spec fn without_nul(s: Seq<char>) -> Seq<char> {
    text::replaced(s, "\0"@, "?"@)
}

/// No character of such a text is NUL, and the others are as they were.
pub proof fn lemma_without_nul(s: Seq<char>)
    ensures
        without_nul(s).len() == s.len(),
        forall|i: int|
            0 <= i < s.len() ==> #[trigger] without_nul(s)[i] == if s[i] == '\0' {
                '?'
            } else {
                s[i]
            },
    decreases s.len(),
{
    reveal_strlit("\0");
    reveal_strlit("?");
    if s.len() > 0 {
        lemma_without_nul(s.skip(1));
        let head = seq![
            if s[0] == '\0' {
                '?'
            } else {
                s[0]
            },
        ];
        assert(s.take(1) == "\0"@ <==> s[0] == '\0') by {
            if s[0] == '\0' {
                assert(s.take(1) =~= "\0"@);
            }
            assert(s.take(1)[0] == s[0]);
        }
        assert(head =~= if s[0] == '\0' {
            "?"@
        } else {
            seq![s[0]]
        });
        assert(without_nul(s) == head + without_nul(s.skip(1)));
        assert forall|i: int| 0 <= i < s.len() implies #[trigger] without_nul(s)[i] == if s[i]
            == '\0' {
            '?'
        } else {
            s[i]
        } by {
            if i > 0 {
                assert(without_nul(s)[i] == without_nul(s.skip(1))[i - 1]);
                assert(s.skip(1)[i - 1] == s[i]);
            }
        }
    }
}

/// Makes a text fit for a string that ends at the first NUL.
pub fn cstring_lossy(value: &str) -> (r: String)
    ensures
        r@ == without_nul(value@),
{
    proof {
        reveal_strlit("\0");
    }
    text::replace_text(value, "\0", "?")
}

fn status(code: i32, message: &str) -> (s: Status)
    ensures
        s@ == (code, without_nul(message@)),
{
    Status { code, message: cstring_lossy(message) }
}

/// The code of a failure of the runtime.
pub open spec fn code_of(kind: ErrorKind) -> i32 {
    match kind {
        ErrorKind::InvalidInput => PJRT_ERROR_CODE_INVALID_ARGUMENT,
        ErrorKind::OutOfMemory => PJRT_ERROR_CODE_RESOURCE_EXHAUSTED,
        _ => PJRT_ERROR_CODE_INTERNAL,
    }
}

pub fn io_error(err: &Error) -> (s: Status)
    ensures
        s@ == (code_of(err@.0), without_nul(err@.1)),
{
    let code: i32 = match err.kind {
        ErrorKind::InvalidInput => PJRT_ERROR_CODE_INVALID_ARGUMENT,
        ErrorKind::OutOfMemory => PJRT_ERROR_CODE_RESOURCE_EXHAUSTED,
        _ => PJRT_ERROR_CODE_INTERNAL,
    };
    status(code, err.message.as_str())
}

/// Why a type of the interface has no device type.
pub open spec fn type_report(code: i32) -> Option<Report> {
    match executable::dtype_refusal(code) {
        None => None,
        Some((kind, message)) => Some(
            (
                if kind == ErrorKind::InvalidInput {
                    PJRT_ERROR_CODE_INVALID_ARGUMENT
                } else {
                    PJRT_ERROR_CODE_UNIMPLEMENTED
                },
                without_nul(message),
            ),
        ),
    }
}

pub fn pjrt_buffer_type_to_dtype(buffer_type: i32) -> (r: Result<DType, Status>)
    ensures
        match r {
            Ok(d) => executable::dtype_of_code(buffer_type) == Some(d),
            Err(s) => type_report(buffer_type) == Some(s@),
        },
{
    match executable::pjrt_buffer_type_to_dtype(buffer_type) {
        Ok(d) => Ok(d),
        Err(e) => {
            let code: i32 = match e.kind {
                ErrorKind::InvalidInput => PJRT_ERROR_CODE_INVALID_ARGUMENT,
                _ => PJRT_ERROR_CODE_UNIMPLEMENTED,
            };
            Err(status(code, e.message.as_str()))
        },
    }
}

/// Whether a dimension is one of an array.
pub open spec fn is_dim(d: i64) -> bool {
    0 <= d <= usize::MAX
}

pub fn dims_i64_to_usize(dims: &[i64]) -> (r: Result<Vec<usize>, Status>)
    ensures
        match r {
            Ok(v) => (forall|i: int| 0 <= i < dims@.len() ==> is_dim(#[trigger] dims@[i]))
                && arith::ints(v@) == text::ints_i64(dims@),
            Err(s) => (exists|i: int| 0 <= i < dims@.len() && !is_dim(#[trigger] dims@[i])) && s@
                == (PJRT_ERROR_CODE_INVALID_ARGUMENT, without_nul("shape dimensions must be >= 0"@)),
        },
{
    let mut out: Vec<usize> = Vec::new();
    for i in 0..dims.len()
        invariant
            forall|j: int| 0 <= j < i ==> is_dim(#[trigger] dims@[j]),
            arith::ints(out@) == text::ints_i64(dims@).take(i as int),
    {
        let d: i64 = dims[i];
        if d < 0 || d as u64 > usize::MAX as u64 {
            assert(!is_dim(dims@[i as int]));
            return Err(
                status(PJRT_ERROR_CODE_INVALID_ARGUMENT, "shape dimensions must be >= 0"),
            );
        }
        let ghost before = out@;
        out.push(d as usize);
        assert(arith::ints(out@) =~= arith::ints(before).push(d as int));
        assert(arith::ints(out@) =~= text::ints_i64(dims@).take(i + 1));
    }
    assert(text::ints_i64(dims@).take(dims@.len() as int) =~= text::ints_i64(dims@));
    Ok(out)
}

/// A buffer that the interface handed out.
#[derive(Clone, Debug)]
pub struct TTRustBufferHandle {
    pub local_hardware_id: usize,
    pub buffer_type: i32,
    pub dims: Vec<i64>,
    pub dram_buffer: Option<DramBuffer>,
    pub deleted: bool,
}

impl TTRustBufferHandle {
    /// A handle holds a buffer as long as it is not deleted.
    pub open spec fn wf(&self) -> bool {
        self.deleted <==> self.dram_buffer is None
    }

    pub fn new(
        local_hardware_id: usize,
        buffer_type: i32,
        dims: Vec<i64>,
        dram_buffer: DramBuffer,
    ) -> (r: TTRustBufferHandle)
        ensures
            r.wf(),
            !r.deleted,
            r.local_hardware_id == local_hardware_id,
            r.buffer_type == buffer_type,
            r.dims == dims,
            r.dram_buffer == Some(dram_buffer),
    {
        TTRustBufferHandle {
            local_hardware_id,
            buffer_type,
            dims,
            dram_buffer: Some(dram_buffer),
            deleted: false,
        }
    }

    /// Gives the buffer back and keeps the handle.
    pub fn delete(&mut self)
        ensures
            final(self).wf(),
            final(self).deleted,
            final(self).local_hardware_id == old(self).local_hardware_id,
            final(self).buffer_type == old(self).buffer_type,
            final(self).dims == old(self).dims,
    {
        self.deleted = true;
        self.dram_buffer = None;
    }

    /// The bytes of the buffer; none where it was deleted.
    pub open spec fn bytes(&self) -> int {
        match self.dram_buffer {
            Some(b) => b.num_tiles * b.dtype.tile_bytes(),
            None => 0,
        }
    }
}

/// Whether a buffer is deleted; no buffer is.
pub fn is_deleted(buffer: Option<&TTRustBufferHandle>) -> (r: bool)
    ensures
        r == match buffer {
            Some(b) => b.deleted,
            None => true,
        },
{
    match buffer {
        Some(b) => b.deleted,
        None => true,
    }
}

/// The bytes of a buffer; no buffer has none.
pub fn buffer_size(buffer: Option<&TTRustBufferHandle>) -> (r: usize)
    requires
        buffer is Some ==> buffer->0.bytes() <= usize::MAX,
    ensures
        r == match buffer {
            Some(b) => b.bytes(),
            None => 0,
        },
{
    match buffer {
        Some(b) => match &b.dram_buffer {
            Some(d) => d.size(),
            None => 0,
        },
        None => 0,
    }
}

/// A request for a buffer that passed all tests.
#[derive(Debug)]
pub struct BufferRequest {
    pub dtype: DType,
    pub dims: Vec<i64>,
    pub shape: Vec<usize>,
}

/// Why a request for a buffer is refused.
pub open spec fn request_report(
    out_missing: bool,
    buffer_type: i32,
    dims: Option<Seq<i64>>,
    num_dims: int,
    data_missing: bool,
    data_len: int,
) -> Option<Report> {
    let argument = |m: Seq<char>| Some((PJRT_ERROR_CODE_INVALID_ARGUMENT, without_nul(m)));
    if out_missing {
        argument("out_buffer must not be null"@)
    } else if type_report(buffer_type) is Some {
        type_report(buffer_type)
    } else if num_dims > 0 && dims is None {
        argument("dims must not be null when num_dims > 0"@)
    } else if num_dims > 0 && exists|i: int| 0 <= i < dims->0.len() && !is_dim(
        #[trigger] dims->0[i],
    ) {
        argument("shape dimensions must be >= 0"@)
    } else if data_len > 0 && data_missing {
        argument("data must not be null"@)
    } else {
        None
    }
}

pub open spec fn slice_view(s: Option<&[i64]>) -> Option<Seq<i64>> {
    match s {
        Some(v) => Some(v@),
        None => None,
    }
}

fn copy_dims(dims: &[i64]) -> (r: Vec<i64>)
    ensures
        r@ == dims@,
{
    let mut out: Vec<i64> = Vec::new();
    for i in 0..dims.len()
        invariant
            out@ == dims@.take(i as int),
    {
        out.push(dims[i]);
        assert(out@ =~= dims@.take(i + 1));
    }
    assert(dims@.take(dims@.len() as int) =~= dims@);
    out
}

/// Tests a request for a buffer that is filled from the host. What is missing was
/// given as a null pointer.
pub fn buffer_request(
    out_missing: bool,
    buffer_type: i32,
    dims: Option<&[i64]>,
    num_dims: usize,
    data_missing: bool,
    data_len: usize,
) -> (r: Result<BufferRequest, Status>)
    ensures
        match r {
            Ok(q) => {
                &&& request_report(
                    out_missing,
                    buffer_type,
                    slice_view(dims),
                    num_dims as int,
                    data_missing,
                    data_len as int,
                ) is None
                &&& executable::dtype_of_code(buffer_type) == Some(q.dtype)
                &&& q.dims@ == if num_dims == 0 {
                    Seq::<i64>::empty()
                } else {
                    dims->0@
                }
                &&& arith::ints(q.shape@) == text::ints_i64(q.dims@)
            },
            Err(s) => request_report(
                out_missing,
                buffer_type,
                slice_view(dims),
                num_dims as int,
                data_missing,
                data_len as int,
            ) == Some(s@),
        },
{
    if out_missing {
        return Err(status(PJRT_ERROR_CODE_INVALID_ARGUMENT, "out_buffer must not be null"));
    }
    let dtype = match pjrt_buffer_type_to_dtype(buffer_type) {
        Ok(d) => d,
        Err(s) => {
            return Err(s);
        },
    };
    let given: Vec<i64> = if num_dims == 0 {
        Vec::new()
    } else {
        match dims {
            Some(v) => copy_dims(v),
            None => {
                return Err(
                    status(
                        PJRT_ERROR_CODE_INVALID_ARGUMENT,
                        "dims must not be null when num_dims > 0",
                    ),
                );
            },
        }
    };
    let shape = match dims_i64_to_usize(given.as_slice()) {
        Ok(v) => v,
        Err(s) => {
            proof {
                let i = choose|i: int| 0 <= i < given@.len() && !is_dim(#[trigger] given@[i]);
                assert(!is_dim(slice_view(dims)->0[i]));
            }
            return Err(s);
        },
    };
    if data_len > 0 && data_missing {
        return Err(status(PJRT_ERROR_CODE_INVALID_ARGUMENT, "data must not be null"));
    }
    Ok(BufferRequest { dtype, dims: given, shape })
}

/// Why a buffer is not read.
pub open spec fn read_report(
    buffer: Option<&TTRustBufferHandle>,
    out_len_missing: bool,
) -> Option<Report> {
    match buffer {
        None => Some(
            (PJRT_ERROR_CODE_INVALID_ARGUMENT, without_nul("buffer must not be null"@)),
        ),
        Some(b) => if b.dram_buffer is None {
            Some((PJRT_ERROR_CODE_FAILED_PRECONDITION, without_nul("buffer has been deleted"@)))
        } else if out_len_missing {
            Some((PJRT_ERROR_CODE_INVALID_ARGUMENT, without_nul("out_len must not be null"@)))
        } else {
            None
        },
    }
}

/// Tests a request to read a buffer: finds what is to be read.
pub fn read_request(buffer: Option<&TTRustBufferHandle>, out_len_missing: bool) -> (r: Result<
    &DramBuffer,
    Status,
>)
    ensures
        match r {
            Ok(b) => read_report(buffer, out_len_missing) is None && buffer is Some
                && buffer->0.dram_buffer == Some(*b),
            Err(s) => read_report(buffer, out_len_missing) == Some(s@),
        },
{
    match buffer {
        None => Err(status(PJRT_ERROR_CODE_INVALID_ARGUMENT, "buffer must not be null")),
        Some(b) => match &b.dram_buffer {
            None => Err(status(PJRT_ERROR_CODE_FAILED_PRECONDITION, "buffer has been deleted")),
            Some(d) => {
                if out_len_missing {
                    Err(status(PJRT_ERROR_CODE_INVALID_ARGUMENT, "out_len must not be null"))
                } else {
                    Ok(d)
                }
            },
        },
    }
}

/// Decides whether what was read is copied: where there is no destination only
/// its length is asked for.
pub fn read_reply(dst_missing: bool, dst_len: usize, len: usize) -> (r: Result<bool, Status>)
    ensures
        match r {
            Ok(copied) => copied == !dst_missing && (dst_missing || dst_len >= len),
            Err(s) => !dst_missing && dst_len < len && s@ == (
                PJRT_ERROR_CODE_RESOURCE_EXHAUSTED,
                without_nul("destination buffer is too small"@),
            ),
        },
{
    if dst_missing {
        return Ok(false);
    }
    if dst_len < len {
        return Err(
            status(PJRT_ERROR_CODE_RESOURCE_EXHAUSTED, "destination buffer is too small"),
        );
    }
    Ok(true)
}

} // verus!
