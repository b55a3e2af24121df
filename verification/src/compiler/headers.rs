//! The headers that are generated for the kernels of a program.

use vstd::prelude::*;
use crate::dram::DType;
use crate::kernels::lowering::{CompileConfig, Config, KernelCb};
use crate::text;

verus! {

/// A file that is written before the compiler runs.
#[derive(Clone, Debug, PartialEq, Eq)]
pub struct GeneratedFile {
    pub name: String,
    pub content: String,
}

/// What a contract says of a file: its name and its content.
pub type File = (Seq<char>, Seq<char>);

pub open spec fn files_view(files: Seq<GeneratedFile>) -> Seq<File> {
    files.map_values(|f: GeneratedFile| (f.name@, f.content@))
}

pub fn push_file(files: &mut Vec<GeneratedFile>, name: &str, content: String)
    ensures
        files_view(final(files)@) == files_view(old(files)@).push((name@, content@)),
{
    let ghost before = files_view(files@);
    files.push(GeneratedFile { name: name.to_owned(), content });
    assert(files_view(files@) =~= before.push((name@, content@)));
}

/// The format of buffer `i` after the first `n` of the listed buffers: that of
/// the last one of this number.
pub open spec fn format_of(cbs: Seq<KernelCb>, n: int, i: int) -> DType
    decreases n,
{
    if n <= 0 {
        DType::Float16B
    } else if cbs[n - 1].index == i {
        cbs[n - 1].dtype
    } else {
        format_of(cbs, n - 1, i)
    }
}

/// The formats of all buffers.
pub open spec fn formats(cbs: Seq<KernelCb>) -> Seq<DType> {
    Seq::new(32, |i: int| format_of(cbs, cbs.len() as int, i))
}

/// The numbers of the formats.
pub open spec fn format_codes(cbs: Seq<KernelCb>) -> Seq<int> {
    formats(cbs).map_values(|d: DType| d.code() as int)
}

/// The bytes of a tile in each buffer.
pub open spec fn tile_sizes(cbs: Seq<KernelCb>) -> Seq<int> {
    formats(cbs).map_values(|d: DType| d.tile_bytes())
}

/// The same number for each buffer.
pub open spec fn repeated(v: int) -> Seq<int> {
    Seq::new(32, |i: int| v)
}

/// The numbers of a list, separated by commas.
pub open spec fn listed(v: Seq<int>) -> Seq<char> {
    text::joined(v, ""@)
}

fn find_formats(cbs: &Vec<KernelCb>) -> (r: Vec<DType>)
    ensures
        r@ == formats(cbs@),
{
    let mut out: Vec<DType> = Vec::new();
    for i in 0..32
        invariant
            out@ == Seq::new(i as nat, |j: int| DType::Float16B),
    {
        out.push(DType::Float16B);
        assert(out@ =~= Seq::new((i + 1) as nat, |j: int| DType::Float16B));
    }
    assert(out@ =~= Seq::new(32, |i: int| format_of(cbs@, 0, i)));
    for k in 0..cbs.len()
        invariant
            out@ == Seq::new(32, |i: int| format_of(cbs@, k as int, i)),
    {
        if cbs[k].index < 32 {
            out.set(cbs[k].index, cbs[k].dtype);
        }
        assert(out@ =~= Seq::new(32, |i: int| format_of(cbs@, k + 1, i)));
    }
    out
}

fn list_codes(formats: &Vec<DType>) -> (r: String)
    ensures
        r@ == listed(formats@.map_values(|d: DType| d.code() as int)),
{
    let ghost all = formats@.map_values(|d: DType| d.code() as int);
    let mut words: Vec<u32> = Vec::new();
    for i in 0..formats.len()
        invariant
            all == formats@.map_values(|d: DType| d.code() as int),
            text::ints_u32(words@) == all.take(i as int),
    {
        let ghost before = text::ints_u32(words@);
        words.push(formats[i].value());
        assert(text::ints_u32(words@) =~= before.push(formats@[i as int].code() as int));
        assert(all.take(i + 1) =~= all.take(i as int).push(formats@[i as int].code() as int));
    }
    assert(all.take(formats@.len() as int) =~= all);
    text::join_words(words.as_slice())
}

fn list_tile_sizes(formats: &Vec<DType>) -> (r: String)
    ensures
        r@ == listed(formats@.map_values(|d: DType| d.tile_bytes())),
{
    let ghost all = formats@.map_values(|d: DType| d.tile_bytes());
    let mut words: Vec<u32> = Vec::new();
    for i in 0..formats.len()
        invariant
            all == formats@.map_values(|d: DType| d.tile_bytes()),
            text::ints_u32(words@) == all.take(i as int),
    {
        let ghost before = text::ints_u32(words@);
        words.push(formats[i].tile_size() as u32);
        assert(text::ints_u32(words@) =~= before.push(formats@[i as int].tile_bytes()));
        assert(all.take(i + 1) =~= all.take(i as int).push(formats@[i as int].tile_bytes()));
    }
    assert(all.take(formats@.len() as int) =~= all);
    text::join_words(words.as_slice())
}

fn list_repeated(v: u32) -> (r: String)
    ensures
        r@ == listed(repeated(v as int)),
{
    let mut words: Vec<u32> = Vec::new();
    for i in 0..32
        invariant
            text::ints_u32(words@) == repeated(v as int).take(i as int),
    {
        let ghost before = text::ints_u32(words@);
        words.push(v);
        assert(text::ints_u32(words@) =~= before.push(v as int));
        assert(repeated(v as int).take(i + 1) =~= repeated(v as int).take(i as int).push(v as int));
    }
    assert(text::ints_u32(words@) =~= repeated(v as int));
    text::join_words(words.as_slice())
}

/// The header with the formats of one direction.
pub open spec fn format_text(prefix: Seq<char>, ctype: Seq<char>, codes: Seq<int>) -> Seq<char> {
    "#pragma once\n#include <cstdint>\nconstexpr "@ + ctype + " "@ + prefix
        + "_src_format[32] = {"@ + listed(codes) + "};\nconstexpr "@ + ctype + " "@ + prefix
        + "_dst_format[32] = {"@ + listed(codes) + "};\n"@
}

fn format_header(prefix: &str, ctype: &str, formats: &Vec<DType>) -> (r: String)
    ensures
        r@ == format_text(
            prefix@,
            ctype@,
            formats@.map_values(|d: DType| d.code() as int),
        ),
{
    let codes = list_codes(formats);
    text::cat7(
        "#pragma once\n#include <cstdint>\nconstexpr ",
        ctype,
        " ",
        prefix,
        "_src_format[32] = {",
        codes.as_str(),
        "};\nconstexpr ",
    ).concat(ctype).concat(" ").concat(prefix).concat("_dst_format[32] = {").concat(
        codes.as_str(),
    ).concat("};\n")
}

/// The line that declares one array of the shapes of tiles.
pub open spec fn dims_line(ctype: Seq<char>, prefix: Seq<char>, name: Seq<char>, v: Seq<int>) -> Seq<
    char,
> {
    "constexpr "@ + ctype + " "@ + prefix + name + "[32] = {"@ + listed(v) + "};\n"@
}

fn push_dims(out: &mut String, ctype: &str, prefix: &str, name: &str, values: &str, Ghost(v): Ghost<
    Seq<int>,
>)
    requires
        values@ == listed(v),
    ensures
        final(out)@ == old(out)@ + dims_line(ctype@, prefix@, name@, v),
{
    let line = text::cat7("constexpr ", ctype, " ", prefix, name, "[32] = {", values).concat(
        "};\n",
    );
    out.append(line.as_str());
}

/// The header with the shapes of tiles of one direction.
pub open spec fn dims_text(prefix: Seq<char>, sizes: Seq<int>) -> Seq<char> {
    "#pragma once\n#include <cstdint>\n"@ + dims_line(
        "uint8_t"@,
        prefix,
        "_tile_num_faces"@,
        repeated(4),
    ) + dims_line("uint8_t"@, prefix, "_partial_face"@, repeated(0)) + dims_line(
        "uint8_t"@,
        prefix,
        "_tile_face_r_dim"@,
        repeated(16),
    ) + dims_line("uint8_t"@, prefix, "_narrow_tile"@, repeated(0)) + dims_line(
        "uint8_t"@,
        prefix,
        "_tile_r_dim"@,
        repeated(32),
    ) + dims_line("uint8_t"@, prefix, "_tile_c_dim"@, repeated(32)) + dims_line(
        "uint16_t"@,
        prefix,
        "_tile_size"@,
        sizes,
    )
}

fn dims_header(prefix: &str, formats: &Vec<DType>) -> (r: String)
    ensures
        r@ == dims_text(prefix@, formats@.map_values(|d: DType| d.tile_bytes())),
{
    let mut out = "#pragma once\n#include <cstdint>\n".to_owned();
    let r0 = list_repeated(0);
    let r4 = list_repeated(4);
    let r16 = list_repeated(16);
    let r32 = list_repeated(32);
    let sizes = list_tile_sizes(formats);
    let byte: &str = "uint8_t";
    push_dims(&mut out, byte, prefix, "_tile_num_faces", r4.as_str(), Ghost(repeated(4)));
    push_dims(&mut out, byte, prefix, "_partial_face", r0.as_str(), Ghost(repeated(0)));
    push_dims(&mut out, byte, prefix, "_tile_face_r_dim", r16.as_str(), Ghost(repeated(16)));
    push_dims(&mut out, byte, prefix, "_narrow_tile", r0.as_str(), Ghost(repeated(0)));
    push_dims(&mut out, byte, prefix, "_tile_r_dim", r32.as_str(), Ghost(repeated(32)));
    push_dims(&mut out, byte, prefix, "_tile_c_dim", r32.as_str(), Ghost(repeated(32)));
    push_dims(
        &mut out,
        "uint16_t",
        prefix,
        "_tile_size",
        sizes.as_str(),
        Ghost(formats@.map_values(|d: DType| d.tile_bytes())),
    );
    out
}

pub open spec fn bool_text(b: bool) -> Seq<char> {
    if b {
        "true"@
    } else {
        "false"@
    }
}

fn show_bool(b: bool) -> (r: &'static str)
    ensures
        r@ == bool_text(b),
{
    if b {
        "true"
    } else {
        "false"
    }
}

/// The headers of a configuration, in order of their names.
pub open spec fn header_files(c: Config) -> Seq<File> {
    let codes = format_codes(c.cbs);
    let sizes = tile_sizes(c.cbs);
    seq![
        (
            "chlkc_dst_accum_mode.h"@,
            "#pragma once\nconstexpr bool DST_ACCUM_MODE = "@ + bool_text(c.dst_accum_mode)
                + ";\n"@,
        ),
        (
            "chlkc_dst_sync_mode.h"@,
            "#pragma once\n#define DST_SYNC_MODE "@ + (if c.dst_full_sync {
                "DstSync::SyncFull"@
            } else {
                "DstSync::SyncHalf"@
            }) + "\n"@,
        ),
        (
            "chlkc_math_approx_mode.h"@,
            "#pragma once\nconstexpr bool APPROX = "@ + bool_text(c.approx) + ";\n"@,
        ),
        (
            "chlkc_math_fidelity.h"@,
            "#pragma once\n#include <cstdint>\nconstexpr std::int32_t MATH_FIDELITY = "@
                + text::dec(c.math_fidelity.code() as int) + ";\n"@,
        ),
        ("chlkc_pack_data_format.h"@, format_text("pack"@, "unsigned char"@, codes)),
        ("chlkc_pack_tile_dims.h"@, dims_text("pack"@, sizes)),
        ("chlkc_unpack_data_format.h"@, format_text("unpack"@, "std::int32_t"@, codes)),
        ("chlkc_unpack_tile_dims.h"@, dims_text("unpack"@, sizes)),
    ]
}

/// Generates the headers of a configuration.
pub fn ckernel_headers(config: &CompileConfig) -> (r: Vec<GeneratedFile>)
    ensures
        files_view(r@) == header_files(config@),
{
    let formats = find_formats(&config.cbs);
    let mut files: Vec<GeneratedFile> = Vec::new();
    push_file(
        &mut files,
        "chlkc_dst_accum_mode.h",
        text::cat3(
            "#pragma once\nconstexpr bool DST_ACCUM_MODE = ",
            show_bool(config.dst_accum_mode),
            ";\n",
        ),
    );
    let sync: &str = if config.dst_full_sync {
        "DstSync::SyncFull"
    } else {
        "DstSync::SyncHalf"
    };
    push_file(
        &mut files,
        "chlkc_dst_sync_mode.h",
        text::cat3("#pragma once\n#define DST_SYNC_MODE ", sync, "\n"),
    );
    push_file(
        &mut files,
        "chlkc_math_approx_mode.h",
        text::cat3("#pragma once\nconstexpr bool APPROX = ", show_bool(config.approx), ";\n"),
    );
    push_file(
        &mut files,
        "chlkc_math_fidelity.h",
        text::cat3(
            "#pragma once\n#include <cstdint>\nconstexpr std::int32_t MATH_FIDELITY = ",
            text::decimal_u32(config.math_fidelity.value() as u32).as_str(),
            ";\n",
        ),
    );
    push_file(
        &mut files,
        "chlkc_pack_data_format.h",
        format_header("pack", "unsigned char", &formats),
    );
    push_file(&mut files, "chlkc_pack_tile_dims.h", dims_header("pack", &formats));
    push_file(
        &mut files,
        "chlkc_unpack_data_format.h",
        format_header("unpack", "std::int32_t", &formats),
    );
    push_file(&mut files, "chlkc_unpack_tile_dims.h", dims_header("unpack", &formats));
    assert(files_view(files@) =~= header_files(config@));
    files
}

} // verus!
