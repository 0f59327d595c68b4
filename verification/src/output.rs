//! Output materialization: a finished table is serialized and compressed,
//! and the compressed size decides between inline delivery and a spill
//! file named after the job id. The spill file itself (holding the
//! uncompressed table) is written by the caller; this module only decides
//! and names.

use crate::sched::JobResult;
use polars::prelude::{IpcWriter, SerWriter};
use vstd::prelude::*;
use vstd::string::*;

verus! {

/// The engine's table type, carried through opaquely: only the engine
/// reads or writes its contents.
#[verifier::external_type_specification]
#[verifier::external_body]
pub struct ExDataFrame(polars::prelude::DataFrame);

/// The engine's column type: it appears in the table type's trait impls,
/// so it is declared alongside it, equally opaque.
#[verifier::external_type_specification]
#[verifier::external_body]
pub struct ExColumn(polars::prelude::Column);

/// The engine's error type: it appears in the table type's trait impls.
#[verifier::external_type_specification]
#[verifier::external_body]
pub struct ExPolarsError(polars::prelude::PolarsError);

/// Why an output could not be packaged.
#[derive(Debug, PartialEq, Eq, Clone, Copy, Structural)]
pub enum OutputError {
    /// The table could not be serialized.
    SerializeFailed,
    /// The serialized bytes could not be compressed.
    CompressFailed,
}

/// Compressed bytes to send inline, or the path of the spill file to write.
#[derive(Debug, Clone)]
pub struct PreparedOutput {
    pub bytes: Option<Vec<u8>>,
    pub path: Option<String>,
}

/// Relies on polars' `IpcWriter`: serializes one table to IPC (Feather)
/// bytes in memory; no promise is made about the bytes themselves.
#[verifier::external_body]
fn ipc_bytes(df: &polars::prelude::DataFrame) -> (r: Result<Vec<u8>, OutputError>)
    ensures
        r is Err ==> r->Err_0 == OutputError::SerializeFailed,
{
    let mut buf: Vec<u8> = Vec::new();
    let mut df2 = df.clone();
    match IpcWriter::new(&mut buf).finish(&mut df2) {
        Ok(()) => Ok(buf),
        Err(_) => Err(OutputError::SerializeFailed),
    }
}

/// What `zstd::encode_all` returns: a function of the bytes and the
/// compression level alone.
pub uninterp spec fn zstd_of(data: Seq<u8>, level: int) -> Seq<u8>;

/// Relies on `zstd::encode_all`: one-shot compression of an in-memory
/// buffer, deterministic in the bytes and the level.
#[verifier::external_body]
fn zstd_compress(data: Vec<u8>, level: i32) -> (r: Result<Vec<u8>, OutputError>)
    ensures
        r is Ok ==> r->Ok_0@ == zstd_of(data@, level as int),
        r is Err ==> r->Err_0 == OutputError::CompressFailed,
{
    match zstd::encode_all(std::io::Cursor::new(data), level) {
        Ok(v) => Ok(v),
        Err(_) => Err(OutputError::CompressFailed),
    }
}

/// What base64's standard engine returns: a function of the bytes alone.
pub uninterp spec fn base64_of(data: Seq<u8>) -> Seq<char>;

/// Relies on base64's standard-alphabet padded engine: encoding depends on
/// the bytes alone, four characters for every started group of three bytes.
#[verifier::external_body]
fn b64_encode(data: &Vec<u8>) -> (r: String)
    ensures
        r@ == base64_of(data@),
        r@.len() == 4 * ((data@.len() + 2) / 3),
{
    base64::Engine::encode(&base64::engine::general_purpose::STANDARD, data)
}

/// The decimal digit characters.
pub open spec fn dec_digit_char(d: int) -> char {
    if d == 0 {
        '0'
    } else if d == 1 {
        '1'
    } else if d == 2 {
        '2'
    } else if d == 3 {
        '3'
    } else if d == 4 {
        '4'
    } else if d == 5 {
        '5'
    } else if d == 6 {
        '6'
    } else if d == 7 {
        '7'
    } else if d == 8 {
        '8'
    } else {
        '9'
    }
}

/// The decimal digits of a nonnegative number, most significant first.
pub open spec fn dec_digits(n: int) -> Seq<char>
    decreases n,
{
    if n < 10 {
        seq![dec_digit_char(n)]
    } else {
        dec_digits(n / 10).push(dec_digit_char(n % 10))
    }
}

fn digit_str(d: u64) -> (r: &'static str)
    requires
        d < 10,
    ensures
        r@ == seq![dec_digit_char(d as int)],
{
    proof {
        reveal_strlit("0");
        reveal_strlit("1");
        reveal_strlit("2");
        reveal_strlit("3");
        reveal_strlit("4");
        reveal_strlit("5");
        reveal_strlit("6");
        reveal_strlit("7");
        reveal_strlit("8");
        reveal_strlit("9");
    }
    match d {
        0 => "0",
        1 => "1",
        2 => "2",
        3 => "3",
        4 => "4",
        5 => "5",
        6 => "6",
        7 => "7",
        8 => "8",
        _ => "9",
    }
}

/// Format a number in decimal, exactly its `dec_digits`.
pub fn u64_to_dec(n: u64) -> (r: String)
    ensures
        r@ == dec_digits(n as int),
    decreases n,
{
    if n < 10 {
        String::from_str(digit_str(n))
    } else {
        let mut s = u64_to_dec(n / 10);
        s.append(digit_str(n % 10));
        proof {
            assert(dec_digits(n as int / 10).push(dec_digit_char(n as int % 10)) =~= dec_digits(
                n as int / 10,
            ) + seq![dec_digit_char(n as int % 10)]);
        }
        s
    }
}

/// The spill file's name for a job id.
pub open spec fn spec_spill_name(id: u64) -> Seq<char> {
    "output_"@ + dec_digits(id as int) + ".feather"@
}

pub fn spill_name(id: u64) -> (r: String)
    ensures
        r@ == spec_spill_name(id),
{
    let mut s = String::from_str("output_");
    let digits = u64_to_dec(id);
    s.append(digits.as_str());
    s.append(".feather");
    s
}

/// The inline-delivery threshold, in bytes of compressed payload.
pub const INLINE_LIMIT: usize = 1000000;

/// Decide how a compressed payload is delivered: at or under the threshold
/// it goes inline, above it the result becomes a spill file named after
/// the job id (to be written by the caller), and no bytes are sent.
pub fn decide_delivery(id: u64, compressed: Vec<u8>) -> (r: PreparedOutput)
    ensures
        compressed@.len() <= INLINE_LIMIT ==> r.bytes == Some(compressed) && r.path is None,
        compressed@.len() > INLINE_LIMIT ==> r.bytes is None && r.path is Some
            && r.path->Some_0@ == spec_spill_name(id),
{
    if compressed.len() <= INLINE_LIMIT {
        PreparedOutput { bytes: Some(compressed), path: None }
    } else {
        PreparedOutput { bytes: None, path: Some(spill_name(id)) }
    }
}

/// Compress a serialized table and decide its delivery: the bytes are
/// zstd-compressed at the default level, and the compressed size decides
/// between inline delivery and the job's spill name.
pub fn compress_and_decide(id: u64, raw: Vec<u8>) -> (r: Result<PreparedOutput, OutputError>)
    ensures
        r is Err ==> r->Err_0 == OutputError::CompressFailed,
        r is Ok ==> ({
            let o = r->Ok_0;
            let z = zstd_of(raw@, 0);
            (z.len() <= INLINE_LIMIT ==> o.bytes is Some && o.bytes->Some_0@ == z && o.path
                is None) && (z.len() > INLINE_LIMIT ==> o.bytes is None && o.path is Some
                && o.path->Some_0@ == spec_spill_name(id))
        }),
{
    let compressed = match zstd_compress(raw, 0) {
        Ok(c) => c,
        Err(e) => {
            return Err(e);
        },
    };
    Ok(decide_delivery(id, compressed))
}

/// Package a finished table: serialize it to IPC bytes, compress them, and
/// decide delivery by the compressed size. Exactly one of `bytes` and
/// `path` is set on success; inline bytes never exceed the threshold, and
/// a path is always the job's spill name.
pub fn prepare_output(id: u64, df: &polars::prelude::DataFrame) -> (r: Result<
    PreparedOutput,
    OutputError,
>)
    ensures
        r is Ok ==> ({
            let o = r->Ok_0;
            (o.bytes is Some <==> o.path is None) && (o.bytes is Some
                ==> o.bytes->Some_0@.len() <= INLINE_LIMIT) && (o.path is Some
                ==> o.path->Some_0@ == spec_spill_name(id))
        }),
{
    let raw = match ipc_bytes(df) {
        Ok(b) => b,
        Err(e) => {
            return Err(e);
        },
    };
    compress_and_decide(id, raw)
}

impl JobResult {
    /// The response's output field: inline bytes are base64-encoded, a
    /// spilled result contributes its path, a failed one nothing.
    pub fn output_field(&self) -> (r: Option<String>)
        ensures
            self.bytes is Some ==> r is Some && r->Some_0@ == base64_of(self.bytes->Some_0@),
            self.bytes is None && self.path is Some ==> r is Some && r->Some_0@
                == self.path->Some_0@,
            self.bytes is None && self.path is None ==> r is None,
    {
        match &self.bytes {
            Some(b) => Some(b64_encode(b)),
            None => match &self.path {
                Some(p) => Some(p.clone()),
                None => None,
            },
        }
    }
}

} // verus!
