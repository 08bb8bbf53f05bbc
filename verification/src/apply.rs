//! Turning a batch of edits into the content of a safe write.
//!
//! A caller produces edits — line ops (Line-hash mode) or byte-range edits
//! (Structural mode) — against a read snapshot; these functions confirm the
//! file has not drifted from it and splice the edits. The caller then runs
//! [`crate::write::check_write`] on the freshly read file and writes.

use vstd::prelude::*;
use vstd::string::StringExecFns;
use vstd::utf8::encode_utf8;

use crate::edit::{apply_line_ops, line_ops_applied, splice, splice_spec, Edit, EditError, LineOp, SpliceError};
use crate::hash::{file_hash, file_hash_spec};
use crate::text::{chars_of, seq_eq};
use crate::write::WriteError;

verus! {

/// Why an apply was refused.
#[derive(Debug)]
pub enum ApplyError {
    /// The file drifted since the read the edit was based on.
    Drift {
        /// The file hash the edit was based on.
        expected: String,
        /// The file's current hash.
        actual: String,
    },
    /// A line-op batch could not be mapped to edits.
    Edit(EditError),
    /// Byte-range edits could not be spliced (overlap / out of bounds).
    Splice(SpliceError),
    /// The safe write was refused (drift, new parse errors, I/O).
    Write(WriteError),
    /// A filesystem error.
    Io(std::io::Error),
}

/// Whether `source` still hashes to `expected`.
pub open spec fn undrifted(source: Seq<char>, expected: Seq<char>) -> bool {
    file_hash_spec(encode_utf8(source)) == expected
}

/// Whether `r` is the drift refusal of `source` against `expected`.
pub open spec fn is_drift(r: Result<String, ApplyError>, source: Seq<char>, expected: Seq<char>) -> bool {
    match r {
        Err(ApplyError::Drift { expected: e, actual: a }) => e@ == expected && a@ == file_hash_spec(
            encode_utf8(source),
        ),
        _ => false,
    }
}

/// Confirm `source` still hashes to `expected`.
fn check_undrifted(source: &str, expected: &str) -> (r: Result<(), ApplyError>)
    ensures
        r is Ok <==> undrifted(source@, expected@),
        r is Err ==> is_drift(Err(r->Err_0), source@, expected@),
{
    let b = source.as_bytes();
    let actual = file_hash(b);
    let ac = chars_of(actual.as_str());
    let ec = chars_of(expected);
    if !seq_eq(ac.as_slice(), ec.as_slice()) {
        return Err(ApplyError::Drift { expected: String::from_str(expected), actual });
    }
    Ok(())
}

/// The new content of a Line-hash [`LineOp`] batch applied to `source` (the
/// file as read), gated on `expected_file_hash`: a drifted file is refused,
/// otherwise the ops apply as [`apply_line_ops`] does.
pub fn plan_line_ops(source: &str, expected_file_hash: &str, ops: &[LineOp]) -> (r: Result<String, ApplyError>)
    ensures
        !undrifted(source@, expected_file_hash@) ==> is_drift(r, source@, expected_file_hash@),
        undrifted(source@, expected_file_hash@) ==> match r {
            Ok(s) => line_ops_applied(source@, ops@, Ok(s)),
            Err(ApplyError::Edit(x)) => line_ops_applied(source@, ops@, Err(x)),
            _ => false,
        },
{
    if let Err(e) = check_undrifted(source, expected_file_hash) {
        return Err(e);
    }
    match apply_line_ops(source, ops) {
        Ok(s) => Ok(s),
        Err(x) => Err(ApplyError::Edit(x)),
    }
}

/// The new content of a Structural byte-range [`Edit`] batch applied to
/// `source`, gated on `expected_file_hash`: a drifted file is refused,
/// otherwise the edits splice as [`splice`] does.
pub fn plan_edits(source: &str, expected_file_hash: &str, edits: Vec<Edit>) -> (r: Result<String, ApplyError>)
    ensures
        !undrifted(source@, expected_file_hash@) ==> is_drift(r, source@, expected_file_hash@),
        undrifted(source@, expected_file_hash@) ==> match r {
            Ok(s) => splice_spec(encode_utf8(source@), edits@) == Ok::<Seq<u8>, SpliceError>(encode_utf8(s@)),
            Err(ApplyError::Splice(x)) => splice_spec(encode_utf8(source@), edits@) == Err::<Seq<u8>, SpliceError>(x),
            _ => false,
        },
{
    if let Err(e) = check_undrifted(source, expected_file_hash) {
        return Err(e);
    }
    match splice(source, edits) {
        Ok(s) => Ok(s),
        Err(x) => Err(ApplyError::Splice(x)),
    }
}

} // verus!
