//! The allocation request flow: validation, naming, and status reporting.
//!
//! A request starts as raw user input — a directory string, a size string
//! and a unit tag. Validation rejects a blank directory, non-decimal size
//! text and non-positive magnitudes, in that order, before any filesystem
//! work is planned. A valid request carries the resolved byte count and the
//! generated probe filename; a front end executes it and reports the
//! outcome back for the status message.

use crate::decimal::{
    is_decimal, is_decimal_text, magnitude_positive, magnitude_positive_text, sat_u64,
    scaled_bytes, size_to_bytes, spec_size_to_bytes,
};
use crate::plan::{spec_validation_message, AllocationResult, ValidationError};
use crate::units::{spec_multiplier, Unit};
use vstd::prelude::*;

verus! {

/// A validated size: strictly positive decimal magnitude text plus a unit.
#[derive(Debug, PartialEq, Eq)]
pub struct SizeSpec {
    /// The magnitude exactly as entered, already checked to be decimal text
    /// denoting a strictly positive number.
    pub magnitude: String,
    /// The resolved unit.
    pub unit: Unit,
}

impl SizeSpec {
    /// Invariant: the magnitude text is decimal and strictly positive.
    pub open spec fn valid(self) -> bool {
        magnitude_positive(self.magnitude@)
    }

    /// Validate raw size input. The magnitude must be decimal text and
    /// strictly positive; any unrecognized unit tag falls back to bytes.
    pub fn new(magnitude_text: &str, unit_tag: &str) -> (r: Result<SizeSpec, ValidationError>)
        ensures
            !is_decimal(magnitude_text@) ==> r == Err::<SizeSpec, ValidationError>(
                ValidationError::NonNumericSize,
            ),
            is_decimal(magnitude_text@) && !magnitude_positive(magnitude_text@) ==> r == Err::<
                SizeSpec,
                ValidationError,
            >(ValidationError::NonPositiveSize),
            magnitude_positive(magnitude_text@) ==> (r matches Ok(s) && s.magnitude@
                == magnitude_text@ && s.unit == crate::units::spec_unit_of_tag(unit_tag@)
                && s.valid()),
    {
        if !is_decimal_text(magnitude_text) {
            Err(ValidationError::NonNumericSize)
        } else if !magnitude_positive_text(magnitude_text) {
            Err(ValidationError::NonPositiveSize)
        } else {
            Ok(
                SizeSpec {
                    magnitude: magnitude_text.to_owned(),
                    unit: Unit::from_tag(unit_tag),
                },
            )
        }
    }

    /// The byte count this size denotes: exactly
    /// `floor(magnitude * multiplier)`, saturating at `u64::MAX`.
    pub fn byte_count(&self) -> (r: u64)
        requires
            self.valid(),
        ensures
            r == sat_u64(scaled_bytes(self.magnitude@, spec_multiplier(self.unit))),
    {
        crate::decimal::bytes_for_unit(self.magnitude.as_str(), self.unit)
    }
}

/// A fully validated allocation request, ready to execute.
#[derive(Debug, PartialEq, Eq)]
pub struct AllocRequest {
    /// Target directory, as the user gave it.
    pub directory: String,
    /// Generated probe filename, `{magnitude}{unit}.devrom`.
    pub filename: String,
    /// Requested apparent size in bytes.
    pub size_bytes: u64,
}

/// Generate the probe filename: the magnitude and unit text the user
/// entered, concatenated, with the fixed marker extension, e.g.
/// `1MB.devrom`.
pub fn probe_filename(magnitude: &str, unit_tag: &str) -> (r: String)
    ensures
        r@ == magnitude@ + unit_tag@ + ".devrom"@,
{
    let mut r = magnitude.to_owned();
    r.append(unit_tag);
    r.append(".devrom");
    r
}

/// The validation verdict on raw request input, in the order the checks
/// run: blank directory first, then non-decimal size text, then a
/// non-positive magnitude; `None` when the request is acceptable.
pub open spec fn spec_validate(dir: Seq<char>, size: Seq<char>) -> Option<ValidationError> {
    if dir.len() == 0 {
        Some(ValidationError::EmptyDirectory)
    } else if !is_decimal(size) {
        Some(ValidationError::NonNumericSize)
    } else if !magnitude_positive(size) {
        Some(ValidationError::NonPositiveSize)
    } else {
        None
    }
}

/// The request state a front end edits: a directory, a size magnitude and a
/// unit tag, plus the status line of the last attempt.
pub struct FileCreatorApp {
    /// Directory the probe file goes into.
    pub save_dir: String,
    /// Size magnitude text.
    pub file_size: String,
    /// Unit tag: `"B"`, `"KB"`, `"MB"` or `"GB"`.
    pub size_unit: String,
    /// Status line of the last attempt.
    pub status_msg: String,
}

impl Default for FileCreatorApp {
    /// A fresh form: no directory, one megabyte, no status.
    fn default() -> (app: FileCreatorApp)
        ensures
            app.save_dir@ == Seq::<char>::empty(),
            app.file_size@ == "1"@,
            app.size_unit@ == "MB"@,
            app.status_msg@ == Seq::<char>::empty(),
    {
        FileCreatorApp {
            save_dir: String::new(),
            file_size: "1".to_owned(),
            size_unit: "MB".to_owned(),
            status_msg: String::new(),
        }
    }
}

impl FileCreatorApp {
    /// Validate the current input and turn it into an allocation request.
    ///
    /// On a validation failure the status line reports the reason, the
    /// error says which check failed, and no request is produced — the
    /// filesystem is never touched for such input. On success the request
    /// carries the directory, the generated `{magnitude}{unit}.devrom`
    /// filename and the exact byte count, and the status line is untouched.
    pub fn create_file(&mut self) -> (r: Result<AllocRequest, ValidationError>)
        ensures
            final(self).save_dir == old(self).save_dir,
            final(self).file_size == old(self).file_size,
            final(self).size_unit == old(self).size_unit,
            match spec_validate(old(self).save_dir@, old(self).file_size@) {
                Some(e) => r matches Err(e2) && e2 == e && final(self).status_msg@
                    == spec_validation_message(e),
                None => r matches Ok(req) && req.directory@ == old(self).save_dir@
                    && req.filename@ == old(self).file_size@ + old(self).size_unit@ + ".devrom"@
                    && req.size_bytes == spec_size_to_bytes(old(self).file_size@, old(self).size_unit@)
                    && final(self).status_msg == old(self).status_msg,
            },
    {
        if self.save_dir.as_str().is_empty() {
            let e = ValidationError::EmptyDirectory;
            self.status_msg = e.message();
            return Err(e);
        }
        if !is_decimal_text(self.file_size.as_str()) {
            let e = ValidationError::NonNumericSize;
            self.status_msg = e.message();
            return Err(e);
        }
        if !magnitude_positive_text(self.file_size.as_str()) {
            let e = ValidationError::NonPositiveSize;
            self.status_msg = e.message();
            return Err(e);
        }
        let filename = probe_filename(self.file_size.as_str(), self.size_unit.as_str());
        let size_bytes = size_to_bytes(self.file_size.as_str(), self.size_unit.as_str());
        Ok(AllocRequest { directory: self.save_dir.clone(), filename, size_bytes })
    }

    /// Record the outcome of an executed request on the status line: the
    /// full resolved path and the requested size on success, the failure
    /// message otherwise.
    pub fn record_result(&mut self, full_path: &str, result: &AllocationResult)
        ensures
            final(self).save_dir == old(self).save_dir,
            final(self).file_size == old(self).file_size,
            final(self).size_unit == old(self).size_unit,
            match *result {
                AllocationResult::Success => final(self).status_msg@ == "created file "@
                    + full_path@ + " (size: "@ + old(self).file_size@ + " "@ + old(
                    self,
                ).size_unit@ + ")"@,
                AllocationResult::Failure(m) => final(self).status_msg@ == "failed: "@ + m@,
            },
    {
        match result {
            AllocationResult::Success => {
                let mut s = "created file ".to_owned();
                s.append(full_path);
                s.append(" (size: ");
                s.append(self.file_size.as_str());
                s.append(" ");
                s.append(self.size_unit.as_str());
                s.append(")");
                self.status_msg = s;
            },
            AllocationResult::Failure(m) => {
                let mut s = "failed: ".to_owned();
                s.append(m.as_str());
                self.status_msg = s;
            },
        }
    }
}

} // verus!
